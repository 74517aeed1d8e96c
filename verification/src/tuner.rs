//! Load generators of the bandwidth test: one sender and one receiver per stream.

use vstd::prelude::*;

use crate::cic::Role;

verus! {

/// A command to a load generator.
#[derive(Debug)]
pub enum TunerCmd {
    /// Connect to this port.
    Port(u16),
    /// The agent has finished the stream.
    Done { role: Role, bytes: u64 },
    /// The agent has given the stream up.
    Failed { role: Role, reason: String },
    /// Stop sending.
    Shutdown,
    /// Give up.
    Kill,
}

/// How a load generator ended.
#[derive(Debug)]
pub enum TunerOutcome {
    Pass,
    Fail { reason: String },
}

/// What a load generator reports.
#[derive(Debug)]
pub struct TunerResult {
    pub uuid: String,
    pub role: Role,
    pub outcome: TunerOutcome,
    pub bytes: u64,
    pub elapsed_ms: u64,
}

impl TunerResult {
    /// The report of a failure with the given text.
    pub open spec fn is_failure(
        self,
        uuid: Seq<char>,
        role: Role,
        reason: Seq<char>,
        elapsed_ms: u64,
    ) -> bool {
        &&& self.uuid@ == uuid
        &&& self.role == role
        &&& self.outcome matches TunerOutcome::Fail { reason: t } && t@ == reason
        &&& self.bytes == 0
        &&& self.elapsed_ms == elapsed_ms
    }

    /// The report of a success.
    pub open spec fn is_pass(self, uuid: Seq<char>, role: Role, bytes: u64, elapsed_ms: u64) -> bool {
        &&& self.uuid@ == uuid
        &&& self.role == role
        &&& self.outcome is Pass
        &&& self.bytes == bytes
        &&& self.elapsed_ms == elapsed_ms
    }
}

/// Text of a generator that was told to give up.
pub open spec fn killed_text() -> Seq<char> {
    "killed by failsafe"@
}

/// Text of a generator that nobody commands any more.
pub open spec fn disconnected_text() -> Seq<char> {
    "CIC channel closed"@
}

/// The report of a failure.
pub fn fail(uuid: &String, role: Role, reason: String, elapsed_ms: u64) -> (r: TunerResult)
    ensures
        r.is_failure(uuid@, role, reason@, elapsed_ms),
{
    TunerResult {
        uuid: uuid.clone(),
        role,
        outcome: TunerOutcome::Fail { reason },
        bytes: 0,
        elapsed_ms,
    }
}

/// The report of a generator that was told to give up.
pub fn killed(uuid: &String, role: Role, elapsed_ms: u64) -> (r: TunerResult)
    ensures
        r.is_failure(uuid@, role, killed_text(), elapsed_ms),
{
    fail(uuid, role, "killed by failsafe".to_owned(), elapsed_ms)
}

/// The report of a generator that nobody commands any more.
pub fn disconnected(uuid: &String, role: Role, elapsed_ms: u64) -> (r: TunerResult)
    ensures
        r.is_failure(uuid@, role, disconnected_text(), elapsed_ms),
{
    fail(uuid, role, "CIC channel closed".to_owned(), elapsed_ms)
}

/// Where a sending generator stands.
#[derive(Debug, Clone, Copy, PartialEq, Eq, Structural)]
pub enum SenderPhase {
    /// Waits for the port to connect to.
    AwaitPort,
    /// Sends until it is told to stop.
    Sending,
    /// Has closed its socket and waits for the agent.
    AwaitAgent,
    /// Has reported.
    Ended,
}

/// What a sending generator does.
#[derive(Debug)]
pub enum SenderAction {
    /// Nothing.
    Ignore,
    /// Connect and start to send.
    Connect(u16),
    /// Stop sending, close the socket and wait for the writer.
    CloseSocket,
    /// Report.
    Report(TunerResult),
    /// Abort the writer and report.
    AbortAndReport(TunerResult),
}

/// A sending load generator.
#[derive(Debug)]
pub struct SenderTuner {
    pub uuid: String,
    pub phase: SenderPhase,
}

impl SenderTuner {
    /// A generator that waits for its port.
    pub fn new(uuid: String) -> (r: Self)
        ensures
            r.uuid == uuid,
            r.phase == SenderPhase::AwaitPort,
    {
        SenderTuner { uuid, phase: SenderPhase::AwaitPort }
    }

    /// Takes a command; nothing stands for the end of all commands.
    pub fn on_cmd(&mut self, cmd: Option<TunerCmd>, elapsed_ms: u64) -> (r: SenderAction)
        ensures
            final(self).uuid == old(self).uuid,
            match old(self).phase {
                SenderPhase::AwaitPort => match cmd {
                    Some(TunerCmd::Port(p)) => r == SenderAction::Connect(p) && final(self).phase
                        == SenderPhase::Sending,
                    Some(TunerCmd::Kill) => r matches SenderAction::Report(t) && t.is_failure(
                        old(self).uuid@,
                        Role::Sender,
                        killed_text(),
                        elapsed_ms,
                    ) && final(self).phase == SenderPhase::Ended,
                    None => r matches SenderAction::Report(t) && t.is_failure(
                        old(self).uuid@,
                        Role::Sender,
                        disconnected_text(),
                        elapsed_ms,
                    ) && final(self).phase == SenderPhase::Ended,
                    _ => r is Ignore && final(self).phase == old(self).phase,
                },
                SenderPhase::Sending => match cmd {
                    Some(TunerCmd::Shutdown) => r is CloseSocket && final(self).phase
                        == SenderPhase::AwaitAgent,
                    Some(TunerCmd::Done { .. }) => r is CloseSocket && final(self).phase
                        == SenderPhase::AwaitAgent,
                    Some(TunerCmd::Kill) => r matches SenderAction::AbortAndReport(t)
                        && t.is_failure(
                        old(self).uuid@,
                        Role::Sender,
                        killed_text(),
                        elapsed_ms,
                    ) && final(self).phase == SenderPhase::Ended,
                    Some(TunerCmd::Failed { reason, .. }) => r matches SenderAction::AbortAndReport(
                        t,
                    ) && t.is_failure(old(self).uuid@, Role::Sender, reason@, elapsed_ms) && final(self).phase == SenderPhase::Ended,
                    None => r matches SenderAction::AbortAndReport(t) && t.is_failure(
                        old(self).uuid@,
                        Role::Sender,
                        disconnected_text(),
                        elapsed_ms,
                    ) && final(self).phase == SenderPhase::Ended,
                    Some(TunerCmd::Port(_)) => r is Ignore && final(self).phase == old(self).phase,
                },
                SenderPhase::AwaitAgent => match cmd {
                    Some(TunerCmd::Done { bytes, .. }) => r matches SenderAction::Report(t)
                        && t.is_pass(old(self).uuid@, Role::Sender, bytes, elapsed_ms) && final(self).phase == SenderPhase::Ended,
                    Some(TunerCmd::Failed { reason, .. }) => r matches SenderAction::Report(t)
                        && t.is_failure(old(self).uuid@, Role::Sender, reason@, elapsed_ms) && final(self).phase == SenderPhase::Ended,
                    Some(TunerCmd::Kill) => r matches SenderAction::Report(t) && t.is_failure(
                        old(self).uuid@,
                        Role::Sender,
                        killed_text(),
                        elapsed_ms,
                    ) && final(self).phase == SenderPhase::Ended,
                    None => r matches SenderAction::Report(t) && t.is_failure(
                        old(self).uuid@,
                        Role::Sender,
                        disconnected_text(),
                        elapsed_ms,
                    ) && final(self).phase == SenderPhase::Ended,
                    _ => r is Ignore && final(self).phase == old(self).phase,
                },
                SenderPhase::Ended => r is Ignore && final(self).phase == old(self).phase,
            },
    {
        match self.phase {
            SenderPhase::AwaitPort => match cmd {
                Some(TunerCmd::Port(p)) => {
                    self.phase = SenderPhase::Sending;
                    SenderAction::Connect(p)
                },
                Some(TunerCmd::Kill) => {
                    self.phase = SenderPhase::Ended;
                    SenderAction::Report(killed(&self.uuid, Role::Sender, elapsed_ms))
                },
                None => {
                    self.phase = SenderPhase::Ended;
                    SenderAction::Report(disconnected(&self.uuid, Role::Sender, elapsed_ms))
                },
                _ => SenderAction::Ignore,
            },
            SenderPhase::Sending => match cmd {
                Some(TunerCmd::Shutdown) => {
                    self.phase = SenderPhase::AwaitAgent;
                    SenderAction::CloseSocket
                },
                Some(TunerCmd::Done { .. }) => {
                    self.phase = SenderPhase::AwaitAgent;
                    SenderAction::CloseSocket
                },
                Some(TunerCmd::Kill) => {
                    self.phase = SenderPhase::Ended;
                    SenderAction::AbortAndReport(killed(&self.uuid, Role::Sender, elapsed_ms))
                },
                Some(TunerCmd::Failed { reason, .. }) => {
                    self.phase = SenderPhase::Ended;
                    SenderAction::AbortAndReport(
                        fail(&self.uuid, Role::Sender, reason, elapsed_ms),
                    )
                },
                None => {
                    self.phase = SenderPhase::Ended;
                    SenderAction::AbortAndReport(
                        disconnected(&self.uuid, Role::Sender, elapsed_ms),
                    )
                },
                Some(TunerCmd::Port(_)) => SenderAction::Ignore,
            },
            SenderPhase::AwaitAgent => match cmd {
                Some(TunerCmd::Done { bytes, .. }) => {
                    self.phase = SenderPhase::Ended;
                    SenderAction::Report(
                        TunerResult {
                            uuid: self.uuid.clone(),
                            role: Role::Sender,
                            outcome: TunerOutcome::Pass,
                            bytes,
                            elapsed_ms,
                        },
                    )
                },
                Some(TunerCmd::Failed { reason, .. }) => {
                    self.phase = SenderPhase::Ended;
                    SenderAction::Report(fail(&self.uuid, Role::Sender, reason, elapsed_ms))
                },
                Some(TunerCmd::Kill) => {
                    self.phase = SenderPhase::Ended;
                    SenderAction::Report(killed(&self.uuid, Role::Sender, elapsed_ms))
                },
                None => {
                    self.phase = SenderPhase::Ended;
                    SenderAction::Report(disconnected(&self.uuid, Role::Sender, elapsed_ms))
                },
                _ => SenderAction::Ignore,
            },
            SenderPhase::Ended => SenderAction::Ignore,
        }
    }
}

/// Where a receiving generator stands.
#[derive(Debug, Clone, Copy, PartialEq, Eq, Structural)]
pub enum ReceiverPhase {
    /// Waits for the port to connect to.
    AwaitPort,
    /// Reads and waits for the agent.
    Reading,
    /// Waits for its reader to end.
    AwaitReader,
    /// Has reported.
    Ended,
}

/// What a receiving generator does.
#[derive(Debug)]
pub enum ReceiverAction {
    /// Nothing.
    Ignore,
    /// Connect and start to read.
    Connect(u16),
    /// Wait for the reader, then report with this outcome.
    AwaitReader(TunerOutcome),
    /// Abort the reader, then report with this outcome.
    AbortReader(TunerOutcome),
    /// Report.
    Report(TunerResult),
    /// Abort the reader and report.
    AbortAndReport(TunerResult),
}

/// A receiving load generator.
#[derive(Debug)]
pub struct ReceiverTuner {
    pub uuid: String,
    pub phase: ReceiverPhase,
}

impl ReceiverTuner {
    /// A generator that waits for its port.
    pub fn new(uuid: String) -> (r: Self)
        ensures
            r.uuid == uuid,
            r.phase == ReceiverPhase::AwaitPort,
    {
        ReceiverTuner { uuid, phase: ReceiverPhase::AwaitPort }
    }

    /// Takes a command; nothing stands for the end of all commands.
    pub fn on_cmd(&mut self, cmd: Option<TunerCmd>, elapsed_ms: u64) -> (r: ReceiverAction)
        ensures
            final(self).uuid == old(self).uuid,
            match old(self).phase {
                ReceiverPhase::AwaitPort => match cmd {
                    Some(TunerCmd::Port(p)) => r == ReceiverAction::Connect(p) && final(self).phase
                        == ReceiverPhase::Reading,
                    Some(TunerCmd::Kill) => r matches ReceiverAction::Report(t) && t.is_failure(
                        old(self).uuid@,
                        Role::Receiver,
                        killed_text(),
                        elapsed_ms,
                    ) && final(self).phase == ReceiverPhase::Ended,
                    None => r matches ReceiverAction::Report(t) && t.is_failure(
                        old(self).uuid@,
                        Role::Receiver,
                        disconnected_text(),
                        elapsed_ms,
                    ) && final(self).phase == ReceiverPhase::Ended,
                    _ => r is Ignore && final(self).phase == old(self).phase,
                },
                ReceiverPhase::Reading => match cmd {
                    Some(TunerCmd::Done { .. }) => r == ReceiverAction::AwaitReader(
                        TunerOutcome::Pass,
                    ) && final(self).phase == ReceiverPhase::AwaitReader,
                    Some(TunerCmd::Failed { reason, .. }) => r == ReceiverAction::AbortReader(
                        TunerOutcome::Fail { reason },
                    ) && final(self).phase == ReceiverPhase::AwaitReader,
                    Some(TunerCmd::Kill) => r matches ReceiverAction::AbortAndReport(t)
                        && t.is_failure(
                        old(self).uuid@,
                        Role::Receiver,
                        killed_text(),
                        elapsed_ms,
                    ) && final(self).phase == ReceiverPhase::Ended,
                    None => r matches ReceiverAction::AbortAndReport(t) && t.is_failure(
                        old(self).uuid@,
                        Role::Receiver,
                        disconnected_text(),
                        elapsed_ms,
                    ) && final(self).phase == ReceiverPhase::Ended,
                    _ => r is Ignore && final(self).phase == old(self).phase,
                },
                _ => r is Ignore && final(self).phase == old(self).phase,
            },
    {
        match self.phase {
            ReceiverPhase::AwaitPort => match cmd {
                Some(TunerCmd::Port(p)) => {
                    self.phase = ReceiverPhase::Reading;
                    ReceiverAction::Connect(p)
                },
                Some(TunerCmd::Kill) => {
                    self.phase = ReceiverPhase::Ended;
                    ReceiverAction::Report(killed(&self.uuid, Role::Receiver, elapsed_ms))
                },
                None => {
                    self.phase = ReceiverPhase::Ended;
                    ReceiverAction::Report(disconnected(&self.uuid, Role::Receiver, elapsed_ms))
                },
                _ => ReceiverAction::Ignore,
            },
            ReceiverPhase::Reading => match cmd {
                Some(TunerCmd::Done { .. }) => {
                    self.phase = ReceiverPhase::AwaitReader;
                    ReceiverAction::AwaitReader(TunerOutcome::Pass)
                },
                Some(TunerCmd::Failed { reason, .. }) => {
                    self.phase = ReceiverPhase::AwaitReader;
                    ReceiverAction::AbortReader(TunerOutcome::Fail { reason })
                },
                Some(TunerCmd::Kill) => {
                    self.phase = ReceiverPhase::Ended;
                    ReceiverAction::AbortAndReport(killed(&self.uuid, Role::Receiver, elapsed_ms))
                },
                None => {
                    self.phase = ReceiverPhase::Ended;
                    ReceiverAction::AbortAndReport(
                        disconnected(&self.uuid, Role::Receiver, elapsed_ms),
                    )
                },
                _ => ReceiverAction::Ignore,
            },
            _ => ReceiverAction::Ignore,
        }
    }

    /// The reader has ended, with the bytes that it counted unless it failed: the
    /// report.
    pub fn on_reader_ended(&mut self, outcome: TunerOutcome, read: Option<u64>, elapsed_ms: u64)
        -> (r: TunerResult)
        ensures
            r.uuid@ == old(self).uuid@,
            r.role == Role::Receiver,
            r.outcome == outcome,
            r.bytes == (match read {
                Some(n) => n,
                None => 0,
            }),
            r.elapsed_ms == elapsed_ms,
            final(self).uuid == old(self).uuid,
            final(self).phase == ReceiverPhase::Ended,
    {
        self.phase = ReceiverPhase::Ended;
        let bytes: u64 = match read {
            Some(n) => n,
            None => 0,
        };
        TunerResult { uuid: self.uuid.clone(), role: Role::Receiver, outcome, bytes, elapsed_ms }
    }
}

} // verus!
