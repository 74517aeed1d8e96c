//! What holds of a session over its whole life: the limit on outbound streams, that no
//! stream is lost, and that a stream with lost bytes is given up.

use vstd::prelude::*;

use crate::downlink::{
    law_pump_without_a_stream_fails, none_handed_over, pump_does, pump_over, reconnect_outcome,
    DownlinkAction, DownlinkEvent, DownlinkPhase, DownlinkPump, Reconnected,
};
use crate::failure::FailReason;
use crate::runtime::position_of;
use crate::session_manager::{
    by_priority, ended_state, enqueues, in_order, is_queue_slot, known, lemma_enqueues, lemma_filter_unique,
    lemma_ids_filter_unique, lemma_removed, link_changed, opened_state, other_than, pruned_state,
    queue_has_room, queues, reconnected_state, reissued_state, removed, restored_state,
    resumed_state, slot_free, unique, ManagerState, RestoreOutcome, StartStatus, StreamRef,
};
use crate::transport::LinkState;

verus! {

/// What happens to a session.
pub enum ManagerEvent {
    /// A stream is to be started; `opens` says whether it could be opened, where
    /// that was tried.
    Start { r: StreamRef, opens: bool },
    /// A waiting stream's turn has come.
    Reissue { r: StreamRef, opens: bool },
    /// An outbound stream has ended.
    Ended { uuid: u128 },
    /// The link state has changed.
    Link { state: LinkState },
    /// A new session is live.
    Reconnected,
    /// A fresh stream was offered to an outbound stream.
    Restored { uuid: u128, outcome: RestoreOutcome },
    /// Outbound streams were found to have ended.
    Pruned { ended: Seq<u128> },
}

/// `t` is the state with the stream queued, or unchanged when the queue is full.
pub open spec fn queued_or_refused(s: ManagerState, t: ManagerState, r: StreamRef) -> bool {
    if queue_has_room(s, r) {
        queues(s, t, r)
    } else {
        t == s
    }
}

/// `t` is the state after an event.
pub open spec fn manager_steps(s: ManagerState, e: ManagerEvent, t: ManagerState) -> bool {
    match e {
        ManagerEvent::Start { r, opens } => if s.session_up && slot_free(s) && opens {
            t == opened_state(s, r)
        } else {
            queued_or_refused(s, t, r)
        },
        ManagerEvent::Reissue { r, opens } => {
            &&& s.session_up && slot_free(s)
            &&& known(s.pending, r.uuid)
            &&& t == reissued_state(s, r, opens)
        },
        ManagerEvent::Ended { uuid } => t == ended_state(s, uuid),
        ManagerEvent::Link { state } => t == link_changed(s, state),
        ManagerEvent::Reconnected => t == reconnected_state(s),
        ManagerEvent::Restored { uuid, outcome } => t == restored_state(s, uuid, outcome),
        ManagerEvent::Pruned { ended } => t == pruned_state(s, ended),
    }
}

/// The states that a session goes through, one before the first event and one after
/// each.
pub open spec fn is_life(states: Seq<ManagerState>, events: Seq<ManagerEvent>) -> bool {
    &&& states.len() == events.len() + 1
    &&& forall|i: int|
        0 <= i < events.len() ==> manager_steps(
            states[i],
            #[trigger] events[i],
            states[i + 1],
        )
}

/// The event ends the outbound stream.
pub open spec fn ends(e: ManagerEvent, uuid: u128) -> bool {
    match e {
        ManagerEvent::Ended { uuid: gone } => gone == uuid,
        ManagerEvent::Restored { uuid: gone, outcome } => gone == uuid && outcome
            == RestoreOutcome::PumpGone,
        ManagerEvent::Pruned { ended } => ended.contains(uuid),
        _ => false,
    }
}

/// The stream waits or is open.
pub open spec fn is_kept(s: ManagerState, uuid: u128) -> bool {
    known(s.pending, uuid) || known(s.uplinks, uuid)
}

/// A stream in a list that another is taken out of stays there.
proof fn lemma_others_stay(list: Seq<StreamRef>, gone: u128, uuid: u128)
    requires
        known(list, uuid),
        uuid != gone,
    ensures
        known(removed(list, gone), uuid),
{
    let i = choose|i: int| 0 <= i < list.len() && (#[trigger] list[i]).uuid == uuid;
    if known(list, gone) {
        let at = crate::session_manager::place(list, gone);
        let rest = list.remove(at);
        if i < at {
            assert(rest[i] == list[i]);
        } else {
            assert(rest[i - 1] == list[i]);
        }
    }
}

proof fn lemma_last_is_known(list: Seq<StreamRef>, r: StreamRef)
    ensures
        known(list.push(r), r.uuid),
        forall|x: u128| known(list, x) ==> #[trigger] known(list.push(r), x),
{
    assert(list.push(r)[list.len() as int] == r);
    assert forall|x: u128| known(list, x) implies #[trigger] known(list.push(r), x) by {
        let i = choose|i: int| 0 <= i < list.len() && (#[trigger] list[i]).uuid == x;
        assert(list.push(r)[i] == list[i]);
    }
}

proof fn lemma_queued_is_known(before: Seq<StreamRef>, after: Seq<StreamRef>, r: StreamRef)
    requires
        enqueues(before, after, r),
    ensures
        known(after, r.uuid),
        forall|x: u128| known(removed(before, r.uuid), x) ==> #[trigger] known(after, x),
{
    let rest = removed(before, r.uuid);
    let at = choose|i: int|
        #![trigger rest.insert(i, r)]
        crate::session_manager::is_queue_slot(rest, r.priority.0, i) && after == rest.insert(i, r);
    assert(after[at] == r);
    assert forall|x: u128| known(rest, x) implies #[trigger] known(after, x) by {
        let i = choose|i: int| 0 <= i < rest.len() && (#[trigger] rest[i]).uuid == x;
        if i < at {
            assert(after[i] == rest[i]);
        } else {
            assert(after[i + 1] == rest[i]);
        }
    }
}

/// One event leaves the lists in order, opens no stream beyond the limit, and loses
/// no stream that it does not end.
proof fn lemma_step(s: ManagerState, e: ManagerEvent, t: ManagerState)
    requires
        in_order(s),
        manager_steps(s, e, t),
    ensures
        in_order(t),
        t.max_concurrent == s.max_concurrent,
        s.max_concurrent matches Some(n) ==> (s.uplinks.len() <= n ==> t.uplinks.len() <= n),
        forall|uuid: u128| #![trigger is_kept(t, uuid)]
            is_kept(s, uuid) && !ends(e, uuid) ==> is_kept(t, uuid),
{
    match e {
        ManagerEvent::Start { r, opens } => {
            lemma_removed(s.uplinks, r.uuid);
            lemma_removed(s.pending, r.uuid);
            if s.session_up && slot_free(s) && opens {
                lemma_last_is_known(removed(s.uplinks, r.uuid), r);
                lemma_opened(s, r);
            } else if queue_has_room(s, r) {
                lemma_enqueues(s.pending, t.pending, r);
                lemma_queued_is_known(s.pending, t.pending, r);
            }
            assert forall|uuid: u128| is_kept(s, uuid) && !ends(e, uuid) implies #[trigger] is_kept(
                t,
                uuid,
            ) by {
                if uuid != r.uuid {
                    if known(s.uplinks, uuid) {
                        lemma_others_stay(s.uplinks, r.uuid, uuid);
                    }
                    if known(s.pending, uuid) {
                        lemma_others_stay(s.pending, r.uuid, uuid);
                    }
                }
            }
        },
        ManagerEvent::Reissue { r, opens } => {
            lemma_removed(s.uplinks, r.uuid);
            lemma_removed(s.pending, r.uuid);
            if opens {
                lemma_last_is_known(removed(s.uplinks, r.uuid), r);
                lemma_opened(s, r);
            }
            assert forall|uuid: u128| is_kept(s, uuid) && !ends(e, uuid) implies #[trigger] is_kept(
                t,
                uuid,
            ) by {
                if uuid != r.uuid {
                    if known(s.uplinks, uuid) {
                        lemma_others_stay(s.uplinks, r.uuid, uuid);
                    }
                    if known(s.pending, uuid) {
                        lemma_others_stay(s.pending, r.uuid, uuid);
                    }
                }
            }
        },
        ManagerEvent::Ended { uuid: gone } => {
            lemma_ended(s, gone);
        },
        ManagerEvent::Restored { uuid: gone, outcome } => {
            lemma_ended(s, gone);
        },
        ManagerEvent::Pruned { ended } => {
            lemma_filter_unique(s.uplinks, ended);
            assert forall|uuid: u128| is_kept(s, uuid) && !ends(e, uuid) implies #[trigger] is_kept(
                t,
                uuid,
            ) by {
                assert(known(t.uplinks, uuid) <==> known(s.uplinks, uuid) && !ended.contains(uuid));
            }
        },
        _ => {},
    }
}

proof fn lemma_opened(s: ManagerState, r: StreamRef)
    requires
        in_order(s),
    ensures
        in_order(opened_state(s, r)),
        opened_state(s, r).uplinks.len() <= s.uplinks.len() + 1,
{
    lemma_removed(s.uplinks, r.uuid);
    let list = opened_state(s, r).uplinks;
    let rest = removed(s.uplinks, r.uuid);
    assert forall|i: int, j: int| 0 <= i < j < list.len() implies (#[trigger] list[i]).uuid != (
    #[trigger] list[j]).uuid by {
        if j == rest.len() {
            assert(rest[i] == list[i]);
            assert(!known(rest, r.uuid));
        } else {
            assert(rest[i] == list[i] && rest[j] == list[j]);
        }
    }
}

proof fn lemma_ended(s: ManagerState, gone: u128)
    requires
        in_order(s),
    ensures
        in_order(ended_state(s, gone)),
        ended_state(s, gone).uplinks.len() <= s.uplinks.len(),
        forall|uuid: u128| uuid != gone && #[trigger] known(s.uplinks, uuid) ==> known(
            ended_state(s, gone).uplinks,
            uuid,
        ),
{
    lemma_removed(s.uplinks, gone);
    assert forall|uuid: u128| uuid != gone && #[trigger] known(s.uplinks, uuid) implies known(
        ended_state(s, gone).uplinks,
        uuid,
    ) by {
        lemma_others_stay(s.uplinks, gone, uuid);
    }
}

/// Throughout a session's life the limit on outbound streams is kept, the queue is
/// ordered and within its bound, and no stream is listed twice.
pub proof fn law_limits_are_kept(states: Seq<ManagerState>, events: Seq<ManagerEvent>, n: usize)
    requires
        is_life(states, events),
        in_order(states[0]),
        states[0].max_concurrent == Some(n),
        states[0].uplinks.len() <= n,
    ensures
        forall|i: int|
            0 <= i < states.len() ==> in_order(#[trigger] states[i]) && states[i].uplinks.len()
                <= n && states[i].max_concurrent == Some(n),
    decreases events.len(),
{
    if events.len() > 0 {
        let last = events.len() - 1;
        let before = events.drop_last();
        let states_before = states.drop_last();
        assert forall|i: int| 0 <= i < before.len() implies manager_steps(
            states_before[i],
            #[trigger] before[i],
            states_before[i + 1],
        ) by {
            assert(before[i] == events[i]);
        }
        law_limits_are_kept(states_before, before, n);
        assert(states_before[last as int] == states[last as int]);
        assert(manager_steps(states[last as int], events[last as int], states[last + 1]));
        lemma_step(states[last as int], events[last as int], states[last + 1]);
        assert forall|i: int| 0 <= i < states.len() implies in_order(#[trigger] states[i])
            && states[i].uplinks.len() <= n && states[i].max_concurrent == Some(n) by {
            if i <= last {
                assert(states_before[i] == states[i]);
            }
        }
    }
}

/// No stream is lost: one that waits or is open goes on waiting or being open,
/// through outages and reconnections, until an event ends it.
pub proof fn law_no_stream_is_lost(
    states: Seq<ManagerState>,
    events: Seq<ManagerEvent>,
    uuid: u128,
)
    requires
        is_life(states, events),
        in_order(states[0]),
        is_kept(states[0], uuid),
        forall|i: int| 0 <= i < events.len() ==> !ends(#[trigger] events[i], uuid),
    ensures
        in_order(states.last()),
        is_kept(states.last(), uuid),
    decreases events.len(),
{
    if events.len() > 0 {
        let last = events.len() - 1;
        let before = events.drop_last();
        let states_before = states.drop_last();
        assert forall|i: int| 0 <= i < before.len() implies manager_steps(
            states_before[i],
            #[trigger] before[i],
            states_before[i + 1],
        ) by {
            assert(before[i] == events[i]);
        }
        assert forall|i: int| 0 <= i < before.len() implies !ends(#[trigger] before[i], uuid) by {
            assert(before[i] == events[i]);
        }
        law_no_stream_is_lost(states_before, before, uuid);
        assert(states_before.last() == states[last as int]);
        assert(manager_steps(states[last as int], events[last as int], states[last + 1]));
        lemma_step(states[last as int], events[last as int], states[last + 1]);
    }
}

/// A stream that is started is kept unless the queue is full, and a full queue keeps
/// all that it has.
pub proof fn law_start_keeps_or_refuses(s: ManagerState, r: StreamRef, opens: bool, t: ManagerState)
    requires
        in_order(s),
        manager_steps(s, ManagerEvent::Start { r, opens }, t),
    ensures
        is_kept(t, r.uuid) || (t == s && !queue_has_room(s, r)),
{
    if s.session_up && slot_free(s) && opens {
        lemma_last_is_known(removed(s.uplinks, r.uuid), r);
    } else if queue_has_room(s, r) {
        lemma_queued_is_known(s.pending, t.pending, r);
    }
}

/// A sender that continues behind bytes that were never delivered ends the stream: it is
/// no longer listed, all others still are, and its pump, to which no stream is handed
/// any more, delivers nothing further and fails.
pub proof fn law_reconnect_gap_ends_the_stream(
    s: ManagerState,
    uuid: u128,
    p: DownlinkPump,
    replay_from: u64,
    handed_over: bool,
    events: Seq<DownlinkEvent>,
    a: DownlinkAction,
)
    requires
        in_order(s),
        replay_from > p.delivery.bytes_written,
        p.phase == DownlinkPhase::AwaitReconnect,
        none_handed_over(events),
        events.contains(DownlinkEvent::Stream(false)),
        pump_does(p, DownlinkEvent::Stream(false), a),
    ensures
        ({
            let outcome = reconnect_outcome(p.delivery.bytes_written, replay_from, handed_over);
            let t = resumed_state(s, uuid, outcome);
            &&& outcome == Reconnected::Gap
            &&& !t.downlinks.contains(uuid)
            &&& forall|x: u128|
                x != uuid ==> (#[trigger] t.downlinks.contains(x) <==> s.downlinks.contains(x))
        }),
        a matches DownlinkAction::Fail(f) && f.code == FailReason::LinkFailed,
        pump_over(p, events).phase == DownlinkPhase::Ended,
        pump_over(p, events).delivery == p.delivery,
{
    law_pump_without_a_stream_fails(p, events, a);
    lemma_ids_filter_unique(s.downlinks, other_than(uuid));
}

/// Streams that are queued one after the other while none leaves the queue are answered
/// with positions that count up by one: the `i`-th of them with `i` more than waited
/// before, the first one of an empty queue with one.
pub proof fn law_queue_positions_count_up(
    states: Seq<ManagerState>,
    refs: Seq<StreamRef>,
    i: int,
)
    requires
        states.len() == refs.len() + 1,
        in_order(states[0]),
        forall|k: int|
            0 <= k < refs.len() ==> !known((#[trigger] states[k]).pending, refs[k].uuid) && queues(
                states[k],
                states[k + 1],
                refs[k],
            ),
        0 <= i < refs.len(),
        states[0].pending.len() + refs.len() <= i32::MAX,
    ensures
        states[i + 1].pending.len() == states[0].pending.len() + i + 1,
        position_of(StartStatus::Pending(states[i + 1].pending.len() as usize))
            == states[0].pending.len() + i + 1,
        unique(states[i + 1].pending) && by_priority(states[i + 1].pending),
        forall|k: int| 0 <= k <= i ==> known(states[i + 1].pending, (#[trigger] refs[k]).uuid),
    decreases i,
{
    if i > 0 {
        law_queue_positions_count_up(states, refs, i - 1);
    }
    assert(!known(states[i].pending, refs[i].uuid));
    lemma_enqueues(states[i].pending, states[i + 1].pending, refs[i]);
    let before = states[i].pending;
    let after = states[i + 1].pending;
    assert(removed(before, refs[i].uuid) == before);
    let at = choose|k: int|
        #![trigger before.insert(k, refs[i])]
        is_queue_slot(before, refs[i].priority.0, k) && after == before.insert(k, refs[i]);
    assert forall|k: int| 0 <= k <= i implies known(after, (#[trigger] refs[k]).uuid) by {
        if k < i {
            let j = choose|j: int| 0 <= j < before.len() && (#[trigger] before[j]).uuid
                == refs[k].uuid;
            if j < at {
                assert(after[j] == before[j]);
            } else {
                assert(after[j + 1] == before[j]);
            }
        }
    }
}

/// A stream is opened exactly when a session is live and fewer streams are open than may
/// be; otherwise it waits, at the cost of no other, as long as the queue is not full; and
/// otherwise it is refused and nothing has changed.
pub proof fn law_start_opens_queues_or_refuses(
    s: ManagerState,
    r: StreamRef,
    opens: bool,
    t: ManagerState,
)
    requires
        in_order(s),
        manager_steps(s, ManagerEvent::Start { r, opens }, t),
    ensures
        ({
            let room = match s.max_concurrent {
                None => true,
                Some(n) => s.uplinks.len() < n,
            };
            let open = s.session_up && room && opens;
            let again = known(s.pending, r.uuid);
            &&& t.session_up == s.session_up && t.link_state == s.link_state
            &&& t.downlinks == s.downlinks
            &&& t.max_concurrent == s.max_concurrent && t.max_pending == s.max_pending
            &&& open ==> t.pending == s.pending && t.uplinks.last() == r
            &&& open && !known(s.uplinks, r.uuid) ==> t.uplinks == s.uplinks.push(r)
            &&& !open ==> t.uplinks == s.uplinks
            &&& !open && !again && s.pending.len() < s.max_pending ==> t.pending.len()
                == s.pending.len() + 1
            &&& !open && !again && s.pending.len() >= s.max_pending ==> t == s
            &&& !open && again ==> t.pending.len() == s.pending.len()
            &&& !open && (again || s.pending.len() < s.max_pending) ==> known(t.pending, r.uuid)
            &&& forall|x: u128| known(s.pending, x) ==> #[trigger] known(t.pending, x)
        }),
{
    lemma_removed(s.pending, r.uuid);
    lemma_removed(s.uplinks, r.uuid);
    let room = match s.max_concurrent {
        None => true,
        Some(n) => s.uplinks.len() < n,
    };
    if !(s.session_up && room && opens) && queue_has_room(s, r) {
        lemma_enqueues(s.pending, t.pending, r);
        lemma_queued_is_known(s.pending, t.pending, r);
        assert forall|x: u128| known(s.pending, x) implies #[trigger] known(t.pending, x) by {
            if x != r.uuid {
                lemma_others_stay(s.pending, r.uuid, x);
            }
        }
    }
}

/// A failed link has no session, any other state of the link leaves the session as it
/// is, and a new session is live on a link that works; streams stay where they are
/// through all of it.
pub proof fn law_session_follows_the_link(s: ManagerState, state: LinkState)
    ensures
        ({
            let t = link_changed(s, state);
            &&& t.link_state == state
            &&& state == LinkState::Failed ==> !t.session_up
            &&& state != LinkState::Failed ==> t.session_up == s.session_up
            &&& t.pending == s.pending && t.uplinks == s.uplinks && t.downlinks == s.downlinks
            &&& t.max_concurrent == s.max_concurrent && t.max_pending == s.max_pending
        }),
        ({
            let t = reconnected_state(s);
            &&& t.session_up && t.link_state == LinkState::Normal
            &&& t.pending == s.pending && t.uplinks == s.uplinks && t.downlinks == s.downlinks
            &&& t.max_concurrent == s.max_concurrent && t.max_pending == s.max_pending
        }),
        reconnected_state(link_changed(s, state)) == reconnected_state(s),
{
}

/// A list without a stream has the others in the order that they had.
pub proof fn law_removal_keeps_the_order(list: Seq<StreamRef>, uuid: u128)
    requires
        unique(list),
    ensures
        removed(list, uuid) == list.filter(|r: StreamRef| r.uuid != uuid),
        known(list, uuid) ==> removed(list, uuid).len() == list.len() - 1,
        !known(list, uuid) ==> removed(list, uuid) == list,
{
    let keep = |r: StreamRef| r.uuid != uuid;
    if known(list, uuid) {
        let at = crate::session_manager::place(list, uuid);
        let front = list.take(at);
        let back = list.skip(at + 1);
        let one = seq![list[at]];
        assert(list =~= front + one + back);
        assert forall|i: int| 0 <= i < front.len() implies keep(#[trigger] front[i]) by {
            assert(list[i].uuid != list[at].uuid);
        }
        assert forall|i: int| 0 <= i < back.len() implies keep(#[trigger] back[i]) by {
            assert(list[at].uuid != list[at + 1 + i].uuid);
        }
        lemma_filter_all(front, keep);
        lemma_filter_all(back, keep);
        reveal(Seq::filter);
        assert(one.drop_last() =~= Seq::<StreamRef>::empty());
        assert(one.filter(keep) =~= Seq::<StreamRef>::empty()) by {
            assert(one.drop_last().filter(keep) =~= Seq::<StreamRef>::empty());
        }
        Seq::filter_distributes_over_add(front, one, keep);
        Seq::filter_distributes_over_add(front + one, back, keep);
        assert(list.remove(at) =~= front + back);
    } else {
        assert forall|i: int| 0 <= i < list.len() implies keep(#[trigger] list[i]) by {}
        lemma_filter_all(list, keep);
    }
}

proof fn lemma_filter_all(list: Seq<StreamRef>, keep: spec_fn(StreamRef) -> bool)
    requires
        forall|i: int| 0 <= i < list.len() ==> keep(#[trigger] list[i]),
    ensures
        list.filter(keep) == list,
    decreases list.len(),
{
    reveal(Seq::filter);
    if list.len() > 0 {
        let p = list.drop_last();
        assert forall|i: int| 0 <= i < p.len() implies keep(#[trigger] p[i]) by {
            assert(p[i] == list[i]);
        }
        lemma_filter_all(p, keep);
        assert(keep(list[list.len() - 1]));
        assert(p.push(list.last()) =~= list);
    }
}

/// A stream that has ended, or whose pump is gone, frees its place and no other; a stream
/// whose turn has come leaves the queue for the open streams, or stays where it is when
/// it could not be opened.
pub proof fn law_places_are_freed(
    s: ManagerState,
    uuid: u128,
    outcome: RestoreOutcome,
    r: StreamRef,
    ended: Seq<u128>,
)
    requires
        in_order(s),
        known(s.pending, r.uuid),
    ensures
        ({
            let t = ended_state(s, uuid);
            &&& !known(t.uplinks, uuid)
            &&& known(s.uplinks, uuid) ==> t.uplinks.len() == s.uplinks.len() - 1
            &&& !known(s.uplinks, uuid) ==> t == s
            &&& forall|x: u128|
                x != uuid ==> (#[trigger] known(t.uplinks, x) <==> known(s.uplinks, x))
            &&& t.pending == s.pending && t.downlinks == s.downlinks
            &&& t.session_up == s.session_up && t.link_state == s.link_state
        }),
        outcome == RestoreOutcome::PumpGone ==> !known(
            restored_state(s, uuid, outcome).uplinks,
            uuid,
        ),
        outcome != RestoreOutcome::PumpGone ==> restored_state(s, uuid, outcome) == s,
        reissued_state(s, r, false) == s,
        ({
            let t = reissued_state(s, r, true);
            &&& !known(t.pending, r.uuid)
            &&& t.pending.len() == s.pending.len() - 1
            &&& t.uplinks.last() == r
            &&& !known(s.uplinks, r.uuid) ==> t.uplinks == s.uplinks.push(r)
            &&& t.downlinks == s.downlinks
            &&& t.session_up == s.session_up && t.link_state == s.link_state
        }),
        forall|x: u128| #[trigger]
            known(pruned_state(s, ended).uplinks, x) <==> known(s.uplinks, x) && !ended.contains(x),
        pruned_state(s, ended).pending == s.pending,
{
    lemma_removed(s.uplinks, uuid);
    lemma_removed(s.uplinks, r.uuid);
    lemma_removed(s.pending, r.uuid);
    lemma_filter_unique(s.uplinks, ended);
}

} // verus!
