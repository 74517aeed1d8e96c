//! Conversions between the relay's types and those of the control interface.

use std::collections::HashMap;

use vstd::prelude::*;

use crate::ids::{hyphenated, id_from_text, id_to_text, parsed_uuid};
use crate::session::{QueueStatus, StreamInfo};
use crate::transport::LinkState;

verus! {

broadcast use vstd::std_specs::hash::group_hash_axioms;

/// Link state on the control interface, where unknown values can occur.
#[derive(Debug, Clone, Copy, PartialEq, Eq, Structural)]
pub enum WireLinkState {
    Connecting,
    Normal,
    Degraded,
    Failed,
    /// A value without a name.
    Other(i32),
}

/// Stream metadata on the control interface.
#[derive(Debug)]
pub struct WireStreamInfo {
    pub size_bytes: Option<i64>,
    pub attrs: Option<HashMap<String, String>>,
}

/// Queue snapshot on the control interface.
#[derive(Debug)]
pub struct WireQueueStatus {
    pub active_count: Option<i32>,
    pub max_concurrent: Option<i32>,
    pub max_pending: Option<i32>,
    pub pending: Option<Vec<String>>,
}

/// The link state that a wire value stands for; an unknown one counts as failed.
pub open spec fn link_state_of(w: WireLinkState) -> LinkState {
    match w {
        WireLinkState::Connecting => LinkState::Connecting,
        WireLinkState::Normal => LinkState::Normal,
        WireLinkState::Degraded => LinkState::Degraded,
        WireLinkState::Failed => LinkState::Failed,
        WireLinkState::Other(_) => LinkState::Failed,
    }
}

/// The wire value of a link state.
pub open spec fn wire_state_of(s: LinkState) -> WireLinkState {
    match s {
        LinkState::Connecting => WireLinkState::Connecting,
        LinkState::Normal => WireLinkState::Normal,
        LinkState::Degraded => WireLinkState::Degraded,
        LinkState::Failed => WireLinkState::Failed,
    }
}

/// The link state that a wire value stands for.
pub fn link_state_from_wire(w: WireLinkState) -> (r: LinkState)
    ensures
        r == link_state_of(w),
{
    match w {
        WireLinkState::Connecting => LinkState::Connecting,
        WireLinkState::Normal => LinkState::Normal,
        WireLinkState::Degraded => LinkState::Degraded,
        WireLinkState::Failed => LinkState::Failed,
        WireLinkState::Other(_) => LinkState::Failed,
    }
}

/// The wire value of a link state.
pub fn link_state_to_wire(s: LinkState) -> (r: WireLinkState)
    ensures
        r == wire_state_of(s),
{
    match s {
        LinkState::Connecting => WireLinkState::Connecting,
        LinkState::Normal => WireLinkState::Normal,
        LinkState::Degraded => WireLinkState::Degraded,
        LinkState::Failed => WireLinkState::Failed,
    }
}

/// The name of a wire value.
pub fn link_state_name(w: WireLinkState) -> (r: &'static str)
    ensures
        r@ == (match w {
            WireLinkState::Connecting => "Connecting"@,
            WireLinkState::Normal => "Normal"@,
            WireLinkState::Degraded => "Degraded"@,
            WireLinkState::Failed => "Failed"@,
            WireLinkState::Other(_) => "Unknown"@,
        }),
{
    match w {
        WireLinkState::Connecting => "Connecting",
        WireLinkState::Normal => "Normal",
        WireLinkState::Degraded => "Degraded",
        WireLinkState::Failed => "Failed",
        WireLinkState::Other(_) => "Unknown",
    }
}

/// Every link state survives the way over the wire.
pub proof fn law_link_state_round_trip(s: LinkState)
    ensures
        link_state_of(wire_state_of(s)) == s,
{
}

/// Reads stream metadata: a size keeps its bits, and absent attributes are none.
pub fn stream_info_from_wire(w: WireStreamInfo) -> (r: StreamInfo)
    ensures
        r.size_bytes == (match w.size_bytes {
            Some(v) => Some(v as u64),
            None => None,
        }),
        match w.attrs {
            Some(a) => r.attrs == a,
            None => r.attrs@ == Map::<String, String>::empty(),
        },
{
    let size_bytes: Option<u64> = match w.size_bytes {
        Some(v) => Some(#[verifier::truncate] (v as u64)),
        None => None,
    };
    let attrs: HashMap<String, String> = match w.attrs {
        Some(a) => a,
        None => HashMap::new(),
    };
    StreamInfo { size_bytes, attrs }
}

/// Writes stream metadata: a size keeps its bits.
pub fn stream_info_to_wire(d: StreamInfo) -> (r: WireStreamInfo)
    ensures
        r.size_bytes == (match d.size_bytes {
            Some(v) => Some(v as i64),
            None => None,
        }),
        r.attrs == Some(d.attrs),
{
    let size_bytes: Option<i64> = match d.size_bytes {
        Some(v) => Some(#[verifier::truncate] (v as i64)),
        None => None,
    };
    WireStreamInfo { size_bytes, attrs: Some(d.attrs) }
}

/// Every size survives the way over the wire, also those that a signed integer
/// cannot hold.
pub proof fn law_size_round_trip(size: u64)
    ensures
        (size as i64) as u64 == size,
{
    assert((size as i64) as u64 == size) by (bit_vector);
}

/// The identities that texts stand for; a text that is none is left out.
pub open spec fn ids_of(texts: Seq<String>) -> Seq<u128>
    decreases texts.len(),
{
    if texts.len() == 0 {
        Seq::empty()
    } else {
        match parsed_uuid(texts.last()@) {
            Ok(id) => ids_of(texts.drop_last()).push(id),
            Err(_) => ids_of(texts.drop_last()),
        }
    }
}

/// An absent number is zero.
pub open spec fn or_zero(n: Option<i32>) -> i32 {
    match n {
        Some(v) => v,
        None => 0,
    }
}

fn int_or_zero(n: Option<i32>) -> (r: i32)
    ensures
        r == or_zero(n),
{
    match n {
        Some(v) => v,
        None => 0,
    }
}

/// Adds the identity that was read, if there is one.
pub fn push_parsed(ids: &mut Vec<u128>, parsed: Result<u128, String>)
    ensures
        final(ids)@ == (match parsed {
            Ok(id) => old(ids)@.push(id),
            Err(_) => old(ids)@,
        }),
{
    match parsed {
        Ok(id) => {
            ids.push(id);
        },
        Err(_) => {},
    }
}

/// Reads a queue snapshot: absent numbers are zero, and texts that are no identities
/// are left out.
pub fn queue_status_from_wire(w: &WireQueueStatus) -> (r: QueueStatus)
    ensures
        r.active_count == or_zero(w.active_count),
        r.max_concurrent == or_zero(w.max_concurrent),
        r.max_pending == or_zero(w.max_pending),
        match w.pending {
            Some(p) => r.pending@ == ids_of(p@),
            None => r.pending@ == Seq::<u128>::empty(),
        },
{
    let mut pending: Vec<u128> = Vec::new();
    match &w.pending {
        Some(texts) => {
            let mut i: usize = 0;
            assert(texts@.take(0) =~= Seq::<String>::empty());
            while i < texts.len()
                invariant
                    i <= texts@.len(),
                    pending@ == ids_of(texts@.take(i as int)),
                decreases texts@.len() - i,
            {
                proof {
                    assert(texts@.take(i + 1).drop_last() =~= texts@.take(i as int));
                    assert(texts@.take(i + 1).last() == texts@[i as int]);
                }
                push_parsed(&mut pending, id_from_text(texts[i].as_str()));
                i = i + 1;
            }
            assert(texts@.take(i as int) =~= texts@);
        },
        None => {},
    }
    QueueStatus {
        active_count: int_or_zero(w.active_count),
        max_concurrent: int_or_zero(w.max_concurrent),
        max_pending: int_or_zero(w.max_pending),
        pending,
    }
}

/// Each text is the hyphenated form of the identity at its place and is read back as
/// that identity.
pub open spec fn texts_of(texts: Seq<String>, ids: Seq<u128>) -> bool {
    &&& texts.len() == ids.len()
    &&& forall|i: int|
        0 <= i < ids.len() ==> (#[trigger] texts[i])@ == hyphenated(ids[i]) && parsed_uuid(
            texts[i]@,
        ) == Ok::<u128, Seq<char>>(ids[i])
}

/// Writes a queue snapshot.
pub fn queue_status_to_wire(d: &QueueStatus) -> (r: WireQueueStatus)
    ensures
        r.active_count == Some(d.active_count),
        r.max_concurrent == Some(d.max_concurrent),
        r.max_pending == Some(d.max_pending),
        r.pending matches Some(p) && texts_of(p@, d.pending@),
{
    let mut texts: Vec<String> = Vec::new();
    let mut i: usize = 0;
    while i < d.pending.len()
        invariant
            i <= d.pending@.len(),
            texts_of(texts@, d.pending@.take(i as int)),
        decreases d.pending@.len() - i,
    {
        let ghost before = texts@;
        texts.push(id_to_text(d.pending[i]));
        proof {
            let ids = d.pending@.take(i + 1);
            assert forall|k: int| 0 <= k < ids.len() implies (#[trigger] texts@[k])@ == hyphenated(
                ids[k],
            ) && parsed_uuid(texts@[k]@) == Ok::<u128, Seq<char>>(ids[k]) by {
                if k < i {
                    assert(texts@[k] == before[k]);
                    assert(ids[k] == d.pending@.take(i as int)[k]);
                }
            }
        }
        i = i + 1;
    }
    assert(d.pending@.take(i as int) =~= d.pending@);
    WireQueueStatus {
        active_count: Some(d.active_count),
        max_concurrent: Some(d.max_concurrent),
        max_pending: Some(d.max_pending),
        pending: Some(texts),
    }
}

/// The identities of a queue snapshot survive the way over the wire.
pub proof fn law_queue_ids_round_trip(texts: Seq<String>, ids: Seq<u128>)
    requires
        texts_of(texts, ids),
    ensures
        ids_of(texts) == ids,
    decreases ids.len(),
{
    if ids.len() > 0 {
        let t = texts.drop_last();
        let d = ids.drop_last();
        assert forall|i: int| 0 <= i < d.len() implies (#[trigger] t[i])@ == hyphenated(d[i])
            && parsed_uuid(t[i]@) == Ok::<u128, Seq<char>>(d[i]) by {
            assert(t[i] == texts[i]);
        }
        law_queue_ids_round_trip(t, d);
        assert(texts[texts.len() - 1] == texts.last());
        assert(ids.drop_last().push(ids.last()) =~= ids);
    } else {
        assert(ids =~= Seq::<u128>::empty());
    }
}

/// A link state has the same name on both sides of the control interface, and a value
/// without a name counts as a failed link.
pub proof fn law_link_states_keep_their_names(other: i32)
    ensures
        wire_state_of(LinkState::Connecting) == WireLinkState::Connecting,
        wire_state_of(LinkState::Normal) == WireLinkState::Normal,
        wire_state_of(LinkState::Degraded) == WireLinkState::Degraded,
        wire_state_of(LinkState::Failed) == WireLinkState::Failed,
        link_state_of(WireLinkState::Other(other)) == LinkState::Failed,
{
}

/// The identities of a list are read one by one, in order; a text that is none is left
/// out, and takes no other with it.
pub proof fn law_ids_are_read_in_order(a: Seq<String>, b: Seq<String>, t: String)
    ensures
        ids_of(a + b) == ids_of(a) + ids_of(b),
        match parsed_uuid(t@) {
            Ok(id) => ids_of(seq![t]) == seq![id],
            Err(_) => ids_of(seq![t]) == Seq::<u128>::empty(),
        },
    decreases b.len(),
{
    assert(seq![t].drop_last() =~= Seq::<String>::empty());
    assert(ids_of(seq![t].drop_last()) == Seq::<u128>::empty());
    assert(seq![t].last() == t);
    if b.len() == 0 {
        assert(a + b =~= a);
        assert(ids_of(b) =~= Seq::<u128>::empty());
    } else {
        law_ids_are_read_in_order(a, b.drop_last(), t);
        assert((a + b).drop_last() =~= a + b.drop_last());
        assert((a + b).last() == b.last());
        assert(ids_of(a + b) =~= ids_of(a) + ids_of(b));
    }
}

/// A number that is there is taken as it is.
pub proof fn law_absent_numbers_are_zero(n: i32)
    ensures
        or_zero(Some(n)) == n,
        or_zero(None) == 0,
{
}

} // verus!
