//! What output-path discovery does, read off the verb log: each function
//! here reads the exchanges of `es` from index `i` on as the discovery
//! code issues them, and gives the index after the last exchange it
//! read and what that part of the discovery found; `None` when the log
//! does not hold the queries the code would have sent.
use vstd::prelude::*;

use crate::hda::codec::{PinCaps, WidgetCaps};
use crate::hda::controller::{
    afg_scan, conn_entry, conn_entry_payload, conn_list_scan, conn_slot_stored, entries_per_response, entry_pos, is_param_query,
    is_verb, nid_range_end, split_nodes, Error, Exchange,
};
use crate::hda::target::Target;
use crate::hda::verbs::{self, param_id, WidgetType};

verus! {

/// `seg` lies in `all` from index `a` on.
pub open spec fn placed(all: Seq<Exchange>, a: int, seg: Seq<Exchange>) -> bool {
    &&& 0 <= a
    &&& a + seg.len() <= all.len()
    &&& forall|j: int| 0 <= j < seg.len() ==> all[a + j] == #[trigger] seg[j]
}

/// The function-group-type queries of children `nid..end` of the root,
/// stopping at the first audio function group or unanswered query.
pub open spec fn fg_walk(es: Seq<Exchange>, i: int, codec: u8, nid: int, end: int) -> Option<(int, Option<u8>)>
    decreases end - nid,
{
    if nid >= end {
        Some((i, None))
    } else if !(0 <= i < es.len() && is_param_query(es[i], codec, nid as u8, param_id::FUNCTION_GROUP_TYPE)) {
        None
    } else {
        match es[i].response {
            None => Some((i + 1, None)),
            Some(v) => if v as u8 == verbs::NODE_TYPE_AUDIO_FUNCTION_GROUP {
                Some((i + 1, Some(nid as u8)))
            } else {
                fg_walk(es, i + 1, codec, nid + 1, end)
            },
        }
    }
}

/// The search for the codec's Audio Function Group: the root's child
/// count, then the children's types.
pub open spec fn afg_parse(es: Seq<Exchange>, i: int, codec: u8) -> Option<(int, Option<u8>)> {
    if !(0 <= i < es.len() && is_param_query(es[i], codec, verbs::ROOT_NODE, param_id::SUBORDINATE_NODE_COUNT)) {
        None
    } else {
        match es[i].response {
            None => Some((i + 1, None)),
            Some(raw) => {
                let (start, count) = split_nodes(raw);
                fg_walk(es, i + 1, codec, start as int, nid_range_end(start, count))
            },
        }
    }
}

/// The pin search under the function group: each widget's capabilities
/// in turn, and each Pin Complex tried as an output (see [`pin_probe`]).
/// The search stops at the first pin whose first connection is an Audio
/// Output converter, after the last widget, or at the first unanswered
/// widget-capabilities query. Gives the pin and converter found.
pub open spec fn pin_search(es: Seq<Exchange>, i: int, codec: u8, nid: int, end: int) -> Option<
    (int, Option<(u8, u8)>),
>
    decreases end - nid,
{
    if nid >= end {
        Some((i, None))
    } else if !(0 <= i < es.len() && is_param_query(es[i], codec, nid as u8, param_id::AUDIO_WIDGET_CAPS)) {
        None
    } else {
        match es[i].response {
            None => Some((i + 1, None)),
            Some(raw) => if WidgetCaps::spec_decode(raw).wtype == WidgetType::PinComplex {
                match pin_probe(es, i + 1, codec, nid as u8) {
                    None => None,
                    Some((k, Some(dac))) => Some((k, Some((nid as u8, dac)))),
                    Some((k, None)) => pin_search(es, k, codec, nid + 1, end),
                }
            } else {
                pin_search(es, i + 1, codec, nid + 1, end)
            },
        }
    }
}

/// Trying one Pin Complex as an output: its pin capabilities; when it is
/// output capable, its first connection; and when it has one, the
/// capabilities of that widget. Gives the connection when it is an Audio
/// Output converter.
pub open spec fn pin_probe(es: Seq<Exchange>, i: int, codec: u8, pin: u8) -> Option<(int, Option<u8>)> {
    if !(0 <= i < es.len() && is_param_query(es[i], codec, pin, param_id::PIN_CAPS)) {
        None
    } else if !(es[i].response matches Some(pc) && PinCaps::spec_decode(pc).output_capable) {
        Some((i + 1, None))
    } else {
        match first_conn_parse(es, i + 1, codec, pin) {
            None => None,
            Some((m, None)) => Some((m, None)),
            Some((m, Some(dac))) => if !(0 <= m < es.len() && is_param_query(
                es[m],
                codec,
                dac,
                param_id::AUDIO_WIDGET_CAPS,
            )) {
                None
            } else if es[m].response matches Some(dc) && WidgetCaps::spec_decode(dc).wtype
                == WidgetType::AudioOutput {
                Some((m + 1, Some(dac)))
            } else {
                Some((m + 1, None))
            },
        }
    }
}

/// The entry queries of a connection list `length` entries long, `per`
/// entries to a response, from entry `index` on; gives whether every query
/// was answered.
pub open spec fn conn_walk(es: Seq<Exchange>, i: int, codec: u8, pin: u8, index: int, length: int, per: int) -> Option<
    (int, bool),
>
    decreases if index < length { length - index } else { 0 },
{
    if index >= length || per <= 0 {
        Some((i, true))
    } else if !(0 <= i < es.len() && is_verb(es[i], codec, pin, conn_entry_payload(index))) {
        None
    } else {
        match es[i].response {
            None => Some((i + 1, false)),
            Some(_) => conn_walk(es, i + 1, codec, pin, index + per, length, per),
        }
    }
}

/// Reading the pin's first connection: the list length, then the entry
/// queries; gives the first entry when the list is nonempty and was read
/// in full.
pub open spec fn first_conn_parse(es: Seq<Exchange>, i: int, codec: u8, pin: u8) -> Option<(int, Option<u8>)> {
    if !(0 <= i < es.len() && is_param_query(es[i], codec, pin, param_id::CONNECTION_LIST_LENGTH)) {
        None
    } else {
        match es[i].response {
            None => Some((i + 1, None)),
            Some(raw) => {
                let long_form = raw & 0x80 != 0;
                let length = (raw & 0x7F) as int;
                match conn_walk(es, i + 1, codec, pin, 0, length, entries_per_response(long_form)) {
                    None => None,
                    Some((k, complete)) => Some(
                        (
                            k,
                            if complete && length > 0 {
                                Some(conn_entry(es[i + 1].response.unwrap(), 0, long_form))
                            } else {
                                None
                            },
                        ),
                    ),
                }
            },
        }
    }
}

/// Probing one codec: its vendor and device IDs, its Audio Function
/// Group, and the group's search for an output pin whose first connection
/// is a DAC.
pub open spec fn probe_parse(es: Seq<Exchange>, i: int, codec: u8) -> Option<(int, Option<Target>)> {
    if !(0 <= i < es.len() && is_param_query(es[i], codec, verbs::ROOT_NODE, param_id::VENDOR_ID)) {
        None
    } else {
        match es[i].response {
            None => Some((i + 1, None)),
            Some(ids) => match afg_parse(es, i + 1, codec) {
                None => None,
                Some((j, None)) => Some((j, None)),
                Some((j, Some(afg))) => if !(0 <= j < es.len() && is_param_query(
                    es[j],
                    codec,
                    afg,
                    param_id::SUBORDINATE_NODE_COUNT,
                )) {
                    None
                } else {
                    match es[j].response {
                        None => Some((j + 1, None)),
                        Some(raw) => {
                            let (start, count) = split_nodes(raw);
                            match pin_search(es, j + 1, codec, start as int, nid_range_end(start, count)) {
                                None => None,
                                Some((k, found)) => Some((k, probe_target(codec, ids, found))),
                            }
                        },
                    }
                },
            },
        }
    }
}

/// The target a probe of `codec` reports once its pin search found
/// `found` (a pin and its converter, or nothing); its IDs are the halves of
/// the vendor-ID answer `ids`.
pub open spec fn probe_target(codec: u8, ids: u32, found: Option<(u8, u8)>) -> Option<Target> {
    match found {
        None => None,
        Some((pin, dac)) => Some(
            Target {
                codec_addr: codec,
                vendor_id: (ids >> 16u32) as u16,
                device_id: ids as u16,
                dac_nid: dac,
                pin_nid: pin,
            },
        ),
    }
}

/// The search over codec addresses `codec..15`: each address whose bit is
/// set in `presence` is probed in turn, and the search stops at the first
/// codec with an output path.
pub open spec fn codecs_parse(es: Seq<Exchange>, i: int, presence: u16, codec: int) -> Option<(int, Option<Target>)>
    decreases 15 - codec,
{
    if codec >= 15 || codec < 0 {
        Some((i, None))
    } else if presence & (1u16 << (codec as u16)) == 0 {
        codecs_parse(es, i, presence, codec + 1)
    } else {
        match probe_parse(es, i, codec as u8) {
            None => None,
            Some((j, Some(t))) => Some((j, Some(t))),
            Some((j, None)) => codecs_parse(es, j, presence, codec + 1),
        }
    }
}

/// What the function-group search found, as an option.
pub open spec fn afg_found(r: Result<Option<u8>, Error>) -> Option<u8> {
    match r {
        Ok(Some(n)) => Some(n),
        _ => None,
    }
}

/// A search recorded by `afg_scan` reads back, wherever it lies in a log,
/// as what it found.
pub proof fn lemma_afg_parse(all: Seq<Exchange>, a: int, seg: Seq<Exchange>, codec: u8, r: Result<Option<u8>, Error>)
    requires
        afg_scan(seg, codec, r),
        placed(all, a, seg),
    ensures
        afg_parse(all, a, codec) == Some((a + seg.len(), afg_found(r))),
{
    assert(all[a + 0] == seg[0]);
    match seg[0].response {
        None => {},
        Some(raw) => {
            let (start, count) = split_nodes(raw);
            let n = seg.len() - 1;
            lemma_fg_walk(all, a, seg, codec, r, raw, 0);
        },
    }
}

/// The function-group walk from the `k`-th child on reads back as what
/// the recorded search found.
proof fn lemma_fg_walk(
    all: Seq<Exchange>,
    a: int,
    seg: Seq<Exchange>,
    codec: u8,
    r: Result<Option<u8>, Error>,
    raw: u32,
    k: int,
)
    requires
        afg_scan(seg, codec, r),
        placed(all, a, seg),
        seg[0].response == Some(raw),
        0 <= k <= seg.len() - 1,
        k == seg.len() - 1 ==> r is Ok && r->Ok_0 is None,
    ensures
        fg_walk(
            all,
            a + 1 + k,
            codec,
            split_nodes(raw).0 + k,
            nid_range_end(split_nodes(raw).0, split_nodes(raw).1),
        ) == Some((a + seg.len(), afg_found(r))),
    decreases seg.len() - k,
{
    let start = split_nodes(raw).0;
    let end = nid_range_end(start, split_nodes(raw).1);
    let n = seg.len() - 1;
    if k == n {
    } else {
        assert(all[a + (1 + k)] == seg[1 + k]);
        let e = seg[1 + k];
        if k + 1 < n {
            lemma_fg_walk(all, a, seg, codec, r, raw, k + 1);
        } else {
            match r {
                Ok(None) => {
                    lemma_fg_walk(all, a, seg, codec, r, raw, k + 1);
                },
                _ => {},
            }
        }
    }
}

/// What reading the first connection gave, from the connection-list read's
/// result and the buffer it filled.
pub open spec fn first_entry(r: Result<usize, Error>, after: Seq<u8>) -> Option<u8> {
    match r {
        Ok(n) => if n > 0 {
            Some(after[0])
        } else {
            None
        },
        Err(_) => None,
    }
}

/// A connection-list read recorded by `conn_list_scan` into a buffer of
/// four entries reads back, wherever it lies in a log, as its first entry.
pub proof fn lemma_first_conn_parse(
    all: Seq<Exchange>,
    a: int,
    seg: Seq<Exchange>,
    codec: u8,
    pin: u8,
    before: Seq<u8>,
    after: Seq<u8>,
    r: Result<usize, Error>,
)
    requires
        conn_list_scan(seg, codec, pin, before, after, r),
        placed(all, a, seg),
        before.len() == 4,
    ensures
        first_conn_parse(all, a, codec, pin) == Some((a + seg.len(), first_entry(r, after))),
{
    assert(all[a + 0] == seg[0]);
    match seg[0].response {
        None => {},
        Some(raw) => {
            let long_form = raw & 0x80 != 0;
            let length = (raw & 0x7F) as int;
            let per = entries_per_response(long_form);
            let n = seg.len() - 1;
            lemma_conn_walk(all, a, seg, codec, pin, before, after, r, raw, 0);
            if r is Ok && length > 0 {
                assert(length <= entry_pos(n, 0, long_form));
                assert(n >= 1);
                assert(conn_slot_stored(seg, before, after, raw, 0, 0));
                assert(all[a + 1] == seg[1]);
            }
        },
    }
}

/// The entry queries from the `k`-th on read back as the recorded read.
proof fn lemma_conn_walk(
    all: Seq<Exchange>,
    a: int,
    seg: Seq<Exchange>,
    codec: u8,
    pin: u8,
    before: Seq<u8>,
    after: Seq<u8>,
    r: Result<usize, Error>,
    raw: u32,
    k: int,
)
    requires
        conn_list_scan(seg, codec, pin, before, after, r),
        placed(all, a, seg),
        seg[0].response == Some(raw),
        0 <= k <= seg.len() - 1,
        k == seg.len() - 1 ==> r is Ok,
    ensures
        conn_walk(
            all,
            a + 1 + k,
            codec,
            pin,
            entry_pos(k, 0, raw & 0x80 != 0),
            (raw & 0x7F) as int,
            entries_per_response(raw & 0x80 != 0),
        ) == Some((a + seg.len(), r is Ok)),
    decreases seg.len() - k,
{
    let long_form = raw & 0x80 != 0;
    let length = (raw & 0x7F) as int;
    let per = entries_per_response(long_form);
    let n = seg.len() - 1;
    if k == n {
        assert(length <= entry_pos(n, 0, long_form));
    } else {
        assert(all[a + (1 + k)] == seg[1 + k]);
        assert(is_verb(seg[1 + k], codec, pin, conn_entry_payload(entry_pos(k, 0, long_form))));
        assert(entry_pos(k, 0, long_form) < length) by {
            assert(entry_pos(k, 0, long_form) <= entry_pos(n - 1, 0, long_form));
        }
        assert(entry_pos(k, 0, long_form) + per == entry_pos(k + 1, 0, long_form));
        if k + 1 < n {
            assert(seg[1 + k].response is Some);
            lemma_conn_walk(all, a, seg, codec, pin, before, after, r, raw, k + 1);
        } else if r is Ok {
            lemma_conn_walk(all, a, seg, codec, pin, before, after, r, raw, k + 1);
        }
    }
}

/// Two stretches of a log placed one after the other.
pub proof fn lemma_placed_concat(all: Seq<Exchange>, a: int, s1: Seq<Exchange>, s2: Seq<Exchange>)
    requires
        placed(all, a, s1 + s2),
    ensures
        placed(all, a, s1),
        placed(all, a + s1.len(), s2),
{
    assert forall|j: int| 0 <= j < s1.len() implies all[a + j] == #[trigger] s1[j] by {
        assert((s1 + s2)[j] == s1[j]);
    }
    assert forall|j: int| 0 <= j < s2.len() implies all[a + s1.len() + j] == #[trigger] s2[j] by {
        assert((s1 + s2)[s1.len() + j] == s2[j]);
    }
}

} // verus!
