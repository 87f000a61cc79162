//! Codec output-path discovery and bring-up, shared by every caller of this
//! driver that just wants to find a speaker/line-out and play PCM through
//! it.
use vstd::prelude::*;

use crate::hda::codec::{AmpCaps, PinCaps, WidgetCaps};
use crate::hda::discovery::{
    afg_parse, first_conn_parse, first_entry, lemma_afg_parse, lemma_first_conn_parse, lemma_placed_concat, placed,
    codecs_parse, pin_probe, pin_search, probe_parse, probe_target,
};
use crate::hda::controller::{
    amp_gain_mute_payload, conn_slot_stored, entries_per_response, conn_entry, conn_list_scan, conn_entry_payload, entry_pos, converter_format_payload, exchange_writes, is_param_query,
    is_verb, nid_range_end, pin_widget_control_payload, stream_channel_payload, stream_reset_writes,
    stream_setup_writes, Controller, Error, Exchange, Read, Write, bit_set, bit_clear, reset_polls, reg32_reads,
};
use crate::hda::format::PcmFormat;
use crate::hda::regs;
use crate::hda::platform::{DmaBuffer, Platform};
use crate::hda::verbs::{param_id, WidgetType};

verus! {

/// A codec output path this driver knows how to drive: `pin_nid` is an
/// output-capable Pin Complex and `dac_nid`, the first entry in its
/// connection list (what the pin is currently wired to accept audio from),
/// is an Audio Output converter.
#[derive(Debug, Clone, Copy)]
pub struct Target {
    pub codec_addr: u8,
    pub vendor_id: u16,
    pub device_id: u16,
    pub dac_nid: u8,
    pub pin_nid: u8,
}

/// The verbs `es` show, for codec `t.codec_addr`, everything that makes `t`
/// a drivable output path: the root node answered with `t`'s vendor and
/// device IDs; later, widget `t.pin_nid` answered that it is a Pin Complex,
/// then that it is output capable, then that its connection list is
/// nonempty with first entry `t.dac_nid`; and widget `t.dac_nid` answered
/// that it is an Audio Output converter.
pub open spec fn target_justified(es: Seq<Exchange>, t: Target) -> bool {
    exists|a: int, w: int, d: int|
        #![trigger es[a], es[w], es[d]]
        0 <= a < w && w + 3 < d < es.len() && target_evidence(es, t, a, w, d)
}

/// Widget `pin` of `codec`, tried as an output in the exchanges `seg`,
/// answered that it is output capable, that its connection list is
/// nonempty with first entry `dac`, and -- in the last exchange -- that
/// `dac` is an Audio Output converter.
pub open spec fn pin_evidence(seg: Seq<Exchange>, codec: u8, pin: u8, dac: u8) -> bool {
    let d = seg.len() - 1;
    &&& seg.len() >= 4
    &&& is_param_query(seg[0], codec, pin, param_id::PIN_CAPS)
    &&& seg[0].response is Some
    &&& PinCaps::spec_decode(seg[0].response.unwrap()).output_capable
    &&& is_param_query(seg[1], codec, pin, param_id::CONNECTION_LIST_LENGTH)
    &&& seg[1].response is Some
    &&& seg[1].response.unwrap() & 0x7F != 0
    &&& is_verb(seg[2], codec, pin, conn_entry_payload(0))
    &&& seg[2].response is Some
    &&& conn_entry(seg[2].response.unwrap(), 0, seg[1].response.unwrap() & 0x80 != 0) == dac
    &&& is_param_query(seg[d], codec, dac, param_id::AUDIO_WIDGET_CAPS)
    &&& seg[d].response is Some
    &&& WidgetCaps::spec_decode(seg[d].response.unwrap()).wtype == WidgetType::AudioOutput
}

/// The exchanges at `a`, `w` to `w + 3`, and `d` justify `t` (see
/// [`target_justified`]).
pub open spec fn target_evidence(es: Seq<Exchange>, t: Target, a: int, w: int, d: int) -> bool {
    let codec = t.codec_addr;
    &&& is_param_query(es[a], codec, 0, param_id::VENDOR_ID)
    &&& es[a].response == Some((((t.vendor_id as u32) << 16u32) | t.device_id as u32))
    &&& is_param_query(es[w], codec, t.pin_nid, param_id::AUDIO_WIDGET_CAPS)
    &&& es[w].response is Some
    &&& WidgetCaps::spec_decode(es[w].response.unwrap()).wtype == WidgetType::PinComplex
    &&& pin_evidence(es.subrange(w + 1, d + 1), codec, t.pin_nid, t.dac_nid)
}

/// Evidence found in a stretch of exchanges is still evidence once earlier
/// exchanges are put in front of it.
proof fn lemma_justified_shift(pre: Seq<Exchange>, es: Seq<Exchange>, t: Target)
    requires
        target_justified(es, t),
    ensures
        target_justified(pre + es, t),
{
    let (a, w, d) = choose|a: int, w: int, d: int|
        #![trigger es[a], es[w], es[d]]
        0 <= a < w && w + 3 < d < es.len() && target_evidence(es, t, a, w, d);
    let all = pre + es;
    let n = pre.len() as int;
    assert(all[a + n] == es[a]);
    assert(all[w + n] == es[w]);
    assert(all[d + n] == es[d]);
    assert(all.subrange(w + n + 1, d + n + 1) =~= es.subrange(w + 1, d + 1));
    assert(target_evidence(all, t, a + n, w + n, d + n));
}

/// Reads pin `pin_nid`'s connection list and returns its first entry, or
/// `None` when the list is empty or could not be read.
fn first_connection<P: Platform>(controller: &mut Controller<P>, codec_addr: u8, pin_nid: u8) -> (r: Option<u8>)
    ensures
        final(controller).verbs_only_since(old(controller)),
        r matches Some(d) ==> {
            let es = final(controller).exchanges_since(old(controller));
            &&& es.len() >= 2
            &&& is_param_query(es[0], codec_addr, pin_nid, param_id::CONNECTION_LIST_LENGTH)
            &&& es[0].response is Some
            &&& es[0].response.unwrap() & 0x7F != 0
            &&& is_verb(es[1], codec_addr, pin_nid, conn_entry_payload(0))
            &&& es[1].response is Some
            &&& conn_entry(es[1].response.unwrap(), 0, es[0].response.unwrap() & 0x80 != 0) == d
        },
        forall|all: Seq<Exchange>, a: int|
            #[trigger] placed(all, a, final(controller).exchanges_since(old(controller))) ==> first_conn_parse(
                all,
                a,
                codec_addr,
                pin_nid,
            ) == Some((a + final(controller).exchanges_since(old(controller)).len(), r)),
{
    let mut connections = [0u8; 4];
    let ghost before = connections@;
    let res = controller.connection_list(codec_addr, pin_nid, &mut connections);
    proof {
        let es = controller.exchanges_since(old(controller));
        assert forall|all: Seq<Exchange>, a: int| #[trigger] placed(all, a, es) implies first_conn_parse(
            all,
            a,
            codec_addr,
            pin_nid,
        ) == Some((a + es.len(), first_entry(res, connections@))) by {
            lemma_first_conn_parse(all, a, es, codec_addr, pin_nid, before, connections@, res);
        }
    }
    let count = match res {
        Ok(n) => n,
        Err(_) => 0,
    };
    if count == 0 {
        return None;
    }
    proof {
        let es = controller.exchanges_since(old(controller));
        let raw = es[0].response->0;
        let long_form = raw & 0x80 != 0;
        assert(conn_list_scan(es, codec_addr, pin_nid, before, connections@, res));
        assert(entry_pos(0, 0, long_form) < (raw & 0x7F) as int);
        assert(conn_slot_stored(es, before, connections@, raw, 0, 0));
    }
    Some(connections[0])
}

/// Tries Pin Complex `pin` as an output: asks whether it is output
/// capable, reads its first connection, and asks whether that widget is an
/// Audio Output converter; returns the converter when all of that holds.
fn try_pin<P: Platform>(controller: &mut Controller<P>, codec_addr: u8, pin: u8) -> (r: Option<u8>)
    ensures
        final(controller).verbs_only_since(old(controller)),
        r matches Some(d) ==> pin_evidence(final(controller).exchanges_since(old(controller)), codec_addr, pin, d),
        forall|all: Seq<Exchange>, a: int|
            #[trigger] placed(all, a, final(controller).exchanges_since(old(controller))) ==> pin_probe(
                all,
                a,
                codec_addr,
                pin,
            ) == Some((a + final(controller).exchanges_since(old(controller)).len(), r)),
{
    let ghost c0 = *controller;
    let pres = controller.pin_caps(codec_addr, pin);
    let ghost c1 = *controller;
    let output = match pres {
        Ok(pc) => pc.output_capable,
        Err(_) => false,
    };
    if !output {
        proof {
            let es = controller.exchanges_since(&c0);
            assert forall|all: Seq<Exchange>, a: int| #[trigger] placed(all, a, es) implies pin_probe(
                all,
                a,
                codec_addr,
                pin,
            ) == Some((a + es.len(), None::<u8>)) by {
                assert(all[a + 0] == es[0]);
            }
        }
        return None;
    }
    let conn = first_connection(controller, codec_addr, pin);
    let ghost c2 = *controller;
    proof {
        Controller::lemma_verbs_only_trans(&c0, &c1, &c2);
    }
    let dac = match conn {
        Some(d) => d,
        None => {
            proof {
                let es = controller.exchanges_since(&c0);
                let s1 = c1.exchanges_since(&c0);
                let s2 = controller.exchanges_since(&c1);
                assert forall|all: Seq<Exchange>, a: int| #[trigger] placed(all, a, es) implies pin_probe(
                    all,
                    a,
                    codec_addr,
                    pin,
                ) == Some((a + es.len(), None::<u8>)) by {
                    lemma_placed_concat(all, a, s1, s2);
                    assert(all[a + 0] == s1[0]);
                }
            }
            return None;
        },
    };
    let dres = controller.widget_caps(codec_addr, dac);
    let ghost c3 = *controller;
    proof {
        Controller::lemma_verbs_only_trans(&c0, &c2, &c3);
        Controller::lemma_verbs_only_trans(&c1, &c2, &c3);
    }
    let is_dac = match dres {
        Ok(dc) => dc.wtype == WidgetType::AudioOutput,
        Err(_) => false,
    };
    let r = if is_dac { Some(dac) } else { None };
    proof {
        let es = controller.exchanges_since(&c0);
        let s1 = c1.exchanges_since(&c0);
        let s2 = c2.exchanges_since(&c1);
        let s3 = controller.exchanges_since(&c2);
        let s23 = controller.exchanges_since(&c1);
        assert(es =~= s1 + s23);
        assert(s23 =~= s2 + s3);
        assert forall|all: Seq<Exchange>, a: int| #[trigger] placed(all, a, es) implies pin_probe(
            all,
            a,
            codec_addr,
            pin,
        ) == Some((a + es.len(), r)) by {
            lemma_placed_concat(all, a, s1, s23);
            lemma_placed_concat(all, a + 1, s2, s3);
            assert(all[a + 0] == s1[0]);
            assert(all[a + 1 + s2.len() + 0] == s3[0]);
        }
        if is_dac {
            assert(es[0] == s1[0]);
            assert(es[1] == s2[0]);
            assert(es[2] == s2[1]);
            assert(es[es.len() - 1] == s3[0]);
        }
    }
    r
}

/// The pin search so far, in every log that holds this probe's exchanges
/// `cur` from index `a` on: searching from the group's first widget reads
/// back as having stopped with `found`, or as searching on from `nid`.
spec fn search_so_far(
    all: Seq<Exchange>,
    a: int,
    cur: Seq<Exchange>,
    walk_at: int,
    codec: u8,
    start: u8,
    end: int,
    nid: int,
    found: Option<(u8, u8)>,
    stopped: bool,
) -> bool {
    pin_search(all, a + walk_at, codec, start as int, end) == if stopped {
        Some((a + cur.len(), found))
    } else {
        pin_search(all, a + cur.len(), codec, nid, end)
    }
}

/// Tries codec `codec_addr`: reads its IDs, finds its Audio Function Group,
/// and walks the group's widgets for the first output-capable Pin Complex
/// whose first connection is an Audio Output converter.
#[verifier::rlimit(60)]
#[verifier::spinoff_prover]
fn probe_codec<P: Platform>(controller: &mut Controller<P>, codec_addr: u8) -> (r: Option<Target>)
    ensures
        final(controller).verbs_only_since(old(controller)),
        r matches Some(t) ==> t.codec_addr == codec_addr && target_justified(
            final(controller).exchanges_since(old(controller)),
            t,
        ),
        forall|all: Seq<Exchange>, a: int|
            #[trigger] placed(all, a, final(controller).exchanges_since(old(controller))) ==> probe_parse(
                all,
                a,
                codec_addr,
            ) == Some((a + final(controller).exchanges_since(old(controller)).len(), r)),
{
    let ghost c0 = *controller;
    let (vendor_id, device_id) = match controller.vendor_device_id(codec_addr) {
        Ok(ids) => ids,
        Err(_) => {
            proof {
                let es = controller.exchanges_since(&c0);
                assert forall|all: Seq<Exchange>, a: int| #[trigger] placed(all, a, es) implies probe_parse(
                    all,
                    a,
                    codec_addr,
                ) == Some((a + es.len(), None::<Target>)) by {
                    assert(all[a + 0] == es[0]);
                }
            }
            return None;
        },
    };
    let ghost c1 = *controller;
    let ghost ids = c1.exchanges_since(&c0)[0].response.unwrap();
    proof {
        let v = ids;
        assert((((((v >> 16u32) as u16) as u32) << 16u32) | ((v as u16) as u32)) == v) by (bit_vector);
    }
    let afg_res = controller.find_audio_function_group(codec_addr);
    let ghost c2 = *controller;
    proof {
        Controller::lemma_verbs_only_trans(&c0, &c1, &c2);
    }
    let afg = match afg_res {
        Ok(Some(afg)) => afg,
        _ => {
            proof {
                let es = controller.exchanges_since(&c0);
                let s1 = c1.exchanges_since(&c0);
                let s2 = controller.exchanges_since(&c1);
                assert forall|all: Seq<Exchange>, a: int| #[trigger] placed(all, a, es) implies probe_parse(
                    all,
                    a,
                    codec_addr,
                ) == Some((a + es.len(), None::<Target>)) by {
                    lemma_placed_concat(all, a, s1, s2);
                    assert(all[a + 0] == s1[0]);
                    lemma_afg_parse(all, a + 1, s2, codec_addr, afg_res);
                }
            }
            return None;
        },
    };
    let mut found: Option<(u8, u8)> = None;
    let ghost mut w: int = 0;
    let sub = controller.subordinate_nodes(codec_addr, afg);
    let ghost c3 = *controller;
    proof {
        Controller::lemma_verbs_only_trans(&c0, &c2, &c3);
        let es = c3.exchanges_since(&c0);
        let s12 = c2.exchanges_since(&c0);
        let s3 = c3.exchanges_since(&c2);
        let s1 = c1.exchanges_since(&c0);
        let s2 = c2.exchanges_since(&c1);
        assert forall|all: Seq<Exchange>, a: int| #[trigger] placed(all, a, es) implies {
            &&& afg_parse(all, a + 1, codec_addr) == Some((a + s12.len(), Some(afg)))
            &&& all[a + 0] == es[0]
            &&& all[a + s12.len()] == es[s12.len() as int]
        } by {
            lemma_placed_concat(all, a, s12, s3);
            lemma_placed_concat(all, a, s1, s2);
            lemma_afg_parse(all, a + 1, s2, codec_addr, afg_res);
            assert(all[a + s12.len() + 0] == s3[0]);
        }
        assert(es[s12.len() as int] == s3[0]);
        assert(es[0] == s12[0]);
    }
    let ghost walk_at: int = c3.exchanges_since(&c0).len() as int;
    proof {
        c3.lemma_verbs_only_refl();
    }
    match sub {
        Ok((start, count)) => {
            let end: u8 = start.saturating_add(count);
            let ghost end_i: int = nid_range_end(start, count);
            let mut nid = start;
            let mut stopped = false;
            proof {
                let es = controller.exchanges_since(&c0);
                assert forall|all: Seq<Exchange>, a: int| #[trigger] placed(all, a, es) implies search_so_far(
                    all,
                    a,
                    es,
                    walk_at,
                    codec_addr,
                    start,
                    end_i,
                    nid as int,
                    found,
                    stopped,
                ) by {}
            }
            while nid < end && !stopped
                invariant
                    c0 == *old(controller),
                    controller.verbs_only_since(&c0),
                    c3.verbs_only_since(&c0),
                    controller.verbs_only_since(&c3),
                    c1.exchanges_since(&c0).len() == 1,
                    controller.exchanges_since(&c0).len() >= 1,
                    controller.exchanges_since(&c0)[0] == c1.exchanges_since(&c0)[0],
                    is_param_query(controller.exchanges_since(&c0)[0], codec_addr, 0, param_id::VENDOR_ID),
                    controller.exchanges_since(&c0)[0].response == Some((((vendor_id as u32) << 16u32) | device_id as u32)),
                    walk_at == c3.exchanges_since(&c0).len(),
                    walk_at <= controller.exchanges_since(&c0).len(),
                    end as int == end_i,
                    start <= nid <= end,
                    found is Some ==> stopped,
                    found matches Some((pn, d)) ==> {
                        let es = controller.exchanges_since(&c0);
                        &&& 0 < w
                        &&& w + 3 < es.len() - 1
                        &&& is_param_query(es[w], codec_addr, pn, param_id::AUDIO_WIDGET_CAPS)
                        &&& es[w].response is Some
                        &&& WidgetCaps::spec_decode(es[w].response.unwrap()).wtype == WidgetType::PinComplex
                        &&& pin_evidence(es.subrange(w + 1, es.len() as int), codec_addr, pn, d)
                    },
                    forall|all: Seq<Exchange>, a: int|
                        #[trigger] placed(all, a, controller.exchanges_since(&c0)) ==> search_so_far(
                            all,
                            a,
                            controller.exchanges_since(&c0),
                            walk_at,
                            codec_addr,
                            start,
                            end_i,
                            nid as int,
                            found,
                            stopped,
                        ),
                decreases end - nid,
            {
                let ghost before = *controller;
                let res = controller.widget_caps(codec_addr, nid);
                let ghost mid = *controller;
                proof {
                    Controller::lemma_verbs_only_trans(&c0, &before, &mid);
                    Controller::lemma_verbs_only_trans(&c3, &before, &mid);
                    assert(mid.exchanges_since(&c0)[0] == before.exchanges_since(&c0)[0]);
                    mid.lemma_verbs_only_refl();
                }
                let mut tried: Option<u8> = None;
                let mut asked_pin = false;
                match res {
                    Ok(caps) => {
                        if caps.wtype == WidgetType::PinComplex {
                            asked_pin = true;
                            tried = try_pin(controller, codec_addr, nid);
                            proof {
                                Controller::lemma_verbs_only_trans(&c0, &mid, controller);
                                Controller::lemma_verbs_only_trans(&c3, &mid, controller);
                                assert(controller.exchanges_since(&c0)[0] == mid.exchanges_since(&c0)[0]);
                            }
                            if let Some(dac) = tried {
                                found = Some((nid, dac));
                                stopped = true;
                                proof {
                                    let es = controller.exchanges_since(&c0);
                                    let m = mid.exchanges_since(&c0);
                                    let seg = controller.exchanges_since(&mid);
                                    assert(es =~= m + seg);
                                    w = m.len() - 1;
                                    assert(es[w] == m[w]);
                                    assert(es.subrange(w + 1, es.len() as int) =~= seg);
                                }
                            }
                        }
                    },
                    Err(_) => {
                        stopped = true;
                    },
                }
                proof {
                    if !asked_pin {
                        Controller::lemma_verbs_only_refl(controller);
                    }
                    let cur0 = before.exchanges_since(&c0);
                    let cur1 = mid.exchanges_since(&c0);
                    let cur = controller.exchanges_since(&c0);
                    let q = mid.exchanges_since(&before);
                    let tail = controller.exchanges_since(&mid);
                    assert(cur1 == cur0 + q);
                    assert(cur =~= cur1 + tail);
                    assert forall|all: Seq<Exchange>, a: int| #[trigger] placed(all, a, cur) implies search_so_far(
                        all,
                        a,
                        cur,
                        walk_at,
                        codec_addr,
                        start,
                        end_i,
                        (nid + 1) as int,
                        found,
                        stopped,
                    ) by {
                        lemma_placed_concat(all, a, cur1, tail);
                        lemma_placed_concat(all, a, cur0, q);
                        assert(all[a + cur0.len() + 0] == q[0]);
                    }
                }
                nid += 1;
            }
            proof {
                let es = controller.exchanges_since(&c0);
                let es3 = c3.exchanges_since(&c0);
                let tail = controller.exchanges_since(&c3);
                Controller::lemma_verbs_only_trans(&c0, &c3, controller);
                assert forall|all: Seq<Exchange>, a: int| #[trigger] placed(all, a, es) implies probe_parse(
                    all,
                    a,
                    codec_addr,
                ) == Some((a + es.len(), probe_target(codec_addr, ids, found))) by {
                    lemma_placed_concat(all, a, es3, tail);
                    assert(search_so_far(all, a, es, walk_at, codec_addr, start, end_i, nid as int, found, stopped));
                    assert(placed(all, a, es3));
                }
            }
        },
        Err(_) => {
            proof {
                let es = controller.exchanges_since(&c0);
                assert forall|all: Seq<Exchange>, a: int| #[trigger] placed(all, a, es) implies probe_parse(
                    all,
                    a,
                    codec_addr,
                ) == Some((a + es.len(), probe_target(codec_addr, ids, found))) by {}
            }
        },
    }
    let (pin_nid, dac_nid) = match found {
        Some(f) => f,
        None => return None,
    };
    let t = Target { codec_addr, vendor_id, device_id, dac_nid, pin_nid };
    proof {
        let es = controller.exchanges_since(&c0);
        let d = es.len() - 1;
        assert(es.subrange(w + 1, d + 1) =~= es.subrange(w + 1, es.len() as int));
        assert(target_evidence(es, t, 0, w, d));
        assert(es[d] == es[d]);
    }
    Some(t)
}

/// Finds the first codec with a widget path this driver knows how to drive:
/// an Audio Function Group, an output-capable Pin Complex under it, and a
/// DAC in that pin's connection list.
///
/// The verbs sent, and the result, are exactly those of probing in address
/// order each codec whose bit is set in the presence bitmap read from the
/// controller, stopping at the first codec that yields a path (see
/// [`codecs_parse`]); a returned target is backed by the answers it was
/// built from.
pub fn find_output_target<P: Platform>(controller: &mut Controller<P>) -> (r: Option<Target>)
    ensures
        final(controller).verbs_only_since(old(controller)),
        r matches Some(t) ==> t.codec_addr < 15 && target_justified(
            final(controller).exchanges_since(old(controller)),
            t,
        ),
        exists|presence: u16|
            {
                &&& presence < 0x8000
                &&& exists|raw: u16| #[trigger] old(controller).reads16(regs::STATESTS, raw) && presence == raw & 0x7FFF
                &&& #[trigger] codecs_parse(final(controller).exchanges_since(old(controller)), 0, presence, 0)
                    == Some((final(controller).exchanges_since(old(controller)).len() as int, r))
            },
{
    let ghost c0 = *controller;
    proof {
        controller.lemma_verbs_only_refl();
    }
    let presence = controller.codec_presence();
    let mut codec_addr: u8 = 0;
    proof {
        let es = controller.exchanges_since(&c0);
        assert forall|all: Seq<Exchange>, a: int| #[trigger] placed(all, a, es) implies codecs_parse(
            all,
            a,
            presence,
            0,
        ) == codecs_parse(all, a + es.len(), presence, codec_addr as int) by {}
    }
    while codec_addr < 15
        invariant
            c0 == *old(controller),
            controller.verbs_only_since(&c0),
            codec_addr <= 15,
            presence < 0x8000,
            exists|raw: u16| #[trigger] c0.reads16(regs::STATESTS, raw) && presence == raw & 0x7FFF,
            forall|all: Seq<Exchange>, a: int|
                #[trigger] placed(all, a, controller.exchanges_since(&c0)) ==> codecs_parse(all, a, presence, 0)
                    == codecs_parse(all, a + controller.exchanges_since(&c0).len(), presence, codec_addr as int),
        decreases 15 - codec_addr,
    {
        let ghost before = *controller;
        let bit = presence & (1u16 << codec_addr);
        proof {
            assert(bit == presence & (1u16 << (codec_addr as u16))) by (bit_vector)
                requires
                    bit == presence & (1u16 << codec_addr),
                    codec_addr < 15,
            ;
        }
        if bit != 0 {
            let found = probe_codec(controller, codec_addr);
            proof {
                Controller::lemma_verbs_only_trans(&c0, &before, controller);
                let cur0 = before.exchanges_since(&c0);
                let seg = controller.exchanges_since(&before);
                let cur = controller.exchanges_since(&c0);
                assert forall|all: Seq<Exchange>, a: int| #[trigger] placed(all, a, cur) implies codecs_parse(
                    all,
                    a,
                    presence,
                    0,
                ) == match found {
                    Some(t) => Some((a + cur.len(), Some(t))),
                    None => codecs_parse(all, a + cur.len(), presence, codec_addr + 1),
                } by {
                    lemma_placed_concat(all, a, cur0, seg);
                    assert(placed(all, a, cur0));
                    assert(placed(all, a + cur0.len(), seg));
                }
            }
            if let Some(t) = found {
                proof {
                    lemma_justified_shift(before.exchanges_since(&c0), controller.exchanges_since(&before), t);
                    let cur = controller.exchanges_since(&c0);
                    assert(placed(cur, 0, cur));
                    assert(codecs_parse(cur, 0, presence, 0) == Some((cur.len() as int, Some(t))));
                }
                return Some(t);
            }
        } else {
            proof {
                Controller::lemma_verbs_only_refl(controller);
            }
        }
        codec_addr += 1;
    }
    proof {
        let cur = controller.exchanges_since(&c0);
        assert(placed(cur, 0, cur));
        assert(codecs_parse(cur, 0, presence, 0) == Some((cur.len() as int, None::<Target>)));
    }
    None
}

/// How many verbs [`unmute_output_at_zero_db`] sends, given the answer to
/// its amplifier-capabilities query: a second one only when the amp reports
/// gain steps.
pub open spec fn unmute_len(caps_query: Exchange) -> int {
    match caps_query.response {
        Some(raw) => if AmpCaps::spec_decode(raw).num_steps > 0 {
            2
        } else {
            1
        },
        None => 1,
    }
}

/// `es`, starting at `at`, holds the verbs of unmuting `nid`'s output amp
/// at its 0 dB step: an output-amp-capabilities query, then -- when the amp
/// reports gain steps -- an unmute at its reported 0 dB offset.
pub open spec fn unmute_exchanges(es: Seq<Exchange>, at: int, codec_addr: u8, nid: u8) -> bool {
    &&& 0 <= at
    &&& at + unmute_len(es[at]) <= es.len()
    &&& is_param_query(es[at], codec_addr, nid, param_id::OUTPUT_AMP_CAPS)
    &&& unmute_len(es[at]) == 2 ==> is_verb(
        es[at + 1],
        codec_addr,
        nid,
        amp_gain_mute_payload(false, AmpCaps::spec_decode(es[at].response.unwrap()).offset),
    )
}

/// Unmutes `nid`'s output amplifier at its reported 0 dB point. If the amp
/// doesn't report any usable step info (either it has no amp there, or it
/// just doesn't implement the Amplifier Capabilities parameter and reports
/// all-zero), leaves the amp alone rather than programming an explicit gain
/// of 0, which would be the minimum (near-silent) setting on hardware that
/// *does* implement it.
pub fn unmute_output_at_zero_db<P: Platform>(controller: &mut Controller<P>, codec_addr: u8, nid: u8)
    ensures
        final(controller).verbs_only_since(old(controller)),
        final(controller).exchanges_since(old(controller)).len() == unmute_len(
            final(controller).exchanges_since(old(controller))[0],
        ),
        unmute_exchanges(final(controller).exchanges_since(old(controller)), 0, codec_addr, nid),
{
    let ghost c0 = *controller;
    let res = controller.output_amp_caps(codec_addr, nid);
    let ghost c1 = *controller;
    if let Ok(caps) = res {
        if caps.num_steps > 0 {
            controller.set_output_amp_gain_mute(codec_addr, nid, false, caps.offset);
            proof {
                Controller::lemma_verbs_only_trans(&c0, &c1, controller);
            }
        }
    }
}

/// Everything [`configure_and_play_output`] needs about the stream it's
/// starting, beyond the [`Target`] and the buffer itself.
#[derive(Debug, Clone, Copy)]
pub struct StreamPlan {
    pub index: u8,
    pub tag: u8,
    pub format: PcmFormat,
    pub last_valid_index: u16,
    pub cyclic_buffer_len: u32,
}

/// `es` holds the codec-side verbs of wiring up `target` for `plan`: the
/// converter format (only when the format has an encoding), the converter's
/// stream and channel, the DAC's amp unmute, the pin's output and
/// headphone enables, the pin's amp unmute, and EAPD on.
pub open spec fn output_setup_exchanges(es: Seq<Exchange>, target: Target, plan: StreamPlan) -> bool {
    let codec = target.codec_addr;
    let f: int = if plan.format.spec_encode() is Some {
        1
    } else {
        0
    };
    let i1 = f + 1;
    let i2 = i1 + unmute_len(es[i1]);
    let i3 = i2 + 1;
    let i4 = i3 + unmute_len(es[i3]);
    &&& es.len() == i4 + 1
    &&& f == 1 ==> is_verb(
        es[0],
        codec,
        target.dac_nid,
        converter_format_payload(plan.format.spec_encode().unwrap()),
    )
    &&& is_verb(es[f], codec, target.dac_nid, stream_channel_payload(plan.tag, 0))
    &&& unmute_exchanges(es, i1, codec, target.dac_nid)
    &&& is_verb(es[i2], codec, target.pin_nid, pin_widget_control_payload(true, false, true))
    &&& unmute_exchanges(es, i3, codec, target.pin_nid)
    &&& is_verb(es[i4], codec, target.pin_nid, 0x70C00u32 | 2u32)
}

/// The reads `s` end with `t`.
pub open spec fn ends_with(s: Seq<Read>, t: Seq<Read>) -> bool {
    t.len() <= s.len() && s.subrange(s.len() - t.len(), s.len() as int) == t
}

/// `c1` is `c0` after [`configure_and_play_output`] returned `r`: the
/// codec side of `target` was wired up for `plan` by verbs, then the output
/// stream was reset, programmed with `bdl` and the plan, and set running;
/// or, where the stream reset timed out, the run stopped there; or, for a
/// format without an encoding, the stream was only set running.
pub open spec fn output_played<P: Platform>(
    c0: Controller<P>,
    c1: Controller<P>,
    target: Target,
    bdl: DmaBuffer,
    plan: StreamPlan,
    r: Result<(), Error>,
) -> bool {
    let es = c1.exchanges_since(&c0);
    let base = c0.gcap().spec_output_stream_base(plan.index) as u32;
    let verb_part = c0.writes() + exchange_writes(c0.corb().phys_addr, c0.corb_wp(), es);
    &&& output_setup_exchanges(es, target, plan)
    &&& c1.exchanges().take(c0.exchanges().len() as int) == c0.exchanges()
    &&& c0.exchanges().len() <= c1.exchanges().len()
    &&& c1.gcap() == c0.gcap()
    &&& c1.corb() == c0.corb()
    &&& c1.rirb() == c0.rirb()
    &&& match plan.format.spec_encode() {
        None => r is Ok && exists|ctl: u32|
            {
                &&& c1.reads().len() > 0
                &&& c1.reads().last() == Read::Reg32(base, ctl)
                &&& c1.writes() == verb_part + seq![Write::Reg32(base, #[trigger] (ctl | 2u32))]
            },
        Some(fmt) => match r {
            Ok(_) => exists|ctl: u32|
                {
                    &&& c1.reads().len() > 0
                    &&& c1.reads().last() == Read::Reg32(base, ctl)
                    &&& c1.writes() == verb_part + stream_reset_writes(base) + stream_setup_writes(
                        base,
                        bdl.phys_addr,
                        plan.cyclic_buffer_len,
                        plan.last_valid_index,
                        fmt,
                        plan.tag,
                    ) + seq![Write::Reg32(base, #[trigger] (ctl | 2u32))]
                },
            Err(e) => e == Error::StreamResetTimeout && c1.writes() == verb_part + stream_reset_writes(base),
        },
    }
    &&& plan.format.spec_encode() is Some ==> exists|first: Seq<u32>, second: Seq<u32>, entered: bool|
        {
            &&& #[trigger] reset_polls(
                first,
                second,
                bit_set(regs::sdctl::SRST),
                bit_clear(regs::sdctl::SRST),
                entered,
                r is Ok,
            )
            &&& ends_with(
                if r is Ok {
                    c1.reads().drop_last()
                } else {
                    c1.reads()
                },
                reg32_reads((base + regs::sd::CTL_STS) as u32, first) + reg32_reads(
                    (base + regs::sd::CTL_STS) as u32,
                    second,
                ),
            )
        }
}

/// Wires up `target`'s codec side (converter format/stream-channel, pin
/// widget control, EAPD, amp unmute) and starts `plan`'s stream playing
/// `bdl`. Every caller of this driver that plays a precomputed buffer
/// through a discovered [`Target`] wants exactly this sequence -- only the
/// stream and buffer contents differ per caller.
///
/// The stream's `SDnFMT` register and the converter receive the same
/// encoded format.
#[verifier::rlimit(50)]
#[verifier::spinoff_prover]
pub fn configure_and_play_output<P: Platform>(
    controller: &mut Controller<P>,
    target: &Target,
    bdl: &DmaBuffer,
    plan: StreamPlan,
) -> (r: Result<(), Error>)
    ensures
        output_played(*old(controller), *final(controller), *target, *bdl, plan, r),
{
    let ghost c0 = *controller;
    controller.set_converter_format(target.codec_addr, target.dac_nid, plan.format);
    let ghost c1 = *controller;
    controller.set_converter_stream_channel(target.codec_addr, target.dac_nid, plan.tag, 0);
    let ghost c2 = *controller;
    unmute_output_at_zero_db(controller, target.codec_addr, target.dac_nid);
    let ghost c3 = *controller;
    controller.set_pin_widget_control(target.codec_addr, target.pin_nid, true, false, true);
    let ghost c4 = *controller;
    unmute_output_at_zero_db(controller, target.codec_addr, target.pin_nid);
    let ghost c5 = *controller;
    controller.set_eapd(target.codec_addr, target.pin_nid, true);
    let ghost c6 = *controller;
    proof {
        Controller::lemma_verbs_only_trans(&c0, &c1, &c2);
        Controller::lemma_verbs_only_trans(&c0, &c2, &c3);
        Controller::lemma_verbs_only_trans(&c0, &c3, &c4);
        Controller::lemma_verbs_only_trans(&c0, &c4, &c5);
        Controller::lemma_verbs_only_trans(&c0, &c5, &c6);
        let es = c6.exchanges_since(&c0);
        let e1 = c1.exchanges_since(&c0);
        let e2 = c2.exchanges_since(&c1);
        let e3 = c3.exchanges_since(&c2);
        let e4 = c4.exchanges_since(&c3);
        let e5 = c5.exchanges_since(&c4);
        let e6 = c6.exchanges_since(&c5);
        assert(es =~= e1 + e2 + e3 + e4 + e5 + e6);
        let f = e1.len() as int;
        assert(es[f] == e2[0]);
        assert(es[f + 1] == e3[0]);
        let i2 = f + 1 + unmute_len(es[f + 1]);
        assert(es[i2] == e4[0]);
        assert(es[i2 + 1] == e5[0]);
        let i4 = i2 + 1 + unmute_len(es[i2 + 1]);
        assert(es[i4] == e6[0]);
        if unmute_len(es[f + 1]) == 2 {
            assert(es[f + 2] == e3[1]);
        }
        if unmute_len(es[i2 + 1]) == 2 {
            assert(es[i2 + 2] == e5[1]);
        }
        assert(output_setup_exchanges(es, *target, plan));
    }
    let res = controller.configure_output_stream(
        plan.index,
        plan.tag,
        plan.format,
        bdl,
        plan.last_valid_index,
        plan.cyclic_buffer_len,
    );
    let ghost c7 = *controller;
    let ghost polls = if plan.format.spec_encode() is Some {
        choose|first: Seq<u32>, second: Seq<u32>, entered: bool|
            {
                &&& #[trigger] reset_polls(
                    first,
                    second,
                    bit_set(regs::sdctl::SRST),
                    bit_clear(regs::sdctl::SRST),
                    entered,
                    res is Ok,
                )
                &&& c7.reads() == c6.reads() + reg32_reads(
                    (c6.gcap().spec_output_stream_base(plan.index) as u32 + regs::sd::CTL_STS) as u32,
                    first,
                ) + reg32_reads(
                    (c6.gcap().spec_output_stream_base(plan.index) as u32 + regs::sd::CTL_STS) as u32,
                    second,
                )
            }
    } else {
        (Seq::<u32>::empty(), Seq::<u32>::empty(), false)
    };
    proof {
        if plan.format.spec_encode() is Some {
            let ctl = (c0.gcap().spec_output_stream_base(plan.index) as u32 + regs::sd::CTL_STS) as u32;
            let tail = reg32_reads(ctl, polls.0) + reg32_reads(ctl, polls.1);
            assert(c7.reads().subrange(c7.reads().len() - tail.len(), c7.reads().len() as int) =~= tail);
        }
    }
    if res.is_err() {
        proof {
            assert(c7.exchanges_since(&c0) =~= c6.exchanges_since(&c0));
        }
        return res;
    }
    controller.start_output_stream(plan.index);
    proof {
        assert(controller.exchanges_since(&c0) =~= c6.exchanges_since(&c0));
        let es = c6.exchanges_since(&c0);
        let base = c0.gcap().spec_output_stream_base(plan.index) as u32;
        let ctl = choose|ctl: u32|
            {
                &&& controller.reads() == #[trigger] c7.reads().push(Read::Reg32(base, ctl))
                &&& controller.regs_only_since(&c7, seq![Write::Reg32(base, ctl | 2u32)])
            };
        let v = ctl | 2u32;
        assert(controller.reads().last() == Read::Reg32(base, ctl));
        assert(controller.reads().drop_last() =~= c7.reads());
        if plan.format.spec_encode() is Some {
            let ctl_at = (base + regs::sd::CTL_STS) as u32;
            assert(c6.gcap() == c0.gcap());
            let tail = reg32_reads(ctl_at, polls.0) + reg32_reads(ctl_at, polls.1);
            assert(ends_with(controller.reads().drop_last(), tail));
            let ok: Result<(), Error> = Ok(());
            assert(reset_polls(
                polls.0,
                polls.1,
                bit_set(regs::sdctl::SRST),
                bit_clear(regs::sdctl::SRST),
                polls.2,
                ok is Ok,
            ));
        }
        match plan.format.spec_encode() {
            None => {
                assert(controller.writes() =~= c0.writes() + exchange_writes(
                    c0.corb().phys_addr,
                    c0.corb_wp(),
                    es,
                ) + seq![Write::Reg32(base, v)]);
            },
            Some(fmt) => {
                assert(controller.writes() =~= c0.writes() + exchange_writes(
                    c0.corb().phys_addr,
                    c0.corb_wp(),
                    es,
                ) + stream_reset_writes(base) + stream_setup_writes(
                    base,
                    bdl.phys_addr,
                    plan.cyclic_buffer_len,
                    plan.last_valid_index,
                    fmt,
                    plan.tag,
                ) + seq![Write::Reg32(base, v)]);
            },
        }
    }
    Ok(())
}

/// Size of one buffer descriptor list entry.
pub const BDL_ENTRY_LEN: usize = 16;

/// The words of buffer descriptor `index`: the buffer's address (low
/// half, then high half), its length, and a zero flags word (no interrupt
/// on completion).
pub open spec fn bdl_entry_writes(bdl_phys: u64, index: usize, addr: u64, len: u32) -> Seq<Write> {
    let at = index * 16;
    seq![
        Write::Dma32(bdl_phys, at as usize, (addr & 0xffff_ffff) as u32),
        Write::Dma32(bdl_phys, (at + 4) as usize, (addr >> 32u64) as u32),
        Write::Dma32(bdl_phys, (at + 8) as usize, len),
        Write::Dma32(bdl_phys, (at + 12) as usize, 0u32),
    ]
}

/// Fills in entry `index` of the buffer descriptor list `bdl` to describe
/// `len` bytes at physical address `addr`.
pub fn write_bdl_entry<P: Platform>(controller: &mut Controller<P>, bdl: &DmaBuffer, index: usize, addr: u64, len: u32)
    requires
        (index + 1) * BDL_ENTRY_LEN <= bdl.len,
    ensures
        final(controller).regs_only_since(old(controller), bdl_entry_writes(bdl.phys_addr, index, addr, len)),
{
    let at = index * BDL_ENTRY_LEN;
    let ghost c0 = *controller;
    controller.write_dma32(bdl, at, (addr & 0xffff_ffff) as u32);
    controller.write_dma32(bdl, at + 4, (addr >> 32) as u32);
    controller.write_dma32(bdl, at + 8, len);
    controller.write_dma32(bdl, at + 12, 0);
    proof {
        assert(controller.writes() =~= c0.writes() + bdl_entry_writes(bdl.phys_addr, index, addr, len));
    }
}

/// The writes that put `words` into the DMA buffer at `phys`, one 32-bit
/// word after another from its start.
pub open spec fn fill_writes(phys: u64, words: Seq<u32>) -> Seq<Write> {
    Seq::new(words.len(), |k: int| Write::Dma32(phys, (k * 4) as usize, words[k]))
}

/// Copies `words` into the start of `buf`.
pub fn fill_dma<P: Platform>(controller: &mut Controller<P>, buf: &DmaBuffer, words: &[u32])
    requires
        words@.len() * 4 <= buf.len,
    ensures
        final(controller).regs_only_since(old(controller), fill_writes(buf.phys_addr, words@)),
{
    let ghost c0 = *controller;
    let n = words.len();
    let mut k = 0usize;
    while k < n
        invariant
            n == words@.len(),
            n * 4 <= buf.len,
            k <= n,
            controller.regs_only_since(&c0, fill_writes(buf.phys_addr, words@.take(k as int))),
        decreases n - k,
    {
        let ghost before = *controller;
        controller.write_dma32(buf, k * 4, words[k]);
        proof {
            assert(fill_writes(buf.phys_addr, words@.take(k + 1)) =~= fill_writes(buf.phys_addr, words@.take(k as int))
                + seq![Write::Dma32(buf.phys_addr, (k * 4) as usize, words@[k as int])]);
            assert(controller.writes() =~= c0.writes() + fill_writes(buf.phys_addr, words@.take(k + 1)));
        }
        k += 1;
    }
    proof {
        assert(words@.take(n as int) =~= words@);
    }
}

} // verus!
