//! The HDA controller itself: reset/bring-up, the CORB/RIRB command
//! channel, codec/widget discovery, and stream descriptor programming.
//!
//! Every register and DMA write the controller issues, and every verb it
//! exchanges with a codec, is recorded in ghost logs ([`Controller::writes`]
//! and [`Controller::exchanges`]); the contracts below state exactly what
//! each operation adds to them.
use vstd::prelude::*;
use vstd::slice::SliceAdditionalExecFns;

use crate::hda::codec::{AmpCaps, PinCaps, WidgetCaps};
use crate::hda::format::PcmFormat;
use crate::hda::platform::{DmaBuffer, Platform};
use crate::hda::regs::{self, Gcap};
use crate::hda::verbs::{self, param_id};

verus! {

#[derive(Debug, Clone, Copy, PartialEq, Eq, Structural)]
pub enum Error {
    /// GCTL.CRST didn't reach the expected value in time.
    ControllerResetTimeout,
    /// A stream's SRST didn't reach the expected value in time.
    StreamResetTimeout,
    /// Sent a verb but never saw a matching RIRB response.
    CommandTimeout,
    /// The controller cannot select 256-entry CORB and RIRB rings.
    RingSizeUnsupported,
}

/// How many times a reset bit is polled before giving up.
pub const RESET_POLL_ITERATIONS: u32 = 10_000;

/// Microseconds waited between two polls of a reset bit.
pub const RESET_POLL_DELAY_US: u32 = 10;

/// How many times RIRBWP is polled for a response before giving up.
pub const COMMAND_POLL_ITERATIONS: u32 = 20_000;

/// Microseconds waited between two RIRBWP polls.
pub const COMMAND_POLL_DELAY_US: u32 = 5;

/// 256 entries is the largest (and simplest to just always pick) CORB/RIRB
/// size every controller is required to support the capability bit for;
/// software still has to confirm the size is actually selectable, which
/// [`Controller::new`] does before committing to it.
const RING_ENTRIES: usize = 256;

/// The end of the node-ID range starting at `start` with `count` nodes,
/// saturating at 255 (node IDs are 8 bits).
pub open spec fn nid_range_end(start: u8, count: u8) -> int {
    if start + count > 255 {
        255
    } else {
        start + count
    }
}

/// A child-count response split into `(start, count)`.
pub open spec fn split_nodes(raw: u32) -> (u8, u8) {
    ((raw >> 16u32) as u8, raw as u8)
}

/// `es` records a search of codec `codec_addr`'s root node for its first
/// Audio Function Group, and `r` is what the search found: a child-count
/// query of the root, then one function-group-type query per child in
/// order, stopping at the first child whose type is an audio function
/// group, after the last child, or at the first query left unanswered.
pub open spec fn afg_scan(es: Seq<Exchange>, codec_addr: u8, r: Result<Option<u8>, Error>) -> bool {
    &&& es.len() >= 1
    &&& is_param_query(es[0], codec_addr, verbs::ROOT_NODE, param_id::SUBORDINATE_NODE_COUNT)
    &&& match es[0].response {
        None => es.len() == 1 && r == Err::<Option<u8>, Error>(Error::CommandTimeout),
        Some(raw) => {
            let start = split_nodes(raw).0;
            let n = es.len() - 1;
            &&& start + n <= nid_range_end(start, split_nodes(raw).1)
            &&& forall|j: int|
                1 <= j <= n ==> is_param_query(
                    #[trigger] es[j],
                    codec_addr,
                    (start + j - 1) as u8,
                    param_id::FUNCTION_GROUP_TYPE,
                )
            &&& forall|j: int|
                1 <= j < n ==> (#[trigger] es[j]).response is Some && es[j].response.unwrap() as u8
                    != verbs::NODE_TYPE_AUDIO_FUNCTION_GROUP
            &&& match r {
                Ok(Some(nid)) => {
                    &&& n >= 1
                    &&& nid == start + n - 1
                    &&& es[n].response is Some
                    &&& es[n].response.unwrap() as u8 == verbs::NODE_TYPE_AUDIO_FUNCTION_GROUP
                },
                Ok(None) => {
                    &&& start + n == nid_range_end(start, split_nodes(raw).1)
                    &&& n >= 1 ==> es[n].response is Some && es[n].response.unwrap() as u8
                        != verbs::NODE_TYPE_AUDIO_FUNCTION_GROUP
                },
                Err(e) => e == Error::CommandTimeout && n >= 1 && es[n].response is None,
            }
        },
    }
}

/// How many connection-list entries one `GET_CONNECTION_LIST_ENTRY`
/// response carries: two in long form, four in short form.
pub open spec fn entries_per_response(long_form: bool) -> int {
    if long_form {
        2
    } else {
        4
    }
}

/// The list position of entry `slot` of the `k`-th response.
pub open spec fn entry_pos(k: int, slot: int, long_form: bool) -> int {
    if long_form {
        2 * k + slot
    } else {
        4 * k + slot
    }
}

/// Entry `slot` of a connection-list response: the low byte of its 16-bit
/// field in long form, its byte in short form.
pub open spec fn conn_entry(raw: u32, slot: int, long_form: bool) -> u8 {
    if long_form {
        (raw >> ((slot * 16) as u32)) as u8
    } else {
        (raw >> ((slot * 8) as u32)) as u8
    }
}

/// The payload asking for the connection-list entries from `index` on.
pub open spec fn conn_entry_payload(index: int) -> u32 {
    0xF0200u32 | (index as u8) as u32
}

/// Entry `slot` of the `k`-th entry response, when it lies within the list
/// and the buffer, holds what that response carried (or, when none came,
/// what the buffer held before).
pub open spec fn conn_slot_stored(
    es: Seq<Exchange>,
    before: Seq<u8>,
    after: Seq<u8>,
    length_raw: u32,
    k: int,
    slot: int,
) -> bool {
    let long_form = length_raw & 0x80 != 0;
    let length = (length_raw & 0x7F) as int;
    let pos = entry_pos(k, slot, long_form);
    0 <= k < es.len() - 1 && 0 <= slot < entries_per_response(long_form) && pos < length && pos
        < after.len() ==> after[pos] == match es[k + 1].response {
        Some(v) => conn_entry(v, slot, long_form),
        None => before[pos],
    }
}

/// `es` records a read of widget `nid`'s connection list into a buffer that
/// held `before` and now holds `after`, and `r` is the result: a length
/// query, then one entry query per response's worth of entries from index
/// 0, stopping after the last entry or at the first query left unanswered.
/// Each answered entry that fits the buffer is stored at its list position;
/// every other byte keeps its value.
pub open spec fn conn_list_scan(
    es: Seq<Exchange>,
    codec_addr: u8,
    nid: u8,
    before: Seq<u8>,
    after: Seq<u8>,
    r: Result<usize, Error>,
) -> bool {
    &&& es.len() >= 1
    &&& is_param_query(es[0], codec_addr, nid, param_id::CONNECTION_LIST_LENGTH)
    &&& after.len() == before.len()
    &&& match es[0].response {
        None => es.len() == 1 && r == Err::<usize, Error>(Error::CommandTimeout) && after == before,
        Some(raw) => {
            let long_form = raw & 0x80 != 0;
            let length = (raw & 0x7F) as int;
            let n = es.len() - 1;
            &&& n == 0 || entry_pos(n - 1, 0, long_form) < length
            &&& forall|j: int|
                1 <= j <= n ==> is_verb(
                    #[trigger] es[j],
                    codec_addr,
                    nid,
                    conn_entry_payload(entry_pos(j - 1, 0, long_form)),
                )
            &&& forall|j: int| 1 <= j < n ==> (#[trigger] es[j]).response is Some
            &&& forall|k: int, slot: int|
                #[trigger] conn_slot_stored(es, before, after, raw, k, slot)
            &&& forall|pos: int|
                0 <= pos < after.len() && (pos >= length || pos >= entry_pos(n, 0, long_form))
                    ==> #[trigger] after[pos] == before[pos]
            &&& match r {
                Ok(len) => {
                    &&& len == length
                    &&& length <= entry_pos(n, 0, long_form)
                    &&& n >= 1 ==> es[n].response is Some
                },
                Err(e) => e == Error::CommandTimeout && n >= 1 && es[n].response is None,
            }
        },
    }
}

/// The `SET_CONVERTER_FORMAT` payload for an encoded format.
pub open spec fn converter_format_payload(encoded: u16) -> u32 {
    0x20000u32 | encoded as u32
}

/// The `SET_CONVERTER_STREAM_CHANNEL` payload: the stream tag in bits 7:4
/// and the lowest channel in bits 3:0.
pub open spec fn stream_channel_payload(stream_tag: u8, channel: u8) -> u32 {
    0x70600u32 | ((((stream_tag & 0xF) << 4u8) | (channel & 0xF)) as u32)
}

/// The `SET_PIN_WIDGET_CONTROL` payload: headphone amp in bit 7, output in
/// bit 6, input in bit 5.
pub open spec fn pin_widget_control_payload(out_enable: bool, in_enable: bool, headphone_enable: bool) -> u32 {
    0x70700u32 | ((if headphone_enable {
        0x80u8
    } else {
        0u8
    }) | (if out_enable {
        0x40u8
    } else {
        0u8
    }) | (if in_enable {
        0x20u8
    } else {
        0u8
    })) as u32
}

/// The `SET_AMP_GAIN_MUTE` payload for a widget's output amp on both
/// channels: output, left and right set, mute in bit 7, gain in bits 6:0.
pub open spec fn amp_gain_mute_payload(mute: bool, gain: u8) -> u32 {
    0x30000u32 | (0xB000u16 | (if mute {
        0x80u16
    } else {
        0u16
    }) | ((gain & 0x7F) as u16)) as u32
}

/// The pin widget control command carries verb id 0x707 above bit 8, the
/// headphone amp enable in bit 7, the output enable in bit 6 and the input
/// enable in bit 5, each set exactly when asked for, and nothing below; the
/// converter stream/channel command carries verb id 0x706, the stream tag's
/// low four bits in bits 7:4 and the channel's in bits 3:0.
pub proof fn lemma_pin_and_stream_payloads(
    out_enable: bool,
    in_enable: bool,
    headphone_enable: bool,
    stream_tag: u8,
    channel: u8,
)
    ensures
        pin_widget_control_payload(out_enable, in_enable, headphone_enable) >> 8u32 == 0x707,
        (pin_widget_control_payload(out_enable, in_enable, headphone_enable) & 0x80 != 0) <==> headphone_enable,
        (pin_widget_control_payload(out_enable, in_enable, headphone_enable) & 0x40 != 0) <==> out_enable,
        (pin_widget_control_payload(out_enable, in_enable, headphone_enable) & 0x20 != 0) <==> in_enable,
        pin_widget_control_payload(out_enable, in_enable, headphone_enable) & 0x1F == 0,
        stream_channel_payload(stream_tag, channel) >> 8u32 == 0x706,
        (stream_channel_payload(stream_tag, channel) >> 4u32) & 0xF == (stream_tag & 0xF) as u32,
        stream_channel_payload(stream_tag, channel) & 0xF == (channel & 0xF) as u32,
{
    let h: u8 = if headphone_enable { 0x80 } else { 0 };
    let o: u8 = if out_enable { 0x40 } else { 0 };
    let i: u8 = if in_enable { 0x20 } else { 0 };
    assert(pin_widget_control_payload(out_enable, in_enable, headphone_enable) == 0x70700u32 | (h | o | i) as u32);
    assert((h == 0x80 || h == 0) && (o == 0x40 || o == 0) && (i == 0x20 || i == 0) ==> {
        let q = 0x70700u32 | (h | o | i) as u32;
        let c = 0x70600u32 | ((((stream_tag & 0xF) << 4u8) | (channel & 0xF)) as u32);
        &&& q >> 8u32 == 0x707
        &&& (q & 0x80 != 0) == (h == 0x80)
        &&& (q & 0x40 != 0) == (o == 0x40)
        &&& (q & 0x20 != 0) == (i == 0x20)
        &&& q & 0x1F == 0
        &&& c >> 8u32 == 0x706
        &&& (c >> 4u32) & 0xF == (stream_tag & 0xF) as u32
        &&& c & 0xF == (channel & 0xF) as u32
    }) by (bit_vector);
}

/// A `SET_AMP_GAIN_MUTE` command for an output amp carries verb id 3 in bits
/// 19:16, the output, left and right flags (0xB) in bits 15:12, amp index 0,
/// the mute flag in bit 7 (set exactly when muting) and the gain's low seven
/// bits in bits 6:0.
pub proof fn lemma_amp_gain_mute_payload(mute: bool, gain: u8)
    ensures
        amp_gain_mute_payload(mute, gain) >> 16u32 == 3,
        (amp_gain_mute_payload(mute, gain) >> 12u32) & 0xF == 0xB,
        amp_gain_mute_payload(mute, gain) & 0xF00 == 0,
        (amp_gain_mute_payload(mute, gain) & 0x80 != 0) <==> mute,
        amp_gain_mute_payload(mute, gain) & 0x7F == (gain & 0x7F) as u32,
{
    let m: u16 = if mute { 0x80 } else { 0 };
    let p = amp_gain_mute_payload(mute, gain);
    assert(p == 0x30000u32 | (0xB000u16 | m | ((gain & 0x7F) as u16)) as u32);
    assert((m == 0x80 || m == 0) ==> {
        let q = 0x30000u32 | (0xB000u16 | m | ((gain & 0x7F) as u16)) as u32;
        &&& q >> 16u32 == 3
        &&& (q >> 12u32) & 0xF == 0xB
        &&& q & 0xF00 == 0
        &&& (q & 0x80 != 0) == (m == 0x80)
        &&& q & 0x7F == (gain & 0x7F) as u32
    }) by (bit_vector);
}

/// The writes that program a reset output stream at descriptor block `base`:
/// buffer descriptor list address, cyclic buffer length, last valid index,
/// format, and stream tag (with RUN still clear).
pub open spec fn stream_setup_writes(
    base: u32,
    bdl_phys: u64,
    cyclic_buffer_len: u32,
    last_valid_index: u16,
    format: u16,
    stream_tag: u8,
) -> Seq<Write> {
    seq![
        Write::Reg32((base + regs::sd::BDPL) as u32, bdl_phys as u32),
        Write::Reg32((base + regs::sd::BDPU) as u32, (bdl_phys >> 32u64) as u32),
        Write::Reg32((base + regs::sd::CBL) as u32, cyclic_buffer_len),
        Write::Reg16((base + regs::sd::LVI) as u32, last_valid_index),
        Write::Reg16((base + regs::sd::FMT) as u32, format),
        Write::Reg32((base + regs::sd::CTL_STS) as u32, regs::sdctl::spec_with_stream_tag(stream_tag)),
    ]
}

/// One write the driver issued: to an 8-, 16- or 32-bit register at an
/// offset from the controller's base, or a 32-bit word into a DMA buffer
/// (identified by its physical address) at a byte offset.
pub enum Write {
    Reg8(u32, u8),
    Reg16(u32, u16),
    Reg32(u32, u32),
    Dma32(u64, usize, u32),
}

/// One read the driver made through its platform, with the value it got:
/// of a 16- or 32-bit register at an offset from the controller's base, or
/// of a 32-bit word of a DMA buffer (identified by its physical address) at
/// a byte offset.
pub enum Read {
    Reg8(u32, u8),
    Reg16(u32, u16),
    Reg32(u32, u32),
    Dma32(u64, usize, u32),
}

/// One thing the driver did through its platform, in the order done: a
/// write, a read (with the value it got), a wait of some microseconds, or a
/// DMA allocation of some length and alignment.
pub enum Event {
    Write(Write),
    Read(Read),
    Delay(u32),
    Alloc(usize, usize),
}

/// The events of issuing the writes `ws` in order.
pub open spec fn write_events(ws: Seq<Write>) -> Seq<Event> {
    ws.map_values(|w: Write| Event::Write(w))
}

/// The events of a poll that waited `delay` microseconds after each of the
/// reads `rs`.
pub open spec fn delayed_reads(rs: Seq<Read>, delay: u32) -> Seq<Event>
    decreases rs.len(),
{
    if rs.len() == 0 {
        Seq::empty()
    } else {
        delayed_reads(rs.drop_last(), delay) + seq![Event::Read(rs.last()), Event::Delay(delay)]
    }
}

/// The events of a poll that made the reads `rs`, waiting `delay`
/// microseconds after each read that did not end it: after all of them
/// when it gave up, after all but the last when the last one ended it
/// (`ok`).
pub open spec fn poll_events(rs: Seq<Read>, ok: bool, delay: u32) -> Seq<Event> {
    if ok && rs.len() > 0 {
        delayed_reads(rs.drop_last(), delay) + seq![Event::Read(rs.last())]
    } else {
        delayed_reads(rs, delay)
    }
}

/// One more delayed read at the end of a poll.
pub proof fn lemma_delayed_reads_push(rs: Seq<Read>, r: Read, delay: u32)
    ensures
        delayed_reads(rs.push(r), delay) == delayed_reads(rs, delay) + seq![Event::Read(r), Event::Delay(delay)],
{
    assert(rs.push(r).drop_last() =~= rs);
}

/// The log entries of reading the 16-bit register at `offset` once for each
/// value of `vals`, in order.
pub open spec fn reg16_reads(offset: u32, vals: Seq<u16>) -> Seq<Read> {
    vals.map_values(|v: u16| Read::Reg16(offset, v))
}

/// The log entries of reading the 32-bit register at `offset` once for each
/// value of `vals`, in order.
pub open spec fn reg32_reads(offset: u32, vals: Seq<u32>) -> Seq<Read> {
    vals.map_values(|v: u32| Read::Reg32(offset, v))
}

/// `vals` are the values a poll read: it stops at the first value `done`
/// accepts (`ok`), or gives up after `limit` reads that it all refused.
pub open spec fn poll_stops<T>(vals: Seq<T>, done: spec_fn(T) -> bool, limit: nat, ok: bool) -> bool {
    &&& forall|i: int| 0 <= i < vals.len() && !(ok && i == vals.len() - 1) ==> !done(#[trigger] vals[i])
    &&& if ok {
        1 <= vals.len() <= limit && done(vals.last())
    } else {
        vals.len() == limit
    }
}

/// A reset handshake of two polls of one register: `first` waited for
/// `entered_when` (the reset to be entered), and only when that came
/// (`entered`) did `second` wait for `left_when` (the reset to be left);
/// `ok` says both came in time.
pub open spec fn reset_polls(
    first: Seq<u32>,
    second: Seq<u32>,
    entered_when: spec_fn(u32) -> bool,
    left_when: spec_fn(u32) -> bool,
    entered: bool,
    ok: bool,
) -> bool {
    &&& poll_stops(first, entered_when, RESET_POLL_ITERATIONS as nat, entered)
    &&& if entered {
        poll_stops(second, left_when, RESET_POLL_ITERATIONS as nat, ok)
    } else {
        second.len() == 0 && !ok
    }
}

/// A control value with the given bit set.
pub open spec fn bit_set(bit: u32) -> spec_fn(u32) -> bool {
    |v: u32| v & bit != 0
}

/// A control value with the given bit clear.
pub open spec fn bit_clear(bit: u32) -> spec_fn(u32) -> bool {
    |v: u32| v & bit == 0
}

/// A CORBSIZE or RIRBSIZE reading `size` reports that 256-entry rings can
/// be selected (bit 6 of the size capability field).
pub open spec fn ring_256(size: u8) -> bool {
    size & 0x40 != 0
}

/// Whether a CORBSIZE or RIRBSIZE reading `size` reports that 256-entry
/// rings can be selected.
pub fn ring_256_selectable(size: u8) -> (r: bool)
    ensures
        r == ring_256(size),
{
    size & 0x40 != 0
}

/// How bringing up the controller ends, from whether the link reset
/// completed and the CORBSIZE and RIRBSIZE readings taken after it: a
/// failed reset times out; otherwise both rings must offer 256 entries.
pub open spec fn spec_bring_up_outcome(reset_ok: bool, corb_size: u8, rirb_size: u8) -> Result<(), Error> {
    if !reset_ok {
        Err(Error::ControllerResetTimeout)
    } else if ring_256(corb_size) && ring_256(rirb_size) {
        Ok(())
    } else {
        Err(Error::RingSizeUnsupported)
    }
}

/// How bringing up the controller ends, given whether the link reset
/// completed and the ring size registers read after it (see
/// [`spec_bring_up_outcome`]).
pub fn bring_up_outcome(reset_ok: bool, corb_size: u8, rirb_size: u8) -> (r: Result<(), Error>)
    ensures
        r == spec_bring_up_outcome(reset_ok, corb_size, rirb_size),
{
    if !reset_ok {
        Err(Error::ControllerResetTimeout)
    } else if ring_256_selectable(corb_size) && ring_256_selectable(rirb_size) {
        Ok(())
    } else {
        Err(Error::RingSizeUnsupported)
    }
}

/// What happens to `start`, a platform handed to [`Controller::new`], up
/// to the decision whether it comes up: the link reset wrote `reset_writes`
/// and allocated nothing (leaving the platform as `reset`), its first poll read `first` from the
/// platform as it was after GCTL was cleared (`mid`) and its second poll
/// read `second` from `reset`; when the link came out of reset (`left`),
/// CORBSIZE and RIRBSIZE were read from `reset` as `corb_size` and
/// `rirb_size`.
pub open spec fn bring_up_run<P: Platform>(
    start: P,
    first: Seq<u32>,
    second: Seq<u32>,
    entered: bool,
    left: bool,
    mid: P,
    reset: P,
    corb_size: u8,
    rirb_size: u8,
) -> bool {
    &&& reset_polls(first, second, bit_clear(regs::gctl::CRST), bit_set(regs::gctl::CRST), entered, left)
    &&& mid.written() == start.written().push(Write::Reg32(regs::GCTL, 0))
    &&& forall|k: int| 0 <= k < first.len() ==> mid.reads32(regs::GCTL, #[trigger] first[k])
    &&& reset.written() == start.written() + reset_writes()
    &&& reset.allocated() == start.allocated()
    &&& forall|k: int| 0 <= k < second.len() ==> reset.reads32(regs::GCTL, #[trigger] second[k])
    &&& left ==> reset.reads8(regs::CORBSIZE, corb_size) && reset.reads8(regs::RIRBSIZE, rirb_size)
}

/// Whether a GCTL reading `gctl` has CRST set (the link out of reset).
pub fn crst_set(gctl: u32) -> (r: bool)
    ensures
        r == bit_set(regs::gctl::CRST)(gctl),
{
    gctl & regs::gctl::CRST != 0
}

/// Whether a stream control reading `ctl` has SRST set (the stream in
/// reset).
pub fn srst_set(ctl: u32) -> (r: bool)
    ensures
        r == bit_set(regs::sdctl::SRST)(ctl),
{
    ctl & regs::sdctl::SRST != 0
}

/// The RIRB slot of the next response, when a RIRBWP reading `wp` shows
/// the controller's write pointer (its low byte) moved off `rp`, the last
/// slot consumed.
pub open spec fn spec_rirb_step(wp: u16, rp: u8) -> Option<u8> {
    if (wp & 0xFF) as u8 != rp {
        Some(next_slot(rp))
    } else {
        None
    }
}

/// A RIRBWP reading that shows a response past slot `rp`.
pub open spec fn rirb_moved(rp: u8) -> spec_fn(u16) -> bool {
    |wp: u16| spec_rirb_step(wp, rp) is Some
}

/// The slot of the next response to read, if a RIRBWP reading `rirbwp`
/// shows one past `rirb_rp`, the last slot consumed.
pub fn rirb_step(rirbwp: u16, rirb_rp: u8) -> (r: Option<u8>)
    ensures
        r == spec_rirb_step(rirbwp, rirb_rp),
{
    let wp = (rirbwp & 0xFF) as u8;
    if wp != rirb_rp {
        Some(if rirb_rp == 255 { 0 } else { rirb_rp + 1 })
    } else {
        None
    }
}

/// One verb sent to node `nid` of the codec at `codec_addr`, and the
/// response it got (`None` when none arrived in time).
pub struct Exchange {
    pub codec_addr: u8,
    pub nid: u8,
    pub payload: u32,
    pub response: Option<u32>,
}

/// The CORB/RIRB index after `i`: indices wrap at 256.
pub open spec fn next_slot(i: u8) -> u8 {
    if i == 255 {
        0
    } else {
        (i + 1) as u8
    }
}

/// Index `i` advanced by `n` slots.
pub open spec fn advance(i: u8, n: nat) -> u8 {
    ((i + n) % 256) as u8
}

/// What a verb exchange's response means to its caller.
pub open spec fn exchange_result(e: Exchange) -> Result<u32, Error> {
    match e.response {
        Some(v) => Ok(v),
        None => Err(Error::CommandTimeout),
    }
}

/// `e` is the verb carrying `payload` to `nid` of codec `codec_addr`.
pub open spec fn is_verb(e: Exchange, codec_addr: u8, nid: u8, payload: u32) -> bool {
    e.codec_addr == codec_addr && e.nid == nid && e.payload == payload
}

/// The payload of a `GET_PARAMETER` verb for parameter `param`.
pub open spec fn param_payload(param: u8) -> u32 {
    0xF0000u32 | param as u32
}

/// `e` is a `GET_PARAMETER` query for `param` of `nid` on `codec_addr`.
pub open spec fn is_param_query(e: Exchange, codec_addr: u8, nid: u8, param: u8) -> bool {
    is_verb(e, codec_addr, nid, param_payload(param))
}

/// The writes of one verb exchange that used CORB slot `slot`: the command
/// into the CORB, the new write pointer, and -- once a response arrived --
/// the RIRB status clear.
pub open spec fn verb_writes(corb_phys: u64, slot: u8, e: Exchange) -> Seq<Write> {
    seq![
        Write::Dma32(corb_phys, (slot * 4) as usize, verbs::spec_command(e.codec_addr, e.nid, e.payload)),
        Write::Reg16(regs::CORBWP, slot as u16),
    ] + if e.response is Some {
        seq![Write::Reg8(regs::RIRBSTS, regs::rirbsts::RINTFL)]
    } else {
        Seq::<Write>::empty()
    }
}

/// The writes of a run of verb exchanges, starting after CORB slot `wp`.
pub open spec fn exchange_writes(corb_phys: u64, wp: u8, es: Seq<Exchange>) -> Seq<Write>
    decreases es.len(),
{
    if es.len() == 0 {
        Seq::empty()
    } else {
        let slot = next_slot(wp);
        verb_writes(corb_phys, slot, es[0]) + exchange_writes(corb_phys, slot, es.drop_first())
    }
}

/// How many of the exchanges got a response.
pub open spec fn answered(es: Seq<Exchange>) -> nat
    decreases es.len(),
{
    if es.len() == 0 {
        0
    } else {
        (if es[0].response is Some {
            1nat
        } else {
            0nat
        }) + answered(es.drop_first())
    }
}

/// The writes that bring up the CORB at physical address `phys`.
pub open spec fn corb_init_writes(phys: u64) -> Seq<Write> {
    seq![
        Write::Reg8(regs::CORBCTL, 0),
        Write::Reg32(regs::CORBLBASE, phys as u32),
        Write::Reg32(regs::CORBUBASE, (phys >> 32u64) as u32),
        Write::Reg8(regs::CORBSIZE, 2),
        Write::Reg16(regs::CORBRP, regs::corbrp::RESET),
        Write::Reg16(regs::CORBRP, 0),
        Write::Reg16(regs::CORBWP, 0),
        Write::Reg8(regs::CORBCTL, regs::corbctl::CORBRUN),
    ]
}

/// The writes that bring up the RIRB at physical address `phys`, with a
/// response-interrupt count of 1 and both DMA and the response interrupt
/// enabled.
pub open spec fn rirb_init_writes(phys: u64) -> Seq<Write> {
    seq![
        Write::Reg8(regs::RIRBCTL, 0),
        Write::Reg32(regs::RIRBLBASE, phys as u32),
        Write::Reg32(regs::RIRBUBASE, (phys >> 32u64) as u32),
        Write::Reg8(regs::RIRBSIZE, 2),
        Write::Reg16(regs::RIRBWP, regs::rirbwp::RESET),
        Write::Reg16(regs::RINTCNT, 1),
        Write::Reg8(regs::RIRBCTL, regs::rirbctl::RIRBDMAEN | regs::rirbctl::RINTCTL),
    ]
}

/// The writes of a controller reset: CRST cleared, then set.
pub open spec fn reset_writes() -> Seq<Write> {
    seq![Write::Reg32(regs::GCTL, 0), Write::Reg32(regs::GCTL, regs::gctl::CRST)]
}

/// The writes of a stream reset on the descriptor block at `base`: SRST set,
/// then cleared.
pub open spec fn stream_reset_writes(base: u32) -> Seq<Write> {
    seq![
        Write::Reg32((base + regs::sd::CTL_STS) as u32, regs::sdctl::SRST),
        Write::Reg32((base + regs::sd::CTL_STS) as u32, 0),
    ]
}


proof fn lemma_advance(i: u8, n: nat, m: nat)
    ensures
        advance(advance(i, n), m) == advance(i, n + m),
        next_slot(advance(i, n)) == advance(i, n + 1),
        advance(i, 0) == i,
{
    let a = (i + n) % 256;
    assert(((a + m) % 256) == ((i + n + m) % 256)) by {
        vstd::arithmetic::div_mod::lemma_add_mod_noop(i + n, m as int, 256);
        vstd::arithmetic::div_mod::lemma_mod_twice(m as int, 256);
        vstd::arithmetic::div_mod::lemma_add_mod_noop(a, m as int, 256);
        vstd::arithmetic::div_mod::lemma_mod_twice(i + n, 256);
    }
    assert(((a + 1) % 256) == ((i + n + 1) % 256)) by {
        vstd::arithmetic::div_mod::lemma_add_mod_noop(i + n, 1, 256);
        vstd::arithmetic::div_mod::lemma_add_mod_noop(a, 1, 256);
        vstd::arithmetic::div_mod::lemma_mod_twice(i + n, 256);
    }
}

/// Running two batches of exchanges writes what each batch writes, the
/// second starting where the first left the CORB write pointer.
proof fn lemma_exchange_writes_append(corb_phys: u64, wp: u8, es: Seq<Exchange>, fs: Seq<Exchange>)
    ensures
        exchange_writes(corb_phys, wp, es + fs) == exchange_writes(corb_phys, wp, es)
            + exchange_writes(corb_phys, advance(wp, es.len()), fs),
        answered(es + fs) == answered(es) + answered(fs),
    decreases es.len(),
{
    lemma_advance(wp, 0, 0);
    if es.len() == 0 {
        assert(es + fs =~= fs);
    } else {
        let slot = next_slot(wp);
        assert((es + fs).drop_first() =~= es.drop_first() + fs);
        assert((es + fs)[0] == es[0]);
        lemma_exchange_writes_append(corb_phys, slot, es.drop_first(), fs);
        lemma_advance(wp, 0, 1);
        lemma_advance(wp, 1, (es.len() - 1) as nat);
        assert(slot == advance(wp, 1));
        assert(advance(slot, es.drop_first().len()) == advance(wp, es.len()));
        assert(exchange_writes(corb_phys, wp, es + fs) =~= verb_writes(corb_phys, slot, es[0]) + (
        exchange_writes(corb_phys, slot, es.drop_first()) + exchange_writes(
            corb_phys,
            advance(slot, es.drop_first().len()),
            fs,
        )));
    }
}

/// The writes and answers of a single exchange.
proof fn lemma_exchange_writes_single(corb_phys: u64, wp: u8, e: Exchange)
    ensures
        exchange_writes(corb_phys, wp, seq![e]) == verb_writes(corb_phys, next_slot(wp), e),
        answered(seq![e]) == if e.response is Some {
            1nat
        } else {
            0nat
        },
{
    reveal_with_fuel(exchange_writes, 2);
    reveal_with_fuel(answered, 2);
    assert(seq![e].drop_first() =~= Seq::<Exchange>::empty());
    assert(verb_writes(corb_phys, next_slot(wp), e) + Seq::<Write>::empty() =~= verb_writes(
        corb_phys,
        next_slot(wp),
        e,
    ));
}

/// The CORB and RIRB buffers, each large enough for every index a `u8` can
/// hold.
struct Rings {
    corb: DmaBuffer,
    rirb: DmaBuffer,
}

/// One past the last node of a Subordinate Node Count answer `raw`: its
/// starting node plus its count, capped at 255.
pub open spec fn subordinate_end(raw: u32) -> int {
    let start = (raw >> 16u32) as u8 as int;
    let count = raw as u8 as int;
    if start + count > 255 { 255 } else { start + count }
}

impl Rings {
    #[verifier::type_invariant]
    spec fn inv(self) -> bool {
        &&& self.corb.len >= RING_ENTRIES * 4
        &&& self.rirb.len >= RING_ENTRIES * 8
    }
}

pub struct Controller<P: Platform> {
    platform: P,
    gcap: Gcap,
    rings: Rings,
    /// Last CORB index we wrote a command to.
    corb_wp: u8,
    /// Last RIRB index we've consumed a response from.
    rirb_rp: u8,
    writes: Ghost<Seq<Write>>,
    exchanges: Ghost<Seq<Exchange>>,
    reads: Ghost<Seq<Read>>,
    events: Ghost<Seq<Event>>,
    /// What the platform had written before the controller took it over.
    base: Ghost<Seq<Write>>,
}

impl<P: Platform> Controller<P> {
    /// Every register and DMA write issued so far, in order.
    pub closed spec fn writes(&self) -> Seq<Write> {
        self.writes@
    }

    /// What the platform had written before the controller took it over.
    pub closed spec fn base(&self) -> Seq<Write> {
        self.base@
    }

    /// The platform's own record of its writes is what it held when the
    /// controller took it over followed by exactly [`Self::writes`]: every
    /// write logged reached the platform, and no other did.
    pub closed spec fn faithful(&self) -> bool {
        self.platform.written() == self.base@ + self.writes@
    }

    /// Every verb exchanged with a codec so far, in order.
    pub closed spec fn exchanges(&self) -> Seq<Exchange> {
        self.exchanges@
    }

    /// Every register and DMA read made so far through the controller, in
    /// order, with the values read.
    pub closed spec fn reads(&self) -> Seq<Read> {
        self.reads@
    }

    /// Everything done through the platform so far, in order: each write
    /// and read of the two logs above, the waits, and the allocations.
    pub closed spec fn events(&self) -> Seq<Event> {
        self.events@
    }

    /// The events since `old`.
    pub open spec fn events_since(&self, old: &Self) -> Seq<Event> {
        self.events().skip(old.events().len() as int)
    }

    pub closed spec fn gcap(&self) -> Gcap {
        self.gcap
    }

    pub closed spec fn corb(&self) -> DmaBuffer {
        self.rings.corb
    }

    pub closed spec fn rirb(&self) -> DmaBuffer {
        self.rings.rirb
    }

    pub closed spec fn corb_wp(&self) -> u8 {
        self.corb_wp
    }

    pub closed spec fn rirb_rp(&self) -> u8 {
        self.rirb_rp
    }

    /// The verbs exchanged since `old`.
    pub open spec fn exchanges_since(&self, old: &Self) -> Seq<Exchange> {
        self.exchanges().skip(old.exchanges().len() as int)
    }

    /// Since `old`, this controller has only exchanged verbs: the logs grew
    /// by those exchanges and exactly their writes, and the ring indices
    /// moved past them.
    pub open spec fn verbs_only_since(&self, old: &Self) -> bool {
        let es = self.exchanges_since(old);
        &&& self.gcap() == old.gcap()
        &&& self.corb() == old.corb()
        &&& self.rirb() == old.rirb()
        &&& old.exchanges().len() <= self.exchanges().len()
        &&& self.exchanges().take(old.exchanges().len() as int) == old.exchanges()
        &&& self.writes() == old.writes() + exchange_writes(old.corb().phys_addr, old.corb_wp(), es)
        &&& self.corb_wp() == advance(old.corb_wp(), es.len())
        &&& self.rirb_rp() == advance(old.rirb_rp(), answered(es))
        &&& old.faithful() ==> self.faithful()
        &&& self.base() == old.base()
        &&& old.reads().len() <= self.reads().len()
        &&& self.reads().take(old.reads().len() as int) == old.reads()
        &&& old.events().len() <= self.events().len()
        &&& self.events().take(old.events().len() as int) == old.events()
    }

    /// Since `old`, this controller has only issued the register writes
    /// `ws`: no verbs, and the ring indices are where they were.
    pub open spec fn regs_only_since(&self, old: &Self, ws: Seq<Write>) -> bool {
        &&& self.gcap() == old.gcap()
        &&& self.corb() == old.corb()
        &&& self.rirb() == old.rirb()
        &&& self.exchanges() == old.exchanges()
        &&& self.writes() == old.writes() + ws
        &&& self.corb_wp() == old.corb_wp()
        &&& self.rirb_rp() == old.rirb_rp()
        &&& old.faithful() ==> self.faithful()
        &&& self.base() == old.base()
    }



    /// What a controller that came up from the platform `start` has done
    /// and holds: it read GCAP, reset the link (its GCTL polls read `first`
    /// and `second`), read the ring sizes `corb_size` and `rirb_size`,
    /// allocated both rings and programmed them, and every write it made is
    /// on the platform it holds, after what `start` had written.
    pub open spec fn came_up_from(
        &self,
        start: P,
        first: Seq<u32>,
        second: Seq<u32>,
        entered: bool,
        corb_size: u8,
        rirb_size: u8,
    ) -> bool {
        &&& exists|raw_gcap: u16|
            {
                &&& self.gcap() == #[trigger] Gcap::spec_decode(raw_gcap)
                &&& start.reads16(regs::GCAP, raw_gcap)
                &&& self.reads() == seq![Read::Reg16(regs::GCAP, raw_gcap)] + reg32_reads(regs::GCTL, first)
                    + reg32_reads(regs::GCTL, second) + seq![
                    Read::Reg8(regs::CORBSIZE, corb_size),
                    Read::Reg8(regs::RIRBSIZE, rirb_size),
                ]
                &&& self.events() == seq![Event::Read(Read::Reg16(regs::GCAP, raw_gcap))] + reset_events(
                    first,
                    second,
                    entered,
                    true,
                ) + seq![
                    Event::Read(Read::Reg8(regs::CORBSIZE, corb_size)),
                    Event::Read(Read::Reg8(regs::RIRBSIZE, rirb_size)),
                    Event::Alloc(1024, 128),
                    Event::Alloc(2048, 128),
                ] + write_events(corb_init_writes(self.corb().phys_addr)) + write_events(
                    rirb_init_writes(self.rirb().phys_addr),
                )
            }
        &&& self.faithful()
        &&& self.base() == start.written()
        &&& self.writes() == reset_writes() + corb_init_writes(self.corb().phys_addr) + rirb_init_writes(
            self.rirb().phys_addr,
        )
        &&& self.exchanges() == Seq::<Exchange>::empty()
        &&& self.corb_wp() == 0
        &&& self.rirb_rp() == 0
        &&& self.corb().len >= 1024
        &&& self.rirb().len >= 2048
        &&& self.corb().phys_addr % 128 == 0
        &&& self.rirb().phys_addr % 128 == 0
    }

    /// Takes a platform with the HDA controller's PCI command register
    /// already configured (Memory Space + Bus Master enabled) and its BAR0
    /// already resolved to whatever base `platform`'s MMIO accessors use,
    /// resets the controller, and brings up the CORB/RIRB command channel.
    /// When it does not come up, the platform comes back with the error, as
    /// the link reset left it: nothing allocated, no ring register written.
    pub fn try_new(mut platform: P) -> (r: Result<Self, (Error, P)>)
        ensures
            exists|
                first: Seq<u32>,
                second: Seq<u32>,
                entered: bool,
                left: bool,
                mid: P,
                reset: P,
                corb_size: u8,
                rirb_size: u8,
            |
                {
                    &&& #[trigger] bring_up_run(
                        platform,
                        first,
                        second,
                        entered,
                        left,
                        mid,
                        reset,
                        corb_size,
                        rirb_size,
                    )
                    &&& match r {
                        Ok(c) => {
                            &&& spec_bring_up_outcome(left, corb_size, rirb_size) is Ok
                            &&& c.came_up_from(platform, first, second, entered, corb_size, rirb_size)
                        },
                        Err((e, p)) => {
                            &&& spec_bring_up_outcome(left, corb_size, rirb_size) == Err::<(), Error>(e)
                            &&& p == reset
                        },
                    }
                },
    {
        let ghost platform0 = platform;
        let raw_gcap = platform.mmio_read16(regs::GCAP);
        let gcap = Gcap::decode(raw_gcap);
        let (reset, Ghost(log), Ghost(reset_reads), Ghost(reset_evs)) = reset_controller(&mut platform);
        let ghost (first, second, entered, mid) = choose|first: Seq<u32>, second: Seq<u32>, entered: bool, mid: P|
            #![trigger reset_polls(first, second, bit_clear(regs::gctl::CRST), bit_set(regs::gctl::CRST), entered, reset is Ok), mid.written()]
            {
                &&& reset_polls(
                    first,
                    second,
                    bit_clear(regs::gctl::CRST),
                    bit_set(regs::gctl::CRST),
                    entered,
                    reset is Ok,
                )
                &&& reset_reads == reg32_reads(regs::GCTL, first) + reg32_reads(regs::GCTL, second)
                &&& reset_evs == reset_events(first, second, entered, reset is Ok)
                &&& mid.written() == platform0.written().push(Write::Reg32(regs::GCTL, 0))
                &&& forall|k: int| 0 <= k < first.len() ==> mid.reads32(regs::GCTL, #[trigger] first[k])
                &&& forall|k: int| 0 <= k < second.len() ==> platform.reads32(regs::GCTL, #[trigger] second[k])
            };
        let ghost reset_platform = platform;
        let reset_ok = reset.is_ok();
        // Every controller must report the capability for 256-entry rings,
        // but software still confirms the size is selectable before
        // committing to it.
        let (corb_size, rirb_size) = if reset_ok {
            (platform.mmio_read8(regs::CORBSIZE), platform.mmio_read8(regs::RIRBSIZE))
        } else {
            (0, 0)
        };
        proof {
            assert(bring_up_run(
                platform0,
                first,
                second,
                entered,
                reset_ok,
                mid,
                reset_platform,
                corb_size,
                rirb_size,
            ));
        }
        if let Err(e) = bring_up_outcome(reset_ok, corb_size, rirb_size) {
            return Err((e, platform));
        }
        let corb = platform.alloc_dma(RING_ENTRIES * 4, 128);
        let rirb = platform.alloc_dma(RING_ENTRIES * 8, 128);
        let mut controller = Self {
            platform,
            gcap,
            rings: Rings { corb, rirb },
            corb_wp: 0,
            rirb_rp: 0,
            writes: Ghost(log),
            exchanges: Ghost(Seq::empty()),
            reads: Ghost(
                seq![Read::Reg16(regs::GCAP, raw_gcap)] + reset_reads + seq![
                    Read::Reg8(regs::CORBSIZE, corb_size),
                    Read::Reg8(regs::RIRBSIZE, rirb_size),
                ],
            ),
            events: Ghost(
                seq![Event::Read(Read::Reg16(regs::GCAP, raw_gcap))] + reset_evs + seq![
                    Event::Read(Read::Reg8(regs::CORBSIZE, corb_size)),
                    Event::Read(Read::Reg8(regs::RIRBSIZE, rirb_size)),
                    Event::Alloc(1024, 128),
                    Event::Alloc(2048, 128),
                ],
            ),
            base: Ghost(platform0.written()),
        };
        proof {
            assert(controller.faithful());
        }
        controller.init_corb();
        controller.init_rirb();
        proof {
            assert(controller.reads() =~= seq![Read::Reg16(regs::GCAP, raw_gcap)] + reg32_reads(regs::GCTL, first)
                + reg32_reads(regs::GCTL, second) + seq![
                Read::Reg8(regs::CORBSIZE, corb_size),
                Read::Reg8(regs::RIRBSIZE, rirb_size),
            ]);
            assert(controller.events() =~= seq![Event::Read(Read::Reg16(regs::GCAP, raw_gcap))] + reset_events(
                first,
                second,
                entered,
                true,
            ) + seq![
                Event::Read(Read::Reg8(regs::CORBSIZE, corb_size)),
                Event::Read(Read::Reg8(regs::RIRBSIZE, rirb_size)),
                Event::Alloc(1024, 128),
                Event::Alloc(2048, 128),
            ] + write_events(corb_init_writes(controller.corb().phys_addr)) + write_events(
                rirb_init_writes(controller.rirb().phys_addr),
            ));
            assert(controller.gcap() == Gcap::spec_decode(raw_gcap));
            assert(platform0.reads16(regs::GCAP, raw_gcap));
        }
        Ok(controller)
    }

    /// Takes a platform with the HDA controller's PCI command register
    /// already configured (Memory Space + Bus Master enabled) and its BAR0
    /// already resolved to whatever base `platform`'s MMIO accessors use,
    /// resets the controller, and brings up the CORB/RIRB command channel
    /// (see [`Controller::try_new`], which also hands the platform back on
    /// failure).
    pub fn new(platform: P) -> (r: Result<Self, Error>)
        ensures
            exists|
                first: Seq<u32>,
                second: Seq<u32>,
                entered: bool,
                left: bool,
                mid: P,
                reset: P,
                corb_size: u8,
                rirb_size: u8,
            |
                {
                    &&& #[trigger] bring_up_run(
                        platform,
                        first,
                        second,
                        entered,
                        left,
                        mid,
                        reset,
                        corb_size,
                        rirb_size,
                    )
                    &&& match r {
                        Ok(c) => {
                            &&& spec_bring_up_outcome(left, corb_size, rirb_size) is Ok
                            &&& c.came_up_from(platform, first, second, entered, corb_size, rirb_size)
                        },
                        Err(e) => spec_bring_up_outcome(left, corb_size, rirb_size) == Err::<(), Error>(e),
                    }
                },
            r matches Err(e) ==> e == Error::ControllerResetTimeout || e == Error::RingSizeUnsupported,
    {
        match Self::try_new(platform) {
            Ok(c) => Ok(c),
            Err((e, _)) => Err(e),
        }
    }

    /// Sends `GET_PARAMETER` for `param` to `nid` and returns the response.
    pub fn get_parameter(&mut self, codec_addr: u8, nid: u8, param: u8) -> (r: Result<u32, Error>)
        ensures
            final(self).verbs_only_since(old(self)),
            final(self).exchanges_since(old(self)).len() == 1,
            is_param_query(final(self).exchanges_since(old(self))[0], codec_addr, nid, param),
            r == exchange_result(final(self).exchanges_since(old(self))[0]),
    {
        self.send_verb(codec_addr, nid, verbs::GET_PARAMETER().payload(param))
    }

    /// The codec's vendor ID (high half of the root node's Vendor ID
    /// parameter) and device ID (low half).
    pub fn vendor_device_id(&mut self, codec_addr: u8) -> (r: Result<(u16, u16), Error>)
        ensures
            final(self).verbs_only_since(old(self)),
            final(self).exchanges_since(old(self)).len() == 1,
            is_param_query(
                final(self).exchanges_since(old(self))[0],
                codec_addr,
                verbs::ROOT_NODE,
                param_id::VENDOR_ID,
            ),
            r == match exchange_result(final(self).exchanges_since(old(self))[0]) {
                Ok(raw) => Ok::<(u16, u16), Error>(((raw >> 16u32) as u16, raw as u16)),
                Err(e) => Err(e),
            },
    {
        let raw = self.get_parameter(codec_addr, verbs::ROOT_NODE, param_id::VENDOR_ID)?;
        Ok(((raw >> 16) as u16, raw as u16))
    }

    /// `(starting_nid, count)` of a node's direct children.
    pub fn subordinate_nodes(&mut self, codec_addr: u8, nid: u8) -> (r: Result<(u8, u8), Error>)
        ensures
            final(self).verbs_only_since(old(self)),
            final(self).exchanges_since(old(self)).len() == 1,
            is_param_query(
                final(self).exchanges_since(old(self))[0],
                codec_addr,
                nid,
                param_id::SUBORDINATE_NODE_COUNT,
            ),
            r == match exchange_result(final(self).exchanges_since(old(self))[0]) {
                Ok(raw) => Ok::<(u8, u8), Error>(((raw >> 16u32) as u8, raw as u8)),
                Err(e) => Err(e),
            },
    {
        let raw = self.get_parameter(codec_addr, nid, param_id::SUBORDINATE_NODE_COUNT)?;
        Ok(((raw >> 16) as u8, raw as u8))
    }

    pub fn widget_caps(&mut self, codec_addr: u8, nid: u8) -> (r: Result<WidgetCaps, Error>)
        ensures
            final(self).verbs_only_since(old(self)),
            final(self).exchanges_since(old(self)).len() == 1,
            is_param_query(
                final(self).exchanges_since(old(self))[0],
                codec_addr,
                nid,
                param_id::AUDIO_WIDGET_CAPS,
            ),
            r == match exchange_result(final(self).exchanges_since(old(self))[0]) {
                Ok(raw) => Ok::<WidgetCaps, Error>(WidgetCaps::spec_decode(raw)),
                Err(e) => Err(e),
            },
    {
        let raw = self.get_parameter(codec_addr, nid, param_id::AUDIO_WIDGET_CAPS)?;
        Ok(WidgetCaps::decode(raw))
    }

    pub fn pin_caps(&mut self, codec_addr: u8, nid: u8) -> (r: Result<PinCaps, Error>)
        ensures
            final(self).verbs_only_since(old(self)),
            final(self).exchanges_since(old(self)).len() == 1,
            is_param_query(
                final(self).exchanges_since(old(self))[0],
                codec_addr,
                nid,
                param_id::PIN_CAPS,
            ),
            r == match exchange_result(final(self).exchanges_since(old(self))[0]) {
                Ok(raw) => Ok::<PinCaps, Error>(PinCaps::spec_decode(raw)),
                Err(e) => Err(e),
            },
    {
        let raw = self.get_parameter(codec_addr, nid, param_id::PIN_CAPS)?;
        Ok(PinCaps::decode(raw))
    }

    pub fn output_amp_caps(&mut self, codec_addr: u8, nid: u8) -> (r: Result<AmpCaps, Error>)
        ensures
            final(self).verbs_only_since(old(self)),
            final(self).exchanges_since(old(self)).len() == 1,
            is_param_query(
                final(self).exchanges_since(old(self))[0],
                codec_addr,
                nid,
                param_id::OUTPUT_AMP_CAPS,
            ),
            r == match exchange_result(final(self).exchanges_since(old(self))[0]) {
                Ok(raw) => Ok::<AmpCaps, Error>(AmpCaps::spec_decode(raw)),
                Err(e) => Err(e),
            },
    {
        let raw = self.get_parameter(codec_addr, nid, param_id::OUTPUT_AMP_CAPS)?;
        Ok(AmpCaps::decode(raw))
    }


    /// Finds the first Audio Function Group under the codec's root node.
    pub fn find_audio_function_group(&mut self, codec_addr: u8) -> (r: Result<Option<u8>, Error>)
        ensures
            final(self).verbs_only_since(old(self)),
            afg_scan(final(self).exchanges_since(old(self)), codec_addr, r),
    {
        let ghost s0 = *self;
        let (start, count) = match self.subordinate_nodes(codec_addr, verbs::ROOT_NODE) {
            Ok(v) => v,
            Err(e) => return Err(e),
        };
        let ghost s1 = *self;
        let ghost first = self.exchanges_since(&s0)[0];
        let end: u8 = start.saturating_add(count);
        let mut nid = start;
        while nid < end
            invariant
                s0 == *old(self),
                start <= nid <= end,
                end == nid_range_end(start, count),
                self.verbs_only_since(&s0),
                first.response is Some,
                split_nodes(first.response.unwrap()) == (start, count),
                is_param_query(first, codec_addr, verbs::ROOT_NODE, param_id::SUBORDINATE_NODE_COUNT),
                self.exchanges_since(&s0).len() == 1 + (nid - start),
                self.exchanges_since(&s0)[0] == first,
                forall|j: int|
                    1 <= j <= nid - start ==> is_param_query(
                        #[trigger] self.exchanges_since(&s0)[j],
                        codec_addr,
                        (start + j - 1) as u8,
                        param_id::FUNCTION_GROUP_TYPE,
                    ),
                forall|j: int|
                    1 <= j <= nid - start ==> (#[trigger] self.exchanges_since(&s0)[j]).response is Some
                        && self.exchanges_since(&s0)[j].response.unwrap() as u8
                        != verbs::NODE_TYPE_AUDIO_FUNCTION_GROUP,
            decreases end - nid,
        {
            let ghost before = *self;
            let res = self.get_parameter(codec_addr, nid, param_id::FUNCTION_GROUP_TYPE);
            proof {
                Self::lemma_verbs_only_trans(&s0, &before, self);
            }
            let raw = match res {
                Ok(raw) => raw,
                Err(e) => {
                    return Err(e);
                },
            };
            if (raw as u8) == verbs::NODE_TYPE_AUDIO_FUNCTION_GROUP {
                return Ok(Some(nid));
            }
            nid += 1;
        }
        proof {
            let es = self.exchanges_since(&s0);
            if nid > start {
                assert(es[nid - start].response is Some);
            }
        }
        Ok(None)
    }

    /// Fills `out` with up to `out.len()` connection-list entries (node
    /// IDs) for widget `nid`, returning how many the widget actually
    /// reports (which may exceed `out.len()`).
    pub fn connection_list(&mut self, codec_addr: u8, nid: u8, out: &mut [u8]) -> (r: Result<
        usize,
        Error,
    >)
        ensures
            final(self).verbs_only_since(old(self)),
            conn_list_scan(final(self).exchanges_since(old(self)), codec_addr, nid, old(out)@, final(out)@, r),
    {
        let ghost s0 = *self;
        let ghost before = out@;
        let raw = match self.get_parameter(codec_addr, nid, param_id::CONNECTION_LIST_LENGTH) {
            Ok(raw) => raw,
            Err(e) => return Err(e),
        };
        let ghost first = self.exchanges_since(&s0)[0];
        let long_form = raw & (1 << 7) != 0;
        let length = (raw & 0x7F) as usize;
        let per_entry: usize = if long_form {
            2
        } else {
            4
        };
        proof {
            assert((raw & (1u32 << 7u32) != 0) == (raw & 0x80 != 0)) by (bit_vector);
            assert(raw & 0x7F < 128) by (bit_vector);
        }
        let mut index = 0usize;
        let ghost mut k: int = 0;
        while index < length
            invariant
                s0 == *old(self),
                before == old(out)@,
                self.verbs_only_since(&s0),
                first.response == Some(raw),
                is_param_query(first, codec_addr, nid, param_id::CONNECTION_LIST_LENGTH),
                long_form == (raw & 0x80 != 0),
                length == (raw & 0x7F) as int,
                length < 128,
                per_entry == entries_per_response(long_form),
                k >= 0,
                index == entry_pos(k, 0, long_form),
                k == 0 || entry_pos(k - 1, 0, long_form) < length,
                index < length + 4,
                self.exchanges_since(&s0).len() == 1 + k,
                self.exchanges_since(&s0)[0] == first,
                out@.len() == before.len(),
                forall|j: int|
                    1 <= j <= k ==> is_verb(
                        #[trigger] self.exchanges_since(&s0)[j],
                        codec_addr,
                        nid,
                        conn_entry_payload(entry_pos(j - 1, 0, long_form)),
                    ),
                forall|j: int| 1 <= j <= k ==> (#[trigger] self.exchanges_since(&s0)[j]).response is Some,
                forall|j: int, slot: int|
                    0 <= j < k && 0 <= slot < entries_per_response(long_form) && entry_pos(
                        j,
                        slot,
                        long_form,
                    ) < length && entry_pos(j, slot, long_form) < out@.len() ==> #[trigger] out@[entry_pos(
                        j,
                        slot,
                        long_form,
                    )] == conn_entry(self.exchanges_since(&s0)[j + 1].response.unwrap(), slot, long_form),
                forall|pos: int|
                    0 <= pos < out@.len() && (pos >= length || pos >= entry_pos(k, 0, long_form))
                        ==> #[trigger] out@[pos] == before[pos],
            decreases length + 4 - index,
        {
            let ghost prev = *self;
            let ghost prev_out = out@;
            let res = self.send_verb(
                codec_addr,
                nid,
                verbs::GET_CONNECTION_LIST_ENTRY().payload(index as u8),
            );
            proof {
                Self::lemma_verbs_only_trans(&s0, &prev, self);
            }
            let raw = match res {
                Ok(raw) => raw,
                Err(e) => {
                    return Err(e);
                },
            };
            let mut slot = 0usize;
            while slot < per_entry && index + slot < length
                invariant
                    before == old(out)@,
                    per_entry == entries_per_response(long_form),
                    index == entry_pos(k, 0, long_form),
                    index < length,
                    length < 128,
                    slot <= per_entry,
                    out@.len() == before.len(),
                    forall|s: int|
                        0 <= s < slot && entry_pos(k, s, long_form) < length && entry_pos(k, s, long_form)
                            < out@.len() ==> #[trigger] out@[entry_pos(k, s, long_form)] == conn_entry(
                            raw,
                            s,
                            long_form,
                        ),
                    forall|pos: int|
                        0 <= pos < out@.len() && !(index <= pos < index + slot && pos < length) ==> #[trigger] out@[pos]
                            == prev_out[pos],
                decreases per_entry - slot,
            {
                let list_pos = index + slot;
                if list_pos < out.len() {
                    let v: u8 = if long_form {
                        (raw >> (slot as u32 * 16)) as u8
                    } else {
                        (raw >> (slot as u32 * 8)) as u8
                    };
                    out.set(list_pos, v);
                }
                slot += 1;
            }
            index += per_entry;
            proof {
                k = k + 1;
            }
        }
        proof {
            let es = self.exchanges_since(&s0);
            if k >= 1 {
                assert(es[k].response is Some);
            }
            assert forall|j: int, slot: int|
                #[trigger] conn_slot_stored(es, before, out@, raw, j, slot) by {
                if 0 <= j < k && 0 <= slot < entries_per_response(long_form) && entry_pos(j, slot, long_form) < length
                    && entry_pos(j, slot, long_form) < out@.len() {
                    assert(es[j + 1].response is Some);
                    assert(out@[entry_pos(j, slot, long_form)] == conn_entry(es[j + 1].response.unwrap(), slot, long_form));
                }
            }
        }
        Ok(length)
    }

    /// `fin` is this controller after walking widgets `nid..end` of codec
    /// `codec_addr`, ending with `r`: each widget in turn has its
    /// capabilities queried, the walk stops with the error of the first
    /// unanswered query, and an answered one hands the controller, the
    /// widget and its decoded capabilities to the callback, which may take
    /// the controller from `c` to `c2` where `step(c, nid, caps, c2)`,
    /// before going on.
    pub open spec fn widget_walk(
        self,
        step: spec_fn(Self, u8, WidgetCaps, Self) -> bool,
        codec_addr: u8,
        nid: int,
        end: int,
        fin: Self,
        r: Result<(), Error>,
    ) -> bool
        decreases end - nid,
    {
        if nid >= end {
            fin == self && r == Ok::<(), Error>(())
        } else {
            exists|q: Self|
                {
                    &&& q.verbs_only_since(&self)
                    &&& #[trigger] q.exchanges_since(&self).len() == 1
                    &&& is_param_query(
                        q.exchanges_since(&self)[0],
                        codec_addr,
                        nid as u8,
                        param_id::AUDIO_WIDGET_CAPS,
                    )
                    &&& match exchange_result(q.exchanges_since(&self)[0]) {
                        Ok(raw) => exists|after: Self|
                            {
                                &&& #[trigger] step(q, nid as u8, WidgetCaps::spec_decode(raw), after)
                                &&& after.widget_walk(step, codec_addr, nid + 1, end, fin, r)
                            },
                        Err(e) => fin == q && r == Err::<(), Error>(e),
                    }
                }
        }
    }

    /// Walks every widget directly under the Audio Function Group `afg_nid`,
    /// calling `f(nid, caps)` for each. No allocation: the caller decides
    /// whether/how to remember what it finds.
    pub fn for_each_widget(
        &mut self,
        codec_addr: u8,
        afg_nid: u8,
        mut f: impl FnMut(&mut Self, u8, WidgetCaps),
    ) -> (r: Result<(), Error>)
        requires
            forall|c: &mut Self, n: u8, caps: WidgetCaps| #[trigger] f.requires((c, n, caps)),
        ensures
            exists|q: Self|
                {
                    &&& q.verbs_only_since(old(self))
                    &&& #[trigger] q.exchanges_since(old(self)).len() == 1
                    &&& is_param_query(
                        q.exchanges_since(old(self))[0],
                        codec_addr,
                        afg_nid,
                        param_id::SUBORDINATE_NODE_COUNT,
                    )
                    &&& match exchange_result(q.exchanges_since(old(self))[0]) {
                        Ok(raw) => q.widget_walk(
                            |c: Self, n: u8, caps: WidgetCaps, c2: Self|
                                exists|m: &mut Self| *m == c && *final(m) == c2 && f.ensures((m, n, caps), ()),
                            codec_addr,
                            (raw >> 16u32) as u8 as int,
                            subordinate_end(raw),
                            *final(self),
                            r,
                        ),
                        Err(e) => *final(self) == q && r == Err::<(), Error>(e),
                    }
                },
    {
        let ghost c0 = *self;
        let ghost step = |c: Self, n: u8, caps: WidgetCaps, c2: Self|
            exists|m: &mut Self| *m == c && *final(m) == c2 && f.ensures((m, n, caps), ());
        let (start, count) = match self.subordinate_nodes(codec_addr, afg_nid) {
            Ok(v) => v,
            Err(e) => {
                proof {
                    assert(self.exchanges_since(&c0).len() == 1);
                }
                return Err(e);
            },
        };
        let ghost q = *self;
        let end: u8 = start.saturating_add(count);
        let mut nid = start;
        proof {
            assert(self.exchanges_since(&c0).len() == 1);
            let raw = exchange_result(q.exchanges_since(&c0)[0])->Ok_0;
            assert(end == subordinate_end(raw));
        }
        let mut failed: Option<Error> = None;
        while nid < end
            invariant
                forall|c: &mut Self, n: u8, caps: WidgetCaps| #[trigger] f.requires((c, n, caps)),
                start <= nid <= end,
                c0 == *old(self),
                q.verbs_only_since(&c0),
                q.exchanges_since(&c0).len() == 1,
                is_param_query(q.exchanges_since(&c0)[0], codec_addr, afg_nid, param_id::SUBORDINATE_NODE_COUNT),
                exchange_result(q.exchanges_since(&c0)[0]) is Ok,
                start == (exchange_result(q.exchanges_since(&c0)[0])->Ok_0 >> 16u32) as u8,
                end == subordinate_end(exchange_result(q.exchanges_since(&c0)[0])->Ok_0),
                step == (|c: Self, n: u8, caps: WidgetCaps, c2: Self|
                    exists|m: &mut Self| *m == c && *final(m) == c2 && f.ensures((m, n, caps), ())),
                failed matches Some(e) ==> nid == end && q.widget_walk(
                    step,
                    codec_addr,
                    start as int,
                    end as int,
                    *self,
                    Err::<(), Error>(e),
                ),
                failed is None ==> forall|fin: Self, res: Result<(), Error>|
                    #[trigger] self.widget_walk(step, codec_addr, nid as int, end as int, fin, res)
                        ==> q.widget_walk(step, codec_addr, start as int, end as int, fin, res),
            decreases end - nid,
        {
            let ghost cur = *self;
            match self.widget_caps(codec_addr, nid) {
                Ok(caps) => {
                    let ghost q1 = *self;
                    f(self, nid, caps);
                    proof {
                        let after = *self;
                        assert(step(q1, nid, caps, after));
                        assert(q1.exchanges_since(&cur).len() == 1);
                        assert forall|fin: Self, res: Result<(), Error>|
                            #[trigger] after.widget_walk(step, codec_addr, nid + 1, end as int, fin, res) implies
                            cur.widget_walk(step, codec_addr, nid as int, end as int, fin, res) by {}
                    }
                    nid += 1;
                },
                Err(e) => {
                    proof {
                        let fin = *self;
                        assert(fin.exchanges_since(&cur).len() == 1);
                        assert(cur.widget_walk(step, codec_addr, nid as int, end as int, fin, Err(e)));
                    }
                    failed = Some(e);
                    nid = end;
                },
            }
        }
        proof {
            assert(self.widget_walk(step, codec_addr, end as int, end as int, *self, Ok(())));
        }
        match failed {
            Some(e) => Err(e),
            None => Ok(()),
        }
    }

    /// Sends `payload` to `nid`, ignoring the response: the set-style verbs
    /// carry no answer worth checking.
    fn send_command(&mut self, codec_addr: u8, nid: u8, payload: u32)
        ensures
            final(self).verbs_only_since(old(self)),
            final(self).exchanges_since(old(self)).len() == 1,
            is_verb(final(self).exchanges_since(old(self))[0], codec_addr, nid, payload),
    {
        let _ = self.send_verb(codec_addr, nid, payload);
    }

    /// Programs converter `nid`'s format; a format with no encoding sends
    /// nothing.
    pub fn set_converter_format(&mut self, codec_addr: u8, nid: u8, format: PcmFormat)
        ensures
            final(self).verbs_only_since(old(self)),
            match format.spec_encode() {
                Some(v) => {
                    &&& final(self).exchanges_since(old(self)).len() == 1
                    &&& is_verb(
                        final(self).exchanges_since(old(self))[0],
                        codec_addr,
                        nid,
                        converter_format_payload(v),
                    )
                },
                None => {
                    &&& final(self).exchanges_since(old(self)).len() == 0
                    &&& final(self).reads() == old(self).reads()
                    &&& final(self).events() == old(self).events()
                },
            },
    {
        if let Some(encoded) = format.encode() {
            self.send_command(codec_addr, nid, verbs::SET_CONVERTER_FORMAT().payload(encoded));
        } else {
            proof {
                self.lemma_verbs_only_refl();
                assert(self.exchanges_since(self) =~= Seq::<Exchange>::empty());
            }
        }
    }

    /// Assigns converter `nid` to stream `stream_tag`, starting at channel
    /// `channel` (each kept to its low four bits).
    pub fn set_converter_stream_channel(&mut self, codec_addr: u8, nid: u8, stream_tag: u8, channel: u8)
        ensures
            final(self).verbs_only_since(old(self)),
            final(self).exchanges_since(old(self)).len() == 1,
            is_verb(
                final(self).exchanges_since(old(self))[0],
                codec_addr,
                nid,
                stream_channel_payload(stream_tag, channel),
            ),
    {
        let payload = ((stream_tag & 0xF) << 4) | (channel & 0xF);
        self.send_command(codec_addr, nid, verbs::SET_CONVERTER_STREAM_CHANNEL().payload(payload));
    }

    /// Sets pin `nid`'s output, input and headphone-amp enables.
    pub fn set_pin_widget_control(
        &mut self,
        codec_addr: u8,
        nid: u8,
        out_enable: bool,
        in_enable: bool,
        headphone_enable: bool,
    )
        ensures
            final(self).verbs_only_since(old(self)),
            final(self).exchanges_since(old(self)).len() == 1,
            is_verb(
                final(self).exchanges_since(old(self))[0],
                codec_addr,
                nid,
                pin_widget_control_payload(out_enable, in_enable, headphone_enable),
            ),
    {
        let headphone: u8 = if headphone_enable {
            0x80
        } else {
            0
        };
        let output: u8 = if out_enable {
            0x40
        } else {
            0
        };
        let input: u8 = if in_enable {
            0x20
        } else {
            0
        };
        let payload = headphone | output | input;
        self.send_command(codec_addr, nid, verbs::SET_PIN_WIDGET_CONTROL().payload(payload));
    }

    /// Sets the output amplifier's gain/mute on both channels at once
    /// (there is no per-input index for a widget's own output amp).
    pub fn set_output_amp_gain_mute(&mut self, codec_addr: u8, nid: u8, mute: bool, gain: u8)
        ensures
            final(self).verbs_only_since(old(self)),
            final(self).exchanges_since(old(self)).len() == 1,
            is_verb(final(self).exchanges_since(old(self))[0], codec_addr, nid, amp_gain_mute_payload(mute, gain)),
    {
        // Output amp, left and right channels.
        let target: u16 = 0xB000;
        let mute_bit: u16 = if mute {
            0x80
        } else {
            0
        };
        let payload: u16 = target | mute_bit | (gain & 0x7F) as u16;
        self.send_command(codec_addr, nid, verbs::SET_AMP_GAIN_MUTE().payload(payload));
    }

    /// Sets node `nid`'s power state (its low four bits).
    pub fn set_power_state(&mut self, codec_addr: u8, nid: u8, state: u8)
        ensures
            final(self).verbs_only_since(old(self)),
            final(self).exchanges_since(old(self)).len() == 1,
            is_verb(final(self).exchanges_since(old(self))[0], codec_addr, nid, 0x70500u32 | (state & 0xF) as u32),
    {
        self.send_command(codec_addr, nid, verbs::SET_POWER_STATE().payload(state & 0xF));
    }

    /// Turns pin `nid`'s external amplifier (EAPD) on or off.
    pub fn set_eapd(&mut self, codec_addr: u8, nid: u8, enable: bool)
        ensures
            final(self).verbs_only_since(old(self)),
            final(self).exchanges_since(old(self)).len() == 1,
            is_verb(
                final(self).exchanges_since(old(self))[0],
                codec_addr,
                nid,
                0x70C00u32 | if enable { 2u32 } else { 0u32 },
            ),
    {
        self.send_command(
            codec_addr,
            nid,
            verbs::SET_EAPD_BTL().payload(
                if enable {
                    0x2
                } else {
                    0
                },
            ),
        );
    }

    /// Resets output stream `index` (0-based among output streams), sets
    /// its format/stream-tag/buffer-descriptor-list, and leaves it stopped
    /// (RUN = 0) -- call [`Self::start_output_stream`] once the codec side
    /// is also configured. A format with no encoding leaves the stream
    /// untouched.
    pub fn configure_output_stream(
        &mut self,
        index: u8,
        stream_tag: u8,
        format: PcmFormat,
        bdl: &DmaBuffer,
        last_valid_index: u16,
        cyclic_buffer_len: u32,
    ) -> (r: Result<(), Error>)
        ensures
            match format.spec_encode() {
                None => r == Ok::<(), Error>(()) && final(self).regs_only_since(old(self), Seq::empty()),
                Some(encoded) => {
                    let base = old(self).gcap().spec_output_stream_base(index) as u32;
                    match r {
                        Ok(_) => final(self).regs_only_since(
                            old(self),
                            stream_reset_writes(base) + stream_setup_writes(
                                base,
                                bdl.phys_addr,
                                cyclic_buffer_len,
                                last_valid_index,
                                encoded,
                                stream_tag,
                            ),
                        ),
                        Err(e) => e == Error::StreamResetTimeout && final(self).regs_only_since(
                            old(self),
                            stream_reset_writes(base),
                        ),
                    }
                },
            },
            format.spec_encode() is Some ==> exists|first: Seq<u32>, second: Seq<u32>, entered: bool|
                {
                    &&& #[trigger] reset_polls(
                        first,
                        second,
                        bit_set(regs::sdctl::SRST),
                        bit_clear(regs::sdctl::SRST),
                        entered,
                        r is Ok,
                    )
                    &&& final(self).reads() == old(self).reads() + reg32_reads(
                        (old(self).gcap().spec_output_stream_base(index) as u32 + regs::sd::CTL_STS) as u32,
                        first,
                    ) + reg32_reads(
                        (old(self).gcap().spec_output_stream_base(index) as u32 + regs::sd::CTL_STS) as u32,
                        second,
                    )
                    &&& final(self).events() == old(self).events() + stream_reset_events(
                        (old(self).gcap().spec_output_stream_base(index) as u32 + regs::sd::CTL_STS) as u32,
                        first,
                        second,
                        entered,
                        r is Ok,
                    ) + if r is Ok {
                        write_events(
                            stream_setup_writes(
                                old(self).gcap().spec_output_stream_base(index) as u32,
                                bdl.phys_addr,
                                cyclic_buffer_len,
                                last_valid_index,
                                format.spec_encode().unwrap(),
                                stream_tag,
                            ),
                        )
                    } else {
                        Seq::empty()
                    }
                },
    {
        let ghost s0 = *self;
        let encoded_format = match format.encode() {
            Some(v) => v,
            None => {
                proof {
                    assert(self.writes@ =~= s0.writes@ + Seq::<Write>::empty());
                }
                return Ok(());
            },
        };
        let base = self.gcap.output_stream_base(index);
        self.reset_stream(base)?;
        let ghost s1 = *self;
        let phys = bdl.phys_addr;
        self.write32(base + regs::sd::BDPL, phys as u32);
        self.write32(base + regs::sd::BDPU, (phys >> 32) as u32);
        self.write32(base + regs::sd::CBL, cyclic_buffer_len);
        self.write16(base + regs::sd::LVI, last_valid_index);
        self.write16(base + regs::sd::FMT, encoded_format);
        let ctl = regs::sdctl::with_stream_tag(stream_tag);
        self.write32(base + regs::sd::CTL_STS, ctl);
        proof {
            assert(self.writes@ =~= s0.writes@ + (stream_reset_writes(base) + stream_setup_writes(
                base,
                phys,
                cyclic_buffer_len,
                last_valid_index,
                encoded_format,
                stream_tag,
            )));
            assert(self.events@ =~= s1.events@ + write_events(
                stream_setup_writes(base, phys, cyclic_buffer_len, last_valid_index, encoded_format, stream_tag),
            ));
        }
        Ok(())
    }

    /// Sets RUN on output stream `index`, keeping the control register's
    /// other bits as read.
    pub fn start_output_stream(&mut self, index: u8)
        ensures
            exists|ctl: u32|
                {
                    &&& final(self).reads() == #[trigger] old(self).reads().push(
                        Read::Reg32(old(self).gcap().spec_output_stream_base(index) as u32, ctl),
                    )
                    &&& final(self).regs_only_since(
                        old(self),
                        seq![Write::Reg32(old(self).gcap().spec_output_stream_base(index) as u32, ctl | regs::sdctl::RUN)],
                    )
                    &&& final(self).events() == old(self).events() + seq![
                        Event::Read(Read::Reg32(old(self).gcap().spec_output_stream_base(index) as u32, ctl)),
                        Event::Write(Write::Reg32(old(self).gcap().spec_output_stream_base(index) as u32, ctl | regs::sdctl::RUN)),
                    ]
                },
    {
        let base = self.gcap.output_stream_base(index);
        let ctl = self.read32(base + regs::sd::CTL_STS);
        let v = regs::sdctl::run_set(ctl);
        self.write32(base + regs::sd::CTL_STS, v);
        proof {
            assert(self.writes@ =~= old(self).writes@ + seq![Write::Reg32(base, v)]);
            assert(self.regs_only_since(old(self), seq![Write::Reg32(base, ctl | regs::sdctl::RUN)]));
        }
    }

    /// Clears RUN on output stream `index`, keeping the control register's
    /// other bits (the stream tag among them) as read.
    pub fn stop_output_stream(&mut self, index: u8)
        ensures
            exists|ctl: u32|
                {
                    &&& final(self).reads() == #[trigger] old(self).reads().push(
                        Read::Reg32(old(self).gcap().spec_output_stream_base(index) as u32, ctl),
                    )
                    &&& final(self).regs_only_since(
                        old(self),
                        seq![Write::Reg32(old(self).gcap().spec_output_stream_base(index) as u32, ctl & !regs::sdctl::RUN)],
                    )
                    &&& final(self).events() == old(self).events() + seq![
                        Event::Read(Read::Reg32(old(self).gcap().spec_output_stream_base(index) as u32, ctl)),
                        Event::Write(Write::Reg32(old(self).gcap().spec_output_stream_base(index) as u32, ctl & !regs::sdctl::RUN)),
                    ]
                },
    {
        let base = self.gcap.output_stream_base(index);
        let ctl = self.read32(base + regs::sd::CTL_STS);
        let v = regs::sdctl::run_cleared(ctl);
        self.write32(base + regs::sd::CTL_STS, v);
        proof {
            assert(self.writes@ =~= old(self).writes@ + seq![Write::Reg32(base, v)]);
            assert(self.regs_only_since(old(self), seq![Write::Reg32(base, ctl & !regs::sdctl::RUN)]));
        }
    }

    /// Puts the stream descriptor at `base` through a reset: sets SRST and
    /// waits for it to read back set, then clears it and, if the stream did
    /// enter reset, waits for it to read back clear. A stream that never
    /// enters or never leaves reset in time gives `StreamResetTimeout`;
    /// SRST is cleared again either way.
    fn reset_stream(&mut self, base: u32) -> (r: Result<(), Error>)
        requires
            base + regs::sd::CTL_STS <= u32::MAX,
        ensures
            final(self).regs_only_since(old(self), stream_reset_writes(base)),
            r is Ok || r == Err::<(), Error>(Error::StreamResetTimeout),
            exists|first: Seq<u32>, second: Seq<u32>, entered: bool|
                {
                    &&& #[trigger] reset_polls(
                        first,
                        second,
                        bit_set(regs::sdctl::SRST),
                        bit_clear(regs::sdctl::SRST),
                        entered,
                        r is Ok,
                    )
                    &&& final(self).reads() == old(self).reads() + reg32_reads(
                        (base + regs::sd::CTL_STS) as u32,
                        first,
                    ) + reg32_reads((base + regs::sd::CTL_STS) as u32, second)
                    &&& final(self).events() == old(self).events() + stream_reset_events(
                        (base + regs::sd::CTL_STS) as u32,
                        first,
                        second,
                        entered,
                        r is Ok,
                    )
                },
    {
        let ghost s0 = *self;
        let ctl = base + regs::sd::CTL_STS;
        self.write32(ctl, regs::sdctl::SRST);
        let ghost start = s0.events@ + seq![Event::Write(Write::Reg32(ctl, regs::sdctl::SRST))];
        let mut i: u32 = 0;
        let mut entered = false;
        let ghost mut first: Seq<u32> = Seq::empty();
        proof {
            assert(reg32_reads(ctl, first) =~= Seq::<Read>::empty());
            assert(self.reads@ =~= s0.reads@ + reg32_reads(ctl, first));
            assert(self.events@ =~= start + delayed_reads(reg32_reads(ctl, first), RESET_POLL_DELAY_US));
        }
        while i < RESET_POLL_ITERATIONS && !entered
            invariant
                i <= RESET_POLL_ITERATIONS,
                first.len() == i,
                s0 == *old(self),
                self.regs_only_since(&s0, seq![Write::Reg32(ctl, regs::sdctl::SRST)]),
                self.reads@ == s0.reads@ + reg32_reads(ctl, first),
                start == s0.events@ + seq![Event::Write(Write::Reg32(ctl, regs::sdctl::SRST))],
                entered ==> self.events@ == start + poll_events(reg32_reads(ctl, first), true, RESET_POLL_DELAY_US),
                !entered ==> self.events@ == start + delayed_reads(reg32_reads(ctl, first), RESET_POLL_DELAY_US),
                entered ==> i >= 1 && bit_set(regs::sdctl::SRST)(first.last()),
                forall|k: int|
                    0 <= k < first.len() && !(entered && k == first.len() - 1) ==> !bit_set(regs::sdctl::SRST)(
                        #[trigger] first[k],
                    ),
            decreases RESET_POLL_ITERATIONS - i,
        {
            let ghost before = self.events@;
            let v = self.read32(ctl);
            proof {
                let rs = reg32_reads(ctl, first);
                assert(reg32_reads(ctl, first.push(v)) =~= rs.push(Read::Reg32(ctl, v)));
                assert(rs.push(Read::Reg32(ctl, v)).drop_last() =~= rs);
                lemma_delayed_reads_push(rs, Read::Reg32(ctl, v), RESET_POLL_DELAY_US);
                first = first.push(v);
            }
            if srst_set(v) {
                entered = true;
                proof {
                    assert(self.events@ =~= start + poll_events(reg32_reads(ctl, first), true, RESET_POLL_DELAY_US));
                }
            } else {
                self.delay(RESET_POLL_DELAY_US);
                proof {
                    assert(self.writes@ =~= s0.writes@ + seq![Write::Reg32(ctl, regs::sdctl::SRST)]);
                    assert(self.events@ =~= start + delayed_reads(reg32_reads(ctl, first), RESET_POLL_DELAY_US));
                }
            }
            i += 1;
        }
        self.write32(ctl, 0);
        let ghost mid = start + poll_events(reg32_reads(ctl, first), entered, RESET_POLL_DELAY_US) + seq![
            Event::Write(Write::Reg32(ctl, 0)),
        ];
        proof {
            assert(self.writes@ =~= s0.writes@ + stream_reset_writes(base));
            assert(poll_stops(first, bit_set(regs::sdctl::SRST), RESET_POLL_ITERATIONS as nat, entered));
            assert(self.events@ =~= mid);
        }
        let ghost mut second: Seq<u32> = Seq::empty();
        if !entered {
            proof {
                assert(reg32_reads(ctl, second) =~= Seq::<Read>::empty());
                assert(self.reads@ =~= s0.reads@ + reg32_reads(ctl, first) + reg32_reads(ctl, second));
                let res: Result<(), Error> = Err(Error::StreamResetTimeout);
                assert(reset_polls(first, second, bit_set(regs::sdctl::SRST), bit_clear(regs::sdctl::SRST), entered, res is Ok));
                assert(self.events@ =~= s0.events@ + stream_reset_events(ctl, first, second, entered, res is Ok));
            }
            return Err(Error::StreamResetTimeout);
        }
        proof {
            assert(reg32_reads(ctl, second) =~= Seq::<Read>::empty());
            assert(self.reads@ =~= s0.reads@ + reg32_reads(ctl, first) + reg32_reads(ctl, second));
            assert(self.events@ =~= mid + delayed_reads(reg32_reads(ctl, second), RESET_POLL_DELAY_US));
        }
        let mut j: u32 = 0;
        let mut left = false;
        while j < RESET_POLL_ITERATIONS && !left
            invariant
                j <= RESET_POLL_ITERATIONS,
                second.len() == j,
                s0 == *old(self),
                self.regs_only_since(&s0, stream_reset_writes(base)),
                self.reads@ == s0.reads@ + reg32_reads(ctl, first) + reg32_reads(ctl, second),
                poll_stops(first, bit_set(regs::sdctl::SRST), RESET_POLL_ITERATIONS as nat, true),
                mid == start + poll_events(reg32_reads(ctl, first), true, RESET_POLL_DELAY_US) + seq![
                    Event::Write(Write::Reg32(ctl, 0)),
                ],
                start == s0.events@ + seq![Event::Write(Write::Reg32(ctl, regs::sdctl::SRST))],
                left ==> self.events@ == mid + poll_events(reg32_reads(ctl, second), true, RESET_POLL_DELAY_US),
                !left ==> self.events@ == mid + delayed_reads(reg32_reads(ctl, second), RESET_POLL_DELAY_US),
                left ==> j >= 1 && bit_clear(regs::sdctl::SRST)(second.last()),
                forall|k: int|
                    0 <= k < second.len() && !(left && k == second.len() - 1) ==> !bit_clear(regs::sdctl::SRST)(
                        #[trigger] second[k],
                    ),
            decreases RESET_POLL_ITERATIONS - j,
        {
            let v = self.read32(ctl);
            proof {
                let rs = reg32_reads(ctl, second);
                assert(reg32_reads(ctl, second.push(v)) =~= rs.push(Read::Reg32(ctl, v)));
                assert(rs.push(Read::Reg32(ctl, v)).drop_last() =~= rs);
                lemma_delayed_reads_push(rs, Read::Reg32(ctl, v), RESET_POLL_DELAY_US);
                second = second.push(v);
            }
            if !srst_set(v) {
                left = true;
                proof {
                    assert(self.events@ =~= mid + poll_events(reg32_reads(ctl, second), true, RESET_POLL_DELAY_US));
                }
            } else {
                self.delay(RESET_POLL_DELAY_US);
                proof {
                    assert(self.writes@ =~= s0.writes@ + stream_reset_writes(base));
                    assert(self.events@ =~= mid + delayed_reads(reg32_reads(ctl, second), RESET_POLL_DELAY_US));
                }
            }
            j += 1;
        }
        let r = if left { Ok(()) } else { Err(Error::StreamResetTimeout) };
        proof {
            assert(reset_polls(first, second, bit_set(regs::sdctl::SRST), bit_clear(regs::sdctl::SRST), true, r is Ok));
            assert(self.events@ =~= s0.events@ + stream_reset_events(ctl, first, second, true, r is Ok));
        }
        r
    }

    /// A controller that has done nothing since itself.
    pub proof fn lemma_verbs_only_refl(&self)
        ensures
            self.verbs_only_since(self),
    {
        lemma_advance(self.corb_wp, 0, 0);
        lemma_advance(self.rirb_rp, 0, 0);
        assert(self.exchanges_since(self) =~= Seq::<Exchange>::empty());
        assert(self.exchanges().take(self.exchanges().len() as int) =~= self.exchanges());
        assert(self.writes() + Seq::<Write>::empty() =~= self.writes());
        assert(self.reads().take(self.reads().len() as int) =~= self.reads());
        assert(self.events().take(self.events().len() as int) =~= self.events());
    }

    /// Verb-only stretches compose.
    pub proof fn lemma_verbs_only_trans(a: &Self, b: &Self, c: &Self)
        requires
            b.verbs_only_since(a),
            c.verbs_only_since(b),
        ensures
            c.verbs_only_since(a),
            c.exchanges_since(a) == b.exchanges_since(a) + c.exchanges_since(b),
    {
        let es1 = b.exchanges_since(a);
        let es2 = c.exchanges_since(b);
        assert(b.exchanges() =~= a.exchanges() + es1);
        assert(c.exchanges() =~= b.exchanges() + es2);
        assert(c.exchanges_since(a) =~= es1 + es2);
        assert(c.exchanges().take(a.exchanges().len() as int) =~= a.exchanges());
        lemma_exchange_writes_append(a.rings.corb.phys_addr, a.corb_wp, es1, es2);
        lemma_advance(a.corb_wp, es1.len(), es2.len());
        lemma_advance(a.rirb_rp, answered(es1), answered(es2));
        assert(c.writes() =~= a.writes() + exchange_writes(a.rings.corb.phys_addr, a.corb_wp, es1 + es2));
        assert(c.reads().take(b.reads().len() as int).take(a.reads().len() as int) =~= c.reads().take(
            a.reads().len() as int,
        ));
        assert(c.events().take(b.events().len() as int).take(a.events().len() as int) =~= c.events().take(
            a.events().len() as int,
        ));
    }

    /// Allocates a DMA-capable buffer through this controller's platform --
    /// for sample data and buffer descriptor lists a caller builds itself.
    pub fn alloc_dma(&mut self, len: usize, align: usize) -> (r: DmaBuffer)
        ensures
            r.len >= len,
            r.phys_addr + r.len <= u64::MAX + 1,
            align > 0 ==> r.phys_addr % (align as u64) == 0,
            final(self).reads() == old(self).reads(),
            final(self).regs_only_since(old(self), Seq::empty()),
            final(self).events() == old(self).events().push(Event::Alloc(len, align)),
    {
        let r = self.platform.alloc_dma(len, align);
        proof {
            self.events@ = self.events@.push(Event::Alloc(len, align));
            assert(self.writes@ =~= old(self).writes@ + Seq::<Write>::empty());
        }
        r
    }

    /// Writes the 32-bit word `value` at byte `offset` of the DMA buffer
    /// `buf` -- for the sample data and buffer descriptor lists a caller
    /// fills itself.
    pub fn write_dma32(&mut self, buf: &DmaBuffer, offset: usize, value: u32)
        requires
            offset + 4 <= buf.len,
        ensures
            final(self).regs_only_since(old(self), seq![Write::Dma32(buf.phys_addr, offset, value)]),
            final(self).reads() == old(self).reads(),
            final(self).events() == old(self).events().push(Event::Write(Write::Dma32(buf.phys_addr, offset, value))),
    {
        self.platform.dma_write32(buf, offset, value);
        proof {
            self.writes@ = self.writes@ + seq![Write::Dma32(buf.phys_addr, offset, value)];
            assert(self.base@ + self.writes@ =~= (old(self).base@ + old(self).writes@).push(
                Write::Dma32(buf.phys_addr, offset, value),
            ));
            self.events@ = self.events@.push(Event::Write(Write::Dma32(buf.phys_addr, offset, value)));
        }
    }

    /// A 16-bit read of register `offset` of this controller may give
    /// `value`.
    pub closed spec fn reads16(&self, offset: u32, value: u16) -> bool {
        self.platform.reads16(offset, value)
    }

    /// Bitmap from STATESTS: bit `n` set means a codec responded on SDIN
    /// `n` during link bring-up.
    pub fn codec_presence(&self) -> (r: u16)
        ensures
            r < 0x8000,
            exists|raw: u16| #[trigger] self.reads16(regs::STATESTS, raw) && r == raw & 0x7FFF,
    {
        let raw = self.platform.mmio_read16(regs::STATESTS);
        proof {
            assert(raw & 0x7FFF < 0x8000) by (bit_vector);
            assert(self.reads16(regs::STATESTS, raw));
        }
        raw & 0x7FFF
    }

    fn init_corb(&mut self)
        ensures
            old(self).faithful() ==> final(self).faithful(),
            final(self).base() == old(self).base(),
            final(self).reads() == old(self).reads(),
            final(self).writes() == old(self).writes() + corb_init_writes(old(self).corb().phys_addr),
            final(self).events() == old(self).events() + write_events(corb_init_writes(old(self).corb().phys_addr)),
            final(self).exchanges() == old(self).exchanges(),
            final(self).gcap() == old(self).gcap(),
            final(self).corb() == old(self).corb(),
            final(self).rirb() == old(self).rirb(),
            final(self).rirb_rp() == old(self).rirb_rp(),
            final(self).corb_wp() == 0,
    {
        let ghost w0 = *self;
        let phys = self.rings.corb.phys_addr;
        self.write8(regs::CORBCTL, 0);
        let ghost w1 = *self;
        self.write32(regs::CORBLBASE, phys as u32);
        let ghost w2 = *self;
        self.write32(regs::CORBUBASE, (phys >> 32) as u32);
        let ghost w3 = *self;
        self.write8(regs::CORBSIZE, 0b10);
        let ghost w4 = *self;
        self.write16(regs::CORBRP, regs::corbrp::RESET);
        let ghost w5 = *self;
        self.write16(regs::CORBRP, 0);
        let ghost w6 = *self;
        self.write16(regs::CORBWP, 0);
        let ghost w7 = *self;
        self.write8(regs::CORBCTL, regs::corbctl::CORBRUN);
        self.corb_wp = 0;
        proof {
            assert(self.writes@ =~= w0.writes@ + corb_init_writes(phys));
            assert(self.events@ =~= w0.events@ + write_events(corb_init_writes(phys)));
        }
    }

    fn init_rirb(&mut self)
        ensures
            old(self).faithful() ==> final(self).faithful(),
            final(self).base() == old(self).base(),
            final(self).reads() == old(self).reads(),
            final(self).writes() == old(self).writes() + rirb_init_writes(old(self).rirb().phys_addr),
            final(self).events() == old(self).events() + write_events(rirb_init_writes(old(self).rirb().phys_addr)),
            final(self).exchanges() == old(self).exchanges(),
            final(self).gcap() == old(self).gcap(),
            final(self).corb() == old(self).corb(),
            final(self).rirb() == old(self).rirb(),
            final(self).corb_wp() == old(self).corb_wp(),
            final(self).rirb_rp() == 0,
    {
        let ghost w0 = *self;
        let phys = self.rings.rirb.phys_addr;
        self.write8(regs::RIRBCTL, 0);
        self.write32(regs::RIRBLBASE, phys as u32);
        self.write32(regs::RIRBUBASE, (phys >> 32) as u32);
        self.write8(regs::RIRBSIZE, 0b10);
        self.write16(regs::RIRBWP, regs::rirbwp::RESET);
        // A response-interrupt count of 0 would (per spec) mean "256", but
        // some controller emulations treat it as a literal 0 and never fetch
        // a CORB command until a nonzero count is programmed. Responses are
        // polled, so any nonzero count works; `send_verb` clears RIRBSTS
        // after every response so the count never gates command processing.
        self.write16(regs::RINTCNT, 1);
        // The response interrupt isn't routed anywhere, but some emulated
        // controllers only reset RIRBSTS.RINTFL's counter on a 1-to-0
        // transition of that bit, which requires it to have been set.
        self.write8(regs::RIRBCTL, regs::rirbctl::RIRBDMAEN | regs::rirbctl::RINTCTL);
        self.rirb_rp = 0;
        proof {
            assert(self.writes@ =~= w0.writes@ + rirb_init_writes(phys));
            assert(self.events@ =~= w0.events@ + write_events(rirb_init_writes(phys)));
        }
    }

    /// Sends one verb to `nid` on the codec at `codec_addr` and returns its
    /// 32-bit response. `payload` is a pre-built 20-bit field from
    /// [`crate::hda::verbs::Verb8::payload`] or
    /// [`crate::hda::verbs::Verb16::payload`].
    ///
    /// Assumes GCTL.UNSOL is left at its reset value of 0 (unsolicited
    /// responses dropped by the controller), which this driver never
    /// changes -- so every RIRB entry is a solicited response to exactly the
    /// command most recently sent, in order.
    pub fn send_verb(&mut self, codec_addr: u8, nid: u8, payload: u32) -> (r: Result<u32, Error>)
        ensures
            final(self).verbs_only_since(old(self)),
            final(self).exchanges_since(old(self)).len() == 1,
            is_verb(final(self).exchanges_since(old(self))[0], codec_addr, nid, payload),
            r == exchange_result(final(self).exchanges_since(old(self))[0]),
            exists|polls: Seq<u16>|
                {
                    &&& #[trigger] poll_stops(
                        polls,
                        rirb_moved(old(self).rirb_rp()),
                        COMMAND_POLL_ITERATIONS as nat,
                        r is Ok,
                    )
                    &&& final(self).reads() == old(self).reads() + reg16_reads(regs::RIRBWP, polls) + match r {
                        Ok(v) => seq![Read::Dma32(old(self).rirb().phys_addr, (next_slot(old(self).rirb_rp()) * 8) as usize, v)],
                        Err(_) => Seq::empty(),
                    }
                    &&& final(self).events() == old(self).events() + seq![
                        Event::Write(
                            Write::Dma32(
                                old(self).corb().phys_addr,
                                (next_slot(old(self).corb_wp()) * 4) as usize,
                                verbs::spec_command(codec_addr, nid, payload),
                            ),
                        ),
                        Event::Write(Write::Reg16(regs::CORBWP, next_slot(old(self).corb_wp()) as u16)),
                    ] + poll_events(reg16_reads(regs::RIRBWP, polls), r is Ok, COMMAND_POLL_DELAY_US) + match r {
                        Ok(v) => seq![
                            Event::Read(
                                Read::Dma32(old(self).rirb().phys_addr, (next_slot(old(self).rirb_rp()) * 8) as usize, v),
                            ),
                            Event::Write(Write::Reg8(regs::RIRBSTS, regs::rirbsts::RINTFL)),
                        ],
                        Err(_) => Seq::empty(),
                    }
                },
    {
        let ghost start = *self;
        let cmd = verbs::command(codec_addr, nid, payload);
        let next_wp: u8 = if self.corb_wp == 255 {
            0
        } else {
            self.corb_wp + 1
        };
        let offset = next_wp as usize * 4;
        proof {
            use_type_invariant(&self.rings);
        }
        self.platform.dma_write32(&self.rings.corb, offset, cmd);
        proof {
            self.writes@ = self.writes@ + seq![Write::Dma32(self.rings.corb.phys_addr, offset, cmd)];
            assert(self.base@ + self.writes@ =~= (start.base@ + start.writes@).push(
                Write::Dma32(self.rings.corb.phys_addr, offset, cmd),
            ));
            self.events@ = self.events@.push(Event::Write(Write::Dma32(self.rings.corb.phys_addr, offset, cmd)));
        }
        self.corb_wp = next_wp;
        self.write16(regs::CORBWP, next_wp as u16);
        let ghost sent = *self;
        proof {
            assert(start.faithful() ==> sent.faithful());
        }
        let ghost sent_events = seq![
            Event::Write(Write::Dma32(start.rings.corb.phys_addr, offset, cmd)),
            Event::Write(Write::Reg16(regs::CORBWP, next_wp as u16)),
        ];
        assert(sent.events@ =~= start.events@ + sent_events);
        let ghost sent_writes = seq![
            Write::Dma32(start.rings.corb.phys_addr, offset, cmd),
            Write::Reg16(regs::CORBWP, next_wp as u16),
        ];
        assert(sent.writes@ =~= start.writes@ + sent_writes);
        let mut i: u32 = 0;
        let ghost mut polls: Seq<u16> = Seq::empty();
        proof {
            assert(reg16_reads(regs::RIRBWP, polls) =~= Seq::<Read>::empty());
            assert(sent.reads@ =~= start.reads@ + reg16_reads(regs::RIRBWP, polls));
            assert(sent.events@ =~= start.events@ + sent_events + delayed_reads(reg16_reads(regs::RIRBWP, polls), COMMAND_POLL_DELAY_US));
        }
        while i < COMMAND_POLL_ITERATIONS
            invariant
                self.gcap == sent.gcap,
                self.rings == sent.rings,
                self.corb_wp == sent.corb_wp,
                self.rirb_rp == sent.rirb_rp,
                self.writes == sent.writes,
                self.exchanges == sent.exchanges,
                self.base == sent.base,
                sent.base == start.base,
                start.faithful() ==> sent.faithful(),
                sent.faithful() ==> self.faithful(),
                self.reads@ == start.reads@ + reg16_reads(regs::RIRBWP, polls),
                self.events@ == start.events@ + sent_events + delayed_reads(
                    reg16_reads(regs::RIRBWP, polls),
                    COMMAND_POLL_DELAY_US,
                ),
                sent_events == seq![
                    Event::Write(Write::Dma32(start.rings.corb.phys_addr, offset, cmd)),
                    Event::Write(Write::Reg16(regs::CORBWP, next_wp as u16)),
                ],
                polls.len() == i,
                i <= COMMAND_POLL_ITERATIONS,
                forall|j: int| 0 <= j < polls.len() ==> !rirb_moved(start.rirb_rp)(#[trigger] polls[j]),
                start == *old(self),
                sent.gcap == start.gcap,
                sent.rings == start.rings,
                sent.rirb_rp == start.rirb_rp,
                sent.exchanges@ == start.exchanges@,
                sent.corb_wp == next_wp,
                next_wp == next_slot(start.corb_wp),
                offset == (next_wp * 4) as usize,
                cmd == verbs::spec_command(codec_addr, nid, payload),
                sent.writes@ == start.writes@ + sent_writes,
                sent_writes == seq![
                    Write::Dma32(start.rings.corb.phys_addr, offset, cmd),
                    Write::Reg16(regs::CORBWP, next_wp as u16),
                ],
            decreases COMMAND_POLL_ITERATIONS - i,
        {
            let wp = self.read16(regs::RIRBWP);
            let ghost polled = polls.push(wp);
            proof {
                assert(reg16_reads(regs::RIRBWP, polled) =~= reg16_reads(regs::RIRBWP, polls).push(
                    Read::Reg16(regs::RIRBWP, wp),
                ));
            }
            if let Some(next_rp) = rirb_step(wp, self.rirb_rp) {
                let response = self.read_rirb(next_rp);
                self.rirb_rp = next_rp;
                // Write-1-to-clear: the standard status-bit clear on real
                // hardware, and also what resets the emulated "responses
                // since last service" counter that RINTCNT gates against.
                self.write8(regs::RIRBSTS, regs::rirbsts::RINTFL);
                let ghost e = Exchange { codec_addr, nid, payload, response: Some(response) };
                proof {
                    self.exchanges@ = self.exchanges@.push(e);
                    assert(self.writes@ == sent.writes@ + seq![Write::Reg8(regs::RIRBSTS, regs::rirbsts::RINTFL)]);
                    assert(verb_writes(start.rings.corb.phys_addr, next_wp, e) =~= sent_writes + seq![Write::Reg8(regs::RIRBSTS, regs::rirbsts::RINTFL)]);
                    assert(self.writes@ =~= start.writes@ + verb_writes(start.rings.corb.phys_addr, next_wp, e));
                    assert(self.reads@.take(start.reads@.len() as int) =~= start.reads@);
                    assert(self.events@.take(start.events@.len() as int) =~= start.events@);
                    self.finish_exchange(&start, e);
                    let ghost res: Result<u32, Error> = Ok(response);
                    assert(poll_stops(polled, rirb_moved(start.rirb_rp), COMMAND_POLL_ITERATIONS as nat, res is Ok));
                    assert(self.reads@ =~= start.reads@ + reg16_reads(regs::RIRBWP, polled) + seq![
                        Read::Dma32(start.rings.rirb.phys_addr, (next_slot(start.rirb_rp) * 8) as usize, response),
                    ]);
                    let rs = reg16_reads(regs::RIRBWP, polled);
                    assert(rs.drop_last() =~= reg16_reads(regs::RIRBWP, polls));
                    assert(rs.last() == Read::Reg16(regs::RIRBWP, wp));
                    assert(self.events@ =~= start.events@ + sent_events + poll_events(rs, res is Ok, COMMAND_POLL_DELAY_US)
                        + seq![
                        Event::Read(Read::Dma32(start.rings.rirb.phys_addr, (next_slot(start.rirb_rp) * 8) as usize, response)),
                        Event::Write(Write::Reg8(regs::RIRBSTS, regs::rirbsts::RINTFL)),
                    ]);
                }
                return Ok(response);
            }
            self.delay(COMMAND_POLL_DELAY_US);
            proof {
                lemma_delayed_reads_push(reg16_reads(regs::RIRBWP, polls), Read::Reg16(regs::RIRBWP, wp), COMMAND_POLL_DELAY_US);
                polls = polled;
                assert(self.events@ =~= start.events@ + sent_events + delayed_reads(
                    reg16_reads(regs::RIRBWP, polls),
                    COMMAND_POLL_DELAY_US,
                ));
            }
            i += 1;
        }
        let ghost e = Exchange { codec_addr, nid, payload, response: None };
        proof {
            self.exchanges@ = self.exchanges@.push(e);
            assert(self.writes@ =~= start.writes@ + verb_writes(start.rings.corb.phys_addr, next_wp, e));
            assert(self.reads@.take(start.reads@.len() as int) =~= start.reads@);
            assert(self.events@.take(start.events@.len() as int) =~= start.events@);
            self.finish_exchange(&start, e);
            let ghost res: Result<u32, Error> = Err(Error::CommandTimeout);
            assert(poll_stops(polls, rirb_moved(start.rirb_rp), COMMAND_POLL_ITERATIONS as nat, res is Ok));
            assert(self.reads@ =~= start.reads@ + reg16_reads(regs::RIRBWP, polls) + Seq::<Read>::empty());
            assert(self.events@ =~= start.events@ + sent_events + poll_events(
                reg16_reads(regs::RIRBWP, polls),
                res is Ok,
                COMMAND_POLL_DELAY_US,
            ) + Seq::<Event>::empty());
        }
        Err(Error::CommandTimeout)
    }

    proof fn finish_exchange(&self, start: &Self, e: Exchange)
        requires
            self.gcap == start.gcap,
            self.rings == start.rings,
            self.exchanges@ == start.exchanges@.push(e),
            self.corb_wp == next_slot(start.corb_wp),
            self.writes@ == start.writes@ + verb_writes(start.rings.corb.phys_addr, next_slot(start.corb_wp), e),
            e.response is Some ==> self.rirb_rp == next_slot(start.rirb_rp),
            e.response is None ==> self.rirb_rp == start.rirb_rp,
            start.reads@.len() <= self.reads@.len(),
            self.reads@.take(start.reads@.len() as int) == start.reads@,
            start.events@.len() <= self.events@.len(),
            self.events@.take(start.events@.len() as int) == start.events@,
            start.faithful() ==> self.faithful(),
            self.base == start.base,
        ensures
            self.verbs_only_since(start),
            self.exchanges_since(start) == seq![e],
    {
        assert(self.exchanges_since(start) =~= seq![e]);
        assert(self.exchanges().take(start.exchanges().len() as int) =~= start.exchanges());
        lemma_exchange_writes_single(start.rings.corb.phys_addr, start.corb_wp, e);
        lemma_advance(start.corb_wp, 0, 0);
        lemma_advance(start.rirb_rp, 0, 0);
    }

    fn write8(&mut self, offset: u32, value: u8)
        ensures
            final(self).regs_only_since(old(self), seq![Write::Reg8(offset, value)]),
            final(self).reads() == old(self).reads(),
            final(self).events() == old(self).events().push(Event::Write(Write::Reg8(offset, value))),
    {
        self.platform.mmio_write8(offset, value);
        proof {
            self.writes@ = self.writes@ + seq![Write::Reg8(offset, value)];
            assert(self.base@ + self.writes@ =~= (old(self).base@ + old(self).writes@).push(Write::Reg8(offset, value)));
            self.events@ = self.events@.push(Event::Write(Write::Reg8(offset, value)));
        }
    }

    fn write16(&mut self, offset: u32, value: u16)
        ensures
            final(self).regs_only_since(old(self), seq![Write::Reg16(offset, value)]),
            final(self).reads() == old(self).reads(),
            final(self).events() == old(self).events().push(Event::Write(Write::Reg16(offset, value))),
    {
        self.platform.mmio_write16(offset, value);
        proof {
            self.writes@ = self.writes@ + seq![Write::Reg16(offset, value)];
            assert(self.base@ + self.writes@ =~= (old(self).base@ + old(self).writes@).push(Write::Reg16(offset, value)));
            self.events@ = self.events@.push(Event::Write(Write::Reg16(offset, value)));
        }
    }

    /// Waits `micros` microseconds.
    fn delay(&mut self, micros: u32)
        ensures
            final(self).regs_only_since(old(self), Seq::empty()),
            final(self).reads() == old(self).reads(),
            final(self).events() == old(self).events().push(Event::Delay(micros)),
    {
        self.platform.delay_us(micros);
        proof {
            self.events@ = self.events@.push(Event::Delay(micros));
            assert(self.writes@ =~= old(self).writes@ + Seq::<Write>::empty());
        }
    }

    fn read16(&mut self, offset: u32) -> (r: u16)
        ensures
            final(self).regs_only_since(old(self), Seq::empty()),
            final(self).reads() == old(self).reads().push(Read::Reg16(offset, r)),
            final(self).events() == old(self).events().push(Event::Read(Read::Reg16(offset, r))),
    {
        let r = self.platform.mmio_read16(offset);
        proof {
            self.reads@ = self.reads@.push(Read::Reg16(offset, r));
            self.events@ = self.events@.push(Event::Read(Read::Reg16(offset, r)));
            assert(self.writes@ =~= old(self).writes@ + Seq::<Write>::empty());
        }
        r
    }

    fn read32(&mut self, offset: u32) -> (r: u32)
        ensures
            final(self).regs_only_since(old(self), Seq::empty()),
            final(self).reads() == old(self).reads().push(Read::Reg32(offset, r)),
            final(self).events() == old(self).events().push(Event::Read(Read::Reg32(offset, r))),
    {
        let r = self.platform.mmio_read32(offset);
        proof {
            self.reads@ = self.reads@.push(Read::Reg32(offset, r));
            self.events@ = self.events@.push(Event::Read(Read::Reg32(offset, r)));
            assert(self.writes@ =~= old(self).writes@ + Seq::<Write>::empty());
        }
        r
    }

    /// Reads the response in RIRB slot `slot`.
    fn read_rirb(&mut self, slot: u8) -> (r: u32)
        ensures
            final(self).regs_only_since(old(self), Seq::empty()),
            final(self).reads() == old(self).reads().push(
                Read::Dma32(old(self).rirb().phys_addr, (slot * 8) as usize, r),
            ),
            final(self).events() == old(self).events().push(
                Event::Read(Read::Dma32(old(self).rirb().phys_addr, (slot * 8) as usize, r)),
            ),
    {
        proof {
            use_type_invariant(&self.rings);
        }
        let r = self.platform.dma_read32(&self.rings.rirb, slot as usize * 8);
        proof {
            self.reads@ = self.reads@.push(Read::Dma32(self.rings.rirb.phys_addr, (slot * 8) as usize, r));
            self.events@ = self.events@.push(Event::Read(Read::Dma32(self.rings.rirb.phys_addr, (slot * 8) as usize, r)));
            assert(self.writes@ =~= old(self).writes@ + Seq::<Write>::empty());
        }
        r
    }

    fn write32(&mut self, offset: u32, value: u32)
        ensures
            final(self).regs_only_since(old(self), seq![Write::Reg32(offset, value)]),
            final(self).reads() == old(self).reads(),
            final(self).events() == old(self).events().push(Event::Write(Write::Reg32(offset, value))),
    {
        self.platform.mmio_write32(offset, value);
        proof {
            self.writes@ = self.writes@ + seq![Write::Reg32(offset, value)];
            assert(self.base@ + self.writes@ =~= (old(self).base@ + old(self).writes@).push(Write::Reg32(offset, value)));
            self.events@ = self.events@.push(Event::Write(Write::Reg32(offset, value)));
        }
    }
}

/// The events of a link reset whose first poll (for CRST clear) read
/// `first` and whose second poll (for CRST set) read `second`: GCTL
/// cleared, the first poll, CRST set, and -- once the link entered reset --
/// the second poll and, when the link came out of reset, the wait for the
/// codecs.
pub open spec fn reset_events(first: Seq<u32>, second: Seq<u32>, entered: bool, ok: bool) -> Seq<Event> {
    seq![Event::Write(Write::Reg32(regs::GCTL, 0))] + poll_events(
        reg32_reads(regs::GCTL, first),
        entered,
        RESET_POLL_DELAY_US,
    ) + seq![Event::Write(Write::Reg32(regs::GCTL, regs::gctl::CRST))] + if entered {
        poll_events(reg32_reads(regs::GCTL, second), ok, RESET_POLL_DELAY_US) + if ok {
            seq![Event::Delay(CODEC_WAKE_DELAY_US)]
        } else {
            Seq::empty()
        }
    } else {
        Seq::empty()
    }
}

/// The events of a reset of the stream whose control register is at
/// `ctl`, whose first poll (for SRST set) read `first` and whose second
/// poll (for SRST clear) read `second`: SRST set, the first poll, SRST
/// cleared, and -- once the stream entered reset -- the second poll.
pub open spec fn stream_reset_events(ctl: u32, first: Seq<u32>, second: Seq<u32>, entered: bool, ok: bool) -> Seq<
    Event,
> {
    seq![Event::Write(Write::Reg32(ctl, regs::sdctl::SRST))] + poll_events(
        reg32_reads(ctl, first),
        entered,
        RESET_POLL_DELAY_US,
    ) + seq![Event::Write(Write::Reg32(ctl, 0))] + if entered {
        poll_events(reg32_reads(ctl, second), ok, RESET_POLL_DELAY_US)
    } else {
        Seq::empty()
    }
}

/// Microseconds codecs are given after the link leaves reset to request
/// their addresses (up to 25 frames, about 521 us).
pub const CODEC_WAKE_DELAY_US: u32 = 600;

/// Puts the controller through a link reset: clears GCTL.CRST and waits for
/// it to read back clear, then sets it and, if the link did enter reset,
/// waits for it to read back set, giving codecs time to request their
/// addresses. A link that never enters or never leaves reset in time gives
/// `ControllerResetTimeout`; CRST is set again either way. Returns the
/// writes it issued, the GCTL values it read, and everything it did in
/// order, alongside the outcome.
fn reset_controller<P: Platform>(platform: &mut P) -> (r: (
    Result<(), Error>,
    Ghost<Seq<Write>>,
    Ghost<Seq<Read>>,
    Ghost<Seq<Event>>,
))
    ensures
        r.1@ == reset_writes(),
        final(platform).written() == old(platform).written() + reset_writes(),
        final(platform).allocated() == old(platform).allocated(),
        r.0 is Ok || r.0 == Err::<(), Error>(Error::ControllerResetTimeout),
        exists|first: Seq<u32>, second: Seq<u32>, entered: bool, mid: P|
            #![trigger reset_polls(first, second, bit_clear(regs::gctl::CRST), bit_set(regs::gctl::CRST), entered, r.0 is Ok), mid.written()]
            {
                &&& reset_polls(
                    first,
                    second,
                    bit_clear(regs::gctl::CRST),
                    bit_set(regs::gctl::CRST),
                    entered,
                    r.0 is Ok,
                )
                &&& r.2@ == reg32_reads(regs::GCTL, first) + reg32_reads(regs::GCTL, second)
                &&& r.3@ == reset_events(first, second, entered, r.0 is Ok)
                &&& mid.written() == old(platform).written().push(Write::Reg32(regs::GCTL, 0))
                &&& forall|k: int| 0 <= k < first.len() ==> mid.reads32(regs::GCTL, #[trigger] first[k])
                &&& forall|k: int| 0 <= k < second.len() ==> final(platform).reads32(regs::GCTL, #[trigger] second[k])
            },
{
    let ghost p0 = *platform;
    platform.mmio_write32(regs::GCTL, 0);
    let ghost p1 = *platform;
    let ghost start = seq![Event::Write(Write::Reg32(regs::GCTL, 0))];
    let mut i: u32 = 0;
    let mut entered = false;
    let ghost mut first: Seq<u32> = Seq::empty();
    let ghost mut evs: Seq<Event> = start;
    proof {
        assert(evs =~= start + delayed_reads(reg32_reads(regs::GCTL, first), RESET_POLL_DELAY_US));
    }
    while i < RESET_POLL_ITERATIONS && !entered
        invariant
            i <= RESET_POLL_ITERATIONS,
            first.len() == i,
            *platform == p1,
            forall|k: int| 0 <= k < first.len() ==> p1.reads32(regs::GCTL, #[trigger] first[k]),
            start == seq![Event::Write(Write::Reg32(regs::GCTL, 0))],
            entered ==> i >= 1 && bit_clear(regs::gctl::CRST)(first.last()),
            entered ==> evs == start + poll_events(reg32_reads(regs::GCTL, first), true, RESET_POLL_DELAY_US),
            !entered ==> evs == start + delayed_reads(reg32_reads(regs::GCTL, first), RESET_POLL_DELAY_US),
            forall|k: int|
                0 <= k < first.len() && !(entered && k == first.len() - 1) ==> !bit_clear(regs::gctl::CRST)(
                    #[trigger] first[k],
                ),
        decreases RESET_POLL_ITERATIONS - i,
    {
        let v = platform.mmio_read32(regs::GCTL);
        proof {
            let rs = reg32_reads(regs::GCTL, first);
            assert(reg32_reads(regs::GCTL, first.push(v)) =~= rs.push(Read::Reg32(regs::GCTL, v)));
            assert(rs.push(Read::Reg32(regs::GCTL, v)).drop_last() =~= rs);
            lemma_delayed_reads_push(rs, Read::Reg32(regs::GCTL, v), RESET_POLL_DELAY_US);
            first = first.push(v);
        }
        if !crst_set(v) {
            entered = true;
            proof {
                evs = evs.push(Event::Read(Read::Reg32(regs::GCTL, v)));
                assert(evs =~= start + poll_events(reg32_reads(regs::GCTL, first), true, RESET_POLL_DELAY_US));
            }
        } else {
            platform.delay_us(RESET_POLL_DELAY_US);
            proof {
                evs = evs + seq![Event::Read(Read::Reg32(regs::GCTL, v)), Event::Delay(RESET_POLL_DELAY_US)];
                assert(evs =~= start + delayed_reads(reg32_reads(regs::GCTL, first), RESET_POLL_DELAY_US));
            }
        }
        i += 1;
    }
    platform.mmio_write32(regs::GCTL, regs::gctl::CRST);
    let ghost p2 = *platform;
    proof {
        assert(p2.written() =~= p0.written() + reset_writes());
    }
    let ghost mut second: Seq<u32> = Seq::empty();
    proof {
        assert(poll_stops(first, bit_clear(regs::gctl::CRST), RESET_POLL_ITERATIONS as nat, entered));
        assert(evs == start + poll_events(reg32_reads(regs::GCTL, first), entered, RESET_POLL_DELAY_US));
        evs = evs.push(Event::Write(Write::Reg32(regs::GCTL, regs::gctl::CRST)));
    }
    let ghost mid = evs;
    if !entered {
        proof {
            assert(reg32_reads(regs::GCTL, second) =~= Seq::<Read>::empty());
            let res: Result<(), Error> = Err(Error::ControllerResetTimeout);
            assert(reset_polls(first, second, bit_clear(regs::gctl::CRST), bit_set(regs::gctl::CRST), entered, res is Ok));
            assert(evs =~= reset_events(first, second, entered, res is Ok));
        }
        return (
            Err(Error::ControllerResetTimeout),
            Ghost(reset_writes()),
            Ghost(reg32_reads(regs::GCTL, first) + reg32_reads(regs::GCTL, second)),
            Ghost(evs),
        );
    }
    proof {
        assert(evs =~= mid + delayed_reads(reg32_reads(regs::GCTL, second), RESET_POLL_DELAY_US));
    }
    let mut j: u32 = 0;
    let mut left = false;
    while j < RESET_POLL_ITERATIONS && !left
        invariant
            j <= RESET_POLL_ITERATIONS,
            second.len() == j,
            *platform == p2,
            forall|k: int| 0 <= k < second.len() ==> p2.reads32(regs::GCTL, #[trigger] second[k]),
            left ==> j >= 1 && bit_set(regs::gctl::CRST)(second.last()),
            left ==> evs == mid + poll_events(reg32_reads(regs::GCTL, second), true, RESET_POLL_DELAY_US),
            !left ==> evs == mid + delayed_reads(reg32_reads(regs::GCTL, second), RESET_POLL_DELAY_US),
            forall|k: int|
                0 <= k < second.len() && !(left && k == second.len() - 1) ==> !bit_set(regs::gctl::CRST)(
                    #[trigger] second[k],
                ),
        decreases RESET_POLL_ITERATIONS - j,
    {
        let v = platform.mmio_read32(regs::GCTL);
        proof {
            let rs = reg32_reads(regs::GCTL, second);
            assert(reg32_reads(regs::GCTL, second.push(v)) =~= rs.push(Read::Reg32(regs::GCTL, v)));
            assert(rs.push(Read::Reg32(regs::GCTL, v)).drop_last() =~= rs);
            lemma_delayed_reads_push(rs, Read::Reg32(regs::GCTL, v), RESET_POLL_DELAY_US);
            second = second.push(v);
        }
        if crst_set(v) {
            left = true;
            proof {
                evs = evs.push(Event::Read(Read::Reg32(regs::GCTL, v)));
                assert(evs =~= mid + poll_events(reg32_reads(regs::GCTL, second), true, RESET_POLL_DELAY_US));
            }
        } else {
            platform.delay_us(RESET_POLL_DELAY_US);
            proof {
                evs = evs + seq![Event::Read(Read::Reg32(regs::GCTL, v)), Event::Delay(RESET_POLL_DELAY_US)];
                assert(evs =~= mid + delayed_reads(reg32_reads(regs::GCTL, second), RESET_POLL_DELAY_US));
            }
        }
        j += 1;
    }
    let res = if left {
        platform.delay_us(CODEC_WAKE_DELAY_US);
        proof {
            evs = evs.push(Event::Delay(CODEC_WAKE_DELAY_US));
        }
        Ok(())
    } else {
        Err(Error::ControllerResetTimeout)
    };
    proof {
        assert(poll_stops(first, bit_clear(regs::gctl::CRST), RESET_POLL_ITERATIONS as nat, true));
        assert(reset_polls(first, second, bit_clear(regs::gctl::CRST), bit_set(regs::gctl::CRST), true, res is Ok));
        assert(evs =~= reset_events(first, second, true, res is Ok));
    }
    (
        res,
        Ghost(reset_writes()),
        Ghost(reg32_reads(regs::GCTL, first) + reg32_reads(regs::GCTL, second)),
        Ghost(evs),
    )
}

} // verus!
