use std::cell::RefCell;
use std::rc::Rc;

use ruefi::hda::controller::{crst_set, rirb_step, srst_set, COMMAND_POLL_ITERATIONS, RESET_POLL_ITERATIONS};
use ruefi::hda::format::BitsPerSample;
use ruefi::hda::regs::sdctl::{run_cleared, run_set};
use ruefi::hda::regs::{stream_desc_base, Gcap};
use ruefi::hda::target::{fill_dma, write_bdl_entry};
use ruefi::hda::verbs::{command, GET_PARAMETER, SET_AMP_GAIN_MUTE, SET_CONVERTER_FORMAT};
use ruefi::hda::{
    configure_and_play_output, find_output_target, Controller, DmaBuffer, Error, PcmFormat, Platform, StreamPlan,
    Target,
};
use ruefi::hda_uefi::{open_controller, OpenError};
use ruefi::keys::{Key, CHAR_ENTER};
use ruefi::screens::hda::{HdaScreen, TONE_FRAMES};
use ruefi::screens::Action;

const CORBLBASE: usize = 0x40;
const CORBUBASE: usize = 0x44;
const CORBWP: u32 = 0x48;
const CORBRP: u32 = 0x4A;
const RIRBLBASE: usize = 0x50;
const RIRBUBASE: usize = 0x54;
const RIRBWP: u32 = 0x58;
const STATESTS: usize = 0x0E;
const GCTL: u32 = 0x08;

/// A controller with one codec (address 0) that answers like a small
/// Realtek part: root node, an audio function group at nid 1, a DAC at
/// nid 2 and an output pin at nid 3 wired to it.
struct MockState {
    regs: Vec<u8>,
    buffers: Vec<Vec<u8>>,
    phys: Vec<u64>,
    corb_rp: u8,
    rirb_wp: u8,
    verbs: Vec<(u8, u8, u32)>,
    amp_steps: bool,
    stuck_reset: bool,
    /// 0: the single path above. 1: pin 3 is wired to a mixer (nid 4) and
    /// pin 5 to the DAC. 2: pin 3 has an empty connection list and pin 5
    /// is wired to the DAC. 3: pin 3 is wired to the mixer, and there is
    /// no other pin.
    layout: u8,
}

/// The platform handed to the driver; the test keeps a second handle on
/// the same state to look at what the driver did.
#[derive(Clone)]
struct MockHda(Rc<RefCell<MockState>>);

impl MockHda {
    fn new() -> Self {
        MockHda(Rc::new(RefCell::new(MockState::new())))
    }
}

impl MockState {
    fn new() -> Self {
        let mut regs = vec![0u8; 0x4000];
        regs[0] = 0x01;
        regs[1] = 0x44; // GCAP: 4 output and 4 input streams
        regs[STATESTS] = 0x01; // codec 0 present
        regs[0x4E] = 0x40; // CORBSIZE: 256 entries selectable
        regs[0x5E] = 0x40; // RIRBSIZE: 256 entries selectable
        MockState {
            regs,
            buffers: Vec::new(),
            phys: Vec::new(),
            corb_rp: 0,
            rirb_wp: 0,
            verbs: Vec::new(),
            amp_steps: true,
            stuck_reset: false,
            layout: 0,
        }
    }

    fn reg32(&self, at: usize) -> u32 {
        u32::from_le_bytes([self.regs[at], self.regs[at + 1], self.regs[at + 2], self.regs[at + 3]])
    }

    fn buffer_at(&self, phys: u64) -> usize {
        self.phys.iter().position(|&p| p == phys).expect("unknown DMA address")
    }

    fn respond(&self, nid: u8, verb: u32) -> u32 {
        if self.layout != 0 {
            let widgets = if self.layout == 3 { 3 } else { 4 };
            match (nid, verb) {
                (1, 0xF0004) => return (2 << 16) | widgets,
                (3, 0xF000E) => return if self.layout == 2 { 0 } else { 1 },
                (3, 0xF0200) => return if self.layout == 2 { 0 } else { 4 },
                (4, 0xF0009) => return 0x0020_0000,
                (5, 0xF0009) => return 0x0040_0100,
                (5, 0xF000C) => return 0x0000_0010,
                (5, 0xF000E) => return 0x0000_0001,
                (5, 0xF0200) => return 0x0000_0002,
                _ => {}
            }
        }
        match (nid, verb) {
            (0, 0xF0000) => 0x10EC_0256,
            (0, 0xF0004) => (1 << 16) | 1,
            (1, 0xF0005) => 0x01,
            (1, 0xF0004) => (2 << 16) | 2,
            (2, 0xF0009) => 0x0000_0011,
            (3, 0xF0009) => 0x0040_0100,
            (3, 0xF000C) => 0x0000_0010,
            (3, 0xF000E) => 0x0000_0001,
            (3, 0xF0200) => 0x0000_0002,
            (_, 0xF0012) => {
                if self.amp_steps {
                    0x8005_3F2A
                } else {
                    0
                }
            }
            _ => 0,
        }
    }

    fn process_corb(&mut self, wp: u8) {
        if self.corb_rp == wp {
            return;
        }
        let corb = self.buffer_at(self.reg32(CORBLBASE) as u64 | ((self.reg32(CORBUBASE) as u64) << 32));
        let rirb = self.buffer_at(self.reg32(RIRBLBASE) as u64 | ((self.reg32(RIRBUBASE) as u64) << 32));
        while self.corb_rp != wp {
            self.corb_rp = self.corb_rp.wrapping_add(1);
            let at = self.corb_rp as usize * 4;
            let b = &self.buffers[corb];
            let cmd = u32::from_le_bytes([b[at], b[at + 1], b[at + 2], b[at + 3]]);
            let codec = (cmd >> 28) as u8;
            let nid = ((cmd >> 20) & 0xFF) as u8;
            let verb = cmd & 0xF_FFFF;
            self.verbs.push((codec, nid, verb));
            let response = if codec == 0 { self.respond(nid, verb) } else { 0 };
            self.rirb_wp = self.rirb_wp.wrapping_add(1);
            let at = self.rirb_wp as usize * 8;
            self.buffers[rirb][at..at + 4].copy_from_slice(&response.to_le_bytes());
            self.buffers[rirb][at + 4..at + 8].copy_from_slice(&(codec as u32).to_le_bytes());
        }
    }
}

impl MockState {
    fn write32(&mut self, offset: u32, value: u32) {
        let at = offset as usize;
        if offset == GCTL && self.stuck_reset {
            return;
        }
        self.regs[at..at + 4].copy_from_slice(&value.to_le_bytes());
    }

    fn read16(&self, offset: u32) -> u16 {
        if offset == RIRBWP {
            return self.rirb_wp as u16;
        }
        let at = offset as usize;
        u16::from_le_bytes([self.regs[at], self.regs[at + 1]])
    }

    fn write16(&mut self, offset: u32, value: u16) {
        let at = offset as usize;
        self.regs[at..at + 2].copy_from_slice(&value.to_le_bytes());
        if offset == CORBRP && value & 0x8000 != 0 {
            self.corb_rp = 0;
        }
        if offset == RIRBWP && value & 0x8000 != 0 {
            self.rirb_wp = 0;
        }
        if offset == CORBWP {
            self.process_corb(value as u8);
        }
    }

    fn new_buffer(&mut self, len: usize) -> DmaBuffer {
        let index = self.buffers.len();
        let phys = 0x1000_0000u64 + (index as u64) * 0x10_0000;
        self.buffers.push(vec![0u8; len.max(1)]);
        self.phys.push(phys);
        DmaBuffer { cpu_addr: index, phys_addr: phys, len: len.max(1) }
    }

    fn dma_read(&self, buf: &DmaBuffer, offset: usize) -> u32 {
        let b = &self.buffers[buf.cpu_addr];
        u32::from_le_bytes([b[offset], b[offset + 1], b[offset + 2], b[offset + 3]])
    }
}

impl Platform for MockHda {
    fn mmio_read32(&self, offset: u32) -> u32 {
        self.0.borrow().reg32(offset as usize)
    }

    fn mmio_write32(&mut self, offset: u32, value: u32) {
        self.0.borrow_mut().write32(offset, value);
    }

    fn mmio_read16(&self, offset: u32) -> u16 {
        self.0.borrow().read16(offset)
    }

    fn mmio_write16(&mut self, offset: u32, value: u16) {
        self.0.borrow_mut().write16(offset, value);
    }

    fn mmio_read8(&self, offset: u32) -> u8 {
        self.0.borrow().regs[offset as usize]
    }

    fn mmio_write8(&mut self, offset: u32, value: u8) {
        self.0.borrow_mut().regs[offset as usize] = value;
    }

    fn delay_us(&self, _micros: u32) {}

    fn alloc_dma(&mut self, len: usize, _align: usize) -> DmaBuffer {
        self.0.borrow_mut().new_buffer(len)
    }

    fn dma_read32(&self, buf: &DmaBuffer, offset: usize) -> u32 {
        self.0.borrow().dma_read(buf, offset)
    }

    fn dma_write32(&mut self, buf: &DmaBuffer, offset: usize, value: u32) {
        self.0.borrow_mut().buffers[buf.cpu_addr][offset..offset + 4].copy_from_slice(&value.to_le_bytes());
    }
}

fn opened() -> (Controller<MockHda>, MockHda) {
    let mock = MockHda::new();
    match Controller::new(mock.clone()) {
        Ok(c) => (c, mock),
        Err(e) => panic!("bring-up failed: {e:?}"),
    }
}

#[test]
fn command_packs_codec_node_and_payload() {
    assert_eq!(command(0, 0, GET_PARAMETER().payload(0x00)), 0x000F_0000);
    assert_eq!(command(2, 0x14, GET_PARAMETER().payload(0x09)), 0x214F_0009);
    assert_eq!(command(0xF, 0xFF, 0xF_FFFF), 0xFFFF_FFFF);
    assert_eq!(SET_CONVERTER_FORMAT().payload(0x0011), 0x2_0011);
    assert_eq!(SET_AMP_GAIN_MUTE().payload(0xB02A), 0x3_B02A);
}

#[test]
fn cd_stereo_encodes_as_hda_format_word() {
    assert_eq!(PcmFormat::CD_STEREO().encode(), Some(0x0011));
    let f = PcmFormat { sample_rate_hz: 44_100, bits: BitsPerSample::Sixteen, channels: 2 };
    assert_eq!(f.encode(), Some(0x4011));
    let f = PcmFormat { sample_rate_hz: 96_000, bits: BitsPerSample::TwentyFour, channels: 2 };
    assert_eq!(f.encode(), Some(0x0831));
    let f = PcmFormat { sample_rate_hz: 8_000, bits: BitsPerSample::Eight, channels: 1 };
    assert_eq!(f.encode(), Some(0x0500));
    let f = PcmFormat { sample_rate_hz: 12_345, bits: BitsPerSample::Sixteen, channels: 2 };
    assert_eq!(f.encode(), None);
    let f = PcmFormat { sample_rate_hz: 48_000, bits: BitsPerSample::Sixteen, channels: 0 };
    assert_eq!(f.encode(), None);
}

#[test]
fn gcap_places_output_streams_after_input_streams() {
    let g = Gcap::decode(0x4401);
    assert_eq!(g.output_stream_base(0), stream_desc_base(4));
    assert_eq!(stream_desc_base(0), 0x80);
    assert_eq!(stream_desc_base(4), 0x100);
}

#[test]
fn bring_up_finds_the_output_path() {
    let (mut c, mock) = opened();
    assert_eq!(c.codec_presence(), 1);
    assert_eq!(c.vendor_device_id(0).ok(), Some((0x10EC, 0x0256)));
    let t = find_output_target(&mut c).expect("an output path");
    assert_eq!(t.codec_addr, 0);
    assert_eq!(t.vendor_id, 0x10EC);
    assert_eq!(t.device_id, 0x0256);
    assert_eq!(t.dac_nid, 2);
    assert_eq!(t.pin_nid, 3);
}

fn target_with_layout(layout: u8) -> Option<Target> {
    let mock = MockHda::new();
    mock.0.borrow_mut().layout = layout;
    let mut c = match Controller::new(mock) {
        Ok(c) => c,
        Err(e) => panic!("bring-up failed: {e:?}"),
    };
    find_output_target(&mut c)
}

#[test]
fn a_pin_wired_to_a_mixer_is_passed_over_for_a_later_pin() {
    let t = target_with_layout(1).expect("pin 5 drives the DAC");
    assert_eq!((t.pin_nid, t.dac_nid), (5, 2));
}

#[test]
fn a_pin_with_no_connections_is_passed_over_for_a_later_pin() {
    let t = target_with_layout(2).expect("pin 5 drives the DAC");
    assert_eq!((t.pin_nid, t.dac_nid), (5, 2));
}

#[test]
fn a_connection_that_is_not_a_dac_gives_no_target() {
    assert!(target_with_layout(3).is_none());
}

#[test]
fn controller_that_never_enters_reset_times_out() {
    let mock = MockHda::new();
    mock.0.borrow_mut().regs[GCTL as usize] = 1;
    mock.0.borrow_mut().stuck_reset = true;
    match Controller::new(mock) {
        Err(e) => assert_eq!(e, Error::ControllerResetTimeout),
        Ok(_) => panic!("a controller that never enters reset must not come up"),
    }
}

#[test]
fn connection_list_reads_short_form_entries() {
    let (mut c, mock) = opened();
    let mut out = [0u8; 4];
    assert_eq!(c.connection_list(0, 3, &mut out).ok(), Some(1));
    assert_eq!(out[0], 2);
}

#[test]
fn controller_reset_timeout_is_reported() {
    let mock = MockHda::new();
    mock.0.borrow_mut().stuck_reset = true;
    match Controller::new(mock) {
        Err(e) => assert_eq!(e, Error::ControllerResetTimeout),
        Ok(_) => panic!("a controller stuck in reset must not come up"),
    }
}

#[test]
fn open_controller_reports_missing_and_failed_controllers() {
    assert!(matches!(open_controller::<MockHda>(None), Err(OpenError::ControllerNotFound)));
    let mock = MockHda::new();
    mock.0.borrow_mut().stuck_reset = true;
    assert!(matches!(open_controller(Some(mock)), Err(OpenError::Driver(Error::ControllerResetTimeout))));
    assert!(open_controller(Some(MockHda::new())).is_ok());
}

fn driven(mock_amp_steps: bool) -> (Vec<(u8, u8, u32)>, Vec<u8>) {
    let mock = MockHda::new();
    mock.0.borrow_mut().amp_steps = mock_amp_steps;
    let mut c = match Controller::new(mock.clone()) {
        Ok(c) => c,
        Err(e) => panic!("bring-up failed: {e:?}"),
    };
    let target = Target { codec_addr: 0, vendor_id: 0x10EC, device_id: 0x0256, dac_nid: 2, pin_nid: 3 };
    let bdl = c.alloc_dma(32, 128);
    let plan = StreamPlan { index: 0, tag: 1, format: PcmFormat::CD_STEREO(), last_valid_index: 1, cyclic_buffer_len: 384_000 };
    mock.0.borrow_mut().verbs.clear();
    assert!(configure_and_play_output(&mut c, &target, &bdl, plan).is_ok());
    let state = mock.0.borrow();
    (state.verbs.clone(), state.regs.clone())
}

#[test]
fn output_setup_verb_sequence() {
    let (verbs, regs) = driven(true);
    let codec_side: Vec<(u8, u32)> = verbs.iter().map(|&(_, nid, v)| (nid, v)).collect();
    assert_eq!(
        codec_side,
        vec![
            (2, 0x2_0011),
            (2, 0x7_0610),
            (2, 0xF_0012),
            (2, 0x3_B02A),
            (3, 0x7_07C0),
            (3, 0xF_0012),
            (3, 0x3_B02A),
            (3, 0x7_0C02),
        ]
    );
    let base = 0x100usize;
    let ctl = u32::from_le_bytes([regs[base], regs[base + 1], regs[base + 2], regs[base + 3]]);
    assert_eq!(ctl & 0x2, 0x2, "RUN set");
    assert_eq!(ctl >> 20 & 0xF, 1, "stream tag");
    assert_eq!(u16::from_le_bytes([regs[base + 0x12], regs[base + 0x13]]), 0x0011);
    assert_eq!(u16::from_le_bytes([regs[base + 0x0C], regs[base + 0x0D]]), 1);
    assert_eq!(
        u32::from_le_bytes([regs[base + 8], regs[base + 9], regs[base + 10], regs[base + 11]]),
        384_000
    );
}

#[test]
fn amps_without_steps_are_left_alone() {
    let (verbs, _) = driven(false);
    assert!(verbs.iter().all(|&(_, _, v)| v >> 16 != 0x3), "no gain/mute verb sent");
}

#[test]
fn bdl_entries_and_sample_fill_land_in_dma_memory() {
    let (mut c, mock) = opened();
    let samples = c.alloc_dma(16, 128);
    fill_dma(&mut c, &samples, &[0x1111_2222, 0x3333_4444]);
    let bdl = c.alloc_dma(32, 128);
    write_bdl_entry(&mut c, &bdl, 1, 0x1_2345_6789, 0x100);
    let state = mock.0.borrow();
    let s = &state.buffers[samples.cpu_addr];
    assert_eq!(&s[0..8], &[0x22, 0x22, 0x11, 0x11, 0x44, 0x44, 0x33, 0x33]);
    let b = &state.buffers[bdl.cpu_addr];
    assert_eq!(&b[0..16], &[0u8; 16]);
    assert_eq!(&b[16..20], &0x2345_6789u32.to_le_bytes());
    assert_eq!(&b[20..24], &1u32.to_le_bytes());
    assert_eq!(&b[24..28], &0x100u32.to_le_bytes());
    assert_eq!(&b[28..32], &0u32.to_le_bytes());
}

fn tone() -> Vec<u32> {
    (0..TONE_FRAMES as u32).map(|i| i.wrapping_mul(0x0001_0001)).collect()
}

#[test]
fn audio_tab_reports_the_path_and_toggles_the_tone() {
    let mut screen = HdaScreen::new(open_controller(Some(MockHda::new())), tone());
    assert_eq!(
        screen.text(),
        "Codec 10ec:0256 at address 0 -- DAC nid 2, pin nid 3\n\nEnter to play a 440 Hz test tone."
    );
    assert_eq!(screen.on_key(Key::Printable(CHAR_ENTER)), Action::Continue);
    assert_eq!(
        screen.text(),
        "Codec 10ec:0256 at address 0 -- DAC nid 2, pin nid 3\n\nPlaying a 440 Hz test tone -- Enter to stop."
    );
    assert_eq!(screen.on_key(Key::Printable('x' as u16)), Action::Continue);
    assert!(screen.text().ends_with("Enter to stop."));
    screen.on_key(Key::Printable(CHAR_ENTER));
    assert!(screen.text().ends_with("Enter to play a 440 Hz test tone."));
}

#[test]
fn audio_tab_without_a_controller_says_why() {
    let screen: HdaScreen<MockHda> = HdaScreen::new(Err(OpenError::ControllerNotFound), tone());
    assert_eq!(screen.text(), "No HD Audio controller: ControllerNotFound\n");
    let screen: HdaScreen<MockHda> = HdaScreen::new(Err(OpenError::Driver(Error::CommandTimeout)), tone());
    assert_eq!(screen.text(), "No HD Audio controller: Driver(CommandTimeout)\n");
}

#[test]
fn rirb_step_follows_the_write_pointer_low_byte() {
    assert_eq!(rirb_step(0x0005, 5), None);
    assert_eq!(rirb_step(0x0106, 5), Some(6));
    assert_eq!(rirb_step(0x0300, 0), None);
    assert_eq!(rirb_step(0x0000, 255), Some(0));
    assert_eq!(rirb_step(0x0001, 0), Some(1));
}

#[test]
fn reset_bits_and_run_bit_helpers() {
    assert!(crst_set(0x0000_0001));
    assert!(!crst_set(0xFFFF_FFFE));
    assert!(srst_set(0x0010_0001));
    assert!(!srst_set(0x0010_0002));
    assert_eq!(run_set(0x0010_0000), 0x0010_0002);
    assert_eq!(run_cleared(0x0010_0006), 0x0010_0004);
    assert_eq!(RESET_POLL_ITERATIONS, 10_000);
    assert_eq!(COMMAND_POLL_ITERATIONS, 20_000);
}

#[test]
fn encoded_formats_leave_bit_15_clear() {
    for hz in [8_000u32, 11_025, 16_000, 22_050, 32_000, 44_100, 48_000, 88_200, 96_000, 176_400, 192_000] {
        for ch in 1..=16u8 {
            let f = PcmFormat { sample_rate_hz: hz, bits: BitsPerSample::ThirtyTwo, channels: ch };
            if let Some(v) = f.encode() {
                assert_eq!(v & 0x8000, 0);
            }
        }
    }
}

#[test]
fn stopping_the_stream_keeps_its_tag() {
    let (mut c, mock) = opened();
    let base = Gcap::decode(0x4401).output_stream_base(0) as usize;
    mock.0.borrow_mut().regs[base..base + 4].copy_from_slice(&0x0010_0002u32.to_le_bytes());
    c.stop_output_stream(0);
    assert_eq!(mock.0.borrow().reg32(base), 0x0010_0000);
    c.start_output_stream(0);
    assert_eq!(mock.0.borrow().reg32(base), 0x0010_0002);
}

#[test]
fn rings_without_256_entries_are_refused() {
    let mock = MockHda::new();
    mock.0.borrow_mut().regs[0x5E] = 0x30;
    match Controller::new(mock.clone()) {
        Err(e) => assert_eq!(e, Error::RingSizeUnsupported),
        Ok(_) => panic!("a controller without 256-entry rings must not come up"),
    }
    assert_eq!(mock.0.borrow().regs[0x4E], 0x40);
    assert_eq!(mock.0.borrow().regs[0x5E], 0x30);
    assert!(matches!(open_controller(Some(mock)), Err(OpenError::Driver(Error::RingSizeUnsupported))));
}

#[test]
fn rings_of_256_entries_are_selected_when_offered() {
    let (_c, mock) = opened();
    assert_eq!(mock.0.borrow().regs[0x4E], 0b10);
    assert_eq!(mock.0.borrow().regs[0x5E], 0b10);
}

#[test]
fn a_failed_bring_up_hands_the_platform_back_untouched_past_the_reset() {
    let mock = MockHda::new();
    mock.0.borrow_mut().stuck_reset = true;
    match Controller::try_new(mock.clone()) {
        Err((e, back)) => {
            assert_eq!(e, Error::ControllerResetTimeout);
            assert_eq!(back.0.borrow().buffers.len(), 0);
        }
        Ok(_) => panic!("a controller stuck in reset must not come up"),
    }
    assert_eq!(mock.0.borrow().buffers.len(), 0);
    assert_eq!(mock.0.borrow().regs[0x4E], 0x40);
    assert_eq!(mock.0.borrow().reg32(CORBLBASE), 0);

    let mock = MockHda::new();
    mock.0.borrow_mut().regs[0x4E] = 0x30;
    match Controller::try_new(mock.clone()) {
        Err((e, _)) => assert_eq!(e, Error::RingSizeUnsupported),
        Ok(_) => panic!("a controller without 256-entry rings must not come up"),
    }
    assert_eq!(mock.0.borrow().buffers.len(), 0);
    assert_eq!(mock.0.borrow().regs[0x4E], 0x30);
    assert_eq!(mock.0.borrow().reg32(CORBLBASE), 0);
    assert!(Controller::try_new(MockHda::new()).is_ok());
}
