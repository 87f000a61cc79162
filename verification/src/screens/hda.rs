//! The audio tab: opens the HD Audio controller (if any), finds a codec
//! output path, and plays a two-second test tone through it on Enter.
use vstd::prelude::*;

use crate::hda::controller::{Read, Write};
use crate::hda::discovery::codecs_parse;
use crate::hda::regs;
use crate::hda::format::BitsPerSample;
use crate::hda::target::{bdl_entry_writes, fill_dma, fill_writes, output_played, target_justified, write_bdl_entry};
use crate::hda::{
    configure_and_play_output, find_output_target, Controller, DmaBuffer, Error, PcmFormat, Platform, StreamPlan,
    Target,
};
use crate::hda_uefi::OpenError;
use crate::keys::{Key, CHAR_ENTER};
use crate::screens::Action;
use crate::text::{decimal, hex, push_decimal, push_hex, push_str};

verus! {

/// The output stream the tone plays on.
pub const STREAM_INDEX: u8 = 0;

/// The stream tag the tone's stream and converter share.
pub const STREAM_TAG: u8 = 1;

/// Stereo frames in the tone: two seconds at 48 kHz.
pub const TONE_FRAMES: usize = 96_000;

/// Bytes of sample data in the tone: four per 16-bit stereo frame.
pub const TONE_BYTES: usize = 384_000;

/// Bytes each of the two buffer descriptors covers.
pub const HALF_BYTES: u32 = 192_000;

/// The sample buffer and buffer descriptor list backing a playing tone,
/// kept for as long as the stream may still read them.
pub struct ToneResources {
    pub samples: DmaBuffer,
    pub bdl: DmaBuffer,
}

/// The stream a tone plays with: two descriptors over the sample buffer,
/// 48 kHz 16-bit stereo.
pub open spec fn tone_plan() -> StreamPlan {
    StreamPlan {
        index: STREAM_INDEX,
        tag: STREAM_TAG,
        format: PcmFormat { sample_rate_hz: 48_000, bits: BitsPerSample::Sixteen, channels: 2 },
        last_valid_index: 1,
        cyclic_buffer_len: TONE_BYTES as u32,
    }
}

/// The writes that load a tone of `words` into `samples` and describe it,
/// in two halves, in the list `bdl`.
pub open spec fn tone_load_writes(samples: DmaBuffer, bdl: DmaBuffer, words: Seq<u32>) -> Seq<Write> {
    fill_writes(samples.phys_addr, words) + bdl_entry_writes(bdl.phys_addr, 0, samples.phys_addr, HALF_BYTES)
        + bdl_entry_writes(bdl.phys_addr, 1, (samples.phys_addr + HALF_BYTES) as u64, HALF_BYTES)
}

/// How an [`OpenError`] reads in the status line.
pub open spec fn open_error_text(e: OpenError) -> Seq<char> {
    match e {
        OpenError::ControllerNotFound => "ControllerNotFound"@,
        OpenError::Driver(Error::ControllerResetTimeout) => "Driver(ControllerResetTimeout)"@,
        OpenError::Driver(Error::StreamResetTimeout) => "Driver(StreamResetTimeout)"@,
        OpenError::Driver(Error::CommandTimeout) => "Driver(CommandTimeout)"@,
        OpenError::Driver(Error::RingSizeUnsupported) => "Driver(RingSizeUnsupported)"@,
    }
}

/// The status line for a controller that opened, with the output path
/// found on it if any.
pub open spec fn target_status(target: Option<Target>) -> Seq<char> {
    match target {
        Some(t) => "Codec "@ + hex(t.vendor_id as nat, 4) + ":"@ + hex(t.device_id as nat, 4) + " at address "@
            + decimal(t.codec_addr as nat) + " -- DAC nid "@ + decimal(t.dac_nid as nat) + ", pin nid "@ + decimal(
            t.pin_nid as nat,
        ),
        None => "Controller found, but no usable output path"@,
    }
}

/// The audio tab.
pub struct HdaScreen<P: Platform> {
    controller: Option<Controller<P>>,
    target: Option<Target>,
    tone: Option<ToneResources>,
    tone_words: Vec<u32>,
    playing: bool,
    status: String,
}

impl<P: Platform> HdaScreen<P> {
    /// The controller, when one was opened.
    pub closed spec fn controller(self) -> Option<Controller<P>> {
        self.controller
    }

    /// The output path found on it.
    pub closed spec fn target(self) -> Option<Target> {
        self.target
    }

    /// The buffers of the last tone started.
    pub closed spec fn tone(self) -> Option<ToneResources> {
        self.tone
    }

    /// The tone's samples, one stereo frame per word.
    pub closed spec fn tone_words(self) -> Seq<u32> {
        self.tone_words@
    }

    /// A tone is playing.
    pub closed spec fn playing(self) -> bool {
        self.playing
    }

    /// The status line.
    pub closed spec fn status(self) -> Seq<char> {
        self.status@
    }

    /// `after` is this screen after Enter: without a controller and an
    /// output path nothing happens; a playing tone is stopped by clearing
    /// RUN on its stream; otherwise the tone is loaded into fresh DMA
    /// buffers and its stream configured and started.
    pub open spec fn toggled(self, after: Self) -> bool {
        &&& after.target() == self.target()
        &&& after.status() == self.status()
        &&& after.tone_words() == self.tone_words()
        &&& match (self.controller(), self.target()) {
            (Some(c0), Some(t)) => if self.playing() {
                &&& !after.playing()
                &&& after.tone() == self.tone()
                &&& after.controller() matches Some(c1) && exists|ctl: u32|
                    {
                        &&& c1.reads() == #[trigger] c0.reads().push(
                            Read::Reg32(c0.gcap().spec_output_stream_base(STREAM_INDEX) as u32, ctl),
                        )
                        &&& c1.regs_only_since(
                            &c0,
                            seq![Write::Reg32(c0.gcap().spec_output_stream_base(STREAM_INDEX) as u32, ctl & !2u32)],
                        )
                    }
            } else {
                &&& after.playing()
                &&& after.tone() matches Some(res) && {
                    &&& res.samples.len >= TONE_BYTES
                    &&& res.bdl.len >= 32
                    &&& after.controller() matches Some(c1) && exists|mid: Controller<P>, r: Result<(), Error>|
                        mid.regs_only_since(&c0, tone_load_writes(res.samples, res.bdl, self.tone_words()))
                            && output_played(mid, c1, t, res.bdl, tone_plan(), r)
                }
            },
            _ => {
                &&& after.playing() == self.playing()
                &&& after.tone() == self.tone()
                &&& after.controller() == self.controller()
            },
        }
    }

    /// Sets the tab up from the outcome of opening the controller: on
    /// success, looks for an output path on it and reports what it found;
    /// otherwise reports why there is no controller. `tone` is the test
    /// tone's sample data, one 16-bit stereo frame per word.
    pub fn new(opened: Result<Controller<P>, OpenError>, tone: Vec<u32>) -> (r: Self)
        requires
            tone@.len() == TONE_FRAMES,
        ensures
            !r.playing(),
            r.tone() is None,
            r.tone_words() == tone@,
            match opened {
                Ok(c0) => {
                    &&& r.controller() matches Some(c1) && c1.verbs_only_since(&c0) && (r.target() matches Some(
                        t,
                    ) ==> t.codec_addr < 15 && target_justified(c1.exchanges_since(&c0), t))
                    &&& r.controller() matches Some(c1) && exists|presence: u16|
                        {
                            &&& presence < 0x8000
                            &&& exists|raw: u16| #[trigger] c0.reads16(regs::STATESTS, raw) && presence == raw & 0x7FFF
                            &&& #[trigger] codecs_parse(c1.exchanges_since(&c0), 0, presence, 0) == Some(
                                (c1.exchanges_since(&c0).len() as int, r.target()),
                            )
                        }
                    &&& r.status() == target_status(r.target())
                },
                Err(e) => {
                    &&& r.controller() is None
                    &&& r.target() is None
                    &&& r.status() == "No HD Audio controller: "@ + open_error_text(e)
                },
            },
    {
        match opened {
            Ok(mut controller) => {
                let ghost c0 = controller;
                let target = find_output_target(&mut controller);
                proof {
                    let es = controller.exchanges_since(&c0);
                    let presence = choose|presence: u16|
                        {
                            &&& presence < 0x8000
                            &&& exists|raw: u16| #[trigger] c0.reads16(regs::STATESTS, raw) && presence == raw & 0x7FFF
                            &&& #[trigger] codecs_parse(es, 0, presence, 0) == Some((es.len() as int, target))
                        };
                    assert(codecs_parse(es, 0, presence, 0) == Some((es.len() as int, target)));
                }
                let mut status = String::new();
                match target {
                    Some(t) => {
                        push_str(&mut status, "Codec ");
                        push_hex(&mut status, t.vendor_id as u64, 4);
                        push_str(&mut status, ":");
                        push_hex(&mut status, t.device_id as u64, 4);
                        push_str(&mut status, " at address ");
                        push_decimal(&mut status, t.codec_addr as u64);
                        push_str(&mut status, " -- DAC nid ");
                        push_decimal(&mut status, t.dac_nid as u64);
                        push_str(&mut status, ", pin nid ");
                        push_decimal(&mut status, t.pin_nid as u64);
                    },
                    None => {
                        push_str(&mut status, "Controller found, but no usable output path");
                    },
                }
                HdaScreen {
                    controller: Some(controller),
                    target,
                    tone: None,
                    tone_words: tone,
                    playing: false,
                    status,
                }
            },
            Err(err) => {
                let mut status = String::new();
                push_str(&mut status, "No HD Audio controller: ");
                match err {
                    OpenError::ControllerNotFound => push_str(&mut status, "ControllerNotFound"),
                    OpenError::Driver(Error::ControllerResetTimeout) => push_str(
                        &mut status,
                        "Driver(ControllerResetTimeout)",
                    ),
                    OpenError::Driver(Error::StreamResetTimeout) => push_str(
                        &mut status,
                        "Driver(StreamResetTimeout)",
                    ),
                    OpenError::Driver(Error::CommandTimeout) => push_str(&mut status, "Driver(CommandTimeout)"),
                    OpenError::Driver(Error::RingSizeUnsupported) => push_str(
                        &mut status,
                        "Driver(RingSizeUnsupported)",
                    ),
                }
                HdaScreen { controller: None, target: None, tone: None, tone_words: tone, playing: false, status }
            },
        }
    }

    /// Starts the test tone, or stops it if it is playing.
    pub fn toggle_play(&mut self)
        requires
            old(self).tone_words().len() == TONE_FRAMES,
        ensures
            old(self).toggled(*final(self)),
    {
        if self.target.is_none() {
            return;
        }
        let target = match self.target {
            Some(t) => t,
            None => return,
        };
        let mut controller = match self.controller.take() {
            Some(c) => c,
            None => return,
        };
        let ghost c0 = controller;
        if self.playing {
            controller.stop_output_stream(STREAM_INDEX);
            self.controller = Some(controller);
            self.playing = false;
            return;
        }
        let samples = controller.alloc_dma(TONE_BYTES, 128);
        fill_dma(&mut controller, &samples, self.tone_words.as_slice());
        let bdl = controller.alloc_dma(32, 128);
        write_bdl_entry(&mut controller, &bdl, 0, samples.phys_addr, HALF_BYTES);
        write_bdl_entry(&mut controller, &bdl, 1, samples.phys_addr + HALF_BYTES as u64, HALF_BYTES);
        let ghost mid = controller;
        proof {
            assert(mid.writes() =~= c0.writes() + tone_load_writes(samples, bdl, self.tone_words@));
        }
        let plan = StreamPlan {
            index: STREAM_INDEX,
            tag: STREAM_TAG,
            format: PcmFormat::CD_STEREO(),
            last_valid_index: 1,
            cyclic_buffer_len: TONE_BYTES as u32,
        };
        assert(plan == tone_plan());
        let r = configure_and_play_output(&mut controller, &target, &bdl, plan);
        proof {
            assert(mid.regs_only_since(&c0, tone_load_writes(samples, bdl, self.tone_words@)));
            assert(output_played(mid, controller, target, bdl, tone_plan(), r));
        }
        self.controller = Some(controller);
        self.tone = Some(ToneResources { samples, bdl });
        self.playing = true;
        proof {
            assert(old(self).controller() == Some(c0));
            assert(old(self).target() == Some(target));
            assert(!old(self).playing());
            assert(self.tone() matches Some(res) && res.samples == samples && res.bdl == bdl);
            assert(self.controller() matches Some(c1) && c1 == controller);
            assert(self.tone_words() == old(self).tone_words());
        }
    }

    /// Handles a key: Enter starts or stops the tone; the tab never asks
    /// to quit.
    pub fn on_key(&mut self, key: Key) -> (r: Action)
        requires
            old(self).tone_words().len() == TONE_FRAMES,
        ensures
            r == Action::Continue,
            key == Key::Printable(CHAR_ENTER) ==> old(self).toggled(*final(self)),
            key != Key::Printable(CHAR_ENTER) ==> *final(self) == *old(self),
    {
        if key == Key::Printable(CHAR_ENTER) {
            self.toggle_play();
        }
        Action::Continue
    }

    /// The tab's text: the status line, then, when there is an output path,
    /// what Enter does.
    pub fn text(&self) -> (r: String)
        ensures
            r@ == self.status() + "\n"@ + match self.target() {
                Some(_) => if self.playing() {
                    "\nPlaying a 440 Hz test tone -- Enter to stop."@
                } else {
                    "\nEnter to play a 440 Hz test tone."@
                },
                None => Seq::empty(),
            },
    {
        let mut text = String::new();
        push_str(&mut text, self.status.as_str());
        push_str(&mut text, "\n");
        if self.target.is_some() {
            if self.playing {
                push_str(&mut text, "\nPlaying a 440 Hz test tone -- Enter to stop.");
            } else {
                push_str(&mut text, "\nEnter to play a 440 Hz test tone.");
            }
        }
        text
    }
}

} // verus!
