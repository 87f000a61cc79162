//! Game sound-effect presets and the note timing that turns one `play`
//! into a bounded press-then-release: a one-shot effect holds its note for
//! a fixed number of output samples and then releases it, leaving the
//! instrument's own envelope to shape the tail.
//!
//! One synthesizer engine voices a single instrument, so each effect that
//! must sound on its own (a fire zap, an explosion boom, the thrust hum) has
//! an engine of its own; [`GameSynth`] owns them and sends each its note
//! events. The engines' audio output is floating point and is mixed by the
//! caller.
use vstd::prelude::*;
use wavesynth::engine::SynthEngine;
use wavesynth::midi::MidiEvent;

verus! {

/// A one-shot game sound effect.
#[derive(Debug, Clone, Copy, PartialEq, Eq, Structural)]
pub enum Sfx {
    Fire,
    Explosion,
}

/// MIDI note of each effect (69 is A4).
pub open spec fn spec_note(sfx: Sfx) -> u8 {
    match sfx {
        Sfx::Fire => 84,
        Sfx::Explosion => 38,
    }
}

/// The instrument preset an effect's engine is built with.
#[derive(Debug, Clone, Copy, PartialEq, Eq, Structural)]
pub enum Timbre {
    SquareLead,
    SawBass,
}

/// Instrument of each effect.
pub open spec fn spec_timbre(sfx: Sfx) -> Timbre {
    match sfx {
        Sfx::Fire => Timbre::SquareLead,
        Sfx::Explosion => Timbre::SawBass,
    }
}

/// Instrument of the thrust hum.
pub const THRUST_TIMBRE: Timbre = Timbre::SawBass;

/// Velocity a one-shot effect is struck with.
pub const ONE_SHOT_VELOCITY: u8 = 127;

/// MIDI note of the sustained thrust hum.
pub const THRUST_NOTE: u8 = 33;

/// Velocity the thrust hum is started with.
pub const THRUST_VELOCITY: u8 = 100;

impl Sfx {
    /// MIDI note number driving the pitch: a short, high zap for fire and a
    /// low boom for an explosion.
    pub fn note(self) -> (r: u8)
        ensures
            r == spec_note(self),
    {
        match self {
            Sfx::Fire => 84,
            Sfx::Explosion => 38,
        }
    }

    /// The instrument the effect's engine voices: a square lead for the
    /// zap, a saw bass for the boom.
    pub fn timbre(self) -> (r: Timbre)
        ensures
            r == spec_timbre(self),
    {
        match self {
            Sfx::Fire => Timbre::SquareLead,
            Sfx::Explosion => Timbre::SawBass,
        }
    }
}

/// A note event for a synthesizer voice.
#[derive(Debug, Clone, Copy, PartialEq, Eq, Structural)]
pub enum NoteEvent {
    On { pitch: u8, velocity: u8 },
    Off { pitch: u8 },
}

/// The hold timer of one effect's voice: how many more output samples the
/// note stays pressed before it is released.
pub struct OneShotTimer {
    note: u8,
    hold_samples: u32,
    remaining_samples: u32,
    held: bool,
}

impl OneShotTimer {
    /// The note this timer presses and releases.
    pub closed spec fn note_of(self) -> u8 {
        self.note
    }

    /// Samples a note is held for after `play`.
    pub closed spec fn hold_of(self) -> u32 {
        self.hold_samples
    }

    /// Samples left before the release, while held.
    pub closed spec fn remaining(self) -> u32 {
        self.remaining_samples
    }

    /// The note is pressed.
    pub closed spec fn is_held(self) -> bool {
        self.held
    }

    /// `after` is this timer one output sample later, and `event` is what
    /// that sample sends to the voice.
    pub open spec fn stepped(self, after: OneShotTimer, event: Option<NoteEvent>) -> bool {
        &&& after.note_of() == self.note_of()
        &&& after.hold_of() == self.hold_of()
        &&& if !self.is_held() {
            &&& event is None
            &&& !after.is_held()
            &&& after.remaining() == self.remaining()
        } else if self.remaining() == 0 {
            &&& event == Some(NoteEvent::Off { pitch: self.note_of() })
            &&& !after.is_held()
            &&& after.remaining() == 0
        } else {
            &&& event is None
            &&& after.is_held()
            &&& after.remaining() == self.remaining() - 1
        }
    }

    /// A silent timer for `sfx` that holds its note for `hold_samples`
    /// output samples after each `play`.
    pub fn new(sfx: Sfx, hold_samples: u32) -> (r: Self)
        ensures
            r.note_of() == spec_note(sfx),
            r.hold_of() == hold_samples,
            r.remaining() == 0,
            !r.is_held(),
    {
        OneShotTimer { note: sfx.note(), hold_samples, remaining_samples: 0, held: false }
    }

    /// Presses the note (restarting it if it is still ringing) and returns
    /// the event that strikes it.
    pub fn play(&mut self) -> (r: NoteEvent)
        ensures
            r == (NoteEvent::On { pitch: old(self).note_of(), velocity: ONE_SHOT_VELOCITY }),
            final(self).note_of() == old(self).note_of(),
            final(self).hold_of() == old(self).hold_of(),
            final(self).remaining() == old(self).hold_of(),
            final(self).is_held(),
    {
        self.remaining_samples = self.hold_samples;
        self.held = true;
        NoteEvent::On { pitch: self.note, velocity: ONE_SHOT_VELOCITY }
    }

    /// Advances by one output sample; returns the release event on the
    /// sample where the hold runs out.
    pub fn step(&mut self) -> (r: Option<NoteEvent>)
        ensures
            old(self).stepped(*final(self), r),
    {
        if self.held {
            if self.remaining_samples == 0 {
                self.held = false;
                return Some(NoteEvent::Off { pitch: self.note });
            } else {
                self.remaining_samples = self.remaining_samples - 1;
            }
        }
        None
    }
}

#[verifier::external_type_specification]
#[verifier::external_body]
pub struct ExSynthEngine(SynthEngine);

/// A synthesizer engine with the record of the note events sent to it.
pub struct Voice {
    engine: SynthEngine,
    sent: Ghost<Seq<NoteEvent>>,
}

impl Voice {
    /// The engine.
    pub closed spec fn engine_of(self) -> SynthEngine {
        self.engine
    }

    /// Every note event sent to the engine, in order.
    pub closed spec fn sent(self) -> Seq<NoteEvent> {
        self.sent@
    }

    /// `engine`, with nothing sent to it yet.
    pub fn new(engine: SynthEngine) -> (r: Self)
        ensures
            r.engine_of() == engine,
            r.sent() == Seq::<NoteEvent>::empty(),
    {
        Voice { engine, sent: Ghost(Seq::empty()) }
    }
}

/// Sends a note event to a voice's engine through
/// `SynthEngine::handle_event`, as the MIDI note-on or note-off of the same
/// pitch (and velocity), and records it among the events sent to that
/// voice. The engine is opaque here: nothing is stated of the voice state
/// the event leaves behind.
#[verifier::external_body]
fn send_note(voice: &mut Voice, event: NoteEvent)
    ensures
        final(voice).sent() == old(voice).sent().push(event),
{
    let midi = match event {
        NoteEvent::On { pitch, velocity } => MidiEvent::NoteOn { pitch, velocity },
        NoteEvent::Off { pitch } => MidiEvent::NoteOff { pitch },
    };
    voice.engine.handle_event(midi);
}

/// One effect's engine together with its hold timer.
pub struct OneShot {
    voice: Voice,
    timer: OneShotTimer,
}

impl OneShot {
    /// The hold timer driving the engine.
    pub closed spec fn timer_of(self) -> OneShotTimer {
        self.timer
    }

    /// The engine voicing the effect.
    pub closed spec fn engine_of(self) -> SynthEngine {
        self.voice.engine_of()
    }

    /// Every note event sent to the effect's engine, in order.
    pub closed spec fn sent_of(self) -> Seq<NoteEvent> {
        self.voice.sent()
    }

    /// A silent effect voiced by `engine` that holds its note for
    /// `hold_samples` output samples after each `play`.
    pub fn new(engine: SynthEngine, sfx: Sfx, hold_samples: u32) -> (r: Self)
        ensures
            r.engine_of() == engine,
            r.sent_of() == Seq::<NoteEvent>::empty(),
            r.timer_of().note_of() == spec_note(sfx),
            r.timer_of().hold_of() == hold_samples,
            r.timer_of().remaining() == 0,
            !r.timer_of().is_held(),
    {
        OneShot { voice: Voice::new(engine), timer: OneShotTimer::new(sfx, hold_samples) }
    }

    /// Strikes the note on the engine, restarting the hold, and returns the
    /// event sent.
    pub fn play(&mut self) -> (r: NoteEvent)
        ensures
            r == (NoteEvent::On { pitch: old(self).timer_of().note_of(), velocity: ONE_SHOT_VELOCITY }),
            final(self).timer_of().note_of() == old(self).timer_of().note_of(),
            final(self).timer_of().hold_of() == old(self).timer_of().hold_of(),
            final(self).timer_of().remaining() == old(self).timer_of().hold_of(),
            final(self).timer_of().is_held(),
            final(self).sent_of() == old(self).sent_of().push(r),
    {
        let event = self.timer.play();
        send_note(&mut self.voice, event);
        event
    }

    /// Advances the hold by one output sample, sending the release to the
    /// engine on the sample where the hold runs out; returns the event sent.
    pub fn advance(&mut self) -> (r: Option<NoteEvent>)
        ensures
            old(self).timer_of().stepped(final(self).timer_of(), r),
            final(self).sent_of() == match r {
                Some(e) => old(self).sent_of().push(e),
                None => old(self).sent_of(),
            },
    {
        let event = self.timer.step();
        if let Some(e) = event {
            send_note(&mut self.voice, e);
        }
        event
    }

    /// The engine, for drawing its next output sample.
    pub fn engine_mut(&mut self) -> (r: &mut SynthEngine)
        ensures
            *r == old(self).engine_of(),
            final(self).engine_of() == *final(r),
            final(self).timer_of() == old(self).timer_of(),
            final(self).sent_of() == old(self).sent_of(),
    {
        &mut self.voice.engine
    }
}

/// Everything the asteroids game can make noise about: an engine per
/// one-shot effect, each with its hold timer, and the thrust hum's engine.
/// The caller draws one sample from each engine per output sample, after
/// `advance`, and mixes them.
pub struct GameSynth {
    fire: OneShot,
    explosion: OneShot,
    thrust: Voice,
}

impl GameSynth {
    /// Each effect's timer presses that effect's note.
    pub closed spec fn wf(self) -> bool {
        &&& self.fire.timer_of().note_of() == spec_note(Sfx::Fire)
        &&& self.explosion.timer_of().note_of() == spec_note(Sfx::Explosion)
    }

    /// Hold timer of the fire zap.
    pub closed spec fn fire_timer(self) -> OneShotTimer {
        self.fire.timer_of()
    }

    /// Hold timer of the explosion boom.
    pub closed spec fn explosion_timer(self) -> OneShotTimer {
        self.explosion.timer_of()
    }

    /// Engine of `sfx`.
    pub closed spec fn engine(self, sfx: Sfx) -> SynthEngine {
        match sfx {
            Sfx::Fire => self.fire.engine_of(),
            Sfx::Explosion => self.explosion.engine_of(),
        }
    }

    /// Engine of the thrust hum.
    pub closed spec fn thrust(self) -> SynthEngine {
        self.thrust.engine_of()
    }

    /// Every note event sent to the engine of `sfx`, in order.
    pub closed spec fn sent(self, sfx: Sfx) -> Seq<NoteEvent> {
        match sfx {
            Sfx::Fire => self.fire.sent_of(),
            Sfx::Explosion => self.explosion.sent_of(),
        }
    }

    /// Every note event sent to the thrust hum's engine, in order.
    pub closed spec fn thrust_sent(self) -> Seq<NoteEvent> {
        self.thrust.sent()
    }

    /// Hold timer of `sfx`.
    pub open spec fn timer(self, sfx: Sfx) -> OneShotTimer {
        match sfx {
            Sfx::Fire => self.fire_timer(),
            Sfx::Explosion => self.explosion_timer(),
        }
    }

    /// A silent synth over the given engines; each one-shot effect holds
    /// its note for the given number of output samples.
    pub fn new(
        fire_engine: SynthEngine,
        explosion_engine: SynthEngine,
        thrust_engine: SynthEngine,
        fire_hold: u32,
        explosion_hold: u32,
    ) -> (r: Self)
        ensures
            r.wf(),
            r.engine(Sfx::Fire) == fire_engine,
            r.engine(Sfx::Explosion) == explosion_engine,
            r.thrust() == thrust_engine,
            forall|sfx: Sfx| #[trigger] r.sent(sfx) == Seq::<NoteEvent>::empty(),
            r.thrust_sent() == Seq::<NoteEvent>::empty(),
            r.fire_timer().hold_of() == fire_hold,
            r.explosion_timer().hold_of() == explosion_hold,
            forall|sfx: Sfx|
                {
                    &&& (#[trigger] r.timer(sfx)).note_of() == spec_note(sfx)
                    &&& !r.timer(sfx).is_held()
                    &&& r.timer(sfx).remaining() == 0
                },
    {
        GameSynth {
            fire: OneShot::new(fire_engine, Sfx::Fire, fire_hold),
            explosion: OneShot::new(explosion_engine, Sfx::Explosion, explosion_hold),
            thrust: Voice::new(thrust_engine),
        }
    }

    /// Triggers a one-shot sound and returns the event sent to its engine.
    /// Retriggering an effect that is still ringing restarts it: there is
    /// one voice per effect. The other effect is left as it was.
    pub fn play(&mut self, sfx: Sfx) -> (r: NoteEvent)
        requires
            old(self).wf(),
        ensures
            final(self).wf(),
            r == (NoteEvent::On { pitch: spec_note(sfx), velocity: ONE_SHOT_VELOCITY }),
            final(self).timer(sfx).note_of() == spec_note(sfx),
            final(self).timer(sfx).hold_of() == old(self).timer(sfx).hold_of(),
            final(self).timer(sfx).remaining() == old(self).timer(sfx).hold_of(),
            final(self).timer(sfx).is_held(),
            forall|other: Sfx| other != sfx ==> #[trigger] final(self).timer(other) == old(self).timer(other),
            forall|other: Sfx| other != sfx ==> #[trigger] final(self).engine(other) == old(self).engine(other),
            final(self).thrust() == old(self).thrust(),
            final(self).sent(sfx) == old(self).sent(sfx).push(r),
            forall|other: Sfx| other != sfx ==> #[trigger] final(self).sent(other) == old(self).sent(other),
            final(self).thrust_sent() == old(self).thrust_sent(),
    {
        match sfx {
            Sfx::Fire => self.fire.play(),
            Sfx::Explosion => self.explosion.play(),
        }
    }

    /// Starts the sustained thrust hum; returns the event sent to its engine.
    pub fn start_thrust(&mut self) -> (r: NoteEvent)
        requires
            old(self).wf(),
        ensures
            final(self).wf(),
            r == (NoteEvent::On { pitch: THRUST_NOTE, velocity: THRUST_VELOCITY }),
            forall|sfx: Sfx| #[trigger] final(self).timer(sfx) == old(self).timer(sfx),
            forall|sfx: Sfx| #[trigger] final(self).engine(sfx) == old(self).engine(sfx),
            final(self).thrust_sent() == old(self).thrust_sent().push(r),
            forall|sfx: Sfx| #[trigger] final(self).sent(sfx) == old(self).sent(sfx),
    {
        let event = NoteEvent::On { pitch: THRUST_NOTE, velocity: THRUST_VELOCITY };
        send_note(&mut self.thrust, event);
        event
    }

    /// Releases the thrust hum; returns the event sent to its engine.
    pub fn stop_thrust(&mut self) -> (r: NoteEvent)
        requires
            old(self).wf(),
        ensures
            final(self).wf(),
            r == (NoteEvent::Off { pitch: THRUST_NOTE }),
            forall|sfx: Sfx| #[trigger] final(self).timer(sfx) == old(self).timer(sfx),
            forall|sfx: Sfx| #[trigger] final(self).engine(sfx) == old(self).engine(sfx),
            final(self).thrust_sent() == old(self).thrust_sent().push(r),
            forall|sfx: Sfx| #[trigger] final(self).sent(sfx) == old(self).sent(sfx),
    {
        let event = NoteEvent::Off { pitch: THRUST_NOTE };
        send_note(&mut self.thrust, event);
        event
    }

    /// Advances both hold timers by one output sample, releasing a note
    /// whose hold has run out; returns the events sent to the fire and the
    /// explosion engine.
    pub fn advance(&mut self) -> (r: (Option<NoteEvent>, Option<NoteEvent>))
        requires
            old(self).wf(),
        ensures
            final(self).wf(),
            old(self).fire_timer().stepped(final(self).fire_timer(), r.0),
            old(self).explosion_timer().stepped(final(self).explosion_timer(), r.1),
            final(self).thrust() == old(self).thrust(),
            final(self).thrust_sent() == old(self).thrust_sent(),
            final(self).sent(Sfx::Fire) == match r.0 {
                Some(e) => old(self).sent(Sfx::Fire).push(e),
                None => old(self).sent(Sfx::Fire),
            },
            final(self).sent(Sfx::Explosion) == match r.1 {
                Some(e) => old(self).sent(Sfx::Explosion).push(e),
                None => old(self).sent(Sfx::Explosion),
            },
    {
        let fire = self.fire.advance();
        let explosion = self.explosion.advance();
        (fire, explosion)
    }

    /// The engine of `sfx`, for drawing its next output sample.
    pub fn effect_engine(&mut self, sfx: Sfx) -> (r: &mut SynthEngine)
        requires
            old(self).wf(),
        ensures
            final(self).wf(),
            *r == old(self).engine(sfx),
            final(self).engine(sfx) == *final(r),
            forall|other: Sfx| other != sfx ==> #[trigger] final(self).engine(other) == old(self).engine(other),
            final(self).thrust() == old(self).thrust(),
            forall|s: Sfx| #[trigger] final(self).timer(s) == old(self).timer(s),
            forall|s: Sfx| #[trigger] final(self).sent(s) == old(self).sent(s),
            final(self).thrust_sent() == old(self).thrust_sent(),
    {
        match sfx {
            Sfx::Fire => self.fire.engine_mut(),
            Sfx::Explosion => self.explosion.engine_mut(),
        }
    }

    /// The thrust hum's engine, for drawing its next output sample.
    pub fn thrust_engine(&mut self) -> (r: &mut SynthEngine)
        requires
            old(self).wf(),
        ensures
            final(self).wf(),
            *r == old(self).thrust(),
            final(self).thrust() == *final(r),
            forall|sfx: Sfx| #[trigger] final(self).engine(sfx) == old(self).engine(sfx),
            forall|s: Sfx| #[trigger] final(self).timer(s) == old(self).timer(s),
            forall|s: Sfx| #[trigger] final(self).sent(s) == old(self).sent(s),
            final(self).thrust_sent() == old(self).thrust_sent(),
    {
        &mut self.thrust.engine
    }
}

/// `states` is what a timer goes through over consecutive output samples,
/// and `events[i]` is what the step from `states[i]` sent.
pub open spec fn step_run(states: Seq<OneShotTimer>, events: Seq<Option<NoteEvent>>) -> bool {
    &&& events.len() + 1 == states.len()
    &&& forall|i: int| 0 <= i < events.len() ==> (#[trigger] states[i]).stepped(states[i + 1], events[i])
}

/// A played effect is released exactly once, on the step after its hold:
/// the `k`-th step after `play` (counting from zero) sends the release
/// exactly when `k` equals the hold length, and sends nothing otherwise.
pub proof fn lemma_release_after_hold(
    played: OneShotTimer,
    states: Seq<OneShotTimer>,
    events: Seq<Option<NoteEvent>>,
    k: int,
)
    requires
        played.is_held(),
        played.remaining() == played.hold_of(),
        states.len() > 0,
        states[0] == played,
        step_run(states, events),
        0 <= k < events.len(),
    ensures
        k == played.hold_of() ==> events[k] == Some(NoteEvent::Off { pitch: played.note_of() }),
        k != played.hold_of() ==> events[k] is None,
{
    lemma_step_run_state(played, states, events, k);
}

/// Where a played timer stands `k` steps later.
proof fn lemma_step_run_state(
    played: OneShotTimer,
    states: Seq<OneShotTimer>,
    events: Seq<Option<NoteEvent>>,
    k: int,
)
    requires
        played.is_held(),
        played.remaining() == played.hold_of(),
        states.len() > 0,
        states[0] == played,
        step_run(states, events),
        0 <= k < states.len(),
    ensures
        states[k].note_of() == played.note_of(),
        k <= played.hold_of() ==> states[k].is_held() && states[k].remaining() == played.hold_of() - k,
        k > played.hold_of() ==> !states[k].is_held(),
    decreases k,
{
    if k > 0 {
        lemma_step_run_state(played, states, events, k - 1);
        assert(states[k - 1].stepped(states[k], events[k - 1]));
    }
}

} // verus!
