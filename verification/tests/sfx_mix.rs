use ruefi::sfx::{GameSynth, NoteEvent, Sfx, Timbre, ONE_SHOT_VELOCITY, THRUST_NOTE, THRUST_TIMBRE, THRUST_VELOCITY};
use wavesynth::engine::SynthEngine;
use wavesynth::instrument::Instrument;

const SAMPLE_RATE: f32 = 48_000.0;

fn instrument(timbre: Timbre) -> Instrument {
    match timbre {
        Timbre::SquareLead => Instrument::SquareLead,
        Timbre::SawBass => Instrument::SawBass,
    }
}

fn engine(timbre: Timbre) -> SynthEngine {
    SynthEngine::new(SAMPLE_RATE, 1, instrument(timbre))
}

fn new_synth() -> GameSynth {
    GameSynth::new(
        engine(Sfx::Fire.timbre()),
        engine(Sfx::Explosion.timbre()),
        engine(THRUST_TIMBRE),
        (0.05 * SAMPLE_RATE) as u32,
        (0.15 * SAMPLE_RATE) as u32,
    )
}

fn next_sample(synth: &mut GameSynth) -> f32 {
    synth.advance();
    let fire = synth.effect_engine(Sfx::Fire).next_sample();
    let explosion = synth.effect_engine(Sfx::Explosion).next_sample();
    let thrust = synth.thrust_engine().next_sample();
    (fire + explosion + thrust) / 3.0
}

fn peak_abs(synth: &mut GameSynth, samples: usize) -> f32 {
    (0..samples).map(|_| next_sample(synth).abs()).fold(0.0f32, f32::max)
}

#[test]
fn silent_when_nothing_is_playing() {
    let mut synth = new_synth();
    assert_eq!(peak_abs(&mut synth, 1000), 0.0);
}

#[test]
fn fire_produces_sound_and_then_decays_to_silence() {
    let mut synth = new_synth();
    synth.play(Sfx::Fire);
    assert!(peak_abs(&mut synth, 100) > 0.01, "fire should be audible right after play()");

    // Run well past the hold time and the instrument's release tail.
    peak_abs(&mut synth, SAMPLE_RATE as usize);
    assert_eq!(peak_abs(&mut synth, 1000), 0.0, "fire should be silent long after it ends");
}

#[test]
fn explosion_produces_sound() {
    let mut synth = new_synth();
    synth.play(Sfx::Explosion);
    assert!(peak_abs(&mut synth, 100) > 0.01);
}

#[test]
fn thrust_sustains_until_stopped() {
    let mut synth = new_synth();
    synth.start_thrust();
    assert!(
        peak_abs(&mut synth, (SAMPLE_RATE * 0.5) as usize) > 0.01,
        "thrust should still be audible after half a second"
    );

    synth.stop_thrust();
    peak_abs(&mut synth, SAMPLE_RATE as usize); // let the release tail finish
    assert_eq!(peak_abs(&mut synth, 1000), 0.0, "thrust should be silent well after stop_thrust()");
}

#[test]
fn fire_and_thrust_mix_together() {
    let mut synth = new_synth();
    synth.start_thrust();
    peak_abs(&mut synth, 100);
    synth.play(Sfx::Fire);
    assert!(peak_abs(&mut synth, 100) > 0.01, "both sounds mixed should still be audible");
}

#[test]
fn effects_use_their_instruments() {
    assert_eq!(Sfx::Fire.timbre(), Timbre::SquareLead);
    assert_eq!(Sfx::Explosion.timbre(), Timbre::SawBass);
    assert_eq!(THRUST_TIMBRE, Timbre::SawBass);
}

#[test]
fn synth_reports_the_events_it_sends() {
    let mut synth = new_synth();
    assert_eq!(synth.play(Sfx::Fire), NoteEvent::On { pitch: 84, velocity: ONE_SHOT_VELOCITY });
    assert_eq!(synth.play(Sfx::Explosion), NoteEvent::On { pitch: 38, velocity: ONE_SHOT_VELOCITY });
    assert_eq!(synth.start_thrust(), NoteEvent::On { pitch: THRUST_NOTE, velocity: THRUST_VELOCITY });
    assert_eq!(synth.stop_thrust(), NoteEvent::Off { pitch: THRUST_NOTE });
}

#[test]
fn fire_is_released_after_its_hold() {
    let mut synth = new_synth();
    synth.play(Sfx::Fire);
    // 0.05 s at 48 kHz is 2400 samples of hold; the release comes on the next step.
    for _ in 0..2400 {
        assert_eq!(synth.advance(), (None, None));
    }
    assert_eq!(synth.advance(), (Some(NoteEvent::Off { pitch: 84 }), None));
    assert_eq!(synth.advance(), (None, None));
}

#[test]
fn replaying_restarts_the_hold() {
    let mut synth = new_synth();
    synth.play(Sfx::Explosion);
    for _ in 0..100 {
        synth.advance();
    }
    synth.play(Sfx::Explosion);
    for _ in 0..7200 {
        assert_eq!(synth.advance(), (None, None));
    }
    assert_eq!(synth.advance(), (None, Some(NoteEvent::Off { pitch: 38 })));
}
