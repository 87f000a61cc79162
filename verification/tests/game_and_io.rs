use ruefi::console::{batch_runs, console_color, needs_color_change, rgb, ucs2_code, ConsoleCell, ConsoleColor, TermColor};
use ruefi::display::{pack, MinifbDisplay};
use ruefi::game::{resolve_hits, write_score, AsteroidSize, Rng};
use ruefi::gop::{text_grid, GopDisplay, RowCopy};
use ruefi::input::{
    desktop_state, InputSource, InputState, KeyboardReading, PadReading, UefiInput, HOLD_GRACE_TICKS,
};
use ruefi::keys::{Key, CHAR_SPACE, SCAN_DOWN, SCAN_LEFT, SCAN_RIGHT, SCAN_UP};
use ruefi::sfx::{NoteEvent, OneShotTimer, Sfx, ONE_SHOT_VELOCITY, THRUST_NOTE};
use ruefi::widgets::hex_dump::{HexDump, HexStyle};

#[test]
fn input_starts_idle() {
    let mut input = UefiInput::new();
    assert_eq!(input.poll(), InputState::default());
    assert_eq!(input.tick_count(), 1);
}

#[test]
fn fire_is_reported_by_exactly_one_poll() {
    let mut input = UefiInput::new();
    input.key_event(Key::Printable(CHAR_SPACE));
    assert!(input.poll().fire);
    assert!(!input.poll().fire);
    input.key_event(Key::Printable(CHAR_SPACE));
    input.key_event(Key::Printable(CHAR_SPACE));
    assert!(input.poll().fire);
    assert!(!input.poll().fire);
}

#[test]
fn held_keys_last_for_the_grace_period() {
    let mut input = UefiInput::new();
    input.poll();
    input.key_event(Key::Special(SCAN_LEFT));
    input.key_event(Key::Special(SCAN_UP));
    for k in 0..HOLD_GRACE_TICKS {
        let s = input.poll();
        assert!(s.left && s.thrust && !s.right, "poll {k} after the keystroke");
    }
    let s = input.poll();
    assert!(!s.left && !s.thrust);
    assert!(!input.poll().left);
}

#[test]
fn a_left_keystroke_holds_for_eleven_polls() {
    let mut input = UefiInput::new();
    input.key_event(Key::Special(SCAN_LEFT));
    for poll in 1..=11 {
        let s = input.poll();
        assert!(s.left && !s.right && !s.thrust && !s.fire, "poll {poll}");
    }
    for _ in 0..5 {
        assert_eq!(input.poll(), InputState::default());
    }
}

#[test]
fn repeats_extend_the_hold_and_other_keys_are_ignored() {
    let mut input = UefiInput::new();
    input.key_event(Key::Special(SCAN_RIGHT));
    for _ in 0..5 {
        assert!(input.poll().right);
    }
    input.key_event(Key::Special(SCAN_RIGHT));
    for _ in 0..HOLD_GRACE_TICKS {
        assert!(input.poll().right);
    }
    assert!(!input.poll().right);
    input.key_event(Key::Special(SCAN_DOWN));
    input.key_event(Key::Printable('q' as u16));
    assert_eq!(input.poll(), InputState::default());
}

#[test]
fn desktop_keyboard_and_pad_are_combined() {
    let keys = KeyboardReading { left: true, right: false, up: false, space: false };
    let pad = PadReading { dpad_left: false, dpad_right: true, dpad_up: false, south: true, east: false, right_trigger2: true };
    assert_eq!(desktop_state(keys, None), InputState { left: true, right: false, thrust: false, fire: false });
    assert_eq!(desktop_state(keys, Some(pad)), InputState { left: true, right: true, thrust: true, fire: true });
    let idle = KeyboardReading { left: false, right: false, up: false, space: false };
    let idle_pad = PadReading { dpad_left: false, dpad_right: false, dpad_up: false, south: false, east: false, right_trigger2: false };
    assert_eq!(desktop_state(idle, Some(idle_pad)), InputState::default());
}

#[test]
fn rng_is_the_xorshift_sequence() {
    let mut rng = Rng::new(0x2545F4);
    assert_eq!(rng.next_u32(), 0xbbed_86b8);
    assert_eq!(rng.next_u32(), 0x6c6a_e785);
    assert_eq!(rng.next_u32(), 0x23d1_a6c8);
    let mut zero = Rng::new(0);
    assert_eq!(zero.next_u32(), 0x0004_2021);
    for _ in 0..10_000 {
        assert_ne!(zero.next_u32(), 0);
    }
}

#[test]
fn asteroid_sizes_split_and_score() {
    assert_eq!(AsteroidSize::Large.score(), 20);
    assert_eq!(AsteroidSize::Medium.score(), 50);
    assert_eq!(AsteroidSize::Small.score(), 100);
    assert_eq!(AsteroidSize::Large.smaller(), Some(AsteroidSize::Medium));
    assert_eq!(AsteroidSize::Medium.smaller(), Some(AsteroidSize::Small));
    assert_eq!(AsteroidSize::Small.smaller(), None);
}

#[test]
fn score_line_is_written_into_the_buffer() {
    let mut buf = [b'#'; 24];
    let len = write_score(&mut buf, 1234);
    assert_eq!(&buf[..len], b"Score: 1234");
    assert!(buf[len..].iter().all(|&b| b == b'#'));
    let len = write_score(&mut buf, u32::MAX);
    assert_eq!(std::str::from_utf8(&buf[..len]).unwrap(), "Score: 4294967295");
    let len = write_score(&mut buf, 0);
    assert_eq!(&buf[..len], b"Score: 0");
}

#[test]
fn one_shot_releases_after_its_hold() {
    assert_eq!(Sfx::Fire.note(), 84);
    assert_eq!(Sfx::Explosion.note(), 38);
    assert_eq!(THRUST_NOTE, 33);
    let mut t = OneShotTimer::new(Sfx::Explosion, 3);
    assert_eq!(t.step(), None);
    assert_eq!(t.play(), NoteEvent::On { pitch: 38, velocity: ONE_SHOT_VELOCITY });
    let events: Vec<Option<NoteEvent>> = (0..6).map(|_| t.step()).collect();
    assert_eq!(events, vec![None, None, None, Some(NoteEvent::Off { pitch: 38 }), None, None]);
    t.play();
    t.step();
    t.play();
    let events: Vec<Option<NoteEvent>> = (0..5).map(|_| t.step()).collect();
    assert_eq!(events, vec![None, None, None, Some(NoteEvent::Off { pitch: 38 }), None]);
}

#[test]
fn minifb_buffer_draws_and_fills_with_clipping() {
    assert_eq!(pack(0x12, 0x34, 0x56), 0x0012_3456);
    let mut d = MinifbDisplay::new(4, 3);
    assert_eq!(d.size(), (4, 3));
    d.draw_pixel(1, 2, 7);
    d.draw_pixel(-1, 0, 9);
    d.draw_pixel(4, 0, 9);
    assert_eq!(d.buffer()[2 * 4 + 1], 7);
    d.fill_solid(-2, -1, 4, 3, 5);
    assert_eq!(d.buffer(), &[5, 5, 0, 0, 5, 5, 0, 0, 0, 7, 0, 0]);
    d.fill_solid(2, 1, 100, 100, 1);
    assert_eq!(d.buffer(), &[5, 5, 0, 0, 5, 5, 1, 1, 0, 7, 1, 1]);
    d.fill_solid(0, 5, 4, 1, 9);
    assert_eq!(d.buffer(), &[5, 5, 0, 0, 5, 5, 1, 1, 0, 7, 1, 1]);
    d.fill_solid(10, 0, 2, 2, 9);
    d.fill_solid(-5, 0, 2, 2, 9);
    assert_eq!(d.buffer(), &[5, 5, 0, 0, 5, 5, 1, 1, 0, 7, 1, 1]);
}

#[test]
fn gop_buffer_honours_channel_order() {
    let mut bgr = GopDisplay::new(2, 2, 2, true);
    bgr.draw_pixel(1, 0, 0x11, 0x22, 0x33);
    assert_eq!(&bgr.buffer()[4..8], &[0x33, 0x22, 0x11, 0]);
    let mut rgb_display = GopDisplay::new(2, 2, 2, false);
    rgb_display.draw_pixel(1, 0, 0x11, 0x22, 0x33);
    assert_eq!(&rgb_display.buffer()[4..8], &[0x11, 0x22, 0x33, 0]);
    rgb_display.fill_solid(0, 1, 1, 1, 0x80, 0x80, 0x80);
    assert_eq!(&rgb_display.buffer()[8..12], &[0x80, 0x80, 0x80, 0x80]);
    rgb_display.fill_solid(1, 1, 5, 5, 0x01, 0x02, 0x03);
    assert_eq!(&rgb_display.buffer()[12..16], &[0x01, 0x02, 0x03, 0]);
    assert_eq!(&rgb_display.buffer()[8..12], &[0x80, 0x80, 0x80, 0x80]);
}

#[test]
fn gop_present_copies_rows_to_the_stride() {
    let packed = GopDisplay::new(3, 2, 3, true);
    assert_eq!(packed.present_plan(), vec![RowCopy { src: 0, dst: 0, len: 24 }]);
    let padded = GopDisplay::new(3, 2, 4, true);
    assert_eq!(
        padded.present_plan(),
        vec![RowCopy { src: 0, dst: 0, len: 12 }, RowCopy { src: 12, dst: 16, len: 12 }]
    );
    assert_eq!(text_grid(800, 600), (133, 60));
}

#[test]
fn terminal_colours_map_to_console_and_rgb() {
    assert_eq!(console_color(TermColor::Reset), ConsoleColor::Black);
    assert_eq!(console_color(TermColor::Yellow), ConsoleColor::Brown);
    assert_eq!(console_color(TermColor::LightYellow), ConsoleColor::Yellow);
    assert_eq!(console_color(TermColor::Gray), ConsoleColor::LightGray);
    assert_eq!(console_color(TermColor::Rgb(1, 2, 3)), ConsoleColor::White);
    assert_eq!(rgb(TermColor::Rgb(1, 2, 3)), (1, 2, 3));
    assert_eq!(rgb(TermColor::Yellow), (170, 85, 0));
    assert_eq!(rgb(TermColor::Indexed(4)), (255, 255, 255));
    assert_eq!(ucs2_code('A'), 0x41);
    assert_eq!(ucs2_code('\u{2191}'), 0x2191);
    assert_eq!(ucs2_code('\u{1F600}'), 0x3f);
    assert!(needs_color_change(None, ConsoleColor::White, ConsoleColor::Black));
    assert!(!needs_color_change(Some((ConsoleColor::White, ConsoleColor::Black)), ConsoleColor::White, ConsoleColor::Black));
    assert!(needs_color_change(Some((ConsoleColor::White, ConsoleColor::Black)), ConsoleColor::White, ConsoleColor::Blue));
}

fn cell(x: u16, y: u16, fg: ConsoleColor, code: u8) -> ConsoleCell {
    ConsoleCell { x, y, fg, bg: ConsoleColor::Black, code: code as u16 }
}

#[test]
fn console_cells_are_batched_into_runs() {
    let w = ConsoleColor::White;
    let c = ConsoleColor::Cyan;
    let cells = vec![
        cell(0, 0, w, b'a'),
        cell(1, 0, w, b'b'),
        cell(2, 0, c, b'c'),
        cell(4, 0, c, b'd'),
        cell(5, 0, c, b'e'),
        cell(0, 1, c, b'f'),
    ];
    let runs = batch_runs(&cells);
    let shape: Vec<(u16, u16, Vec<u16>)> = runs.iter().map(|r| (r.x, r.y, r.text.clone())).collect();
    assert_eq!(
        shape,
        vec![
            (0, 0, vec![0x61, 0x62]),
            (2, 0, vec![0x63]),
            (4, 0, vec![0x64, 0x65]),
            (0, 1, vec![0x66]),
        ]
    );
    assert_eq!(runs[1].fg, ConsoleColor::Cyan);
    assert!(batch_runs(&[]).is_empty());
}

#[test]
fn console_runs_are_capped() {
    let cells: Vec<ConsoleCell> = (0..600u16).map(|x| cell(x, 0, ConsoleColor::White, b'x')).collect();
    let runs = batch_runs(&cells);
    let lens: Vec<usize> = runs.iter().map(|r| r.text.len()).collect();
    assert_eq!(lens, vec![255, 255, 90]);
    assert_eq!((runs[1].x, runs[2].x), (255, 510));
    let total: Vec<u16> = runs.iter().flat_map(|r| r.text.iter().copied()).collect();
    assert_eq!(total.len(), 600);
}

#[test]
fn hex_dump_rows_are_laid_out_like_xxd() {
    let data: Vec<u8> = (0u8..20).map(|i| if i == 1 { 0 } else { i + 0x40 }).collect();
    let dump = HexDump::new(&data).base(0x100);
    assert_eq!(dump.rows(), 2);
    let row = dump.row_spans(0);
    assert_eq!(row.len(), 17 + 16);
    assert_eq!((row[0].x, row[0].text.as_str(), row[0].style), (0, "000100  ", HexStyle::Address));
    assert_eq!((row[1].x, row[1].text.as_str(), row[1].style), (8, "40 ", HexStyle::Hex));
    assert_eq!((row[2].x, row[2].text.as_str(), row[2].style), (11, "00 ", HexStyle::Zero));
    assert_eq!(row[8].x, 8 + 21);
    assert_eq!(row[9].x, 8 + 25);
    assert_eq!((row[17].x, row[17].text.as_str(), row[17].style), (58, "@", HexStyle::Ascii));
    assert_eq!(row[18].text, ".");
    let last = dump.row_spans(1);
    assert_eq!(last.len(), 17 + 4);
    assert_eq!(last[0].text, "000110  ");
    assert_eq!((last[5].text.as_str(), last[5].style), ("   ", HexStyle::Address));
    assert_eq!(last[20].text, "S");
    assert_eq!(HexDump::new(&[]).rows(), 0);
}

#[test]
fn a_burst_of_fire_presses_is_reported_once() {
    let mut input = UefiInput::new();
    input.key_event(Key::Printable(CHAR_SPACE));
    input.key_event(Key::Printable(CHAR_SPACE));
    assert!(input.poll().fire);
    assert!(!input.poll().fire);
    input.key_event(Key::Special(SCAN_LEFT));
    assert!(!input.poll().fire);
}

#[test]
fn each_bullet_destroys_at_most_one_asteroid() {
    let sizes = [AsteroidSize::Large, AsteroidSize::Small, AsteroidSize::Medium];
    // Bullet 0 touches asteroids 0 and 1; bullet 1 touches asteroids 1 and 2.
    let touching = vec![vec![true, false], vec![true, true], vec![false, true]];
    let hits = resolve_hits(&sizes, &touching, 2);
    assert_eq!(hits.destroyed_by, vec![Some(0), Some(1), None]);
    assert_eq!(hits.spent, vec![true, true]);
    assert_eq!(hits.points, 20 + 100);
    let none = resolve_hits(&sizes, &[vec![], vec![], vec![]], 0);
    assert_eq!(none.destroyed_by, vec![None, None, None]);
    assert_eq!(none.points, 0);
}
