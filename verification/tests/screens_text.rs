use ruefi::keys::{Key, CHAR_ENTER, SCAN_DOWN, SCAN_ESCAPE, SCAN_LEFT, SCAN_RIGHT, SCAN_UP};
use ruefi::screens::{
    app_binding, human_size, menu_key, move_selection, table_key, Binding, EnterAction, MenuState, NavStep,
    TableNav,
};
use ruefi::text::{printable, push_decimal, push_hex, push_padded, str_eq, str_starts_with};

/// The float formatting the size column is defined by.
fn float_human_size(bytes: u64) -> String {
    const UNITS: [&str; 5] = ["B", "kB", "MB", "GB", "TB"];
    let mut size = bytes as f64;
    let mut unit = 0;
    while size >= 1024.0 && unit < UNITS.len() - 1 {
        size /= 1024.0;
        unit += 1;
    }
    if unit == 0 {
        format!("{bytes} {}", UNITS[0])
    } else {
        format!("{size:.1} {}", UNITS[unit])
    }
}

#[test]
fn human_size_examples() {
    assert_eq!(human_size(0), "0 B");
    assert_eq!(human_size(1023), "1023 B");
    assert_eq!(human_size(1024), "1.0 kB");
    assert_eq!(human_size(1536), "1.5 kB");
    assert_eq!(human_size(4 * 1024 * 1024), "4.0 MB");
    assert_eq!(human_size(u64::MAX), "16777216.0 TB");
}

#[test]
fn human_size_matches_float_formatting_on_small_sizes() {
    for bytes in 0..2_000_000u64 {
        assert_eq!(human_size(bytes), float_human_size(bytes), "bytes = {bytes}");
    }
}

#[test]
fn human_size_matches_float_formatting_near_unit_edges() {
    for unit in 1..5u32 {
        let scale = 1u64 << (10 * unit);
        for mult in [1u64, 2, 3, 10, 100, 1000, 1023, 1024, 1025] {
            let centre = scale.saturating_mul(mult);
            for delta in 0..2000u64 {
                for b in [centre.saturating_sub(delta), centre.saturating_add(delta)] {
                    assert_eq!(human_size(b), float_human_size(b), "bytes = {b}");
                }
            }
            // Values whose tenths land exactly on a half.
            for k in 0..200u64 {
                let b = scale.saturating_mul(mult).saturating_add(scale / 20 * (2 * k + 1));
                assert_eq!(human_size(b), float_human_size(b), "bytes = {b}");
            }
        }
    }
}

#[test]
fn human_size_matches_float_formatting_on_scattered_sizes() {
    let mut x: u64 = 0x9E37_79B9_7F4A_7C15;
    for _ in 0..200_000 {
        x ^= x << 13;
        x ^= x >> 7;
        x ^= x << 17;
        let shift = (x % 64) as u32;
        let b = x >> shift;
        assert_eq!(human_size(b), float_human_size(b), "bytes = {b}");
    }
}

#[test]
fn move_selection_clamps_to_the_table() {
    assert_eq!(move_selection(None, 1, 0), None);
    assert_eq!(move_selection(Some(3), -1, 0), None);
    assert_eq!(move_selection(None, 1, 5), Some(1));
    assert_eq!(move_selection(None, -1, 5), Some(0));
    assert_eq!(move_selection(Some(4), 1, 5), Some(4));
    assert_eq!(move_selection(Some(2), -1, 5), Some(1));
    assert_eq!(move_selection(Some(9), 0, 5), Some(4));
}

#[test]
fn app_binding_cycles_tabs_and_quits() {
    assert_eq!(app_binding(0, 6, Key::Special(SCAN_RIGHT)), Binding::SwitchTab(1));
    assert_eq!(app_binding(5, 6, Key::Special(SCAN_RIGHT)), Binding::SwitchTab(0));
    assert_eq!(app_binding(0, 6, Key::Special(SCAN_LEFT)), Binding::SwitchTab(5));
    assert_eq!(app_binding(3, 6, Key::Special(SCAN_LEFT)), Binding::SwitchTab(2));
    assert_eq!(app_binding(3, 6, Key::Special(SCAN_ESCAPE)), Binding::Quit);
    assert_eq!(app_binding(3, 6, Key::Printable('q' as u16)), Binding::Quit);
    assert_eq!(app_binding(3, 6, Key::Printable('Q' as u16)), Binding::Forward);
    assert_eq!(app_binding(3, 6, Key::Special(SCAN_UP)), Binding::Forward);
}

#[test]
fn tab_cycle_right_then_left_returns() {
    for count in 1..8usize {
        for tab in 0..count {
            let Binding::SwitchTab(t) = app_binding(tab, count, Key::Special(SCAN_RIGHT)) else {
                panic!("right arrow must switch tabs");
            };
            assert_eq!(app_binding(t, count, Key::Special(SCAN_LEFT)), Binding::SwitchTab(tab));
        }
    }
}

#[test]
fn table_key_moves_and_closes_details() {
    let nav = TableNav { selected: Some(2), open: true };
    let step = table_key(nav, 5, Key::Special(SCAN_DOWN), EnterAction::ToggleDetail);
    assert_eq!(step, NavStep { next: TableNav { selected: Some(3), open: false }, fetch: None });
    let step = table_key(nav, 5, Key::Special(SCAN_UP), EnterAction::Nothing);
    assert_eq!(step, NavStep { next: TableNav { selected: Some(1), open: false }, fetch: None });
    let step = table_key(nav, 0, Key::Special(SCAN_UP), EnterAction::Nothing);
    assert_eq!(step.next.selected, None);
}

#[test]
fn table_key_enter_toggles_or_fetches() {
    let closed = TableNav { selected: Some(1), open: false };
    let open = TableNav { selected: Some(1), open: true };
    let enter = Key::Printable(CHAR_ENTER);
    assert_eq!(table_key(closed, 3, enter, EnterAction::ToggleDetail).next.open, true);
    assert_eq!(table_key(open, 3, enter, EnterAction::ToggleDetail).next.open, false);
    assert_eq!(table_key(closed, 3, enter, EnterAction::ToggleDump), NavStep { next: closed, fetch: Some(1) });
    assert_eq!(
        table_key(open, 3, enter, EnterAction::ToggleDump),
        NavStep { next: TableNav { selected: Some(1), open: false }, fetch: None }
    );
    assert_eq!(table_key(closed, 1, enter, EnterAction::ToggleDump).fetch, None);
    assert_eq!(table_key(closed, 3, enter, EnterAction::Nothing), NavStep { next: closed, fetch: None });
    assert_eq!(table_key(closed, 3, Key::Printable('x' as u16), EnterAction::ToggleDump).fetch, None);
}

#[test]
fn menu_counts_greetings_and_resets() {
    let start = MenuState { selected: 0, counter: 0, message: String::from("start") };
    let down = menu_key(start, Key::Special(SCAN_DOWN));
    assert_eq!(down.selected, 1);
    assert_eq!(down.message, "start");
    let hello = menu_key(down, Key::Printable(CHAR_ENTER));
    assert_eq!(hello.counter, 1);
    assert_eq!(hello.message, "Hello from ruefi!");
    let hello = menu_key(hello, Key::Printable(CHAR_ENTER));
    assert_eq!(hello.counter, 2);
    let bottom = menu_key(menu_key(hello, Key::Special(SCAN_DOWN)), Key::Special(SCAN_DOWN));
    assert_eq!(bottom.selected, 2);
    let nothing = menu_key(bottom, Key::Printable(CHAR_ENTER));
    assert_eq!(nothing.message, "Nothing happened");
    assert_eq!(nothing.counter, 2);
    let top = menu_key(menu_key(menu_key(nothing, Key::Special(SCAN_UP)), Key::Special(SCAN_UP)), Key::Special(SCAN_UP));
    assert_eq!(top.selected, 0);
    let reset = menu_key(top, Key::Printable(CHAR_ENTER));
    assert_eq!(reset.counter, 0);
    assert_eq!(reset.message, "Counter reset");
}

#[test]
fn number_writers_match_format() {
    for n in [0u64, 7, 10, 255, 4096, 0xdead_beef, u64::MAX] {
        let mut s = String::new();
        push_decimal(&mut s, n);
        assert_eq!(s, format!("{n}"));
        let mut s = String::new();
        push_hex(&mut s, n, 6);
        assert_eq!(s, format!("{n:06x}"));
        let mut s = String::new();
        push_padded(&mut s, n, 10, 8, ' ');
        assert_eq!(s, format!("{n:>8}"));
    }
}

#[test]
fn string_helpers() {
    assert!(str_eq("Boot0001", "Boot0001"));
    assert!(!str_eq("Boot0001", "Boot0002"));
    assert!(!str_eq("Boot", "Boot0002"));
    assert!(str_starts_with("Boot0001", "Boot"));
    assert!(!str_starts_with("Bo", "Boot"));
    assert_eq!(printable(b'A'), 'A');
    assert_eq!(printable(b' '), ' ');
    assert_eq!(printable(0x7f), '.');
    assert_eq!(printable(0x00), '.');
}
