use atomr_worlds_client::harness::{
    drive_input_events, key_from_name, screenshots_due, ExitDecision, HarnessClock, HarnessState, Scenario,
    ScenarioEvent, ScriptedInput, DEADLINE_FRAMES,
};
use atomr_worlds_client::input::KeyCode;
use atomr_worlds_client::measure::Real32;
use atomr_worlds_client::view_mode::ViewMode;
use atomr_worlds_client::xwd::{mask_to_shift, parse_xwd_to_rgba, xwd_is_decodable, XwdError};

fn event(frame: u64, kind: &str, key: Option<&str>) -> ScenarioEvent {
    ScenarioEvent {
        frame,
        kind: String::from(kind),
        key: key.map(String::from),
        dx: None,
        dy: None,
        note: None,
    }
}

fn scenario(warmup_frames: u64, events: Vec<ScenarioEvent>) -> Scenario {
    Scenario { warmup_frames, events, ..Scenario::default() }
}

fn r(v: f32) -> Real32 {
    Real32::from_bits(v.to_bits())
}

#[test]
fn a_scenario_has_defaults() {
    let s = Scenario::default();
    assert_eq!(s.seed, "0xDEADBEEFCAFEF00D");
    assert_eq!((s.width, s.height, s.warmup_frames), (1280, 720, 60));
    assert_eq!(s.output_prefix, "shot");
    assert_eq!(s.initial_view_mode(), ViewMode::Fp);
    assert_eq!(s.last_event_frame(), 0);
    let view = |m: &str| Scenario { mode: String::from(m), ..Scenario::default() }.initial_view_mode();
    assert_eq!(view("tp"), ViewMode::Tp);
    assert_eq!(view("slice"), ViewMode::Slice);
    assert_eq!(view("rts"), ViewMode::Rts);
    assert_eq!(view("overview"), ViewMode::Overview);
    assert_eq!(view("TP"), ViewMode::Fp);
}

#[test]
fn taps_are_split_delayed_and_sorted() {
    let s = Scenario::load(scenario(
        10,
        vec![
            event(9, "screenshot", None),
            event(2, "key_tap", Some("KeyW")),
            event(2, "exit", None),
        ],
    ))
    .unwrap();
    let got: Vec<(u64, &str)> = s.events.iter().map(|e| (e.frame, e.kind.as_str())).collect();
    assert_eq!(
        got,
        vec![(12, "key_press"), (12, "exit"), (13, "key_release"), (19, "screenshot")]
    );
    assert_eq!(s.last_event_frame(), 19);
    assert!(matches!(drive_input_events(&s, 12)[..], [ScriptedInput::Press(KeyCode::KeyW)]));
    assert!(matches!(drive_input_events(&s, 13)[..], [ScriptedInput::Release(KeyCode::KeyW)]));
    assert!(drive_input_events(&s, 14).is_empty());
    assert_eq!((screenshots_due(&s, 19), screenshots_due(&s, 18)), (1, 0));
}

#[test]
fn a_mouse_move_may_leave_out_an_axis() {
    let mut ev = event(1, "mouse_move", None);
    ev.dy = Some(r(-2.5));
    let s = Scenario::load(scenario(0, vec![ev])).unwrap();
    let inputs = drive_input_events(&s, 1);
    let ScriptedInput::Move { dx, dy } = &inputs[0] else { panic!("a move") };
    assert_eq!((*dx, *dy), (r(0.0), r(-2.5)));
}

#[test]
fn frames_stay_in_range() {
    let s = Scenario::load(scenario(10, vec![event(u64::MAX, "key_tap", Some("Tab"))])).unwrap();
    assert!(s.events.iter().all(|e| e.frame == u64::MAX));
}

#[test]
fn the_first_faulty_event_is_named() {
    let load = |ev: ScenarioEvent| Scenario::load(scenario(0, vec![event(0, "exit", None), ev])).unwrap_err();
    assert_eq!(load(event(1, "key_press", None)), "event #1 (key_press): missing `key`");
    assert_eq!(load(event(1, "key_tap", Some("KeyÄ"))), "event #1 (key_tap): unknown key `KeyÄ`");
    assert_eq!(
        load(event(1, "mouse_move", None)),
        "event #1 (mouse_move): at least one of `dx`/`dy` required"
    );
    assert_eq!(load(event(1, "jump", None)), "event #1: unknown kind `jump`");
    assert_eq!(key_from_name("Space"), Some(KeyCode::Space));
    assert_eq!(key_from_name("space"), None);
}

#[test]
fn shots_are_numbered_and_the_run_ends() {
    let s = Scenario::load(scenario(0, vec![event(3, "screenshot", None), event(3, "exit", None)])).unwrap();
    let mut state = HarnessState::new(&s);
    assert_eq!(state.deadline, 3 + DEADLINE_FRAMES);
    assert_eq!(state.next_shot_name("shot"), "shot_0000.png");
    state.record_shot(String::from("a"), false);
    assert_eq!(state.next_shot_name("shot"), "shot_0000.png");
    state.record_shot(String::from("a"), true);
    assert_eq!(state.next_shot_name("x/y"), "x/y_0001.png");
    assert_eq!(state.paths, vec![String::from("a")]);
    assert!(matches!(state.drive_exit(&s, 2), ExitDecision::Continue));
    assert!(!state.exit_requested);
    assert!(matches!(state.drive_exit(&s, 3), ExitDecision::Continue));
    assert!(state.exit_requested);
    assert!(matches!(state.drive_exit(&s, 7), ExitDecision::Continue));
    assert!(matches!(state.drive_exit(&s, 8), ExitDecision::Exit));
    let endless = Scenario::load(scenario(0, vec![event(3, "screenshot", None)])).unwrap();
    let mut state = HarnessState::new(&endless);
    assert!(matches!(state.drive_exit(&endless, 603), ExitDecision::Continue));
    assert!(matches!(state.drive_exit(&endless, 604), ExitDecision::ForcedExit));
    let mut clock = HarnessClock::default();
    clock.tick_clock();
    assert_eq!(clock.frame, 1);
    clock.frame = u64::MAX;
    clock.tick_clock();
    assert_eq!(clock.frame, 0);
}

/// A dump of two pixels: 32 bits each, least significant byte first.
fn dump() -> Vec<u8> {
    let mut words = [0u32; 25];
    words[0] = 100;
    words[1] = 7;
    words[2] = 2;
    words[3] = 24;
    words[4] = 2;
    words[5] = 1;
    words[7] = 0;
    words[11] = 32;
    words[12] = 8;
    words[14] = 0xff0000;
    words[15] = 0x00ff00;
    words[16] = 0x0000ff;
    words[19] = 1;
    let mut b: Vec<u8> = words.iter().flat_map(|w| w.to_be_bytes()).collect();
    b.extend([0u8; 12]);
    b.extend([0x30, 0x20, 0x10, 0x00, 0x03, 0x02, 0x01, 0x00]);
    b
}

fn with_word(index: usize, value: u32) -> Vec<u8> {
    let mut b = dump();
    b[4 * index..4 * index + 4].copy_from_slice(&value.to_be_bytes());
    b
}

fn fault(b: &[u8]) -> XwdError {
    assert!(xwd_is_decodable(b));
    parse_xwd_to_rgba(b).err().expect("a faulty dump")
}

#[test]
fn a_dump_is_decoded() {
    let b = dump();
    assert!(xwd_is_decodable(&b));
    let picture = parse_xwd_to_rgba(&b).ok().expect("a whole dump");
    assert_eq!(picture.into_parts(), (2, 1, vec![0x10, 0x20, 0x30, 255, 1, 2, 3, 255]));
    let msb = with_word(7, 1);
    let picture = parse_xwd_to_rgba(&msb).ok().unwrap();
    assert_eq!(picture.into_parts().2, vec![0x20, 0x10, 0x00, 255, 2, 1, 0, 255]);
}

#[test]
fn a_dump_of_three_byte_pixels_is_decoded() {
    let mut b = with_word(11, 24);
    let stride = 12 * 4;
    b[stride..stride + 4].copy_from_slice(&6u32.to_be_bytes());
    let picture = parse_xwd_to_rgba(&b).ok().unwrap();
    assert_eq!(picture.into_parts().2, vec![0x10, 0x20, 0x30, 255, 2, 3, 0, 255]);
}

#[test]
fn faulty_dumps_are_refused() {
    assert_eq!(fault(&[0; 99]), XwdError::TooShort { len: 99 });
    assert_eq!(fault(&[0; 99]).message(), "xwd buffer too short: 99 bytes");
    assert_eq!(fault(&with_word(1, 6)).message(), "unsupported xwd file_version 6");
    assert_eq!(fault(&with_word(2, 1)).message(), "unsupported pixmap_format 1 (need 2=ZPixmap)");
    assert_eq!(fault(&with_word(3, 16)).message(), "unsupported pixmap_depth 16 (need 24 or 32)");
    assert_eq!(fault(&with_word(11, 16)).message(), "unsupported bits_per_pixel 16 (need 24 or 32)");
    assert_eq!(fault(&with_word(19, 99)).message(), "xwd buffer truncated before pixel data");
    assert_eq!(
        fault(&with_word(5, 2)).message(),
        "xwd pixel data short: have 8, need 16 (2x2 stride 8 bpp 32)"
    );
    assert_eq!(fault(&with_word(15, 0)), XwdError::ZeroMask);
    assert_eq!(mask_to_shift(0x00ff00), Ok(8));
    assert_eq!(mask_to_shift(0), Err(XwdError::ZeroMask));
    assert!(!xwd_is_decodable(&with_word(4, 3)));
    let overlapping = with_word(12, 4);
    assert!(xwd_is_decodable(&overlapping));
    assert_eq!(parse_xwd_to_rgba(&overlapping).ok().unwrap().into_parts().0, 2);
}
