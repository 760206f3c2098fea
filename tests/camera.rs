use rustopia::camera::{Direction, Key, State, MAX_ORIGIN_X, MAX_ORIGIN_Y, ZOOM_DEFAULT, ZOOM_MAX, ZOOM_MIN};

fn start() -> State {
    State::new("Some World".to_string(), 1600, 1600)
}

fn ticks(s: &mut State, n: u64) {
    for _ in 0..n {
        s.update();
    }
}

#[test]
fn new_state_defaults() {
    let s = start();
    assert_eq!((s.origin_x(), s.origin_y()), (1600, 1600));
    assert_eq!(s.zoom_tenths(), ZOOM_DEFAULT);
    assert_eq!(s.zoom_tenths(), 10);
    assert!(!s.is_held(Key::D));
    assert_eq!(s.world().name(), "Some World");
    assert_eq!(s.world().width(), 60);
    assert_eq!(s.world().height(), 30);
}

#[test]
fn new_state_clamps_origin() {
    let s = State::new("w".to_string(), -5, 99999);
    assert_eq!((s.origin_x(), s.origin_y()), (0, 3000));
    let s = State::new("w".to_string(), i64::MAX, i64::MIN);
    assert_eq!((s.origin_x(), s.origin_y()), (4800, 0));
}

#[test]
fn hold_right_ten_ticks() {
    let mut s = start();
    s.key_down_event(Key::D);
    ticks(&mut s, 10);
    assert_eq!(s.origin_x(), 1620);
    assert_eq!(s.origin_y(), 1600);
}

#[test]
fn hold_right_clamps_at_world_edge() {
    let mut s = start();
    s.key_down_event(Key::D);
    ticks(&mut s, 10000);
    assert_eq!(s.origin_x(), 4800);
    assert_eq!(MAX_ORIGIN_X, 60 * 80);
    assert_eq!(MAX_ORIGIN_Y, 30 * 100);
}

#[test]
fn pan_right_is_min_of_sum_and_edge() {
    for n in [0u64, 1, 7, 1599, 1600, 1601, 5000] {
        let mut s = start();
        s.key_down_event(Key::D);
        ticks(&mut s, n);
        let expected = std::cmp::min(1600 + 2 * n as i64, 4800);
        assert_eq!(s.origin_x(), expected);
    }
}

#[test]
fn each_direction_moves_its_axis() {
    let mut s = start();
    s.key_down_event(Key::W);
    s.update();
    assert_eq!((s.origin_x(), s.origin_y()), (1600, 1598));
    s.key_up_event(Key::W);
    s.key_down_event(Key::S);
    s.update();
    s.update();
    assert_eq!((s.origin_x(), s.origin_y()), (1600, 1602));
    s.key_up_event(Key::S);
    s.key_down_event(Key::A);
    s.update();
    assert_eq!((s.origin_x(), s.origin_y()), (1598, 1602));
}

#[test]
fn diagonal_moves_both_axes_and_opposites_cancel() {
    let mut s = start();
    s.key_down_event(Key::D);
    s.key_down_event(Key::S);
    s.update();
    assert_eq!((s.origin_x(), s.origin_y()), (1602, 1602));
    s.key_down_event(Key::A);
    s.key_down_event(Key::W);
    s.update();
    assert_eq!((s.origin_x(), s.origin_y()), (1602, 1602));
}

#[test]
fn opposite_keys_at_edge_stay_at_edge() {
    let mut s = State::new("w".to_string(), 0, 0);
    s.key_down_event(Key::A);
    s.key_down_event(Key::D);
    s.update();
    assert_eq!((s.origin_x(), s.origin_y()), (0, 0));
}

#[test]
fn top_left_clamps_at_zero() {
    let mut s = State::new("w".to_string(), 3, 1);
    s.key_down_event(Key::A);
    s.key_down_event(Key::W);
    ticks(&mut s, 5);
    assert_eq!((s.origin_x(), s.origin_y()), (0, 0));
}

#[test]
fn other_keys_do_not_move() {
    let mut s = start();
    s.key_down_event(Key::Other(42));
    assert!(s.is_held(Key::Other(42)));
    ticks(&mut s, 3);
    assert_eq!((s.origin_x(), s.origin_y()), (1600, 1600));
}

#[test]
fn held_keys_follow_presses_and_releases() {
    let mut s = start();
    s.key_down_event(Key::W);
    s.key_down_event(Key::A);
    s.key_down_event(Key::Other(3));
    s.key_up_event(Key::A);
    s.key_down_event(Key::S);
    s.key_up_event(Key::Other(3));
    s.key_down_event(Key::Other(3));
    assert!(s.is_held(Key::W));
    assert!(!s.is_held(Key::A));
    assert!(s.is_held(Key::S));
    assert!(s.is_held(Key::Other(3)));
    assert!(!s.is_held(Key::D));
    assert!(!s.is_held(Key::Other(4)));
}

#[test]
fn pressing_twice_is_pressing_once() {
    let mut s = start();
    s.key_down_event(Key::D);
    s.key_down_event(Key::D);
    s.update();
    assert_eq!(s.origin_x(), 1602);
    s.key_up_event(Key::D);
    assert!(!s.is_held(Key::D));
    s.update();
    assert_eq!(s.origin_x(), 1602);
}

#[test]
fn releasing_unheld_key_changes_nothing() {
    let mut s = start();
    s.key_down_event(Key::S);
    s.key_up_event(Key::D);
    assert!(s.is_held(Key::S));
    assert!(!s.is_held(Key::D));
}

#[test]
fn wheel_up_up_down_zooms_in_one_tenth() {
    let mut s = start();
    s.mouse_wheel_event(1);
    s.mouse_wheel_event(1);
    s.mouse_wheel_event(-1);
    assert_eq!(s.zoom_tenths(), ZOOM_DEFAULT + 1);
}

#[test]
fn wheel_zero_leaves_zoom() {
    let mut s = start();
    s.mouse_wheel_event(0);
    assert_eq!(s.zoom_tenths(), 10);
}

#[test]
fn wheel_stops_at_bounds() {
    let mut s = start();
    for _ in 0..100 {
        s.mouse_wheel_event(-1);
    }
    assert_eq!(s.zoom_tenths(), ZOOM_MIN);
    assert_eq!(ZOOM_MIN, 1);
    for _ in 0..100 {
        s.mouse_wheel_event(5);
    }
    assert_eq!(s.zoom_tenths(), ZOOM_MAX);
    assert_eq!(ZOOM_MAX, 50);
}

#[test]
fn origin_stays_in_world_under_any_keys() {
    let mut s = start();
    let keys = [Key::W, Key::A, Key::S, Key::D];
    let mut seed: u64 = 12345;
    for _ in 0..20000 {
        seed = seed.wrapping_mul(6364136223846793005).wrapping_add(1442695040888963407);
        let k = keys[((seed >> 33) % 4) as usize];
        if (seed >> 40) % 2 == 0 {
            s.key_down_event(k);
        } else {
            s.key_up_event(k);
        }
        ticks(&mut s, (seed >> 50) % 64);
        assert!(0 <= s.origin_x() && s.origin_x() <= MAX_ORIGIN_X);
        assert!(0 <= s.origin_y() && s.origin_y() <= MAX_ORIGIN_Y);
    }
}

#[test]
fn direction_keys() {
    assert_eq!(Direction::Up.key(), Key::W);
    assert_eq!(Direction::Down.key(), Key::S);
    assert_eq!(Direction::Left.key(), Key::A);
    assert_eq!(Direction::Right.key(), Key::D);
}
