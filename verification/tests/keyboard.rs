use lingxi::animation::Animation;
use lingxi::compositor::screen::Screen;
use lingxi::compositor::state::{Effect, LingxiState, Placement};
use lingxi::compositor::window::AnimatedRect;
use lingxi::compositor::windows::OnScreen;
use lingxi::config::{LingxiConfig, ParsedKeyBind};
use lingxi::input::actions::{display_name, runtime_dir, spawn_command, Surroundings};
use lingxi::input::keys::{
    action_of, check_configurable_keybind, filter_key, osd_argument, step_of_arrow, Action,
    KeyOutcome, Modifiers,
};
use lingxi::input::locked::{lock_key, LockKey};
use lingxi::input::pointer::{scroll_axis, surface_under, Hit, Scroll, ScrollOut};
use lingxi::input::route::KeyRoute;
use lingxi::layout::{Columns, Row, WindowGeometry, MAX_EXTENT};
use lingxi::numerics::Numerics;
use lingxi::scalar::{Double, Single};

struct Floats;

fn get(value: Double) -> f64 {
    f64::from_bits(value.bits)
}

fn put(value: f64) -> Double {
    Double { bits: value.to_bits() }
}

impl Numerics for Floats {
    fn split(&self, ratio: Double, gap: u32, extent: i64) -> i64 {
        let limit = MAX_EXTENT as f64;
        (extent as f64 * get(ratio) - gap as f64 / 2.0).round().clamp(-limit, limit) as i64
    }

    fn columns(&self, area: WindowGeometry<Double>, ratio: Double) -> Columns {
        let master = get(area.width) * get(ratio);
        Columns {
            master_width: put(master),
            stack_x: put(get(area.x) + master),
            stack_width: put(get(area.width) - master),
        }
    }

    fn row(&self, area: WindowGeometry<Double>, number: usize, count: usize) -> Row {
        let height = get(area.height) / count as f64;
        Row { y: put(get(area.y) + height * number as f64), height: put(height) }
    }

    fn far(&self, a: Double, b: Double) -> bool {
        (get(a) - get(b)).abs() > 1.0
    }

    fn sample(&self, animation: Animation, elapsed: u64) -> Double {
        let t = elapsed as f64 / animation.duration as f64;
        put(get(animation.start) + (get(animation.end) - get(animation.start)) * t)
    }

    fn double(&self, n: i64) -> Double {
        put(n as f64)
    }

    fn entry(&self, target: AnimatedRect, output: (i32, i32)) -> AnimatedRect {
        AnimatedRect {
            x: put(output.0 as f64 / 2.0 - get(target.width) / 4.0),
            y: put(output.1 as f64 / 2.0 - get(target.height) / 4.0),
            width: put(get(target.width) * 0.5),
            height: put(get(target.height) * 0.5),
        }
    }

    fn centered(&self, area: WindowGeometry<i64>) -> WindowGeometry<Double> {
        let width = area.width as f64 * 0.6;
        let height = area.height as f64 * 0.6;
        WindowGeometry {
            x: put(area.x as f64 + (area.width as f64 - width) / 2.0),
            y: put(area.y as f64 + (area.height as f64 - height) / 2.0),
            width: put(width),
            height: put(height),
        }
    }

    fn truncated(&self, value: Double) -> i32 {
        get(value) as i32
    }

    fn plus(&self, a: Double, b: Double) -> Double {
        put(get(a) + get(b))
    }

    fn minus(&self, a: Double, b: Double) -> Double {
        put(get(a) - get(b))
    }

    fn bounded(&self, value: Double, delta: Double, last: i32) -> Double {
        put((get(value) + get(delta)).clamp(0.0, last as f64))
    }

    fn negligible(&self, amount: Double) -> bool {
        !(get(amount).abs() > f64::EPSILON)
    }

    fn is_zero(&self, value: Double) -> bool {
        get(value) == 0.0
    }

    fn resized(&self, side: Double, delta: Double, least: u32) -> Double {
        put((get(side) + get(delta)).max(least as f64))
    }

    fn adjusted(&self, ratio: Double, delta: Double) -> Double {
        put((get(ratio) + get(delta)).clamp(0.1, 0.9))
    }

    fn faded(&self, alpha: Single, share: Single) -> Single {
        Single { bits: (f32::from_bits(alpha.bits) * f32::from_bits(share.bits)).to_bits() }
    }

    fn number(&self, text: String) -> Option<Double> {
        text.parse::<f64>().ok().map(put)
    }
}

const NONE: Modifiers = Modifiers { logo: false, shift: false, ctrl: false, alt: false };
const LOGO: Modifiers = Modifiers { logo: true, shift: false, ctrl: false, alt: false };
const LOGO_SHIFT: Modifiers = Modifiers { logo: true, shift: true, ctrl: false, alt: false };

fn binds() -> Vec<(ParsedKeyBind, String, Option<String>)> {
    LingxiConfig::default().parsed_binds()
}

fn some(text: &str) -> Option<String> {
    Some(text.to_string())
}

fn screen() -> Screen {
    Screen { output: Some((1020, 820)), top: vec![], bottom: vec![] }
}

fn around(focus: Option<u64>, mapped: Vec<u64>) -> Surroundings {
    Surroundings {
        focus,
        at: OnScreen { location: Some((0, 0)), size: (10, 10) },
        mapped,
        screen: screen(),
        now: 0,
    }
}

fn two_windows() -> LingxiState {
    let mut s = LingxiState::new(LingxiConfig::default());
    s.new_toplevel(1, 101, &screen(), 0, &Floats);
    s.new_toplevel(2, 102, &screen(), 0, &Floats);
    s
}

#[test]
fn volume_and_brightness_keys_show_a_display() {
    assert_eq!(osd_argument(0x1008ff11), some("output-volume lower"));
    assert_eq!(osd_argument(0x1008ff13), some("output-volume raise"));
    assert_eq!(osd_argument(0x1008ff12), some("output-volume mute-toggle"));
    assert_eq!(osd_argument(0x1008ff03), some("brightness lower"));
    assert_eq!(osd_argument(0x1008ff02), some("brightness raise"));
    assert_eq!(osd_argument(0x61), None);
    let outcome = filter_key(true, NONE, 0x1008ff12, &vec![], &binds());
    assert_eq!(
        outcome,
        KeyOutcome::Display(vec!["output-volume".to_string(), "mute-toggle".to_string()])
    );
}

#[test]
fn arrows_move_floating_windows_only_with_logo_and_shift() {
    assert_eq!(step_of_arrow(0xff51), Some((put(-50.0), put(0.0))));
    assert_eq!(step_of_arrow(0xff53), Some((put(50.0), put(0.0))));
    assert_eq!(step_of_arrow(0xff52), Some((put(0.0), put(-50.0))));
    assert_eq!(step_of_arrow(0xff54), Some((put(0.0), put(50.0))));
    assert_eq!(step_of_arrow(0x61), None);
    assert_eq!(
        filter_key(true, LOGO_SHIFT, 0xff51, &vec![0xff51], &vec![]),
        KeyOutcome::Intercept(Action::MoveFloating(put(-50.0), put(0.0)))
    );
    assert_eq!(filter_key(true, NONE, 0xff51, &vec![0xff51], &vec![]), KeyOutcome::Forward);
    let all = Modifiers { logo: true, shift: true, ctrl: true, alt: false };
    assert_eq!(filter_key(true, all, 0xff51, &vec![0xff51], &vec![]), KeyOutcome::Forward);
}

#[test]
fn a_digit_under_shift_is_found_by_its_plain_sym() {
    // Under Shift the key means '!', but its plain sym is '1'.
    assert_eq!(
        filter_key(true, LOGO_SHIFT, 0x21, &vec![0x31], &binds()),
        KeyOutcome::Intercept(Action::MoveToWorkspace(0))
    );
    assert_eq!(
        filter_key(true, LOGO, 0x33, &vec![0x33], &binds()),
        KeyOutcome::Intercept(Action::Workspace(2))
    );
}

#[test]
fn keys_that_are_let_go_or_unbound_go_to_the_client() {
    assert_eq!(filter_key(false, LOGO, 0x33, &vec![0x33], &binds()), KeyOutcome::Forward);
    assert_eq!(filter_key(false, NONE, 0x1008ff12, &vec![], &binds()), KeyOutcome::Forward);
    assert_eq!(filter_key(true, NONE, 0x61, &vec![0x61], &binds()), KeyOutcome::Forward);
}

#[test]
fn the_first_binding_wins_and_needs_its_exact_modifiers() {
    let q = ParsedKeyBind { logo: true, shift: false, ctrl: false, alt: false, keysym: 0x71 };
    let list = vec![
        (q, "close".to_string(), None),
        (q, "quit".to_string(), None),
    ];
    assert_eq!(check_configurable_keybind(LOGO, &vec![0x71], &list), Some(Action::CloseWindow));
    assert_eq!(check_configurable_keybind(LOGO_SHIFT, &vec![0x71], &list), None);
    assert_eq!(check_configurable_keybind(LOGO, &vec![0x72], &list), None);
    assert_eq!(
        check_configurable_keybind(LOGO, &vec![0x72, 0x71], &list),
        Some(Action::CloseWindow)
    );
    // A binding with an unknown action takes the key and does nothing.
    let odd = vec![(q, "dance".to_string(), None), (q, "quit".to_string(), None)];
    assert_eq!(check_configurable_keybind(LOGO, &vec![0x71], &odd), None);
}

#[test]
fn actions_have_names_and_arguments() {
    assert_eq!(action_of("exec", &some("foot -e top")), Some(Action::Exec("foot -e top".into())));
    assert_eq!(action_of("exec", &None), Some(Action::Exec(String::new())));
    assert_eq!(action_of("close", &None), Some(Action::CloseWindow));
    assert_eq!(action_of("quit", &None), Some(Action::Quit));
    assert_eq!(action_of("lock", &None), Some(Action::Lock));
    assert_eq!(action_of("fullscreen", &None), Some(Action::ToggleFullscreen));
    assert_eq!(action_of("floating", &None), Some(Action::ToggleFloating));
    assert_eq!(action_of("resize", &None), Some(Action::ResizeRatio("0.05".into())));
    assert_eq!(action_of("resize", &some("-0.1")), Some(Action::ResizeRatio("-0.1".into())));
    assert_eq!(action_of("focus", &None), Some(Action::FocusNext));
    assert_eq!(action_of("focus", &some("prev")), Some(Action::FocusPrev));
    assert_eq!(action_of("focus", &some("up")), Some(Action::FocusNext));
    assert_eq!(action_of("swap", &some("next")), Some(Action::SwapNext));
    assert_eq!(action_of("swap", &some("prev")), Some(Action::SwapPrev));
    assert_eq!(action_of("workspace", &some("4")), Some(Action::Workspace(3)));
    assert_eq!(action_of("workspace", &some("0")), Some(Action::Workspace(0)));
    assert_eq!(action_of("workspace", &some("four")), Some(Action::Workspace(0)));
    assert_eq!(action_of("workspace", &None), Some(Action::Workspace(0)));
    assert_eq!(action_of("movetoworkspace", &some("+5")), Some(Action::MoveToWorkspace(4)));
    assert_eq!(action_of("Close", &None), None);
    assert_eq!(action_of("", &None), None);
}

#[test]
fn commands_are_split_at_white_space() {
    assert_eq!(
        spawn_command("  foot\t-e  top "),
        vec![Effect::Spawn(vec!["foot".into(), "-e".into(), "top".into()])]
    );
    assert_eq!(spawn_command(" \n "), vec![]);
    assert_eq!(runtime_dir(None), "/run/user/1000");
    assert_eq!(runtime_dir(some("/run/user/7")), "/run/user/7");
    assert_eq!(display_name(None), "wayland-0");
    assert_eq!(display_name(some("wayland-3")), "wayland-3");
}

#[test]
fn every_action_does_what_it_says() {
    let mut s = two_windows();
    let here = around(Some(102), vec![1, 2]);
    assert_eq!(
        s.execute_action(Action::Exec("foot".into()), &here, &Floats),
        vec![Effect::Spawn(vec!["foot".into()])]
    );
    assert_eq!(s.execute_action(Action::CloseWindow, &here, &Floats), vec![Effect::Close(2)]);
    assert_eq!(s.execute_action(Action::Quit, &here, &Floats), vec![Effect::Quit]);
    assert_eq!(s.execute_action(Action::FocusNext, &here, &Floats), vec![Effect::Focus(Some(1))]);
    assert_eq!(s.execute_action(Action::FocusPrev, &here, &Floats), vec![Effect::Focus(Some(1))]);
    s.execute_action(Action::SwapNext, &here, &Floats);
    assert_eq!(s.workspaces[0], vec![2, 1]);
    s.execute_action(Action::SwapPrev, &here, &Floats);
    assert_eq!(s.workspaces[0], vec![1, 2]);
    s.execute_action(Action::ToggleFullscreen, &here, &Floats);
    assert_eq!(s.fullscreen_window, Some(2));
    s.execute_action(Action::ToggleFullscreen, &here, &Floats);
    assert_eq!(s.fullscreen_window, None);
    s.execute_action(Action::ToggleFloating, &here, &Floats);
    assert!(s.is_floating(2));
    let effects = s.execute_action(Action::MoveFloating(put(50.0), put(0.0)), &here, &Floats);
    assert!(matches!(effects[..], [Effect::Move(2, _)]));
    s.execute_action(Action::MoveToWorkspace(3), &here, &Floats);
    assert_eq!(s.workspaces[3], vec![2]);
    s.execute_action(Action::Workspace(3), &here, &Floats);
    assert_eq!(s.active_workspace, 3);
    let effects = s.execute_action(Action::Lock, &around(None, vec![2]), &Floats);
    assert_eq!(effects, vec![Effect::Withdraw(2)]);
    assert!(s.locked);
}

#[test]
fn the_split_ratio_changes_within_limits() {
    let mut s = two_windows();
    let here = around(Some(102), vec![1, 2]);
    let effects = s.execute_action(Action::ResizeRatio("0.25".into()), &here, &Floats);
    assert_eq!(get(s.layout.split_ratio), 0.75);
    let width = |effect: &Effect| match effect {
        Effect::Configure(_, Placement::Tile(t)) => t.width,
        _ => unreachable!(),
    };
    // 1000 * 0.75 - 5 / 2, rounded, and what is left of it.
    assert_eq!(effects.iter().map(width).collect::<Vec<_>>(), vec![748, 247]);
    s.execute_action(Action::ResizeRatio("much".into()), &here, &Floats);
    assert_eq!(get(s.layout.split_ratio), 0.8);
    s.execute_action(Action::ResizeRatio("5".into()), &here, &Floats);
    assert_eq!(get(s.layout.split_ratio), 0.9);
    s.execute_action(Action::ResizeRatio("-5".into()), &here, &Floats);
    assert_eq!(get(s.layout.split_ratio), 0.1);
    for tree in &s.layout_trees {
        assert_eq!(get(tree.split_ratio()), 0.1);
    }
    // The next window that opens shows the new ratio.
    let effects = s.new_toplevel(3, 103, &screen(), 0, &Floats);
    assert_eq!(width(&effects[1]), 98);
}

#[test]
fn keys_on_the_lock_screen() {
    assert_eq!(lock_key(0xff0d), LockKey::Verify);
    assert_eq!(lock_key(0xff08), LockKey::Erase);
    assert_eq!(lock_key(0xff1b), LockKey::Clear);
    assert_eq!(lock_key(0x20), LockKey::Character(' '));
    assert_eq!(lock_key(0x7e), LockKey::Character('~'));
    assert_eq!(lock_key(0x7f), LockKey::Ignore);
    assert_eq!(lock_key(0x1f), LockKey::Ignore);
    assert_eq!(lock_key(0x1008ff12), LockKey::Ignore);
}

#[test]
fn a_password_is_typed_erased_cleared_and_verified() {
    let mut s = two_windows();
    s.lock_screen(&vec![1, 2]);
    for sym in [0x68, 0x69, 0x21] {
        assert!(!s.locked_key(true, sym));
    }
    assert_eq!(s.password_input, "hi!");
    assert!(!s.locked_key(false, 0x61));
    assert_eq!(s.password_input, "hi!");
    s.locked_key(true, 0xff08);
    assert_eq!(s.password_input, "hi");
    s.locked_key(true, 0xff1b);
    assert_eq!(s.password_input, "");
    s.locked_key(true, 0xff08);
    assert_eq!(s.password_input, "");
    s.locked_key(true, 0x61);
    assert!(s.locked_key(true, 0xff0d));
    assert_eq!(s.password_input, "a");
    assert_eq!(s.password_verified(false, &screen(), 0, &Floats), vec![]);
    assert!(s.locked);
    assert_eq!(s.password_input, "");
    assert_eq!(s.password_error, some("Password incorrect"));
    s.locked_key(true, 0x62);
    assert_eq!(s.password_error, None);
    let effects = s.password_verified(true, &screen(), 0, &Floats);
    assert!(!s.locked);
    assert_eq!(s.password_input, "");
    assert_eq!(effects.last(), Some(&Effect::Focus(Some(1))));
}

#[test]
fn every_action_keeps_a_leaf_for_each_tiled_window() {
    let mut s = two_windows();
    let actions = vec![
        Action::SwapNext,
        Action::ToggleFloating,
        Action::MoveFloating(put(5.0), put(0.0)),
        Action::ToggleFullscreen,
        Action::ToggleFullscreen,
        Action::ToggleFloating,
        Action::ResizeRatio("0.1".to_string()),
        Action::FocusNext,
        Action::MoveToWorkspace(2),
        Action::Workspace(2),
        Action::CloseWindow,
        Action::MoveToWorkspace(2),
        Action::Workspace(9),
        Action::Lock,
    ];
    for action in actions {
        let mapped = s.workspaces[s.active_workspace].clone();
        assert!(s.can_execute(&action));
        s.execute_action(action, &around(Some(101), mapped), &Floats);
        for n in 0..5 {
            let tiled = s.workspaces[n].iter().filter(|w| !s.is_floating(**w)).count();
            assert_eq!(s.layout_trees[n].len(), tiled);
        }
    }
    assert_eq!(s.active_workspace, 2);
    assert_eq!(s.workspaces[2], vec![1]);
    assert_eq!(s.workspaces[0], vec![2]);
}

#[test]
fn an_action_needs_room() {
    let mut s = two_windows();
    assert!(s.can_execute(&Action::Workspace(1)));
    s.workspaces[1].push(9);
    assert!(!s.can_execute(&Action::Workspace(1)));
    assert!(s.can_execute(&Action::Workspace(2)));
    assert!(s.can_execute(&Action::Quit));
    for action in [Action::ToggleFloating, Action::MoveToWorkspace(1), Action::SwapNext] {
        assert!(s.can_execute(&action));
    }
    for action in [Action::Lock, Action::FocusNext, Action::CloseWindow] {
        assert!(s.can_execute(&action));
    }
}

#[test]
fn what_is_said_of_a_wrong_password_goes_away() {
    let second = 1_000_000_000;
    let mut s = two_windows();
    s.lock_screen(&vec![1, 2]);
    s.password_verified(false, &screen(), 10 * second, &Floats);
    assert_eq!(s.password_error, some("Password incorrect"));
    s.frame_drawn();
    s.expire_password_error(9 * second);
    s.expire_password_error(13 * second - 1);
    assert_eq!(s.password_error, some("Password incorrect"));
    assert!(!s.needs_render);
    s.expire_password_error(13 * second);
    assert_eq!(s.password_error, None);
    assert!(s.needs_render && s.locked);
    s.frame_drawn();
    s.expire_password_error(20 * second);
    assert!(!s.needs_render);
}

#[test]
fn going_on_from_window_to_window_reaches_all() {
    let mut s = two_windows();
    s.by_surface.insert(103, 3);
    let mapped = vec![1, 2, 3];
    for (forward, expected) in [(true, [2, 3, 1]), (false, [3, 2, 1])] {
        let mut focus = Some(101);
        for w in expected {
            assert_eq!(s.cycle_focus(forward, &mapped, focus), vec![Effect::Focus(Some(w))]);
            focus = Some(100 + w);
        }
    }
}

#[test]
fn a_locked_screen_takes_every_key() {
    let mut s = two_windows();
    let plain = vec![0x33];
    assert_eq!(
        s.route_key(true, LOGO, 0x33, &plain),
        KeyRoute::Decided(KeyOutcome::Intercept(Action::Workspace(2)))
    );
    assert_eq!(
        s.route_key(true, NONE, 0x33, &plain),
        KeyRoute::Decided(KeyOutcome::Forward)
    );
    s.lock_screen(&vec![1, 2]);
    assert_eq!(s.route_key(true, LOGO, 0x33, &plain), KeyRoute::Swallowed { verify: false });
    assert_eq!(s.password_input, "3");
    assert_eq!(s.active_workspace, 0);
    assert_eq!(s.route_key(false, NONE, 0x33, &plain), KeyRoute::Swallowed { verify: false });
    assert_eq!(s.password_input, "3");
    assert_eq!(
        s.route_key(true, NONE, 0xff0d, &vec![0xff0d]),
        KeyRoute::Swallowed { verify: true }
    );
    assert_eq!(
        s.route_key(false, NONE, 0xff0d, &vec![0xff0d]),
        KeyRoute::Swallowed { verify: false }
    );
    assert!(s.locked);
}

#[test]
fn layers_and_windows_under_the_pointer() {
    let hit = |surface: u64| Some(Hit { surface, x: 0, y: 0 });
    assert_eq!(surface_under(&vec![None, hit(1), hit(2)], hit(3), &vec![hit(4)]), hit(1));
    assert_eq!(surface_under(&vec![None], hit(3), &vec![hit(4)]), hit(3));
    assert_eq!(surface_under(&vec![], None, &vec![None, hit(4)]), hit(4));
    assert_eq!(surface_under(&vec![], None, &vec![]), None);
}

#[test]
fn a_press_gives_the_keyboard_to_what_is_under_the_pointer() {
    let s = two_windows();
    assert_eq!(s.pointer_button(true, Some(2)), vec![Effect::Focus(Some(2))]);
    assert_eq!(s.pointer_button(true, None), vec![Effect::Focus(None)]);
    assert_eq!(s.pointer_button(false, Some(2)), vec![]);
}

#[test]
fn the_pointer_stays_on_the_screen() {
    let mut s = two_windows();
    s.pointer_moved(put(100.0), put(100.0));
    let moved = s.pointer_target((put(-500.0), put(30.5)), Some((1020, 820)), &Floats);
    assert_eq!(moved, (put(0.0), put(130.5)));
    let moved = s.pointer_target((put(9000.0), put(9000.0)), Some((1020, 820)), &Floats);
    assert_eq!(moved, (put(1019.0), put(819.0)));
    let moved = s.pointer_target((put(9000.0), put(9000.0)), None, &Floats);
    assert_eq!(moved, (put(3839.0), put(2159.0)));
}

#[test]
fn wheels_and_touchpads_scroll() {
    let wheel = Scroll { amount: Some(put(0.0)), v120: Some(put(-120.0)) };
    assert_eq!(scroll_axis(wheel, &Floats), ScrollOut { value: None, v120: Some(-120) });
    let pad = Scroll { amount: Some(put(2.5)), v120: Some(put(0.0)) };
    assert_eq!(scroll_axis(pad, &Floats), ScrollOut { value: Some(put(2.5)), v120: None });
    let idle = Scroll { amount: None, v120: None };
    assert_eq!(scroll_axis(idle, &Floats), ScrollOut { value: None, v120: None });
}
