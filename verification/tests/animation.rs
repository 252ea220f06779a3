use lingxi::animation::{presets, Animation, AnimationCurve};
use lingxi::compositor::window::{AnimatedRect, AnimationManager, WindowAnimation};
use lingxi::layout::{Columns, Row, WindowGeometry, MAX_EXTENT};
use lingxi::numerics::Numerics;
use lingxi::scalar::{Double, Single};

struct Floats;

fn get(value: Double) -> f64 {
    f64::from_bits(value.bits)
}

fn put(value: f64) -> Double {
    Double { bits: value.to_bits() }
}

impl Numerics for Floats {
    fn split(&self, ratio: Double, gap: u32, extent: i64) -> i64 {
        let limit = MAX_EXTENT as f64;
        (extent as f64 * get(ratio) - gap as f64 / 2.0).round().clamp(-limit, limit) as i64
    }

    fn columns(&self, area: WindowGeometry<Double>, ratio: Double) -> Columns {
        let master = get(area.width) * get(ratio);
        Columns {
            master_width: put(master),
            stack_x: put(get(area.x) + master),
            stack_width: put(get(area.width) - master),
        }
    }

    fn row(&self, area: WindowGeometry<Double>, number: usize, count: usize) -> Row {
        let height = get(area.height) / count as f64;
        Row { y: put(get(area.y) + height * number as f64), height: put(height) }
    }

    fn far(&self, a: Double, b: Double) -> bool {
        (get(a) - get(b)).abs() > 1.0
    }

    fn sample(&self, animation: Animation, elapsed: u64) -> Double {
        let t = elapsed as f64 / animation.duration as f64;
        put(get(animation.start) + (get(animation.end) - get(animation.start)) * t)
    }

    fn double(&self, n: i64) -> Double {
        put(n as f64)
    }

    fn entry(&self, target: AnimatedRect, output: (i32, i32)) -> AnimatedRect {
        AnimatedRect {
            x: put(output.0 as f64 / 2.0 - get(target.width) / 4.0),
            y: put(output.1 as f64 / 2.0 - get(target.height) / 4.0),
            width: put(get(target.width) * 0.5),
            height: put(get(target.height) * 0.5),
        }
    }

    fn centered(&self, area: WindowGeometry<i64>) -> WindowGeometry<Double> {
        let width = area.width as f64 * 0.6;
        let height = area.height as f64 * 0.6;
        WindowGeometry {
            x: put(area.x as f64 + (area.width as f64 - width) / 2.0),
            y: put(area.y as f64 + (area.height as f64 - height) / 2.0),
            width: put(width),
            height: put(height),
        }
    }

    fn truncated(&self, value: Double) -> i32 {
        get(value) as i32
    }

    fn plus(&self, a: Double, b: Double) -> Double {
        put(get(a) + get(b))
    }

    fn minus(&self, a: Double, b: Double) -> Double {
        put(get(a) - get(b))
    }

    fn bounded(&self, value: Double, delta: Double, last: i32) -> Double {
        put((get(value) + get(delta)).clamp(0.0, last as f64))
    }

    fn negligible(&self, amount: Double) -> bool {
        !(get(amount).abs() > f64::EPSILON)
    }

    fn is_zero(&self, value: Double) -> bool {
        get(value) == 0.0
    }

    fn resized(&self, side: Double, delta: Double, least: u32) -> Double {
        put((get(side) + get(delta)).max(least as f64))
    }

    fn adjusted(&self, ratio: Double, delta: Double) -> Double {
        put((get(ratio) + get(delta)).clamp(0.1, 0.9))
    }

    fn faded(&self, alpha: Single, share: Single) -> Single {
        Single { bits: (f32::from_bits(alpha.bits) * f32::from_bits(share.bits)).to_bits() }
    }

    fn number(&self, text: String) -> Option<Double> {
        text.parse::<f64>().ok().map(put)
    }
}

const MS: u64 = 1_000_000;

fn rect(x: f64, y: f64, width: f64, height: f64) -> AnimatedRect {
    AnimatedRect { x: put(x), y: put(y), width: put(width), height: put(height) }
}

fn still(at: AnimatedRect) -> WindowAnimation {
    WindowAnimation { x: None, y: None, width: None, height: None, current: at, target: at }
}

fn spring(stiffness: f64, damping: f64) -> AnimationCurve {
    AnimationCurve::Spring { stiffness: put(stiffness), damping: put(damping), mass: put(1.0) }
}

#[test]
fn presets_are_springs() {
    assert_eq!(presets::default_window(), spring(400.0, 30.0));
    assert_eq!(presets::workspace_switch(), spring(250.0, 25.0));
    assert_eq!(presets::bouncy(), spring(300.0, 15.0));
    assert_eq!(presets::smooth(), spring(400.0, 40.0));
}

#[test]
fn an_animation_ends_after_its_duration() {
    let a = Animation::new(put(10.0), put(20.0), 100, AnimationCurve::Linear, 1000);
    assert_eq!(a.elapsed(900), 0);
    assert_eq!(a.elapsed(1040), 40);
    assert!(!a.is_finished(1099));
    assert!(a.is_finished(1100));
    assert!(a.is_finished(5000));
    assert_eq!(get(a.value(1050, &Floats)), 15.0);
    assert_eq!(get(a.value(1100, &Floats)), 20.0);
}

#[test]
fn an_animation_without_duration_is_over_at_once() {
    let a = Animation::new(put(1.0), put(2.0), 0, AnimationCurve::Linear, 7);
    assert!(a.is_finished(7));
    assert_eq!(get(a.value(7, &Floats)), 2.0);
}

#[test]
fn only_numbers_that_are_far_start_to_move() {
    let mut w = still(rect(0.0, 0.0, 100.0, 100.0));
    w.animate_to(rect(50.0, 1.0, 100.5, 102.0), AnimationCurve::Linear, 100, 0, &Floats);
    assert!(w.x.is_some());
    assert!(w.y.is_none());
    assert!(w.width.is_none());
    assert!(w.height.is_some());
    assert!(w.is_animating());
    assert_eq!(w.target, rect(50.0, 1.0, 100.5, 102.0));
    assert_eq!(w.current, rect(0.0, 0.0, 100.0, 100.0));
}

#[test]
fn a_window_settles_on_its_target() {
    let mut w = still(rect(0.0, 0.0, 100.0, 100.0));
    w.animate_to(rect(50.0, 60.0, 200.0, 300.0), AnimationCurve::Linear, 100, 0, &Floats);
    assert!(w.tick(50, &Floats));
    assert_eq!(w.current, rect(25.0, 30.0, 150.0, 200.0));
    assert!(!w.tick(100, &Floats));
    assert!(!w.is_animating());
    assert_eq!(w.current, rect(50.0, 60.0, 200.0, 300.0));
}

#[test]
fn the_manager_starts_empty_with_350_milliseconds() {
    let m = AnimationManager::new();
    assert_eq!(m.duration, 350 * MS);
    assert_eq!(m.curve, presets::default_window());
    assert!(!m.has_active_animations());
    assert_eq!(m.get_position(1, &Floats), None);
    assert_eq!(m.get_target(1), None);
}

#[test]
fn a_new_window_flies_in_and_settles() {
    let mut m = AnimationManager::new();
    let target = rect(10.0, 20.0, 400.0, 300.0);
    let initial = Floats.entry(target, (1920, 1080));
    assert_eq!(initial, rect(860.0, 465.0, 200.0, 150.0));
    m.add_window(7, target, initial, 0, &Floats);
    assert!(m.has_active_animations());
    assert_eq!(m.get_target(7), Some(target));
    assert_eq!(m.get_position(7, &Floats), Some((860, 465)));
    let (updates, finished) = m.tick(100 * MS, &Floats);
    assert_eq!(updates.len(), 1);
    assert_eq!(updates[0].0, 7);
    assert!(!finished);
    let (updates, finished) = m.tick(350 * MS, &Floats);
    assert_eq!(updates, vec![(7, target)]);
    assert!(finished);
    assert!(!m.has_active_animations());
    assert_eq!(m.get_position(7, &Floats), Some((10, 20)));
}

#[test]
fn a_frame_without_movement_changes_nothing() {
    let mut m = AnimationManager::new();
    let place = rect(1.0, 2.0, 3.0, 4.0);
    m.add_window(1, place, place, 0, &Floats);
    assert!(!m.has_active_animations());
    assert_eq!(m.tick(5, &Floats), (vec![], false));
    assert_eq!(m.get_target(1), Some(place));
}

#[test]
fn retargeting_ignores_unknown_windows_and_small_changes() {
    let mut m = AnimationManager::new();
    let place = rect(0.0, 0.0, 100.0, 100.0);
    m.add_window(1, place, place, 0, &Floats);
    m.retarget(&vec![(2, rect(9.0, 9.0, 9.0, 9.0)), (1, rect(1.0, 0.0, 100.0, 100.0))], 0, &Floats);
    assert!(!m.has_active_animations());
    assert_eq!(m.get_target(1), Some(place));
    assert_eq!(m.get_target(2), None);
    m.retarget(&vec![(1, rect(40.0, 0.0, 100.0, 100.0))], 0, &Floats);
    assert!(m.has_active_animations());
    assert_eq!(m.get_target(1), Some(rect(40.0, 0.0, 100.0, 100.0)));
}

#[test]
fn the_same_targets_again_start_nothing_again() {
    let mut m = AnimationManager::new();
    let place = rect(0.0, 0.0, 100.0, 100.0);
    m.add_window(1, place, place, 0, &Floats);
    m.add_window(2, place, place, 0, &Floats);
    let targets = vec![(1, rect(40.0, 0.0, 100.0, 100.0)), (2, rect(0.5, 0.0, 100.0, 100.0))];
    m.retarget(&targets, 0, &Floats);
    m.retarget(&targets, 200 * MS, &Floats);
    // The animation still ends 350 milliseconds after it first started.
    let (updates, finished) = m.tick(350 * MS, &Floats);
    assert_eq!(updates, vec![(1, rect(40.0, 0.0, 100.0, 100.0))]);
    assert!(finished);
    assert_eq!(m.get_target(2), Some(place));
}

#[test]
fn a_dragged_window_is_put_down_at_once() {
    let mut m = AnimationManager::new();
    m.add_window(1, rect(100.0, 100.0, 50.0, 50.0), rect(0.0, 0.0, 50.0, 50.0), 0, &Floats);
    assert!(m.has_active_animations());
    m.set_current_position(1, put(33.9), put(-44.9));
    assert!(!m.has_active_animations());
    assert_eq!(m.get_position(1, &Floats), Some((33, -44)));
    m.set_current_position(9, put(1.0), put(1.0));
    assert_eq!(m.get_position(9, &Floats), None);
}

#[test]
fn a_removed_window_is_forgotten_and_a_nudge_does_nothing() {
    let mut m = AnimationManager::new();
    m.add_window(1, rect(100.0, 0.0, 50.0, 50.0), rect(0.0, 0.0, 50.0, 50.0), 0, &Floats);
    m.nudge_focus(1);
    assert_eq!(m.get_target(1), Some(rect(100.0, 0.0, 50.0, 50.0)));
    m.remove_window(1);
    assert_eq!(m.get_target(1), None);
    assert!(!m.has_active_animations());
}

#[test]
fn a_point_is_a_rectangle_without_fractions() {
    assert_eq!(rect(3.9, -3.9, 0.0, 0.0).to_point(&Floats), (3, -3));
}
