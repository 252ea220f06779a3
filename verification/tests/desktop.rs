use lingxi::animation::Animation;
use lingxi::compositor::floating::FloatingManager;
use lingxi::compositor::screen::{LayerBox, Screen};
use lingxi::compositor::state::{Effect, FullscreenPhase, LingxiState, Placement, NUM_WORKSPACES};
use lingxi::compositor::window::AnimatedRect;
use lingxi::compositor::windows::OnScreen;
use lingxi::config::LingxiConfig;
use lingxi::layout::{Columns, Row, WindowGeometry, MAX_EXTENT, MAX_TILES};
use lingxi::numerics::Numerics;
use lingxi::scalar::{Double, Single};

struct Floats;

fn get(value: Double) -> f64 {
    f64::from_bits(value.bits)
}

fn put(value: f64) -> Double {
    Double { bits: value.to_bits() }
}

impl Numerics for Floats {
    fn split(&self, ratio: Double, gap: u32, extent: i64) -> i64 {
        let limit = MAX_EXTENT as f64;
        (extent as f64 * get(ratio) - gap as f64 / 2.0).round().clamp(-limit, limit) as i64
    }

    fn columns(&self, area: WindowGeometry<Double>, ratio: Double) -> Columns {
        let master = get(area.width) * get(ratio);
        Columns {
            master_width: put(master),
            stack_x: put(get(area.x) + master),
            stack_width: put(get(area.width) - master),
        }
    }

    fn row(&self, area: WindowGeometry<Double>, number: usize, count: usize) -> Row {
        let height = get(area.height) / count as f64;
        Row { y: put(get(area.y) + height * number as f64), height: put(height) }
    }

    fn far(&self, a: Double, b: Double) -> bool {
        (get(a) - get(b)).abs() > 1.0
    }

    fn sample(&self, animation: Animation, elapsed: u64) -> Double {
        let t = elapsed as f64 / animation.duration as f64;
        put(get(animation.start) + (get(animation.end) - get(animation.start)) * t)
    }

    fn double(&self, n: i64) -> Double {
        put(n as f64)
    }

    fn entry(&self, target: AnimatedRect, output: (i32, i32)) -> AnimatedRect {
        AnimatedRect {
            x: put(output.0 as f64 / 2.0 - get(target.width) / 4.0),
            y: put(output.1 as f64 / 2.0 - get(target.height) / 4.0),
            width: put(get(target.width) * 0.5),
            height: put(get(target.height) * 0.5),
        }
    }

    fn centered(&self, area: WindowGeometry<i64>) -> WindowGeometry<Double> {
        let width = area.width as f64 * 0.6;
        let height = area.height as f64 * 0.6;
        WindowGeometry {
            x: put(area.x as f64 + (area.width as f64 - width) / 2.0),
            y: put(area.y as f64 + (area.height as f64 - height) / 2.0),
            width: put(width),
            height: put(height),
        }
    }

    fn truncated(&self, value: Double) -> i32 {
        get(value) as i32
    }

    fn plus(&self, a: Double, b: Double) -> Double {
        put(get(a) + get(b))
    }

    fn minus(&self, a: Double, b: Double) -> Double {
        put(get(a) - get(b))
    }

    fn bounded(&self, value: Double, delta: Double, last: i32) -> Double {
        put((get(value) + get(delta)).clamp(0.0, last as f64))
    }

    fn negligible(&self, amount: Double) -> bool {
        !(get(amount).abs() > f64::EPSILON)
    }

    fn is_zero(&self, value: Double) -> bool {
        get(value) == 0.0
    }

    fn resized(&self, side: Double, delta: Double, least: u32) -> Double {
        put((get(side) + get(delta)).max(least as f64))
    }

    fn adjusted(&self, ratio: Double, delta: Double) -> Double {
        put((get(ratio) + get(delta)).clamp(0.1, 0.9))
    }

    fn faded(&self, alpha: Single, share: Single) -> Single {
        Single { bits: (f32::from_bits(alpha.bits) * f32::from_bits(share.bits)).to_bits() }
    }

    fn number(&self, text: String) -> Option<Double> {
        text.parse::<f64>().ok().map(put)
    }
}

const MS: u64 = 1_000_000;

fn free(x: f64, y: f64, width: f64, height: f64) -> WindowGeometry<Double> {
    WindowGeometry { x: put(x), y: put(y), width: put(width), height: put(height) }
}

fn tile(x: i64, y: i64, width: i64, height: i64) -> Placement {
    Placement::Tile(WindowGeometry { x, y, width, height })
}

fn screen() -> Screen {
    Screen { output: Some((1020, 820)), top: vec![], bottom: vec![] }
}

fn at(x: i32, y: i32, w: i32, h: i32) -> OnScreen {
    OnScreen { location: Some((x, y)), size: (w, h) }
}

fn nowhere() -> OnScreen {
    OnScreen { location: None, size: (0, 0) }
}

fn state() -> LingxiState {
    LingxiState::new(LingxiConfig::default())
}

// Opens windows with the numbers 1 to n; window k has the surface 100 + k.
fn tiled(n: u64) -> LingxiState {
    let mut s = state();
    for w in 1..=n {
        s.new_toplevel(w, 100 + w, &screen(), 0, &Floats);
    }
    s
}

// Whether every tree has a leaf for each tiled window of its workspace.
fn trees_match(s: &LingxiState) -> bool {
    (0..NUM_WORKSPACES).all(|n| {
        let tiled = s.workspaces[n].iter().filter(|w| !s.is_floating(**w)).count();
        s.layout_trees[n].len() == tiled
    })
}

fn configure(window: u64, place: Placement) -> Effect {
    Effect::Configure(window, place)
}

fn bar(x: i32, y: i32, w: i32, h: i32, bw: i32, bh: i32) -> LayerBox {
    LayerBox {
        geometry: Some(WindowGeometry { x, y, width: w, height: h }),
        buffer_width: bw,
        buffer_height: bh,
    }
}

#[test]
fn floating_windows_stack_in_the_order_they_come() {
    let mut f = FloatingManager::new();
    assert!(!f.contains(1));
    f.add(1, free(0.0, 0.0, 10.0, 10.0));
    f.add(2, free(5.0, 5.0, 10.0, 10.0));
    f.add(3, free(9.0, 9.0, 10.0, 10.0));
    assert_eq!(f.z_ordered(), vec![1, 2, 3]);
    f.raise(1);
    assert_eq!(f.z_ordered(), vec![2, 3, 1]);
    f.raise(7);
    assert_eq!(f.z_ordered(), vec![2, 3, 1]);
    assert_eq!(f.geo(2), Some(free(5.0, 5.0, 10.0, 10.0)));
    assert!(f.remove(3));
    assert!(!f.remove(3));
    assert!(!f.contains(3));
    assert_eq!(f.geo(3), None);
    assert_eq!(f.z_ordered(), vec![2, 1]);
}

#[test]
fn each_floating_window_comes_once_whatever_is_done() {
    let at = free(0.0, 0.0, 10.0, 10.0);
    let mut f = FloatingManager::new();
    f.add(1, at);
    f.set_geo(2, at);
    f.set_geo(1, free(1.0, 1.0, 10.0, 10.0));
    f.raise(1);
    f.set_geo(2, at);
    f.add(3, at);
    f.remove(1);
    f.set_geo(1, at);
    assert_eq!(f.z_ordered(), vec![2, 3, 1]);
}

#[test]
fn floating_geometry_can_be_set_and_changed() {
    let mut f = FloatingManager::new();
    f.set_geo(4, free(1.0, 2.0, 3.0, 4.0));
    assert_eq!(f.geo(4), Some(free(1.0, 2.0, 3.0, 4.0)));
    f.set_geo(4, free(5.0, 6.0, 7.0, 8.0));
    assert_eq!(f.geo(4), Some(free(5.0, 6.0, 7.0, 8.0)));
    assert_eq!(f.z_ordered(), vec![4]);
    f.geo_mut(4).unwrap().x = put(50.0);
    assert_eq!(f.geo(4), Some(free(50.0, 6.0, 7.0, 8.0)));
    assert!(f.geo_mut(5).is_none());
}

#[test]
fn adding_and_removing_restores_the_stack() {
    let mut f = FloatingManager::new();
    f.add(1, free(0.0, 0.0, 1.0, 1.0));
    f.add(2, free(0.0, 0.0, 1.0, 1.0));
    f.add(9, free(0.0, 0.0, 1.0, 1.0));
    f.remove(9);
    assert_eq!(f.z_ordered(), vec![1, 2]);
}

#[test]
fn the_area_leaves_the_outer_gap() {
    let s = state();
    assert_eq!(
        s.usable_area(&screen()),
        WindowGeometry { x: 10, y: 10, width: 1000, height: 800 }
    );
    let none = Screen { output: None, top: vec![], bottom: vec![] };
    assert_eq!(
        s.usable_area(&none),
        WindowGeometry { x: 10, y: 10, width: 2540, height: 1580 }
    );
    assert_eq!(
        none.output_full_area(),
        WindowGeometry { x: 0, y: 0, width: 2560, height: 1600 }
    );
}

#[test]
fn bars_take_from_the_edges() {
    let s = state();
    let scr = Screen {
        output: Some((1020, 820)),
        top: vec![
            bar(0, 0, 1020, 30, 1020, 28),
            bar(400, 0, 10, 10, 10, 40),
            bar(0, 400, 50, 100, 50, 300),
            bar(990, 400, 30, 100, 30, 300),
        ],
        bottom: vec![bar(100, 760, 800, 60, 800, 60), bar(100, 500, 800, 60, 800, 90)],
    };
    // The top takes 40, the left 50, the right 30 and the bottom 60.
    assert_eq!(
        s.usable_area(&scr),
        WindowGeometry { x: 60, y: 50, width: 1000 - 50 - 30, height: 800 - 40 - 60 }
    );
}

#[test]
fn large_surfaces_and_unplaced_ones_are_no_bars() {
    let s = state();
    let unplaced = LayerBox { geometry: None, buffer_width: 50, buffer_height: 50 };
    let scr = Screen {
        output: Some((1020, 820)),
        top: vec![bar(0, 0, 1020, 820, 1020, 820), unplaced, bar(0, 0, 1020, 200, 1020, 200)],
        bottom: vec![bar(0, 0, 1020, 820, 0, 0)],
    };
    assert_eq!(
        s.usable_area(&scr),
        WindowGeometry { x: 10, y: 10, width: 1000, height: 800 }
    );
}

#[test]
fn entry_points_and_layer_sizes() {
    let none = Screen { output: None, top: vec![], bottom: vec![] };
    assert_eq!(none.entry_point(), (640, 400));
    assert_eq!(none.layer_size(), (1920, 1080));
    let odd = Screen { output: Some((1367, 0)), top: vec![], bottom: vec![] };
    assert_eq!(odd.entry_point(), (683, 0));
    assert_eq!(odd.layer_size(), (1367, 1));
}

#[test]
fn the_state_starts_with_five_empty_workspaces() {
    let s = state();
    assert_eq!(NUM_WORKSPACES, 5);
    assert_eq!(s.workspaces, vec![Vec::<u64>::new(); 5]);
    assert_eq!(s.layout_trees.len(), 5);
    assert_eq!(s.active_workspace, 0);
    assert!(!s.locked && s.needs_render);
    assert_eq!(s.fs_phase, FullscreenPhase::Off);
    assert_eq!(s.fs_phase, FullscreenPhase::default());
    assert_eq!(s.layout.inner_gap, 5);
    assert_eq!(s.focused_window(Some(101)), None);
    assert_eq!(s.focused_window(None), None);
}

#[test]
fn new_windows_dwindle_and_get_the_keyboard() {
    let mut s = state();
    let one = s.new_toplevel(1, 101, &screen(), 0, &Floats);
    assert_eq!(
        one,
        vec![
            Effect::Show { window: 1, x: 510, y: 410, activate: true },
            configure(1, tile(10, 10, 1000, 800)),
            Effect::Focus(Some(1)),
        ]
    );
    assert_eq!(s.layout_trees[0].len(), 1);
    let two = s.new_toplevel(2, 102, &screen(), 0, &Floats);
    assert_eq!(
        two,
        vec![
            Effect::Show { window: 2, x: 510, y: 410, activate: true },
            configure(1, tile(10, 10, 498, 800)),
            configure(2, tile(513, 10, 497, 800)),
            Effect::Focus(Some(2)),
        ]
    );
    assert_eq!(s.workspaces[0], vec![1, 2]);
    assert_eq!(s.layout_trees[0].len(), 2);
    assert_eq!(s.focused_window(Some(102)), Some(2));
    assert!(s.should_render());
    let target = s.animations.get_target(2).unwrap();
    assert_eq!((get(target.x), get(target.width)), (513.0, 497.0));
    // The new window flies in from about the middle of the screen: 510 - 497 / 4
    // and 410 - 800 / 4, without the fractions.
    assert_eq!(s.animations.get_position(2, &Floats), Some((385, 210)));
}

#[test]
fn relayout_of_an_empty_workspace_does_nothing() {
    let mut s = state();
    s.frame_drawn();
    assert_eq!(s.relayout(&screen(), 0, &Floats), vec![]);
    assert!(!s.needs_render);
}

#[test]
fn relayout_uses_the_tree() {
    let mut s = tiled(2);
    s.frame_drawn();
    assert_eq!(
        s.relayout(&screen(), 0, &Floats),
        vec![configure(1, tile(10, 10, 498, 800)), configure(2, tile(513, 10, 497, 800))]
    );
    assert!(s.needs_render);
}

#[test]
fn opening_a_window_leaves_floating_ones_alone() {
    let mut s = tiled(2);
    s.toggle_floating(Some(101), &screen(), 0, &Floats);
    let effects = s.new_toplevel(3, 103, &screen(), 0, &Floats);
    assert_eq!(
        effects[1..4],
        [
            configure(1, Placement::Free(free(210.0, 170.0, 600.0, 480.0))),
            configure(2, tile(10, 10, 498, 800)),
            configure(3, tile(513, 10, 497, 800)),
        ]
    );
    assert!(trees_match(&s));
}

#[test]
fn a_window_that_fills_the_screen_keeps_its_tile() {
    let mut s = tiled(3);
    let before = s.relayout(&screen(), 0, &Floats);
    let effects = s.toggle_fullscreen(Some(101), nowhere(), &screen(), 0, &Floats);
    assert_eq!(
        effects,
        vec![
            Effect::Fullscreen(1, true),
            configure(1, tile(0, 0, 1020, 820)),
            configure(2, tile(513, 10, 497, 398)),
            configure(3, tile(513, 413, 497, 397)),
        ]
    );
    assert_eq!(effects[2..], before[1..]);
    let more = s.new_toplevel(4, 104, &screen(), 0, &Floats);
    assert_eq!(more[1], configure(1, tile(0, 0, 1020, 820)));
    assert_eq!(more[2], configure(2, tile(513, 10, 497, 398)));
}

#[test]
fn a_closed_window_takes_its_leaf_along() {
    let mut s = tiled(3);
    let effects = s.toplevel_destroyed(101, &screen(), 0, &Floats);
    assert_eq!(
        effects,
        vec![
            Effect::Withdraw(1),
            configure(2, tile(10, 10, 1000, 398)),
            configure(3, tile(10, 413, 1000, 397)),
        ]
    );
    assert!(trees_match(&s));
    // A window on another workspace takes its leaf from there.
    s.move_to_workspace(3, Some(102), &screen(), 0, &Floats);
    assert_eq!(s.layout_trees[3].len(), 1);
    s.toplevel_destroyed(102, &screen(), 0, &Floats);
    assert_eq!(s.layout_trees[3].len(), 0);
    assert!(trees_match(&s));
    s.toplevel_destroyed(103, &screen(), 0, &Floats);
    assert_eq!(s.workspaces[0], Vec::<u64>::new());
    assert!(trees_match(&s));
}

#[test]
fn windows_can_be_left_and_come_back_to() {
    let mut s = tiled(3);
    assert!(s.can_switch(1) && s.can_switch(0) && s.can_switch(7));
    s.switch_workspace(1, &vec![1, 2, 3], &screen(), 0, &Floats);
    s.new_toplevel(4, 104, &screen(), 0, &Floats);
    assert!(s.can_switch(0));
    let back = s.switch_workspace(0, &vec![4], &screen(), 0, &Floats);
    assert_eq!(back.last(), Some(&Effect::Focus(Some(1))));
    assert_eq!(get(s.animations.get_target(3).unwrap().y), 413.0);
    assert!(trees_match(&s));
    // Without a leaf for each window there is nowhere to fly in to.
    s.layout_trees[1].remove(0);
    assert!(!s.can_switch(1));
}

#[test]
fn a_window_without_a_leaf_gets_the_whole_area() {
    let mut s = tiled(2);
    s.layout_trees[0].remove(1);
    assert_eq!(
        s.relayout(&screen(), 0, &Floats),
        vec![configure(1, tile(10, 10, 1000, 800)), configure(2, tile(10, 10, 1000, 800))]
    );
}

#[test]
fn room_is_counted_in_tiles() {
    let s = tiled(2);
    assert!(s.has_room(0) && s.has_room(1));
    assert!(s.has_room(MAX_TILES - 2));
    assert!(!s.has_room(MAX_TILES - 1));
    assert!(!s.has_room(MAX_TILES + 1));
    assert!(s.floating.has_room());
}

#[test]
fn full_screen_is_asked_answered_and_left() {
    let mut s = tiled(2);
    let effects = s.toggle_fullscreen(Some(102), at(513, 10, 497, 800), &screen(), 5, &Floats);
    assert_eq!(
        effects,
        vec![
            Effect::Fullscreen(2, true),
            configure(1, tile(10, 10, 498, 800)),
            configure(2, tile(0, 0, 1020, 820)),
        ]
    );
    assert_eq!(s.fullscreen_window, Some(2));
    // The width is that which the window has been given.
    assert_eq!(
        s.fs_phase,
        FullscreenPhase::Pending { since: 5, fallback_geo: free(513.0, 10.0, 497.0, 800.0) }
    );
    assert_eq!(s.commit(101, false), vec![]);
    assert!(matches!(s.fs_phase, FullscreenPhase::Pending { .. }));
    assert_eq!(s.commit(102, false), vec![]);
    assert_eq!(s.fs_phase, FullscreenPhase::Active);
    let effects = s.toggle_fullscreen(Some(102), nowhere(), &screen(), 9, &Floats);
    assert_eq!(effects[0], Effect::Fullscreen(2, false));
    assert_eq!(effects[2], configure(2, tile(513, 10, 497, 800)));
    assert_eq!(s.fullscreen_window, None);
    assert_eq!(s.fs_phase, FullscreenPhase::Off);
    assert_eq!(s.toggle_fullscreen(None, nowhere(), &screen(), 9, &Floats), vec![]);
}

#[test]
fn a_window_that_floats_leaves_its_tile_and_comes_back_last() {
    let mut s = tiled(3);
    let effects = s.toggle_floating(Some(101), &screen(), 0, &Floats);
    assert!(s.is_floating(1));
    assert_eq!(s.layout_trees[0].len(), 2);
    assert_eq!(
        effects,
        vec![
            configure(1, Placement::Free(free(210.0, 170.0, 600.0, 480.0))),
            configure(2, tile(10, 10, 1000, 398)),
            configure(3, tile(10, 413, 1000, 397)),
        ]
    );
    s.toggle_floating(Some(101), &screen(), 0, &Floats);
    assert!(!s.is_floating(1));
    assert_eq!(s.layout_trees[0].len(), 3);
    assert_eq!(s.workspaces[0], vec![2, 3, 1]);
    assert_eq!(s.toggle_floating(Some(999), &screen(), 0, &Floats), vec![]);
}

#[test]
fn the_geometry_of_a_window_comes_from_the_best_source() {
    let mut s = tiled(1);
    assert_eq!(s.window_geometry(9, at(3, 4, 50, 60), &Floats), free(3.0, 4.0, 50.0, 60.0));
    assert_eq!(s.window_geometry(9, nowhere(), &Floats), free(0.0, 0.0, 0.0, 0.0));
    assert_eq!(s.window_geometry(1, at(3, 4, 50, 60), &Floats), free(3.0, 4.0, 1000.0, 800.0));
    s.set_floating_geo(1, free(7.0, 7.0, 70.0, 70.0), false);
    assert_eq!(s.window_geometry(1, at(3, 4, 50, 60), &Floats), free(7.0, 7.0, 70.0, 70.0));
}

#[test]
fn floating_windows_are_put_down_at_once() {
    let mut s = tiled(1);
    let geo = free(7.0, 8.0, 90.0, 70.0);
    assert_eq!(s.set_floating_geo(1, geo, false), vec![Effect::Move(1, geo)]);
    assert_eq!(
        s.set_floating_geo(1, geo, true),
        vec![Effect::Move(1, geo), configure(1, Placement::Free(geo))]
    );
    assert_eq!(s.animations.get_target(1), None);
    assert_eq!(s.floating_z_ordered(), vec![1]);
    s.raise_window(1);
    assert_eq!(s.floating_z_ordered(), vec![1]);
}

#[test]
fn a_drag_follows_the_pointer() {
    let mut s = tiled(1);
    s.toggle_floating(Some(101), &screen(), 0, &Floats);
    s.pointer_moved(put(300.0), put(200.0));
    s.start_drag(1, at(210, 170, 600, 480), &Floats);
    assert_eq!(s.drag_offset, (put(90.0), put(30.0)));
    s.pointer_moved(put(400.0), put(250.0));
    let moved = free(310.0, 220.0, 600.0, 480.0);
    assert_eq!(s.update_drag(&Floats), vec![Effect::Move(1, moved)]);
    assert_eq!(s.floating.geo(1), Some(moved));
    s.end_drag();
    assert_eq!(s.update_drag(&Floats), vec![]);
    s.start_drag(5, nowhere(), &Floats);
    assert_eq!(s.update_drag(&Floats), vec![]);
}

#[test]
fn floating_windows_move_and_resize_by_keys() {
    let mut s = tiled(1);
    assert_eq!(s.move_floating_focused(Some(101), put(50.0), put(0.0), &Floats), vec![]);
    assert_eq!(s.resize_floating_focused(Some(101), put(50.0), put(0.0), &Floats), vec![]);
    s.toggle_floating(Some(101), &screen(), 0, &Floats);
    let moved = free(260.0, 120.0, 600.0, 480.0);
    assert_eq!(
        s.move_floating_focused(Some(101), put(50.0), put(-50.0), &Floats),
        vec![Effect::Move(1, moved)]
    );
    let small = free(260.0, 120.0, 200.0, 150.0);
    assert_eq!(
        s.resize_floating_focused(Some(101), put(-1000.0), put(-1000.0), &Floats),
        vec![Effect::Move(1, small), configure(1, Placement::Free(small))]
    );
    assert_eq!(s.floating.geo(1), Some(small));
}

#[test]
fn frames_move_windows_until_they_rest() {
    let mut s = tiled(1);
    s.frame_drawn();
    assert!(s.should_render());
    let effects = s.tick_animations(100 * MS, &Floats);
    assert!(matches!(effects[..], [Effect::Animate(1, _)]));
    assert!(!s.needs_render);
    let effects = s.tick_animations(350 * MS, &Floats);
    let rest = AnimatedRect { x: put(10.0), y: put(10.0), width: put(1000.0), height: put(800.0) };
    assert_eq!(effects, vec![Effect::Animate(1, rest)]);
    assert!(s.needs_render);
    s.frame_drawn();
    assert!(!s.should_render());
    assert_eq!(s.tick_animations(400 * MS, &Floats), vec![]);
    s.mark_dirty();
    assert!(s.should_render());
}

#[test]
fn switching_workspaces_takes_windows_off_and_puts_them_on() {
    let mut s = tiled(2);
    let away = s.switch_workspace(1, &vec![1, 2], &screen(), 0, &Floats);
    assert_eq!(away, vec![Effect::Withdraw(1), Effect::Withdraw(2)]);
    assert_eq!(s.active_workspace, 1);
    assert_eq!(s.animations.get_target(1), None);
    let back = s.switch_workspace(0, &vec![], &screen(), 0, &Floats);
    assert_eq!(
        back,
        vec![
            Effect::Show { window: 1, x: 0, y: 0, activate: false },
            Effect::Show { window: 2, x: 0, y: 0, activate: false },
            Effect::Focus(Some(1)),
        ]
    );
    assert_eq!(get(s.animations.get_target(2).unwrap().x), 513.0);
    assert_eq!(s.switch_workspace(0, &vec![1, 2], &screen(), 0, &Floats), vec![]);
    assert_eq!(s.switch_workspace(5, &vec![1, 2], &screen(), 0, &Floats), vec![]);
    assert_eq!(s.workspaces[0], vec![1, 2]);
}

#[test]
fn a_window_goes_to_another_workspace_with_its_leaf() {
    let mut s = tiled(3);
    let effects = s.move_to_workspace(2, Some(101), &screen(), 0, &Floats);
    assert_eq!(effects[0], Effect::Withdraw(1));
    assert_eq!(
        effects[1..],
        [configure(2, tile(10, 10, 1000, 398)), configure(3, tile(10, 413, 1000, 397))]
    );
    assert_eq!(s.workspaces[0], vec![2, 3]);
    assert_eq!(s.workspaces[2], vec![1]);
    assert_eq!((s.layout_trees[0].len(), s.layout_trees[2].len()), (2, 1));
    assert_eq!(s.move_to_workspace(9, Some(102), &screen(), 0, &Floats), vec![]);
    assert_eq!(s.move_to_workspace(1, None, &screen(), 0, &Floats), vec![]);
}

#[test]
fn a_window_sent_to_its_own_workspace_goes_last() {
    let mut s = tiled(3);
    assert_eq!(s.move_to_workspace(0, Some(101), &screen(), 0, &Floats), vec![]);
    assert_eq!(s.workspaces[0], vec![2, 3, 1]);
    assert_eq!(s.layout_trees[0].len(), 3);
}

#[test]
fn a_floating_window_goes_without_a_leaf() {
    let mut s = tiled(2);
    s.toggle_floating(Some(102), &screen(), 0, &Floats);
    s.move_to_workspace(3, Some(102), &screen(), 0, &Floats);
    assert_eq!(s.workspaces[3], vec![2]);
    assert_eq!((s.layout_trees[0].len(), s.layout_trees[3].len()), (1, 0));
    assert!(s.is_floating(2));
}

#[test]
fn swapping_exchanges_neighbours_and_back() {
    let mut s = tiled(3);
    let effects = s.swap_focused(true, Some(103), &screen(), 0, &Floats);
    assert_eq!(s.workspaces[0], vec![3, 2, 1]);
    assert_eq!(effects[..3], [Effect::Withdraw(3), Effect::Withdraw(2), Effect::Withdraw(1)]);
    assert_eq!(effects[3], Effect::Show { window: 3, x: 0, y: 0, activate: false });
    assert_eq!(effects[6], configure(3, tile(10, 10, 498, 800)));
    assert_eq!(effects.len(), 9);
    s.swap_focused(false, Some(103), &screen(), 0, &Floats);
    assert_eq!(s.workspaces[0], vec![1, 2, 3]);
    assert_eq!(s.swap_focused(true, None, &screen(), 0, &Floats), vec![]);
    let mut one = tiled(1);
    assert_eq!(one.swap_focused(true, Some(101), &screen(), 0, &Floats), vec![]);
}

#[test]
fn the_keyboard_goes_round() {
    let mut s = tiled(3);
    let mapped = vec![1, 2, 3];
    assert_eq!(s.cycle_focus(true, &mapped, Some(101)), vec![Effect::Focus(Some(2))]);
    assert_eq!(s.cycle_focus(true, &mapped, Some(103)), vec![Effect::Focus(Some(1))]);
    assert_eq!(s.cycle_focus(false, &mapped, Some(101)), vec![Effect::Focus(Some(3))]);
    assert_eq!(s.cycle_focus(false, &mapped, Some(102)), vec![Effect::Focus(Some(1))]);
    assert_eq!(s.cycle_focus(true, &mapped, None), vec![Effect::Focus(Some(2))]);
    assert_eq!(s.cycle_focus(true, &vec![], Some(101)), vec![]);
}

#[test]
fn only_a_window_on_the_screen_is_closed() {
    let s = tiled(2);
    assert_eq!(s.close_focused_window(&vec![1, 2], Some(102)), vec![Effect::Close(2)]);
    assert_eq!(s.close_focused_window(&vec![1], Some(102)), vec![]);
    assert_eq!(s.close_focused_window(&vec![1, 2], Some(7)), vec![]);
    assert_eq!(s.close_focused_window(&vec![1, 2], None), vec![]);
}

#[test]
fn a_destroyed_window_is_forgotten() {
    let mut s = tiled(2);
    s.toggle_floating(Some(102), &screen(), 0, &Floats);
    s.toggle_fullscreen(Some(102), nowhere(), &screen(), 0, &Floats);
    let effects = s.toplevel_destroyed(102, &screen(), 0, &Floats);
    assert_eq!(effects, vec![Effect::Withdraw(2), configure(1, tile(10, 10, 1000, 800))]);
    assert_eq!(s.workspaces[0], vec![1]);
    assert_eq!(s.fullscreen_window, None);
    assert_eq!(s.fs_phase, FullscreenPhase::Off);
    assert!(!s.is_floating(2));
    assert_eq!(s.focused_window(Some(102)), None);
    assert_eq!(s.animations.get_target(2), None);
    assert_eq!(s.toplevel_destroyed(102, &screen(), 0, &Floats), vec![]);
}

#[test]
fn launchers_get_the_keyboard_and_give_it_back() {
    let mut s = tiled(1);
    assert_eq!(s.commit(55, true), vec![Effect::FocusSurface(55)]);
    assert_eq!(s.layer_destroyed(55, Some(55)), vec![Effect::Focus(Some(1))]);
    assert_eq!(s.layer_destroyed(55, Some(101)), vec![]);
    assert_eq!(state().layer_destroyed(55, Some(55)), vec![Effect::Focus(None)]);
    assert_eq!(s.new_layer_surface(&screen()), (1020, 820));
}

#[test]
fn input_method_popups_come_and_go() {
    let mut s = tiled(1);
    s.new_ime_popup(77);
    assert_eq!(s.ime_popup, Some(77));
    s.dismiss_ime_popup();
    assert_eq!(s.ime_popup, None);
    let here = at(3, 4, 50, 60);
    assert_eq!(
        s.parent_geometry(101, here),
        WindowGeometry { x: 3, y: 4, width: 50, height: 60 }
    );
    assert_eq!(
        s.parent_geometry(999, here),
        WindowGeometry { x: 0, y: 0, width: 0, height: 0 }
    );
    assert_eq!(
        s.window_screen_geometry(nowhere()),
        WindowGeometry { x: 0, y: 0, width: 0, height: 0 }
    );
}

#[test]
fn locking_hides_the_windows_and_unlocking_brings_them_back() {
    let mut s = tiled(2);
    s.new_ime_popup(77);
    s.password_input = "left over".to_string();
    assert_eq!(s.lock(&vec![1, 2]), vec![Effect::Withdraw(1), Effect::Withdraw(2)]);
    assert!(s.locked);
    assert_eq!(s.password_input, "");
    assert_eq!(s.ime_popup, None);
    let effects = s.unlock(&screen(), 0, &Floats);
    assert!(!s.locked);
    assert_eq!(
        effects,
        vec![
            Effect::Show { window: 1, x: 0, y: 0, activate: true },
            Effect::Show { window: 2, x: 0, y: 0, activate: true },
            configure(1, tile(10, 10, 498, 800)),
            configure(2, tile(513, 10, 497, 800)),
            Effect::Focus(Some(1)),
        ]
    );
    let mut empty = state();
    empty.lock_screen(&vec![]);
    assert_eq!(empty.unlock(&screen(), 0, &Floats), vec![Effect::Focus(None)]);
}
