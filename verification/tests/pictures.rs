use lingxi::animation::Animation;
use lingxi::compositor::state::LingxiState;
use lingxi::compositor::window::AnimatedRect;
use lingxi::compositor::windows::OnScreen;
use lingxi::config::LingxiConfig;
use lingxi::layout::{Columns, Row, WindowGeometry, MAX_EXTENT};
use lingxi::numerics::Numerics;
use lingxi::renderer::cursor::{
    choose_image, create_cursor_data, create_fallback_cursor, load_cursor, swap_red_blue,
    theme_name, CursorImage,
};
use lingxi::renderer::scene::{
    focus_border, lock_scene, popups_and_window, LayerSurface, Level, PopupBox, SceneInput,
    SceneItem, SolidRect, WindowBox,
};
use lingxi::renderer::RenderEffects;
use lingxi::scalar::{Color, Double, Single};

struct Floats;

fn get(value: Double) -> f64 {
    f64::from_bits(value.bits)
}

fn put(value: f64) -> Double {
    Double { bits: value.to_bits() }
}

impl Numerics for Floats {
    fn split(&self, ratio: Double, gap: u32, extent: i64) -> i64 {
        let limit = MAX_EXTENT as f64;
        (extent as f64 * get(ratio) - gap as f64 / 2.0).round().clamp(-limit, limit) as i64
    }

    fn columns(&self, area: WindowGeometry<Double>, ratio: Double) -> Columns {
        let master = get(area.width) * get(ratio);
        Columns {
            master_width: put(master),
            stack_x: put(get(area.x) + master),
            stack_width: put(get(area.width) - master),
        }
    }

    fn row(&self, area: WindowGeometry<Double>, number: usize, count: usize) -> Row {
        let height = get(area.height) / count as f64;
        Row { y: put(get(area.y) + height * number as f64), height: put(height) }
    }

    fn far(&self, a: Double, b: Double) -> bool {
        (get(a) - get(b)).abs() > 1.0
    }

    fn sample(&self, animation: Animation, elapsed: u64) -> Double {
        let t = elapsed as f64 / animation.duration as f64;
        put(get(animation.start) + (get(animation.end) - get(animation.start)) * t)
    }

    fn double(&self, n: i64) -> Double {
        put(n as f64)
    }

    fn entry(&self, target: AnimatedRect, output: (i32, i32)) -> AnimatedRect {
        AnimatedRect {
            x: put(output.0 as f64 / 2.0 - get(target.width) / 4.0),
            y: put(output.1 as f64 / 2.0 - get(target.height) / 4.0),
            width: put(get(target.width) * 0.5),
            height: put(get(target.height) * 0.5),
        }
    }

    fn centered(&self, area: WindowGeometry<i64>) -> WindowGeometry<Double> {
        let width = area.width as f64 * 0.6;
        let height = area.height as f64 * 0.6;
        WindowGeometry {
            x: put(area.x as f64 + (area.width as f64 - width) / 2.0),
            y: put(area.y as f64 + (area.height as f64 - height) / 2.0),
            width: put(width),
            height: put(height),
        }
    }

    fn truncated(&self, value: Double) -> i32 {
        get(value) as i32
    }

    fn plus(&self, a: Double, b: Double) -> Double {
        put(get(a) + get(b))
    }

    fn minus(&self, a: Double, b: Double) -> Double {
        put(get(a) - get(b))
    }

    fn bounded(&self, value: Double, delta: Double, last: i32) -> Double {
        put((get(value) + get(delta)).clamp(0.0, last as f64))
    }

    fn negligible(&self, amount: Double) -> bool {
        !(get(amount).abs() > f64::EPSILON)
    }

    fn is_zero(&self, value: Double) -> bool {
        get(value) == 0.0
    }

    fn resized(&self, side: Double, delta: Double, least: u32) -> Double {
        put((get(side) + get(delta)).max(least as f64))
    }

    fn adjusted(&self, ratio: Double, delta: Double) -> Double {
        put((get(ratio) + get(delta)).clamp(0.1, 0.9))
    }

    fn faded(&self, alpha: Single, share: Single) -> Single {
        Single { bits: (f32::from_bits(alpha.bits) * f32::from_bits(share.bits)).to_bits() }
    }

    fn number(&self, text: String) -> Option<Double> {
        text.parse::<f64>().ok().map(put)
    }
}

fn single(value: f32) -> Single {
    Single { bits: value.to_bits() }
}

fn color(r: f32, g: f32, b: f32, a: f32) -> Color {
    Color { red: single(r), green: single(g), blue: single(b), alpha: single(a) }
}

fn place(r: &SolidRect) -> (i32, i32, i32, i32) {
    (r.x, r.y, r.width, r.height)
}

fn image(size: u32) -> CursorImage {
    CursorImage { size, width: 1, height: 1, xhot: 0, yhot: 0, pixels_rgba: vec![1, 2, 3, 4] }
}

// A cursor file with one image per size: one pixel each, whose first byte is the
// size.
fn cursor_file(sizes: &[u32]) -> Vec<u8> {
    let mut bytes: Vec<u8> = b"Xcur".to_vec();
    let mut word = |bytes: &mut Vec<u8>, n: u32| bytes.extend(n.to_le_bytes());
    word(&mut bytes, 16);
    word(&mut bytes, 0x10000);
    word(&mut bytes, sizes.len() as u32);
    let start = 16 + 12 * sizes.len() as u32;
    for (i, size) in sizes.iter().enumerate() {
        word(&mut bytes, 0xfffd0002);
        word(&mut bytes, *size);
        word(&mut bytes, start + 40 * i as u32);
    }
    for size in sizes {
        for n in [36, 0xfffd0002, *size, 1, 1, 1, 1, 0, 50] {
            word(&mut bytes, n);
        }
        bytes.extend([*size as u8, 20, 30, 40]);
    }
    bytes
}

fn window_box(window: u64, x: i32, y: i32, w: i32, h: i32) -> WindowBox {
    WindowBox { window, location: Some((x, y)), content: (0, 0), size: (w, h), target: None }
}

fn layer(surface: u64, level: Level, location: Option<(i32, i32)>) -> LayerSurface {
    LayerSurface { surface, level, location }
}

fn input(boxes: Vec<WindowBox>) -> SceneInput {
    SceneInput {
        output: Some((1000, 800)),
        cursor: true,
        popup: None,
        focus: None,
        at: OnScreen { location: None, size: (0, 0) },
        mapped: boxes.iter().rev().map(|b| b.window).collect(),
        boxes,
        layers: vec![
            layer(30, Level::Background, None),
            layer(31, Level::Top, Some((0, 780))),
            layer(32, Level::Overlay, Some((5, 6))),
            layer(33, Level::Bottom, Some((1, 2))),
        ],
        shaders: true,
    }
}

#[test]
fn effects_by_default() {
    let e = RenderEffects::default();
    assert_eq!(e.corner_radius, single(10.0));
    assert_eq!(e.blur_strength, single(0.0));
    assert!(e.shadow.is_none());
    assert_eq!(e.opacity, single(1.0));
}

#[test]
fn the_lock_screen_is_centred() {
    let rects = lock_scene(Some((1000, 800)), 2, false);
    let places: Vec<_> = rects.iter().map(place).collect();
    assert_eq!(
        places,
        vec![
            (250, 360, 500, 80),
            (400, 330, 200, 6),
            (476, 393, 14, 14),
            (500, 393, 14, 14),
            (0, 0, 1000, 800),
        ]
    );
    assert_eq!(rects[0].color, color(0.345, 0.357, 0.439, 1.0));
    assert_eq!(rects[1].color, color(0.537, 0.706, 0.980, 1.0));
    assert_eq!(rects[2].color, color(1.0, 1.0, 1.0, 1.0));
    assert_eq!(rects[4].color, color(0.118, 0.118, 0.180, 1.0));
}

#[test]
fn a_wrong_password_shows_a_red_bar() {
    let rects = lock_scene(None, 0, true);
    assert_eq!(rects.len(), 4);
    assert_eq!(place(&rects[2]), (1720, 1040 + 95, 400, 6));
    assert_eq!(rects[2].color, color(0.953, 0.545, 0.659, 1.0));
    assert_eq!(place(&rects[3]), (0, 0, 3840, 2160));
}

#[test]
fn no_more_than_twenty_dots_are_shown() {
    assert_eq!(lock_scene(Some((1000, 800)), 20, false).len(), 23);
    let many = lock_scene(Some((1000, 800)), 64, false);
    assert_eq!(many, lock_scene(Some((1000, 800)), 20, false));
    assert_eq!(place(&many[2]), (260, 393, 14, 14));
}

#[test]
fn a_tiny_screen_is_halved_towards_zero() {
    let rects = lock_scene(Some((499, 79)), 0, false);
    assert_eq!(place(&rects[0]), (0, 0, 500, 80));
    let rects = lock_scene(Some((101, 0)), 0, false);
    assert_eq!(place(&rects[0]), (-199, -40, 500, 80));
}

#[test]
fn the_focus_border_glows_outwards() {
    let rects = focus_border((100, 50), (300, 200), color(0.0, 0.9, 0.8, 1.0), &Floats);
    assert_eq!(rects.len(), 12);
    let places: Vec<_> = rects[..4].iter().map(place).collect();
    assert_eq!(
        places,
        vec![(97, 47, 306, 1), (97, 252, 306, 1), (97, 48, 1, 204), (402, 48, 1, 204)]
    );
    assert_eq!(place(&rects[8]), (99, 49, 302, 1));
    assert_eq!(rects[0].color, color(0.0, 0.9, 0.8, 0.2));
    assert_eq!(rects[4].color, color(0.0, 0.9, 0.8, 0.5));
    assert_eq!(rects[8].color, color(0.0, 0.9, 0.8, 1.0));
}

#[test]
fn windows_are_painted_from_the_bottom_up() {
    let mut s = LingxiState::new(LingxiConfig::default());
    let at = WindowGeometry { x: put(0.0), y: put(0.0), width: put(9.0), height: put(9.0) };
    s.floating.add(3, at);
    s.floating.add(2, at);
    s.floating.raise(3);
    assert_eq!(s.draw_order(&vec![1, 2, 3, 4]), vec![1, 4, 2, 3]);
    assert_eq!(s.front_to_back(&vec![1, 2, 3, 4]), vec![3, 2, 4, 1]);
    s.fullscreen_window = Some(1);
    assert_eq!(s.draw_order(&vec![1, 2, 3, 4]), vec![4, 2, 3, 1]);
    s.fullscreen_window = Some(2);
    assert_eq!(s.draw_order(&vec![1, 2, 3, 4]), vec![1, 4, 3, 2]);
}

#[test]
fn popups_come_before_their_window() {
    assert_eq!(popups_and_window(0), (0, false));
    assert_eq!(popups_and_window(1), (0, true));
    assert_eq!(popups_and_window(4), (3, true));
}

#[test]
fn a_scene_goes_from_the_pointer_to_the_wallpaper() {
    let mut s = LingxiState::new(LingxiConfig::default());
    s.by_surface.insert(101, 1);
    s.ime_popup = Some(9);
    let mut view = input(vec![window_box(1, 100, 50, 300, 200)]);
    view.popup = Some(PopupBox { x: 7, y: 10, line_height: 20 });
    view.focus = Some(101);
    view.at = OnScreen { location: Some((100, 50)), size: (300, 200) };
    let items = s.build_scene(&view, &Floats);
    assert_eq!(items.len(), 4 + 12 + 2 + 2);
    assert_eq!(items[0], SceneItem::Cursor);
    assert_eq!(items[1], SceneItem::InputPopup { x: 7, y: 34 });
    assert_eq!(items[2], SceneItem::Layer { surface: 32, x: 5, y: 6 });
    assert_eq!(items[3], SceneItem::Layer { surface: 31, x: 0, y: 780 });
    assert!(items[4..16].iter().all(|i| matches!(i, SceneItem::Solid(_))));
    assert_eq!(items[16], SceneItem::Window { window: 1, x: 100, y: 50, rounded: true });
    // The default shadow reaches fifteen pixels.
    assert_eq!(
        items[17],
        SceneItem::Shadow {
            window: 1,
            x: 85,
            y: 35,
            width: 330,
            height: 230,
            size_w: 300,
            size_h: 200
        }
    );
    assert_eq!(items[18], SceneItem::Layer { surface: 33, x: 1, y: 2 });
    assert_eq!(items[19], SceneItem::Layer { surface: 30, x: 0, y: 0 });
}

#[test]
fn without_effects_windows_are_plain() {
    let s = LingxiState::new(LingxiConfig::default());
    let mut offset = window_box(1, 100, 50, 300, 200);
    offset.content = (10, 20);
    let mut view = input(vec![offset, window_box(2, 0, 0, 0, 5)]);
    view.shaders = false;
    view.cursor = false;
    view.layers = vec![];
    view.popup = Some(PopupBox { x: 7, y: 10, line_height: 20 });
    assert_eq!(
        s.build_scene(&view, &Floats),
        vec![
            SceneItem::Window { window: 1, x: 90, y: 30, rounded: false },
            SceneItem::Window { window: 2, x: 0, y: 0, rounded: false },
        ]
    );
    // A window without content has no shadow either.
    view.shaders = true;
    view.boxes = vec![window_box(2, 0, 0, 0, 5)];
    view.mapped = vec![2];
    assert_eq!(s.build_scene(&view, &Floats).len(), 1);
}

#[test]
fn higher_windows_are_in_front_and_layers_around_them() {
    let mut s = LingxiState::new(LingxiConfig::default());
    s.config.decoration.shadow_enabled = false;
    let at = WindowGeometry { x: put(0.0), y: put(0.0), width: put(9.0), height: put(9.0) };
    s.floating.add(3, at);
    s.floating.add(2, at);
    let mut view = input(vec![]);
    view.mapped = vec![1, 2, 3, 4];
    view.boxes = (1..5).map(|w| window_box(w, 0, 0, 9, 9)).collect();
    let shown = |s: &LingxiState| -> Vec<u64> {
        s.build_scene(&view, &Floats)
            .iter()
            .map(|item| match item {
                SceneItem::Window { window, .. } => *window,
                SceneItem::Layer { surface, .. } => *surface,
                _ => 0,
            })
            .collect()
    };
    assert_eq!(shown(&s), vec![0, 32, 31, 2, 3, 4, 1, 33, 30]);
    s.fullscreen_window = Some(4);
    assert_eq!(shown(&s), vec![0, 32, 31, 4, 2, 3, 1, 33, 30]);
    s.fullscreen_window = Some(3);
    assert_eq!(shown(&s), vec![0, 32, 31, 3, 2, 4, 1, 33, 30]);
}

#[test]
fn a_full_screen_window_is_drawn_in_the_size_it_was_given() {
    let mut s = LingxiState::new(LingxiConfig::default());
    let mut b = window_box(1, 0, 0, 300, 200);
    b.target = Some((1000, 800));
    let shadow = |s: &LingxiState| match s.build_scene(&input(vec![b]), &Floats)[4] {
        SceneItem::Shadow { size_w, size_h, .. } => (size_w, size_h),
        _ => unreachable!(),
    };
    assert_eq!(shadow(&s), (300, 200));
    s.fullscreen_window = Some(1);
    assert_eq!(shadow(&s), (1000, 800));
}

#[test]
fn what_cannot_be_drawn_is_told_apart() {
    let mut s = LingxiState::new(LingxiConfig::default());
    assert!(input(vec![window_box(1, 0, 0, 300, 200)]).can_draw(&s));
    // The default shadow reaches fifteen pixels on either side.
    assert!(input(vec![window_box(1, 0, 0, i32::MAX - 30, 200)]).can_draw(&s));
    let large = || input(vec![window_box(1, 0, 0, i32::MAX - 29, 200)]);
    assert!(!large().can_draw(&s));
    assert!(!input(vec![window_box(1, i32::MIN, 0, 300, 200)]).can_draw(&s));
    // Without a shadow, or without being drawn, there is nothing to fit.
    let mut view = large();
    view.shaders = false;
    assert!(view.can_draw(&s));
    assert_eq!(s.build_scene(&view, &Floats).len(), 1 + 2 + 1 + 2);
    let mut view = large();
    view.mapped = vec![];
    assert!(view.can_draw(&s));
    assert!(input(vec![window_box(1, i32::MIN, 0, 0, 200)]).can_draw(&s));
    let mut off = window_box(1, i32::MIN, 0, 0, 200);
    off.content = (1, 0);
    assert!(!input(vec![off]).can_draw(&s));
    s.config.decoration.shadow_enabled = false;
    assert!(large().can_draw(&s));
    let mut view = input(vec![]);
    view.popup = Some(PopupBox { x: 0, y: i32::MAX - 10, line_height: 7 });
    assert!(view.can_draw(&s));
    s.ime_popup = Some(9);
    assert!(!view.can_draw(&s));
    view.popup = Some(PopupBox { x: 0, y: i32::MAX - 10, line_height: 6 });
    assert!(view.can_draw(&s));
    view.at = OnScreen { location: Some((0, 0)), size: (-1, 5) };
    assert!(view.can_draw(&s));
    s.by_surface.insert(101, 1);
    view.focus = Some(101);
    assert!(!view.can_draw(&s));
    // The lock screen asks for nothing but the size of the output.
    s.locked = true;
    assert!(view.can_draw(&s));
    view.output = Some((-1, 800));
    assert!(!view.can_draw(&s));
    s.locked = false;
    view.focus = None;
    assert!(view.can_draw(&s));
}

#[test]
fn the_lock_screen_hides_everything() {
    let mut s = LingxiState::new(LingxiConfig::default());
    s.locked = true;
    s.password_input = "abc".to_string();
    let items = s.build_scene(&input(vec![window_box(1, 0, 0, 300, 200)]), &Floats);
    assert_eq!(items.len(), 6);
    assert!(items.iter().all(|i| matches!(i, SceneItem::Solid(_))));
}

#[test]
fn the_closest_cursor_is_used_and_larger_ones_first() {
    let list = |sizes: &[u32]| sizes.iter().map(|s| image(*s)).collect::<Vec<_>>();
    assert_eq!(choose_image(&list(&[16, 24, 32]), 24), Some(1));
    assert_eq!(choose_image(&list(&[16, 20, 48]), 24), Some(2));
    assert_eq!(choose_image(&list(&[16, 20]), 24), Some(1));
    assert_eq!(choose_image(&list(&[32, 32]), 24), Some(0));
    assert_eq!(choose_image(&list(&[23, 2000]), 24), Some(0));
    assert_eq!(choose_image(&vec![], 24), None);
}

#[test]
fn red_and_blue_change_places() {
    let pixels = vec![1, 2, 3, 4, 5, 6, 7, 8];
    let swapped = swap_red_blue(&pixels);
    assert_eq!(swapped, vec![3, 2, 1, 4, 7, 6, 5, 8]);
    assert_eq!(swap_red_blue(&swapped), pixels);
}

#[test]
fn cursor_files_are_read() {
    let cursor = load_cursor(&cursor_file(&[16, 24, 48]), 20).unwrap();
    assert_eq!((cursor.width, cursor.height), (1, 1));
    assert_eq!((cursor.hotspot_x, cursor.hotspot_y), (1, 0));
    // The pixel of the image of size 24, blue first.
    assert_eq!(cursor.pixels_bgra, vec![30, 20, 24, 40]);
    assert!(load_cursor(&b"no cursor".to_vec(), 20).is_none());
    assert!(load_cursor(&cursor_file(&[]), 20).is_none());
}

#[test]
fn the_arrow_stands_in_for_a_missing_cursor() {
    let arrow = create_fallback_cursor();
    assert_eq!((arrow.width, arrow.height), (24, 24));
    assert_eq!((arrow.hotspot_x, arrow.hotspot_y), (0, 0));
    assert_eq!(arrow.pixels_bgra.len(), 24 * 24 * 4);
    let row = |y: usize| -> String {
        (0..24)
            .map(|x| if arrow.pixels_bgra[(y * 24 + x) * 4 + 3] == 255 { '#' } else { '.' })
            .collect::<String>()
            .trim_end_matches('.')
            .to_string()
    };
    assert_eq!(row(0), "#");
    assert_eq!(row(11), "############");
    assert_eq!(row(12), "######");
    assert_eq!(row(13), "#######");
    assert_eq!(row(14), "####..##");
    assert_eq!(row(17), "#........##");
    assert_eq!(row(18), "");
    let white = arrow.pixels_bgra.iter().filter(|b| **b == 255).count();
    assert_eq!(white, 4 * (78 + 6 + 7 + 6 + 5 + 4 + 3));
    assert_eq!(create_cursor_data(None, 24).pixels_bgra, arrow.pixels_bgra);
    assert_eq!(create_cursor_data(Some(vec![1, 2]), 24).pixels_bgra, arrow.pixels_bgra);
    assert_eq!(create_cursor_data(Some(cursor_file(&[24])), 24).width, 1);
}

#[test]
fn the_cursor_theme_has_a_default() {
    assert_eq!(theme_name(None), "Adwaita");
    assert_eq!(theme_name(Some("Breeze".to_string())), "Breeze");
}
