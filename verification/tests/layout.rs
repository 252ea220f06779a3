use lingxi::animation::Animation;
use lingxi::compositor::window::AnimatedRect;
use lingxi::layout::tree::{remove_node, split_deepest_right, LayoutNode, LayoutTree};
use lingxi::layout::{
    Columns, DwindleLayout, LayoutEngine, MasterStackLayout, Row, WindowGeometry, MAX_EXTENT,
};
use lingxi::numerics::Numerics;
use lingxi::scalar::{Double, Single};

struct Floats;

fn get(value: Double) -> f64 {
    f64::from_bits(value.bits)
}

fn put(value: f64) -> Double {
    Double { bits: value.to_bits() }
}

impl Numerics for Floats {
    fn split(&self, ratio: Double, gap: u32, extent: i64) -> i64 {
        let limit = MAX_EXTENT as f64;
        (extent as f64 * get(ratio) - gap as f64 / 2.0).round().clamp(-limit, limit) as i64
    }

    fn columns(&self, area: WindowGeometry<Double>, ratio: Double) -> Columns {
        let master = get(area.width) * get(ratio);
        Columns {
            master_width: put(master),
            stack_x: put(get(area.x) + master),
            stack_width: put(get(area.width) - master),
        }
    }

    fn row(&self, area: WindowGeometry<Double>, number: usize, count: usize) -> Row {
        let height = get(area.height) / count as f64;
        Row { y: put(get(area.y) + height * number as f64), height: put(height) }
    }

    fn far(&self, a: Double, b: Double) -> bool {
        (get(a) - get(b)).abs() > 1.0
    }

    fn sample(&self, animation: Animation, elapsed: u64) -> Double {
        let t = elapsed as f64 / animation.duration as f64;
        put(get(animation.start) + (get(animation.end) - get(animation.start)) * t)
    }

    fn double(&self, n: i64) -> Double {
        put(n as f64)
    }

    fn entry(&self, target: AnimatedRect, output: (i32, i32)) -> AnimatedRect {
        AnimatedRect {
            x: put(output.0 as f64 / 2.0 - get(target.width) / 4.0),
            y: put(output.1 as f64 / 2.0 - get(target.height) / 4.0),
            width: put(get(target.width) * 0.5),
            height: put(get(target.height) * 0.5),
        }
    }

    fn centered(&self, area: WindowGeometry<i64>) -> WindowGeometry<Double> {
        let width = area.width as f64 * 0.6;
        let height = area.height as f64 * 0.6;
        WindowGeometry {
            x: put(area.x as f64 + (area.width as f64 - width) / 2.0),
            y: put(area.y as f64 + (area.height as f64 - height) / 2.0),
            width: put(width),
            height: put(height),
        }
    }

    fn truncated(&self, value: Double) -> i32 {
        get(value) as i32
    }

    fn plus(&self, a: Double, b: Double) -> Double {
        put(get(a) + get(b))
    }

    fn minus(&self, a: Double, b: Double) -> Double {
        put(get(a) - get(b))
    }

    fn bounded(&self, value: Double, delta: Double, last: i32) -> Double {
        put((get(value) + get(delta)).clamp(0.0, last as f64))
    }

    fn negligible(&self, amount: Double) -> bool {
        !(get(amount).abs() > f64::EPSILON)
    }

    fn is_zero(&self, value: Double) -> bool {
        get(value) == 0.0
    }

    fn resized(&self, side: Double, delta: Double, least: u32) -> Double {
        put((get(side) + get(delta)).max(least as f64))
    }

    fn adjusted(&self, ratio: Double, delta: Double) -> Double {
        put((get(ratio) + get(delta)).clamp(0.1, 0.9))
    }

    fn faded(&self, alpha: Single, share: Single) -> Single {
        Single { bits: (f32::from_bits(alpha.bits) * f32::from_bits(share.bits)).to_bits() }
    }

    fn number(&self, text: String) -> Option<Double> {
        text.parse::<f64>().ok().map(put)
    }
}

fn tile(x: i64, y: i64, width: i64, height: i64) -> WindowGeometry<i64> {
    WindowGeometry { x, y, width, height }
}

fn tree_of(n: usize) -> LayoutTree {
    let mut tree = LayoutTree::new(put(0.5), 5);
    for _ in 0..n {
        tree.insert();
    }
    tree
}

const AREA: WindowGeometry<i64> = WindowGeometry { x: 0, y: 0, width: 1000, height: 800 };

#[test]
fn dwindle_default_is_half_with_five_pixels() {
    let layout = DwindleLayout::default();
    assert_eq!(get(layout.split_ratio), 0.5);
    assert_eq!(layout.inner_gap, 5);
}

#[test]
fn dwindle_of_nothing_and_of_one() {
    let layout = DwindleLayout::default();
    assert_eq!(layout.arrange(0, AREA, &Floats), vec![]);
    assert_eq!(layout.arrange(1, AREA, &Floats), vec![AREA]);
}

#[test]
fn dwindle_alternates_directions() {
    let layout = DwindleLayout::default();
    assert_eq!(
        layout.arrange(4, AREA, &Floats),
        vec![
            tile(0, 0, 498, 800),
            tile(503, 0, 497, 398),
            tile(503, 403, 246, 397),
            tile(754, 403, 246, 397),
        ]
    );
}

#[test]
fn dwindle_without_gap_fills_the_area() {
    let layout = DwindleLayout { split_ratio: put(0.3), inner_gap: 0 };
    let tiles = layout.arrange(5, tile(7, 9, 641, 479), &Floats);
    let covered: i64 = tiles.iter().map(|t| t.width * t.height).sum();
    assert_eq!(covered, 641 * 479);
    assert_eq!(tiles[0], tile(7, 9, 192, 479));
}

#[test]
fn tree_arranges_as_dwindle_after_inserts() {
    for n in 0..8 {
        let tree = tree_of(n);
        assert_eq!(tree.len(), n);
        assert_eq!(
            tree.arrange(AREA, &Floats),
            DwindleLayout::default().arrange(n, AREA, &Floats)
        );
    }
}

#[test]
fn tree_remembers_its_ratio_and_gap() {
    let tree = LayoutTree::new(put(0.7), 11);
    assert_eq!(get(tree.split_ratio()), 0.7);
    assert_eq!(tree.inner_gap(), 11);
    let mut tree = tree;
    tree.insert();
    tree.insert();
    // 1000 * 0.7 - 5.5 = 694.5, rounded away from zero.
    assert_eq!(
        tree.arrange(AREA, &Floats),
        vec![tile(0, 0, 695, 800), tile(706, 0, 294, 800)]
    );
}

#[test]
fn removing_the_last_leaf_undoes_an_insert() {
    for n in 0..6 {
        let mut tree = tree_of(n);
        let before = tree.arrange(AREA, &Floats);
        tree.insert();
        tree.remove(n);
        assert_eq!(tree.len(), n);
        assert_eq!(tree.arrange(AREA, &Floats), before);
    }
}

#[test]
fn removing_the_first_leaf_gives_its_place_to_the_rest() {
    let mut tree = tree_of(3);
    tree.remove(0);
    assert_eq!(tree.len(), 2);
    // What is left is the vertical split of the second half.
    assert_eq!(
        tree.arrange(AREA, &Floats),
        vec![tile(0, 0, 1000, 398), tile(0, 403, 1000, 397)]
    );
}

#[test]
fn removing_past_the_end_changes_nothing() {
    let mut tree = tree_of(3);
    let before = tree.arrange(AREA, &Floats);
    tree.remove(3);
    tree.remove(100);
    assert_eq!(tree.len(), 3);
    assert_eq!(tree.arrange(AREA, &Floats), before);
    let mut empty = tree_of(0);
    empty.remove(0);
    assert_eq!(empty.len(), 0);
    assert_eq!(empty.arrange(AREA, &Floats), vec![]);
}

#[test]
fn an_insert_splits_only_the_last_tile() {
    let three = tree_of(3).arrange(AREA, &Floats);
    let four = tree_of(4).arrange(AREA, &Floats);
    assert_eq!(three[..2], four[..2]);
    let last = three[2];
    assert_eq!(four[2].x, last.x);
    assert_eq!(four[2].height, last.height);
    assert_eq!(four[3].x + four[3].width, last.x + last.width);
}

#[test]
fn one_window_more_moves_only_the_last_tile_of_a_dwindle() {
    let layout = DwindleLayout::default();
    for n in 2..8 {
        let few = layout.arrange(n, AREA, &Floats);
        let more = layout.arrange(n + 1, AREA, &Floats);
        assert_eq!(few[..n - 1], more[..n - 1]);
        assert_ne!(few[n - 1], more[n - 1]);
    }
}

#[test]
fn leaves_add_up() {
    let mut tree = tree_of(4);
    tree.remove(1);
    tree.remove(9);
    tree.insert();
    tree.remove(0);
    assert_eq!(tree.len(), 3);
    assert_eq!(tree.arrange(AREA, &Floats).len(), 3);
}

#[test]
fn tiles_lie_inside_and_apart() {
    for n in 1..7 {
        let tiles = tree_of(n).arrange(AREA, &Floats);
        for (i, a) in tiles.iter().enumerate() {
            assert!(a.x >= 0 && a.y >= 0);
            assert!(a.x + a.width <= 1000 && a.y + a.height <= 800);
            for b in &tiles[i + 1..] {
                assert!(a.x + a.width + 5 <= b.x || a.y + a.height + 5 <= b.y);
            }
        }
    }
}

#[test]
fn nodes_split_and_go() {
    let two = split_deepest_right(Box::new(LayoutNode::Leaf), true);
    let (mut counter, mut done) = (0, false);
    let one = remove_node(two, 1, &mut counter, &mut done);
    assert!(done);
    assert_eq!(counter, 1);
    assert!(matches!(one.as_deref(), Some(LayoutNode::Leaf)));
    let (mut counter, mut done) = (0, false);
    let none = remove_node(one.unwrap(), 0, &mut counter, &mut done);
    assert!(done && none.is_none());
}

#[test]
fn master_stack_default_ratio() {
    assert_eq!(get(MasterStackLayout::default().master_ratio), 0.55);
}

#[test]
fn master_stack_puts_one_left_and_stacks_the_rest() {
    let area = WindowGeometry { x: put(10.0), y: put(20.0), width: put(1000.0), height: put(600.0) };
    let layout = MasterStackLayout { master_ratio: put(0.5) };
    assert!(layout.arrange(0, area, &Floats).is_empty());
    assert_eq!(layout.arrange(1, area, &Floats), vec![area]);
    let tiles = layout.arrange(4, area, &Floats);
    let plain: Vec<(f64, f64, f64, f64)> =
        tiles.iter().map(|t| (get(t.x), get(t.y), get(t.width), get(t.height))).collect();
    assert_eq!(
        plain,
        vec![
            (10.0, 20.0, 500.0, 600.0),
            (510.0, 20.0, 500.0, 200.0),
            (510.0, 220.0, 500.0, 200.0),
            (510.0, 420.0, 500.0, 200.0),
        ]
    );
}
