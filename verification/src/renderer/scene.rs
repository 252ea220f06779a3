//! The scene: what is drawn, from the front to the back.

use crate::compositor::floating::{stacks, windows_of, FloatingWindow};
use crate::compositor::state::{LingxiState, StateView};
use crate::compositor::windows::OnScreen;
use super::laws::lemma_drawn;
use crate::lists::holds;
use crate::numerics::Numerics;
use crate::scalar::{half, Color, Single};
use vstd::prelude::*;

verus! {

/// A rectangle of one colour.
#[derive(Clone, Copy, Debug, PartialEq, Eq, Structural)]
pub struct SolidRect {
    pub x: i32,
    pub y: i32,
    pub width: i32,
    pub height: i32,
    pub color: Color,
}

/// A rectangle of one colour.
pub open spec fn solid(x: int, y: int, width: int, height: int, color: Color) -> SolidRect {
    SolidRect { x: x as i32, y: y as i32, width: width as i32, height: height as i32, color }
}

/// An opaque colour out of the bits of its channels.
pub open spec fn opaque(red: u32, green: u32, blue: u32) -> Color {
    Color {
        red: Single { bits: red },
        green: Single { bits: green },
        blue: Single { bits: blue },
        alpha: Single { bits: 0x3f80_0000 },
    }
}

fn opaque_color(red: u32, green: u32, blue: u32) -> (r: Color)
    ensures
        r == opaque(red, green, blue),
{
    Color {
        red: Single { bits: red },
        green: Single { bits: green },
        blue: Single { bits: blue },
        alpha: Single { bits: 0x3f80_0000 },
    }
}

/// The most dots that the lock screen shows for a password.
pub const MAX_DOTS: usize = 20;

/// How many dots stand for a password.
pub open spec fn dot_count(typed: nat) -> int {
    if typed < MAX_DOTS {
        typed as int
    } else {
        MAX_DOTS as int
    }
}

/// The dots of a password, side by side in the middle of the box.
pub open spec fn dots(size: (i32, i32), typed: nat) -> Seq<SolidRect> {
    let n = dot_count(typed);
    Seq::new(
        n as nat,
        |i: int|
            solid(
                half(size.0 - n * 24) + i * 24,
                half(size.1 - 80) + 33,
                14,
                14,
                opaque(0x3f80_0000, 0x3f80_0000, 0x3f80_0000),
            ),
    )
}

/// The lock screen, from the front to the back: the box for the password, a bar
/// above it, a dot for each character that was typed, a red bar below it after a
/// wrong password, and the background.
pub open spec fn lock_rects(size: (i32, i32), typed: nat, wrong: bool) -> Seq<SolidRect> {
    let box_y = half(size.1 - 80);
    seq![
        solid(half(size.0 - 500), box_y, 500, 80, opaque(0x3eb0_a3d7, 0x3eb6_c8b4, 0x3ee0_c49c)),
        solid(half(size.0 - 200), box_y - 30, 200, 6, opaque(0x3f09_78d5, 0x3f34_bc6a, 0x3f7a_e148)),
    ] + dots(size, typed) + (if wrong {
        seq![
            solid(
                half(size.0 - 400),
                box_y + 95,
                400,
                6,
                opaque(0x3f73_f7cf, 0x3f0b_851f, 0x3f28_b439),
            ),
        ]
    } else {
        Seq::<SolidRect>::empty()
    }) + seq![
        solid(0, 0, size.0 as int, size.1 as int, opaque(0x3df1_a9fc, 0x3df1_a9fc, 0x3e38_51ec)),
    ]
}

/// The size of the lock screen: that of the output, or a common one.
pub open spec fn lock_size(output: Option<(i32, i32)>) -> (i32, i32) {
    match output {
        Some(size) => size,
        None => (3840, 2160),
    }
}

/// The lock screen for an output of the given size, if there is one.
pub fn lock_scene(output: Option<(i32, i32)>, typed: usize, wrong: bool) -> (r: Vec<SolidRect>)
    requires
        output matches Some(size) ==> size.0 >= 0 && size.1 >= 0,
    ensures
        r@ == lock_rects(lock_size(output), typed as nat, wrong),
{
    let (ow, oh): (i32, i32) = match output {
        Some(size) => size,
        None => (3840, 2160),
    };
    let ghost size = lock_size(output);
    let box_x: i32 = (ow - 500) / 2;
    let box_y: i32 = (oh - 80) / 2;
    let mut r: Vec<SolidRect> = Vec::new();
    r.push(
        SolidRect {
            x: box_x,
            y: box_y,
            width: 500,
            height: 80,
            color: opaque_color(0x3eb0_a3d7, 0x3eb6_c8b4, 0x3ee0_c49c),
        },
    );
    r.push(
        SolidRect {
            x: (ow - 200) / 2,
            y: box_y - 30,
            width: 200,
            height: 6,
            color: opaque_color(0x3f09_78d5, 0x3f34_bc6a, 0x3f7a_e148),
        },
    );
    let ghost front = r@;
    let count: usize = if typed < MAX_DOTS {
        typed
    } else {
        MAX_DOTS
    };
    let start: i32 = (ow - count as i32 * 24) / 2;
    let mut i: usize = 0;
    while i < count
        invariant
            0 <= i <= count <= 20,
            count == dot_count(typed as nat),
            ow == size.0,
            0 <= ow,
            start == half(size.0 - count * 24),
            box_y == half(size.1 - 80),
            -40 <= box_y <= 0x4000_0000,
            r@ == front + dots(size, typed as nat).take(i as int),
        decreases count - i,
    {
        r.push(
            SolidRect {
                x: start + i as i32 * 24,
                y: box_y + 33,
                width: 14,
                height: 14,
                color: opaque_color(0x3f80_0000, 0x3f80_0000, 0x3f80_0000),
            },
        );
        assert(r@ =~= front + dots(size, typed as nat).take(i + 1));
        i = i + 1;
    }
    assert(dots(size, typed as nat).take(i as int) =~= dots(size, typed as nat));
    if wrong {
        r.push(
            SolidRect {
                x: (ow - 400) / 2,
                y: box_y + 80 + 15,
                width: 400,
                height: 6,
                color: opaque_color(0x3f73_f7cf, 0x3f0b_851f, 0x3f28_b439),
            },
        );
    }
    r.push(
        SolidRect {
            x: 0,
            y: 0,
            width: ow,
            height: oh,
            color: opaque_color(0x3df1_a9fc, 0x3df1_a9fc, 0x3e38_51ec),
        },
    );
    assert(r@ =~= lock_rects(size, typed as nat, wrong));
    r
}

/// The bits of the share of the opacity that a ring of the border has: 0.2 for the
/// outermost, then 0.5, and 1 for the innermost.
pub open spec fn glow(ring: int) -> Single {
    if ring == 0 {
        Single { bits: 0x3e4c_cccd }
    } else if ring == 1 {
        Single { bits: 0x3f00_0000 }
    } else {
        Single { bits: 0x3f80_0000 }
    }
}

/// A ring one pixel thick, `outer` pixels away from a window: top, bottom, left and
/// right.
pub open spec fn ring(corner: (i32, i32), size: (i32, i32), outer: int, color: Color) -> Seq<
    SolidRect,
> {
    let x = corner.0 - outer;
    let y = corner.1 - outer;
    let w = size.0 + 2 * outer;
    let h = size.1 + 2 * outer;
    seq![
        solid(x, y, w, 1, color),
        solid(x, y + h - 1, w, 1, color),
        solid(x, y + 1, 1, h - 2, color),
        solid(x + w - 1, y + 1, 1, h - 2, color),
    ]
}

/// The border of a window can be drawn within the range of coordinates.
pub open spec fn border_fits(corner: (i32, i32), size: (i32, i32)) -> bool {
    &&& i32::MIN + 3 <= corner.0
    &&& i32::MIN + 3 <= corner.1
    &&& 0 <= size.0 <= i32::MAX - 6
    &&& 0 <= size.1 <= i32::MAX - 6
    &&& corner.0 + size.0 + 3 <= i32::MAX
    &&& corner.1 + size.1 + 3 <= i32::MAX
}

/// `rects` are the border of the window that has the keyboard: three rings, the
/// outermost first, that fade outwards.
pub open spec fn borders<N: Numerics>(
    num: N,
    corner: (i32, i32),
    size: (i32, i32),
    color: Color,
    rects: Seq<SolidRect>,
) -> bool {
    &&& rects.len() == 12
    &&& forall|k: int|
        0 <= k < 3 ==> exists|alpha: Single| #[trigger]
            call_ensures(N::faded, (&num, color.alpha, #[trigger] glow(k)), alpha)
                && rects.subrange(4 * k, 4 * k + 4) == ring(
                corner,
                size,
                3 - k,
                Color { alpha, ..color },
            )
}

fn push_ring(
    rects: &mut Vec<SolidRect>,
    corner: (i32, i32),
    size: (i32, i32),
    outer: i32,
    color: Color,
)
    requires
        border_fits(corner, size),
        1 <= outer <= 3,
    ensures
        final(rects)@ == old(rects)@ + ring(corner, size, outer as int, color),
{
    let x: i32 = corner.0 - outer;
    let y: i32 = corner.1 - outer;
    let w: i32 = size.0 + 2 * outer;
    let h: i32 = size.1 + 2 * outer;
    rects.push(SolidRect { x, y, width: w, height: 1, color });
    rects.push(SolidRect { x, y: y + h - 1, width: w, height: 1, color });
    rects.push(SolidRect { x, y: y + 1, width: 1, height: h - 2, color });
    rects.push(SolidRect { x: x + w - 1, y: y + 1, width: 1, height: h - 2, color });
    assert(rects@ =~= old(rects)@ + ring(corner, size, outer as int, color));
}

/// The border of the window that has the keyboard.
pub fn focus_border<N: Numerics>(
    corner: (i32, i32),
    size: (i32, i32),
    color: Color,
    num: &N,
) -> (rects: Vec<SolidRect>)
    requires
        border_fits(corner, size),
    ensures
        borders(*num, corner, size, color, rects@),
{
    let mut rects: Vec<SolidRect> = Vec::new();
    let a = num.faded(color.alpha, Single { bits: 0x3e4c_cccd });
    let b = num.faded(color.alpha, Single { bits: 0x3f00_0000 });
    let c = num.faded(color.alpha, Single { bits: 0x3f80_0000 });
    let (red, green, blue) = (color.red, color.green, color.blue);
    push_ring(&mut rects, corner, size, 3, Color { red, green, blue, alpha: a });
    let ghost first = rects@;
    push_ring(&mut rects, corner, size, 2, Color { red, green, blue, alpha: b });
    let ghost second = rects@;
    push_ring(&mut rects, corner, size, 1, Color { red, green, blue, alpha: c });
    proof {
        assert(rects@.subrange(0, 4) =~= ring(corner, size, 3, Color { alpha: a, ..color }));
        assert(rects@.subrange(4, 8) =~= ring(corner, size, 2, Color { alpha: b, ..color }));
        assert(rects@.subrange(8, 12) =~= ring(corner, size, 1, Color { alpha: c, ..color }));
        assert(call_ensures(N::faded, (num, color.alpha, glow(0)), a));
        assert(call_ensures(N::faded, (num, color.alpha, glow(1)), b));
        assert(call_ensures(N::faded, (num, color.alpha, glow(2)), c));
        assert forall|k: int| 0 <= k < 3 implies exists|alpha: Single| #[trigger]
            call_ensures(N::faded, (num, color.alpha, #[trigger] glow(k)), alpha)
                && rects@.subrange(4 * k, 4 * k + 4) == ring(
                corner,
                size,
                3 - k,
                Color { alpha, ..color },
            ) by {
            if k == 0 {
                assert(call_ensures(N::faded, (num, color.alpha, glow(k)), a));
            } else if k == 1 {
                assert(call_ensures(N::faded, (num, color.alpha, glow(k)), b));
            } else {
                assert(call_ensures(N::faded, (num, color.alpha, glow(k)), c));
            }
        }
    }
    rects
}

/// Something that is drawn.
#[derive(Clone, Copy, Debug, PartialEq, Eq, Structural)]
pub enum SceneItem {
    Solid(SolidRect),
    /// The pointer.
    Cursor,
    /// The popup of the input method, at a point.
    InputPopup { x: i32, y: i32 },
    /// A surface on a layer, at a point.
    Layer { surface: u64, x: i32, y: i32 },
    /// A window, its buffer at a point, its corners rounded or not.
    Window { window: u64, x: i32, y: i32, rounded: bool },
    /// The shadow of a window: the area that it is drawn in, and the size of the
    /// window.
    Shadow { window: u64, x: i32, y: i32, width: i32, height: i32, size_w: i32, size_h: i32 },
}

/// The layers, from the highest to the lowest. The windows are between the top and
/// the bottom layer.
#[derive(Clone, Copy, Debug, PartialEq, Eq, Structural)]
pub enum Level {
    Overlay,
    Top,
    Bottom,
    Background,
}

/// A surface on a layer: where it is on the screen, if it has a place there.
#[derive(Clone, Copy, Debug)]
pub struct LayerSurface {
    pub surface: u64,
    pub level: Level,
    pub location: Option<(i32, i32)>,
}

impl LayerSurface {
    /// The surface as it is drawn; at the origin if it has no place.
    pub open spec fn item(self) -> SceneItem {
        match self.location {
            Some(corner) => SceneItem::Layer { surface: self.surface, x: corner.0, y: corner.1 },
            None => SceneItem::Layer { surface: self.surface, x: 0, y: 0 },
        }
    }
}

/// Passes the surfaces on a layer.
pub open spec fn on_level(level: Level) -> spec_fn(LayerSurface) -> bool {
    |l: LayerSurface| l.level == level
}

/// The surfaces of a layer as they are drawn.
pub open spec fn level_items(layers: Seq<LayerSurface>, level: Level) -> Seq<SceneItem> {
    layers.filter(on_level(level)).map_values(|l: LayerSurface| l.item())
}

/// The layers above the windows.
pub open spec fn upper_items(layers: Seq<LayerSurface>) -> Seq<SceneItem> {
    level_items(layers, Level::Overlay) + level_items(layers, Level::Top)
}

/// The layers below the windows.
pub open spec fn lower_items(layers: Seq<LayerSurface>) -> Seq<SceneItem> {
    level_items(layers, Level::Bottom) + level_items(layers, Level::Background)
}

/// What is known of a window when it is drawn: where it is on the screen, if it is,
/// where in its buffer its content starts, how large its client has made it, and
/// the size that it has been given, if it has.
#[derive(Clone, Copy, Debug)]
pub struct WindowBox {
    pub window: u64,
    pub location: Option<(i32, i32)>,
    pub content: (i32, i32),
    pub size: (i32, i32),
    pub target: Option<(i32, i32)>,
}

impl WindowBox {
    /// The location; the origin if the window is not on the screen.
    pub open spec fn corner(self) -> (i32, i32) {
        match self.location {
            Some(corner) => corner,
            None => (0, 0),
        }
    }

    /// The size that is drawn: a window that fills the screen has the size that it
    /// has been given already, whatever its client has made of it.
    pub open spec fn drawn_size(self, fullscreen: bool) -> (i32, i32) {
        match self.target {
            Some(size) if fullscreen => size,
            _ => self.size,
        }
    }

    /// The shadow of a window can be drawn within the range of coordinates.
    pub open spec fn shadow_fits(self, range: u32, fullscreen: bool) -> bool {
        let (x, y) = self.corner();
        let (w, h) = self.drawn_size(fullscreen);
        &&& range <= 0x3fff_ffff
        &&& i32::MIN <= x - range
        &&& i32::MIN <= y - range
        &&& w + 2 * range <= i32::MAX
        &&& h + 2 * range <= i32::MAX
    }

    /// The window, and its shadow if it has one, can be drawn within the range of
    /// coordinates. `shadow` is the reach of shadows, if there are any.
    pub open spec fn fits(self, shadow: Option<u32>, fullscreen: bool) -> bool {
        let (x, y) = self.corner();
        let (w, h) = self.drawn_size(fullscreen);
        &&& i32::MIN <= x - self.content.0 <= i32::MAX
        &&& i32::MIN <= y - self.content.1 <= i32::MAX
        &&& shadow matches Some(range) ==> w > 0 && h > 0 ==> self.shadow_fits(range, fullscreen)
    }
}

/// What is known of a window; nothing if it is not among the boxes.
pub open spec fn box_of(boxes: Seq<WindowBox>, window: u64) -> Option<WindowBox>
    decreases boxes.len(),
{
    if boxes.len() == 0 {
        None
    } else if boxes[0].window == window {
        Some(boxes[0])
    } else {
        box_of(boxes.drop_first(), window)
    }
}

/// The popup of the input method: where it is, and how high the line of text is
/// that it belongs to.
#[derive(Clone, Copy, Debug)]
pub struct PopupBox {
    pub x: i32,
    pub y: i32,
    pub line_height: i32,
}

/// Passes every window but the one that fills the screen.
pub open spec fn not_fullscreen(fullscreen: Option<u64>) -> spec_fn(u64) -> bool {
    |w: u64| Some(w) != fullscreen
}

/// The popup of the input method as it is drawn: below the line of text.
pub open spec fn popup_items(shown: bool, popup: Option<PopupBox>) -> Seq<SceneItem> {
    match popup {
        Some(p) if shown => seq![
            SceneItem::InputPopup { x: p.x, y: (p.y + p.line_height + 4) as i32 },
        ],
        _ => Seq::empty(),
    }
}

/// Rectangles as they are drawn.
pub open spec fn solids(rects: Seq<SolidRect>) -> Seq<SceneItem> {
    rects.map_values(|r: SolidRect| SceneItem::Solid(r))
}

impl StateView {
    /// `order` are the windows from the lowest to the highest: the tiled ones as
    /// they are on the screen, then the floating ones from the lowest to the
    /// highest, then the one that fills the screen.
    pub open spec fn draws(self, mapped: Seq<u64>, order: Seq<u64>) -> bool {
        exists|stack: Seq<FloatingWindow>|
            {
                &&& #[trigger] stacks(self.floating.entries, stack)
                &&& order == mapped.filter(self.gets_tile()) + windows_of(stack).filter(
                    not_fullscreen(self.fullscreen_window),
                ) + (match self.fullscreen_window {
                    Some(w) => seq![w],
                    None => Seq::<u64>::empty(),
                })
            }
    }

    /// What is drawn of a window: the window, and its shadow behind it.
    pub open spec fn window_items(self, b: WindowBox, shaders: bool) -> Seq<SceneItem> {
        let decoration = self.config.decoration;
        let range = decoration.shadow_range as int;
        let (x, y) = b.corner();
        let (w, h) = b.drawn_size(self.fullscreen_window == Some(b.window));
        let window = SceneItem::Window {
            window: b.window,
            x: (x - b.content.0) as i32,
            y: (y - b.content.1) as i32,
            rounded: shaders && decoration.rounding > 0,
        };
        if decoration.shadow_enabled && w > 0 && h > 0 && shaders {
            seq![
                window,
                SceneItem::Shadow {
                    window: b.window,
                    x: (x - range) as i32,
                    y: (y - range) as i32,
                    width: (w + 2 * range) as i32,
                    height: (h + 2 * range) as i32,
                    size_w: w,
                    size_h: h,
                },
            ]
        } else {
            seq![window]
        }
    }

    /// What is drawn of several windows, in their order. A window of which nothing
    /// is known is left out.
    pub open spec fn windows_items(
        self,
        order: Seq<u64>,
        boxes: Seq<WindowBox>,
        shaders: bool,
    ) -> Seq<SceneItem>
        decreases order.len(),
    {
        if order.len() == 0 {
            Seq::empty()
        } else {
            self.windows_items(order.drop_last(), boxes, shaders) + (match box_of(
                boxes,
                order.last(),
            ) {
                Some(b) => self.window_items(b, shaders),
                None => Seq::empty(),
            })
        }
    }

    /// `rects` are the border of the window that has the keyboard; nothing if no
    /// window on the screen has it.
    pub open spec fn focus_borders<N: Numerics>(
        self,
        focus: Option<u64>,
        at: OnScreen,
        num: N,
        rects: Seq<SolidRect>,
    ) -> bool {
        match at.location {
            Some(corner) if self.focused(focus) is Some => borders(
                num,
                corner,
                at.size,
                self.config.general.active_border_color,
                rects,
            ),
            _ => rects == Seq::<SolidRect>::empty(),
        }
    }

    /// What is in front of the windows: the pointer, the popup of the input method,
    /// the upper layers, and the border of the window that has the keyboard.
    pub open spec fn above_windows(self, view: SceneInput, border: Seq<SolidRect>) -> Seq<
        SceneItem,
    > {
        (if view.cursor {
            seq![SceneItem::Cursor]
        } else {
            Seq::<SceneItem>::empty()
        }) + popup_items(self.ime_popup is Some, view.popup) + upper_items(view.layers@) + solids(
            border,
        )
    }

    /// `items` are the scene, from the front to the back. The lock screen hides
    /// everything else. Without it there are the pointer, the popup of the input
    /// method, the upper layers, the border of the window that has the keyboard,
    /// the windows with their shadows from the highest to the lowest, and the lower
    /// layers.
    pub open spec fn scene<N: Numerics>(
        self,
        view: SceneInput,
        num: N,
        items: Seq<SceneItem>,
    ) -> bool {
        if self.locked {
            items == solids(
                lock_rects(
                    lock_size(view.output),
                    self.password_input.len(),
                    self.password_error is Some,
                ),
            )
        } else {
            exists|border: Seq<SolidRect>, painted: Seq<u64>|
                {
                    &&& #[trigger] self.focus_borders(view.focus, view.at, num, border)
                    &&& #[trigger] self.draws(view.mapped@, painted)
                    &&& items == self.above_windows(view, border) + self.windows_items(
                        painted.reverse(),
                        view.boxes@,
                        view.shaders,
                    ) + lower_items(view.layers@)
                }
        }
    }
}

/// What is known of the screen when a frame is drawn: its size, whether there is a
/// pointer, the popup of the input method if it is alive, the surface that has the
/// keyboard and where its window is, the windows on the screen, the boxes of all
/// windows, the surfaces on layers, and whether the effects can be drawn.
pub struct SceneInput {
    pub output: Option<(i32, i32)>,
    pub cursor: bool,
    pub popup: Option<PopupBox>,
    pub focus: Option<u64>,
    pub at: OnScreen,
    pub mapped: Vec<u64>,
    pub boxes: Vec<WindowBox>,
    pub layers: Vec<LayerSurface>,
    pub shaders: bool,
}

impl StateView {
    /// How far shadows reach, if there are any.
    pub open spec fn shadow_reach(self, shaders: bool) -> Option<u32> {
        if self.config.decoration.shadow_enabled && shaders {
            Some(self.config.decoration.shadow_range)
        } else {
            None
        }
    }
}

impl SceneInput {
    /// Whether a window is drawn: it is on the screen, floats or fills the screen.
    pub open spec fn shows(self, state: StateView, window: u64) -> bool {
        self.mapped@.contains(window) || state.floating.has(window) || state.fullscreen_window
            == Some(window)
    }

    /// Everything that is drawn can be drawn within the range of coordinates.
    pub open spec fn fits(self, state: StateView) -> bool {
        if state.locked {
            self.output matches Some(size) ==> size.0 >= 0 && size.1 >= 0
        } else {
            &&& state.ime_popup is Some ==> (self.popup matches Some(p) ==> i32::MIN <= p.y
                + p.line_height && p.y + p.line_height <= i32::MAX - 4)
            &&& state.focused(self.focus) is Some ==> (self.at.location matches Some(corner)
                ==> border_fits(corner, self.at.size))
            &&& forall|i: int|
                0 <= i < self.boxes@.len() && self.shows(state, (#[trigger] self.boxes@[i]).window)
                    ==> self.boxes@[i].fits(
                    state.shadow_reach(self.shaders),
                    state.fullscreen_window == Some(self.boxes@[i].window),
                )
        }
    }
}

impl WindowBox {
    /// Whether the window, and its shadow if it has one, can be drawn within the range
    /// of coordinates.
    pub fn can_draw(&self, shadow: Option<u32>, fullscreen: bool) -> (r: bool)
        ensures
            r == self.fits(shadow, fullscreen),
    {
        let (x, y): (i32, i32) = match self.location {
            Some(corner) => corner,
            None => (0, 0),
        };
        let (w, h): (i32, i32) = match self.target {
            Some(size) => if fullscreen {
                size
            } else {
                self.size
            },
            None => self.size,
        };
        let (x, y, w, h): (i64, i64, i64, i64) = (x as i64, y as i64, w as i64, h as i64);
        let (dx, dy): (i64, i64) = (self.content.0 as i64, self.content.1 as i64);
        let least: i64 = i32::MIN as i64;
        let most: i64 = i32::MAX as i64;
        let window: bool = least <= x - dx && x - dx <= most && least <= y - dy && y - dy <= most;
        match shadow {
            Some(range) => {
                let reach: i64 = range as i64;
                window && (w <= 0 || h <= 0 || (range <= 0x3fff_ffff && least <= x - reach && least
                    <= y - reach && w + 2 * reach <= most && h + 2 * reach <= most))
            },
            None => window,
        }
    }
}

/// Whether the border of a window can be drawn within the range of coordinates.
fn can_border(corner: (i32, i32), size: (i32, i32)) -> (r: bool)
    ensures
        r == border_fits(corner, size),
{
    let most: i64 = i32::MAX as i64;
    i32::MIN + 3 <= corner.0 && i32::MIN + 3 <= corner.1 && 0 <= size.0 && size.0 <= i32::MAX - 6
        && 0 <= size.1 && size.1 <= i32::MAX - 6 && corner.0 as i64 + size.0 as i64 + 3 <= most
        && corner.1 as i64 + size.1 as i64 + 3 <= most
}

impl SceneInput {
    /// Whether everything that is drawn can be drawn within the range of coordinates.
    pub fn can_draw(&self, state: &LingxiState) -> (r: bool)
        ensures
            r == self.fits(state@),
    {
        if state.locked {
            return match self.output {
                Some(size) => size.0 >= 0 && size.1 >= 0,
                None => true,
            };
        }
        if state.ime_popup.is_some() {
            if let Some(p) = self.popup {
                let bottom: i64 = p.y as i64 + p.line_height as i64;
                if bottom < i32::MIN as i64 || bottom > i32::MAX as i64 - 4 {
                    return false;
                }
            }
        }
        if state.focused_window(self.focus).is_some() {
            if let Some(corner) = self.at.location {
                if !can_border(corner, self.at.size) {
                    return false;
                }
            }
        }
        let decoration = &state.config.decoration;
        let shadow: Option<u32> = if decoration.shadow_enabled && self.shaders {
            Some(decoration.shadow_range)
        } else {
            None
        };
        let mut i: usize = 0;
        while i < self.boxes.len()
            invariant
                0 <= i <= self.boxes@.len(),
                !state@.locked,
                shadow == state@.shadow_reach(self.shaders),
                forall|k: int|
                    0 <= k < i && self.shows(state@, (#[trigger] self.boxes@[k]).window)
                        ==> self.boxes@[k].fits(
                        shadow,
                        state@.fullscreen_window == Some(self.boxes@[k].window),
                    ),
            decreases self.boxes.len() - i,
        {
            let b = self.boxes[i];
            let fullscreen: bool = state.fullscreen_window == Some(b.window);
            if holds(&self.mapped, b.window) || state.floating.contains(b.window) || fullscreen {
                if !b.can_draw(shadow, fullscreen) {
                    assert(self.shows(state@, self.boxes@[i as int].window));
                    assert(!self.boxes@[i as int].fits(shadow, fullscreen));
                    return false;
                }
            }
            i = i + 1;
        }
        true
    }
}

fn push_solids(items: &mut Vec<SceneItem>, rects: &Vec<SolidRect>)
    ensures
        final(items)@ == old(items)@ + solids(rects@),
{
    let mut i: usize = 0;
    assert(old(items)@ + solids(rects@.take(0)) =~= old(items)@);
    while i < rects.len()
        invariant
            0 <= i <= rects.len(),
            items@ == old(items)@ + solids(rects@.take(i as int)),
        decreases rects.len() - i,
    {
        items.push(SceneItem::Solid(rects[i]));
        assert(solids(rects@.take(i + 1)) =~= solids(rects@.take(i as int)).push(
            SceneItem::Solid(rects@[i as int]),
        ));
        i = i + 1;
    }
    assert(rects@.take(i as int) =~= rects@);
}

fn push_level(items: &mut Vec<SceneItem>, layers: &Vec<LayerSurface>, level: Level)
    ensures
        final(items)@ == old(items)@ + level_items(layers@, level),
{
    let ghost here = on_level(level);
    let mut i: usize = 0;
    assert(old(items)@ + level_items(layers@.take(0), level) =~= old(items)@) by {
        reveal(Seq::filter);
    }
    while i < layers.len()
        invariant
            0 <= i <= layers.len(),
            here == on_level(level),
            items@ == old(items)@ + level_items(layers@.take(i as int), level),
        decreases layers.len() - i,
    {
        let l = layers[i];
        let ghost before = level_items(layers@.take(i as int), level);
        proof {
            assert(layers@.take(i + 1).drop_last() =~= layers@.take(i as int));
            reveal(Seq::filter);
        }
        if l.level == level {
            let (x, y): (i32, i32) = match l.location {
                Some(corner) => corner,
                None => (0, 0),
            };
            items.push(SceneItem::Layer { surface: l.surface, x, y });
            assert(level_items(layers@.take(i + 1), level) =~= before.push(l.item()));
        }
        assert(items@ =~= old(items)@ + level_items(layers@.take(i + 1), level));
        i = i + 1;
    }
    assert(layers@.take(i as int) =~= layers@);
}

fn find_box(boxes: &Vec<WindowBox>, window: u64) -> (r: Option<usize>)
    ensures
        match r {
            Some(i) => i < boxes@.len() && box_of(boxes@, window) == Some(boxes@[i as int])
                && boxes@[i as int].window == window,
            None => box_of(boxes@, window) is None,
        },
{
    let mut i: usize = 0;
    assert(boxes@.skip(0) =~= boxes@);
    while i < boxes.len()
        invariant
            0 <= i <= boxes.len(),
            box_of(boxes@, window) == box_of(boxes@.skip(i as int), window),
        decreases boxes.len() - i,
    {
        assert(boxes@.skip(i as int)[0] == boxes@[i as int]);
        assert(boxes@.skip(i as int).drop_first() =~= boxes@.skip(i + 1));
        if boxes[i].window == window {
            return Some(i);
        }
        i = i + 1;
    }
    None
}

/// Of the surfaces of a window the last one is the window itself; those before it
/// are its popups, whose corners are never rounded. Returns how many popups there
/// are, and whether there is a window.
pub fn popups_and_window(surfaces: usize) -> (r: (usize, bool))
    ensures
        surfaces == 0 ==> r == (0usize, false),
        surfaces > 0 ==> r == ((surfaces - 1) as usize, true),
{
    if surfaces == 0 {
        (0, false)
    } else {
        (surfaces - 1, true)
    }
}

impl LingxiState {
    /// The windows in the order in which they are painted, from the lowest to the
    /// highest. `mapped` are the windows on the screen.
    pub fn draw_order(&self, mapped: &Vec<u64>) -> (order: Vec<u64>)
        requires
            self.wf(),
        ensures
            self@.draws(mapped@, order@),
    {
        let mut order: Vec<u64> = Vec::new();
        let ghost tile = self@.gets_tile();
        let mut i: usize = 0;
        assert(mapped@.take(0).filter(tile) =~= Seq::<u64>::empty()) by {
            reveal(Seq::filter);
        }
        while i < mapped.len()
            invariant
                0 <= i <= mapped.len(),
                tile == self@.gets_tile(),
                order@ == mapped@.take(i as int).filter(tile),
            decreases mapped.len() - i,
        {
            proof {
                assert(mapped@.take(i + 1).drop_last() =~= mapped@.take(i as int));
                reveal(Seq::filter);
            }
            if !self.floating.contains(mapped[i]) && self.fullscreen_window != Some(mapped[i]) {
                order.push(mapped[i]);
            }
            i = i + 1;
        }
        assert(mapped@.take(i as int) =~= mapped@);
        let ghost tiled = order@;
        let floating = self.floating.z_ordered();
        let ghost other = not_fullscreen(self@.fullscreen_window);
        let mut j: usize = 0;
        assert(tiled + floating@.take(0).filter(other) =~= tiled) by {
            reveal(Seq::filter);
        }
        while j < floating.len()
            invariant
                0 <= j <= floating.len(),
                other == not_fullscreen(self@.fullscreen_window),
                order@ == tiled + floating@.take(j as int).filter(other),
            decreases floating.len() - j,
        {
            proof {
                assert(floating@.take(j + 1).drop_last() =~= floating@.take(j as int));
                reveal(Seq::filter);
            }
            if self.fullscreen_window != Some(floating[j]) {
                order.push(floating[j]);
            }
            assert(order@ =~= tiled + floating@.take(j + 1).filter(other));
            j = j + 1;
        }
        assert(floating@.take(j as int) =~= floating@);
        let ghost painted = order@;
        if let Some(window) = self.fullscreen_window {
            order.push(window);
        }
        proof {
            let stack = choose|stack: Seq<FloatingWindow>| #[trigger]
                stacks(self.floating@.entries, stack) && floating@ == windows_of(stack);
            assert(stacks(self@.floating.entries, stack));
            assert(order@ =~= painted + (match self@.fullscreen_window {
                Some(w) => seq![w],
                None => Seq::<u64>::empty(),
            }));
        }
        order
    }

    /// The windows from the highest to the lowest, as a scene lists them.
    pub fn front_to_back(&self, mapped: &Vec<u64>) -> (order: Vec<u64>)
        requires
            self.wf(),
        ensures
            self@.draws(mapped@, order@.reverse()),
    {
        let painted = self.draw_order(mapped);
        let mut order: Vec<u64> = Vec::new();
        let mut i: usize = painted.len();
        while i > 0
            invariant
                0 <= i <= painted.len(),
                order@ == painted@.reverse().take(painted@.len() - i),
            decreases i,
        {
            i = i - 1;
            order.push(painted[i]);
            assert(painted@.reverse().take(painted@.len() - i) =~= painted@.reverse().take(
                painted@.len() - i - 1,
            ).push(painted@[i as int]));
        }
        assert(order@.reverse() =~= painted@);
        order
    }

    fn push_window(&self, items: &mut Vec<SceneItem>, b: WindowBox, shaders: bool)
        requires
            b.fits(self@.shadow_reach(shaders), self@.fullscreen_window == Some(b.window)),
        ensures
            final(items)@ == old(items)@ + self@.window_items(b, shaders),
    {
        let (x, y): (i32, i32) = match b.location {
            Some(corner) => corner,
            None => (0, 0),
        };
        let fullscreen: bool = self.fullscreen_window == Some(b.window);
        let (w, h): (i32, i32) = match b.target {
            Some(size) => if fullscreen {
                size
            } else {
                b.size
            },
            None => b.size,
        };
        assert((w, h) == b.drawn_size(fullscreen));
        items.push(
            SceneItem::Window {
                window: b.window,
                x: x - b.content.0,
                y: y - b.content.1,
                rounded: shaders && self.config.decoration.rounding > 0,
            },
        );
        if self.config.decoration.shadow_enabled && w > 0 && h > 0 && shaders {
            let range: i32 = self.config.decoration.shadow_range as i32;
            items.push(
                SceneItem::Shadow {
                    window: b.window,
                    x: x - range,
                    y: y - range,
                    width: w + 2 * range,
                    height: h + 2 * range,
                    size_w: w,
                    size_h: h,
                },
            );
        }
        assert(items@ =~= old(items)@ + self@.window_items(b, shaders));
    }

    /// The scene, from the front to the back.
    pub fn build_scene<N: Numerics>(&self, view: &SceneInput, num: &N) -> (items: Vec<SceneItem>)
        requires
            self.wf(),
            view.fits(self@),
        ensures
            self@.scene(*view, *num, items@),
    {
        let mut items: Vec<SceneItem> = Vec::new();
        if self.locked {
            let typed: usize = self.password_input.as_str().unicode_len();
            let rects = lock_scene(view.output, typed, self.password_error.is_some());
            push_solids(&mut items, &rects);
            assert(items@ =~= solids(rects@));
            return items;
        }
        if view.cursor {
            items.push(SceneItem::Cursor);
        }
        let ghost front = items@;
        if self.ime_popup.is_some() {
            if let Some(p) = view.popup {
                items.push(SceneItem::InputPopup { x: p.x, y: p.y + p.line_height + 4 });
            }
        }
        assert(items@ =~= front + popup_items(self@.ime_popup is Some, view.popup));
        push_level(&mut items, &view.layers, Level::Overlay);
        push_level(&mut items, &view.layers, Level::Top);
        let mut border: Vec<SolidRect> = Vec::new();
        if let Some(corner) = view.at.location {
            if self.focused_window(view.focus).is_some() {
                border = focus_border(
                    corner,
                    view.at.size,
                    self.config.general.active_border_color,
                    num,
                );
            }
        }
        push_solids(&mut items, &border);
        let ghost above = items@;
        assert(above =~= self@.above_windows(*view, border@));
        let order = self.front_to_back(&view.mapped);
        let mut i: usize = 0;
        assert(above + self@.windows_items(order@.take(0), view.boxes@, view.shaders) =~= above);
        while i < order.len()
            invariant
                0 <= i <= order@.len(),
                view.fits(self@),
                !self@.locked,
                self@.draws(view.mapped@, order@.reverse()),
                items@ == above + self@.windows_items(
                    order@.take(i as int),
                    view.boxes@,
                    view.shaders,
                ),
            decreases order.len() - i,
        {
            proof {
                assert(order@.take(i + 1).drop_last() =~= order@.take(i as int));
                assert(order@.take(i + 1).last() == order@[i as int]);
            }
            if let Some(k) = find_box(&view.boxes, order[i]) {
                let b = view.boxes[k];
                proof {
                    let painted = order@.reverse();
                    assert(painted[painted.len() - 1 - i] == order@[i as int]);
                    lemma_drawn(self@, view.mapped@, painted, painted.len() - 1 - i);
                    assert(view.shows(self@, view.boxes@[k as int].window));
                }
                self.push_window(&mut items, b, view.shaders);
            }
            assert(items@ =~= above + self@.windows_items(
                order@.take(i + 1),
                view.boxes@,
                view.shaders,
            ));
            i = i + 1;
        }
        assert(order@.take(i as int) =~= order@);
        push_level(&mut items, &view.layers, Level::Bottom);
        push_level(&mut items, &view.layers, Level::Background);
        proof {
            let painted = order@.reverse();
            assert(painted.reverse() =~= order@);
            assert(self@.focus_borders(view.focus, view.at, *num, border@));
            assert(self@.draws(view.mapped@, painted));
            assert(items@ =~= self@.above_windows(*view, border@) + self@.windows_items(
                painted.reverse(),
                view.boxes@,
                view.shaders,
            ) + lower_items(view.layers@));
        }
        items
    }
}

} // verus!
