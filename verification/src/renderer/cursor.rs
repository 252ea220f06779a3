//! The image of the pointer.

use vstd::prelude::*;

verus! {

/// An image out of a cursor file.
pub struct CursorImage {
    /// The nominal size.
    pub size: u32,
    pub width: u32,
    pub height: u32,
    /// The point of the image that is where the pointer points.
    pub xhot: u32,
    pub yhot: u32,
    /// Four bytes per pixel, row by row.
    pub pixels_rgba: Vec<u8>,
}

/// What an image out of a cursor file stands for.
pub struct ImageView {
    pub size: u32,
    pub width: u32,
    pub height: u32,
    pub xhot: u32,
    pub yhot: u32,
    pub pixels: Seq<u8>,
}

impl View for CursorImage {
    type V = ImageView;

    open spec fn view(&self) -> ImageView {
        ImageView {
            size: self.size,
            width: self.width,
            height: self.height,
            xhot: self.xhot,
            yhot: self.yhot,
            pixels: self.pixels_rgba@,
        }
    }
}

/// What a list of images stands for.
pub open spec fn image_views(images: Seq<CursorImage>) -> Seq<ImageView> {
    images.map_values(|image: CursorImage| image@)
}

/// An image has pixels, no more than a cursor file can describe, four bytes for
/// each, and its hot spot is no further away than its far corner.
pub open spec fn proper(image: ImageView) -> bool {
    &&& 0 < image.width <= 0x7fff
    &&& 0 < image.height <= 0x7fff
    &&& image.xhot <= image.width
    &&& image.yhot <= image.height
    &&& image.pixels.len() == 4 * image.width * image.height
}

/// What `xcursor::parser::parse_xcursor` makes of a cursor file.
pub uninterp spec fn xcursor_images(content: Seq<u8>) -> Option<Seq<ImageView>>;

/// Reads a cursor file with `xcursor::parser::parse_xcursor`. What it finds is a
/// function of the bytes alone; every image that it returns has passed its checks
/// on sizes and hot spot and holds the pixels that its sizes call for. On a machine
/// with 32-bit addresses it would run out of address space for an image of more
/// than two gigabytes.
#[verifier::external_body]
fn parse_xcursor(content: &Vec<u8>) -> (r: Option<Vec<CursorImage>>)
    ensures
        match r {
            Some(images) => {
                &&& xcursor_images(content@) == Some(image_views(images@))
                &&& forall|i: int| 0 <= i < images@.len() ==> proper((#[trigger] images@[i])@)
            },
            None => xcursor_images(content@) is None,
        },
{
    let images = xcursor::parser::parse_xcursor(content)?;
    let convert = |image: xcursor::parser::Image| CursorImage {
        size: image.size,
        width: image.width,
        height: image.height,
        xhot: image.xhot,
        yhot: image.yhot,
        pixels_rgba: image.pixels_rgba,
    };
    Some(images.into_iter().map(convert).collect())
}

/// How far an image is from the size that is asked for: larger ones are closer
/// than any smaller one that is less than a thousand pixels off.
pub open spec fn distance(size: u32, target: u32) -> int {
    let diff = (size as i32) - (target as i32);
    if diff >= 0 {
        diff
    } else {
        -diff + 1000
    }
}

fn distance_of(size: u32, target: u32) -> (r: i64)
    ensures
        r == distance(size, target),
{
    let diff: i64 = (size as i32) as i64 - (target as i32) as i64;
    if diff >= 0 {
        diff
    } else {
        -diff + 1000
    }
}

/// Whether image number `i` is the one that is used: none is closer to the size
/// that is asked for, and none before it is as close.
pub open spec fn best(images: Seq<ImageView>, target: u32, i: int) -> bool {
    &&& 0 <= i < images.len()
    &&& forall|j: int|
        0 <= j < images.len() ==> distance(images[i].size, target) <= distance(
            (#[trigger] images[j]).size,
            target,
        )
    &&& forall|j: int|
        0 <= j < i ==> distance(images[i].size, target) < distance(
            (#[trigger] images[j]).size,
            target,
        )
}

/// Chooses the image that is closest to the size that is asked for; there is none
/// among no images.
pub fn choose_image(images: &Vec<CursorImage>, target: u32) -> (r: Option<usize>)
    ensures
        match r {
            Some(i) => best(image_views(images@), target, i as int),
            None => images@.len() == 0,
        },
{
    if images.len() == 0 {
        return None;
    }
    let ghost views = image_views(images@);
    let mut found: usize = 0;
    let mut closest: i64 = distance_of(images[0].size, target);
    let mut i: usize = 1;
    while i < images.len()
        invariant
            1 <= i <= images.len(),
            found < i,
            views == image_views(images@),
            closest == distance(views[found as int].size, target),
            forall|j: int|
                0 <= j < i ==> closest <= distance((#[trigger] views[j]).size, target),
            forall|j: int|
                0 <= j < found ==> closest < distance((#[trigger] views[j]).size, target),
        decreases images.len() - i,
    {
        let away: i64 = distance_of(images[i].size, target);
        assert(views[i as int].size == images@[i as int].size);
        if away < closest {
            closest = away;
            found = i;
        }
        i = i + 1;
    }
    Some(found)
}

/// The bytes of pixels with red and blue swapped, four bytes per pixel.
pub open spec fn red_blue_swapped(pixels: Seq<u8>) -> Seq<u8> {
    Seq::new(
        pixels.len(),
        |i: int|
            if i % 4 == 0 {
                pixels[i + 2]
            } else if i % 4 == 2 {
                pixels[i - 2]
            } else {
                pixels[i]
            },
    )
}

/// Swaps red and blue, for a buffer that wants blue first.
pub fn swap_red_blue(pixels: &Vec<u8>) -> (r: Vec<u8>)
    requires
        pixels@.len() % 4 == 0,
    ensures
        r@ == red_blue_swapped(pixels@),
{
    let mut r: Vec<u8> = Vec::with_capacity(pixels.len());
    let mut i: usize = 0;
    while i < pixels.len()
        invariant
            0 <= i <= pixels.len(),
            i % 4 == 0,
            pixels@.len() % 4 == 0,
            r@ == red_blue_swapped(pixels@).take(i as int),
        decreases pixels.len() - i,
    {
        let ghost done = r@;
        r.push(pixels[i + 2]);
        r.push(pixels[i + 1]);
        r.push(pixels[i]);
        r.push(pixels[i + 3]);
        assert(r@ =~= red_blue_swapped(pixels@).take(i + 4));
        i = i + 4;
    }
    assert(red_blue_swapped(pixels@).take(i as int) =~= red_blue_swapped(pixels@));
    r
}

/// The pointer as it is drawn: its size, its hot spot and its pixels, blue first.
pub struct CursorData {
    pub width: i32,
    pub height: i32,
    pub hotspot_x: i32,
    pub hotspot_y: i32,
    pub pixels_bgra: Vec<u8>,
}

/// What the pointer as it is drawn stands for.
pub struct CursorView {
    pub width: int,
    pub height: int,
    pub hotspot: (int, int),
    pub pixels: Seq<u8>,
}

impl View for CursorData {
    type V = CursorView;

    open spec fn view(&self) -> CursorView {
        CursorView {
            width: self.width as int,
            height: self.height as int,
            hotspot: (self.hotspot_x as int, self.hotspot_y as int),
            pixels: self.pixels_bgra@,
        }
    }
}

/// An image as it is drawn.
pub open spec fn drawn(image: ImageView) -> CursorView {
    CursorView {
        width: image.width as int,
        height: image.height as int,
        hotspot: (image.xhot as int, image.yhot as int),
        pixels: red_blue_swapped(image.pixels),
    }
}

/// The pointer made of the best of some images.
pub fn cursor_of(images: &Vec<CursorImage>, target: u32) -> (r: Option<CursorData>)
    requires
        forall|i: int| 0 <= i < images@.len() ==> proper((#[trigger] images@[i])@),
    ensures
        match r {
            Some(cursor) => exists|i: int| #[trigger]
                best(image_views(images@), target, i) && cursor@ == drawn(
                    image_views(images@)[i],
                ),
            None => images@.len() == 0,
        },
{
    let i: usize = match choose_image(images, target) {
        Some(i) => i,
        None => {
            return None;
        },
    };
    let image = &images[i];
    assert(proper(images@[i as int]@));
    assert(image_views(images@)[i as int] == image@);
    assert(image@.pixels.len() % 4 == 0) by {
        let n = image.width * image.height;
        assert((4 * n) % 4 == 0) by (nonlinear_arith);
        assert(4 * image.width * image.height == 4 * n) by (nonlinear_arith)
            requires
                n == image.width * image.height,
        ;
    }
    Some(
        CursorData {
            width: image.width as i32,
            height: image.height as i32,
            hotspot_x: image.xhot as i32,
            hotspot_y: image.yhot as i32,
            pixels_bgra: swap_red_blue(&image.pixels_rgba),
        },
    )
}

/// The pointer out of a cursor file; none if the file cannot be read or holds no
/// image.
pub fn load_cursor(content: &Vec<u8>, cursor_size: u32) -> (r: Option<CursorData>)
    ensures
        match r {
            Some(cursor) => xcursor_images(content@) matches Some(images) && exists|i: int| #[trigger]
                best(images, cursor_size, i) && cursor@ == drawn(images[i]),
            None => xcursor_images(content@) is None || xcursor_images(content@)->0.len() == 0,
        },
{
    match parse_xcursor(content) {
        Some(images) => {
            assert(image_views(images@).len() == images@.len());
            let r = cursor_of(&images, cursor_size);
            proof {
                if r is Some {
                    let cursor = r->0;
                    let found = xcursor_images(content@)->0;
                    let i = choose|i: int| #[trigger]
                        best(image_views(images@), cursor_size, i) && cursor@ == drawn(
                            image_views(images@)[i],
                        );
                    assert(best(found, cursor_size, i) && cursor@ == drawn(found[i]));
                }
            }
            r
        },
        None => None,
    }
}

/// The name of the cursor theme: the one that the environment names, or Adwaita.
pub fn theme_name(variable: Option<String>) -> (r: String)
    ensures
        r@ == (match variable {
            Some(text) => text@,
            None => "Adwaita"@,
        }),
{
    match variable {
        Some(text) => text,
        None => "Adwaita".to_owned(),
    }
}

/// The side of the arrow that is drawn without a cursor theme.
pub const ARROW_SIDE: usize = 24;

/// Whether a pixel belongs to the arrow: a triangle that widens downwards for
/// twelve rows, and then a slanting tail.
pub open spec fn in_arrow(x: int, y: int) -> bool {
    if 0 <= y <= 11 {
        0 <= x <= y
    } else if y == 12 {
        0 <= x <= 5
    } else if 13 <= y <= 17 {
        0 <= x <= 17 - y || y - 8 <= x <= y - 7
    } else {
        false
    }
}

fn arrow_covers(x: usize, y: usize) -> (r: bool)
    ensures
        r == in_arrow(x as int, y as int),
{
    if y <= 11 {
        x <= y
    } else if y == 12 {
        x <= 5
    } else if y <= 17 {
        x <= 17 - y || (y - 8 <= x && x <= y - 7)
    } else {
        false
    }
}

/// The arrow: white where it covers a pixel, and nothing elsewhere.
pub open spec fn arrow_bytes() -> Seq<u8> {
    Seq::new(
        (ARROW_SIDE * ARROW_SIDE * 4) as nat,
        |i: int|
            if in_arrow(i / 4 % ARROW_SIDE as int, i / 4 / ARROW_SIDE as int) {
                255u8
            } else {
                0u8
            },
    )
}

/// The arrow as it is drawn; it points with its tip.
pub open spec fn arrow_view() -> CursorView {
    CursorView {
        width: ARROW_SIDE as int,
        height: ARROW_SIDE as int,
        hotspot: (0int, 0int),
        pixels: arrow_bytes(),
    }
}

/// The arrow that is drawn without a cursor theme.
pub fn create_fallback_cursor() -> (r: CursorData)
    ensures
        r@ == arrow_view(),
{
    let mut pixels: Vec<u8> = Vec::new();
    let mut i: usize = 0;
    while i < ARROW_SIDE * ARROW_SIDE * 4
        invariant
            0 <= i <= ARROW_SIDE * ARROW_SIDE * 4,
            pixels@ == arrow_bytes().take(i as int),
        decreases ARROW_SIDE * ARROW_SIDE * 4 - i,
    {
        let byte: u8 = if arrow_covers(i / 4 % ARROW_SIDE, i / 4 / ARROW_SIDE) {
            255
        } else {
            0
        };
        pixels.push(byte);
        assert(arrow_bytes().take(i + 1) =~= arrow_bytes().take(i as int).push(byte));
        i = i + 1;
    }
    assert(arrow_bytes().take(i as int) =~= arrow_bytes());
    CursorData {
        width: ARROW_SIDE as i32,
        height: ARROW_SIDE as i32,
        hotspot_x: 0,
        hotspot_y: 0,
        pixels_bgra: pixels,
    }
}

/// The pointer: out of the cursor file that the theme names, if there is one and it
/// holds an image, and else the arrow.
pub fn create_cursor_data(content: Option<Vec<u8>>, cursor_size: u32) -> (r: CursorData)
    ensures
        match content {
            Some(bytes) => match xcursor_images(bytes@) {
                Some(images) if images.len() > 0 => exists|i: int| #[trigger]
                    best(images, cursor_size, i) && r@ == drawn(images[i]),
                _ => r@ == arrow_view(),
            },
            None => r@ == arrow_view(),
        },
{
    match content {
        Some(bytes) => match load_cursor(&bytes, cursor_size) {
            Some(cursor) => cursor,
            None => create_fallback_cursor(),
        },
        None => create_fallback_cursor(),
    }
}

/// Swapping red and blue twice gives the pixels back.
pub proof fn law_swap_twice(pixels: Seq<u8>)
    requires
        pixels.len() % 4 == 0,
    ensures
        red_blue_swapped(red_blue_swapped(pixels)) == pixels,
{
    let once = red_blue_swapped(pixels);
    assert forall|i: int| 0 <= i < pixels.len() implies red_blue_swapped(once)[i] == pixels[i] by {
        if i % 4 == 0 {
            assert(once[i + 2] == pixels[i]);
        } else if i % 4 == 2 {
            assert(once[i - 2] == pixels[i]);
        }
    }
    assert(red_blue_swapped(once) =~= pixels);
}

/// There is only one best image.
pub proof fn law_best_image_unique(images: Seq<ImageView>, target: u32, i: int, j: int)
    requires
        best(images, target, i),
        best(images, target, j),
    ensures
        i == j,
{
    if i < j {
        assert(distance(images[j].size, target) < distance(images[i].size, target));
    } else if j < i {
        assert(distance(images[i].size, target) < distance(images[j].size, target));
    }
}

/// If there is an image at least as large as asked for and no more than a thousand
/// pixels larger, then no smaller one is used, and none that is larger still.
pub proof fn law_larger_preferred(images: Seq<ImageView>, target: u32, i: int, j: int)
    requires
        best(images, target, i),
        0 <= j < images.len(),
        target < 0x8000_0000,
        images[i].size < 0x8000_0000,
        images[j].size < 0x8000_0000,
        target <= images[j].size <= target + 1000,
    ensures
        target <= images[i].size <= images[j].size,
{
    assert(distance(images[i].size, target) <= distance(images[j].size, target));
}

/// If every image is smaller than asked for, the largest of them is used; and of images of
/// the same size the first one is.
pub proof fn law_largest_of_smaller(images: Seq<ImageView>, target: u32, i: int, j: int)
    requires
        best(images, target, i),
        0 <= j < images.len(),
        target < 0x8000_0000,
        forall|k: int| 0 <= k < images.len() ==> (#[trigger] images[k]).size < 0x8000_0000,
    ensures
        (forall|k: int| 0 <= k < images.len() ==> (#[trigger] images[k]).size < target)
            ==> images[j].size <= images[i].size,
        images[j].size == images[i].size ==> i <= j,
{
    assert(distance(images[i].size, target) <= distance(images[j].size, target));
    assert(images[i].size < 0x8000_0000);
    assert(images[j].size < 0x8000_0000);
    if j < i {
        assert(distance(images[i].size, target) < distance(images[j].size, target));
    }
    if forall|k: int| 0 <= k < images.len() ==> (#[trigger] images[k]).size < target {
        assert(images[i].size < target);
        assert(images[j].size < target);
    }
}

/// An image is drawn in its size and with its hot spot, and of each pixel red and blue
/// change places while green and the opacity stay.
pub proof fn law_drawn_pixel_by_pixel(image: ImageView, p: int)
    requires
        0 <= p,
        4 * p + 4 <= image.pixels.len(),
    ensures
        drawn(image).width == image.width,
        drawn(image).height == image.height,
        drawn(image).hotspot == (image.xhot as int, image.yhot as int),
        drawn(image).pixels.len() == image.pixels.len(),
        drawn(image).pixels[4 * p] == image.pixels[4 * p + 2],
        drawn(image).pixels[4 * p + 1] == image.pixels[4 * p + 1],
        drawn(image).pixels[4 * p + 2] == image.pixels[4 * p],
        drawn(image).pixels[4 * p + 3] == image.pixels[4 * p + 3],
{
}

/// The arrow points at its upper left corner: every pixel of it is opaque white, every
/// other one is clear; in its first twelve rows each row covers its left end, one pixel
/// more than the row above, and nothing is below its eighteenth row.
pub proof fn law_arrow_points_up_left(x: int, y: int, c: int)
    requires
        0 <= x < 24,
        0 <= y < 24,
        0 <= c < 4,
    ensures
        ({
            let pixels = arrow_view().pixels;
            let byte = pixels[4 * (24 * y + x) + c];
            &&& arrow_view().width == 24 && arrow_view().height == 24
            &&& arrow_view().hotspot == (0int, 0int)
            &&& pixels.len() == 4 * 24 * 24
            &&& byte == 255 || byte == 0
            &&& byte == pixels[4 * (24 * y + x)]
            &&& y < 12 ==> (byte == 255 <==> x <= y)
            &&& y >= 18 ==> byte == 0
        }),
{
    let i = 4 * (24 * y + x) + c;
    assert(i / 4 == 24 * y + x);
    assert((24 * y + x) % 24 == x);
    assert((24 * y + x) / 24 == y);
    let j = 4 * (24 * y + x);
    assert(j / 4 == 24 * y + x);
}

} // verus!
