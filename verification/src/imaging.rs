//! What is measured on photos: sizes, sharpness and overlay edges.

use vstd::prelude::*;

verus! {

/// A grey-scale picture, row by row.
pub struct Luma {
    pub width: usize,
    pub height: usize,
    pub raw: Vec<u8>,
}

impl Luma {
    /// There is one byte for each pixel.
    pub open spec fn well_formed(&self) -> bool {
        self.raw@.len() == self.width * self.height
    }

    /// The brightness in row `r`, column `c`.
    pub open spec fn at(&self, r: int, c: int) -> int {
        self.raw@[r * self.width + c] as int
    }

    fn pixel(&self, r: usize, c: usize) -> (p: i64)
        requires
            self.well_formed(),
            r < self.height,
            c < self.width,
        ensures
            p == self.at(r as int, c as int),
            p == self.raw@[r * self.width + c],
            0 <= p <= 255,
    {
        let n: usize = self.raw.len();
        assert(r * self.width + c < n) by (nonlinear_arith)
            requires
                r < self.height,
                c < self.width,
                n == self.width * self.height,
        ;
        assert(r * self.width <= n) by (nonlinear_arith)
            requires
                r < self.height,
                n == self.width * self.height,
        ;
        self.raw[r * self.width + c] as i64
    }
}

/// The grey-scale picture (width, height, pixels) that `image` decodes from a file.
pub uninterp spec fn decoded_luma(file: Seq<u8>) -> Option<(nat, nat, Seq<u8>)>;

/// Decodes with `image::load_from_memory`, then `to_luma8`. The picture is
/// claimed to depend on the bytes of the file alone and to have one byte for
/// each pixel.
#[verifier::external_body]
pub(crate) fn decode_luma(file: &[u8]) -> (r: Option<Luma>)
    ensures
        r is Some == decoded_luma(file@) is Some,
        r matches Some(l) ==> Some((l.width as nat, l.height as nat, l.raw@)) == decoded_luma(file@)
            && l.well_formed(),
{
    let img = image::load_from_memory(file).ok()?.to_luma8();
    let (w, h) = img.dimensions();
    Some(Luma { width: w as usize, height: h as usize, raw: img.into_raw() })
}

/// The size that the header of an image file gives, as `image` reads it.
pub uninterp spec fn header_size(file: Seq<u8>) -> Option<(u32, u32)>;

/// Reads the size with `image::ImageReader::into_dimensions` after the format was
/// guessed from the content. It is claimed to depend on the bytes of the file
/// alone.
#[verifier::external_body]
fn read_size(file: &[u8]) -> (r: Option<(u32, u32)>)
    ensures
        r == header_size(file@),
{
    let reader = image::ImageReader::new(std::io::Cursor::new(file));
    let reader = reader.with_guessed_format().ok()?;
    reader.into_dimensions().ok()
}

/// The size of an image, (0, 0) where it cannot be told.
pub open spec fn size_or_zero(size: Option<(u32, u32)>) -> (u32, u32) {
    match size {
        Some(s) => s,
        None => (0, 0),
    }
}

/// The size of an image file in pixels, (0, 0) where it cannot be told.
pub fn image_dimensions(file: &[u8]) -> (r: (u32, u32))
    ensures
        r == size_or_zero(header_size(file@)),
{
    known_size(read_size(file))
}

/// The size that is used where `size` was read.
pub fn known_size(size: Option<(u32, u32)>) -> (r: (u32, u32))
    ensures
        r == size_or_zero(size),
        size matches Some(s) ==> r == s,
        size is None ==> r == (0u32, 0u32),
{
    match size {
        Some(s) => s,
        None => (0, 0),
    }
}

// ── Sharpness ────────────────────────────────────────────────────────────────

/// How much a pixel differs from its four neighbours.
pub open spec fn laplacian(l: Luma, y: int, x: int) -> int {
    l.at(y - 1, x) + l.at(y + 1, x) + l.at(y, x - 1) + l.at(y, x + 1) - 4 * l.at(y, x)
}

/// The squares in row `y`, from column 1 up to `x`.
pub open spec fn laplacian_row(l: Luma, y: int, x: int) -> int
    decreases x,
{
    if x <= 1 {
        0
    } else {
        laplacian_row(l, y, x - 1) + laplacian(l, y, x - 1) * laplacian(l, y, x - 1)
    }
}

/// The squares from row 1 up to `y`, without the border.
pub open spec fn laplacian_rows(l: Luma, y: int) -> int
    decreases y,
{
    if y <= 1 {
        0
    } else {
        laplacian_rows(l, y - 1) + laplacian_row(l, y - 1, l.width - 1)
    }
}

/// The sum of the squared differences over all pixels off the border, and how
/// many pixels that are; none where the picture has no such pixel.
pub fn laplacian_energy(l: &Luma) -> (r: Option<(u128, u128)>)
    requires
        l.well_formed(),
    ensures
        r is None <==> l.width < 3 || l.height < 3,
        r matches Some((sum, n)) ==> sum == laplacian_rows(*l, l.height - 1) && n == (l.width - 2)
            * (l.height - 2),
{
    let w: usize = l.width;
    let h: usize = l.height;
    if w < 3 || h < 3 {
        return None;
    }
    let size: usize = l.raw.len();
    let mut sum: u128 = 0;
    let mut y: usize = 1;
    while y < h - 1
        invariant
            l.well_formed(),
            w == l.width,
            h == l.height,
            size == w * h,
            w >= 3,
            1 <= y <= h - 1,
            sum == laplacian_rows(*l, y as int),
            sum <= (y - 1) * (w * 1040400),
        decreases h - y,
    {
        let mut row: u128 = 0;
        let mut x: usize = 1;
        assert(w <= size) by (nonlinear_arith)
            requires
                size == w * h,
                h >= 1,
        ;
        while x < w - 1
            invariant
                l.well_formed(),
                w == l.width,
                h == l.height,
                1 <= y < h - 1,
                1 <= x <= w - 1,
                row == laplacian_row(*l, y as int, x as int),
                row <= (x - 1) * 1040400,
            decreases w - x,
        {
            let d: i64 = l.pixel(y - 1, x) + l.pixel(y + 1, x) + l.pixel(y, x - 1) + l.pixel(y, x + 1)
                - 4 * l.pixel(y, x);
            assert(d == laplacian(*l, y as int, x as int));
            assert(0 <= d * d <= 1040400) by (nonlinear_arith)
                requires
                    -1020 <= d <= 1020,
            ;
            row = row + (d * d) as u128;
            x = x + 1;
        }
        assert((y - 1) * (w * 1040400) + w * 1040400 == y * (w * 1040400)) by (nonlinear_arith);
        assert(y * (w * 1040400) <= size * 1040400) by (nonlinear_arith)
            requires
                y <= h,
                size == w * h,
        ;
        sum = sum + row;
        y = y + 1;
    }
    assert((w - 2) * (h - 2) <= size) by (nonlinear_arith)
        requires
            size == w * h,
            w >= 3,
            h >= 3,
    ;
    assert((w - 2) * (h - 2) >= 0) by (nonlinear_arith)
        requires
            w >= 3,
            h >= 3,
    ;
    Some((sum, (w - 2) as u128 * (h - 2) as u128))
}

/// A picture of one brightness has no edges: it measures nothing, as sharpness and as
/// overlay. Brightening a picture evenly changes no measure of a pixel.
pub proof fn law_edges_are_differences(l: Luma, m: Luma, y: int, x: int, more: int)
    requires
        l.width == m.width,
        l.width >= 3,
        1 <= y,
        1 <= x < l.width - 1,
        forall|r: int, c: int|
            y - 1 <= r <= y + 1 && x - 1 <= c <= x + 1 ==> #[trigger] m.at(r, c) == l.at(r, c)
                + more,
    ensures
        laplacian(m, y, x) == laplacian(l, y, x),
        sobel_y(m, y, x) == sobel_y(l, y, x),
        sobel_x(m, y, x) == sobel_x(l, y, x),
{
    assert(m.at(y, x) == l.at(y, x) + more);
}

/// One bright pixel raises the measure of its neighbours by its brightness, and lowers its
/// own by four times that; what is farther off does not change.
pub proof fn law_sharpness_of_a_single_pixel(l: Luma, m: Luma, y: int, x: int, more: int)
    requires
        l.width == m.width,
        m.at(y, x) == l.at(y, x) + more,
        forall|r: int, c: int| !(r == y && c == x) ==> #[trigger] m.at(r, c) == l.at(r, c),
    ensures
        laplacian(m, y, x) == laplacian(l, y, x) - 4 * more,
        laplacian(m, y, x + 1) == laplacian(l, y, x + 1) + more,
        laplacian(m, y, x - 1) == laplacian(l, y, x - 1) + more,
        laplacian(m, y + 1, x) == laplacian(l, y + 1, x) + more,
        laplacian(m, y - 1, x) == laplacian(l, y - 1, x) + more,
        laplacian(m, y + 1, x + 1) == laplacian(l, y + 1, x + 1),
        sobel_y(m, y - 1, x) == sobel_y(l, y - 1, x) + 2 * more,
        sobel_y(m, y + 1, x) == sobel_y(l, y + 1, x) - 2 * more,
        sobel_y(m, y, x + 1) == sobel_y(l, y, x + 1),
        sobel_y(m, y - 1, x + 1) == sobel_y(l, y - 1, x + 1) + more,
        sobel_x(m, y, x - 1) == sobel_x(l, y, x - 1) + 2 * more,
        sobel_x(m, y, x + 1) == sobel_x(l, y, x + 1) - 2 * more,
        sobel_x(m, y + 1, x) == sobel_x(l, y + 1, x),
        sobel_x(m, y + 1, x - 1) == sobel_x(l, y + 1, x - 1) + more,
{
}

/// What is measured of a decoded picture.
pub open spec fn energy_of(decoded: Option<(nat, nat, Seq<u8>)>, r: Option<(u128, u128)>) -> bool {
    match decoded {
        None => r is None,
        Some((w, h, raw)) => exists|l: Luma|
            l.width == w && l.height == h && l.raw@ == raw && (#[trigger] l.well_formed()) && (r is None
                <==> w < 3 || h < 3) && (r matches Some((sum, n)) ==> sum == laplacian_rows(
                l,
                l.height - 1,
            ) && n == (l.width - 2) * (l.height - 2)),
    }
}

/// The sum of squared differences and the number of pixels of an image file;
/// none where it cannot be decoded or is too small.
pub fn sharpness_energy(file: &[u8]) -> (r: Option<(u128, u128)>)
    ensures
        energy_of(decoded_luma(file@), r),
        decoded_luma(file@) is None ==> r is None,
        decoded_luma(file@) matches Some((w, h, raw)) ==> {
            &&& r is None <==> w < 3 || h < 3
            &&& r matches Some((sum, n)) ==> n == (w - 2) * (h - 2)
        },
{
    match decode_luma(file) {
        Some(l) => {
            let r = laplacian_energy(&l);
            assert(l.well_formed());
            r
        },
        None => None,
    }
}

// ── Overlay edges ────────────────────────────────────────────────────────────

/// The row at which the bottom fifth begins, where the picture is large enough
/// to look for overlays.
pub open spec fn strip_start(width: nat, height: nat) -> Option<nat> {
    let y = if height * 4 / 5 < 1 {
        1
    } else {
        height * 4 / 5
    };
    if width < 10 || height < 10 || height - y < 3 {
        None
    } else {
        Some(y)
    }
}

/// The row at which the bottom fifth begins.
pub fn overlay_strip(width: usize, height: usize) -> (r: Option<usize>)
    ensures
        r is Some == strip_start(width as nat, height as nat) is Some,
        r matches Some(y) ==> y == strip_start(width as nat, height as nat)->0 && y + 3 <= height,
        width < 10 || height < 10 ==> r is None,
        width >= 10 && height >= 15 ==> r is Some,
        r matches Some(y) ==> 5 * y <= 4 * height < 5 * (y + 1),
{
    if width < 10 || height < 10 {
        return None;
    }
    let y: usize = ((height as u128 * 4) / 5) as usize;
    if height - y < 3 {
        return None;
    }
    Some(y)
}

/// The response to horizontal edges.
pub open spec fn sobel_y(l: Luma, y: int, x: int) -> int {
    -l.at(y - 1, x - 1) - 2 * l.at(y - 1, x) - l.at(y - 1, x + 1) + l.at(y + 1, x - 1) + 2 * l.at(
        y + 1,
        x,
    ) + l.at(y + 1, x + 1)
}

/// The response to vertical edges.
pub open spec fn sobel_x(l: Luma, y: int, x: int) -> int {
    -l.at(y - 1, x - 1) - 2 * l.at(y, x - 1) - l.at(y + 1, x - 1) + l.at(y - 1, x + 1) + 2 * l.at(
        y,
        x + 1,
    ) + l.at(y + 1, x + 1)
}

/// The distance from zero.
pub open spec fn magnitude(v: int) -> int {
    if v < 0 {
        -v
    } else {
        v
    }
}

/// The responses in row `y`, from column 1 up to `x`: horizontal, then vertical.
pub open spec fn edge_row(l: Luma, y: int, x: int) -> (int, int)
    decreases x,
{
    if x <= 1 {
        (0, 0)
    } else {
        let before = edge_row(l, y, x - 1);
        (before.0 + magnitude(sobel_y(l, y, x - 1)), before.1 + magnitude(sobel_x(l, y, x - 1)))
    }
}

/// The responses from row `top` up to `y`.
pub open spec fn edge_rows(l: Luma, top: int, y: int) -> (int, int)
    decreases y - top,
{
    if y <= top {
        (0, 0)
    } else {
        let before = edge_rows(l, top, y - 1);
        let row = edge_row(l, y - 1, l.width - 1);
        (before.0 + row.0, before.1 + row.1)
    }
}

/// The measures of a picture add up pixel by pixel and row by row: the squares of the
/// differences, and the gradients without their sign.
pub proof fn law_measures_add_up(l: Luma, top: int, y: int, x: int)
    requires
        1 <= top <= y,
        1 <= x,
    ensures
        laplacian_row(l, y, 1) == 0,
        laplacian_row(l, y, x + 1) - laplacian_row(l, y, x) == laplacian(l, y, x) * laplacian(
            l,
            y,
            x,
        ),
        laplacian_rows(l, 1) == 0,
        laplacian_rows(l, y + 1) - laplacian_rows(l, y) == laplacian_row(l, y, l.width - 1),
        edge_row(l, y, 1) == (0int, 0int),
        sobel_y(l, y, x) >= 0 ==> edge_row(l, y, x + 1).0 == edge_row(l, y, x).0 + sobel_y(l, y, x),
        sobel_y(l, y, x) < 0 ==> edge_row(l, y, x + 1).0 == edge_row(l, y, x).0 - sobel_y(l, y, x),
        sobel_x(l, y, x) >= 0 ==> edge_row(l, y, x + 1).1 == edge_row(l, y, x).1 + sobel_x(l, y, x),
        sobel_x(l, y, x) < 0 ==> edge_row(l, y, x + 1).1 == edge_row(l, y, x).1 - sobel_x(l, y, x),
        edge_rows(l, top, top) == (0int, 0int),
        edge_rows(l, top, y + 1).0 - edge_rows(l, top, y).0 == edge_row(l, y, l.width - 1).0,
        edge_rows(l, top, y + 1).1 - edge_rows(l, top, y).1 == edge_row(l, y, l.width - 1).1,
{
}

/// The horizontal and vertical edge responses below row `strip`, off the border.
pub fn edge_sums(l: &Luma, strip: usize) -> (r: (u128, u128))
    requires
        l.well_formed(),
        l.width >= 3,
        strip + 3 <= l.height,
    ensures
        (r.0 as int, r.1 as int) == edge_rows(*l, strip + 1, l.height - 1),
{
    let w: usize = l.width;
    let h: usize = l.height;
    let size: usize = l.raw.len();
    let mut gy_sum: u128 = 0;
    let mut gx_sum: u128 = 0;
    let mut y: usize = strip + 1;
    while y < h - 1
        invariant
            l.well_formed(),
            w == l.width,
            h == l.height,
            size == w * h,
            w >= 3,
            strip + 1 <= y <= h - 1,
            (gy_sum as int, gx_sum as int) == edge_rows(*l, strip + 1, y as int),
            gy_sum <= y * (w * 1020),
            gx_sum <= y * (w * 1020),
        decreases h - y,
    {
        let mut ry: u128 = 0;
        let mut rx: u128 = 0;
        let mut x: usize = 1;
        assert(w <= size) by (nonlinear_arith)
            requires
                size == w * h,
                h >= 1,
        ;
        while x < w - 1
            invariant
                l.well_formed(),
                w == l.width,
                h == l.height,
                1 <= y < h - 1,
                1 <= x <= w - 1,
                (ry as int, rx as int) == edge_row(*l, y as int, x as int),
                ry <= x * 1020,
                rx <= x * 1020,
            decreases w - x,
        {
            let a: i64 = l.pixel(y - 1, x - 1);
            let b: i64 = l.pixel(y - 1, x);
            let c: i64 = l.pixel(y - 1, x + 1);
            let d: i64 = l.pixel(y, x - 1);
            let e: i64 = l.pixel(y, x + 1);
            let f: i64 = l.pixel(y + 1, x - 1);
            let g: i64 = l.pixel(y + 1, x);
            let i: i64 = l.pixel(y + 1, x + 1);
            let gy: i64 = -a - 2 * b - c + f + 2 * g + i;
            let gx: i64 = -a - 2 * d - f + c + 2 * e + i;
            assert(gy == sobel_y(*l, y as int, x as int));
            assert(gx == sobel_x(*l, y as int, x as int));
            let my: i64 = if gy < 0 {
                -gy
            } else {
                gy
            };
            let mx: i64 = if gx < 0 {
                -gx
            } else {
                gx
            };
            ry = ry + my as u128;
            rx = rx + mx as u128;
            x = x + 1;
        }
        assert(y * (w * 1020) + w * 1020 == (y + 1) * (w * 1020)) by (nonlinear_arith);
        assert((y + 1) * (w * 1020) <= size * 1020) by (nonlinear_arith)
            requires
                y + 1 <= h,
                size == w * h,
        ;
        gy_sum = gy_sum + ry;
        gx_sum = gx_sum + rx;
        y = y + 1;
    }
    (gy_sum, gx_sum)
}

/// What overlays are looked for with: the pixels, the row at which the bottom
/// fifth begins, and the edge responses below it.
pub struct OverlayMeasures {
    pub luma: Luma,
    pub strip: usize,
    pub horizontal: u128,
    pub vertical: u128,
}

/// Whether `r` is what is measured of a decoded picture.
pub open spec fn measures_of(
    decoded: Option<(nat, nat, Seq<u8>)>,
    r: Option<OverlayMeasures>,
) -> bool {
    match decoded {
        None => r is None,
        Some((w, h, raw)) => {
            &&& r is Some == strip_start(w, h) is Some
            &&& r matches Some(m) ==> {
                &&& m.luma.width == w && m.luma.height == h && m.luma.raw@ == raw
                &&& m.luma.well_formed()
                &&& m.strip == strip_start(w, h)->0
                &&& (m.horizontal as int, m.vertical as int) == edge_rows(
                    m.luma,
                    m.strip + 1,
                    m.luma.height - 1,
                )
            }
        },
    }
}

/// Measures an image file for overlays; nothing where it cannot be decoded or
/// is too small.
pub fn overlay_measures(file: &[u8]) -> (r: Option<OverlayMeasures>)
    ensures
        measures_of(decoded_luma(file@), r),
        decoded_luma(file@) is None ==> r is None,
        decoded_luma(file@) matches Some((w, h, raw)) ==> {
            &&& r is None <==> w < 10 || h < 10 || h - (h * 4) / 5 < 3
            &&& r matches Some(m) ==> m.luma.raw@ == raw && m.strip == (h * 4) / 5
        },
{
    match decode_luma(file) {
        Some(l) => measure(l),
        None => None,
    }
}

/// Measures a decoded picture for overlays.
pub fn measure(l: Luma) -> (r: Option<OverlayMeasures>)
    requires
        l.well_formed(),
    ensures
        measures_of(Some((l.width as nat, l.height as nat, l.raw@)), r),
        r is None <==> l.width < 10 || l.height < 10 || l.height - (l.height * 4) / 5 < 3,
        r matches Some(m) ==> {
            &&& m.luma == l
            &&& m.strip == (l.height * 4) / 5
            &&& m.horizontal == edge_rows(l, m.strip + 1, l.height - 1).0
            &&& m.vertical == edge_rows(l, m.strip + 1, l.height - 1).1
        },
{
    match overlay_strip(l.width, l.height) {
        Some(strip) => {
            let (horizontal, vertical) = edge_sums(&l, strip);
            Some(OverlayMeasures { luma: l, strip, horizontal, vertical })
        },
        None => None,
    }
}

// ── Avatars ──────────────────────────────────────────────────────────────────

/// The square that is cut out of the middle of a picture: left, top and side.
pub open spec fn middle_square(w: nat, h: nat) -> (nat, nat, nat) {
    let side = if w < h {
        w
    } else {
        h
    };
    (((w - side) / 2) as nat, ((h - side) / 2) as nat, side)
}

/// The square that is cut out of the middle of a picture.
pub fn center_square(w: u32, h: u32) -> (r: (u32, u32, u32))
    ensures
        (r.0 as nat, r.1 as nat, r.2 as nat) == middle_square(w as nat, h as nat),
        r.0 + r.2 <= w,
        r.1 + r.2 <= h,
        r.2 == w || r.2 == h,
        0 <= w - r.0 - r.2 - r.0 <= 1,
        0 <= h - r.1 - r.2 - r.1 <= 1,
{
    let side: u32 = if w < h {
        w
    } else {
        h
    };
    ((w - side) / 2, (h - side) / 2, side)
}

/// Width and height of the picture that `image` decodes from a file.
pub uninterp spec fn decoded_size(file: Seq<u8>) -> Option<(u32, u32)>;

/// Decodes with `image::load_from_memory` and gives `width` and `height` of the
/// picture. They are claimed to depend on the bytes of the file alone.
#[verifier::external_body]
fn decode_size(file: &[u8]) -> (r: Option<(u32, u32)>)
    ensures
        r == decoded_size(file@),
{
    let img = image::load_from_memory(file).ok()?;
    Some((img.width(), img.height()))
}

/// The PNG file that `image` makes of a square cut out of the picture in a file.
pub uninterp spec fn cut_png(file: Seq<u8>, x: u32, y: u32, side: u32) -> Option<Seq<u8>>;

/// Decodes with `image::load_from_memory`, cuts out a square with `crop_imm` and
/// writes it with `write_to` as a PNG file, which keeps the pixels as they were
/// decoded, eight or sixteen bits to a channel. The file is claimed to depend on the
/// file given and the square alone, to be there only where the file given can be
/// decoded, and to be there then for every square with pixels that lies within the
/// picture.
#[verifier::external_body]
fn cut_square(file: &[u8], x: u32, y: u32, side: u32) -> (r: Option<Vec<u8>>)
    ensures
        r is Some == cut_png(file@, x, y, side) is Some,
        r is Some ==> r->0@ == cut_png(file@, x, y, side)->0,
        r is Some ==> decoded_size(file@) is Some,
        decoded_size(file@) is Some && side > 0 && x + side <= (decoded_size(file@)->0).0 && y
            + side <= (decoded_size(file@)->0).1 ==> r is Some,
{
    let img = image::load_from_memory(file).ok()?.crop_imm(x, y, side, side);
    let mut png = Vec::new();
    img.write_to(&mut std::io::Cursor::new(&mut png), image::ImageFormat::Png).ok()?;
    Some(png)
}

/// The middle of the picture in a file, as a PNG file.
pub open spec fn square_png(file: Seq<u8>) -> Option<Seq<u8>> {
    match decoded_size(file) {
        None => None,
        Some((w, h)) => {
            let (x, y, side) = middle_square(w as nat, h as nat);
            cut_png(file, x as u32, y as u32, side as u32)
        },
    }
}

/// Cuts the square out of the middle of the picture in a file, as a PNG file with as
/// many bits to a channel. Nothing where the file cannot be decoded.
pub fn avatar_square(file: &[u8]) -> (r: Option<Vec<u8>>)
    ensures
        r is Some == square_png(file@) is Some,
        r matches Some(png) ==> Some(png@) == square_png(file@),
        decoded_size(file@) is None ==> r is None,
        decoded_size(file@) matches Some((w, h)) ==> w > 0 && h > 0 ==> r is Some,
{
    let (w, h) = match decode_size(file) {
        Some(size) => size,
        None => {
            return None;
        },
    };
    let (x, y, side) = center_square(w, h);
    cut_square(file, x, y, side)
}

} // verus!
