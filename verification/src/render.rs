//! Page rendering parameters: rotation steps, the configured dimension
//! limit and what it bounds, the render request, page keys of the pager,
//! and the packing of rendered rows.
use vstd::prelude::*;
use std::path::PathBuf;
use std::time::Duration;

verus! {

/// The path type of the standard library, carried through the options.
#[verifier::external_type_specification]
#[verifier::external_body]
pub struct ExPathBuf(PathBuf);

/// Largest width and height of a render unless configured otherwise.
pub const DEFAULT_RENDER_MAX_DIMENSION: u32 = 4096;

/// Smallest output budget of a render, in bytes.
pub const DEFAULT_RENDER_MAX_OUTPUT_BYTES: u64 = 134217728;

/// How the viewer is launched.
#[derive(Clone, Debug)]
pub struct GuiRunOptions {
    pub smoke_exit_after: Option<Duration>,
    pub pdf_path: Option<String>,
    pub recent_files_path: Option<PathBuf>,
    pub start_empty_when_no_pdf: bool,
    pub render_max_dimension: Option<u32>,
}

impl Default for GuiRunOptions {
    fn default() -> (o: GuiRunOptions)
        ensures
            o.smoke_exit_after is None,
            o.pdf_path is None,
            o.recent_files_path is None,
            !o.start_empty_when_no_pdf,
            o.render_max_dimension is None,
    {
        GuiRunOptions {
            smoke_exit_after: None,
            pdf_path: None,
            recent_files_path: None,
            start_empty_when_no_pdf: false,
            render_max_dimension: None,
        }
    }
}

/// The rotation after `current` (in degrees, any multiple of 90 or not):
/// 0 → 90 → 180 → 270 → 0, taking `current` modulo 360; anything else
/// goes to 0.
pub open spec fn next_rotation(current: int) -> int {
    let r = current % 360;
    if r == 0 {
        90
    } else if r == 90 {
        180
    } else if r == 180 {
        270
    } else {
        0
    }
}

/// The rotation after `current`.
pub fn next_render_rotation(current: i32) -> (r: i32)
    ensures
        r == next_rotation(current as int),
{
    let m = current % 360;
    let e = if m < 0 {
        m + 360
    } else {
        m
    };
    assert(e == (current as int) % 360) by {
        assert(current as int == 360 * (current as int / 360) + (current as int) % 360);
    }
    if e == 0 {
        90
    } else if e == 90 {
        180
    } else if e == 180 {
        270
    } else {
        0
    }
}

/// The configured dimension limit, or the default when unset or zero.
pub open spec fn max_dimension_or_default(value: Option<u32>) -> u32 {
    match value {
        Some(d) => if d > 0 {
            d
        } else {
            DEFAULT_RENDER_MAX_DIMENSION
        },
        None => DEFAULT_RENDER_MAX_DIMENSION,
    }
}

/// The configured dimension limit, or the default when unset or zero.
pub fn render_max_dimension_or_default(value: Option<u32>) -> (d: u32)
    ensures
        d == max_dimension_or_default(value),
{
    match value {
        Some(d) => if d > 0 {
            d
        } else {
            DEFAULT_RENDER_MAX_DIMENSION
        },
        None => DEFAULT_RENDER_MAX_DIMENSION,
    }
}

/// `a * b`, or `u64::MAX` when that does not fit.
pub open spec fn sat_mul(a: nat, b: nat) -> u64 {
    if a * b > u64::MAX {
        u64::MAX
    } else {
        (a * b) as u64
    }
}

/// The pixel budget of a render: the square of the dimension limit.
pub fn render_max_pixels(max_dimension: u32) -> (p: u64)
    ensures
        p == sat_mul(max_dimension as nat, max_dimension as nat),
{
    let d = max_dimension as u64;
    assert(d * d <= 0xffff_ffff * 0xffff_ffff) by (nonlinear_arith)
        requires
            d <= 0xffff_ffff,
    ;
    d * d
}

/// The output budget of a render: four bytes per pixel of the pixel budget
/// (saturating), and never less than the default budget.
pub open spec fn max_output_bytes(max_dimension: u32) -> u64 {
    let b = sat_mul(sat_mul(max_dimension as nat, max_dimension as nat) as nat, 4);
    if b >= DEFAULT_RENDER_MAX_OUTPUT_BYTES {
        b
    } else {
        DEFAULT_RENDER_MAX_OUTPUT_BYTES
    }
}

/// The output budget of a render.
pub fn render_max_output_bytes(max_dimension: u32) -> (b: u64)
    ensures
        b == max_output_bytes(max_dimension),
{
    let pixels = render_max_pixels(max_dimension);
    let bytes = if pixels > u64::MAX / 4 {
        u64::MAX
    } else {
        pixels * 4
    };
    if bytes >= DEFAULT_RENDER_MAX_OUTPUT_BYTES {
        bytes
    } else {
        DEFAULT_RENDER_MAX_OUTPUT_BYTES
    }
}

/// What the renderer is asked for: a page at a zoom (the bits of an `f32`)
/// and rotation, within width, height, pixel and byte limits.
#[derive(Clone, Copy, Debug, PartialEq, Eq, Structural)]
pub struct RenderRequest {
    pub page_index: usize,
    pub zoom_bits: u32,
    pub rotation_degrees: i32,
    pub max_width: u32,
    pub max_height: u32,
    pub max_pixels: u64,
    pub max_output_bytes: u64,
}

/// Identifies a render: page, zoom (the bits of an `f32`), rotation and the
/// dimension limit.
#[derive(Clone, Copy, Debug, PartialEq, Eq, Structural)]
pub struct RealRenderKey {
    pub page_index: usize,
    pub zoom_bits: u32,
    pub rotation_degrees: i32,
    pub max_dimension: u32,
}

impl RealRenderKey {
    /// The key of a render of `page_index` at zoom `zoom_bits`.
    pub fn new(page_index: usize, zoom_bits: u32, rotation_degrees: i32, max_dimension: u32) -> (k:
        RealRenderKey)
        ensures
            k == (RealRenderKey { page_index, zoom_bits, rotation_degrees, max_dimension }),
    {
        RealRenderKey { page_index, zoom_bits, rotation_degrees, max_dimension }
    }

    /// The zoom of this render, as the bits of an `f32`.
    pub fn zoom_bits(self) -> (z: u32)
        ensures
            z == self.zoom_bits,
    {
        self.zoom_bits
    }

    /// The request for this render: its page, zoom and rotation, with the
    /// dimension limit bounding width and height, and the pixel and byte
    /// budgets derived from it.
    pub fn request(self) -> (r: RenderRequest)
        ensures
            r == (RenderRequest {
                page_index: self.page_index,
                zoom_bits: self.zoom_bits,
                rotation_degrees: self.rotation_degrees,
                max_width: self.max_dimension,
                max_height: self.max_dimension,
                max_pixels: sat_mul(self.max_dimension as nat, self.max_dimension as nat),
                max_output_bytes: max_output_bytes(self.max_dimension),
            }),
    {
        RenderRequest {
            page_index: self.page_index,
            zoom_bits: self.zoom_bits,
            rotation_degrees: self.rotation_degrees,
            max_width: self.max_dimension,
            max_height: self.max_dimension,
            max_pixels: render_max_pixels(self.max_dimension),
            max_output_bytes: render_max_output_bytes(self.max_dimension),
        }
    }
}

/// The keys that move between pages.
#[derive(Clone, Copy, Debug, PartialEq, Eq, Structural)]
pub enum PageKeyboardShortcut {
    Previous,
    Next,
    First,
    Last,
}

/// The page a key leads to: one back (not before the first), one on (not
/// past the last), the first or the last; none when there are no pages.
pub open spec fn keyboard_target(current: nat, count: nat, key: PageKeyboardShortcut) -> Option<
    nat,
> {
    if count == 0 {
        None
    } else {
        Some(
            match key {
                PageKeyboardShortcut::Previous => if current > 0 {
                    (current - 1) as nat
                } else {
                    0
                },
                PageKeyboardShortcut::Next => if current + 1 <= count - 1 {
                    current + 1
                } else {
                    (count - 1) as nat
                },
                PageKeyboardShortcut::First => 0,
                PageKeyboardShortcut::Last => (count - 1) as nat,
            },
        )
    }
}

/// The page a key leads to.
pub fn page_keyboard_target_page(
    current_page: usize,
    page_count: usize,
    shortcut: PageKeyboardShortcut,
) -> (p: Option<usize>)
    ensures
        match keyboard_target(current_page as nat, page_count as nat, shortcut) {
            Some(t) => p == Some(t as usize),
            None => p is None,
        },
{
    if page_count == 0 {
        return None;
    }
    let last_page = page_count - 1;
    Some(
        match shortcut {
            PageKeyboardShortcut::Previous => if current_page > 0 {
                current_page - 1
            } else {
                0
            },
            PageKeyboardShortcut::Next => if current_page < last_page {
                current_page + 1
            } else {
                last_page
            },
            PageKeyboardShortcut::First => 0,
            PageKeyboardShortcut::Last => last_page,
        },
    )
}

/// The rows of a rendered image packed tightly: `row_len` bytes from the
/// start of each of the first `rows` rows, which are `stride` bytes apart.
pub open spec fn packed_rows(pixels: Seq<u8>, stride: nat, row_len: nat, rows: nat) -> Seq<u8>
    decreases rows,
{
    if rows == 0 {
        seq![]
    } else {
        let start = (rows - 1) * stride;
        packed_rows(pixels, stride, row_len, (rows - 1) as nat) + pixels.subrange(
            start as int,
            start + row_len,
        )
    }
}

/// The packed RGBA bytes of a rendered image: `None` when it is empty, when
/// a row does not fit in the stride, or when the pixel buffer is short.
pub open spec fn packed_image(width: nat, height: nat, stride: nat, pixels: Seq<u8>) -> Option<
    Seq<u8>,
> {
    if width == 0 || height == 0 || width * 4 > usize::MAX || stride < width * 4 || stride * height
        > usize::MAX || pixels.len() < stride * height {
        None
    } else {
        Some(packed_rows(pixels, stride, width * 4, height))
    }
}

/// Packs the rows of a rendered image, dropping the padding at the end of
/// each row.
pub fn render_result_rgba(width: u32, height: u32, stride: usize, pixels: &[u8]) -> (r: Option<
    Vec<u8>,
>)
    ensures
        match packed_image(width as nat, height as nat, stride as nat, pixels@) {
            Some(p) => r matches Some(v) && v@ == p,
            None => r is None,
        },
{
    let w = width as usize;
    let h = height as usize;
    if width as u64 != w as u64 || height as u64 != h as u64 {
        return None;
    }
    if w == 0 || h == 0 {
        return None;
    }
    if w > usize::MAX / 4 {
        return None;
    }
    let row_len = w * 4;
    if stride < row_len {
        return None;
    }
    if stride > usize::MAX / h {
        assert(stride * h > usize::MAX) by (nonlinear_arith)
            requires
                stride > usize::MAX / h,
                h > 0,
        ;
        return None;
    }
    assert(stride * h <= usize::MAX) by (nonlinear_arith)
        requires
            stride <= usize::MAX / h,
            h > 0,
    ;
    let required = stride * h;
    if pixels.len() < required {
        return None;
    }
    let plen = pixels.len();
    let mut out: Vec<u8> = Vec::new();
    let mut row: usize = 0;
    while row < h
        invariant
            0 <= row <= h,
            plen == pixels@.len(),
            row_len == w * 4,
            row_len <= stride,
            stride * h <= pixels@.len(),
            out@ == packed_rows(pixels@, stride as nat, row_len as nat, row as nat),
        decreases h - row,
    {
        assert(row * stride + stride <= h * stride) by (nonlinear_arith)
            requires
                row < h,
        ;
        assert(row * stride == stride * row) by (nonlinear_arith);
        assert(h * stride == stride * h) by (nonlinear_arith);
        let start = row * stride;
        let mut k: usize = 0;
        let ghost before = out@;
        while k < row_len
            invariant
                0 <= k <= row_len,
                plen == pixels@.len(),
                start + row_len <= pixels@.len(),
                out@ == before + pixels@.subrange(start as int, start + k),
            decreases row_len - k,
        {
            out.push(pixels[start + k]);
            assert(pixels@.subrange(start as int, start + k + 1) =~= pixels@.subrange(
                start as int,
                start + k,
            ).push(pixels@[start + k]));
            k += 1;
        }
        assert(((row + 1) - 1) * stride == row * stride);
        row += 1;
    }
    Some(out)
}

} // verus!
