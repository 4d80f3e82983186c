//! Per-frame analysis of a matting mask: where the subject is and how much
//! of the frame it covers.

use crate::stream::StreamId;
use image::{ImageBuffer, Luma};
use vstd::prelude::*;

verus! {

/// A pixel counts as part of the subject when its intensity is above this.
pub const ON_THRESHOLD: u8 = 250;

/// Intensities are fractions of this full-scale value.
pub const FULL_SCALE: u8 = 255;

/// A subject is present when more than this many hundredths of the frame
/// are covered.
pub const COVERAGE_PERCENT: u8 = 14;

/// A single-channel mask, one intensity per pixel, held in an
/// `image::ImageBuffer`.
#[verifier::external_body]
pub struct MaskImage {
    inner: ImageBuffer<Luma<u8>, Vec<u8>>,
}

/// The rows of a mask from top to bottom, each holding the intensities of
/// its pixels from left to right.
pub uninterp spec fn mask_rows(mask: MaskImage) -> Seq<Seq<u8>>;

/// The number of pixels in a row of a mask. A mask without rows has a
/// width all the same.
pub uninterp spec fn mask_width(mask: MaskImage) -> nat;

/// The rows that a buffer of intensities in row-major order makes.
pub open spec fn rows_of(width: u32, height: u32, data: Seq<u8>) -> Seq<Seq<u8>> {
    Seq::new(height as nat, |y: int| data.subrange(y * width, (y + 1) * width))
}

/// `ImageBuffer::from_raw`: the image of the given size over `data`, row by
/// row, or nothing where `data` is too short for it.
#[verifier::external_body]
fn image_from_raw(width: u32, height: u32, data: Vec<u8>) -> (mask: Option<MaskImage>)
    ensures
        mask is Some <==> width * height <= data@.len(),
        mask matches Some(m) ==> mask_rows(m) == rows_of(width, height, data@) && mask_width(m)
            == width,
{
    match ImageBuffer::from_raw(width, height, data) {
        Some(inner) => Some(MaskImage { inner }),
        None => None,
    }
}

/// `ImageBuffer::width`: the number of pixels in every row.
#[verifier::external_body]
fn image_width(mask: &MaskImage) -> (width: u32)
    ensures
        width == mask_width(*mask),
        forall|y: int|
            0 <= y < mask_rows(*mask).len() ==> (#[trigger] mask_rows(*mask)[y]).len() == width,
{
    mask.inner.width()
}

/// `ImageBuffer::height`: the number of rows.
#[verifier::external_body]
fn image_height(mask: &MaskImage) -> (height: u32)
    ensures
        mask_rows(*mask).len() == height,
{
    mask.inner.height()
}

/// `ImageBuffer::get_pixel`: the intensity of the pixel in column `x` of row
/// `y`. The outside function panics outside the image, which `requires`
/// leaves out.
#[verifier::external_body]
fn image_intensity(mask: &MaskImage, x: u32, y: u32) -> (intensity: u8)
    requires
        y < mask_rows(*mask).len(),
        x < mask_rows(*mask)[y as int].len(),
    ensures
        intensity == mask_rows(*mask)[y as int][x as int],
{
    mask.inner.get_pixel(x, y).0[0]
}

impl MaskImage {
    /// The mask of the given size over intensities in row-major order.
    /// There is none where `data` holds fewer than `width * height` bytes.
    pub fn from_raw(width: u32, height: u32, data: Vec<u8>) -> (mask: Option<MaskImage>)
        ensures
            mask is Some <==> width * height <= data@.len(),
            mask matches Some(m) ==> mask_rows(m) == rows_of(width, height, data@) && mask_width(m)
                == width,
    {
        image_from_raw(width, height, data)
    }

    /// The number of pixels in a row.
    pub fn width(&self) -> (width: u32)
        ensures
            width == mask_width(*self),
            forall|y: int|
                0 <= y < mask_rows(*self).len() ==> (#[trigger] mask_rows(*self)[y]).len()
                    == width,
    {
        image_width(self)
    }

    /// The number of rows.
    pub fn height(&self) -> (height: u32)
        ensures
            mask_rows(*self).len() == height,
    {
        image_height(self)
    }

    /// The intensity at column `x` of row `y`, or nothing outside the mask.
    pub fn get(&self, x: u32, y: u32) -> (intensity: Option<u8>)
        ensures
            intensity == if y < mask_rows(*self).len() && x < mask_rows(*self)[y as int].len() {
                Some(mask_rows(*self)[y as int][x as int])
            } else {
                None
            },
    {
        if y < image_height(self) && x < image_width(self) {
            Some(image_intensity(self, x, y))
        } else {
            None
        }
    }
}

/// A rectangle in pixel coordinates. One that is returned by this module is
/// never empty.
#[derive(Debug, Clone, Copy, PartialEq, Eq, Structural)]
pub struct BoundingBox {
    pub x: u32,
    pub y: u32,
    pub width: u32,
    pub height: u32,
}

/// A subject was seen by one camera.
#[derive(Debug, Clone, Copy, PartialEq, Eq, Structural)]
pub struct PersonDetectedEvent {
    pub stream_id: StreamId,
    pub bounding_box: BoundingBox,
    /// The sum of all intensities of the mask, in units of 1/255.
    pub mask_sum: u128,
}

/// The pixel at column `x` of row `y` belongs to the subject.
pub open spec fn is_on(rows: Seq<Seq<u8>>, x: int, y: int) -> bool {
    0 <= y < rows.len() && 0 <= x < rows[y].len() && rows[y][x] > ON_THRESHOLD
}

/// `b` covers every pixel of the subject and each of its four sides holds
/// one.
pub open spec fn is_tight_box(rows: Seq<Seq<u8>>, b: BoundingBox) -> bool {
    &&& b.width > 0
    &&& b.height > 0
    &&& forall|x: int, y: int| #[trigger]
        is_on(rows, x, y) ==> b.x <= x < b.x + b.width && b.y <= y < b.y + b.height
    &&& exists|y: int| #[trigger] is_on(rows, b.x as int, y)
    &&& exists|y: int| #[trigger] is_on(rows, b.x + b.width - 1, y)
    &&& exists|x: int| #[trigger] is_on(rows, x, b.y as int)
    &&& exists|x: int| #[trigger] is_on(rows, x, b.y + b.height - 1)
}

/// No pixel of the mask belongs to the subject.
pub open spec fn is_blank(rows: Seq<Seq<u8>>) -> bool {
    forall|x: int, y: int| !#[trigger] is_on(rows, x, y)
}

/// What `masked_bounding_box` owes for a mask with these rows.
pub open spec fn is_bounding_box_of(rows: Seq<Seq<u8>>, result: Option<BoundingBox>) -> bool {
    match result {
        Some(b) => is_tight_box(rows, b),
        None => is_blank(rows),
    }
}

/// The pixel `(x, y)` comes before `(at_x, at_y)` when the mask is read row
/// by row.
pub open spec fn is_before(x: int, y: int, at_x: int, at_y: int) -> bool {
    y < at_y || (y == at_y && x < at_x)
}

/// The tight box around the pixels whose intensity is above the threshold,
/// or nothing where no pixel is.
pub fn masked_bounding_box(buffer: &MaskImage) -> (result: Option<BoundingBox>)
    ensures
        is_bounding_box_of(mask_rows(*buffer), result),
{
    let width = image_width(buffer);
    let height = image_height(buffer);
    let ghost rows = mask_rows(*buffer);
    let mut found = false;
    let mut min_x: u32 = 0;
    let mut min_y: u32 = 0;
    let mut max_x: u32 = 0;
    let mut max_y: u32 = 0;
    let ghost mut at_min_x: int = 0;
    let ghost mut at_max_x: int = 0;
    let ghost mut at_min_y: int = 0;
    let ghost mut at_max_y: int = 0;
    let mut y: u32 = 0;
    while y < height
        invariant
            rows == mask_rows(*buffer),
            rows.len() == height,
            forall|r: int| 0 <= r < rows.len() ==> (#[trigger] rows[r]).len() == width,
            0 <= y <= height,
            !found ==> forall|px: int, py: int| #[trigger]
                is_on(rows, px, py) ==> !is_before(px, py, 0, y as int),
            found ==> {
                &&& min_x <= max_x < width
                &&& min_y <= max_y < height
                &&& min_y <= y
                &&& forall|px: int, py: int| #[trigger]
                    is_on(rows, px, py) && is_before(px, py, 0, y as int) ==> min_x <= px <= max_x
                        && min_y <= py <= max_y
                &&& is_on(rows, min_x as int, at_min_x)
                &&& is_on(rows, max_x as int, at_max_x)
                &&& is_on(rows, at_min_y, min_y as int)
                &&& is_on(rows, at_max_y, max_y as int)
            },
        decreases height - y,
    {
        let mut x: u32 = 0;
        while x < width
            invariant
                rows == mask_rows(*buffer),
                rows.len() == height,
                forall|r: int| 0 <= r < rows.len() ==> (#[trigger] rows[r]).len() == width,
                0 <= y < height,
                0 <= x <= width,
                !found ==> forall|px: int, py: int| #[trigger]
                    is_on(rows, px, py) ==> !is_before(px, py, x as int, y as int),
                found ==> {
                    &&& min_x <= max_x < width
                    &&& min_y <= max_y < height
                    &&& min_y <= y
                    &&& forall|px: int, py: int| #[trigger]
                        is_on(rows, px, py) && is_before(px, py, x as int, y as int) ==> min_x
                            <= px <= max_x && min_y <= py <= max_y
                    &&& is_on(rows, min_x as int, at_min_x)
                    &&& is_on(rows, max_x as int, at_max_x)
                    &&& is_on(rows, at_min_y, min_y as int)
                    &&& is_on(rows, at_max_y, max_y as int)
                },
            decreases width - x,
        {
            let intensity = image_intensity(buffer, x, y);
            if intensity > ON_THRESHOLD {
                if !found {
                    found = true;
                    min_x = x;
                    max_x = x;
                    min_y = y;
                    max_y = y;
                    proof {
                        at_min_x = y as int;
                        at_max_x = y as int;
                        at_min_y = x as int;
                        at_max_y = x as int;
                    }
                } else {
                    if x < min_x {
                        min_x = x;
                        proof {
                            at_min_x = y as int;
                        }
                    }
                    if x > max_x {
                        max_x = x;
                        proof {
                            at_max_x = y as int;
                        }
                    }
                    if y > max_y {
                        max_y = y;
                        proof {
                            at_max_y = x as int;
                        }
                    }
                }
            }
            x = x + 1;
        }
        y = y + 1;
    }
    if found {
        let result = BoundingBox {
            x: min_x,
            y: min_y,
            width: max_x - min_x + 1,
            height: max_y - min_y + 1,
        };
        proof {
            assert forall|px: int, py: int| #[trigger] is_on(rows, px, py) implies result.x <= px
                < result.x + result.width && result.y <= py < result.y + result.height by {
                assert(is_before(px, py, 0, height as int));
            }
            assert(is_on(rows, result.x as int, at_min_x));
            assert(is_on(rows, result.x + result.width - 1, at_max_x));
            assert(is_on(rows, at_min_y, result.y as int));
            assert(is_on(rows, at_max_y, result.y + result.height - 1));
        }
        Some(result)
    } else {
        proof {
            assert forall|px: int, py: int| !#[trigger] is_on(rows, px, py) by {
                if is_on(rows, px, py) {
                    assert(is_before(px, py, 0, height as int));
                }
            }
        }
        None
    }
}

/// A mask has at most one tight box.
pub proof fn lemma_tight_box_is_unique(rows: Seq<Seq<u8>>, a: BoundingBox, b: BoundingBox)
    requires
        is_tight_box(rows, a),
        is_tight_box(rows, b),
    ensures
        a == b,
{
    let y0 = choose|y: int| #[trigger] is_on(rows, a.x as int, y);
    assert(is_on(rows, a.x as int, y0));
    let y1 = choose|y: int| #[trigger] is_on(rows, b.x as int, y);
    assert(is_on(rows, b.x as int, y1));
    let y2 = choose|y: int| #[trigger] is_on(rows, a.x + a.width - 1, y);
    assert(is_on(rows, a.x + a.width - 1, y2));
    let y3 = choose|y: int| #[trigger] is_on(rows, b.x + b.width - 1, y);
    assert(is_on(rows, b.x + b.width - 1, y3));
    let x0 = choose|x: int| #[trigger] is_on(rows, x, a.y as int);
    assert(is_on(rows, x0, a.y as int));
    let x1 = choose|x: int| #[trigger] is_on(rows, x, b.y as int);
    assert(is_on(rows, x1, b.y as int));
    let x2 = choose|x: int| #[trigger] is_on(rows, x, a.y + a.height - 1);
    assert(is_on(rows, x2, a.y + a.height - 1));
    let x3 = choose|x: int| #[trigger] is_on(rows, x, b.y + b.height - 1);
    assert(is_on(rows, x3, b.y + b.height - 1));
}

/// Where the pixels above the threshold fill exactly the rectangle `rect`,
/// the bounding box of the mask is `rect` and nothing else.
pub proof fn lemma_rectangle_is_its_own_box(
    rows: Seq<Seq<u8>>,
    rect: BoundingBox,
    result: Option<BoundingBox>,
)
    requires
        rect.width > 0,
        rect.height > 0,
        forall|x: int, y: int| #[trigger]
            is_on(rows, x, y) <==> rect.x <= x < rect.x + rect.width && rect.y <= y < rect.y
                + rect.height,
        is_bounding_box_of(rows, result),
    ensures
        is_tight_box(rows, rect),
        result == Some(rect),
{
    assert(is_on(rows, rect.x as int, rect.y as int));
    assert(is_on(rows, rect.x + rect.width - 1, rect.y as int));
    assert(is_on(rows, rect.x as int, rect.y + rect.height - 1));
    match result {
        Some(b) => {
            lemma_tight_box_is_unique(rows, b, rect);
        },
        None => {},
    }
}

/// A mask without a pixel above the threshold has no bounding box.
pub proof fn lemma_blank_mask_has_no_box(rows: Seq<Seq<u8>>, result: Option<BoundingBox>)
    requires
        is_blank(rows),
        is_bounding_box_of(rows, result),
    ensures
        result is None,
{
    match result {
        Some(b) => {
            let y = choose|y: int| #[trigger] is_on(rows, b.x as int, y);
            assert(is_on(rows, b.x as int, y));
        },
        None => {},
    }
}

/// The sum of the intensities of one row.
pub open spec fn row_sum(row: Seq<u8>) -> nat
    decreases row.len(),
{
    if row.len() == 0 {
        0
    } else {
        row_sum(row.drop_last()) + row.last() as nat
    }
}

/// The sum of the intensities of all pixels, in units of 1/255.
pub open spec fn mask_sum(rows: Seq<Seq<u8>>) -> nat
    decreases rows.len(),
{
    if rows.len() == 0 {
        0
    } else {
        mask_sum(rows.drop_last()) + row_sum(rows.last())
    }
}

/// The number of pixels of a mask whose rows all have one length.
pub open spec fn pixel_count(rows: Seq<Seq<u8>>) -> nat {
    if rows.len() == 0 {
        0
    } else {
        rows.len() * rows[0].len()
    }
}

/// The covered fraction `mask_sum / 255 / pixel_count` is above 14/100.
pub open spec fn subject_present(rows: Seq<Seq<u8>>) -> bool {
    100 * mask_sum(rows) > COVERAGE_PERCENT * FULL_SCALE * pixel_count(rows)
}

/// The sum of all intensities of the mask. Divided by 255 it is the sum of
/// the intensities as fractions of full scale.
pub fn sum_masked_pixels(image: &MaskImage) -> (total: u128)
    ensures
        total == mask_sum(mask_rows(*image)),
        total <= FULL_SCALE * pixel_count(mask_rows(*image)),
{
    let width = image_width(image);
    let height = image_height(image);
    let ghost rows = mask_rows(*image);
    let mut total: u128 = 0;
    let mut y: u32 = 0;
    while y < height
        invariant
            rows == mask_rows(*image),
            rows.len() == height,
            forall|r: int| 0 <= r < rows.len() ==> (#[trigger] rows[r]).len() == width,
            0 <= y <= height,
            total == mask_sum(rows.take(y as int)),
            total <= y * (width * 255),
        decreases height - y,
    {
        let mut row_total: u64 = 0;
        let mut x: u32 = 0;
        let ghost row = rows[y as int];
        while x < width
            invariant
                rows == mask_rows(*image),
                rows.len() == height,
                0 <= y < height,
                row == rows[y as int],
                row.len() == width,
                0 <= x <= width,
                row_total == row_sum(row.take(x as int)),
                row_total <= x * 255,
            decreases width - x,
        {
            let intensity = image_intensity(image, x, y);
            proof {
                assert(row.take(x + 1).drop_last() =~= row.take(x as int));
            }
            row_total = row_total + intensity as u64;
            x = x + 1;
        }
        proof {
            assert(row.take(width as int) =~= row);
            assert(rows.take(y + 1).drop_last() =~= rows.take(y as int));
            assert((y + 1) * (width * 255) == y * (width * 255) + width * 255) by (nonlinear_arith);
            assert((y + 1) * (width * 255) <= 0x1_0000_0000 * 0x100_0000_0000) by (nonlinear_arith)
                requires
                    y + 1 <= 0x1_0000_0000,
                    width * 255 <= 0x100_0000_0000,
            ;
        }
        total = total + row_total as u128;
        y = y + 1;
    }
    proof {
        assert(rows.take(height as int) =~= rows);
        assert(height * (width * 255) == 255 * (height * width)) by (nonlinear_arith);
        if height > 0 {
            assert(rows[0].len() == width);
        } else {
            assert(height * width == 0);
        }
    }
    total
}

/// Why a frame with a subject gave no event.
#[derive(Debug, Clone, Copy, PartialEq, Eq, Structural)]
pub enum DetectionError {
    /// The mask is covered beyond the threshold, yet none of its pixels is
    /// bright enough to mark where the subject is.
    SubjectNotLocated,
}

/// Decides from the measurements of one mask whether it shows a subject,
/// and builds the event for it: `mask_sum` is the sum of the intensities
/// and `pixels` the number of pixels. The subject is there when
/// `mask_sum / 255 / pixels` is above 14/100.
pub fn detection_event(
    stream_id: StreamId,
    bounding_box: Option<BoundingBox>,
    mask_sum: u128,
    pixels: u64,
) -> (result: Result<Option<PersonDetectedEvent>, DetectionError>)
    ensures
        result == if 100 * mask_sum > COVERAGE_PERCENT * FULL_SCALE * pixels {
            match bounding_box {
                Some(b) => Ok(
                    Some(PersonDetectedEvent { stream_id, bounding_box: b, mask_sum }),
                ),
                None => Err(DetectionError::SubjectNotLocated),
            }
        } else {
            Ok(None)
        },
{
    let scale: u128 = (COVERAGE_PERCENT as u128) * (FULL_SCALE as u128);
    assert(scale == 3570);
    let threshold: u128 = scale * (pixels as u128);
    let present = mask_sum > u128::MAX / 100 || 100 * mask_sum > threshold;
    if present {
        match bounding_box {
            Some(b) => Ok(Some(PersonDetectedEvent { stream_id, bounding_box: b, mask_sum })),
            None => Err(DetectionError::SubjectNotLocated),
        }
    } else {
        Ok(None)
    }
}

/// Looks at one mask of a camera and reports the subject in it, if the mask
/// shows one: the covered fraction of the frame must be above 14/100.
pub fn detect_person(stream_id: StreamId, mask: &MaskImage) -> (result: Result<
    Option<PersonDetectedEvent>,
    DetectionError,
>)
    ensures
        match result {
            Ok(None) => !subject_present(mask_rows(*mask)),
            Ok(Some(event)) => {
                &&& subject_present(mask_rows(*mask))
                &&& event.stream_id == stream_id
                &&& is_tight_box(mask_rows(*mask), event.bounding_box)
                &&& event.mask_sum == mask_sum(mask_rows(*mask))
            },
            Err(_) => subject_present(mask_rows(*mask)) && is_blank(mask_rows(*mask)),
        },
{
    let bounding_box = masked_bounding_box(mask);
    let sum = sum_masked_pixels(mask);
    let width = image_width(mask);
    let height = image_height(mask);
    assert(height * width <= 0xFFFF_FFFF * 0xFFFF_FFFF) by (nonlinear_arith)
        requires
            0 <= height <= 0xFFFF_FFFF,
            0 <= width <= 0xFFFF_FFFF,
    ;
    let pixels: u64 = (height as u64) * (width as u64);
    proof {
        let rows = mask_rows(*mask);
        if height > 0 {
            assert(rows[0].len() == width);
        }
        assert(pixels == pixel_count(rows));
    }
    detection_event(stream_id, bounding_box, sum, pixels)
}

} // verus!
