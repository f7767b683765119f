//! Turning the images of the window server into RGBA images, and choosing among its ways to
//! capture a display.

use rayon::iter::{IndexedParallelIterator, ParallelIterator};
use rayon::slice::{ParallelSlice, ParallelSliceMut};
use vstd::prelude::*;
use vstd::string::StringExecFns;

use crate::error::{XCapError, XCapResult};
use crate::error;
use crate::pixels::CapturedImage;
use crate::pixels;

verus! {

/// Where byte `i` of an RGBA buffer stands in the BGRA buffer of the same pixels: red and blue
/// change places.
pub open spec fn bgra_position(i: int) -> int {
    if i % 4 == 0 {
        i + 2
    } else if i % 4 == 2 {
        i - 2
    } else {
        i
    }
}

/// The number of whole pixels in a buffer of this length.
pub open spec fn pixel_count(len: nat) -> nat {
    len / 4
}

/// What is in `dst` once the BGRA pixels of `src` were written to it as RGBA: as many pixels as
/// both hold; what is beyond them stays.
pub open spec fn bgra_written(src: Seq<u8>, dst: Seq<u8>) -> Seq<u8> {
    Seq::new(
        dst.len(),
        |i: int|
            if i / 4 < pixel_count(src.len()) && i / 4 < pixel_count(dst.len()) {
                src[bgra_position(i)]
            } else {
                dst[i]
            },
    )
}

/// Writes the BGRA pixels of `src` to `dst` as RGBA.
pub fn bgra_to_rgba(src: &[u8], dst: &mut [u8])
    ensures
        final(dst)@ == bgra_written(src@, old(dst)@),
{
    let count: usize = if src.len() < dst.len() {
        src.len() / 4
    } else {
        dst.len() / 4
    };
    let mut pixel: usize = 0;
    while pixel < count
        invariant
            pixel <= count,
            count <= src.len() / 4,
            count <= dst.len() / 4,
            dst@.len() == old(dst)@.len(),
            forall|i: int| 0 <= i < 4 * pixel ==> #[trigger] dst@[i] == src@[bgra_position(i)],
            forall|i: int|
                4 * pixel <= i < dst@.len() ==> #[trigger] dst@[i] == old(dst)@[i],
        decreases count - pixel,
    {
        let at: usize = pixel * 4;
        dst[at] = src[at + 2];
        dst[at + 1] = src[at + 1];
        dst[at + 2] = src[at];
        dst[at + 3] = src[at + 3];
        pixel = pixel + 1;
    }
    assert(dst@ =~= bgra_written(src@, old(dst)@));
}

/// Part `k` of a buffer that is cut into parts of `size` bytes, the last of which may be shorter.
pub open spec fn part(bytes: Seq<u8>, size: int, k: int) -> Seq<u8> {
    bytes.subrange(
        k * size,
        if (k + 1) * size < bytes.len() {
            (k + 1) * size
        } else {
            bytes.len() as int
        },
    )
}

/// Writes the BGRA pixels of each part of `src` to the part of `dst` of the same number, on all
/// processors. The parts are those of rayon's `par_chunks` and `par_chunks_mut`; `zip` pairs them
/// by number and stops where the shorter runs out, and `for_each` calls [`bgra_to_rgba`] once for
/// each pair. Parts of `dst` without a counterpart stay.
#[verifier::external_body]
fn bgra_to_rgba_in_parts(src: &[u8], src_part: usize, dst: &mut Vec<u8>, dst_part: usize)
    requires
        src_part > 0,
        dst_part > 0,
    ensures
        final(dst)@.len() == old(dst)@.len(),
        forall|k: int|
            0 <= k && k * dst_part < old(dst)@.len() ==> #[trigger] part(
                final(dst)@,
                dst_part as int,
                k,
            ) == (if k * src_part < src@.len() {
                bgra_written(
                    part(src@, src_part as int, k),
                    part(old(dst)@, dst_part as int, k),
                )
            } else {
                part(old(dst)@, dst_part as int, k)
            }),
{
    dst.par_chunks_mut(dst_part).zip(src.par_chunks(src_part)).for_each(
        |(dst, src)| bgra_to_rgba(src, dst),
    );
}

/// Whether a result is the failure with this message.
pub open spec fn fails_with(result: XCapResult<CapturedImage>, message: Seq<char>) -> bool {
    &&& result is Err
    &&& result->Err_0@ == error::Failure::Error(message)
}

/// What the window server tells of an image that it made.
pub struct RawImage<'a> {
    pub width: usize,
    pub height: usize,
    /// How far apart the rows begin; more than four bytes for each pixel where rows are padded.
    pub bytes_per_row: usize,
    /// The BGRA pixels, where they could be copied.
    pub data: Option<&'a [u8]>,
}

/// The RGBA bytes of an image, without what pads its rows.
pub open spec fn rgba_bytes(data: Seq<u8>, width: nat, height: nat, bytes_per_row: nat) -> Seq<u8> {
    Seq::new(
        4 * width * height,
        |i: int|
            data[(i / (4 * width as int)) * bytes_per_row + bgra_position(i % (4 * width as int))],
    )
}

impl<'a> RawImage<'a> {
    /// Whether the pixels can be counted in memory and all of them are there.
    pub open spec fn complete(self) -> bool {
        self.data matches Some(data) ==> self.width > 0 && self.height > 0 ==> {
            &&& 4 * self.width * self.height <= usize::MAX
            &&& self.bytes_per_row >= 4 * self.width
            &&& (self.height - 1) * self.bytes_per_row + 4 * self.width <= data@.len()
        }
    }

    /// Whether the pixels can be counted in memory and all of them are there.
    pub fn is_complete(&self) -> (yes: bool)
        ensures
            yes == self.complete(),
    {
        match self.data {
            None => true,
            Some(data) => {
                if self.width == 0 || self.height == 0 {
                    return true;
                }
                proof {
                    lemma_extent(self.width as int, self.height as int, self.bytes_per_row as int);
                }
                let row: usize = match self.width.checked_mul(4) {
                    Some(row) => row,
                    None => {
                        return false;
                    },
                };
                if row.checked_mul(self.height).is_none() || self.bytes_per_row < row {
                    return false;
                }
                let len: usize = data.len();
                let above: usize = match (self.height - 1).checked_mul(self.bytes_per_row) {
                    Some(above) => above,
                    None => {
                        return false;
                    },
                };
                above <= len && row <= len - above
            },
        }
    }
}

proof fn lemma_extent(width: int, height: int, bytes_per_row: int)
    requires
        0 < width,
        0 < height,
        0 <= bytes_per_row,
    ensures
        4 * width <= 4 * width * height,
        4 * width * height == (width * 4) * height,
        0 <= (height - 1) * bytes_per_row,
{
    assert(4 * width <= 4 * width * height) by (nonlinear_arith)
        requires
            0 < width,
            0 < height,
    ;
    assert(4 * width * height == (width * 4) * height) by (nonlinear_arith);
    assert(0 <= (height - 1) * bytes_per_row) by (nonlinear_arith)
        requires
            0 < height,
            0 <= bytes_per_row,
    ;
}

proof fn lemma_multiple_of_four(k: int, size: int)
    requires
        size % 4 == 0,
    ensures
        (k * size) % 4 == 0,
{
    let quarter = size / 4;
    assert(k * size == 4 * (k * quarter)) by (nonlinear_arith)
        requires
            size == 4 * quarter,
    ;
}

/// The bytes of a buffer after [`bgra_to_rgba_in_parts`], one by one.
proof fn lemma_parts_byte(
    src: Seq<u8>,
    src_part: int,
    before: Seq<u8>,
    after: Seq<u8>,
    dst_part: int,
    i: int,
)
    requires
        0 < dst_part <= src_part,
        dst_part % 4 == 0,
        before.len() % 4 == 0,
        after.len() == before.len(),
        0 <= i < before.len(),
        part(after, dst_part, i / dst_part) == (if (i / dst_part) * src_part < src.len() {
            bgra_written(
                part(src, src_part, i / dst_part),
                part(before, dst_part, i / dst_part),
            )
        } else {
            part(before, dst_part, i / dst_part)
        }),
        (i / dst_part) * src_part + part(before, dst_part, i / dst_part).len() <= src.len(),
    ensures
        after[i] == src[(i / dst_part) * src_part + bgra_position(i % dst_part)],
{
    let k = i / dst_part;
    let r = i % dst_part;
    vstd::arithmetic::div_mod::lemma_fundamental_div_mod(i, dst_part);
    vstd::arithmetic::div_mod::lemma_mod_bound(i, dst_part);
    assert(i == k * dst_part + r) by (nonlinear_arith)
        requires
            i == dst_part * k + r,
    ;
    assert((k + 1) * dst_part == k * dst_part + dst_part) by (nonlinear_arith);
    assert((k + 1) * src_part == k * src_part + src_part) by (nonlinear_arith);
    vstd::arithmetic::div_mod::lemma_div_pos_is_pos(i, dst_part);
    assert(0 <= k * dst_part) by (nonlinear_arith)
        requires
            0 <= k,
            0 < dst_part,
    ;
    assert(0 <= k * src_part) by (nonlinear_arith)
        requires
            0 <= k,
            0 < src_part,
    ;
    let d = part(before, dst_part, k);
    let s = part(src, src_part, k);
    lemma_multiple_of_four(k, dst_part);
    assert(d.len() % 4 == 0);
    assert(r < d.len());
    assert(s.len() >= d.len());
    assert(after[i] == part(after, dst_part, k)[r]);
    assert(part(after, dst_part, k) == bgra_written(s, d));
    assert(r / 4 < pixel_count(d.len()));
    assert(bgra_position(r) < d.len());
}

proof fn lemma_position_in_part(i: int, size: int)
    requires
        0 <= i,
        0 < size,
        size % 4 == 0,
    ensures
        (i / size) * size + bgra_position(i % size) == bgra_position(i),
{
    vstd::arithmetic::div_mod::lemma_fundamental_div_mod(i, size);
    let k = i / size;
    assert(i == k * size + i % size) by (nonlinear_arith)
        requires
            i == size * k + i % size,
    ;
    lemma_multiple_of_four(k, size);
}

/// Rows without padding are written right in parts of any length that cuts no pixel.
proof fn lemma_dense(
    data: Seq<u8>,
    width: int,
    height: int,
    src: Seq<u8>,
    before: Seq<u8>,
    after: Seq<u8>,
)
    requires
        0 < width,
        0 < height,
        before.len() == 4 * width * height,
        after.len() == before.len(),
        src == data.subrange(0, before.len() as int),
        before.len() <= data.len(),
        forall|k: int|
            0 <= k && k * PART < before.len() ==> #[trigger] part(after, PART as int, k) == (if k
                * PART < src.len() {
                bgra_written(part(src, PART as int, k), part(before, PART as int, k))
            } else {
                part(before, PART as int, k)
            }),
    ensures
        after == rgba_bytes(data, width as nat, height as nat, (4 * width) as nat),
{
    lemma_multiple_of_four(height, 4 * width);
    assert(4 * width * height == height * (4 * width)) by (nonlinear_arith);
    assert forall|i: int| 0 <= i < after.len() implies after[i] == #[trigger] rgba_bytes(
        data,
        width as nat,
        height as nat,
        (4 * width) as nat,
    )[i] by {
        lemma_parts_byte(src, PART as int, before, after, PART as int, i);
        lemma_position_in_part(i, PART as int);
        lemma_position_in_part(i, 4 * width);
        assert(0 <= bgra_position(i) < before.len());
    }
    assert(after =~= rgba_bytes(data, width as nat, height as nat, (4 * width) as nat));
}

/// Padded rows are written right one by one.
proof fn lemma_padded(
    data: Seq<u8>,
    width: int,
    height: int,
    bytes_per_row: int,
    before: Seq<u8>,
    after: Seq<u8>,
)
    requires
        0 < width,
        0 < height,
        before.len() == 4 * width * height,
        after.len() == before.len(),
        4 * width <= bytes_per_row,
        (height - 1) * bytes_per_row + 4 * width <= data.len(),
        forall|k: int|
            0 <= k && k * (4 * width) < before.len() ==> #[trigger] part(after, 4 * width, k) == (
            if k * bytes_per_row < data.len() {
                bgra_written(part(data, bytes_per_row, k), part(before, 4 * width, k))
            } else {
                part(before, 4 * width, k)
            }),
    ensures
        after == rgba_bytes(data, width as nat, height as nat, bytes_per_row as nat),
{
    let row = 4 * width;
    lemma_multiple_of_four(height, 4 * width);
    assert(4 * width * height == height * (4 * width)) by (nonlinear_arith);
    assert forall|i: int| 0 <= i < after.len() implies after[i] == #[trigger] rgba_bytes(
        data,
        width as nat,
        height as nat,
        bytes_per_row as nat,
    )[i] by {
        let k = i / row;
        vstd::arithmetic::div_mod::lemma_fundamental_div_mod(i, row);
        vstd::arithmetic::div_mod::lemma_mod_bound(i, row);
        vstd::arithmetic::div_mod::lemma_div_pos_is_pos(i, row);
        assert(k <= height - 1) by (nonlinear_arith)
            requires
                i == row * k + i % row,
                0 <= i % row,
                i < row * height,
                0 < row,
        ;
        assert(row * height == 4 * width * height) by (nonlinear_arith)
            requires
                row == 4 * width,
        ;
        assert(k * bytes_per_row <= (height - 1) * bytes_per_row) by (nonlinear_arith)
            requires
                k <= height - 1,
                0 <= bytes_per_row,
        ;
        assert((k + 1) * row <= height * row) by (nonlinear_arith)
            requires
                k <= height - 1,
                0 <= row,
        ;
        assert(height * row == row * height) by (nonlinear_arith);
        assert((k + 1) * row == k * row + row) by (nonlinear_arith);
        assert(k * row < before.len()) by (nonlinear_arith)
            requires
                i == row * k + i % row,
                0 <= i % row,
                i < before.len(),
        ;
        lemma_parts_byte(data, bytes_per_row, before, after, row, i);
    }
    assert(after =~= rgba_bytes(data, width as nat, height as nat, bytes_per_row as nat));
}

/// The part length in which rows without padding are handed out: a mebibyte, which cuts no pixel.
pub const PART: usize = 1048576;

/// What becomes of an image of the window server: an error where its data could not be copied, then
/// one where it has no pixels, else the RGBA image of its extent.
pub open spec fn converts(image: RawImage, result: XCapResult<CapturedImage>) -> bool {
    match image.data {
        None => fails_with(result, "Failed to copy data"@),
        Some(data) => if image.width == 0 || image.height == 0 {
            fails_with(result, "Empty CGImage"@)
        } else {
            &&& result is Ok
            &&& pixels::image_size(result->Ok_0) == (image.width as u32, image.height as u32)
            &&& pixels::image_bytes(result->Ok_0) == rgba_bytes(
                data@,
                image.width as nat,
                image.height as nat,
                image.bytes_per_row as nat,
            )
        },
    }
}

/// Turns an image of the window server into an RGBA image.
pub fn cg_image_to_rgba(image: &RawImage) -> (result: XCapResult<CapturedImage>)
    requires
        image.complete(),
    ensures
        converts(*image, result),
{
    let data = match image.data {
        Some(data) => data,
        None => {
            return Err(XCapError::new("Failed to copy data"));
        },
    };
    if image.width == 0 || image.height == 0 {
        return Err(XCapError::new("Empty CGImage"));
    }
    let width: usize = image.width;
    let height: usize = image.height;
    let bytes_per_row: usize = image.bytes_per_row;
    assert(4 * width <= 4 * width * height) by (nonlinear_arith)
        requires
            height >= 1,
            width >= 1,
    ;
    let row: usize = width * 4;
    assert(4 * width * height == row * height) by (nonlinear_arith)
        requires
            row == width * 4,
    ;
    let len: usize = row * height;
    let mut buffer: Vec<u8> = vec![0u8; len];
    let ghost before = buffer@;
    if bytes_per_row == row {
        assert((height - 1) * row + row == height * row) by (nonlinear_arith);
        assert(height * row == row * height) by (nonlinear_arith);
        let src = vstd::slice::slice_subrange(data, 0, len);
        bgra_to_rgba_in_parts(src, PART, &mut buffer, PART);
        proof {
            lemma_dense(data@, width as int, height as int, src@, before, buffer@);
        }
    } else {
        bgra_to_rgba_in_parts(data, bytes_per_row, &mut buffer, row);
        proof {
            lemma_padded(
                data@,
                width as int,
                height as int,
                bytes_per_row as int,
                before,
                buffer@,
            );
        }
    }
    let image_width: u32 = #[verifier::truncate] (width as u32);
    let image_height: u32 = #[verifier::truncate] (height as u32);
    proof {
        assert(width as u32 <= width) by (bit_vector);
        assert(height as u32 <= height) by (bit_vector);
        assert(4 * image_width * image_height <= 4 * width * height) by (nonlinear_arith)
            requires
                0 <= image_width <= width,
                0 <= image_height <= height,
        ;
    }
    CapturedImage::from_raw(image_width, image_height, buffer)
}

/// The picture of a region of the window list.
pub fn capture(image: &RawImage) -> (result: XCapResult<CapturedImage>)
    requires
        image.complete(),
    ensures
        converts(*image, result),
{
    cg_image_to_rgba(image)
}

/// What the screenshot manager handed to its completion handler becomes: its error first, then the
/// lack of an image, else the image.
pub fn sck_completion(failure: Option<&str>, image: Option<&RawImage>) -> (result: XCapResult<
    CapturedImage,
>)
    requires
        image matches Some(image) ==> image.complete(),
    ensures
        match failure {
            Some(description) => fails_with(
                result,
                "SCScreenshotManager error: "@ + description@,
            ),
            None => match image {
                None => fails_with(result, "SCScreenshotManager returned null image"@),
                Some(image) => converts(*image, result),
            },
        },
{
    match failure {
        Some(description) => {
            let message = "SCScreenshotManager error: ".to_owned().concat(description);
            Err(XCapError::new(message.as_str()))
        },
        None => match image {
            None => Err(XCapError::new("SCScreenshotManager returned null image")),
            Some(image) => cg_image_to_rgba(image),
        },
    }
}

/// Where the way to the screenshot manager has got to.
#[derive(Debug, Clone, Copy, PartialEq, Eq, Structural)]
pub enum SckStep {
    /// Is the class loaded?
    FindClass,
    /// Can the framework be loaded?
    OpenFramework,
    /// Is the class there now?
    FindClassAgain,
    /// Does the class have the method?
    FindMethod,
    /// The screenshot can be asked for.
    Capture,
    /// There is no way to the screenshot manager.
    Unavailable,
}

/// How long a screenshot may take before it is given up, in milliseconds.
pub const SCK_TIMEOUT_MS: u64 = 150;

impl SckStep {
    /// Where to begin: with the class, unless an earlier capture already looked for it.
    pub fn first(class_found: Option<bool>) -> (step: SckStep)
        ensures
            step == (match class_found {
                None => SckStep::FindClass,
                Some(found) => if found {
                    SckStep::FindMethod
                } else {
                    SckStep::Unavailable
                },
            }),
    {
        match class_found {
            None => SckStep::FindClass,
            Some(found) => if found {
                SckStep::FindMethod
            } else {
                SckStep::Unavailable
            },
        }
    }

    /// What follows the answer to the question that a step asks.
    pub open spec fn after(self, yes: bool) -> SckStep {
        match self {
            SckStep::FindClass => if yes {
                SckStep::FindMethod
            } else {
                SckStep::OpenFramework
            },
            SckStep::OpenFramework => if yes {
                SckStep::FindClassAgain
            } else {
                SckStep::Unavailable
            },
            SckStep::FindClassAgain => if yes {
                SckStep::FindMethod
            } else {
                SckStep::Unavailable
            },
            SckStep::FindMethod => if yes {
                SckStep::Capture
            } else {
                SckStep::Unavailable
            },
            SckStep::Capture => SckStep::Capture,
            SckStep::Unavailable => SckStep::Unavailable,
        }
    }

    /// What follows the answer to the question that a step asks.
    pub fn answered(self, yes: bool) -> (step: SckStep)
        ensures
            step == self.after(yes),
    {
        match self {
            SckStep::FindClass => if yes {
                SckStep::FindMethod
            } else {
                SckStep::OpenFramework
            },
            SckStep::OpenFramework => if yes {
                SckStep::FindClassAgain
            } else {
                SckStep::Unavailable
            },
            SckStep::FindClassAgain => if yes {
                SckStep::FindMethod
            } else {
                SckStep::Unavailable
            },
            SckStep::FindMethod => if yes {
                SckStep::Capture
            } else {
                SckStep::Unavailable
            },
            SckStep::Capture => SckStep::Capture,
            SckStep::Unavailable => SckStep::Unavailable,
        }
    }
}

/// What the screenshot manager was good for: its image where one came in time.
pub fn capture_display_sck(received: Option<XCapResult<CapturedImage>>) -> (image: Option<
    CapturedImage,
>)
    ensures
        image == (match received {
            Some(Ok(image)) => Some(image),
            _ => None,
        }),
{
    match received {
        Some(Ok(image)) => Some(image),
        Some(Err(_)) => None,
        None => None,
    }
}

/// The picture of a display: that of the screenshot manager where there is one, else the one that
/// the window server drew.
pub fn capture_display(shot: Option<CapturedImage>, drawn: Option<&RawImage>) -> (result:
    XCapResult<CapturedImage>)
    requires
        drawn matches Some(drawn) ==> drawn.complete(),
    ensures
        match shot {
            Some(image) => result == Ok::<CapturedImage, XCapError>(image),
            None => match drawn {
                Some(drawn) => converts(*drawn, result),
                None => fails_with(result, "CGDisplayCreateImage failed"@),
            },
        },
{
    match shot {
        Some(image) => Ok(image),
        None => match drawn {
            Some(drawn) => cg_image_to_rgba(drawn),
            None => Err(XCapError::new("CGDisplayCreateImage failed")),
        },
    }
}

/// The picture of a region of a display that the window server drew.
pub fn capture_display_rect(drawn: Option<&RawImage>) -> (result: XCapResult<CapturedImage>)
    requires
        drawn matches Some(drawn) ==> drawn.complete(),
    ensures
        match drawn {
            Some(drawn) => converts(*drawn, result),
            None => fails_with(result, "CGDisplayCreateImageForRect failed"@),
        },
{
    match drawn {
        Some(drawn) => cg_image_to_rgba(drawn),
        None => Err(XCapError::new("CGDisplayCreateImageForRect failed")),
    }
}

/// However the questions are answered, three answers after the first lookup settle whether there is
/// a way to the screenshot manager.
pub proof fn law_sck_settles(a: bool, b: bool, c: bool, d: bool)
    ensures
        ({
            let settled = SckStep::FindClass.after(a).after(b).after(c).after(d);
            settled == SckStep::Capture || settled == SckStep::Unavailable
        }),
{
}

} // verus!
