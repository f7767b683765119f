//! What becomes of pictures that are delivered or drawn.

use vstd::prelude::*;

use crate::error::XCapResult;
use crate::macos::capture;
use crate::macos::capture::{RawImage, SckStep};
use crate::macos::warm_capturer;
use crate::macos::warm_capturer::{FreshWait, Sample, StreamConfig, WarmCapturer};
use crate::pixels;
use crate::pixels::CapturedImage;

verus! {

/// A pixel, by how red, green, blue and opaque it is.
pub struct Pixel {
    pub red: u8,
    pub green: u8,
    pub blue: u8,
    pub alpha: u8,
}

/// The pixel that is black and transparent.
pub open spec fn no_pixel() -> Pixel {
    Pixel { red: 0, green: 0, blue: 0, alpha: 0 }
}

/// Whether the four bytes from `at` on are those of a pixel in a format: in the one that is called
/// `BGRA` they are blue, green, red and alpha, and so with the others.
pub open spec fn shows(bytes: Seq<u8>, at: int, pixel: Pixel, format_type: u32) -> bool {
    let (a, b, c, d) = (bytes[at], bytes[at + 1], bytes[at + 2], bytes[at + 3]);
    if format_type == 0x42475241 {
        a == pixel.blue && b == pixel.green && c == pixel.red && d == pixel.alpha
    } else if format_type == 0x20 {
        a == pixel.alpha && b == pixel.red && c == pixel.green && d == pixel.blue
    } else {
        a == pixel.red && b == pixel.green && c == pixel.blue && d == pixel.alpha
    }
}

/// Whether bytes are a picture as red, green, blue and alpha, row by row and nothing between them.
pub open spec fn is_rgba(bytes: Seq<u8>, picture: Seq<Pixel>) -> bool {
    &&& bytes.len() == 4 * picture.len()
    &&& forall|p: int|
        0 <= p < picture.len() ==> shows(bytes, 4 * p, #[trigger] picture[p], 0x52474241)
}

/// Whether a sample holds a picture: the pixels of each row that is wholly there are those of the
/// picture in the format of the sample, and the other rows of the picture are black and transparent.
pub open spec fn holds_picture(sample: Sample, picture: Seq<Pixel>) -> bool {
    &&& picture.len() == sample.width * sample.height
    &&& forall|x: int, y: int|
        0 <= x < sample.width && 0 <= y < sample.height ==> {
            let pixel = #[trigger] picture[y * sample.width + x];
            if (y + 1) * sample.bytes_per_row <= sample.data@.len() {
                shows(sample.data@, y * sample.bytes_per_row + 4 * x, pixel, sample.format_type)
            } else {
                pixel == no_pixel()
            }
        }
}

proof fn lemma_place(i: int, width: int, height: int) -> (place: (int, int))
    requires
        0 < width,
        0 <= i < 4 * width * height,
    ensures
        ({
            let (x, y) = place;
            &&& 0 <= x < width
            &&& 0 <= y < height
            &&& i / 4 == y * width + x
            &&& i / (4 * width) == y
            &&& i % (4 * width) == 4 * x + i % 4
            &&& x == (i / 4) % width
            &&& y == (i / 4) / width
        }),
{
    let row = 4 * width;
    let y = i / row;
    let r = i % row;
    vstd::arithmetic::div_mod::lemma_fundamental_div_mod(i, row);
    vstd::arithmetic::div_mod::lemma_mod_bound(i, row);
    vstd::arithmetic::div_mod::lemma_div_pos_is_pos(i, row);
    assert(row * y == 4 * (y * width)) by (nonlinear_arith)
        requires
            row == 4 * width,
    ;
    assert(y < height) by (nonlinear_arith)
        requires
            i == row * y + r,
            0 <= r,
            i < 4 * width * height,
            row == 4 * width,
            0 < width,
    ;
    vstd::arithmetic::div_mod::lemma_fundamental_div_mod_converse(i / 4, width, y, r / 4);
    (r / 4, y)
}

proof fn lemma_sample_pixels(sample: Sample, picture: Seq<Pixel>)
    requires
        sample.readable(),
        warm_capturer::supported(sample.format_type),
        holds_picture(sample, picture),
    ensures
        is_rgba(sample.pixels(), picture),
{
    let width = sample.width as int;
    let height = sample.height as int;
    let raw = warm_capturer::unpadded(
        sample.data@,
        sample.width as nat,
        sample.height as nat,
        sample.bytes_per_row as nat,
    );
    let bytes = sample.pixels();
    assert(4 * width * height == 4 * (width * height)) by (nonlinear_arith);
    assert(bytes.len() == 4 * picture.len());
    assert forall|p: int| 0 <= p < picture.len() implies shows(
        bytes,
        4 * p,
        #[trigger] picture[p],
        0x52474241,
    ) by {
        assert(width > 0) by (nonlinear_arith)
            requires
                0 <= p < width * height,
                width >= 0,
                height >= 0,
        ;
        let (x, y) = lemma_place(4 * p, width, height);
        assert(p == y * width + x);
        let (x1, y1) = lemma_place(4 * p + 1, width, height);
        let (x2, y2) = lemma_place(4 * p + 2, width, height);
        let (x3, y3) = lemma_place(4 * p + 3, width, height);
        assert(x1 == x && x2 == x && x3 == x && y1 == y && y2 == y && y3 == y);
        assert(picture[y * width + x] == picture[p]);
        if (y + 1) * sample.bytes_per_row <= sample.data@.len() {
            assert(shows(
                sample.data@,
                y * sample.bytes_per_row + 4 * x,
                picture[p],
                sample.format_type,
            ));
            assert(shows(raw, 4 * p, picture[p], sample.format_type));
        } else {
            assert(shows(raw, 4 * p, no_pixel(), sample.format_type));
        }
    }
}

/// A frame that a running stream is delivered in one of the formats that it reads becomes the newest:
/// its pixels are those of the picture that it holds, as red, green, blue and alpha, whatever the
/// format, the extent and what pads the rows. It counts, and is of the time at which it came.
pub proof fn law_stream_shows_what_was_delivered(
    before: WarmCapturer,
    after: WarmCapturer,
    sample: Sample,
    now: u128,
    picture: Seq<Pixel>,
)
    requires
        before.running,
        sample.format_type == 0x42475241 || sample.format_type == 0x20 || sample.format_type
            == 0x52474241,
        sample.data@.len() > 0,
        sample.readable(),
        holds_picture(sample, picture),
        warm_capturer::delivered(before, after, sample, now),
    ensures
        is_rgba(after.latest.raw@, picture),
        sample.width <= u32::MAX ==> after.latest.width == sample.width,
        sample.height <= u32::MAX ==> after.latest.height == sample.height,
        after.latest.captured_at == Some(now),
        after.running,
        before.seq < u64::MAX ==> after.seq == before.seq + 1,
{
    lemma_sample_pixels(sample, picture);
}

/// What a stream that does not run is delivered, what has no memory and what is in another format
/// changes nothing.
pub proof fn law_stream_passes_over_the_rest(
    before: WarmCapturer,
    after: WarmCapturer,
    sample: Sample,
    now: u128,
)
    requires
        warm_capturer::delivered(before, after, sample, now),
        !before.running || sample.data@.len() == 0 || !(set![0x42475241u32, 0x20, 0x52474241].contains(
            sample.format_type,
        )),
    ensures
        after == before,
{
}

/// The frame that readers get is the newest, with its extent and its bytes; there is none where the
/// newest has no bytes.
pub proof fn law_readers_get_the_newest(capturer: WarmCapturer)
    ensures
        capturer.latest.raw@.len() > 0 ==> capturer.frame() == Some(
            ((capturer.latest.width, capturer.latest.height), capturer.latest.raw@),
        ),
        capturer.latest.raw@.len() == 0 ==> capturer.frame() is None,
{
}

/// A wait is over as soon as there is a frame more than when it began, when the stream does not run,
/// and when its time has come; and not before.
pub proof fn law_when_a_wait_is_over(capturer: WarmCapturer, wait: FreshWait, now: u128)
    ensures
        capturer.seq > wait.seq ==> capturer.is_fresh(wait) && capturer.wait_is_over(wait, now),
        capturer.seq <= wait.seq ==> !capturer.is_fresh(wait),
        !capturer.running ==> capturer.wait_is_over(wait, now),
        now >= wait.deadline ==> capturer.wait_is_over(wait, now),
        capturer.seq <= wait.seq && capturer.running && now < wait.deadline
            ==> !capturer.wait_is_over(wait, now),
{
}

/// A stream asks for RGBA where that is offered, else for BGRA, else for ARGB, and for nothing else;
/// with the cursor, thirty times a second, without late frames and in the extent of the display.
pub proof fn law_how_a_stream_is_set_up(config: StreamConfig, available: Seq<u32>)
    requires
        warm_capturer::is_setup_for(config, available),
    ensures
        available.contains(config.pixel_format),
        available.contains(0x52474241) ==> config.pixel_format == 0x52474241,
        !available.contains(0x52474241) && available.contains(0x42475241) ==> config.pixel_format
            == 0x42475241,
        !available.contains(0x52474241) && !available.contains(0x42475241) ==> config.pixel_format
            == 0x20,
        config.captures_cursor,
        config.frame_duration_value * 30 == config.frame_duration_timescale,
        config.discards_late_frames,
        config.configures_dimensions,
{
}

/// There is a format to ask for where one of the three is offered.
pub proof fn law_when_there_is_a_format(available: Seq<u32>)
    ensures
        warm_capturer::preferred_format(available) is Some <==> available.contains(0x52474241)
            || available.contains(0x42475241) || available.contains(0x20),
{
}

/// Whether the pixels of an image of the window server are those of a picture: each row begins where
/// it should, and its pixels are blue, green, red and alpha.
pub open spec fn draws_picture(image: RawImage, picture: Seq<Pixel>) -> bool {
    &&& picture.len() == image.width * image.height
    &&& forall|x: int, y: int|
        0 <= x < image.width && 0 <= y < image.height ==> shows(
            image.data->0@,
            y * image.bytes_per_row + 4 * x,
            #[trigger] picture[y * image.width + x],
            0x42475241,
        )
}

/// An image of the window server that has pixels becomes an image of the same extent, whose pixels are
/// those of the picture that was drawn, as red, green, blue and alpha.
pub proof fn law_image_shows_what_was_drawn(
    image: RawImage,
    picture: Seq<Pixel>,
    result: XCapResult<CapturedImage>,
)
    requires
        image.data is Some,
        0 < image.width,
        0 < image.height,
        draws_picture(image, picture),
        capture::converts(image, result),
    ensures
        result is Ok,
        is_rgba(pixels::image_bytes(result->Ok_0), picture),
        image.width <= u32::MAX ==> pixels::image_size(result->Ok_0).0 == image.width,
        image.height <= u32::MAX ==> pixels::image_size(result->Ok_0).1 == image.height,
{
    let width = image.width as int;
    let height = image.height as int;
    let bytes = pixels::image_bytes(result->Ok_0);
    assert(4 * width * height == 4 * (width * height)) by (nonlinear_arith);
    assert forall|p: int| 0 <= p < picture.len() implies shows(
        bytes,
        4 * p,
        #[trigger] picture[p],
        0x52474241,
    ) by {
        let (x, y) = lemma_place(4 * p, width, height);
        let (x1, y1) = lemma_place(4 * p + 1, width, height);
        let (x2, y2) = lemma_place(4 * p + 2, width, height);
        let (x3, y3) = lemma_place(4 * p + 3, width, height);
        assert(x1 == x && x2 == x && x3 == x && y1 == y && y2 == y && y3 == y);
        assert(picture[y * width + x] == picture[p]);
    }
}

/// An image without data is an error, and so is one without pixels.
pub proof fn law_image_without_pixels_is_an_error(
    image: RawImage,
    result: XCapResult<CapturedImage>,
)
    requires
        capture::converts(image, result),
        image.data is None || image.width == 0 || image.height == 0,
    ensures
        result is Err,
        image.data is None ==> result->Err_0@ == crate::error::Failure::Error(
            "Failed to copy data"@,
        ),
        image.data is Some ==> result->Err_0@ == crate::error::Failure::Error("Empty CGImage"@),
{
}

/// Writing BGRA pixels to a buffer makes RGBA pixels of as many as both hold, and leaves the rest.
pub proof fn law_written_pixels_are_the_same(src: Seq<u8>, dst: Seq<u8>, pixel: Pixel, p: int)
    requires
        0 <= p,
        4 * p + 4 <= dst.len(),
    ensures
        capture::bgra_written(src, dst).len() == dst.len(),
        4 * p + 4 <= src.len() && shows(src, 4 * p, pixel, 0x42475241) ==> shows(
            capture::bgra_written(src, dst),
            4 * p,
            pixel,
            0x52474241,
        ),
        4 * p + 4 > src.len() ==> forall|i: int|
            4 * p <= i < 4 * p + 4 ==> #[trigger] capture::bgra_written(src, dst)[i] == dst[i],
{
}

/// Turning pixels in place keeps how many bytes there are and what each pixel shows.
pub proof fn law_turned_pixels_are_the_same(bytes: Seq<u8>, pixel: Pixel, p: int)
    requires
        0 <= p,
        4 * p + 4 <= bytes.len(),
    ensures
        warm_capturer::from_bgra(bytes).len() == bytes.len(),
        warm_capturer::from_argb(bytes).len() == bytes.len(),
        shows(bytes, 4 * p, pixel, 0x42475241) ==> shows(
            warm_capturer::from_bgra(bytes),
            4 * p,
            pixel,
            0x52474241,
        ),
        shows(bytes, 4 * p, pixel, 0x20) ==> shows(
            warm_capturer::from_argb(bytes),
            4 * p,
            pixel,
            0x52474241,
        ),
{
}

/// The screenshot manager is asked where its class is there, or comes with its framework, and has the
/// method; and only then.
pub proof fn law_when_the_screenshot_manager_is_asked(
    found: bool,
    opened: bool,
    found_again: bool,
    has_method: bool,
)
    ensures
        ({
            let first = SckStep::FindClass.after(found);
            let class = if found {
                first
            } else {
                first.after(opened).after(found_again)
            };
            let settled = if found || (opened && found_again) {
                class.after(has_method)
            } else {
                class
            };
            settled == (if (found || (opened && found_again)) && has_method {
                SckStep::Capture
            } else {
                SckStep::Unavailable
            })
        }),
{
}

/// A sample can be read in any extent whose pixels can be counted in memory, where each row is wholly
/// there and they lie apart by at least their length.
pub proof fn law_whole_samples_can_be_read(sample: Sample)
    requires
        sample.width > 0,
        sample.height > 0,
        4 * sample.width * sample.height <= usize::MAX,
        sample.bytes_per_row >= 4 * sample.width,
        sample.bytes_per_row * sample.height <= sample.data@.len(),
    ensures
        sample.readable(),
{
    let width = sample.width as int;
    let height = sample.height as int;
    assert(4 * width <= 4 * width * height) by (nonlinear_arith)
        requires
            width > 0,
            height > 0,
    ;
}

/// A stream takes up what has bytes in one of the three formats, while it runs.
pub proof fn law_what_a_stream_takes_up(capturer: WarmCapturer, sample: Sample)
    ensures
        capturer.accepts(sample) <==> capturer.running && sample.data@.len() > 0 && (
        sample.format_type == 0x42475241 || sample.format_type == 0x20 || sample.format_type
            == 0x52474241),
        warm_capturer::supported(sample.format_type) <==> (sample.format_type == 0x42475241
            || sample.format_type == 0x20 || sample.format_type == 0x52474241),
{
}

} // verus!
