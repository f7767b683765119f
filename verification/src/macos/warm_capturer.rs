//! The stream that stays warm between captures: it keeps the newest frame of one display in memory,
//! so that a capture needs only to read it.

use vstd::prelude::*;

use crate::error::{XCapError, XCapResult};
use crate::error;
use crate::macos::capture;
use crate::pixels::CapturedImage;
use crate::pixels;

verus! {

/// The pixel format whose bytes are alpha, red, green and blue.
pub const FORMAT_32_ARGB: u32 = 0x00000020;

/// The pixel format whose bytes are blue, green, red and alpha.
pub const FORMAT_32_BGRA: u32 = 0x42475241;

/// The pixel format whose bytes are red, green, blue and alpha.
pub const FORMAT_32_RGBA: u32 = 0x52474241;

/// Whether frames of this format can be read.
pub open spec fn supported(format_type: u32) -> bool {
    format_type == FORMAT_32_ARGB || format_type == FORMAT_32_BGRA || format_type == FORMAT_32_RGBA
}

/// Whether frames of this format can be read.
pub fn is_supported_format(format_type: u32) -> (yes: bool)
    ensures
        yes == supported(format_type),
{
    format_type == FORMAT_32_ARGB || format_type == FORMAT_32_BGRA || format_type == FORMAT_32_RGBA
}

/// The buffer with the whole pixels of a buffer put in another order: byte `i` is taken from
/// `position(i)`.
pub open spec fn rearranged(bytes: Seq<u8>, position: spec_fn(int) -> int) -> Seq<u8> {
    Seq::new(
        bytes.len(),
        |i: int|
            if i / 4 < bytes.len() / 4 {
                bytes[position(i)]
            } else {
                bytes[i]
            },
    )
}

/// BGRA pixels as RGBA.
pub open spec fn from_bgra(bytes: Seq<u8>) -> Seq<u8> {
    rearranged(bytes, |i: int| capture::bgra_position(i))
}

/// Where byte `i` of an RGBA buffer stands in the ARGB buffer of the same pixels: alpha moves from
/// the front to the back.
pub open spec fn argb_position(i: int) -> int {
    if i % 4 == 3 {
        i - 3
    } else {
        i + 1
    }
}

/// ARGB pixels as RGBA.
pub open spec fn from_argb(bytes: Seq<u8>) -> Seq<u8> {
    rearranged(bytes, |i: int| argb_position(i))
}

/// Turns BGRA pixels into RGBA pixels in place.
pub fn bgra_to_rgba_inplace(data: &mut [u8])
    ensures
        final(data)@ == from_bgra(old(data)@),
{
    let count: usize = data.len() / 4;
    let mut pixel: usize = 0;
    while pixel < count
        invariant
            pixel <= count,
            count == data.len() / 4,
            data@.len() == old(data)@.len(),
            forall|i: int|
                0 <= i < 4 * pixel ==> #[trigger] data@[i] == old(
                    data,
                )@[capture::bgra_position(i)],
            forall|i: int| 4 * pixel <= i < data@.len() ==> #[trigger] data@[i] == old(data)@[i],
        decreases count - pixel,
    {
        let at: usize = pixel * 4;
        let first: u8 = data[at];
        data[at] = data[at + 2];
        data[at + 2] = first;
        pixel = pixel + 1;
    }
    assert(data@ =~= from_bgra(old(data)@));
}

/// Turns ARGB pixels into RGBA pixels in place.
pub fn argb_to_rgba_inplace(data: &mut [u8])
    ensures
        final(data)@ == from_argb(old(data)@),
{
    let count: usize = data.len() / 4;
    let mut pixel: usize = 0;
    while pixel < count
        invariant
            pixel <= count,
            count == data.len() / 4,
            data@.len() == old(data)@.len(),
            forall|i: int|
                0 <= i < 4 * pixel ==> #[trigger] data@[i] == old(data)@[argb_position(i)],
            forall|i: int| 4 * pixel <= i < data@.len() ==> #[trigger] data@[i] == old(data)@[i],
        decreases count - pixel,
    {
        let at: usize = pixel * 4;
        let alpha: u8 = data[at];
        data[at] = data[at + 1];
        data[at + 1] = data[at + 2];
        data[at + 2] = data[at + 3];
        data[at + 3] = alpha;
        pixel = pixel + 1;
    }
    assert(data@ =~= from_argb(old(data)@));
}

/// A frame as the stream delivers it.
pub struct Sample<'a> {
    pub format_type: u32,
    pub width: usize,
    pub height: usize,
    /// How far apart the rows begin; more than four bytes for each pixel where rows are padded.
    pub bytes_per_row: usize,
    /// The bytes of the frame; none where it has no memory.
    pub data: &'a [u8],
}

/// The bytes of a frame without what pads its rows. Rows that are not wholly there are black and
/// transparent.
pub open spec fn unpadded(data: Seq<u8>, width: nat, height: nat, bytes_per_row: nat) -> Seq<u8> {
    Seq::new(
        4 * width * height,
        |i: int|
            if (i / (4 * width as int) + 1) * bytes_per_row <= data.len() {
                data[(i / (4 * width as int)) * bytes_per_row + i % (4 * width as int)]
            } else {
                0u8
            },
    )
}

impl<'a> Sample<'a> {
    /// Whether the pixels can be counted in memory, the rows lie apart by at least their length
    /// where there are any, and rows without padding are all there.
    pub open spec fn readable(self) -> bool {
        &&& 4 * self.width <= usize::MAX
        &&& 4 * self.width * self.height <= usize::MAX
        &&& if self.bytes_per_row == 4 * self.width {
            4 * self.width * self.height <= self.data@.len()
        } else {
            &&& self.bytes_per_row > 0
            &&& self.width > 0
            &&& self.bytes_per_row >= 4 * self.width || self.data@.len() < self.bytes_per_row
                || self.height == 0
        }
    }

    /// The pixels as RGBA.
    pub open spec fn pixels(self) -> Seq<u8> {
        let raw = unpadded(
            self.data@,
            self.width as nat,
            self.height as nat,
            self.bytes_per_row as nat,
        );
        if self.format_type == FORMAT_32_BGRA {
            from_bgra(raw)
        } else if self.format_type == FORMAT_32_ARGB {
            from_argb(raw)
        } else {
            raw
        }
    }

    /// The bytes without what pads the rows.
    fn rows(&self) -> (raw: Vec<u8>)
        requires
            self.readable(),
        ensures
            raw@ == unpadded(
                self.data@,
                self.width as nat,
                self.height as nat,
                self.bytes_per_row as nat,
            ),
    {
        let row: usize = self.width * 4;
        assert(4 * self.width * self.height == row * self.height) by (nonlinear_arith)
            requires
                row == self.width * 4,
        ;
        let len: usize = row * self.height;
        let step: usize = self.bytes_per_row;
        let height: usize = self.height;
        let data: &[u8] = self.data;
        let ghost whole = unpadded(
            self.data@,
            self.width as nat,
            self.height as nat,
            self.bytes_per_row as nat,
        );
        let mut raw: Vec<u8> = vec![0u8; len];
        let mut y: usize = 0;
        // The offset of row `y` in the frame, and whether the row is wholly there.
        let mut from: usize = 0;
        while y < height && row > 0 && step <= data.len() - from
            invariant
                y <= height,
                self.readable(),
                row == 4 * self.width,
                step == self.bytes_per_row,
                height == self.height,
                data == self.data,
                len == row * height,
                raw@.len() == len,
                row > 0 ==> from == y * step,
                from <= data.len(),
                whole == unpadded(
                    self.data@,
                    self.width as nat,
                    self.height as nat,
                    self.bytes_per_row as nat,
                ),
                forall|i: int| 0 <= i < y * row ==> #[trigger] raw@[i] == whole[i],
                forall|i: int| y * row <= i < len ==> #[trigger] raw@[i] == 0,
            decreases height - y,
        {
            let ghost done = y * row;
            proof {
                assert((y + 1) * row == y * row + row) by (nonlinear_arith);
                assert((y + 1) * step == y * step + step) by (nonlinear_arith);
                assert((y + 1) * row <= height * row) by (nonlinear_arith)
                    requires
                        y < height,
                ;
                assert(height * row == row * height) by (nonlinear_arith);
            }
            let to: usize = y * row;
            let mut x: usize = 0;
            while x < row
                invariant
                    x <= row,
                    row <= step,
                    from + step <= data.len(),
                    to == done,
                    to + row <= len,
                    raw@.len() == len,
                    forall|i: int| 0 <= i < done ==> #[trigger] raw@[i] == whole[i],
                    forall|i: int|
                        done <= i < done + x ==> #[trigger] raw@[i] == data@[from + (i - done)],
                    forall|i: int| done + x <= i < len ==> #[trigger] raw@[i] == 0,
                decreases row - x,
            {
                raw[to + x] = data[from + x];
                x = x + 1;
            }
            proof {
                assert forall|i: int| done <= i < done + row implies #[trigger] raw@[i]
                    == whole[i] by {
                    vstd::arithmetic::div_mod::lemma_fundamental_div_mod_converse(
                        i,
                        row as int,
                        y as int,
                        i - done,
                    );
                }
            }
            from = from + step;
            y = y + 1;
        }
        proof {
            assert forall|i: int| 0 <= i < len implies #[trigger] raw@[i] == whole[i] by {
                if y * row <= i {
                    assert((y + 1) * step == y * step + step) by (nonlinear_arith);
                    assert(row > 0) by (nonlinear_arith)
                        requires
                            row * height > i >= 0,
                            row >= 0,
                            height >= 0,
                    ;
                    lemma_rest_is_missing(
                        data@.len() as int,
                        row as int,
                        step as int,
                        height as int,
                        y as int,
                        i,
                    );
                }
            }
            assert(raw@ =~= whole);
        }
        raw
    }

    /// The pixels as RGBA.
    fn to_rgba(&self) -> (raw: Vec<u8>)
        requires
            self.readable(),
        ensures
            raw@ == self.pixels(),
    {
        let mut raw = self.rows();
        if self.format_type == FORMAT_32_BGRA {
            bgra_to_rgba_inplace(raw.as_mut_slice());
        } else if self.format_type == FORMAT_32_ARGB {
            argb_to_rgba_inplace(raw.as_mut_slice());
        }
        raw
    }
}

/// Once row `y` is not wholly there, no later row is.
proof fn lemma_rest_is_missing(len: int, row: int, step: int, height: int, y: int, i: int)
    requires
        0 < row,
        0 <= step,
        0 <= y <= height,
        y < height ==> len < (y + 1) * step,
        0 <= i < row * height,
        y * row <= i,
    ensures
        len < (i / row + 1) * step,
{
    let k = i / row;
    vstd::arithmetic::div_mod::lemma_fundamental_div_mod(i, row);
    vstd::arithmetic::div_mod::lemma_mod_bound(i, row);
    assert(y <= k) by (nonlinear_arith)
        requires
            y * row <= i,
            i == row * k + i % row,
            i % row < row,
            0 < row,
    ;
    assert(k < height) by (nonlinear_arith)
        requires
            i < row * height,
            i == row * k + i % row,
            0 <= i % row,
            0 < row,
    ;
    assert((y + 1) * step <= (k + 1) * step) by (nonlinear_arith)
        requires
            y <= k,
            0 <= step,
    ;
}

impl<'a> Sample<'a> {
    /// Whether the sample satisfies [`Sample::readable`].
    pub fn is_readable(&self) -> (yes: bool)
        ensures
            yes == self.readable(),
    {
        let row: usize = match self.width.checked_mul(4) {
            Some(row) => row,
            None => {
                return false;
            },
        };
        assert(4 * self.width * self.height == row * self.height) by (nonlinear_arith)
            requires
                row == self.width * 4,
        ;
        match row.checked_mul(self.height) {
            None => false,
            Some(len) => if self.bytes_per_row == row {
                len <= self.data.len()
            } else {
                self.bytes_per_row > 0 && self.width > 0 && (self.bytes_per_row >= row
                    || self.data.len() < self.bytes_per_row || self.height == 0)
            },
        }
    }
}

/// The newest frame, as RGBA.
#[derive(Debug)]
pub struct LatestFrame {
    pub width: u32,
    pub height: u32,
    /// The pixels; none before the first frame.
    pub raw: Vec<u8>,
    /// When the frame was taken, in nanoseconds on a clock that never goes back.
    pub captured_at: Option<u128>,
}

impl Default for LatestFrame {
    /// The state before the first frame.
    fn default() -> (frame: Self)
        ensures
            frame.width == 0,
            frame.height == 0,
            frame.raw@.len() == 0,
            frame.captured_at is None,
    {
        LatestFrame { width: 0, height: 0, raw: Vec::new(), captured_at: None }
    }
}

/// How the session of a stream is set up.
#[derive(Debug, Clone, Copy, PartialEq, Eq, Structural)]
pub struct StreamConfig {
    pub captures_cursor: bool,
    /// The shortest time between two frames, as a fraction of a second.
    pub frame_duration_value: i64,
    pub frame_duration_timescale: i32,
    pub discards_late_frames: bool,
    pub configures_dimensions: bool,
    pub pixel_format: u32,
}

/// The format that a stream is asked for, by preference: RGBA needs no conversion.
pub open spec fn preferred_format(available: Seq<u32>) -> Option<u32> {
    if available.contains(FORMAT_32_RGBA) {
        Some(FORMAT_32_RGBA)
    } else if available.contains(FORMAT_32_BGRA) {
        Some(FORMAT_32_BGRA)
    } else if available.contains(FORMAT_32_ARGB) {
        Some(FORMAT_32_ARGB)
    } else {
        None
    }
}

/// Whether a session is set up as it should be, when these formats are available.
pub open spec fn is_setup_for(config: StreamConfig, available: Seq<u32>) -> bool {
    &&& preferred_format(available) == Some(config.pixel_format)
    &&& config.captures_cursor
    &&& config.frame_duration_value == 1
    &&& config.frame_duration_timescale == 30
    &&& config.discards_late_frames
    &&& config.configures_dimensions
}

fn offers(available: &[u32], format_type: u32) -> (yes: bool)
    ensures
        yes == available@.contains(format_type),
{
    let mut i: usize = 0;
    while i < available.len()
        invariant
            i <= available.len(),
            forall|k: int| 0 <= k < i ==> available@[k] != format_type,
        decreases available.len() - i,
    {
        if available[i] == format_type {
            assert(available@[i as int] == format_type);
            return true;
        }
        i = i + 1;
    }
    false
}

/// The stream of one display: whether it runs, how many frames it has delivered, and the newest.
#[derive(Debug)]
pub struct WarmCapturer {
    pub running: bool,
    pub seq: u64,
    pub latest: LatestFrame,
}

/// What a reader of the stream is after: a frame that came after the wait began.
#[derive(Debug, Clone, Copy, PartialEq, Eq, Structural)]
pub struct FreshWait {
    /// The number of frames when the wait began.
    pub seq: u64,
    /// When the wait is given up, in nanoseconds.
    pub deadline: u128,
}

/// How long a reader sleeps before it looks again, in milliseconds.
pub const WAIT_STEP_MS: u64 = 8;

impl WarmCapturer {
    /// The newest frame always has all of its pixels.
    pub open spec fn well_formed(self) -> bool {
        pixels::holds_pixels(self.latest.width, self.latest.height, self.latest.raw@.len())
    }

    /// The extent and the pixels of the newest frame, once there is one.
    pub open spec fn frame(self) -> Option<((u32, u32), Seq<u8>)> {
        if self.latest.raw@.len() == 0 {
            None
        } else {
            Some(((self.latest.width, self.latest.height), self.latest.raw@))
        }
    }

    /// Whether a sample is taken up.
    pub open spec fn accepts(self, sample: Sample) -> bool {
        self.running && supported(sample.format_type) && sample.data@.len() > 0
    }

    /// Whether a frame came since a wait began.
    pub open spec fn is_fresh(self, wait: FreshWait) -> bool {
        self.seq > wait.seq
    }

    /// Whether a wait is over at the time `now`.
    pub open spec fn wait_is_over(self, wait: FreshWait, now: u128) -> bool {
        self.is_fresh(wait) || !self.running || now >= wait.deadline
    }

    /// A stream for a display that can be captured, in the format that is preferred among those
    /// available, and the way its session is to be set up. It does not run yet and has no frame.
    pub fn new(has_input: bool, available: &[u32]) -> (result: XCapResult<
        (WarmCapturer, StreamConfig),
    >)
        ensures
            match result {
                Ok((capturer, config)) => {
                    &&& has_input
                    &&& is_setup_for(config, available@)
                    &&& capturer.well_formed()
                    &&& !capturer.running
                    &&& capturer.seq == 0
                    &&& capturer.frame() is None
                    &&& capturer.latest.captured_at is None
                },
                Err(failure) => if !has_input {
                    failure@ == error::Failure::Error(
                        "AVCaptureScreenInput::initWithDisplayID failed"@,
                    )
                } else {
                    &&& preferred_format(available@) is None
                    &&& failure@ == error::Failure::Error(
                        "no supported 32-bit pixel format in warm capturer"@,
                    )
                },
            },
    {
        if !has_input {
            return Err(XCapError::new("AVCaptureScreenInput::initWithDisplayID failed"));
        }
        let pixel_format: u32 = if offers(available, FORMAT_32_RGBA) {
            FORMAT_32_RGBA
        } else if offers(available, FORMAT_32_BGRA) {
            FORMAT_32_BGRA
        } else if offers(available, FORMAT_32_ARGB) {
            FORMAT_32_ARGB
        } else {
            return Err(XCapError::new("no supported 32-bit pixel format in warm capturer"));
        };
        let config = StreamConfig {
            captures_cursor: true,
            frame_duration_value: 1,
            frame_duration_timescale: 30,
            discards_late_frames: true,
            configures_dimensions: true,
            pixel_format,
        };
        Ok((WarmCapturer { running: false, seq: 0, latest: LatestFrame::default() }, config))
    }

    /// Lets the stream run.
    pub fn start(&mut self) -> (result: XCapResult<()>)
        ensures
            result == Ok::<(), XCapError>(()),
            *final(self) == (WarmCapturer { running: true, ..*old(self) }),
    {
        self.running = true;
        Ok(())
    }

    /// Stops the stream. Readers that wait still get what it delivered.
    pub fn stop(&mut self) -> (result: XCapResult<()>)
        ensures
            result == Ok::<(), XCapError>(()),
            *final(self) == (WarmCapturer { running: false, ..*old(self) }),
    {
        self.running = false;
        Ok(())
    }

    /// Takes up a frame that the stream delivered at the time `now`: it becomes the newest. A frame
    /// is passed over where the stream does not run, or where it has an unknown format or no
    /// memory.
    pub fn frame_delivered(&mut self, sample: &Sample, now: u128)
        requires
            old(self).accepts(*sample) ==> sample.readable(),
            old(self).well_formed(),
        ensures
            final(self).well_formed(),
            delivered(*old(self), *final(self), *sample, now),
    {
        if !self.running || !is_supported_format(sample.format_type) || sample.data.len() == 0 {
            return;
        }
        let raw = sample.to_rgba();
        let width: usize = sample.width;
        let height: usize = sample.height;
        let frame_width: u32 = #[verifier::truncate] (width as u32);
        let frame_height: u32 = #[verifier::truncate] (height as u32);
        proof {
            assert(width as u32 <= width) by (bit_vector);
            assert(height as u32 <= height) by (bit_vector);
            assert(4 * frame_width * frame_height <= 4 * width * height) by (nonlinear_arith)
                requires
                    0 <= frame_width <= width,
                    0 <= frame_height <= height,
            ;
        }
        self.latest = LatestFrame {
            width: frame_width,
            height: frame_height,
            raw,
            captured_at: Some(now),
        };
        self.seq = self.seq.wrapping_add(1);
    }

    /// The newest frame, whether or not the stream runs; none before the first.
    fn cached_frame(&self) -> (frame: Option<CapturedImage>)
        requires
            self.well_formed(),
        ensures
            match frame {
                Some(image) => self.frame() == Some(
                    (pixels::image_size(image), pixels::image_bytes(image)),
                ),
                None => self.frame() is None,
            },
    {
        if self.latest.raw.len() == 0 {
            return None;
        }
        let raw = self.latest.raw.clone();
        assert(raw@ =~= self.latest.raw@);
        match CapturedImage::from_raw(self.latest.width, self.latest.height, raw) {
            Ok(image) => Some(image),
            Err(_) => None,
        }
    }

    /// The newest frame; none before the first, and none where the stream does not run.
    pub fn latest_frame(&self) -> (frame: Option<CapturedImage>)
        requires
            self.well_formed(),
        ensures
            match frame {
                Some(image) => self.running && self.frame() == Some(
                    (pixels::image_size(image), pixels::image_bytes(image)),
                ),
                None => !self.running || self.frame() is None,
            },
    {
        if self.running {
            self.cached_frame()
        } else {
            None
        }
    }

    /// The number of frames delivered so far, by which a reader tells whether there is a new one.
    pub fn frame_seq(&self) -> (seq: u64)
        ensures
            seq == self.seq,
    {
        self.seq
    }

    /// Begins to wait, from the time `now`, for a frame newer than those delivered so far.
    pub fn begin_wait(&self, now: u128, timeout: u128) -> (wait: FreshWait)
        requires
            now + timeout <= u128::MAX,
        ensures
            wait.seq == self.seq,
            wait.deadline == now + timeout,
    {
        FreshWait { seq: self.seq, deadline: now + timeout }
    }

    /// How a wait stands at the time `now`. It is over when a newer frame came, when the stream
    /// stopped, or when the deadline has passed; the result then says whether a newer frame came,
    /// and what the newest frame is. While it is not over there is no result, and the reader
    /// sleeps.
    pub fn wait_fresh_frame(&self, wait: &FreshWait, now: u128) -> (over: Option<
        (bool, Option<CapturedImage>),
    >)
        requires
            self.well_formed(),
        ensures
            over is Some <==> self.wait_is_over(*wait, now),
            over matches Some((fresh, frame)) ==> {
                &&& fresh == self.is_fresh(*wait)
                &&& match frame {
                    Some(image) => self.frame() == Some(
                        (pixels::image_size(image), pixels::image_bytes(image)),
                    ),
                    None => self.frame() is None,
                }
            },
    {
        if self.frame_seq() > wait.seq {
            return Some((true, self.cached_frame()));
        }
        if !self.running {
            return Some((false, self.cached_frame()));
        }
        if now >= wait.deadline {
            return Some((false, self.cached_frame()));
        }
        None
    }

    /// How long before `now` the newest frame was taken.
    pub fn latest_frame_age(&self, now: u128) -> (age: Option<u128>)
        ensures
            age == (match self.latest.captured_at {
                None => None,
                Some(at) => Some(
                    if now >= at {
                        (now - at) as u128
                    } else {
                        0
                    },
                ),
            }),
    {
        match self.latest.captured_at {
            None => None,
            Some(at) => Some(
                if now >= at {
                    now - at
                } else {
                    0
                },
            ),
        }
    }
}

/// What a frame that the stream delivered at the time `now` makes of `before`.
pub open spec fn delivered(
    before: WarmCapturer,
    after: WarmCapturer,
    sample: Sample,
    now: u128,
) -> bool {
    if before.accepts(sample) {
        &&& after.running
        &&& after.seq == before.seq.wrapping_add(1)
        &&& after.latest.width == sample.width as u32
        &&& after.latest.height == sample.height as u32
        &&& after.latest.raw@ == sample.pixels()
        &&& after.latest.captured_at == Some(now)
    } else {
        after == before
    }
}

/// A frame that was taken up is what the next reader gets: its extent, and its pixels as RGBA.
pub proof fn law_reads_what_was_delivered(
    before: WarmCapturer,
    after: WarmCapturer,
    sample: Sample,
    now: u128,
)
    requires
        before.accepts(sample),
        delivered(before, after, sample, now),
        0 < sample.width,
        0 < sample.height,
    ensures
        after.running,
        after.frame() == Some(((sample.width as u32, sample.height as u32), sample.pixels())),
        after.latest.captured_at == Some(now),
{
    assert(4 * sample.width * sample.height > 0) by (nonlinear_arith)
        requires
            0 < sample.width,
            0 < sample.height,
    ;
}

/// A stopped stream keeps its newest frame for readers that wait, whatever is delivered late.
pub proof fn law_stopped_keeps_its_frame(
    before: WarmCapturer,
    after: WarmCapturer,
    sample: Sample,
    now: u128,
)
    requires
        !before.running,
        delivered(before, after, sample, now),
    ensures
        after.frame() == before.frame(),
        after.seq == before.seq,
{
}

/// A wait that begins before a frame is taken up is over with a newer frame after it, as long as
/// the count of frames does not run out.
pub proof fn law_wait_sees_new_frame(
    before: WarmCapturer,
    after: WarmCapturer,
    sample: Sample,
    now: u128,
    wait: FreshWait,
)
    requires
        before.accepts(sample),
        delivered(before, after, sample, now),
        wait.seq == before.seq,
        before.seq < u64::MAX,
    ensures
        after.is_fresh(wait),
        forall|later: u128| #[trigger] after.wait_is_over(wait, later),
{
}

/// The bytes of pixels that are given as red, green, blue and alpha, in one of the formats.
pub open spec fn encoded(picture: Seq<(u8, u8, u8, u8)>, format_type: u32) -> Seq<u8> {
    Seq::new(
        4 * picture.len(),
        |i: int|
            {
                let (red, green, blue, alpha) = picture[i / 4];
                let channels = if format_type == FORMAT_32_BGRA {
                    seq![blue, green, red, alpha]
                } else if format_type == FORMAT_32_ARGB {
                    seq![alpha, red, green, blue]
                } else {
                    seq![red, green, blue, alpha]
                };
                channels[i % 4]
            },
    )
}

/// The same picture reads the same in every format.
pub proof fn law_formats_agree(picture: Seq<(u8, u8, u8, u8)>)
    ensures
        from_bgra(encoded(picture, FORMAT_32_BGRA)) == encoded(picture, FORMAT_32_RGBA),
        from_argb(encoded(picture, FORMAT_32_ARGB)) == encoded(picture, FORMAT_32_RGBA),
{
    assert(from_bgra(encoded(picture, FORMAT_32_BGRA)) =~= encoded(picture, FORMAT_32_RGBA));
    assert(from_argb(encoded(picture, FORMAT_32_ARGB)) =~= encoded(picture, FORMAT_32_RGBA));
}

/// Turning BGRA into RGBA twice changes nothing: the same step turns RGBA into BGRA.
pub proof fn law_swap_undoes_itself(bytes: Seq<u8>)
    ensures
        from_bgra(from_bgra(bytes)) == bytes,
{
    assert(from_bgra(from_bgra(bytes)) =~= bytes);
}

} // verus!
