//! Monitors, and the stream of frames that one of them may be captured by.

use vstd::prelude::*;
use vstd::string::StringExecFns;

use crate::error;
use crate::error::{XCapError, XCapResult};
use crate::macos::warm_capturer;
use crate::macos::warm_capturer::{StreamConfig, WarmCapturer};
use crate::pixels;
use crate::pixels::CapturedImage;
use crate::text;
use crate::text_laws;

verus! {

/// A monitor, by what the system tells of it.
#[derive(Debug)]
pub struct ImplMonitor {
    pub id: XCapResult<u32>,
    pub name: XCapResult<String>,
    pub friendly_name: XCapResult<String>,
    pub x: XCapResult<i32>,
    pub y: XCapResult<i32>,
    pub width: XCapResult<u32>,
    pub height: XCapResult<u32>,
    pub is_primary: XCapResult<bool>,
    pub is_builtin: XCapResult<bool>,
}

impl ImplMonitor {
    /// Whether the same is told of two monitors.
    pub open spec fn same_as(self, other: ImplMonitor) -> bool {
        &&& error::outcome(self.id) == error::outcome(other.id)
        &&& error::text_outcome(self.name) == error::text_outcome(other.name)
        &&& error::text_outcome(self.friendly_name) == error::text_outcome(other.friendly_name)
        &&& error::outcome(self.x) == error::outcome(other.x)
        &&& error::outcome(self.y) == error::outcome(other.y)
        &&& error::outcome(self.width) == error::outcome(other.width)
        &&& error::outcome(self.height) == error::outcome(other.height)
        &&& error::outcome(self.is_primary) == error::outcome(other.is_primary)
        &&& error::outcome(self.is_builtin) == error::outcome(other.is_builtin)
    }
}

impl Clone for ImplMonitor {
    fn clone(&self) -> (copy: Self)
        ensures
            copy.same_as(*self),
    {
        ImplMonitor {
            id: error::copy_outcome(&self.id),
            name: error::copy_text(&self.name),
            friendly_name: error::copy_text(&self.friendly_name),
            x: error::copy_outcome(&self.x),
            y: error::copy_outcome(&self.y),
            width: error::copy_outcome(&self.width),
            height: error::copy_outcome(&self.height),
            is_primary: error::copy_outcome(&self.is_primary),
            is_builtin: error::copy_outcome(&self.is_builtin),
        }
    }
}

/// A monitor.
#[derive(Debug)]
pub struct Monitor {
    pub impl_monitor: ImplMonitor,
}

impl Clone for Monitor {
    fn clone(&self) -> (copy: Self)
        ensures
            copy.impl_monitor.same_as(self.impl_monitor),
    {
        Monitor { impl_monitor: self.impl_monitor.clone() }
    }
}

/// A recorder of what a monitor shows.
#[derive(Debug)]
pub struct VideoRecorder<R> {
    pub impl_video_recorder: R,
}

impl<R> VideoRecorder<R> {
    /// A recorder that records by way of another.
    pub fn new(impl_video_recorder: R) -> (recorder: VideoRecorder<R>)
        ensures
            recorder.impl_video_recorder == impl_video_recorder,
    {
        VideoRecorder { impl_video_recorder }
    }
}

/// A part of a monitor, in pixels from its upper left corner.
#[derive(Debug, Clone, Copy, PartialEq, Eq, Structural)]
pub struct CaptureRegion {
    pub x: u32,
    pub y: u32,
    pub width: u32,
    pub height: u32,
}

impl CaptureRegion {
    /// Whether the region lies within a monitor of this extent.
    pub open spec fn lies_within(self, width: u32, height: u32) -> bool {
        self.x + self.width <= width && self.y + self.height <= height
    }

    /// How the region is told to lie outside a monitor.
    pub open spec fn outside_text(self, width: u32, height: u32) -> Seq<char> {
        "Region ("@ + text::decimal(self.x as int) + ", "@ + text::decimal(self.y as int) + ", "@
            + text::decimal(self.width as int) + ", "@ + text::decimal(self.height as int)
            + ") is outside the monitor of "@ + text::decimal(width as int) + " x "@
            + text::decimal(height as int)
    }
}

/// The one stream of frames that there may be, and the monitor that it shows.
#[derive(Debug)]
pub struct WarmSlot {
    pub stream: Option<WarmStream>,
}

/// A stream of frames, and the monitor that it shows.
#[derive(Debug)]
pub struct WarmStream {
    pub monitor: u32,
    /// How the session of the stream is set up.
    pub config: StreamConfig,
    pub capturer: WarmCapturer,
}

impl WarmSlot {
    /// No stream.
    pub fn new() -> (slot: WarmSlot)
        ensures
            slot.stream is None,
            slot.well_formed(),
    {
        WarmSlot { stream: None }
    }

    /// The newest frame of the stream has all of its pixels.
    pub open spec fn well_formed(self) -> bool {
        self.stream matches Some(stream) ==> stream.capturer.well_formed()
    }

    /// Whether there is a stream of this monitor.
    pub open spec fn serves(self, monitor: u32) -> bool {
        self.stream matches Some(stream) && stream.monitor == monitor
    }
}

impl Monitor {
    /// The monitor that the system tells of.
    pub fn new(impl_monitor: ImplMonitor) -> (monitor: Monitor)
        ensures
            monitor.impl_monitor == impl_monitor,
    {
        Monitor { impl_monitor }
    }

    /// All monitors, in the order in which the system tells of them.
    pub fn all(found: XCapResult<Vec<ImplMonitor>>) -> (result: XCapResult<Vec<Monitor>>)
        ensures
            match found {
                Ok(found) => result matches Ok(monitors) && monitors@ == found@.map_values(
                    |impl_monitor: ImplMonitor| (Monitor { impl_monitor }),
                ),
                Err(failure) => result == Err::<Vec<Monitor>, XCapError>(failure),
            },
    {
        let found = match found {
            Ok(found) => found,
            Err(failure) => {
                return Err(failure);
            },
        };
        let ghost wrapped = found@.map_values(|impl_monitor: ImplMonitor| Monitor { impl_monitor });
        let mut monitors: Vec<Monitor> = Vec::new();
        for impl_monitor in it: found
            invariant
                it.seq().len() == wrapped.len(),
                forall|i: int|
                    0 <= i < wrapped.len() ==> #[trigger] wrapped[i] == (Monitor {
                        impl_monitor: it.seq()[i],
                    }),
                monitors@ == wrapped.take(it.index() as int),
        {
            monitors.push(Monitor::new(impl_monitor));
            assert(monitors@ =~= wrapped.take(it.index() + 1));
        }
        assert(monitors@ =~= wrapped);
        Ok(monitors)
    }

    /// The monitor that shows a point, which the system has found.
    pub fn from_point(found: XCapResult<ImplMonitor>) -> (result: XCapResult<Monitor>)
        ensures
            match found {
                Ok(impl_monitor) => result == Ok::<Monitor, XCapError>(Monitor { impl_monitor }),
                Err(failure) => result == Err::<Monitor, XCapError>(failure),
            },
    {
        match found {
            Ok(impl_monitor) => Ok(Monitor::new(impl_monitor)),
            Err(failure) => Err(failure),
        }
    }

    /// What tells the monitor apart from others.
    pub fn id(&self) -> (result: XCapResult<u32>)
        ensures
            error::outcome(result) == error::outcome(self.impl_monitor.id),
    {
        error::copy_outcome(&self.impl_monitor.id)
    }

    /// The name of the display.
    pub fn name(&self) -> (result: XCapResult<String>)
        ensures
            error::text_outcome(result) == error::text_outcome(self.impl_monitor.name),
    {
        error::copy_text(&self.impl_monitor.name)
    }

    /// The friendly name of the display.
    pub fn friendly_name(&self) -> (result: XCapResult<String>)
        ensures
            error::text_outcome(result) == error::text_outcome(self.impl_monitor.friendly_name),
    {
        error::copy_text(&self.impl_monitor.friendly_name)
    }

    /// The left edge of the screen.
    pub fn x(&self) -> (result: XCapResult<i32>)
        ensures
            error::outcome(result) == error::outcome(self.impl_monitor.x),
    {
        error::copy_outcome(&self.impl_monitor.x)
    }

    /// The top edge of the screen.
    pub fn y(&self) -> (result: XCapResult<i32>)
        ensures
            error::outcome(result) == error::outcome(self.impl_monitor.y),
    {
        error::copy_outcome(&self.impl_monitor.y)
    }

    /// The width of the screen in pixels.
    pub fn width(&self) -> (result: XCapResult<u32>)
        ensures
            error::outcome(result) == error::outcome(self.impl_monitor.width),
    {
        error::copy_outcome(&self.impl_monitor.width)
    }

    /// The height of the screen in pixels.
    pub fn height(&self) -> (result: XCapResult<u32>)
        ensures
            error::outcome(result) == error::outcome(self.impl_monitor.height),
    {
        error::copy_outcome(&self.impl_monitor.height)
    }

    /// Whether the screen is the main screen.
    pub fn is_primary(&self) -> (result: XCapResult<bool>)
        ensures
            error::outcome(result) == error::outcome(self.impl_monitor.is_primary),
    {
        error::copy_outcome(&self.impl_monitor.is_primary)
    }

    /// Whether the screen is built in.
    pub fn is_builtin(&self) -> (result: XCapResult<bool>)
        ensures
            error::outcome(result) == error::outcome(self.impl_monitor.is_builtin),
    {
        error::copy_outcome(&self.impl_monitor.is_builtin)
    }

    /// The picture of the monitor: the newest frame of the stream where the monitor is shown by one
    /// that runs, else what is captured.
    pub fn capture_image<F: FnOnce() -> XCapResult<CapturedImage>>(
        &self,
        slot: &WarmSlot,
        capture: F,
    ) -> (result: XCapResult<CapturedImage>)
        requires
            slot.well_formed(),
            capture.requires(()),
        ensures
            match self.cached(*slot) {
                Some(frame) => result matches Ok(image) && frame == (
                    pixels::image_size(image),
                    pixels::image_bytes(image),
                ),
                None => capture.ensures((), result),
            },
    {
        if let Ok(Some(image)) = self.warm_capture_latest_frame(slot) {
            return Ok(image);
        }
        capture()
    }

    /// The extent and the pixels of the newest frame of a stream that shows the monitor and runs.
    pub open spec fn cached(self, slot: WarmSlot) -> Option<((u32, u32), Seq<u8>)> {
        match (self.impl_monitor.id, slot.stream) {
            (Ok(id), Some(stream)) => if stream.monitor == id && stream.capturer.running {
                stream.capturer.frame()
            } else {
                None
            },
            _ => None,
        }
    }

    /// The region that is to be captured; an error where it does not lie within the monitor.
    pub fn capture_region(&self, x: u32, y: u32, width: u32, height: u32) -> (result: XCapResult<
        CaptureRegion,
    >)
        ensures
            ({
                let region = CaptureRegion { x, y, width, height };
                match (
                    error::outcome(self.impl_monitor.width),
                    error::outcome(self.impl_monitor.height),
                ) {
                    (Err(failure), _) => result matches Err(met) && met@ == failure,
                    (Ok(_), Err(failure)) => result matches Err(met) && met@ == failure,
                    (Ok(monitor_width), Ok(monitor_height)) => if region.lies_within(
                        monitor_width,
                        monitor_height,
                    ) {
                        result == Ok::<CaptureRegion, XCapError>(region)
                    } else {
                        result matches Err(met) && met@ == error::Failure::InvalidCaptureRegion(
                            region.outside_text(monitor_width, monitor_height),
                        )
                    },
                }
            }),
    {
        let monitor_width: u32 = self.width()?;
        let monitor_height: u32 = self.height()?;
        let right: u64 = x as u64 + width as u64;
        let bottom: u64 = y as u64 + height as u64;
        if right <= monitor_width as u64 && bottom <= monitor_height as u64 {
            return Ok(CaptureRegion { x, y, width, height });
        }
        let mut message = "Region (".to_owned();
        text::push_count(&mut message, x as u64);
        message.append(", ");
        text::push_count(&mut message, y as u64);
        message.append(", ");
        text::push_count(&mut message, width as u64);
        message.append(", ");
        text::push_count(&mut message, height as u64);
        message.append(") is outside the monitor of ");
        text::push_count(&mut message, monitor_width as u64);
        message.append(" x ");
        text::push_count(&mut message, monitor_height as u64);
        Err(XCapError::InvalidCaptureRegion(message))
    }

    /// A recorder of what the monitor shows, and the frames that it will send.
    pub fn video_recorder<R, F>(&self, made: XCapResult<(R, F)>) -> (result: XCapResult<
        (VideoRecorder<R>, F),
    >)
        ensures
            match made {
                Ok((recorder, frames)) => result == Ok::<(VideoRecorder<R>, F), XCapError>(
                    (VideoRecorder { impl_video_recorder: recorder }, frames),
                ),
                Err(failure) => result == Err::<(VideoRecorder<R>, F), XCapError>(failure),
            },
    {
        match made {
            Ok((recorder, frames)) => Ok((VideoRecorder::new(recorder), frames)),
            Err(failure) => Err(failure),
        }
    }

    /// Starts a stream of frames of the monitor, and says whether there is a new one. A stream that
    /// shows the monitor already is used again; one that shows another is stopped first, as there
    /// is only one at a time. Whether the monitor can be captured, and in which formats, is what
    /// the system tells.
    pub fn warm_capture_start(
        &self,
        slot: &mut WarmSlot,
        has_input: bool,
        available: &[u32],
    ) -> (result: XCapResult<bool>)
        requires
            old(slot).well_formed(),
        ensures
            final(slot).well_formed(),
            result matches Ok(is_new) ==> (error::outcome(self.impl_monitor.id) matches Ok(id)
                && started(*old(slot), *final(slot), id, is_new)),
            match error::outcome(self.impl_monitor.id) {
                Err(failure) => {
                    &&& result matches Err(met) && met@ == failure
                    &&& *final(slot) == *old(slot)
                },
                Ok(id) => if old(slot).serves(id) {
                    &&& result == Ok::<bool, XCapError>(false)
                    &&& *final(slot) == *old(slot)
                } else if !has_input {
                    &&& result matches Err(met) && met@ == error::Failure::Error(
                        "AVCaptureScreenInput::initWithDisplayID failed"@,
                    )
                    &&& final(slot).stream is None
                } else if warm_capturer::preferred_format(available@) is None {
                    &&& result matches Err(met) && met@ == error::Failure::Error(
                        "no supported 32-bit pixel format in warm capturer"@,
                    )
                    &&& final(slot).stream is None
                } else {
                    &&& result == Ok::<bool, XCapError>(true)
                    &&& final(slot).serves(id)
                    &&& warm_capturer::is_setup_for(final(slot).stream->0.config, available@)
                    &&& final(slot).stream->0.capturer.running
                    &&& final(slot).stream->0.capturer.seq == 0
                    &&& final(slot).stream->0.capturer.frame() is None
                },
            },
    {
        let id: u32 = self.id()?;
        if let Some(stream) = &slot.stream {
            if stream.monitor == id {
                return Ok(false);
            }
        }
        slot.stream = None;
        let (mut capturer, config) = WarmCapturer::new(has_input, available)?;
        capturer.start()?;
        slot.stream = Some(WarmStream { monitor: id, config, capturer });
        Ok(true)
    }

    /// Stops the stream, and lets go of it.
    pub fn warm_capture_stop(&self, slot: &mut WarmSlot) -> (result: XCapResult<()>)
        ensures
            result == Ok::<(), XCapError>(()),
            final(slot).stream is None,
            final(slot).well_formed(),
    {
        slot.stream = None;
        Ok(())
    }

    /// The newest frame of the stream; none where the monitor is not shown by one that runs, and
    /// none before the first.
    pub fn warm_capture_latest_frame(&self, slot: &WarmSlot) -> (result: XCapResult<
        Option<CapturedImage>,
    >)
        requires
            slot.well_formed(),
        ensures
            match error::outcome(self.impl_monitor.id) {
                Err(failure) => result matches Err(met) && met@ == failure,
                Ok(_) => result matches Ok(frame) && match frame {
                    Some(image) => self.cached(*slot) == Some(
                        (pixels::image_size(image), pixels::image_bytes(image)),
                    ),
                    None => self.cached(*slot) is None,
                },
            },
    {
        let id: u32 = self.id()?;
        match &slot.stream {
            Some(stream) => {
                if stream.monitor == id {
                    Ok(stream.capturer.latest_frame())
                } else {
                    Ok(None)
                }
            },
            None => Ok(None),
        }
    }
}

/// Whether starting a stream of a monitor turns `before` into `after`, and says `is_new`.
pub open spec fn started(before: WarmSlot, after: WarmSlot, monitor: u32, is_new: bool) -> bool {
    if is_new {
        !before.serves(monitor) && after.serves(monitor)
    } else {
        before.serves(monitor) && after == before
    }
}

/// A stream that has been started is used again by the next start for the same monitor; and a start
/// for another monitor is a new one, after which only that monitor is shown.
pub proof fn law_one_stream_at_a_time(
    first: WarmSlot,
    second: WarmSlot,
    third: WarmSlot,
    one: u32,
    other: u32,
    is_new: bool,
)
    requires
        started(first, second, one, is_new),
    ensures
        forall|again: bool| #[trigger]
            started(second, third, one, again) ==> !again && third == second,
        one != other ==> forall|again: bool| #[trigger]
            started(second, third, other, again) ==> again && third.serves(other)
                && !third.serves(one),
{
}

/// A region lies within a monitor where neither its right nor its lower edge is beyond that of the
/// monitor; then all of its pixels are pixels of the monitor.
pub proof fn law_regions_within_the_monitor(
    region: CaptureRegion,
    width: u32,
    height: u32,
    x: int,
    y: int,
)
    ensures
        !region.lies_within(width, height) <==> region.x + region.width > width || region.y
            + region.height > height,
        region.lies_within(width, height) && region.x <= x < region.x + region.width && region.y
            <= y < region.y + region.height ==> 0 <= x < width && 0 <= y < height,
        region.outside_text(width, height) == text_laws::joined(
            seq![
                "Region ("@,
                text::decimal(region.x as int),
                ", "@,
                text::decimal(region.y as int),
                ", "@,
                text::decimal(region.width as int),
                ", "@,
                text::decimal(region.height as int),
                ") is outside the monitor of "@,
                text::decimal(width as int),
                " x "@,
                text::decimal(height as int),
            ],
        ),
{
    reveal_with_fuel(text_laws::joined_to, 13);
}

/// The newest frame of a stream is that of a monitor where the stream shows the monitor and runs, and
/// has a frame; a stream of another monitor, one that does not run and one without a frame give none.
pub proof fn law_whose_frame_it_is(monitor: Monitor, slot: WarmSlot, id: u32)
    requires
        monitor.impl_monitor.id == Ok::<u32, XCapError>(id),
    ensures
        slot.stream is None ==> monitor.cached(slot) is None && !slot.serves(id),
        slot.stream matches Some(stream) ==> {
            &&& slot.serves(id) <==> stream.monitor == id
            &&& stream.monitor != id ==> monitor.cached(slot) is None
            &&& !stream.capturer.running ==> monitor.cached(slot) is None
            &&& stream.capturer.latest.raw@.len() == 0 ==> monitor.cached(slot) is None
            &&& stream.monitor == id && stream.capturer.running
                && stream.capturer.latest.raw@.len() > 0 ==> monitor.cached(slot) == Some(
                (
                    (stream.capturer.latest.width, stream.capturer.latest.height),
                    stream.capturer.latest.raw@,
                ),
            )
        },
{
}

/// A copy of a monitor tells what the monitor tells.
pub proof fn law_copies_tell_the_same(monitor: ImplMonitor, copy: ImplMonitor)
    requires
        copy.same_as(monitor),
    ensures
        copy.id is Ok <==> monitor.id is Ok,
        copy.id matches Ok(id) ==> monitor.id->Ok_0 == id,
        copy.name is Ok <==> monitor.name is Ok,
        copy.name matches Ok(name) ==> monitor.name->Ok_0@ == name@,
        copy.friendly_name is Ok <==> monitor.friendly_name is Ok,
        copy.friendly_name matches Ok(name) ==> monitor.friendly_name->Ok_0@ == name@,
        copy.x is Ok <==> monitor.x is Ok,
        copy.x matches Ok(x) ==> monitor.x->Ok_0 == x,
        copy.y is Ok <==> monitor.y is Ok,
        copy.y matches Ok(y) ==> monitor.y->Ok_0 == y,
        copy.width is Ok <==> monitor.width is Ok,
        copy.width matches Ok(width) ==> monitor.width->Ok_0 == width,
        copy.height is Ok <==> monitor.height is Ok,
        copy.height matches Ok(height) ==> monitor.height->Ok_0 == height,
        copy.is_primary is Ok <==> monitor.is_primary is Ok,
        copy.is_primary matches Ok(is_primary) ==> monitor.is_primary->Ok_0 == is_primary,
        copy.is_builtin is Ok <==> monitor.is_builtin is Ok,
        copy.is_builtin matches Ok(is_builtin) ==> monitor.is_builtin->Ok_0 == is_builtin,
{
}

} // verus!
