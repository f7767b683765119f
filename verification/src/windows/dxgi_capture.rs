//! One frame of a monitor by desktop duplication.

use vstd::prelude::*;
use vstd::string::StringExecFns;

use crate::error;
use crate::error::{XCapError, XCapResult};
use crate::text;

verus! {

/// How long one attempt to acquire a frame may take, in milliseconds.
pub const ACQUIRE_TIMEOUT_MS: u32 = 125;

/// How often acquiring a frame is attempted.
pub const ACQUIRE_MAX_ATTEMPTS: u32 = 8;

/// What the system answers when an output is asked for.
#[derive(Debug)]
pub enum OutputAnswer {
    /// There is one, and this is the monitor that it shows.
    Output { monitor: XCapResult<usize> },
    /// There are no more.
    NotFound,
    /// It cannot tell.
    Failed { description: String },
}

/// What is to be done after an answer.
#[derive(Debug)]
pub enum OutputStep {
    /// Ask for the output with this index.
    Enumerate { index: u32 },
    /// Duplicate the output with this index: it shows the monitor.
    Duplicate { index: u32 },
    /// Report this.
    Fail { failure: XCapError },
}

/// The search for the output that shows a monitor.
#[derive(Debug, Clone, Copy, PartialEq, Eq, Structural)]
pub struct OutputSearch {
    pub h_monitor: usize,
    pub output_index: u32,
}

/// Whether the search goes on after an answer: the output shows another monitor.
pub open spec fn shows_another(h_monitor: usize, answer: OutputAnswer) -> bool {
    answer matches OutputAnswer::Output { monitor: Ok(monitor) } && monitor != h_monitor
}

/// The error where no output shows the monitor.
pub open spec fn no_output(h_monitor: usize) -> error::Failure {
    error::Failure::Error(
        "DXGI output not found for h_monitor HMONITOR(0x"@ + text::hexadecimal(h_monitor as nat)
            + ")"@,
    )
}

impl OutputSearch {
    /// Sets out to search for the output that shows a monitor, from the first output on.
    pub fn new(h_monitor: usize) -> (search: OutputSearch)
        ensures
            search == (OutputSearch { h_monitor, output_index: 0 }),
    {
        OutputSearch { h_monitor, output_index: 0 }
    }

    /// Takes up the answer for the output that was asked for.
    pub fn answered(&mut self, answer: OutputAnswer) -> (step: OutputStep)
        requires
            old(self).output_index < u32::MAX,
        ensures
            final(self).h_monitor == old(self).h_monitor,
            shows_another(old(self).h_monitor, answer) <==> step is Enumerate,
            !(answer matches OutputAnswer::Output { monitor: Ok(_) }) ==> *final(self) == *old(
                self,
            ),
            match answer {
                OutputAnswer::Output { monitor: Ok(monitor) } => {
                    &&& final(self).output_index == old(self).output_index + 1
                    &&& if monitor == old(self).h_monitor {
                        step == (OutputStep::Duplicate { index: old(self).output_index })
                    } else {
                        step == (OutputStep::Enumerate { index: final(self).output_index })
                    }
                },
                OutputAnswer::Output { monitor: Err(failure) } => step == (OutputStep::Fail {
                    failure,
                }),
                OutputAnswer::NotFound => step matches OutputStep::Fail { failure } && failure@
                    == no_output(old(self).h_monitor),
                OutputAnswer::Failed { description } => {
                    step matches OutputStep::Fail { failure } && failure@ == error::Failure::Error(
                        "EnumOutputs failed: "@ + description@,
                    )
                },
            },
    {
        match answer {
            OutputAnswer::Output { monitor: Ok(monitor) } => {
                let index: u32 = self.output_index;
                self.output_index = index + 1;
                if monitor == self.h_monitor {
                    OutputStep::Duplicate { index }
                } else {
                    OutputStep::Enumerate { index: self.output_index }
                }
            },
            OutputAnswer::Output { monitor: Err(failure) } => OutputStep::Fail { failure },
            OutputAnswer::NotFound => {
                let mut message = "DXGI output not found for h_monitor HMONITOR(0x".to_owned();
                text::push_hexadecimal(&mut message, self.h_monitor as u64);
                message.append(")");
                OutputStep::Fail { failure: XCapError::new(message.as_str()) }
            },
            OutputAnswer::Failed { description } => {
                let message = "EnumOutputs failed: ".to_owned().concat(description.as_str());
                OutputStep::Fail { failure: XCapError::new(message.as_str()) }
            },
        }
    }
}

/// A search that has asked for an output has been told of every output before it that it shows
/// another monitor; so the output that is duplicated is the first that shows the monitor.
pub proof fn law_first_output_is_duplicated(
    answers: spec_fn(u32) -> OutputAnswer,
    run: Seq<OutputSearch>,
)
    requires
        run.len() > 0,
        run[0].output_index == 0,
        forall|i: int|
            0 <= i < run.len() - 1 ==> shows_another(
                run[0].h_monitor,
                answers((#[trigger] run[i]).output_index),
            ) && run[i + 1].output_index == run[i].output_index + 1,
    ensures
        forall|index: u32|
            index < run.last().output_index ==> shows_another(
                run[0].h_monitor,
                #[trigger] answers(index),
            ),
{
    lemma_search(run, run.len() - 1);
    assert forall|index: u32| index < run.last().output_index implies shows_another(
        run[0].h_monitor,
        #[trigger] answers(index),
    ) by {
        lemma_search(run, index as int);
        assert(run[index as int].output_index == index);
    }
}

proof fn lemma_search(run: Seq<OutputSearch>, i: int)
    requires
        0 <= i < run.len(),
        run[0].output_index == 0,
        forall|i: int|
            0 <= i < run.len() - 1 ==> run[i + 1].output_index == (
            #[trigger] run[i]).output_index + 1,
    ensures
        run[i].output_index == i,
    decreases i,
{
    if i > 0 {
        lemma_search(run, i - 1);
        assert(run[i - 1 + 1].output_index == run[i - 1].output_index + 1);
    }
}

/// What the system answers when a frame is asked for.
#[derive(Debug)]
pub enum AcquireAnswer {
    /// There is one, with or without the desktop's texture; and when the desktop was last
    /// presented.
    Acquired { has_resource: bool, last_present_time: i64 },
    /// There was none in time.
    TimedOut,
    /// There is an error.
    Failed { description: String },
}

/// What is to be done after an answer. Whatever it is, the frame is to be released: before the next
/// one is acquired, before the error is reported, or after the texture has been read.
#[derive(Debug)]
pub enum AcquireStep {
    /// Read the texture.
    Use,
    /// Acquire a frame again.
    Retry,
    /// Report this.
    Fail { failure: XCapError },
}

/// The attempts to acquire a frame.
#[derive(Debug, Clone, Copy, PartialEq, Eq, Structural)]
pub struct FrameAcquisition {
    pub attempt: u32,
}

/// Whether an answer calls for another attempt: there is no texture, but no error either.
pub open spec fn calls_for_retry(answer: AcquireAnswer) -> bool {
    match answer {
        AcquireAnswer::Acquired { has_resource, .. } => !has_resource,
        AcquireAnswer::TimedOut => true,
        AcquireAnswer::Failed { .. } => false,
    }
}

/// The error where no attempt led to a texture.
pub open spec fn no_resource() -> error::Failure {
    error::Failure::Error("DXGI acquire frame failed: no desktop resource after retries"@)
}

impl FrameAcquisition {
    /// An attempt is still to be made.
    pub open spec fn well_formed(self) -> bool {
        self.attempt < ACQUIRE_MAX_ATTEMPTS
    }

    /// Sets out to acquire a frame.
    pub fn new() -> (acquisition: FrameAcquisition)
        ensures
            acquisition.attempt == 0,
            acquisition.well_formed(),
    {
        FrameAcquisition { attempt: 0 }
    }

    /// Takes up the answer to an attempt. A texture is read even where the desktop has not been
    /// presented since the last frame: it shows the desktop all the same.
    pub fn answered(&mut self, answer: AcquireAnswer) -> (step: AcquireStep)
        requires
            old(self).well_formed(),
        ensures
            step is Retry ==> final(self).well_formed(),
            calls_for_retry(answer) ==> {
                &&& final(self).attempt == old(self).attempt + 1
                &&& final(self).well_formed() ==> step is Retry
                &&& !final(self).well_formed() ==> (step matches AcquireStep::Fail { failure }
                    && failure@ == no_resource())
            },
            !calls_for_retry(answer) ==> {
                &&& final(self).attempt == old(self).attempt
                &&& match answer {
                    AcquireAnswer::Failed { description } => {
                        step matches AcquireStep::Fail { failure } && failure@
                            == error::Failure::Error("AcquireNextFrame failed: "@ + description@)
                    },
                    _ => step is Use,
                }
            },
    {
        match answer {
            AcquireAnswer::Acquired { has_resource, .. } => {
                if has_resource {
                    return AcquireStep::Use;
                }
            },
            AcquireAnswer::TimedOut => {},
            AcquireAnswer::Failed { description } => {
                let message = "AcquireNextFrame failed: ".to_owned().concat(description.as_str());
                return AcquireStep::Fail { failure: XCapError::new(message.as_str()) };
            },
        }
        self.attempt = self.attempt + 1;
        if self.attempt < ACQUIRE_MAX_ATTEMPTS {
            AcquireStep::Retry
        } else {
            AcquireStep::Fail {
                failure: XCapError::new(
                    "DXGI acquire frame failed: no desktop resource after retries",
                ),
            }
        }
    }
}

/// Acquiring a frame is attempted no more than so often, however the attempts end.
pub proof fn law_attempts_are_limited(run: Seq<FrameAcquisition>)
    requires
        run.len() > 0,
        run[0].attempt == 0,
        forall|i: int| 0 <= i < run.len() ==> (#[trigger] run[i]).well_formed(),
        forall|i: int|
            0 <= i < run.len() - 1 ==> run[i + 1].attempt == (#[trigger] run[i]).attempt + 1,
    ensures
        run.len() <= ACQUIRE_MAX_ATTEMPTS,
{
    lemma_attempts(run, run.len() - 1);
    assert(run[run.len() - 1].well_formed());
}

proof fn lemma_attempts(run: Seq<FrameAcquisition>, i: int)
    requires
        0 <= i < run.len(),
        run[0].attempt == 0,
        forall|i: int|
            0 <= i < run.len() - 1 ==> run[i + 1].attempt == (#[trigger] run[i]).attempt + 1,
    ensures
        run[i].attempt == i,
    decreases i,
{
    if i > 0 {
        lemma_attempts(run, i - 1);
        assert(run[i - 1 + 1].attempt == run[i - 1].attempt + 1);
    }
}

/// A part of a frame.
#[derive(Debug, Clone, Copy, PartialEq, Eq, Structural)]
pub struct FrameRegion {
    pub x: u32,
    pub y: u32,
    pub width: u32,
    pub height: u32,
}

/// The lesser of two numbers.
pub open spec fn lesser(a: int, b: int) -> int {
    if a <= b {
        a
    } else {
        b
    }
}

/// How much of a length that starts at `from` lies within `limit`.
pub open spec fn part_within(from: u32, length: u32, limit: u32) -> int {
    if from < limit {
        lesser(length as int, limit - from)
    } else {
        0
    }
}

/// The part of a region that lies within a frame.
pub open spec fn region_within(wanted: FrameRegion, width: u32, height: u32) -> FrameRegion {
    FrameRegion {
        x: lesser(wanted.x as int, width as int) as u32,
        y: lesser(wanted.y as int, height as int) as u32,
        width: part_within(wanted.x, wanted.width, width) as u32,
        height: part_within(wanted.y, wanted.height, height) as u32,
    }
}

/// The error where nothing of a region lies within the frame.
pub open spec fn empty_region() -> error::Failure {
    error::Failure::Error("DXGI capture region is empty"@)
}

/// The part of a region that lies within a frame; an error where that is nothing.
pub fn clamp_region(wanted: FrameRegion, width: u32, height: u32) -> (result: XCapResult<
    FrameRegion,
>)
    ensures
        ({
            let part = region_within(wanted, width, height);
            if part.width == 0 || part.height == 0 {
                result matches Err(failure) && failure@ == empty_region()
            } else {
                result == Ok::<FrameRegion, XCapError>(part)
            }
        }),
{
    let x: u32 = if wanted.x <= width {
        wanted.x
    } else {
        width
    };
    let y: u32 = if wanted.y <= height {
        wanted.y
    } else {
        height
    };
    let room_x: u32 = width.saturating_sub(wanted.x);
    let room_y: u32 = height.saturating_sub(wanted.y);
    let part = FrameRegion {
        x,
        y,
        width: if wanted.width <= room_x {
            wanted.width
        } else {
            room_x
        },
        height: if wanted.height <= room_y {
            wanted.height
        } else {
            room_y
        },
    };
    if part.width == 0 || part.height == 0 {
        return Err(XCapError::new("DXGI capture region is empty"));
    }
    Ok(part)
}

/// What is left of a region lies within the frame and within the region; and a region that lies
/// within the frame is left as it is.
pub proof fn law_region_stays_within_the_frame(wanted: FrameRegion, width: u32, height: u32)
    ensures
        ({
            let part = region_within(wanted, width, height);
            &&& part.x + part.width <= width
            &&& part.y + part.height <= height
            &&& part.width > 0 ==> part.x == wanted.x && part.width <= wanted.width
            &&& part.height > 0 ==> part.y == wanted.y && part.height <= wanted.height
            &&& wanted.x + wanted.width <= width && wanted.y + wanted.height <= height
                ==> part == wanted
        }),
{
}

/// A pixel is in what is left of a region where it is in the region and in the frame; and only then.
pub proof fn law_region_holds_the_pixels_within(
    wanted: FrameRegion,
    width: u32,
    height: u32,
    x: int,
    y: int,
)
    ensures
        ({
            let part = region_within(wanted, width, height);
            &&& part.x <= x < part.x + part.width <==> wanted.x <= x < wanted.x + wanted.width && x
                < width
            &&& part.y <= y < part.y + part.height <==> wanted.y <= y < wanted.y + wanted.height
                && y < height
        }),
{
}

/// A frame is asked for again where there was none in time, or one without the texture of the desktop;
/// not after an error, and not where there is a texture, however long ago the desktop was presented.
/// It is asked for eight times at most, an eighth of a second each.
pub proof fn law_when_a_frame_is_asked_for_again(answer: AcquireAnswer)
    ensures
        answer is TimedOut ==> calls_for_retry(answer),
        answer is Failed ==> !calls_for_retry(answer),
        answer matches AcquireAnswer::Acquired { has_resource, .. } ==> (calls_for_retry(answer)
            <==> !has_resource),
        ACQUIRE_MAX_ATTEMPTS == 8,
        ACQUIRE_TIMEOUT_MS * 8 == 1000,
{
}

/// The search for an output goes on where the output shows a monitor that is not the one searched for;
/// and only then.
pub proof fn law_when_the_search_goes_on(h_monitor: usize, answer: OutputAnswer)
    ensures
        shows_another(h_monitor, answer) <==> (answer is Output && answer->monitor is Ok
            && answer->monitor->Ok_0 != h_monitor),
{
}

/// The errors say what went wrong, and name the monitor by its handle where one was asked for.
pub proof fn law_errors_say_what_went_wrong(h_monitor: usize)
    ensures
        no_output(h_monitor) == error::Failure::Error(
            "DXGI output not found for h_monitor HMONITOR(0x"@ + (text::hexadecimal(
                h_monitor as nat,
            ) + ")"@),
        ),
        no_resource() == error::Failure::Error(
            "DXGI acquire frame failed: no desktop resource after retries"@,
        ),
        empty_region() == error::Failure::Error("DXGI capture region is empty"@),
{
    let number = text::hexadecimal(h_monitor as nat);
    let start = "DXGI output not found for h_monitor HMONITOR(0x"@;
    assert(start + number + ")"@ =~= start + (number + ")"@));
}

} // verus!
