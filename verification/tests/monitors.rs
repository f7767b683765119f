use xcap::macos::warm_capturer::{Sample, FORMAT_32_RGBA};
use xcap::monitor::{CaptureRegion, ImplMonitor, WarmSlot};
use xcap::pixels::CapturedImage;
use xcap::preheat::{Backend, Preheat};
use xcap::{preheat_capture_backend, Monitor, XCapError};

fn impl_monitor(id: u32) -> ImplMonitor {
    ImplMonitor {
        id: Ok(id),
        name: Ok(format!("display-{id}")),
        friendly_name: Ok(format!("Display {id}")),
        x: Ok(-100),
        y: Ok(50),
        width: Ok(1920),
        height: Ok(1080),
        is_primary: Ok(true),
        is_builtin: Ok(false),
    }
}

#[test]
fn test_capture_region_out_of_bounds() {
    let monitors = Monitor::all(Ok(vec![impl_monitor(1)])).unwrap();
    let Some(monitor) = monitors.first() else {
        return;
    };

    // Try to capture a region that extends beyond monitor bounds
    let x = monitor.width().unwrap() / 2;
    let y = monitor.height().unwrap() / 2;
    let width = monitor.width().unwrap();
    let height = monitor.height().unwrap();

    let result = monitor.capture_region(x, y, width, height);

    match result {
        Err(XCapError::InvalidCaptureRegion(_)) => (),
        _ => panic!("Expected InvalidCaptureRegion error"),
    }
}

#[test]
fn a_copy_of_a_monitor_tells_the_same() {
    let mut told = impl_monitor(7);
    told.is_builtin = Err(XCapError::new("unknown"));
    let copy = Monitor::new(told).clone();
    assert_eq!(copy.id(), Ok(7));
    assert_eq!(copy.name(), Ok(String::from("display-7")));
    assert_eq!((copy.x(), copy.y()), (Ok(-100), Ok(50)));
    assert_eq!((copy.width(), copy.height()), (Ok(1920), Ok(1080)));
    assert_eq!(copy.is_primary(), Ok(true));
    assert_eq!(copy.is_builtin(), Err(XCapError::new("unknown")));
}

#[test]
fn regions_within_the_monitor_are_captured() {
    let monitor = Monitor::new(impl_monitor(1));
    let whole = CaptureRegion {
        x: 0,
        y: 0,
        width: 1920,
        height: 1080,
    };
    assert_eq!(monitor.capture_region(0, 0, 1920, 1080), Ok(whole));
    assert_eq!(
        monitor.capture_region(1, 2, 1920, 3),
        Err(XCapError::InvalidCaptureRegion(String::from(
            "Region (1, 2, 1920, 3) is outside the monitor of 1920 x 1080"
        )))
    );
    assert!(monitor.capture_region(u32::MAX, 0, u32::MAX, 1).is_err());
}

#[test]
fn monitors_tell_what_the_system_tells() {
    let monitor = Monitor::from_point(Ok(impl_monitor(3))).unwrap();
    assert_eq!(monitor.id(), Ok(3));
    assert_eq!(monitor.name(), Ok(String::from("display-3")));
    assert_eq!(monitor.friendly_name(), Ok(String::from("Display 3")));
    assert_eq!((monitor.x(), monitor.y()), (Ok(-100), Ok(50)));
    assert_eq!((monitor.width(), monitor.height()), (Ok(1920), Ok(1080)));
    assert_eq!((monitor.is_primary(), monitor.is_builtin()), (Ok(true), Ok(false)));
    let mut broken = impl_monitor(3);
    broken.name = Err(XCapError::new("no name"));
    broken.width = Err(XCapError::new("no width"));
    let broken = Monitor::new(broken);
    assert_eq!(broken.name(), Err(XCapError::new("no name")));
    assert_eq!(broken.capture_region(0, 0, 1, 1), Err(XCapError::new("no width")));
    assert!(Monitor::from_point(Err(XCapError::new("nowhere"))).is_err());
    assert!(Monitor::all(Err(XCapError::new("no monitors"))).is_err());
    let all = Monitor::all(Ok(vec![impl_monitor(5), impl_monitor(4)])).unwrap();
    assert_eq!((all[0].id(), all[1].id()), (Ok(5), Ok(4)));
}

#[test]
fn a_recorder_wraps_what_was_made() {
    let monitor = Monitor::new(impl_monitor(1));
    let (recorder, frames) = monitor.video_recorder(Ok((7u8, "frames"))).unwrap();
    assert_eq!((recorder.impl_video_recorder, frames), (7, "frames"));
    let failed: Result<(u8, u8), XCapError> = Err(XCapError::new("no recorder"));
    assert!(monitor.video_recorder(failed).is_err());
}

#[test]
fn one_stream_is_kept_at_a_time() {
    let one = Monitor::new(impl_monitor(1));
    let other = Monitor::new(impl_monitor(2));
    let mut slot = WarmSlot::new();
    assert_eq!(one.warm_capture_start(&mut slot, true, &[FORMAT_32_RGBA]), Ok(true));
    assert_eq!(one.warm_capture_start(&mut slot, true, &[FORMAT_32_RGBA]), Ok(false));
    let config = slot.stream.as_ref().unwrap().config;
    assert_eq!(config.pixel_format, FORMAT_32_RGBA);
    assert!(config.captures_cursor);
    assert_eq!((config.frame_duration_value, config.frame_duration_timescale), (1, 30));
    let bytes = [1, 2, 3, 4];
    let sample = Sample {
        format_type: FORMAT_32_RGBA,
        width: 1,
        height: 1,
        bytes_per_row: 4,
        data: &bytes,
    };
    assert!(one.warm_capture_latest_frame(&slot).unwrap().is_none());
    slot.stream.as_mut().unwrap().capturer.frame_delivered(&sample, 1);
    let frame = one.warm_capture_latest_frame(&slot).unwrap().unwrap();
    assert_eq!(frame.into_raw(), vec![1, 2, 3, 4]);
    let cached = one.capture_image(&slot, || Err(XCapError::new("slow"))).unwrap();
    assert_eq!(cached.into_raw(), vec![1, 2, 3, 4]);
    let captured = other.capture_image(&slot, || CapturedImage::from_raw(1, 1, vec![9; 4]));
    assert_eq!(captured.unwrap().into_raw(), vec![9; 4]);
    assert!(other.warm_capture_latest_frame(&slot).unwrap().is_none());
    assert_eq!(other.warm_capture_start(&mut slot, true, &[FORMAT_32_RGBA]), Ok(true));
    assert!(one.warm_capture_latest_frame(&slot).unwrap().is_none());
    assert!(other.warm_capture_latest_frame(&slot).unwrap().is_none());
    assert_eq!(other.warm_capture_stop(&mut slot), Ok(()));
    assert!(slot.stream.is_none());
}

#[test]
fn a_stream_that_cannot_start_leaves_none() {
    let one = Monitor::new(impl_monitor(1));
    let other = Monitor::new(impl_monitor(2));
    let mut slot = WarmSlot::new();
    assert_eq!(one.warm_capture_start(&mut slot, true, &[FORMAT_32_RGBA]), Ok(true));
    assert_eq!(
        other.warm_capture_start(&mut slot, true, &[]),
        Err(XCapError::new("no supported 32-bit pixel format in warm capturer"))
    );
    assert!(slot.stream.is_none());
    assert_eq!(
        other.warm_capture_start(&mut slot, false, &[FORMAT_32_RGBA]),
        Err(XCapError::new("AVCaptureScreenInput::initWithDisplayID failed"))
    );
}

#[test]
fn backends_are_preheated_in_their_way() {
    assert_eq!(
        preheat_capture_backend(Backend::Windows {
            graphics_capture: false
        }),
        Preheat::GraphicsDevice
    );
    assert_eq!(
        preheat_capture_backend(Backend::Windows {
            graphics_capture: true
        }),
        Preheat::Nothing
    );
    assert_eq!(preheat_capture_backend(Backend::MacOs), Preheat::ThrowawayCapture);
    assert_eq!(preheat_capture_backend(Backend::Other), Preheat::Nothing);
}
