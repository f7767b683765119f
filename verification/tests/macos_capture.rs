use xcap::macos::capture::{
    bgra_to_rgba, capture_display, capture_display_rect, capture_display_sck, cg_image_to_rgba,
    sck_completion, RawImage, SckStep, PART,
};
use xcap::macos::warm_capturer::{
    argb_to_rgba_inplace, bgra_to_rgba_inplace, is_supported_format, Sample, WarmCapturer,
    FORMAT_32_ARGB, FORMAT_32_BGRA, FORMAT_32_RGBA,
};
use xcap::pixels::CapturedImage;
use xcap::XCapError;

fn raw(width: usize, height: usize, bytes_per_row: usize, data: &[u8]) -> RawImage<'_> {
    RawImage {
        width,
        height,
        bytes_per_row,
        data: Some(data),
    }
}

fn message(failure: XCapError) -> String {
    match failure {
        XCapError::Error(message) => message,
        other => panic!("{other:?}"),
    }
}

#[test]
fn red_and_blue_change_places() {
    let mut out = [0u8; 9];
    bgra_to_rgba(&[1, 2, 3, 4, 5, 6, 7, 8, 9], &mut out);
    assert_eq!(out, [3, 2, 1, 4, 7, 6, 5, 8, 0]);
    let mut pixels = [1u8, 2, 3, 4, 9];
    bgra_to_rgba_inplace(&mut pixels);
    assert_eq!(pixels, [3, 2, 1, 4, 9]);
    bgra_to_rgba_inplace(&mut pixels);
    assert_eq!(pixels, [1, 2, 3, 4, 9]);
    let mut alpha_first = [4u8, 1, 2, 3, 9];
    argb_to_rgba_inplace(&mut alpha_first);
    assert_eq!(alpha_first, [1, 2, 3, 4, 9]);
}

#[test]
fn rows_without_padding_become_an_image() {
    let image = raw(2, 1, 8, &[1, 2, 3, 4, 5, 6, 7, 8]);
    assert!(image.is_complete());
    let captured = cg_image_to_rgba(&image).unwrap();
    assert_eq!(captured.dimensions(), (2, 1));
    assert_eq!(captured.into_raw(), vec![3, 2, 1, 4, 7, 6, 5, 8]);
}

#[test]
fn padding_at_the_end_of_rows_is_dropped() {
    let data = [1, 2, 3, 4, 99, 99, 5, 6, 7, 8];
    let image = raw(1, 2, 6, &data);
    assert!(image.is_complete());
    let captured = cg_image_to_rgba(&image).unwrap();
    assert_eq!(captured.dimensions(), (1, 2));
    assert_eq!(captured.into_raw(), vec![3, 2, 1, 4, 7, 6, 5, 8]);
}

#[test]
fn parts_leave_no_seam() {
    let width = PART / 4 + 3;
    let mut data = Vec::new();
    for pixel in 0..width {
        data.extend_from_slice(&[(pixel % 251) as u8, 1, (pixel % 13) as u8, 2]);
    }
    let captured = cg_image_to_rgba(&raw(width, 1, width * 4, &data)).unwrap();
    let bytes = captured.into_raw();
    assert_eq!(bytes.len(), data.len());
    for pixel in [0, PART / 4 - 1, PART / 4, width - 1] {
        assert_eq!(
            bytes[pixel * 4..pixel * 4 + 4],
            [(pixel % 13) as u8, 1, (pixel % 251) as u8, 2]
        );
    }
}

#[test]
fn images_without_data_or_pixels_are_errors() {
    let none = RawImage {
        width: 0,
        height: 0,
        bytes_per_row: 0,
        data: None,
    };
    assert_eq!(message(cg_image_to_rgba(&none).unwrap_err()), "Failed to copy data");
    assert_eq!(message(cg_image_to_rgba(&raw(0, 1, 0, &[])).unwrap_err()), "Empty CGImage");
    assert_eq!(message(cg_image_to_rgba(&raw(1, 0, 4, &[])).unwrap_err()), "Empty CGImage");
    assert!(!raw(2, 2, 8, &[0; 15]).is_complete());
}

#[test]
fn the_screenshot_manager_comes_first() {
    let pixel = [1, 2, 3, 4];
    let drawn = raw(1, 1, 4, &pixel);
    let shot = capture_display_sck(Some(sck_completion(None, Some(&drawn))));
    assert!(shot.is_some());
    let other = [9, 9, 9, 9];
    let fallback = raw(1, 1, 4, &other);
    let chosen = capture_display(shot, Some(&fallback)).unwrap();
    assert_eq!(chosen.into_raw(), vec![3, 2, 1, 4]);
    let fallen_back = capture_display(None, Some(&fallback)).unwrap();
    assert_eq!(fallen_back.into_raw(), vec![9, 9, 9, 9]);
    assert_eq!(
        message(capture_display(None, None).unwrap_err()),
        "CGDisplayCreateImage failed"
    );
    assert_eq!(
        message(capture_display_rect(None).unwrap_err()),
        "CGDisplayCreateImageForRect failed"
    );
    assert_eq!(capture_display_rect(Some(&drawn)).unwrap().into_raw(), vec![3, 2, 1, 4]);
}

#[test]
fn a_failed_screenshot_is_no_image() {
    let pixel = [1, 2, 3, 4];
    let drawn = raw(1, 1, 4, &pixel);
    let failed = sck_completion(Some("denied"), Some(&drawn));
    assert_eq!(message(failed.unwrap_err()), "SCScreenshotManager error: denied");
    let null = sck_completion(None, None);
    assert_eq!(message(null.unwrap_err()), "SCScreenshotManager returned null image");
    assert!(capture_display_sck(Some(sck_completion(None, None))).is_none());
    assert!(capture_display_sck(None).is_none());
}

#[test]
fn the_way_to_the_screenshot_manager() {
    assert_eq!(SckStep::first(None), SckStep::FindClass);
    assert_eq!(SckStep::first(Some(true)), SckStep::FindMethod);
    assert_eq!(SckStep::first(Some(false)), SckStep::Unavailable);
    assert_eq!(SckStep::FindClass.answered(false), SckStep::OpenFramework);
    assert_eq!(SckStep::OpenFramework.answered(true), SckStep::FindClassAgain);
    assert_eq!(SckStep::OpenFramework.answered(false), SckStep::Unavailable);
    assert_eq!(SckStep::FindClassAgain.answered(true), SckStep::FindMethod);
    assert_eq!(SckStep::FindMethod.answered(true), SckStep::Capture);
    assert_eq!(SckStep::FindMethod.answered(false), SckStep::Unavailable);
}

#[test]
fn a_buffer_that_is_too_short_is_no_image() {
    assert_eq!(
        message(CapturedImage::from_raw(2, 2, vec![0; 15]).unwrap_err()),
        "RgbaImage::from_raw failed"
    );
    let flat = CapturedImage::from_raw(7, 0, Vec::new()).unwrap();
    assert_eq!(flat.dimensions(), (7, 0));
    let image = CapturedImage::from_raw(1, 1, vec![1, 2, 3, 4, 5]).unwrap();
    assert_eq!(image.dimensions(), (1, 1));
    assert_eq!(image.into_raw(), vec![1, 2, 3, 4, 5]);
}

fn stream() -> WarmCapturer {
    match WarmCapturer::new(true, &[FORMAT_32_ARGB, FORMAT_32_BGRA]) {
        Ok((capturer, config)) => {
            assert_eq!(config.pixel_format, FORMAT_32_BGRA);
            assert_eq!((config.frame_duration_value, config.frame_duration_timescale), (1, 30));
            capturer
        }
        Err(failure) => panic!("{failure:?}"),
    }
}

#[test]
fn a_stream_needs_a_display_and_a_format() {
    assert_eq!(
        message(WarmCapturer::new(false, &[FORMAT_32_RGBA]).unwrap_err()),
        "AVCaptureScreenInput::initWithDisplayID failed"
    );
    assert_eq!(
        message(WarmCapturer::new(true, &[1, 2]).unwrap_err()),
        "no supported 32-bit pixel format in warm capturer"
    );
    assert!(is_supported_format(FORMAT_32_ARGB));
    assert!(!is_supported_format(1));
}

#[test]
fn a_stream_hands_out_its_newest_frame() {
    let mut capturer = stream();
    let bytes = [1, 2, 3, 4, 0, 0, 5, 6, 7, 8, 0, 0];
    let sample = Sample {
        format_type: FORMAT_32_BGRA,
        width: 1,
        height: 2,
        bytes_per_row: 6,
        data: &bytes,
    };
    assert!(sample.is_readable());
    capturer.frame_delivered(&sample, 10);
    assert_eq!(capturer.frame_seq(), 0);
    capturer.start().unwrap();
    assert!(capturer.latest_frame().is_none());
    assert_eq!(capturer.latest_frame_age(10), None);
    capturer.frame_delivered(&sample, 10);
    assert_eq!(capturer.frame_seq(), 1);
    let frame = capturer.latest_frame().unwrap();
    assert_eq!(frame.dimensions(), (1, 2));
    assert_eq!(frame.into_raw(), vec![3, 2, 1, 4, 7, 6, 5, 8]);
    assert_eq!(capturer.latest_frame_age(25), Some(15));
    assert_eq!(capturer.latest_frame_age(5), Some(0));
}

#[test]
fn a_stopped_stream_has_no_newest_frame() {
    let mut capturer = stream();
    capturer.start().unwrap();
    let bytes = [1, 2, 3, 4];
    let sample = Sample {
        format_type: FORMAT_32_RGBA,
        width: 1,
        height: 1,
        bytes_per_row: 4,
        data: &bytes,
    };
    capturer.frame_delivered(&sample, 1);
    let wait = capturer.begin_wait(1, 100);
    capturer.stop().unwrap();
    assert!(capturer.latest_frame().is_none());
    match capturer.wait_fresh_frame(&wait, 2) {
        Some((fresh, Some(frame))) => {
            assert!(!fresh);
            assert_eq!(frame.into_raw(), vec![1, 2, 3, 4]);
        }
        _ => panic!("the wait should be over with the frame that was kept"),
    }
}

#[test]
fn a_wait_ends_with_a_new_frame_or_in_time() {
    let mut capturer = stream();
    capturer.start().unwrap();
    let bytes = [4, 1, 2, 3];
    let sample = Sample {
        format_type: FORMAT_32_ARGB,
        width: 1,
        height: 1,
        bytes_per_row: 4,
        data: &bytes,
    };
    let wait = capturer.begin_wait(100, 50);
    assert_eq!(wait.deadline, 150);
    assert!(capturer.wait_fresh_frame(&wait, 149).is_none());
    match capturer.wait_fresh_frame(&wait, 150) {
        Some((fresh, frame)) => {
            assert!(!fresh);
            assert!(frame.is_none());
        }
        None => panic!("the deadline has passed"),
    }
    capturer.frame_delivered(&sample, 120);
    match capturer.wait_fresh_frame(&wait, 120) {
        Some((fresh, Some(frame))) => {
            assert!(fresh);
            assert_eq!(frame.into_raw(), vec![1, 2, 3, 4]);
        }
        _ => panic!("there is a new frame"),
    }
}

#[test]
fn rows_that_are_missing_stay_black() {
    let mut capturer = stream();
    capturer.start().unwrap();
    let bytes = [1, 2, 3, 4, 9, 5, 6];
    let sample = Sample {
        format_type: FORMAT_32_RGBA,
        width: 1,
        height: 2,
        bytes_per_row: 5,
        data: &bytes,
    };
    assert!(sample.is_readable());
    capturer.frame_delivered(&sample, 1);
    assert_eq!(
        capturer.latest_frame().unwrap().into_raw(),
        vec![1, 2, 3, 4, 0, 0, 0, 0]
    );
}
