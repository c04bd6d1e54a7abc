use vad_wasm::framing::{
    frame, frame_size, num_frames, ConfigError, FRAMES_PER_SECOND, MIN_FRAME_SIZE,
};

#[test]
fn frame_lasts_a_hundredth_of_a_second() {
    assert_eq!(FRAMES_PER_SECOND, 100);
    assert_eq!(frame_size(16000), Ok(160));
    assert_eq!(frame_size(8000), Ok(80));
    assert_eq!(frame_size(44100), Ok(441));
    assert_eq!(frame_size(22050), Ok(220));
    assert_eq!(frame_size(u32::MAX), Ok(42949672));
}

#[test]
fn frame_of_two_samples_is_the_shortest() {
    assert_eq!(MIN_FRAME_SIZE, 2);
    assert_eq!(frame_size(200), Ok(2));
    assert_eq!(frame_size(299), Ok(2));
    assert_eq!(frame_size(199), Err(ConfigError::FrameTooShort));
    assert_eq!(frame_size(100), Err(ConfigError::FrameTooShort));
    assert_eq!(frame_size(0), Err(ConfigError::FrameTooShort));
}

#[test]
fn partial_frame_is_not_counted() {
    assert_eq!(num_frames(16000, 160), 100);
    assert_eq!(num_frames(16159, 160), 100);
    assert_eq!(num_frames(16160, 160), 101);
    assert_eq!(num_frames(159, 160), 0);
    assert_eq!(num_frames(0, 160), 0);
}

#[test]
fn frames_follow_each_other_without_overlap() {
    let samples: Vec<i32> = (0..10).collect();
    assert_eq!(frame(&samples, 3, 0), Some(&samples[0..3]));
    assert_eq!(frame(&samples, 3, 1), Some(&samples[3..6]));
    assert_eq!(frame(&samples, 3, 2), Some(&samples[6..9]));
    assert_eq!(frame(&samples, 3, 3), None);
    assert_eq!(frame(&samples, 3, usize::MAX), None);
}

#[test]
fn trailing_samples_belong_to_no_frame() {
    let mut samples: Vec<i32> = (0..9).collect();
    let whole: Vec<Vec<i32>> =
        (0..num_frames(samples.len(), 3)).map(|i| frame(&samples, 3, i).unwrap().to_vec()).collect();
    samples.push(77);
    samples.push(-5);
    let with_tail: Vec<Vec<i32>> =
        (0..num_frames(samples.len(), 3)).map(|i| frame(&samples, 3, i).unwrap().to_vec()).collect();
    assert_eq!(whole, with_tail);
    assert_eq!(whole.len(), 3);
}

#[test]
fn buffer_shorter_than_a_frame_has_no_frame() {
    let samples = [1.5f32; 100];
    assert_eq!(num_frames(samples.len(), 160), 0);
    assert_eq!(frame(&samples, 160, 0), None);
}
