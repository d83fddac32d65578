use playback_engine::feeder::{fill_i16, fill_slots, fill_u16, I16_SILENCE, U16_SILENCE};

#[test]
fn underrun_fills_u16_with_mid_scale() {
    let mut buffer = vec![7u16; 5];
    let pulled = vec![Some(100u16), Some(200u16)];
    let n = fill_u16(&mut buffer, &pulled);
    assert_eq!(n, 2);
    assert_eq!(buffer, vec![100, 200, 32768, 32768, 32768]);
    assert_eq!(U16_SILENCE, 32768);
}

#[test]
fn underrun_fills_i16_with_zero() {
    let mut buffer = vec![-5i16; 4];
    let pulled = vec![Some(-300i16)];
    let n = fill_i16(&mut buffer, &pulled);
    assert_eq!(n, 1);
    assert_eq!(buffer, vec![-300, 0, 0, 0]);
    assert_eq!(I16_SILENCE, 0);
}

#[test]
fn underrun_fills_f32_with_zero() {
    let mut buffer = vec![0.5f32; 3];
    let pulled = vec![Some(0.25f32)];
    let n = fill_slots(&mut buffer, &pulled, 0.0f32);
    assert_eq!(n, 1);
    assert_eq!(buffer, vec![0.25, 0.0, 0.0]);
}

#[test]
fn missing_sample_mid_buffer_is_silent() {
    let mut buffer = vec![1i16; 4];
    let pulled = vec![Some(10i16), None, Some(30i16), Some(40i16)];
    let n = fill_i16(&mut buffer, &pulled);
    assert_eq!(n, 3);
    assert_eq!(buffer, vec![10, 0, 30, 40]);
}

#[test]
fn empty_stream_gives_full_silence() {
    let mut buffer = vec![1u16; 3];
    let n = fill_u16(&mut buffer, &[]);
    assert_eq!(n, 0);
    assert_eq!(buffer, vec![32768, 32768, 32768]);
}

#[test]
fn empty_buffer_takes_nothing() {
    let mut buffer: Vec<i16> = Vec::new();
    let n = fill_i16(&mut buffer, &vec![Some(3i16)]);
    assert_eq!(n, 0);
    assert!(buffer.is_empty());
}

#[test]
fn extra_samples_are_not_written() {
    let mut buffer = vec![0u16; 2];
    let n = fill_u16(&mut buffer, &vec![Some(1u16), Some(2u16), Some(3u16)]);
    assert_eq!(n, 2);
    assert_eq!(buffer, vec![1, 2]);
}
