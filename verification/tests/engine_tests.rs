use clack::engine::{admit_voice, fixed_buffer_frames, MAX_VOICES};

#[test]
fn voices_are_added_in_order() {
    let mut v: Vec<u32> = Vec::new();
    admit_voice(&mut v, 1);
    admit_voice(&mut v, 2);
    assert_eq!(v, vec![1, 2]);
}

#[test]
fn full_pool_drops_the_oldest() {
    let mut v: Vec<usize> = (0..MAX_VOICES).collect();
    admit_voice(&mut v, 1000);
    assert_eq!(v.len(), MAX_VOICES);
    assert_eq!(v[0], 1);
    assert_eq!(*v.last().unwrap(), 1000);
}

#[test]
fn pool_never_exceeds_the_limit() {
    let mut v: Vec<usize> = Vec::new();
    for i in 0..500 {
        admit_voice(&mut v, i);
        assert!(v.len() <= MAX_VOICES);
    }
    assert_eq!(v[0], 500 - MAX_VOICES);
}

#[test]
fn buffer_size_is_clamped() {
    assert_eq!(fixed_buffer_frames(64, 4096), 256);
    assert_eq!(fixed_buffer_frames(512, 4096), 512);
    assert_eq!(fixed_buffer_frames(16, 128), 128);
    assert_eq!(fixed_buffer_frames(256, 256), 256);
}
