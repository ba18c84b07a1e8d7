use ozeecubed::capture::{
    mix_to_mono, push_frames, read_samples, SampleRing, BUFFER_SIZE, MAX_RING_CAPACITY,
};

#[test]
fn test_there_is_no_ring_of_capacity_zero() {
    assert!(SampleRing::new(0).is_none());
    assert!(SampleRing::new(1).is_some());
    assert!(SampleRing::new(BUFFER_SIZE).is_some());
}

#[test]
fn test_there_is_no_ring_beyond_the_largest_capacity() {
    assert!(SampleRing::new(MAX_RING_CAPACITY + 1).is_none());
    assert!(SampleRing::new(usize::MAX).is_none());
}

#[test]
fn test_a_new_ring_is_empty() {
    let mut ring = SampleRing::new(8).unwrap();
    assert!(read_samples(&mut ring, usize::MAX).is_empty());
    assert!(read_samples(&mut ring, 0).is_empty());
}

#[test]
fn test_mix_to_mono_takes_the_mean_of_each_frame() {
    assert_eq!(mix_to_mono(&[1, 2, 3, 4, 5, 6], 1), vec![1, 2, 3, 4, 5, 6]);
    // 3 / 2, 7 / 2, 11 / 2
    assert_eq!(mix_to_mono(&[1, 2, 3, 4, 5, 6], 2), vec![1, 3, 5]);
    assert_eq!(mix_to_mono(&[1, 2, 3, 4, 5, 6], 3), vec![2, 5]);
    assert_eq!(mix_to_mono(&[10, 30, -10, -30], 2), vec![20, -20]);
    assert!(mix_to_mono(&[], 2).is_empty());
}

#[test]
fn test_mix_to_mono_rounds_toward_zero() {
    assert_eq!(mix_to_mono(&[-1, -2], 2), vec![-1]);
    assert_eq!(mix_to_mono(&[1, 2], 2), vec![1]);
    assert_eq!(mix_to_mono(&[-1, 0], 2), vec![0]);
    assert_eq!(mix_to_mono(&[-2, -2, -3], 3), vec![-2]);
}

#[test]
fn test_mix_to_mono_of_a_frame_cut_short() {
    assert_eq!(mix_to_mono(&[10, 20, 30], 2), vec![15, 30]);
    assert_eq!(mix_to_mono(&[10, 20, 30, 40, 50], 3), vec![20, 45]);
    assert_eq!(mix_to_mono(&[7], 6), vec![7]);
}

#[test]
fn test_mix_to_mono_at_the_limits() {
    assert_eq!(mix_to_mono(&[i32::MAX, i32::MAX], 2), vec![i32::MAX]);
    assert_eq!(mix_to_mono(&[i32::MIN, i32::MIN], 2), vec![i32::MIN]);
    assert_eq!(mix_to_mono(&[i32::MIN, i32::MAX], 2), vec![0]);
    let loud = vec![i32::MAX; 65_535];
    assert_eq!(mix_to_mono(&loud, u16::MAX), vec![i32::MAX]);
    let low = vec![i32::MIN; 65_535];
    assert_eq!(mix_to_mono(&low, u16::MAX), vec![i32::MIN]);
}

#[test]
fn test_push_then_read_gives_the_samples_in_order() {
    let mut ring = SampleRing::new(8).unwrap();
    assert_eq!(push_frames(&mut ring, &[1, 2, 3], 1), 3);
    assert_eq!(push_frames(&mut ring, &[4, 6, 8, 10], 2), 2);
    assert_eq!(read_samples(&mut ring, usize::MAX), vec![1, 2, 3, 5, 9]);
    assert!(read_samples(&mut ring, usize::MAX).is_empty());
}

#[test]
fn test_a_full_ring_refuses_what_is_beyond_its_room() {
    let mut ring = SampleRing::new(2).unwrap();
    assert_eq!(push_frames(&mut ring, &[1, 2, 3], 1), 2);
    assert_eq!(push_frames(&mut ring, &[4], 1), 0);
    assert_eq!(read_samples(&mut ring, usize::MAX), vec![1, 2]);
    assert_eq!(push_frames(&mut ring, &[5, 6, 7], 1), 2);
    assert_eq!(read_samples(&mut ring, usize::MAX), vec![5, 6]);
}

#[test]
fn test_read_takes_no_more_than_asked_for() {
    let mut ring = SampleRing::new(8).unwrap();
    assert_eq!(push_frames(&mut ring, &[1, 2, 3, 4, 5], 1), 5);
    assert!(read_samples(&mut ring, 0).is_empty());
    assert_eq!(read_samples(&mut ring, 3), vec![1, 2, 3]);
    assert_eq!(read_samples(&mut ring, 10), vec![4, 5]);
    assert!(read_samples(&mut ring, 10).is_empty());
}

#[test]
fn test_room_comes_back_after_a_read() {
    let mut ring = SampleRing::new(3).unwrap();
    assert_eq!(push_frames(&mut ring, &[1, 2, 3], 1), 3);
    assert_eq!(read_samples(&mut ring, 2), vec![1, 2]);
    assert_eq!(push_frames(&mut ring, &[4, 5, 6], 1), 2);
    assert_eq!(read_samples(&mut ring, usize::MAX), vec![3, 4, 5]);
    // many rounds through the same ring keep the order
    let mut next = 0;
    let mut expected = 0;
    for _ in 0..100 {
        let pushed = push_frames(&mut ring, &[next, next + 1], 1);
        next += pushed as i32;
        for sample in read_samples(&mut ring, 1) {
            assert_eq!(sample, expected);
            expected += 1;
        }
    }
    for sample in read_samples(&mut ring, usize::MAX) {
        assert_eq!(sample, expected);
        expected += 1;
    }
    assert_eq!(expected, next);
}

#[test]
fn test_push_of_nothing() {
    let mut ring = SampleRing::new(4).unwrap();
    assert_eq!(push_frames(&mut ring, &[], 2), 0);
    assert!(read_samples(&mut ring, usize::MAX).is_empty());
}

#[test]
fn test_one_second_fills_the_ring() {
    let mut ring = SampleRing::new(BUFFER_SIZE).unwrap();
    let second: Vec<i32> = (0..48_100).collect();
    assert_eq!(push_frames(&mut ring, &second, 1), 48_000);
    let read = read_samples(&mut ring, usize::MAX);
    assert_eq!(read.len(), 48_000);
    assert_eq!(read[..], second[..48_000]);
}
