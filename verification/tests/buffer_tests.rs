use ozeecubed::buffer::SampleBuffer;

#[test]
fn test_new_buffer_is_empty() {
    let buffer = SampleBuffer::new();
    assert_eq!(buffer.len(), 0);
    assert!(buffer.samples().is_empty());
}

#[test]
fn test_append_within_the_bound_keeps_all() {
    let mut buffer = SampleBuffer::new();
    buffer.append(&[1, 2, 3], 0);
    assert_eq!(buffer.samples(), &vec![1, 2, 3]);
    buffer.append(&[4, 5], 0);
    assert_eq!(buffer.samples(), &vec![1, 2, 3, 4, 5]);
    assert_eq!(buffer.len(), 5);
}

#[test]
fn test_append_drops_the_oldest_beyond_the_bound() {
    let mut buffer = SampleBuffer::new();
    let samples: Vec<i32> = (0..300).collect();
    // one screen of 5 samples and the margin of 200
    buffer.append(&samples, 5);
    assert_eq!(buffer.len(), 205);
    let expected: Vec<i32> = (95..300).collect();
    assert_eq!(buffer.samples(), &expected);

    buffer.append(&[300, 301], 5);
    let expected: Vec<i32> = (97..302).collect();
    assert_eq!(buffer.samples(), &expected);
}

#[test]
fn test_append_at_the_bound_exactly() {
    let mut buffer = SampleBuffer::new();
    let samples: Vec<i32> = (0..200).collect();
    buffer.append(&samples, 0);
    assert_eq!(buffer.len(), 200);
    assert_eq!(buffer.samples()[0], 0);
    buffer.append(&[200], 0);
    assert_eq!(buffer.len(), 200);
    assert_eq!(buffer.samples()[0], 1);
    assert_eq!(buffer.samples()[199], 200);
}

#[test]
fn test_append_of_more_than_the_bound_keeps_the_newest() {
    let mut buffer = SampleBuffer::new();
    buffer.append(&[-1, -2, -3], 10);
    let samples: Vec<i32> = (0..1000).collect();
    buffer.append(&samples, 10);
    let expected: Vec<i32> = (790..1000).collect();
    assert_eq!(buffer.samples(), &expected);
}

#[test]
fn test_append_of_nothing_changes_nothing() {
    let mut buffer = SampleBuffer::new();
    let samples: Vec<i32> = (0..500).collect();
    buffer.append(&samples, 300);
    assert_eq!(buffer.len(), 500);
    // The screen got smaller, but nothing arrived: the buffer stays.
    buffer.append(&[], 0);
    assert_eq!(buffer.len(), 500);
    assert_eq!(buffer.samples(), &samples);
    // The next sample brings it down to the bound.
    buffer.append(&[500], 0);
    assert_eq!(buffer.len(), 200);
    let expected: Vec<i32> = (301..501).collect();
    assert_eq!(buffer.samples(), &expected);
}

#[test]
fn test_append_with_the_largest_screen() {
    let mut buffer = SampleBuffer::new();
    let samples: Vec<i32> = (0..1000).collect();
    buffer.append(&samples, usize::MAX);
    assert_eq!(buffer.len(), 1000);
    buffer.append(&samples, usize::MAX - 200);
    assert_eq!(buffer.len(), 2000);
    buffer.append(&samples, usize::MAX - 199);
    assert_eq!(buffer.len(), 3000);
}

#[test]
fn test_buffer_never_grows_beyond_a_screen_and_the_margin() {
    let mut buffer = SampleBuffer::new();
    for round in 0..50 {
        let chunk: Vec<i32> = (0..37).map(|i| round * 37 + i).collect();
        buffer.append(&chunk, 480);
        assert!(buffer.len() <= 680);
        assert_eq!(*buffer.samples().last().unwrap(), round * 37 + 36);
    }
    assert_eq!(buffer.len(), 680);
    // never reordered
    let held = buffer.samples();
    for i in 1..held.len() {
        assert_eq!(held[i], held[i - 1] + 1);
    }
}
