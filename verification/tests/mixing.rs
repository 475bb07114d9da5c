use tslib::mixing::{mix_saturating, samples_in_span, SampleRing};

#[test]
fn ring_returns_written_samples_in_order() {
    let mut ring = SampleRing::new(8);
    assert_eq!(ring.available(), 0);
    assert!(ring.write(&[1, 2, 3]).is_ok());
    assert_eq!(ring.available(), 3);
    let mut out = [0i16; 2];
    assert_eq!(ring.read(&mut out), 2);
    assert_eq!(out, [1, 2]);
    assert!(ring.write(&[4, 5]).is_ok());
    let mut out = [9i16; 5];
    assert_eq!(ring.read(&mut out), 3);
    assert_eq!(out, [3, 4, 5, 9, 9]);
    assert_eq!(ring.available(), 0);
}

#[test]
fn ring_wraps_around_its_end() {
    let mut ring = SampleRing::new(4);
    ring.write(&[1, 2, 3]).unwrap();
    let mut out = [0i16; 3];
    assert_eq!(ring.read(&mut out), 3);
    ring.write(&[4, 5, 6]).unwrap();
    assert_eq!(ring.available(), 3);
    let mut out = [0i16; 4];
    assert_eq!(ring.read(&mut out), 3);
    assert_eq!(out, [4, 5, 6, 0]);
}

#[test]
fn a_full_turn_of_writes_reads_as_empty() {
    let mut ring = SampleRing::new(4);
    ring.write(&[1, 2, 3, 4]).unwrap();
    assert_eq!(ring.available(), 0);
    ring.write(&[5]).unwrap();
    let mut out = [0i16; 4];
    assert_eq!(ring.read(&mut out), 1);
    assert_eq!(out[0], 5);
}

#[test]
fn overwriting_keeps_the_latest_samples() {
    let mut ring = SampleRing::new(3);
    ring.write(&[1, 2, 3, 4, 5]).unwrap();
    assert_eq!(ring.available(), 2);
    let mut out = [0i16; 3];
    assert_eq!(ring.read(&mut out), 2);
    assert_eq!(out, [4, 5, 0]);
}

#[test]
fn empty_ring_and_empty_output() {
    let mut ring = SampleRing::new(0);
    assert_eq!(ring.slot_count(), 0);
    assert!(ring.write(&[]).is_ok());
    let mut out = [7i16; 2];
    assert_eq!(ring.read(&mut out), 0);
    assert_eq!(out, [7, 7]);
    let mut ring = SampleRing::new(4);
    ring.write(&[1]).unwrap();
    let mut none: [i16; 0] = [];
    assert_eq!(ring.read(&mut none), 0);
    assert_eq!(ring.available(), 1);
}

#[test]
fn mixing_adds_and_clamps() {
    let mut out = [1000i16, 30000, -30000, 5];
    mix_saturating(&mut out, &[500, 5000, -5000, 100], 3);
    assert_eq!(out, [1500, 32767, -32768, 5]);
}

#[test]
fn two_users_mix_to_their_sum() {
    let mut first = SampleRing::new(4800);
    let mut second = SampleRing::new(4800);
    first.write(&[1000i16; 960]).unwrap();
    second.write(&[500i16; 960]).unwrap();
    let mut output = vec![0i16; 960];
    let mut temp = vec![0i16; 960];
    let n = first.read(&mut temp);
    mix_saturating(&mut output, &temp, n);
    let n = second.read(&mut temp);
    mix_saturating(&mut output, &temp, n);
    assert_eq!(output[0], 1500);
    assert_eq!(output[959], 1500);
}

#[test]
fn frame_and_buffer_sizes() {
    assert_eq!(samples_in_span(48000, 20), 960);
    assert_eq!(samples_in_span(48000, 10), 480);
    assert_eq!(samples_in_span(48000, 60), 2880);
    assert_eq!(samples_in_span(44100, 15), 661);
}
