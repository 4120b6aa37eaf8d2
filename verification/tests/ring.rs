use loop_studio::audio::ring::{fill_output, open_ring, room_left, send, RING_BUFFER_SAMPLES};

#[test]
fn samples_come_out_in_the_order_they_went_in() {
    let (mut p, mut c) = open_ring();
    assert_eq!(send(&mut p, &[1, 2, 3]), 0);
    assert_eq!(send(&mut p, &[4]), 0);
    let mut out = [9u32; 3];
    assert_eq!(fill_output(&mut c, &mut out), 3);
    assert_eq!(out, [1, 2, 3]);
    assert_eq!(fill_output(&mut c, &mut out), 1);
    assert_eq!(out, [4, 0, 0]);
}

#[test]
fn a_dry_queue_is_silence() {
    let (_p, mut c) = open_ring();
    let mut out = [7u32; 5];
    assert_eq!(fill_output(&mut c, &mut out), 0);
    assert_eq!(out, [0; 5]);
    assert_eq!(f32::from_bits(out[0]), 0.0);
}

#[test]
fn nothing_is_lost_where_there_is_room() {
    let (mut p, mut c) = open_ring();
    assert_eq!(RING_BUFFER_SAMPLES, 16384);
    assert_eq!(room_left(&mut p), 16384);
    let samples: Vec<u32> = (0..16000).collect();
    assert_eq!(send(&mut p, &samples), 0);
    assert_eq!(room_left(&mut p), 384);
    let more: Vec<u32> = (0..500).collect();
    assert_eq!(send(&mut p, &more), 500 - 384);
    assert_eq!(room_left(&mut p), 0);
    let mut out = vec![0u32; 16384];
    assert_eq!(fill_output(&mut c, &mut out), 16384);
    assert_eq!(out[15999], 15999);
    assert_eq!(out[16000], 0);
    assert_eq!(out[16383], 383);
    assert_eq!(room_left(&mut p), 16384);
}

#[test]
fn what_waits_is_taken_before_silence() {
    let (mut p, mut c) = open_ring();
    let samples: Vec<u32> = (1..=10_000).collect();
    assert_eq!(send(&mut p, &samples), 0);
    let mut heard = Vec::new();
    for len in [1usize, 0, 4999, 5000, 3] {
        let mut out = vec![7u32; len];
        let n = fill_output(&mut c, &mut out);
        assert_eq!(n, len.min(10_000 - heard.len()));
        heard.extend_from_slice(&out[..n]);
        assert!(out[n..].iter().all(|b| *b == 0));
    }
    assert_eq!(heard, samples);
}
