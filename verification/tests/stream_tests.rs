use vban_emitter::stream::{plan_stream, Streamer, MAX_VBAN_FRAMES};
use vban_emitter::vban::build_packet;

#[test]
fn plan_for_s16_stereo() {
    let p = plan_stream(48000, 2, true, 0, 480);
    assert_eq!(p.channels, 2);
    assert_eq!(p.src_bytes_per_frame, 4);
    assert_eq!(p.vban_bytes_per_frame, 4);
    assert_eq!(p.vban_frames, 256);
    assert_eq!(p.chunk, 1024);
    assert_eq!(p.sr_index, 3);
    assert!(!p.is_float);
}

#[test]
fn plan_for_float_capture() {
    let p = plan_stream(44100, 2, false, 128, 480);
    assert_eq!(p.src_bytes_per_frame, 8);
    assert_eq!(p.vban_bytes_per_frame, 4);
    assert_eq!(p.vban_frames, 128);
    assert_eq!(p.chunk, 512);
    assert_eq!(p.sr_index, 16);
    assert!(p.is_float);
}

#[test]
fn plan_caps_frames() {
    assert_eq!(plan_stream(48000, 1, true, 1000, 0).vban_frames, MAX_VBAN_FRAMES);
    assert_eq!(plan_stream(48000, 1, true, 0, 100).vban_frames, 100);
    assert_eq!(plan_stream(48000, 6, true, 0, 100).chunk, 1200);
    assert_eq!(plan_stream(12345, 0, true, 0, 100).chunk, 0);
}

#[test]
fn packets_are_cut_from_full_chunks() {
    let plan = plan_stream(48000, 1, true, 2, 0); // 2 frames of 2 bytes
    assert_eq!(plan.chunk, 4);
    let mut s = Streamer::new("mic".to_string(), &plan, 16);
    s.push_capture(&[1, 2, 3]);
    assert!(s.next_packet().is_none());
    s.push_capture(&[4, 5, 6, 7, 8, 9]);
    let p0 = s.next_packet().unwrap();
    assert_eq!(p0, build_packet("mic", 3, 1, 0, 2, &[1, 2, 3, 4]));
    let p1 = s.next_packet().unwrap();
    assert_eq!(p1, build_packet("mic", 3, 1, 1, 2, &[5, 6, 7, 8]));
    assert!(s.next_packet().is_none());
    assert_eq!(s.ring_len(), 1);
    assert_eq!(s.frame_counter(), 2);
    assert_eq!(s.total_bytes(), 8);
    assert_eq!(s.total_kb(), 0);
    assert_eq!(s.total_drops(), 0);
}

#[test]
fn overflow_drops_whole_chunks_and_counts_them() {
    let plan = plan_stream(48000, 2, true, 1, 0); // chunk of 4 bytes
    let mut s = Streamer::new("x".to_string(), &plan, 8);
    assert_eq!(s.push_capture(&[1, 2, 3, 4, 5, 6, 7, 8]), 0);
    assert_eq!(s.push_capture(&[9, 10, 11, 12, 13]), 2);
    assert_eq!(s.total_drops(), 2);
    assert_eq!(s.ring_len(), 5);
    let p = s.next_packet().unwrap();
    assert_eq!(&p[28..], &[9, 10, 11, 12]);
    assert_eq!(p[6], 1); // two channels, stored minus one
    assert_eq!(p[5], 0); // one frame, stored minus one
}

#[test]
fn oversized_read_keeps_newest_bytes() {
    let plan = plan_stream(48000, 1, true, 2, 0); // chunk 4
    let mut s = Streamer::new("x".to_string(), &plan, 6);
    s.push_capture(&[1, 2, 3]);
    // 9 bytes into a 6-byte ring: the queue goes in one round, then the
    // three oldest incoming bytes
    assert_eq!(s.push_capture(&[10, 11, 12, 13, 14, 15, 16, 17, 18]), 2);
    assert_eq!(s.total_drops(), 2);
    assert_eq!(s.ring_len(), 6);
    let p = s.next_packet().unwrap();
    assert_eq!(&p[28..], &[13, 14, 15, 16]);
}

#[test]
fn zero_capacity_ring_drops_every_read() {
    let plan = plan_stream(48000, 2, true, 0, 480);
    let mut s = Streamer::new("x".to_string(), &plan, 0);
    assert_eq!(s.push_capture(&[1, 2, 3, 4]), 1);
    assert_eq!(s.push_capture(&[]), 0);
    assert_eq!(s.ring_len(), 0);
    assert_eq!(s.total_drops(), 1);
    assert!(s.next_packet().is_none());
}

#[test]
fn zero_chunk_discards_whole_queue() {
    let plan = plan_stream(48000, 2, true, 0, 0); // chunk 0
    assert_eq!(plan.chunk, 0);
    let mut s = Streamer::new("x".to_string(), &plan, 8);
    s.push_capture(&[1, 2, 3, 4, 5]);
    assert_eq!(s.push_capture(&[6, 7, 8, 9]), 1);
    assert_eq!(s.ring_len(), 4);
    // an empty packet is always ready
    let p = s.next_packet().unwrap();
    assert_eq!(p.len(), 28);
    assert_eq!(s.ring_len(), 4);
}

#[test]
fn capture_len_skips_empty_and_silent_reads() {
    let plan = plan_stream(48000, 2, false, 0, 480); // float: 8 bytes a frame
    let s = Streamer::new("x".to_string(), &plan, 64);
    assert_eq!(s.src_bytes_per_frame(), 8);
    assert_eq!(s.capture_len(10, false), Some(80));
    assert_eq!(s.capture_len(0, false), None);
    assert_eq!(s.capture_len(10, true), None);
}

#[test]
fn kilobytes_round_down() {
    let plan = plan_stream(48000, 2, true, 256, 0); // chunk 1024
    let mut s = Streamer::new("x".to_string(), &plan, 4096);
    s.push_capture(&vec![7u8; 3000]);
    let mut n = 0;
    while s.next_packet().is_some() {
        n += 1;
    }
    assert_eq!(n, 2);
    assert_eq!(s.total_bytes(), 2048);
    assert_eq!(s.total_kb(), 2);
    assert_eq!(s.chunk(), 1024);
    assert_eq!(s.ring_capacity(), 4096);
}
