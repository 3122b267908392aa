use vban_emitter::ring::ByteRing;

fn contents(r: &mut ByteRing) -> Vec<u8> {
    let n = r.len();
    r.pop_front_n(n)
}

#[test]
fn push_with_room_appends() {
    let mut r = ByteRing::with_capacity(8);
    assert_eq!(r.push_drop_oldest(&[1, 2, 3], 2), 0);
    assert_eq!(r.push_drop_oldest(&[4, 5], 2), 0);
    assert_eq!(r.len(), 5);
    assert_eq!(contents(&mut r), vec![1, 2, 3, 4, 5]);
}

#[test]
fn push_drops_oldest_in_units() {
    let mut r = ByteRing::with_capacity(8);
    r.push_drop_oldest(&[1, 2, 3, 4, 5, 6, 7], 2);
    // 7 + 3 > 8: one round of 2 oldest bytes is enough
    let e = r.push_drop_oldest(&[8, 9, 10], 2);
    assert_eq!(e, 1);
    assert_eq!(contents(&mut r), vec![3, 4, 5, 6, 7, 8, 9, 10]);
}

#[test]
fn push_drops_several_rounds() {
    let mut r = ByteRing::with_capacity(8);
    r.push_drop_oldest(&[1, 2, 3, 4, 5, 6, 7, 8], 2);
    let e = r.push_drop_oldest(&[9, 10, 11, 12, 13], 2);
    // excess 5 bytes: three rounds of 2
    assert_eq!(e, 3);
    assert_eq!(contents(&mut r), vec![7, 8, 9, 10, 11, 12, 13]);
}

#[test]
fn push_last_round_takes_what_is_left() {
    let mut r = ByteRing::with_capacity(4);
    r.push_drop_oldest(&[1, 2, 3], 8);
    let e = r.push_drop_oldest(&[4, 5], 8);
    assert_eq!(e, 1);
    assert_eq!(contents(&mut r), vec![4, 5]);
}

#[test]
fn push_whole_capacity_empties_ring() {
    let mut r = ByteRing::with_capacity(4);
    r.push_drop_oldest(&[1, 2, 3, 4], 1);
    let e = r.push_drop_oldest(&[5, 6, 7, 8], 1);
    assert_eq!(e, 4);
    assert_eq!(contents(&mut r), vec![5, 6, 7, 8]);
}

#[test]
fn pop_front_is_fifo() {
    let mut r = ByteRing::with_capacity(16);
    r.push_drop_oldest(&[10, 20, 30, 40, 50], 4);
    assert_eq!(r.pop_front_n(2), vec![10, 20]);
    assert_eq!(r.pop_front_n(0), Vec::<u8>::new());
    assert_eq!(r.pop_front_n(3), vec![30, 40, 50]);
    assert_eq!(r.len(), 0);
    assert_eq!(r.capacity(), 16);
}

#[test]
fn empty_push_into_full_ring_drops_nothing() {
    let mut r = ByteRing::with_capacity(3);
    r.push_drop_oldest(&[1, 2, 3], 0);
    assert_eq!(r.push_drop_oldest(&[], 0), 0);
    assert_eq!(contents(&mut r), vec![1, 2, 3]);
}

#[test]
fn push_longer_than_capacity_keeps_newest() {
    let mut r = ByteRing::with_capacity(4);
    r.push_drop_oldest(&[1, 2], 1);
    // two rounds empty the queue, one more drop cuts the incoming bytes
    let e = r.push_drop_oldest(&[3, 4, 5, 6, 7, 8], 1);
    assert_eq!(e, 3);
    assert_eq!(contents(&mut r), vec![5, 6, 7, 8]);
}

#[test]
fn push_into_zero_capacity() {
    let mut r = ByteRing::with_capacity(0);
    assert_eq!(r.push_drop_oldest(&[1, 2, 3], 4), 1);
    assert_eq!(r.len(), 0);
}

#[test]
fn zero_unit_discards_whole_queue_in_one_round() {
    let mut r = ByteRing::with_capacity(5);
    r.push_drop_oldest(&[1, 2, 3, 4], 0);
    assert_eq!(r.push_drop_oldest(&[5, 6], 0), 1);
    assert_eq!(contents(&mut r), vec![5, 6]);
}
