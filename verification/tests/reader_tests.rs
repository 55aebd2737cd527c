use rewind_input::{BufferInput, MemSource};

fn reader(data: &[u8]) -> BufferInput<MemSource> {
    BufferInput::new(MemSource::new(data.to_vec()))
}

#[test]
fn scenario_overlapping_checkpoints() {
    let mut b = reader(b"ABCDEFGH");
    let cp0 = b.set_checkpoint();
    assert_eq!(cp0, 0);
    assert_eq!(b.read(3), b"ABC".to_vec());
    assert_eq!(b.position(), 3);
    let cp1 = b.set_checkpoint();
    assert_eq!(cp1, 3);
    assert_eq!(b.read(2), b"DE".to_vec());
    assert_eq!(b.position(), 5);
    b.rewind(cp1);
    assert_eq!(b.position(), 3);
    // "DE" replayed from the ledger, "F" fresh from the source
    assert_eq!(b.read(3), b"DEF".to_vec());
    assert_eq!(b.position(), 6);
    b.rewind(cp0);
    assert_eq!(b.position(), 0);
    // fully replayed
    assert_eq!(b.read(4), b"ABCD".to_vec());
    // cp1's single reference was already released: rewinding it again
    // would violate the rewind contract (fatal in a live run)
    assert_eq!(b.checkpoint_count(cp1), 0);
}

#[test]
fn replay_returns_first_consumption() {
    let mut b = reader(b"0123456789");
    assert_eq!(b.read(2), b"01".to_vec());
    let cp = b.set_checkpoint();
    let first = b.read(4);
    assert_eq!(first, b"2345".to_vec());
    b.rewind(cp);
    let second = b.read(4);
    assert_eq!(second, first);
}

#[test]
fn no_checkpoint_means_no_retention() {
    let mut b = reader(b"abcdefgh");
    assert_eq!(b.read(5), b"abcde".to_vec());
    assert_eq!(b.buffered_len(), 0);
}

#[test]
fn retention_collapses_after_release_and_consumption() {
    let mut b = reader(b"abcdefgh");
    let cp = b.set_checkpoint();
    assert_eq!(b.read(3), b"abc".to_vec());
    assert_eq!(b.buffered_len(), 3);
    b.rewind(cp);
    // replaying past the stale bytes drops them for good
    assert_eq!(b.read(3), b"abc".to_vec());
    assert_eq!(b.buffered_len(), 0);
}

#[test]
fn double_mark_needs_double_rewind() {
    let mut b = reader(b"wxyz");
    let cp_a = b.set_checkpoint();
    let cp_b = b.set_checkpoint();
    assert_eq!(cp_a, cp_b);
    assert_eq!(b.checkpoint_count(cp_a), 2);
    assert_eq!(b.read(2), b"wx".to_vec());
    b.rewind(cp_a);
    // one reference still active: bytes stay replayable
    assert_eq!(b.checkpoint_count(cp_a), 1);
    assert_eq!(b.read(2), b"wx".to_vec());
    assert_eq!(b.buffered_len(), 2);
    b.rewind(cp_b);
    assert_eq!(b.checkpoint_count(cp_a), 0);
    // with no reference left the replayed bytes are dropped as read
    assert_eq!(b.read(2), b"wx".to_vec());
    assert_eq!(b.buffered_len(), 0);
}

#[test]
fn read_past_end_returns_remainder() {
    let mut b = reader(b"xyz");
    assert_eq!(b.read(10), b"xyz".to_vec());
    assert_eq!(b.read(1), b"".to_vec());
    assert_eq!(b.position(), 3);
}

#[test]
fn fresh_bytes_recorded_only_while_marked() {
    let mut b = reader(b"123456");
    assert_eq!(b.read(2), b"12".to_vec());
    assert_eq!(b.buffered_len(), 0);
    let cp = b.set_checkpoint();
    assert_eq!(b.read(2), b"34".to_vec());
    assert_eq!(b.buffered_len(), 2);
    b.rewind(cp);
    assert_eq!(b.position(), 2);
}

#[test]
fn read_buffered_serves_only_retained_bytes() {
    let mut b = reader(b"hello world");
    let cp = b.set_checkpoint();
    assert_eq!(b.read(5), b"hello".to_vec());
    b.rewind(cp);
    // everything requested is retained: no fresh fetch needed
    assert_eq!(b.read_buffered(5), b"hello".to_vec());
    // the ledger runs out after the retained range
    assert_eq!(b.read_buffered(5), b"".to_vec());
}

#[test]
fn accept_fresh_records_and_advances() {
    let mut b = reader(b"");
    let _cp = b.set_checkpoint();
    b.accept_fresh(&[7, 8, 9]);
    assert_eq!(b.position(), 3);
    assert_eq!(b.buffered_len(), 3);
}

#[test]
fn source_is_fetched_at_most_once() {
    let mut b = reader(b"ABCDEFGH");
    let cp = b.set_checkpoint();
    assert_eq!(b.read(4), b"ABCD".to_vec());
    b.rewind(cp);
    // the replay is served from the ledger, not the source
    assert_eq!(b.read(4), b"ABCD".to_vec());
    assert_eq!(b.read(2), b"EF".to_vec());
    let src = b.into_inner();
    // offsets 0..6 were each pulled exactly once
    assert_eq!(src.tell(), 6);
}

#[test]
fn new_and_into_inner_round_trip() {
    let src = MemSource::new(b"abc".to_vec());
    let b = BufferInput::new(src.clone());
    assert_eq!(b.position(), 0);
    let back = b.into_inner();
    assert_eq!(back, src);
}

#[test]
fn interleaved_checkpoints_replay_each_range() {
    let mut b = reader(b"ABCDEFGH");
    let cp0 = b.set_checkpoint();
    assert_eq!(b.read(2), b"AB".to_vec());
    let cp2 = b.set_checkpoint();
    assert_eq!(b.read(2), b"CD".to_vec());
    b.rewind(cp0);
    assert_eq!(b.read(2), b"AB".to_vec());
    b.rewind(cp2);
    assert_eq!(b.read(2), b"CD".to_vec());
}
