use rewind_input::Buffer;

#[test]
fn empty_ledger_is_idle() {
    let b = Buffer::default();
    assert!(!b.is_recording());
    assert_eq!(b.end(), 0);
    assert_eq!(b.first_checkpoint(), 0);
    assert_eq!(b.retained_len(), 0);
}

#[test]
fn push_extends_the_retained_range() {
    let mut b = Buffer::default();
    b.push(&[1, 2, 3]);
    assert_eq!(b.end(), 3);
    assert_eq!(b.retained_len(), 3);
}

#[test]
fn first_checkpoint_is_the_earliest_mark() {
    let mut b = Buffer::default();
    b.set_checkpoint(0);
    b.push(&[9, 9, 9, 9, 9]);
    b.set_checkpoint(4);
    assert!(b.is_recording());
    assert_eq!(b.first_checkpoint(), 0);
    b.rewind(0);
    assert_eq!(b.first_checkpoint(), 4);
}

#[test]
fn pop_never_crosses_the_frontier() {
    let mut b = Buffer::default();
    b.set_checkpoint(0);
    b.push(&[10, 20, 30, 40]);
    b.set_checkpoint(2);
    b.rewind(0);
    // bytes 0 and 1 are reclaimable, byte 2 on is protected
    let (n, bytes) = b.pop(0, 4);
    assert_eq!(n, 2);
    assert_eq!(bytes, vec![10, 20]);
    assert_eq!(b.retained_len(), 2);
    assert_eq!(b.end(), 4);
}

#[test]
fn pop_stops_at_the_end_without_checkpoints() {
    let mut b = Buffer::default();
    b.set_checkpoint(0);
    b.push(&[5, 6]);
    b.rewind(0);
    let (n, bytes) = b.pop(0, 10);
    assert_eq!(n, 2);
    assert_eq!(bytes, vec![5, 6]);
    assert_eq!(b.retained_len(), 0);
}

#[test]
fn pop_ref_leaves_the_record_untouched() {
    let mut b = Buffer::default();
    b.set_checkpoint(0);
    b.push(&[7, 8, 9]);
    let (n, bytes) = b.pop_ref(1, 5);
    assert_eq!(n, 2);
    assert_eq!(bytes, vec![8, 9]);
    assert_eq!(b.retained_len(), 3);
    let (m, again) = b.pop_ref(1, 1);
    assert_eq!(m, 1);
    assert_eq!(again, vec![8]);
}

#[test]
fn reference_counts_accumulate_per_offset() {
    let mut b = Buffer::default();
    b.set_checkpoint(3);
    b.set_checkpoint(3);
    assert_eq!(b.count_at(3), 2);
    b.rewind(3);
    assert_eq!(b.count_at(3), 1);
    assert!(b.is_recording());
    b.rewind(3);
    assert_eq!(b.count_at(3), 0);
    assert!(!b.is_recording());
}

#[test]
fn a_fresh_mark_restarts_the_window() {
    let mut b = Buffer::default();
    b.set_checkpoint(0);
    b.push(&[1, 1]);
    b.rewind(0);
    let _ = b.pop(0, 2);
    // no checkpoint active: the next mark restarts the window there
    b.set_checkpoint(2);
    assert_eq!(b.end(), 2);
    assert_eq!(b.first_checkpoint(), 2);
    assert_eq!(b.retained_len(), 0);
}
