use rewind_input::{BufferInput, MemSource, SeekInput};

#[test]
fn seek_reader_scenario_matches_spec() {
    let mut s = SeekInput::new(MemSource::new(b"ABCDEFGH".to_vec()));
    let cp0 = s.set_checkpoint();
    assert_eq!(cp0, 0);
    assert_eq!(s.read(3), b"ABC".to_vec());
    assert_eq!(s.position(), 3);
    let cp1 = s.set_checkpoint();
    assert_eq!(cp1, 3);
    assert_eq!(s.read(2), b"DE".to_vec());
    s.rewind(cp1);
    assert_eq!(s.position(), 3);
    assert_eq!(s.read(3), b"DEF".to_vec());
    s.rewind(cp0);
    assert_eq!(s.read(4), b"ABCD".to_vec());
}

#[test]
fn peers_produce_identical_byte_sequences() {
    // the same script against both reader variants, byte for byte
    let data = b"The quick brown fox";
    let mut b = BufferInput::new(MemSource::new(data.to_vec()));
    let mut s = SeekInput::new(MemSource::new(data.to_vec()));

    let bc0 = b.set_checkpoint();
    let sc0 = s.set_checkpoint();
    assert_eq!(bc0, sc0);
    assert_eq!(b.read(4), s.read(4));
    let bc1 = b.set_checkpoint();
    let sc1 = s.set_checkpoint();
    assert_eq!(bc1, sc1);
    assert_eq!(b.read(6), s.read(6));
    b.rewind(bc1);
    s.rewind(sc1);
    assert_eq!(b.position(), s.position());
    assert_eq!(b.read(8), s.read(8));
    b.rewind(bc0);
    s.rewind(sc0);
    assert_eq!(b.read(19), s.read(19));
    assert_eq!(b.read(1), s.read(1));
}

#[test]
fn seek_new_and_into_inner_round_trip() {
    let src = MemSource::new(b"zz".to_vec());
    let s = SeekInput::new(src.clone());
    let back = s.into_inner();
    assert_eq!(back, src);
}

#[test]
fn source_reads_forward_and_seeks() {
    let mut m = MemSource::new(b"hello".to_vec());
    assert_eq!(m.len(), 5);
    assert_eq!(m.tell(), 0);
    assert_eq!(m.read_up_to(2), b"he".to_vec());
    assert_eq!(m.tell(), 2);
    assert_eq!(m.read_up_to(9), b"llo".to_vec());
    assert_eq!(m.tell(), 5);
    assert_eq!(m.read_up_to(1), b"".to_vec());
    m.seek_to(1);
    assert_eq!(m.read_up_to(3), b"ell".to_vec());
}
