use acpe::buf_writer::{combine, zeroed, BufError, BufWriter, SeekStyle};

#[test]
fn write_fills_the_buffer_from_the_start() {
    let mut w = BufWriter::new(vec![0, 0, 0, 0]);
    assert_eq!(w.write(&[0, 1, 2]), Ok(()));
    assert_eq!(w.tell(), 3);
    assert_eq!(w.into_slice(), vec![0, 1, 2, 0]);
}

#[test]
fn write_past_the_end_is_refused_and_changes_nothing() {
    let mut w = BufWriter::new(vec![9, 9, 9]);
    assert_eq!(w.write(&[1, 2]), Ok(()));
    assert_eq!(w.write(&[3, 4]), Err(BufError::PastEnd));
    assert_eq!(w.tell(), 2);
    assert_eq!(w.write(&[5]), Ok(()));
    assert_eq!(w.into_slice(), vec![1, 2, 5]);
}

#[test]
fn seek_moves_the_position() {
    let mut w = BufWriter::new(vec![0; 8]);
    assert_eq!(w.seek(3, SeekStyle::SeekSet), Ok(()));
    assert_eq!(w.tell(), 3);
    assert_eq!(w.seek(2, SeekStyle::SeekCur), Ok(()));
    assert_eq!(w.tell(), 5);
    assert_eq!(w.seek(-1, SeekStyle::SeekEnd), Ok(()));
    assert_eq!(w.tell(), 7);
    assert_eq!(w.write(&[7]), Ok(()));
    assert_eq!(w.seek(-9, SeekStyle::SeekEnd), Err(BufError::NegativeSeek));
    assert_eq!(w.tell(), 8);
    assert_eq!(w.into_slice(), vec![0, 0, 0, 0, 0, 0, 0, 7]);
}

#[test]
fn combine_adds_the_offset_to_its_base() {
    assert_eq!(combine(SeekStyle::SeekSet, 4, 10, 6), Ok(6));
    assert_eq!(combine(SeekStyle::SeekEnd, 4, 10, -3), Ok(7));
    assert_eq!(combine(SeekStyle::SeekCur, 4, 10, 1), Ok(5));
    assert_eq!(combine(SeekStyle::SeekCur, 4, 10, -5), Err(BufError::NegativeSeek));
    assert_eq!(combine(SeekStyle::SeekSet, 0, 0, 0), Ok(0));
    assert_eq!(combine(SeekStyle::SeekSet, 4, 10, -1), Err(BufError::NegativeSeek));
    assert_eq!(
        combine(SeekStyle::SeekCur, usize::MAX, 10, i64::MAX),
        if usize::BITS == 64 { Err(BufError::SeekOverflow) } else { Ok(usize::MAX as u64 + i64::MAX as u64) }
    );
    assert_eq!(combine(SeekStyle::SeekEnd, 0, 10, i64::MAX), Ok(10 + i64::MAX as u64));
}

#[test]
fn a_seek_beyond_the_end_leaves_no_room() {
    let mut w = BufWriter::new(vec![1, 2]);
    assert_eq!(w.seek(5, SeekStyle::SeekEnd), Ok(()));
    assert_eq!(w.tell(), 7);
    assert_eq!(w.write(&[9]), Err(BufError::PastEnd));
    assert_eq!(w.write(&[]), Ok(()));
    assert_eq!(w.seek(0, SeekStyle::SeekSet), Ok(()));
    assert_eq!(w.filled(), &[] as &[u8]);
    assert_eq!(w.write(&[9]), Ok(()));
    assert_eq!(w.filled(), &[9u8][..]);
    assert_eq!(w.into_slice(), vec![9, 2]);
}

#[test]
fn a_zeroed_buffer_is_all_zero() {
    assert_eq!(zeroed(0), Vec::<u8>::new());
    assert_eq!(zeroed(3), vec![0, 0, 0]);
}
