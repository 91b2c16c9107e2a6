use ddshark::defrag_buf::{DefragBuf, DefragError};

#[test]
fn defrag_buf_test() {
    {
        let mut buf = DefragBuf::new(10);

        let free_invs: Vec<_> = buf.free_intervals();
        assert_eq!(free_invs, vec![0..10]);

        buf.insert(0..10).unwrap();
        let free_invs: Vec<_> = buf.free_intervals();
        assert!(free_invs.is_empty());
    }

    {
        let mut buf = DefragBuf::new(10);
        buf.insert(1..6).unwrap();
        assert!(buf.insert(3..4).is_err());
        let free_invs: Vec<_> = buf.free_intervals();
        assert_eq!(free_invs, vec![0..1, 6..10]);
    }

    {
        let mut buf = DefragBuf::new(10);

        buf.insert(1..2).unwrap();
        let free_invs: Vec<_> = buf.free_intervals();
        assert_eq!(free_invs, vec![0..1, 2..10]);

        buf.insert(2..4).unwrap();
        let free_invs: Vec<_> = buf.free_intervals();
        assert_eq!(free_invs, vec![0..1, 4..10]);

        buf.insert(9..10).unwrap();
        let free_invs: Vec<_> = buf.free_intervals();
        assert_eq!(free_invs, vec![0..1, 4..9]);

        buf.insert(6..7).unwrap();
        let free_invs: Vec<_> = buf.free_intervals();
        assert_eq!(free_invs, vec![0..1, 4..6, 7..9]);

        buf.insert(8..9).unwrap();
        let free_invs: Vec<_> = buf.free_intervals();
        assert_eq!(free_invs, vec![0..1, 4..6, 7..8]);

        buf.insert(4..6).unwrap();
        let free_invs: Vec<_> = buf.free_intervals();
        assert_eq!(free_invs, vec![0..1, 7..8]);

        buf.insert(0..1).unwrap();
        let free_invs: Vec<_> = buf.free_intervals();
        assert_eq!(free_invs, vec![7..8]);

        buf.insert(7..8).unwrap();
        let free_invs: Vec<_> = buf.free_intervals();
        assert!(free_invs.is_empty());
    }
}

#[test]
fn defrag_errors_name_their_cause() {
    let mut buf = DefragBuf::new(10);
    assert_eq!(buf.insert(4..4), Err(DefragError::InvalidRange));
    assert_eq!(buf.insert(5..3), Err(DefragError::InvalidRange));
    assert_eq!(buf.insert(8..11), Err(DefragError::ExceedsLimit));
    buf.insert(2..5).unwrap();
    assert_eq!(buf.insert(4..6), Err(DefragError::NotFree));
    assert_eq!(buf.free_intervals(), vec![0..2, 5..10]);
}

#[test]
fn overlapping_range_is_never_recorded_twice() {
    for start in 0..16usize {
        for end in (start + 1)..=16 {
            let mut buf = DefragBuf::new(16);
            buf.insert(3..9).unwrap();
            let r = buf.insert(start..end);
            if start < 9 && 3 < end {
                assert_eq!(r, Err(DefragError::NotFree));
            } else {
                assert_eq!(r, Ok(()));
            }
        }
    }
}

#[test]
fn full_after_every_position_arrives() {
    let mut buf = DefragBuf::new(3);
    assert!(!buf.is_full());
    buf.insert(0..1).unwrap();
    buf.insert(2..3).unwrap();
    assert!(!buf.is_full());
    buf.insert(1..2).unwrap();
    assert!(buf.is_full());
    assert_eq!(buf.len(), 3);
}

#[test]
fn empty_buffer_is_full_from_the_start() {
    let mut buf = DefragBuf::new(0);
    assert!(buf.is_full());
    assert_eq!(buf.insert(0..1), Err(DefragError::ExceedsLimit));
}
