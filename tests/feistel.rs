use uuid_index::feistel::{feistel, permute, round_constant_at, unpermute, MASK61};

#[test]
fn round_function_values() {
    assert_eq!(feistel(0, 0), 2143647863993082795);
    assert_eq!(feistel(1, 0), 1796319106218409057);
    assert_eq!(feistel(MASK61, 0), 1132259158812528581);
    assert_eq!(feistel(0, 1), 1047554469250056194);
    assert_eq!(feistel(1, 2), 2183213081810366902);
    assert_eq!(feistel(0, 3), 810145327384588018);
    assert_eq!(feistel(MASK61, 3), 159918686207329407);
}

#[test]
fn round_function_stays_in_61_bits() {
    for block in [0, 1, 12345, MASK61 >> 1, MASK61] {
        for round in 0..8 {
            assert!(feistel(block, round) <= MASK61);
        }
    }
}

#[test]
fn round_constants_table() {
    assert_eq!(round_constant_at(0), 0x47f5417d6b82b5d1);
    assert_eq!(round_constant_at(3), 0x6f4a3c8e7d5b9102);
    assert_eq!(round_constant_at(7), 0x123456789abcdef0);
}

#[test]
fn unpermute_undoes_permute() {
    for (l, r) in [(0, 0), (1, 0), (0, 1), (MASK61, MASK61), (123456789, 987654321)] {
        let (pl, pr) = permute(l, r);
        assert!(pl <= MASK61 && pr <= MASK61);
        assert_ne!((pl, pr), (l, r));
        assert_eq!(unpermute(pl, pr), (l, r));
    }
}
