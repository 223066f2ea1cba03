use std::collections::HashSet;
use uuid_index::identifier::{index_to_uuid, uuid_to_index, UuidError, INDEX_LIMIT};

const LAST: u128 = (1u128 << 122) - 1;

fn uuid(index: u128) -> String {
    index_to_uuid(index).unwrap()
}

fn has_shape(s: &str) -> bool {
    let chars: Vec<char> = s.chars().collect();
    if chars.len() != 36 {
        return false;
    }
    for (i, c) in chars.iter().enumerate() {
        if i == 8 || i == 13 || i == 18 || i == 23 {
            if *c != '-' {
                return false;
            }
        } else if !matches!(c, '0'..='9' | 'a'..='f') {
            return false;
        }
    }
    chars[14] == '4' && matches!(chars[19], '8' | '9' | 'a' | 'b')
}

#[test]
fn golden_index_zero() {
    assert_eq!(uuid(0), "497dcba3-ecbf-4587-a2dd-5eb0665e6880");
}

#[test]
fn golden_last_index() {
    assert_eq!(uuid(LAST), "34d87496-52b1-4fd0-bcea-8264e5776e91");
}

#[test]
fn golden_mid_range() {
    assert_eq!(uuid(1), "50e14f43-dd4e-412f-864d-78943ea28d91");
    assert_eq!(uuid(2), "7edb3b2e-869c-485b-af70-76a934e0fcfd");
    assert_eq!(uuid(42), "e484b3a7-ca17-4587-85e9-c0e178aee072");
    assert_eq!(uuid(12345678901234567890), "d38b49aa-c485-4aa9-9f80-b91c746cc252");
    assert_eq!(uuid(1u128 << 61), "0760e404-bd46-4687-a144-94963fdfd5e1");
    assert_eq!(uuid((1u128 << 61) - 1), "2260a696-7ba1-4c97-9955-12f21af5f97c");
    assert_eq!(uuid(1u128 << 121), "52a18458-b355-4fae-ad3e-1df418140b44");
}

#[test]
fn boundaries() {
    assert!(has_shape(&uuid(0)));
    assert!(has_shape(&uuid(LAST)));
    assert_eq!(INDEX_LIMIT, 1u128 << 122);
    assert_eq!(index_to_uuid(1u128 << 122), Err(UuidError::OutOfRange));
    assert_eq!(index_to_uuid(u128::MAX), Err(UuidError::OutOfRange));
}

#[test]
fn repeated_calls_agree() {
    for index in [0u128, 7, 1u128 << 90, LAST] {
        assert_eq!(index_to_uuid(index), index_to_uuid(index));
    }
}

fn sample(n: usize) -> Vec<u128> {
    let mut state: u128 = 0x9e37_79b9_7f4a_7c15;
    let mut out = Vec::with_capacity(n);
    for _ in 0..n {
        state = state
            .wrapping_mul(0x2360_ed05_1fc6_5da4_4385_df64_9fcc_f645)
            .wrapping_add(0x5851_f42d_4c95_7f2d_1405_7b7e_f767_814f);
        out.push(state >> 6);
    }
    out
}

#[test]
fn sampled_indices_have_distinct_identifiers() {
    let mut indices: HashSet<u128> = sample(100_000).into_iter().collect();
    indices.extend(0..1000u128);
    indices.extend(LAST - 1000..=LAST);
    let mut seen = HashSet::new();
    for &i in &indices {
        assert!(seen.insert(uuid(i)), "collision at {}", i);
    }
    assert_eq!(seen.len(), indices.len());
}

#[test]
fn sampled_identifiers_have_shape() {
    for i in sample(2000) {
        assert!(has_shape(&uuid(i)), "bad shape for {}", i);
    }
}

#[test]
fn sampled_round_trip() {
    for i in sample(2000).into_iter().chain([0, 1, LAST, 1u128 << 61]) {
        assert_eq!(uuid_to_index(&uuid(i)), Ok(i));
    }
}

#[test]
fn inverse_of_golden_values() {
    assert_eq!(uuid_to_index("497dcba3-ecbf-4587-a2dd-5eb0665e6880"), Ok(0));
    assert_eq!(uuid_to_index("34d87496-52b1-4fd0-bcea-8264e5776e91"), Ok(LAST));
    assert_eq!(uuid_to_index("e484b3a7-ca17-4587-85e9-c0e178aee072"), Ok(42));
}

#[test]
fn inverse_reaches_any_identifier() {
    let text = "00000000-0000-4000-8000-000000000000";
    let index = uuid_to_index(text).unwrap();
    assert!(index < INDEX_LIMIT);
    assert_eq!(uuid(index), text);
    let text = "ffffffff-ffff-4fff-bfff-ffffffffffff";
    let index = uuid_to_index(text).unwrap();
    assert_eq!(uuid(index), text);
}

#[test]
fn inverse_rejects_malformed_text() {
    let bad = [
        "",
        "497dcba3-ecbf-4587-a2dd-5eb0665e688",
        "497dcba3-ecbf-4587-a2dd-5eb0665e68800",
        "497DCBA3-ECBF-4587-A2DD-5EB0665E6880",
        "497dcba3becbf-4587-a2dd-5eb0665e6880",
        "497dcba3-ecbf-4587-a2dd_5eb0665e6880",
        "497dcba3-ecbf-4587-a2dd-5eb0665e688g",
        "497dcba3ecbf4587a2dd5eb0665e6880",
        "497dcba3-ecbf-4587-a2dd-5eb0665e688é",
    ];
    for text in bad {
        assert_eq!(uuid_to_index(text), Err(UuidError::InvalidFormat), "{}", text);
    }
}

#[test]
fn inverse_rejects_wrong_markers() {
    // version nibble 3 instead of 4
    assert_eq!(
        uuid_to_index("497dcba3-ecbf-3587-a2dd-5eb0665e6880"),
        Err(UuidError::InvalidFormat)
    );
    // variant nibble c: top bits 11 instead of 10
    assert_eq!(
        uuid_to_index("497dcba3-ecbf-4587-c2dd-5eb0665e6880"),
        Err(UuidError::InvalidFormat)
    );
    // variant nibble 7: top bits 01
    assert_eq!(
        uuid_to_index("497dcba3-ecbf-4587-72dd-5eb0665e6880"),
        Err(UuidError::InvalidFormat)
    );
}
