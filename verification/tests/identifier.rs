use datapoints::identifier::hyphenated;

#[test]
fn identifier_is_written_in_five_groups() {
    assert_eq!(
        hyphenated(0xa1a2a3a4_b1b2_c1c2_d1d2_d3d4d5d6d7d8),
        "a1a2a3a4-b1b2-c1c2-d1d2-d3d4d5d6d7d8"
    );
    assert_eq!(
        hyphenated(0x0123_4567_89ab_cdef_fedc_ba98_7654_3210),
        "01234567-89ab-cdef-fedc-ba9876543210"
    );
    assert_eq!(hyphenated(0), "00000000-0000-0000-0000-000000000000");
    assert_eq!(hyphenated(1), "00000000-0000-0000-0000-000000000001");
    assert_eq!(hyphenated(u128::MAX), "ffffffff-ffff-ffff-ffff-ffffffffffff");
    assert_eq!(hyphenated(1 << 127), "80000000-0000-0000-0000-000000000000");
}

#[test]
fn identifier_text_is_what_uuid_writes_and_reads() {
    let mut id: u128 = 0x9e37_79b9_7f4a_7c15_f39c_c060_5ced_c835;
    for _ in 0..200 {
        let text = hyphenated(id);
        assert_eq!(text, uuid::Uuid::from_u128(id).to_string());
        assert_eq!(uuid::Uuid::parse_str(&text).unwrap().as_u128(), id);
        id = id.wrapping_mul(0x2360_ed05_1fc6_5da4_4385_df64_9fcc_f645).wrapping_add(0x5851_f42d_4c95_7f2d);
    }
    for bit in 0..128 {
        let id = 1u128 << bit;
        assert_eq!(hyphenated(id), uuid::Uuid::from_u128(id).to_string());
    }
}
