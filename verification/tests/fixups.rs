use grafted::fixups::{decode_chained_pointer, next_fixup_address};

#[test]
fn chained_bind_and_rebase() {
    let imports = vec![0x1111, 0x2222];
    // bind, ordinal 1, next stride 2
    let bind: u64 = (1u64 << 63) | (2u64 << 51) | 1;
    assert_eq!(decode_chained_pointer(bind, &imports, 0x1_0000_0000), (0x2222, 2));
    // bind to an ordinal outside the table gives 0
    assert_eq!(decode_chained_pointer((1u64 << 63) | 5, &imports, 0), (0, 0));
    // rebase: target 0x4000, high8 0x12, end of chain
    let rebase: u64 = (0x12u64 << 36) | 0x4000;
    assert_eq!(decode_chained_pointer(rebase, &imports, 0x1_0000_0000), (0x1200_0001_0000_4000, 0));
}

#[test]
fn chain_walk_steps() {
    assert_eq!(next_fixup_address(0x1000, 0), None);
    assert_eq!(next_fixup_address(0x1000, 2), Some(0x1008));
    assert_eq!(next_fixup_address(u64::MAX - 3, 1), Some(0));
}
