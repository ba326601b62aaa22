use pix::key::{Pow2, TileRef};

#[test]
fn size_conversions() {
    assert_eq!(Pow2::from(128), Pow2(7));
    assert_eq!(Pow2(7).u32(), 128);
}

#[test]
fn tile_ref_test() {
    assert_eq!(
        TileRef::new(Pow2(0xFFu8), 0u64, 0u16),
        TileRef(0xFF00_0000_0000_0000u64)
    );
    assert_eq!(
        TileRef::new(Pow2(0xFFu8), 0u64, 0u16).deconstruct(),
        (Pow2(0xFFu8), 0u64, 0u16)
    );
    assert_eq!(
        TileRef::new(Pow2(0xFFu8), 0u64, 0u16).0.to_be_bytes(),
        [0xFF, 0, 0, 0, 0, 0, 0, 0]
    );

    assert_eq!(
        TileRef::new(Pow2(0u8), 0x00FF_FFFF_FFFFu64, 0u16),
        TileRef(0x00F_FFFFF_FFFF_0000u64)
    );
    assert_eq!(
        TileRef::new(Pow2(0u8), 0x00FF_FFFF_FFFFu64, 0u16).deconstruct(),
        (Pow2(0u8), 0x00FF_FFFF_FFFFu64, 0u16)
    );

    assert_eq!(
        TileRef::new(Pow2(0u8), 0u64, 0xFFFFu16),
        TileRef(0x0000_0000_0000_FFFFu64)
    );
    assert_eq!(
        TileRef::new(Pow2(0u8), 0u64, 0xFFFFu16).deconstruct(),
        (Pow2(0u8), 0u64, 0xFFFFu16)
    )
}

#[test]
fn pow2_of_every_exponent() {
    for e in 0u8..32 {
        let size = 1u32 << e;
        assert_eq!(Pow2::from(size), Pow2(e));
        assert_eq!(Pow2(e).u32(), size);
    }
}

#[test]
fn key_round_trip() {
    let sizes = [0u8, 1, 7, 10, 31, 128, 255];
    let indices = [0u64, 1, 2, 0xFFFF, 0x1_0000, 0x12_3456_789A, 0xFF_FFFF_FFFF];
    let chunks = [0u16, 1, 0x00FF, 0x0100, 0xABCD, 0xFFFF];
    for &s in sizes.iter() {
        for &i in indices.iter() {
            for &c in chunks.iter() {
                let key = TileRef::new(Pow2(s), i, c);
                assert_eq!(key.deconstruct(), (Pow2(s), i, c));
            }
        }
    }
}

#[test]
fn key_layout_is_bit_exact() {
    let key = TileRef::new(Pow2(10), 0x12_3456_789A, 0xBEEF);
    assert_eq!(key.0, 0x0A12_3456_789A_BEEF);
    assert_eq!(key.0.to_be_bytes(), [0x0A, 0x12, 0x34, 0x56, 0x78, 0x9A, 0xBE, 0xEF]);
    assert_eq!(TileRef(0x0A12_3456_789A_BEEF).deconstruct(), (Pow2(10), 0x12_3456_789A, 0xBEEF));
}

#[test]
fn key_index_wraps_at_forty_bits() {
    assert_eq!(TileRef::new(Pow2(3), 1u64 << 40, 5), TileRef::new(Pow2(3), 0, 5));
    assert_eq!(TileRef::new(Pow2(3), (1u64 << 40) + 7, 5), TileRef::new(Pow2(3), 7, 5));
    assert_eq!(
        TileRef::new(Pow2(3), u64::MAX, 5).deconstruct(),
        (Pow2(3), 0xFF_FFFF_FFFF, 5)
    );
    // the fields do not spill into one another
    assert_eq!(TileRef::new(Pow2(0), u64::MAX, 0).0, 0x00FF_FFFF_FFFF_0000);
}

#[test]
fn key_default_is_zero() {
    assert_eq!(TileRef::default(), TileRef(0));
    assert_eq!(TileRef::default().deconstruct(), (Pow2(0), 0, 0));
}

#[test]
fn keys_order_by_size_then_index_then_chunk() {
    let a = TileRef::new(Pow2(7), 9, 9);
    let b = TileRef::new(Pow2(8), 0, 0);
    let c = TileRef::new(Pow2(8), 1, 0);
    let d = TileRef::new(Pow2(8), 1, 1);
    assert!(a < b && b < c && c < d);
}
