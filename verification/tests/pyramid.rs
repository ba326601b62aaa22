use pix::key::{Pow2, TileRef};
use pix::pyramid::{Metadata, MetadataState, Thumb};
use pix::scale::{round_up_to_power_of_two, MAX_DIMENSION};

fn pyramid_level(width: u32, height: u32, tiles: u64, first_index: u64) -> Thumb {
    let larger = if width >= height { width } else { height };
    let class = Pow2::from(round_up_to_power_of_two(larger));
    let mut tile_refs = Vec::new();
    for k in 0..tiles {
        tile_refs.push(TileRef::new(Pow2(class.0), first_index + k, 0));
    }
    Thumb { img_size: (width, height), tile_refs }
}

fn pyramid_of(sizes: &[u32]) -> Metadata {
    let mut thumbs = Vec::new();
    for (k, &size) in sizes.iter().enumerate() {
        thumbs.push(pyramid_level(size, size, 4, 100 * k as u64));
    }
    Metadata::new(thumbs).unwrap()
}

#[test]
fn round_up_to_power_of_two_values() {
    assert_eq!(round_up_to_power_of_two(0), 1);
    assert_eq!(round_up_to_power_of_two(1), 1);
    assert_eq!(round_up_to_power_of_two(2), 2);
    assert_eq!(round_up_to_power_of_two(3), 4);
    assert_eq!(round_up_to_power_of_two(4), 4);
    assert_eq!(round_up_to_power_of_two(5), 8);
    assert_eq!(round_up_to_power_of_two(1000), 1024);
    assert_eq!(round_up_to_power_of_two(1024), 1024);
    assert_eq!(round_up_to_power_of_two(1025), 2048);
    assert_eq!(round_up_to_power_of_two(0x4000_0001), 0x8000_0000);
    assert_eq!(round_up_to_power_of_two(MAX_DIMENSION), 0x8000_0000);
    for m in 0u32..5000 {
        assert_eq!(round_up_to_power_of_two(m), m.next_power_of_two());
    }
}

#[test]
fn thumb_size_is_next_power_of_larger_side() {
    let t = pyramid_level(1000, 600, 0, 0);
    assert_eq!(t.max_dimension(), 1000);
    assert_eq!(t.size(), 1024);
    assert_eq!(t.size_class(), Pow2(10));
    let u = pyramid_level(3, 4097, 0, 0);
    assert_eq!(u.max_dimension(), 4097);
    assert_eq!(u.size(), 8192);
    assert_eq!(u.size_class(), Pow2(13));
    let v = pyramid_level(0, 0, 0, 0);
    assert_eq!(v.size(), 1);
    assert_eq!(v.size_class(), Pow2(0));
}

#[test]
fn nearest_picks_closest_level_in_log_space() {
    let m = pyramid_of(&[128, 512, 2048]);
    assert_eq!(m.nearest(1000), 1);
    assert_eq!(m.nearest(512), 1);
    assert_eq!(m.nearest(128), 0);
    assert_eq!(m.nearest(2048), 2);
    assert_eq!(m.nearest(1), 0);
    assert_eq!(m.nearest(0), 0);
    assert_eq!(m.nearest(u32::MAX), 2);
}

#[test]
fn nearest_breaks_ties_towards_lower_index() {
    let m = pyramid_of(&[128, 512, 2048]);
    // 256 is one step from 128 and one step from 512
    assert_eq!(m.nearest(256), 0);
    // 1024 is one step from 512 and one step from 2048
    assert_eq!(m.nearest(1024), 1);
    let two = pyramid_of(&[64, 256]);
    assert_eq!(two.nearest(128), 0);
    assert_eq!(two.nearest(255), 0);
    assert_eq!(two.nearest(256), 1);
}

#[test]
fn nearest_measures_by_bit_length() {
    let m = pyramid_of(&[128, 256, 512]);
    // 255 has as many bits as 128, 256 has one more
    assert_eq!(m.nearest(255), 0);
    assert_eq!(m.nearest(256), 1);
    assert_eq!(m.nearest(511), 1);
    assert_eq!(m.nearest(512), 2);
}

#[test]
fn nearest_of_single_level() {
    let m = pyramid_of(&[1024]);
    assert_eq!(m.nearest(0), 0);
    assert_eq!(m.nearest(900), 0);
    assert_eq!(m.nearest(u32::MAX), 0);
}

#[test]
fn metadata_new_accepts_valid_levels() {
    let thumbs = vec![pyramid_level(100, 50, 2, 0), pyramid_level(200, 100, 6, 2)];
    let m = Metadata::new(thumbs).unwrap();
    assert_eq!(m.thumbs.len(), 2);
    assert_eq!(m.thumbs[0].img_size, (100, 50));
    assert_eq!(m.thumbs[1].tile_refs.len(), 6);
}

#[test]
fn metadata_new_rejects_no_levels() {
    assert_eq!(Metadata::new(Vec::new()), None);
}

#[test]
fn metadata_new_rejects_levels_out_of_order() {
    assert_eq!(
        Metadata::new(vec![pyramid_level(512, 512, 1, 0), pyramid_level(128, 128, 1, 1)]),
        None
    );
    // two levels of one size class
    assert_eq!(
        Metadata::new(vec![pyramid_level(600, 600, 1, 0), pyramid_level(1000, 1000, 1, 1)]),
        None
    );
}

#[test]
fn metadata_new_rejects_key_of_other_size_class() {
    let mut level = pyramid_level(512, 512, 3, 0);
    level.tile_refs[1] = TileRef::new(Pow2(8), 1, 0);
    assert_eq!(Metadata::new(vec![level]), None);
}

#[test]
fn metadata_new_rejects_oversized_level() {
    let level = Thumb { img_size: (MAX_DIMENSION + 1, 1), tile_refs: Vec::new() };
    assert_eq!(Metadata::new(vec![level]), None);
    let fits = Thumb { img_size: (MAX_DIMENSION, 1), tile_refs: Vec::new() };
    assert!(Metadata::new(vec![fits]).is_some());
}

#[test]
fn metadata_state_defaults_to_missing() {
    assert!(matches!(MetadataState::default(), MetadataState::Missing));
}

#[test]
fn validity_checks_agree_with_construction() {
    let good = pyramid_of(&[128, 256]);
    assert!(good.valid());
    assert!(MetadataState::Present(pyramid_of(&[64])).valid());
    assert!(MetadataState::Missing.valid());
    assert!(MetadataState::Errored.valid());
    let mut swapped = pyramid_of(&[128, 256]);
    swapped.thumbs.swap(0, 1);
    assert!(!swapped.valid());
    assert!(!MetadataState::Present(swapped).valid());
    assert!(!Metadata { thumbs: Vec::new() }.valid());
}
