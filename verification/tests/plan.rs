use pix::key::{Pow2, TileRef};
use pix::plan::level_sizes;
use pix::pyramid::{Metadata, Thumb};

#[test]
fn level_sizes_halve_down_to_base() {
    assert_eq!(
        level_sizes((1000, 600), 128),
        vec![(125, 75), (250, 150), (500, 300), (1000, 600)]
    );
    assert_eq!(level_sizes((1024, 1024), 128), vec![(128, 128), (256, 256), (512, 512), (1024, 1024)]);
    assert_eq!(level_sizes((129, 1), 128), vec![(65, 1), (129, 1)]);
}

#[test]
fn level_sizes_of_small_image_is_the_image() {
    assert_eq!(level_sizes((128, 128), 128), vec![(128, 128)]);
    assert_eq!(level_sizes((100, 3), 128), vec![(100, 3)]);
    assert_eq!(level_sizes((0, 0), 128), vec![(0, 0)]);
    assert_eq!(level_sizes((1, 1), 0), vec![(1, 1)]);
}

#[test]
fn level_sizes_round_halves_up() {
    assert_eq!(level_sizes((5, 3), 1), vec![(1, 1), (2, 1), (3, 2), (5, 3)]);
    assert_eq!(level_sizes((7, 0), 2), vec![(2, 0), (4, 0), (7, 0)]);
}

#[test]
fn level_sizes_of_largest_image() {
    let sizes = level_sizes((u32::MAX, u32::MAX), 128);
    assert_eq!(sizes.len(), 26);
    assert_eq!(sizes[0], (128, 128));
    assert_eq!(sizes[25], (u32::MAX, u32::MAX));
    assert_eq!(sizes[24], (0x8000_0000, 0x8000_0000));
}

#[test]
fn keyed_level_numbers_its_tiles() {
    let level = Thumb::keyed((1000, 700), (3, 2), 40);
    assert_eq!(level.img_size, (1000, 700));
    assert_eq!(
        level.tile_refs,
        vec![
            TileRef::new(Pow2(10), 40, 0),
            TileRef::new(Pow2(10), 41, 0),
            TileRef::new(Pow2(10), 42, 0),
            TileRef::new(Pow2(10), 43, 0),
            TileRef::new(Pow2(10), 44, 0),
            TileRef::new(Pow2(10), 45, 0),
        ]
    );
    assert_eq!(level.tile_refs[0].0, 0x0A00_0000_0028_0000);
}

#[test]
fn keyed_level_wraps_its_indices() {
    let level = Thumb::keyed((64, 64), (2, 1), u64::MAX);
    assert_eq!(
        level.tile_refs,
        vec![TileRef::new(Pow2(6), 0xFF_FFFF_FFFF, 0), TileRef::new(Pow2(6), 0, 0)]
    );
}

#[test]
fn keyed_level_of_empty_grid_has_no_tiles() {
    assert!(Thumb::keyed((64, 64), (0, 5), 3).tile_refs.is_empty());
    assert!(Thumb::keyed((0, 0), (1, 0), 3).tile_refs.is_empty());
}

#[test]
fn planned_pyramid_is_valid() {
    let mut thumbs = Vec::new();
    let mut first = 0u64;
    for size in level_sizes((3000, 2000), 128) {
        let level = Thumb::keyed(size, (2, 2), first);
        first += level.tile_refs.len() as u64;
        thumbs.push(level);
    }
    let pyramid = Metadata::new(thumbs).unwrap();
    let sizes: Vec<u32> = pyramid.thumbs.iter().map(|t| t.size()).collect();
    assert_eq!(sizes, vec![128, 256, 512, 1024, 2048, 4096]);
    // 3000 has as many bits as 2048, 300 as many as 256
    assert_eq!(pyramid.nearest(3000), 4);
    assert_eq!(pyramid.nearest(4096), 5);
    assert_eq!(pyramid.nearest(300), 1);
}
