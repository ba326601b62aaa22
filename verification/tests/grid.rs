use pix::grid::{axis_in_range, div_round_up, Placement, TileSpec};
use pix::key::{Pow2, TileRef};
use pix::pyramid::{Metadata, Thumb};

fn grid_from_rule(img_size: (u32, u32)) -> (u32, u32) {
    let estimate = |d: u32| (d as f64).log(8.0) * 128.0;
    (
        (img_size.0 as f64 / estimate(img_size.0)).ceil() as u32,
        (img_size.1 as f64 / estimate(img_size.1)).ceil() as u32,
    )
}

fn grid_level(img_size: (u32, u32), spec: &TileSpec, first_index: u64) -> Thumb {
    let larger = if img_size.0 >= img_size.1 { img_size.0 } else { img_size.1 };
    let class = Pow2::from(larger.next_power_of_two());
    let count = spec.grid_size.0 as u64 * spec.grid_size.1 as u64;
    let mut tile_refs = Vec::new();
    for k in 0..count {
        tile_refs.push(TileRef::new(Pow2(class.0), first_index + k, 0));
    }
    Thumb { img_size, tile_refs }
}

#[test]
fn div_round_up_values() {
    assert_eq!(div_round_up(0, 3), 0);
    assert_eq!(div_round_up(1, 3), 1);
    assert_eq!(div_round_up(3, 3), 1);
    assert_eq!(div_round_up(4, 3), 2);
    assert_eq!(div_round_up(1000, 3), 334);
    assert_eq!(div_round_up(u32::MAX, 1), u32::MAX);
    assert_eq!(div_round_up(u32::MAX, 2), 0x8000_0000);
    assert_eq!(div_round_up(7, 0), 0);
}

#[test]
fn tile_spec_of_thousand_square() {
    let grid = grid_from_rule((1000, 1000));
    assert_eq!(grid, (3, 3));
    let spec = TileSpec::new((1000, 1000), grid);
    assert_eq!(spec.img_size, (1000, 1000));
    assert_eq!(spec.grid_size, (3, 3));
    assert_eq!(spec.tile_size, (334, 334));
    assert!(spec.fits());
}

#[test]
fn tile_spec_of_oblong_image() {
    let spec = TileSpec::new((4000, 300), (8, 1));
    assert_eq!(spec.tile_size, (500, 300));
    assert_eq!(spec.x_ranges().len(), 8);
    assert_eq!(spec.y_ranges(), vec![(0, 300)]);
}

#[test]
fn ranges_partition_the_axis() {
    assert_eq!(TileSpec::ranges(1000, 3, 334), vec![(0, 334), (334, 668), (668, 1000)]);
    assert_eq!(TileSpec::ranges(10, 2, 5), vec![(0, 5), (5, 10)]);
    assert_eq!(TileSpec::ranges(7, 1, 7), vec![(0, 7)]);
    assert_eq!(TileSpec::ranges(7, 0, 0), Vec::new());
    for img in 1u32..200 {
        for grid in 1u32..12 {
            let tile = div_round_up(img, grid);
            if (grid - 1) * tile >= img {
                continue;
            }
            let r = TileSpec::ranges(img, grid, tile);
            assert_eq!(r.len(), grid as usize);
            assert_eq!(r[0].0, 0);
            assert_eq!(r[r.len() - 1].1, img);
            for k in 0..r.len() {
                assert!(r[k].0 < r[k].1);
                assert!(r[k].1 - r[k].0 <= tile);
                if k + 1 < r.len() {
                    assert_eq!(r[k].1, r[k + 1].0);
                }
            }
        }
    }
}

#[test]
fn ranges_clip_only_the_end() {
    // tiles that start past the image keep their start
    assert_eq!(TileSpec::ranges(10, 3, 10), vec![(0, 10), (10, 10), (20, 10)]);
}

#[test]
fn ranges_near_the_u32_limit() {
    let r = TileSpec::ranges(u32::MAX, 2, 0x8000_0000);
    assert_eq!(r, vec![(0, 0x8000_0000), (0x8000_0000, u32::MAX)]);
    assert!(axis_in_range(2, u32::MAX));
    assert!(!axis_in_range(3, u32::MAX));
    assert!(axis_in_range(0, u32::MAX));
}

#[test]
fn layout_is_row_major() {
    let spec = TileSpec::new((1000, 700), (3, 2));
    assert_eq!(spec.tile_size, (334, 350));
    let level = grid_level((1000, 700), &spec, 40);
    let placed = level.layout(&spec);
    assert_eq!(placed.len(), 6);
    let class = Pow2(10);
    assert_eq!(placed[0], Placement { x: 0, y: 0, tile: TileRef::new(Pow2(class.0), 40, 0) });
    assert_eq!(placed[1], Placement { x: 334, y: 0, tile: TileRef::new(Pow2(class.0), 41, 0) });
    assert_eq!(placed[2], Placement { x: 668, y: 0, tile: TileRef::new(Pow2(class.0), 42, 0) });
    assert_eq!(placed[3], Placement { x: 0, y: 350, tile: TileRef::new(Pow2(class.0), 43, 0) });
    assert_eq!(placed[4], Placement { x: 334, y: 350, tile: TileRef::new(Pow2(class.0), 44, 0) });
    assert_eq!(placed[5], Placement { x: 668, y: 350, tile: TileRef::new(Pow2(class.0), 45, 0) });
}

#[test]
fn layout_of_empty_grid() {
    let spec = TileSpec::new((0, 0), (0, 0));
    let level = Thumb { img_size: (0, 0), tile_refs: Vec::new() };
    assert_eq!(level.layout(&spec), Vec::new());
}

#[test]
fn thousand_square_end_to_end() {
    let img_size = (1000, 1000);
    let spec = TileSpec::new(img_size, grid_from_rule(img_size));
    let level = grid_level(img_size, &spec, 7);
    assert_eq!(level.size(), 1024);
    assert_eq!(level.size_class(), Pow2(10));
    let tiles = level.tile_refs.len();
    assert_eq!(tiles, (spec.grid_size.0 * spec.grid_size.1) as usize);
    assert_eq!(tiles, 9);
    assert_eq!(level.layout(&spec).len(), 9);
    let pyramid = Metadata::new(vec![level]).unwrap();
    let found = pyramid.nearest(900);
    assert_eq!(found, 0);
    assert_eq!(pyramid.thumbs[found].size(), 1024);
    assert_eq!(pyramid.thumbs[found].tile_refs.len(), 9);
}

#[test]
fn thousand_square_with_smaller_levels() {
    let mut thumbs = Vec::new();
    for &side in [125u32, 1000].iter() {
        let spec = TileSpec::new((side, side), grid_from_rule((side, side)));
        thumbs.push(grid_level((side, side), &spec, 100 * thumbs.len() as u64));
    }
    let pyramid = Metadata::new(thumbs).unwrap();
    assert_eq!(pyramid.thumbs[0].size(), 128);
    assert_eq!(pyramid.thumbs[1].size(), 1024);
    // 900 has ten bits: three more than 128 has, one fewer than 1024
    assert_eq!(pyramid.nearest(900), 1);
    assert_eq!(pyramid.nearest(200), 0);
}
