use rust_v::grid::{Grid, GridBlock, UVec2};

#[test]
fn even_grid() {
    let grid = Grid::new(&UVec2::new(64, 32), 16);
    assert_eq!(grid.blocks.len(), 8);
    assert_eq!(grid.blocks[0].x, 0..16);
    assert_eq!(grid.blocks[0].y, 0..16);
    assert_eq!(grid.blocks[3].x, 48..64);
    assert_eq!(grid.blocks[4].x, 0..16);
    assert_eq!(grid.blocks[4].y, 16..32);
    assert_eq!(grid.blocks[7].x, 48..64);
    assert_eq!(grid.blocks[7].y, 16..32);
}

#[test]
fn edge_blocks_are_smaller() {
    let grid = Grid::new(&UVec2::new(10, 7), 4);
    assert_eq!(grid.blocks.len(), 6);
    assert_eq!(grid.blocks[2].x, 8..10);
    assert_eq!(grid.blocks[2].y, 0..4);
    assert_eq!(grid.blocks[5].x, 8..10);
    assert_eq!(grid.blocks[5].y, 4..7);
}

#[test]
fn empty_image_has_no_blocks() {
    assert_eq!(Grid::new(&UVec2::new(0, 100), 8).blocks.len(), 0);
    assert_eq!(Grid::new(&UVec2::new(100, 0), 8).blocks.len(), 0);
}

#[test]
fn block_larger_than_image() {
    let grid = Grid::new(&UVec2::new(5, 3), 1000);
    assert_eq!(grid.blocks.len(), 1);
    assert_eq!(grid.blocks[0].x, 0..5);
    assert_eq!(grid.blocks[0].y, 0..3);
}

#[test]
fn widest_image_does_not_overflow() {
    let grid = Grid::new(&UVec2::new(u32::MAX, 1), 1 << 31);
    assert_eq!(grid.blocks.len(), 2);
    assert_eq!(grid.blocks[1].x, (1 << 31)..u32::MAX);
}

#[test]
fn every_pixel_lies_in_its_block_alone() {
    let size = UVec2::new(37, 23);
    let grid = Grid::new(&size, 8);
    for y in 0..size.y {
        for x in 0..size.x {
            let k = Grid::block_of(&size, 8, UVec2::new(x, y));
            for (j, b) in grid.blocks.iter().enumerate() {
                let inside = b.x.contains(&x) && b.y.contains(&y);
                assert_eq!(inside, j == k);
            }
        }
    }
}

#[test]
fn products_of_ranges() {
    let block = GridBlock::new(2..4, 7..10);
    let got: Vec<(u32, u32)> = block.prod().iter().map(|p| (p.x, p.y)).collect();
    assert_eq!(got, vec![(2, 7), (2, 8), (2, 9), (3, 7), (3, 8), (3, 9)]);
    assert!(GridBlock::new(4..4, 0..10).prod().is_empty());
    assert!(GridBlock::new(0..4, 10..2).prod().is_empty());
}
