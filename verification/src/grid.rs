//! The image cut into blocks, the units of work of a render pass.
use std::ops::Range;
use vstd::prelude::*;
use vstd::arithmetic::div_mod::{lemma_fundamental_div_mod, lemma_fundamental_div_mod_converse};

verus! {

/// A pair of unsigned coordinates: a pixel, or the size of an image.
#[derive(Clone, Copy, Debug, PartialEq, Eq, Structural)]
pub struct UVec2 {
    pub x: u32,
    pub y: u32,
}

impl UVec2 {
    /// The pair of these coordinates.
    pub fn new(x: u32, y: u32) -> (v: UVec2)
        ensures
            v == (UVec2 { x, y }),
    {
        UVec2 { x, y }
    }
}

/// A block structure in 2D describing ranges of `u32`.
pub struct GridBlock {
    pub x: Range<u32>,
    pub y: Range<u32>,
}

/// The number of values in a range: none where the range is inverted.
pub open spec fn span(r: Range<u32>) -> int {
    if r.start < r.end {
        r.end - r.start
    } else {
        0
    }
}

impl GridBlock {
    /// Whether the pixel lies in the block.
    pub open spec fn covers(self, p: UVec2) -> bool {
        self.x.start <= p.x < self.x.end && self.y.start <= p.y < self.y.end
    }

    /// Creates a new block from the range in `x` direction and the range in
    /// `y` direction.
    pub fn new(x: Range<u32>, y: Range<u32>) -> (b: GridBlock)
        ensures
            b.x == x,
            b.y == y,
    {
        GridBlock { x, y }
    }

    /// All the pixels of the block: column by column, each column from its
    /// lowest `y` upward.
    pub fn prod(&self) -> (r: Vec<UVec2>)
        requires
            span(self.x) * span(self.y) <= usize::MAX,
        ensures
            r@.len() == span(self.x) * span(self.y),
            forall|i: int|
                0 <= i < r@.len() ==> #[trigger] r@[i] == (UVec2 {
                    x: (self.x.start + i / span(self.y)) as u32,
                    y: (self.y.start + i % span(self.y)) as u32,
                }),
            forall|i: int| 0 <= i < r@.len() ==> self.covers(#[trigger] r@[i]),
    {
        let mut r: Vec<UVec2> = Vec::new();
        if self.x.start >= self.x.end || self.y.start >= self.y.end {
            proof {
                assert(span(self.x) * span(self.y) == 0) by (nonlinear_arith)
                    requires
                        span(self.x) == 0 || span(self.y) == 0,
                ;
            }
            return r;
        }
        let ghost h = span(self.y);
        let ghost w = span(self.x);
        let mut x: u32 = self.x.start;
        while x < self.x.end
            invariant
                self.x.start <= x <= self.x.end,
                self.y.start < self.y.end,
                h == span(self.y),
                w == span(self.x),
                w * h <= usize::MAX,
                r@.len() == (x - self.x.start) * h,
                forall|i: int|
                    0 <= i < r@.len() ==> #[trigger] r@[i] == (UVec2 {
                        x: (self.x.start + i / h) as u32,
                        y: (self.y.start + i % h) as u32,
                    }),
            decreases self.x.end - x,
        {
            let ghost col = (x - self.x.start) as int;
            let mut y: u32 = self.y.start;
            while y < self.y.end
                invariant
                    self.x.start <= x < self.x.end,
                    self.y.start <= y <= self.y.end,
                    self.y.start < self.y.end,
                    h == span(self.y),
                    w == span(self.x),
                    col == x - self.x.start,
                    w * h <= usize::MAX,
                    r@.len() == col * h + (y - self.y.start),
                    forall|i: int|
                        0 <= i < r@.len() ==> #[trigger] r@[i] == (UVec2 {
                            x: (self.x.start + i / h) as u32,
                            y: (self.y.start + i % h) as u32,
                        }),
                decreases self.y.end - y,
            {
                proof {
                    let i = col * h + (y - self.y.start);
                    lemma_fundamental_div_mod_converse(i, h, col, (y - self.y.start) as int);
                    assert(col * h + h <= w * h) by (nonlinear_arith)
                        requires
                            col < w,
                            0 < h,
                    ;
                }
                r.push(UVec2 { x, y });
                y += 1;
            }
            proof {
                assert((col + 1) * h == col * h + h) by (nonlinear_arith);
            }
            x += 1;
        }
        proof {
            assert forall|i: int| 0 <= i < r@.len() implies self.covers(#[trigger] r@[i]) by {
                lemma_fundamental_div_mod(i, h);
                assert(0 <= i / h < w) by (nonlinear_arith)
                    requires
                        0 <= i < w * h,
                        0 < h,
                        i == h * (i / h) + i % h,
                        0 <= i % h < h,
                ;
            }
        }
        r
    }
}

/// The number of blocks of length `block_size` that it takes to cover
/// `length`: the last block may be shorter.
pub open spec fn blocks_along(length: int, block_size: int) -> int {
    if length % block_size == 0 {
        length / block_size
    } else {
        length / block_size + 1
    }
}

/// Block number `k` along an axis of `length`: where it begins and where it
/// ends.
pub open spec fn block_range(k: int, length: int, block_size: int) -> (int, int) {
    (
        k * block_size,
        if (k + 1) * block_size < length {
            (k + 1) * block_size
        } else {
            length
        },
    )
}

/// A grid contains blocks with ranges in 2D. The blocks are sorted left to
/// right, then top to bottom. Edge blocks are smaller where the width or the
/// height is no multiple of the block size.
pub struct Grid {
    pub blocks: Vec<GridBlock>,
}

impl Grid {
    /// Whether these are the blocks of an image of `size`, cut into blocks
    /// of `block_size`.
    pub open spec fn partitions(self, size: UVec2, block_size: u32) -> bool {
        let nx = blocks_along(size.x as int, block_size as int);
        let ny = blocks_along(size.y as int, block_size as int);
        &&& self.blocks@.len() == nx * ny
        &&& forall|k: int|
            0 <= k < self.blocks@.len() ==> {
                let b = #[trigger] self.blocks@[k];
                let rx = block_range(k % nx, size.x as int, block_size as int);
                let ry = block_range(k / nx, size.y as int, block_size as int);
                b.x.start == rx.0 && b.x.end == rx.1 && b.y.start == ry.0 && b.y.end == ry.1
            }
    }

    /// Cuts an image of `size` into blocks of `block_size` pixels a side.
    pub fn new(size: &UVec2, block_size: u32) -> (grid: Grid)
        requires
            block_size > 0,
            blocks_along(size.x as int, block_size as int) * blocks_along(
                size.y as int,
                block_size as int,
            ) <= usize::MAX,
        ensures
            grid.partitions(*size, block_size),
    {
        let width = size.x;
        let height = size.y;
        proof {
            lemma_quotient_leaves_room(width as int, block_size as int);
            lemma_quotient_leaves_room(height as int, block_size as int);
        }
        let x_blocks: u32 = width / block_size + if width % block_size != 0 {
            1u32
        } else {
            0u32
        };
        let y_blocks: u32 = height / block_size + if height % block_size != 0 {
            1u32
        } else {
            0u32
        };
        let ghost nx = x_blocks as int;
        let ghost ny = y_blocks as int;
        let ghost bs = block_size as int;
        let mut blocks: Vec<GridBlock> = Vec::new();
        let mut y: u32 = 0;
        while y < y_blocks
            invariant
                y <= y_blocks,
                block_size > 0,
                bs == block_size,
                nx == x_blocks,
                ny == y_blocks,
                width == size.x,
                height == size.y,
                nx == blocks_along(width as int, bs),
                ny == blocks_along(height as int, bs),
                nx * ny <= usize::MAX,
                blocks@.len() == y * nx,
                forall|k: int|
                    0 <= k < blocks@.len() ==> {
                        let b = #[trigger] blocks@[k];
                        let rx = block_range(k % nx, width as int, bs);
                        let ry = block_range(k / nx, height as int, bs);
                        b.x.start == rx.0 && b.x.end == rx.1 && b.y.start == ry.0 && b.y.end
                            == ry.1
                    },
            decreases y_blocks - y,
        {
            let mut x: u32 = 0;
            while x < x_blocks
                invariant
                    x <= x_blocks,
                    y < y_blocks,
                    block_size > 0,
                    bs == block_size,
                    nx == x_blocks,
                    ny == y_blocks,
                    width == size.x,
                    height == size.y,
                    nx == blocks_along(width as int, bs),
                    ny == blocks_along(height as int, bs),
                    nx * ny <= usize::MAX,
                    blocks@.len() == y * nx + x,
                    forall|k: int|
                        0 <= k < blocks@.len() ==> {
                            let b = #[trigger] blocks@[k];
                            let rx = block_range(k % nx, width as int, bs);
                            let ry = block_range(k / nx, height as int, bs);
                            b.x.start == rx.0 && b.x.end == rx.1 && b.y.start == ry.0 && b.y.end
                                == ry.1
                        },
                decreases x_blocks - x,
            {
                proof {
                    lemma_block_begins_inside(x as int, width as int, bs);
                    lemma_block_begins_inside(y as int, height as int, bs);
                    let k = y * nx + x;
                    lemma_fundamental_div_mod_converse(k, nx, y as int, x as int);
                    assert(y * nx + nx <= ny * nx) by (nonlinear_arith)
                        requires
                            y < ny,
                            0 < nx,
                    ;
                    assert(ny * nx == nx * ny) by (nonlinear_arith);
                }
                let x_start: u32 = x * block_size;
                let y_start: u32 = y * block_size;
                let x_end: u32 = if width - x_start > block_size {
                    x_start + block_size
                } else {
                    width
                };
                let y_end: u32 = if height - y_start > block_size {
                    y_start + block_size
                } else {
                    height
                };
                proof {
                    assert((x + 1) * bs == x * bs + bs) by (nonlinear_arith);
                    assert((y + 1) * bs == y * bs + bs) by (nonlinear_arith);
                }
                blocks.push(GridBlock::new(x_start..x_end, y_start..y_end));
                x += 1;
            }
            proof {
                assert((y + 1) * nx == y * nx + nx) by (nonlinear_arith);
            }
            y += 1;
        }
        proof {
            assert(ny * nx == nx * ny) by (nonlinear_arith);
        }
        Grid { blocks }
    }
}

impl Grid {
    /// The place in the grid of the block that covers the pixel `p`, for an
    /// image of `size` cut into blocks of `block_size`.
    pub fn block_of(size: &UVec2, block_size: u32, p: UVec2) -> (k: usize)
        requires
            block_size > 0,
            p.x < size.x,
            p.y < size.y,
            blocks_along(size.x as int, block_size as int) * blocks_along(
                size.y as int,
                block_size as int,
            ) <= usize::MAX,
        ensures
            k == (p.y / block_size) * blocks_along(size.x as int, block_size as int) + p.x
                / block_size,
            k < blocks_along(size.x as int, block_size as int) * blocks_along(
                size.y as int,
                block_size as int,
            ),
    {
        proof {
            lemma_quotient_leaves_room(size.x as int, block_size as int);
            lemma_pixel_block(p.x as int, size.x as int, block_size as int);
            lemma_pixel_block(p.y as int, size.y as int, block_size as int);
            let nx = blocks_along(size.x as int, block_size as int);
            let ny = blocks_along(size.y as int, block_size as int);
            let by = (p.y / block_size) as int;
            assert(by * nx + nx <= ny * nx) by (nonlinear_arith)
                requires
                    by < ny,
                    0 < nx,
            ;
            assert(0 <= by * nx) by (nonlinear_arith)
                requires
                    0 <= by,
                    0 < nx,
            ;
            assert(ny * nx == nx * ny) by (nonlinear_arith);
        }
        let x_blocks: u32 = size.x / block_size + if size.x % block_size != 0 {
            1u32
        } else {
            0u32
        };
        let row: usize = (p.y / block_size) as usize;
        row * (x_blocks as usize) + (p.x / block_size) as usize
    }
}

/// A quotient with a remainder is below the dividend, so that one more block
/// can be counted.
pub proof fn lemma_quotient_leaves_room(length: int, block_size: int)
    requires
        0 <= length,
        0 < block_size,
    ensures
        0 <= length / block_size <= length,
        length % block_size != 0 ==> length / block_size < length,
{
    lemma_fundamental_div_mod(length, block_size);
    let q = length / block_size;
    assert(0 <= q <= length && (length % block_size != 0 ==> q < length)) by (nonlinear_arith)
        requires
            length == block_size * q + length % block_size,
            0 <= length % block_size < block_size,
            0 < block_size,
            0 <= length,
    ;
}

/// A block begins inside the image: block `k` of those along `length` begins
/// before `length`.
pub proof fn lemma_block_begins_inside(k: int, length: int, block_size: int)
    requires
        0 <= k < blocks_along(length, block_size),
        0 <= length,
        0 < block_size,
    ensures
        0 <= k * block_size < length,
{
    lemma_fundamental_div_mod(length, block_size);
    let q = length / block_size;
    assert(0 <= k * block_size) by (nonlinear_arith)
        requires
            0 <= k,
            0 < block_size,
    ;
    if length % block_size == 0 {
        assert(k * block_size <= (q - 1) * block_size) by (nonlinear_arith)
            requires
                k <= q - 1,
                0 < block_size,
        ;
        assert((q - 1) * block_size == block_size * q - block_size) by (nonlinear_arith);
    } else {
        assert(k * block_size <= q * block_size) by (nonlinear_arith)
            requires
                k <= q,
                0 < block_size,
        ;
        assert(q * block_size == block_size * q) by (nonlinear_arith);
    }
}

/// The blocks cut the image up: every pixel of the image lies in one block
/// and in no other.
pub proof fn lemma_grid_partitions(grid: Grid, size: UVec2, block_size: u32, p: UVec2)
    requires
        block_size > 0,
        grid.partitions(size, block_size),
        p.x < size.x,
        p.y < size.y,
    ensures
        ({
            let nx = blocks_along(size.x as int, block_size as int);
            let k = (p.y / block_size) * nx + p.x / block_size;
            &&& 0 <= k < grid.blocks@.len()
            &&& grid.blocks@[k].covers(p)
            &&& forall|j: int|
                0 <= j < grid.blocks@.len() && (#[trigger] grid.blocks@[j]).covers(p) ==> j == k
        }),
{
    let bs = block_size as int;
    let w = size.x as int;
    let h = size.y as int;
    let nx = blocks_along(w, bs);
    let ny = blocks_along(h, bs);
    let bx = (p.x / block_size) as int;
    let by = (p.y / block_size) as int;
    let k = by * nx + bx;
    lemma_pixel_block(p.x as int, w, bs);
    lemma_pixel_block(p.y as int, h, bs);
    lemma_fundamental_div_mod_converse(k, nx, by, bx);
    assert(by * nx + nx <= ny * nx) by (nonlinear_arith)
        requires
            by < ny,
            0 < nx,
    ;
    assert(ny * nx == nx * ny) by (nonlinear_arith);
    assert(grid.blocks@[k].covers(p));
    assert forall|j: int| 0 <= j < grid.blocks@.len() && (#[trigger] grid.blocks@[j]).covers(
        p,
    ) implies j == k by {
        let jx = j % nx;
        let jy = j / nx;
        lemma_fundamental_div_mod(j, nx);
        lemma_block_holds(jx, p.x as int, w, bs);
        lemma_block_holds(jy, p.y as int, h, bs);
        assert(j == nx * jy + jx);
        assert(nx * jy == jy * nx) by (nonlinear_arith);
    }
}

/// The block of a pixel coordinate: coordinate `c` of an axis of `length`
/// lies in block `c / block_size`.
pub proof fn lemma_pixel_block(c: int, length: int, block_size: int)
    requires
        0 <= c < length,
        0 < block_size,
    ensures
        0 <= c / block_size < blocks_along(length, block_size),
        block_range(c / block_size, length, block_size).0 <= c < block_range(
            c / block_size,
            length,
            block_size,
        ).1,
{
    let k = c / block_size;
    lemma_fundamental_div_mod(c, block_size);
    lemma_fundamental_div_mod(length, block_size);
    let q = length / block_size;
    assert(k * block_size == block_size * k) by (nonlinear_arith);
    assert((k + 1) * block_size == block_size * k + block_size) by (nonlinear_arith);
    assert(0 <= k) by (nonlinear_arith)
        requires
            0 <= c,
            c == block_size * k + c % block_size,
            0 <= c % block_size < block_size,
            0 < block_size,
    ;
    assert(k <= q) by (nonlinear_arith)
        requires
            c < length,
            c == block_size * k + c % block_size,
            length == block_size * q + length % block_size,
            0 <= c % block_size < block_size,
            0 <= length % block_size < block_size,
            0 < block_size,
    ;
    if length % block_size == 0 {
        assert(k < q) by (nonlinear_arith)
            requires
                c < length,
                c == block_size * k + c % block_size,
                length == block_size * q,
                0 <= c % block_size,
                0 < block_size,
        ;
    }
}

/// A block holds only the coordinates that divide down to its number.
pub proof fn lemma_block_holds(k: int, c: int, length: int, block_size: int)
    requires
        0 <= k,
        0 < block_size,
        block_range(k, length, block_size).0 <= c < block_range(k, length, block_size).1,
    ensures
        k == c / block_size,
{
    assert((k + 1) * block_size == k * block_size + block_size) by (nonlinear_arith);
    assert(k * block_size == block_size * k) by (nonlinear_arith);
    let r = c - k * block_size;
    lemma_fundamental_div_mod_converse(c, block_size, k, r);
}

} // verus!
