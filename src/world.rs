use vstd::prelude::*;

verus! {

/// Width of one tile, in world units.
pub const BLOCK_WIDTH: i64 = 80;
/// Height of one tile, in world units.
pub const BLOCK_HEIGHT: i64 = 100;
/// Number of tile columns of the world.
pub const WORLD_WIDTH: usize = 60;
/// Number of tile rows of the world.
pub const WORLD_HEIGHT: usize = 30;
/// First row of solid ground in the generated world.
pub const GROUND_ROW: usize = 20;
/// Width of the viewport, in screen units.
pub const WINDOW_WIDTH: i64 = 1024;
/// Height of the viewport, in screen units.
pub const WINDOW_HEIGHT: i64 = 768;

/// The rendering layer of a tile.
#[derive(Clone, Copy, Debug, PartialEq, Eq, Structural)]
pub enum Plan {
    Foreground,
    Background,
}

/// What a tile is made of.
#[derive(Clone, Copy, Debug, PartialEq, Eq, Structural)]
pub enum BlockType {
    Air,
    Dirt,
}

/// The colour a tile's outline is drawn in.
#[derive(Clone, Copy, Debug, PartialEq, Eq, Structural)]
pub enum Outline {
    Blue,
    White,
}

/// One cell of the grid.
#[derive(Clone, Copy, Debug, PartialEq, Eq, Structural)]
pub struct Block {
    pub id: BlockType,
    pub is_solid: bool,
    pub z: Plan,
}

/// The open tile that fills the rows above the ground.
pub open spec fn air_block() -> Block {
    Block { id: BlockType::Air, is_solid: false, z: Plan::Foreground }
}

/// The solid tile that fills the rows from the ground down.
pub open spec fn dirt_block() -> Block {
    Block { id: BlockType::Dirt, is_solid: true, z: Plan::Background }
}

/// The tile that a generated grid holds in row `row` when the ground starts at `split_row`.
pub open spec fn block_for_row(row: int, split_row: int) -> Block {
    if row < split_row {
        air_block()
    } else {
        dirt_block()
    }
}

/// The colour of a tile's outline: blue for air, white for dirt.
pub open spec fn outline_of(b: Block) -> Outline {
    match b.id {
        BlockType::Air => Outline::Blue,
        BlockType::Dirt => Outline::White,
    }
}

impl Block {
    /// The open, foreground air tile.
    pub fn air() -> (r: Block)
        ensures
            r == air_block(),
    {
        Block { id: BlockType::Air, is_solid: false, z: Plan::Foreground }
    }

    /// The solid, background dirt tile.
    pub fn dirt() -> (r: Block)
        ensures
            r == dirt_block(),
    {
        Block { id: BlockType::Dirt, is_solid: true, z: Plan::Background }
    }

    /// The colour this tile's outline is drawn in.
    pub fn outline(&self) -> (r: Outline)
        ensures
            r == outline_of(*self),
    {
        match self.id {
            BlockType::Air => Outline::Blue,
            BlockType::Dirt => Outline::White,
        }
    }
}

/// Where a tile lands on screen when the view origin is `(offset_x, offset_y)`: its
/// column and row scaled by the tile size, less the origin.
pub open spec fn screen_x(col: int, offset_x: int) -> int {
    col * BLOCK_WIDTH - offset_x
}

/// See `screen_x`.
pub open spec fn screen_y(row: int, offset_y: int) -> int {
    row * BLOCK_HEIGHT - offset_y
}

/// Whether a tile whose top-left corner lands at `(x, y)` is drawn. Only the corner
/// is tested, against the window widened by one tile to the left and above.
pub open spec fn in_view(x: int, y: int) -> bool {
    -BLOCK_WIDTH <= x <= WINDOW_WIDTH && -BLOCK_HEIGHT <= y <= WINDOW_HEIGHT
}

/// Row-major order of grid positions.
pub open spec fn before(r1: int, c1: int, r2: int, c2: int) -> bool {
    r1 < r2 || (r1 == r2 && c1 < c2)
}

/// A tile to draw: its grid position, its screen position and the tile itself.
#[derive(Clone, Copy, Debug, PartialEq, Eq, Structural)]
pub struct TileDraw {
    pub row: usize,
    pub col: usize,
    pub x: i64,
    pub y: i64,
    pub block: Block,
}

/// A named grid of tiles, `height` rows of `width` tiles each, fixed once generated.
pub struct World {
    name: String,
    map: Vec<Vec<Block>>,
    width: usize,
}

impl World {
    #[verifier::type_invariant]
    spec fn inv(self) -> bool {
        forall|r: int| 0 <= r < self.map@.len() ==> #[trigger] self.map@[r]@.len() == self.width
    }

    /// Number of columns.
    pub closed spec fn spec_width(&self) -> nat {
        self.width as nat
    }

    /// Number of rows.
    pub closed spec fn spec_height(&self) -> nat {
        self.map@.len()
    }

    /// The tile at row `r`, column `c`.
    pub closed spec fn cell(&self, r: int, c: int) -> Block {
        self.map@[r]@[c]
    }

    /// The world's name.
    pub closed spec fn spec_name(&self) -> Seq<char> {
        self.name@
    }

    /// Whether `d` is the draw of an in-view tile of this grid under the view origin
    /// `(offset_x, offset_y)`.
    pub open spec fn draws(&self, d: TileDraw, offset_x: int, offset_y: int) -> bool {
        &&& d.row < self.spec_height()
        &&& d.col < self.spec_width()
        &&& d.x == screen_x(d.col as int, offset_x)
        &&& d.y == screen_y(d.row as int, offset_y)
        &&& in_view(d.x as int, d.y as int)
        &&& d.block == self.cell(d.row as int, d.col as int)
    }

    /// Generates a `width` by `height` grid whose rows above `split_row` are air
    /// and whose rows from `split_row` down are dirt.
    pub fn generate(name: String, width: usize, height: usize, split_row: usize) -> (w: World)
        ensures
            w.spec_name() == name@,
            w.spec_width() == width,
            w.spec_height() == height,
            forall|r: int, c: int|
                0 <= r < height && 0 <= c < width ==> #[trigger] w.cell(r, c) == block_for_row(
                    r,
                    split_row as int,
                ),
    {
        let mut map: Vec<Vec<Block>> = Vec::new();
        let mut r: usize = 0;
        while r < height
            invariant
                r <= height,
                map@.len() == r,
                forall|i: int| 0 <= i < r ==> #[trigger] map@[i]@.len() == width,
                forall|i: int, c: int|
                    0 <= i < r && 0 <= c < width ==> #[trigger] map@[i]@[c] == block_for_row(
                        i,
                        split_row as int,
                    ),
            decreases height - r,
        {
            let tile = if r < split_row {
                Block::air()
            } else {
                Block::dirt()
            };
            let mut row: Vec<Block> = Vec::new();
            let mut c: usize = 0;
            while c < width
                invariant
                    c <= width,
                    row@.len() == c,
                    forall|j: int| 0 <= j < c ==> #[trigger] row@[j] == tile,
                decreases width - c,
            {
                row.push(tile);
                c = c + 1;
            }
            map.push(row);
            r = r + 1;
        }
        World { name, map, width }
    }

    /// The world of the game: `WORLD_WIDTH` by `WORLD_HEIGHT` tiles, ground from `GROUND_ROW` down.
    pub fn new(name: String) -> (w: World)
        ensures
            w.spec_name() == name@,
            w.spec_width() == WORLD_WIDTH,
            w.spec_height() == WORLD_HEIGHT,
            forall|r: int, c: int|
                0 <= r < WORLD_HEIGHT && 0 <= c < WORLD_WIDTH ==> #[trigger] w.cell(r, c)
                    == block_for_row(r, GROUND_ROW as int),
    {
        World::generate(name, WORLD_WIDTH, WORLD_HEIGHT, GROUND_ROW)
    }
}

impl World {
    /// The world's name.
    pub fn name(&self) -> (r: &str)
        ensures
            r@ == self.spec_name(),
    {
        self.name.as_str()
    }

    /// Number of columns.
    pub fn width(&self) -> (r: usize)
        ensures
            r == self.spec_width(),
    {
        self.width
    }

    /// Number of rows.
    pub fn height(&self) -> (r: usize)
        ensures
            r == self.spec_height(),
    {
        self.map.len()
    }

    /// The tile at row `row`, column `col`, if the grid has one there.
    pub fn block(&self, row: usize, col: usize) -> (r: Option<Block>)
        ensures
            r == (if row < self.spec_height() && col < self.spec_width() {
                Some(self.cell(row as int, col as int))
            } else {
                None
            }),
    {
        proof {
            use_type_invariant(self);
        }
        if row < self.map.len() && col < self.width {
            Some(self.map[row][col])
        } else {
            None
        }
    }

    /// The tiles to draw when the view origin is `(offset_x, offset_y)`, in row-major
    /// order: every tile whose top-left corner passes `in_view`, each once.
    pub fn visible_blocks(&self, offset_x: i64, offset_y: i64) -> (r: Vec<TileDraw>)
        ensures
            forall|i: int| 0 <= i < r@.len() ==> self.draws(#[trigger] r@[i], offset_x as int, offset_y as int),
            forall|i: int, j: int|
                0 <= i < j < r@.len() ==> before(
                    #[trigger] r@[i].row as int,
                    r@[i].col as int,
                    #[trigger] r@[j].row as int,
                    r@[j].col as int,
                ),
            forall|row: int, col: int|
                0 <= row < self.spec_height() && 0 <= col < self.spec_width() && #[trigger] in_view(
                    screen_x(col, offset_x as int),
                    screen_y(row, offset_y as int),
                ) ==> exists|i: int|
                    0 <= i < r@.len() && #[trigger] r@[i].row == row && r@[i].col == col,
    {
        proof {
            use_type_invariant(self);
        }
        let ghost ox = offset_x as int;
        let ghost oy = offset_y as int;
        let mut out: Vec<TileDraw> = Vec::new();
        let height = self.map.len();
        let mut r: usize = 0;
        while r < height
            invariant
                height == self.spec_height(),
                r <= height,
                ox == offset_x,
                oy == offset_y,
                forall|k: int| 0 <= k < self.map@.len() ==> #[trigger] self.map@[k]@.len() == self.width,
                forall|i: int| 0 <= i < out@.len() ==> self.draws(#[trigger] out@[i], ox, oy),
                forall|i: int| 0 <= i < out@.len() ==> #[trigger] out@[i].row < r,
                forall|i: int, j: int|
                    0 <= i < j < out@.len() ==> before(
                        #[trigger] out@[i].row as int,
                        out@[i].col as int,
                        #[trigger] out@[j].row as int,
                        out@[j].col as int,
                    ),
                forall|row: int, col: int|
                    0 <= row < r && 0 <= col < self.spec_width() && #[trigger] in_view(
                        screen_x(col, ox),
                        screen_y(row, oy),
                    ) ==> exists|i: int|
                        0 <= i < out@.len() && #[trigger] out@[i].row == row && out@[i].col == col,
            decreases height - r,
        {
            let mut c: usize = 0;
            while c < self.width
                invariant
                    height == self.spec_height(),
                    r < height,
                    c <= self.width,
                    ox == offset_x,
                    oy == offset_y,
                    forall|k: int| 0 <= k < self.map@.len() ==> #[trigger] self.map@[k]@.len() == self.width,
                    forall|i: int| 0 <= i < out@.len() ==> self.draws(#[trigger] out@[i], ox, oy),
                    forall|i: int|
                        0 <= i < out@.len() ==> before(
                            #[trigger] out@[i].row as int,
                            out@[i].col as int,
                            r as int,
                            c as int,
                        ),
                    forall|i: int, j: int|
                        0 <= i < j < out@.len() ==> before(
                            #[trigger] out@[i].row as int,
                            out@[i].col as int,
                            #[trigger] out@[j].row as int,
                            out@[j].col as int,
                        ),
                    forall|row: int, col: int|
                        0 <= row < self.spec_height() && 0 <= col < self.spec_width() && before(
                            row,
                            col,
                            r as int,
                            c as int,
                        ) && #[trigger] in_view(screen_x(col, ox), screen_y(row, oy)) ==> exists|i: int|
                            0 <= i < out@.len() && #[trigger] out@[i].row == row && out@[i].col
                                == col,
                decreases self.width - c,
            {
                let x: i128 = (c as i128) * (BLOCK_WIDTH as i128) - (offset_x as i128);
                let y: i128 = (r as i128) * (BLOCK_HEIGHT as i128) - (offset_y as i128);
                if -(BLOCK_WIDTH as i128) <= x && x <= WINDOW_WIDTH as i128 && -(BLOCK_HEIGHT as i128) <= y
                    && y <= WINDOW_HEIGHT as i128 {
                    let d = TileDraw { row: r, col: c, x: x as i64, y: y as i64, block: self.map[r][c] };
                    let ghost prev = out@;
                    out.push(d);
                    assert forall|row: int, col: int|
                        0 <= row < self.spec_height() && 0 <= col < self.spec_width() && before(
                            row,
                            col,
                            r as int,
                            c + 1,
                        ) && #[trigger] in_view(screen_x(col, ox), screen_y(row, oy)) implies exists|i: int|
                            0 <= i < out@.len() && #[trigger] out@[i].row == row && out@[i].col
                                == col by {
                        if row == r && col == c {
                            assert(out@[prev.len() as int].row == row && out@[prev.len() as int].col == col);
                        } else {
                            assert(before(row, col, r as int, c as int));
                            let i = choose|i: int|
                                0 <= i < prev.len() && #[trigger] prev[i].row == row && prev[i].col
                                    == col;
                            assert(out@[i] == prev[i]);
                            assert(out@[i].row == row && out@[i].col == col);
                        }
                    }
                }
                c = c + 1;
            }
            r = r + 1;
        }
        out
    }
}

} // verus!
