use vstd::prelude::*;
use rand::Rng;
use crate::world::WorldData;

verus! {

/// The block names that terrain generation places.
pub open spec fn dirt_name() -> Seq<char> { "dirt"@ }
pub open spec fn stone_name() -> Seq<char> { "stone"@ }
pub open spec fn grass_1_name() -> Seq<char> { "grass_1"@ }
pub open spec fn grass_2_name() -> Seq<char> { "grass_2"@ }
pub open spec fn oak_log_name() -> Seq<char> { "oak_log"@ }

/// The world coordinate of cell `v` of the chunk at chunk coordinate `c`.
pub open spec fn world_coord(v: int, c: int) -> int {
    v + 16 * c
}

/// Whether a cell at world position (px, py, pz) lies outside the open
/// ball of radius 10 around (0, 16, 0) that is kept clear at the origin.
pub open spec fn outside_clearing(px: int, py: int, pz: int) -> bool {
    px * px + (py - 16) * (py - 16) + pz * pz > 100
}

/// What the terrain rule of cell (x, y, z) puts there, given the column's
/// surface height `h`: dirt in the four levels below the surface, stone
/// below that, grass on the surface (`grass_1` when `grass` holds, else
/// `grass_2`), nothing above; and nothing inside the clearing.
pub open spec fn ground_name(px: int, py: int, pz: int, h: int, grass: bool) -> Option<Seq<char>> {
    if !outside_clearing(px, py, pz) {
        None
    } else if py > h - 4 && py < h {
        Some(dirt_name())
    } else if py < h {
        Some(stone_name())
    } else if py == h {
        Some(if grass { grass_1_name() } else { grass_2_name() })
    } else {
        None
    }
}

/// The generation inputs of a 16-cell chunk at `c`: `heights[x * 16 + z]` is
/// the surface height of column (x, z); `grass[i]` and `tree[i]` are the
/// random draws of cell `i` (grass variant; whether a tree stands there).
pub struct TerrainInput {
    pub heights: Vec<i64>,
    pub grass: Vec<bool>,
    pub tree: Vec<bool>,
}

impl TerrainInput {
    pub open spec fn wf(&self) -> bool {
        &&& self.heights@.len() == 256
        &&& self.grass@.len() == 4096
        &&& self.tree@.len() == 4096
    }

    pub open spec fn height(&self, x: int, z: int) -> int {
        self.heights@[x * 16 + z] as int
    }

    /// The name that the rule of cell `i` places, in chunk `c`.
    pub open spec fn rule(&self, c: (i64, i64, i64), i: int) -> Option<Seq<char>> {
        let (x, y, z) = crate::chunk::cell_coords(i);
        ground_name(world_coord(x, c.0 as int), world_coord(y, c.1 as int), world_coord(z, c.2 as int),
            self.height(x, z), self.grass@[i])
    }

    /// Whether a tree trunk starts at cell `i`: outside the clearing, one
    /// above the surface, where the draw says so.
    pub open spec fn tree_base(&self, c: (i64, i64, i64), i: int) -> bool {
        let (x, y, z) = crate::chunk::cell_coords(i);
        let px = world_coord(x, c.0 as int);
        let py = world_coord(y, c.1 as int);
        let pz = world_coord(z, c.2 as int);
        outside_clearing(px, py, pz) && py == self.height(x, z) + 1 && self.tree@[i]
    }

    /// Whether cell `i` is one of the five trunk cells of a tree that starts
    /// at or below it in its column.
    pub open spec fn in_trunk(&self, c: (i64, i64, i64), i: int) -> bool {
        let y = crate::chunk::cell_coords(i).1;
        exists|k: int| 0 <= k < 5 && k <= y && #[trigger] self.tree_base(c, i - 16 * k)
    }
}

/// Calls `rand::thread_rng().gen::<bool>()`: a random truth value, of
/// which nothing is stated.
#[verifier::external_body]
fn random_bool() -> bool {
    rand::thread_rng().gen::<bool>()
}

/// The grass draws of a 16-cell chunk: one random truth value per cell,
/// choosing between the two grass blocks where the cell is a surface cell.
pub fn grass_draws() -> (grass: Vec<bool>)
    ensures
        grass@.len() == 4096,
{
    let mut grass: Vec<bool> = Vec::new();
    let mut i: usize = 0;
    while i < 4096
        invariant
            i <= 4096,
            grass@.len() == i,
        decreases 4096 - i,
    {
        grass.push(random_bool());
        i = i + 1;
    }
    grass
}

/// The block ids of the chunk that `generate_chunk` builds: each cell holds
/// what its rule places, else an oak log where a trunk passes, else air.
pub open spec fn generated_cell(input: TerrainInput, world: WorldData, c: (i64, i64, i64), i: int) -> i8 {
    match input.rule(c, i) {
        Some(name) => world.block_index@[name] as i8,
        None => if input.in_trunk(c, i) { world.block_index@[oak_log_name()] as i8 } else { 0 },
    }
}

} // verus!
