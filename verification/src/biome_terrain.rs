use vstd::prelude::*;
use rand::Rng;
use crate::common::Block;
use crate::grid::{cell, inside3, volume, lemma_cell_bounds};
use crate::lit_chunk::{column_light, ids_registered, light_columns, visit_coords};
use crate::position_map::Position;
use crate::world::{names_indexed, BiomeDefinition, WorldData};

verus! {

/// Calls `rand::thread_rng().gen_range(0..n)`: a random index below `n`.
/// The contract says only that the index lies in that range.
#[verifier::external_body]
fn random_below(n: usize) -> (r: usize)
    requires
        n > 0,
    ensures
        r < n,
{
    rand::thread_rng().gen_range(0..n)
}

/// What the noise gives the generation of one 32-cell chunk. Per column
/// (`x * 32 + z`): the name of the biome whose climate lies closest, and the
/// terrain height. Per cell (`x * 1024 + y * 32 + z`): whether the cave
/// noise leaves it open for terrain, and the IEEE-754 bit pattern of a
/// random number in [0, 1) that decides whether a tree grows there.
pub struct BiomeTerrainInput {
    pub biomes: Vec<String>,
    pub heights: Vec<i64>,
    pub open: Vec<bool>,
    pub folliage: Vec<u32>,
}

impl BiomeTerrainInput {
    pub open spec fn wf(&self) -> bool {
        &&& self.biomes@.len() == 1024
        &&& self.heights@.len() == 1024
        &&& self.open@.len() == 32768
        &&& self.folliage@.len() == 32768
    }
}

/// The index of column (x, z) in the per-column inputs.
pub open spec fn column(x: int, z: int) -> int {
    x * 32 + z
}

/// The biome of column (x, z).
pub open spec fn column_biome(input: BiomeTerrainInput, world: WorldData, x: int, z: int) -> BiomeDefinition {
    world.biomes@[input.biomes@[column(x, z)]@]
}

/// The block id registered under `name`, as a chunk stores it.
pub open spec fn block_id(world: WorldData, name: Seq<char>) -> i8 {
    world.block_index@[name] as i8
}

/// The layer that holds height `py` of a column of height `h`: searching
/// from the last layer towards the first (from the `j`-th last on), the
/// first whose depth `d` has `py <= h - d`.
pub open spec fn matched_layer(levels: Seq<(Vec<String>, i64)>, py: int, h: int, j: int) -> Option<int>
    decreases levels.len() - j,
{
    if j < 0 || j >= levels.len() {
        None
    } else if py <= h - levels[levels.len() - 1 - j].1 {
        Some(levels.len() - 1 - j)
    } else {
        matched_layer(levels, py, h, j + 1)
    }
}

/// The layer of cell (x, y, z) of the chunk at `c`, if any.
pub open spec fn layer_at(input: BiomeTerrainInput, world: WorldData, c: Position, x: int, y: int, z: int) -> Option<int> {
    matched_layer(column_biome(input, world, x, z).block_levels@, y + 32 * c.1, input.heights@[column(x, z)] as int, 0)
}

/// The block names of layer `l` of the biome of column (x, z).
pub open spec fn layer_names(input: BiomeTerrainInput, world: WorldData, x: int, z: int, l: int) -> Seq<String> {
    column_biome(input, world, x, z).block_levels@[l].0@
}

/// Which of a layer's names a cell takes: its random pick where the layer
/// offers several, else the first.
pub open spec fn layer_choice(names: Seq<String>, pick: usize) -> int {
    if names.len() > 1 { pick as int } else { 0 }
}

/// Whether block id `b` is ground a tree can grow on: grass, dirt, snow or
/// sand.
pub open spec fn is_ground(world: WorldData, b: i8) -> bool {
    ||| b == block_id(world, "grass_1"@)
    ||| b == block_id(world, "grass_2"@)
    ||| b == block_id(world, "dirt"@)
    ||| b == block_id(world, "snow"@)
    ||| b == block_id(world, "sand_1"@)
    ||| b == block_id(world, "sand_2"@)
}

/// Whether a tree may be drawn for cell (x, y, z) of the chunk at `c`: the
/// cell is open, not on the bottom layer, and one above its column's
/// terrain height.
pub open spec fn tree_possible(input: BiomeTerrainInput, c: Position, x: int, y: int, z: int) -> bool {
    &&& input.open@[cell(32, x, y, z)]
    &&& y > 0
    &&& y + 32 * c.1 == input.heights@[column(x, z)] + 1
}

/// Whether the random number with bit pattern `draw` lies below the chance
/// with bit pattern `chance`. For numbers that are not negative and not NaN
/// the bit patterns are ordered as the numbers are; a negative or NaN chance
/// is never met.
pub open spec fn below_chance(draw: u32, chance: u32) -> bool {
    chance <= 0x7f80_0000 && draw < chance
}

/// `s` with the first `m` blocks of a structure written relative to cell
/// (x, y, z); blocks that fall outside the chunk are left out.
pub open spec fn stamp(s: Seq<i8>, blocks: Seq<Block>, m: int, x: int, y: int, z: int, world: WorldData) -> Seq<i8>
    decreases m,
{
    if m <= 0 {
        s
    } else {
        let s0 = stamp(s, blocks, m - 1, x, y, z, world);
        let b = blocks[m - 1];
        let px = b.position[0] as int + x;
        let py = b.position[1] as int + y;
        let pz = b.position[2] as int + z;
        if inside3(32, px, py, pz) { s0.update(cell(32, px, py, pz), block_id(world, b.block@)) } else { s0 }
    }
}

/// The chunk after the `k`-th visited cell (x-major, then z, then y) is
/// generated: an open cell takes the block of its layer (leaving the cell as
/// it was where no layer holds it); then, where a tree may grow on ground
/// below and the random number lies below the chance of the tree picked,
/// the tree's structure is written around the cell.
pub open spec fn terrain_step(s: Seq<i8>, input: BiomeTerrainInput, world: WorldData, c: Position,
    lp: Seq<usize>, tp: Seq<usize>, k: int) -> Seq<i8>
{
    let (x, y, z) = visit_coords(k);
    let i = cell(32, x, y, z);
    if !input.open@[i] {
        s
    } else {
        let s1 = match layer_at(input, world, c, x, y, z) {
            Some(l) => {
                let names = layer_names(input, world, x, z, l);
                s.update(i, block_id(world, names[layer_choice(names, lp[i])]@))
            },
            None => s,
        };
        if tree_possible(input, c, x, y, z) && is_ground(world, s1[cell(32, x, y - 1, z)]) {
            let tree = column_biome(input, world, x, z).trees@[tp[i] as int];
            if below_chance(input.folliage@[i], tree.1) {
                let blocks = world.structures@[tree.0@]@;
                stamp(s1, blocks, blocks.len() as int, x, y, z, world)
            } else {
                s1
            }
        } else {
            s1
        }
    }
}

/// The chunk after the first `n` visited cells are generated, starting from
/// air.
pub open spec fn terrain_state(input: BiomeTerrainInput, world: WorldData, c: Position,
    lp: Seq<usize>, tp: Seq<usize>, n: int) -> Seq<i8>
    decreases n,
{
    if n <= 0 {
        Seq::new(32768, |i: int| 0i8)
    } else {
        terrain_step(terrain_state(input, world, c, lp, tp, n - 1), input, world, c, lp, tp, n - 1)
    }
}

/// Every name in `names` is a registered block.
pub open spec fn names_registered(world: WorldData, names: Seq<String>) -> bool {
    forall|n: int| 0 <= n < names.len() ==> world.block_index@.contains_key(#[trigger] names[n]@)
}

/// Every block of the structure is registered.
pub open spec fn structure_registered(world: WorldData, blocks: Seq<Block>) -> bool {
    forall|m: int| 0 <= m < blocks.len() ==> world.block_index@.contains_key(#[trigger] blocks[m].block@)
}

/// Every tree names a registered structure of registered blocks.
pub open spec fn trees_usable(world: WorldData, trees: Seq<(String, u32)>) -> bool {
    forall|t: int| 0 <= t < trees.len() ==> world.structures@.contains_key(#[trigger] trees[t].0@)
        && structure_registered(world, world.structures@[trees[t].0@]@)
}

/// The ground blocks trees grow on are registered.
pub open spec fn ground_registered(world: WorldData) -> bool {
    &&& world.block_index@.contains_key("grass_1"@)
    &&& world.block_index@.contains_key("grass_2"@)
    &&& world.block_index@.contains_key("dirt"@)
    &&& world.block_index@.contains_key("snow"@)
    &&& world.block_index@.contains_key("sand_1"@)
    &&& world.block_index@.contains_key("sand_2"@)
}

/// Generating cell (x, y, z) of the chunk at `c` finds what it looks up: an
/// open cell held by a layer has a layer that offers at least one block
/// name, each registered; where a tree may grow, the ground blocks are
/// registered and each tree of the biome names a registered structure of
/// registered blocks.
pub open spec fn cell_usable(input: BiomeTerrainInput, world: WorldData, c: Position, x: int, y: int, z: int) -> bool {
    &&& (input.open@[cell(32, x, y, z)] && layer_at(input, world, c, x, y, z) is Some) ==> {
        let names = layer_names(input, world, x, z, layer_at(input, world, c, x, y, z)->0);
        names.len() > 0 && names_registered(world, names)
    }
    &&& tree_possible(input, c, x, y, z) ==> ground_registered(world) && trees_usable(world, column_biome(input, world, x, z).trees@)
}

/// The inputs and the world hold everything generation of the chunk at `c`
/// looks up: each column's biome, and what each cell needs (see
/// `cell_usable`).
pub open spec fn terrain_usable(input: BiomeTerrainInput, world: WorldData, c: Position) -> bool {
    &&& input.wf()
    &&& forall|col: int| 0 <= col < 1024 ==> world.biomes@.contains_key(#[trigger] input.biomes@[col]@)
    &&& forall|x: int, y: int, z: int| inside3(32, x, y, z) ==> #[trigger] cell_usable(input, world, c, x, y, z)
}

/// The random picks of each cell lie in range where they are used: the
/// layer pick among the names of the cell's layer, the tree pick among the
/// trees of its biome.
pub open spec fn draws_in_range(input: BiomeTerrainInput, world: WorldData, c: Position, lp: Seq<usize>, tp: Seq<usize>) -> bool {
    &&& lp.len() == 32768
    &&& tp.len() == 32768
    &&& forall|x: int, y: int, z: int| inside3(32, x, y, z) ==> {
        &&& (input.open@[cell(32, x, y, z)] ==> (layer_at(input, world, c, x, y, z) matches Some(l) ==> layer_choice(layer_names(input, world, x, z, l), lp[#[trigger] cell(32, x, y, z)]) < layer_names(input, world, x, z, l).len()))
        &&& (tree_possible(input, c, x, y, z) && column_biome(input, world, x, z).trees@.len() > 0
            ==> tp[cell(32, x, y, z)] < column_biome(input, world, x, z).trees@.len())
    }
}

/// Where generation with the picks `lp` and `tp` reaches cell (x, y, z)
/// (the `k`-th visited) and a tree may grow there on ground below, the
/// column's biome has a tree to pick.
pub open spec fn tree_found_at(input: BiomeTerrainInput, world: WorldData, c: Position,
    lp: Seq<usize>, tp: Seq<usize>, k: int) -> bool {
    let (x, y, z) = visit_coords(k);
    (tree_possible(input, c, x, y, z) && is_ground(world, terrain_state(input, world, c, lp, tp, k)[cell(32, x, y - 1, z)]))
        ==> column_biome(input, world, x, z).trees@.len() > 0
}

/// Generation with the picks `lp` and `tp` finds a tree to pick wherever it
/// draws one.
pub open spec fn trees_found(input: BiomeTerrainInput, world: WorldData, c: Position, lp: Seq<usize>, tp: Seq<usize>) -> bool {
    forall|k: int| 0 <= k < 32768 ==> #[trigger] tree_found_at(input, world, c, lp, tp, k)
}

/// Block `m` of the structure of tree `t` of the biome of column `col` is a
/// registered ground block.
pub open spec fn tree_block_ground(input: BiomeTerrainInput, world: WorldData, col: int, t: int, m: int) -> bool {
    let trees = world.biomes@[input.biomes@[col]@].trees@;
    &&& 0 <= col < 1024
    &&& 0 <= t < trees.len()
    &&& world.structures@.contains_key(trees[t].0@)
    &&& 0 <= m < world.structures@[trees[t].0@]@.len()
    &&& world.block_index@.contains_key(world.structures@[trees[t].0@]@[m].block@)
    &&& is_ground(world, block_id(world, world.structures@[trees[t].0@]@[m].block@))
}

/// Some block of some tree of some column's biome is ground.
pub open spec fn tree_ground(input: BiomeTerrainInput, world: WorldData) -> bool {
    exists|col: int, t: int, m: int| #[trigger] tree_block_ground(input, world, col, t, m)
}

/// Some block name of the layer that holds open cell (x, y, z) is ground.
pub open spec fn layer_ground(input: BiomeTerrainInput, world: WorldData, c: Position, x: int, y: int, z: int) -> bool {
    &&& input.open@[cell(32, x, y, z)]
    &&& layer_at(input, world, c, x, y, z) is Some
    &&& exists|n: int| 0 <= n < layer_names(input, world, x, z, layer_at(input, world, c, x, y, z)->0).len()
        && is_ground(world, block_id(world, #[trigger] layer_names(input, world, x, z, layer_at(input, world, c, x, y, z)->0)[n]@))
}

/// Whether generation could leave ground at cell (x, y, z): air counts as
/// ground, a block name of the cell's layer is ground, or a block of some
/// tree is.
pub open spec fn ground_possible(input: BiomeTerrainInput, world: WorldData, c: Position, x: int, y: int, z: int) -> bool {
    ||| is_ground(world, 0i8)
    ||| layer_ground(input, world, c, x, y, z)
    ||| tree_ground(input, world)
}

/// Wherever a tree may grow over a cell that could be ground, the column's
/// biome has a tree.
pub open spec fn trees_where_needed(input: BiomeTerrainInput, world: WorldData, c: Position) -> bool {
    forall|x: int, y: int, z: int| inside3(32, x, y, z) && #[trigger] tree_possible(input, c, x, y, z)
        && ground_possible(input, world, c, x, y - 1, z)
        ==> column_biome(input, world, x, z).trees@.len() > 0
}

/// Every ground block in `s` stands where generation could leave ground.
pub open spec fn ground_explained(input: BiomeTerrainInput, world: WorldData, c: Position, s: Seq<i8>) -> bool {
    forall|x: int, y: int, z: int| inside3(32, x, y, z) && is_ground(world, #[trigger] s[cell(32, x, y, z)])
        ==> ground_possible(input, world, c, x, y, z)
}

/// Stamping a structure none of whose blocks is ground keeps every ground
/// block explained.
proof fn lemma_stamp_explained(input: BiomeTerrainInput, world: WorldData, c: Position, s: Seq<i8>,
    blocks: Seq<Block>, m: int, x: int, y: int, z: int)
    requires
        s.len() == 32768,
        ground_explained(input, world, c, s),
        forall|j: int| 0 <= j < blocks.len() ==> !is_ground(world, block_id(world, #[trigger] blocks[j].block@)),
        m <= blocks.len(),
    ensures
        ground_explained(input, world, c, stamp(s, blocks, m, x, y, z, world)),
        stamp(s, blocks, m, x, y, z, world).len() == 32768,
    decreases m,
{
    if m > 0 {
        lemma_stamp_explained(input, world, c, s, blocks, m - 1, x, y, z);
        let s0 = stamp(s, blocks, m - 1, x, y, z, world);
        let b = blocks[m - 1];
        let px = b.position[0] as int + x;
        let py = b.position[1] as int + y;
        let pz = b.position[2] as int + z;
        if inside3(32, px, py, pz) {
            lemma_cell_bounds(32, px, py, pz);
            let s1 = s0.update(cell(32, px, py, pz), block_id(world, b.block@));
            assert forall|x2: int, y2: int, z2: int| inside3(32, x2, y2, z2) && is_ground(world, #[trigger] s1[cell(32, x2, y2, z2)])
                implies ground_possible(input, world, c, x2, y2, z2) by {
                lemma_cell_bounds(32, x2, y2, z2);
                if cell(32, x2, y2, z2) == cell(32, px, py, pz) {
                    assert(!is_ground(world, block_id(world, blocks[m - 1].block@)));
                } else {
                    assert(s1[cell(32, x2, y2, z2)] == s0[cell(32, x2, y2, z2)]);
                }
            }
        }
    } else {
        if m < 0 {
            assert(stamp(s, blocks, m, x, y, z, world) == s);
        }
    }
}

/// One step of generation keeps every ground block explained, where trees
/// are at hand wherever they may be needed and the picks are in range.
proof fn lemma_step_explained(input: BiomeTerrainInput, world: WorldData, c: Position, s: Seq<i8>,
    lp: Seq<usize>, tp: Seq<usize>, k: int)
    requires
        0 <= k < 32768,
        s.len() == 32768,
        terrain_usable(input, world, c),
        trees_where_needed(input, world, c),
        draws_in_range(input, world, c, lp, tp),
        ground_explained(input, world, c, s),
    ensures
        ground_explained(input, world, c, terrain_step(s, input, world, c, lp, tp, k)),
        terrain_step(s, input, world, c, lp, tp, k).len() == 32768,
{
    let (x, y, z) = visit_coords(k);
    assert(inside3(32, x, y, z)) by {
        assert(0 <= k / 1024 < 32) by (nonlinear_arith) requires 0 <= k < 32768;
    }
    lemma_cell_bounds(32, x, y, z);
    let i = cell(32, x, y, z);
    if input.open@[i] {
        let s1 = match layer_at(input, world, c, x, y, z) {
            Some(l) => {
                let names = layer_names(input, world, x, z, l);
                s.update(i, block_id(world, names[layer_choice(names, lp[i])]@))
            },
            None => s,
        };
        assert(ground_explained(input, world, c, s1)) by {
            assert forall|x2: int, y2: int, z2: int| inside3(32, x2, y2, z2) && is_ground(world, #[trigger] s1[cell(32, x2, y2, z2)])
                implies ground_possible(input, world, c, x2, y2, z2) by {
                lemma_cell_bounds(32, x2, y2, z2);
                if cell(32, x2, y2, z2) == i {
                    crate::grid::lemma_cell_injective(32, x2, y2, z2, x, y, z);
                    match layer_at(input, world, c, x, y, z) {
                        Some(l) => {
                            let names = layer_names(input, world, x, z, l);
                            let n = layer_choice(names, lp[i]);
                            assert(0 <= n < names.len());
                            assert(is_ground(world, block_id(world, names[n]@)));
                            assert(layer_ground(input, world, c, x, y, z));
                        },
                        None => {
                            assert(s1[i] == s[i]);
                        },
                    }
                } else {
                    assert(s1[cell(32, x2, y2, z2)] == s[cell(32, x2, y2, z2)]);
                }
            }
        }
        if tree_possible(input, c, x, y, z) && is_ground(world, s1[cell(32, x, y - 1, z)]) {
            lemma_cell_bounds(32, x, y - 1, z);
            assert(ground_possible(input, world, c, x, y - 1, z));
            let trees = column_biome(input, world, x, z).trees@;
            assert(trees.len() > 0);
            let tree = trees[tp[i] as int];
            if below_chance(input.folliage@[i], tree.1) {
                let blocks = world.structures@[tree.0@]@;
                if exists|j: int| 0 <= j < blocks.len() && is_ground(world, block_id(world, #[trigger] blocks[j].block@)) {
                    let j = choose|j: int| 0 <= j < blocks.len() && is_ground(world, block_id(world, #[trigger] blocks[j].block@));
                    let col = column(x, z);
                    assert(0 <= col < 1024) by (nonlinear_arith) requires 0 <= x < 32, 0 <= z < 32, col == x * 32 + z;
                    assert(tree_ground(input, world)) by {
                        assert(cell_usable(input, world, c, x, y, z));
                        assert(trees_usable(world, trees));
                        assert(world.structures@.contains_key(trees[tp[i] as int].0@));
                        assert(structure_registered(world, blocks));
                        assert(world.block_index@.contains_key(blocks[j].block@));
                        assert(tree_block_ground(input, world, col, tp[i] as int, j));
                    }
                    let r = stamp(s1, blocks, blocks.len() as int, x, y, z, world);
                    lemma_stamp_length(s1, blocks, blocks.len() as int, x, y, z, world);
                    assert forall|x2: int, y2: int, z2: int| inside3(32, x2, y2, z2) && is_ground(world, #[trigger] r[cell(32, x2, y2, z2)])
                        implies ground_possible(input, world, c, x2, y2, z2) by {}
                } else {
                    lemma_stamp_explained(input, world, c, s1, blocks, blocks.len() as int, x, y, z);
                }
            }
        }
    }
}

/// Stamping keeps the chunk's length.
proof fn lemma_stamp_length(s: Seq<i8>, blocks: Seq<Block>, m: int, x: int, y: int, z: int, world: WorldData)
    requires
        s.len() == 32768,
    ensures
        stamp(s, blocks, m, x, y, z, world).len() == 32768,
    decreases m,
{
    if m > 0 {
        lemma_stamp_length(s, blocks, m - 1, x, y, z, world);
        let b = blocks[m - 1];
        let px = b.position[0] as int + x;
        let py = b.position[1] as int + y;
        let pz = b.position[2] as int + z;
        if inside3(32, px, py, pz) {
            lemma_cell_bounds(32, px, py, pz);
        }
    }
}

/// Every state of generation explains its ground blocks.
proof fn lemma_state_explained(input: BiomeTerrainInput, world: WorldData, c: Position,
    lp: Seq<usize>, tp: Seq<usize>, n: int)
    requires
        0 <= n <= 32768,
        terrain_usable(input, world, c),
        trees_where_needed(input, world, c),
        draws_in_range(input, world, c, lp, tp),
    ensures
        ground_explained(input, world, c, terrain_state(input, world, c, lp, tp, n)),
        terrain_state(input, world, c, lp, tp, n).len() == 32768,
    decreases n,
{
    if n > 0 {
        lemma_state_explained(input, world, c, lp, tp, n - 1);
        lemma_step_explained(input, world, c, terrain_state(input, world, c, lp, tp, n - 1), lp, tp, n - 1);
    } else {
        let s = terrain_state(input, world, c, lp, tp, n);
        assert forall|x: int, y: int, z: int| inside3(32, x, y, z) && is_ground(world, #[trigger] s[cell(32, x, y, z)])
            implies ground_possible(input, world, c, x, y, z) by {
            lemma_cell_bounds(32, x, y, z);
        }
    }
}

/// Where trees are at hand wherever generation could need them, every draw
/// of picks in range finds a tree wherever it draws one.
pub proof fn lemma_trees_found(input: BiomeTerrainInput, world: WorldData, c: Position)
    requires
        terrain_usable(input, world, c),
        trees_where_needed(input, world, c),
    ensures
        forall|lp: Seq<usize>, tp: Seq<usize>| #[trigger] draws_in_range(input, world, c, lp, tp)
            ==> trees_found(input, world, c, lp, tp),
{
    assert forall|lp: Seq<usize>, tp: Seq<usize>| #[trigger] draws_in_range(input, world, c, lp, tp)
        implies trees_found(input, world, c, lp, tp) by {
        assert forall|k: int| 0 <= k < 32768 implies #[trigger] tree_found_at(input, world, c, lp, tp, k) by {
            lemma_state_explained(input, world, c, lp, tp, k);
            let (x, y, z) = visit_coords(k);
            assert(inside3(32, x, y, z)) by {
                assert(0 <= k / 1024 < 32) by (nonlinear_arith) requires 0 <= k < 32768;
            }
            if tree_possible(input, c, x, y, z) {
                lemma_cell_bounds(32, x, y - 1, z);
                let s = terrain_state(input, world, c, lp, tp, k);
                if is_ground(world, s[cell(32, x, y - 1, z)]) {
                    assert(ground_possible(input, world, c, x, y - 1, z));
                }
            }
        }
    }
}

/// Block id `b` is the id of some registered block name.
pub open spec fn registered_id(world: WorldData, b: i8) -> bool {
    exists|n: Seq<char>| world.block_index@.contains_key(n) && #[trigger] block_id(world, n) == b
}

/// Every cell of `s` holds air or the id of a registered block name.
pub open spec fn ids_named(world: WorldData, s: Seq<i8>) -> bool {
    forall|j: int| 0 <= j < 32768 && #[trigger] s[j] != 0 ==> registered_id(world, s[j])
}

/// Trees grow on grass, dirt, snow and sand: the ids registered under
/// "grass_1", "grass_2", "dirt", "snow", "sand_1" and "sand_2" are ground,
/// in every world.
pub proof fn lemma_ground_names(world: WorldData, name: Seq<char>)
    requires
        name == "grass_1"@ || name == "grass_2"@ || name == "dirt"@ || name == "snow"@
            || name == "sand_1"@ || name == "sand_2"@,
    ensures
        is_ground(world, block_id(world, name)),
{
}

/// Where generation reaches an open cell one above its column's surface,
/// the block below it is registered under one of the six ground names, and
/// the random number lies below the chance of the tree picked for the cell,
/// that tree's structure is written around the cell, over the cell's layer
/// block.
pub proof fn lemma_tree_grows_on_ground(input: BiomeTerrainInput, world: WorldData, c: Position, s: Seq<i8>,
    lp: Seq<usize>, tp: Seq<usize>, k: int, name: Seq<char>)
    requires
        0 <= k < 32768,
        s.len() == 32768,
        input.wf(),
        name == "grass_1"@ || name == "grass_2"@ || name == "dirt"@ || name == "snow"@
            || name == "sand_1"@ || name == "sand_2"@,
        ({
            let (x, y, z) = visit_coords(k);
            let i = cell(32, x, y, z);
            let tree = column_biome(input, world, x, z).trees@[tp[i] as int];
            &&& input.open@[i]
            &&& tree_possible(input, c, x, y, z)
            &&& s[cell(32, x, y - 1, z)] == block_id(world, name)
            &&& below_chance(input.folliage@[i], tree.1)
        }),
    ensures
        ({
            let (x, y, z) = visit_coords(k);
            let i = cell(32, x, y, z);
            let tree = column_biome(input, world, x, z).trees@[tp[i] as int];
            let blocks = world.structures@[tree.0@]@;
            let layered = match layer_at(input, world, c, x, y, z) {
                Some(l) => {
                    let names = layer_names(input, world, x, z, l);
                    s.update(i, block_id(world, names[layer_choice(names, lp[i])]@))
                },
                None => s,
            };
            terrain_step(s, input, world, c, lp, tp, k) == stamp(layered, blocks, blocks.len() as int, x, y, z, world)
        }),
{
    let (x, y, z) = visit_coords(k);
    assert(0 <= k / 1024 < 32) by (nonlinear_arith) requires 0 <= k < 32768;
    assert(inside3(32, x, y, z));
    let i = cell(32, x, y, z);
    lemma_cell_bounds(32, x, y, z);
    lemma_cell_bounds(32, x, y - 1, z);
    assert(cell(32, x, y - 1, z) == i - 32);
    lemma_ground_names(world, name);
}

/// A registered block's id is air or names a registered block.
proof fn lemma_block_id_registered(world: WorldData, name: Seq<char>)
    requires
        names_indexed(world.block_index@, world.block_names()),
        world.block_index@.contains_key(name),
    ensures
        block_id(world, name) > 0 ==> block_id(world, name) <= world.blocks@.len(),
{
    let v = world.block_index@[name];
    if v > 127 {
        assert(block_id(world, name) <= 127);
    }
}

/// A layer that `matched_layer` finds is one of the levels.
proof fn lemma_matched_layer_range(levels: Seq<(Vec<String>, i64)>, py: int, h: int, j: int)
    ensures
        matched_layer(levels, py, h, j) matches Some(l) ==> 0 <= l < levels.len(),
    decreases levels.len() - j,
{
    if 0 <= j < levels.len() && !(py <= h - levels[levels.len() - 1 - j].1) {
        lemma_matched_layer_range(levels, py, h, j + 1);
    }
}

/// The layer that `matched_layer` finds.
fn find_layer(levels: &Vec<(Vec<String>, i64)>, py: i128, h: i64) -> (r: Option<usize>)
    ensures
        match r {
            Some(l) => matched_layer(levels@, py as int, h as int, 0) == Some(l as int) && l < levels@.len(),
            None => matched_layer(levels@, py as int, h as int, 0) is None,
        },
{
    proof { lemma_matched_layer_range(levels@, py as int, h as int, 0); }
    let n = levels.len();
    let mut j: usize = 0;
    while j < n
        invariant
            n == levels@.len(),
            j <= n,
            matched_layer(levels@, py as int, h as int, 0) == matched_layer(levels@, py as int, h as int, j as int),
        decreases n - j,
    {
        let l = n - 1 - j;
        if py <= h as i128 - levels[l].1 as i128 {
            return Some(l);
        }
        j = j + 1;
    }
    None
}

/// Whether block id `b` is ground, as `is_ground` describes.
fn is_ground_exec(world: &WorldData, b: i8) -> (g: bool)
    requires
        ground_registered(*world),
    ensures
        g == is_ground(*world, b),
{
    let g1 = *world.block_index.get("grass_1").unwrap() as i8;
    let g2 = *world.block_index.get("grass_2").unwrap() as i8;
    let d = *world.block_index.get("dirt").unwrap() as i8;
    let sn = *world.block_index.get("snow").unwrap() as i8;
    let s1 = *world.block_index.get("sand_1").unwrap() as i8;
    let s2 = *world.block_index.get("sand_2").unwrap() as i8;
    b == g1 || b == g2 || b == d || b == sn || b == s1 || b == s2
}

/// Whether the random number with bit pattern `draw` lies below the chance
/// with bit pattern `chance`, as `below_chance` describes.
fn below_chance_exec(draw: u32, chance: u32) -> (r: bool)
    ensures
        r == below_chance(draw, chance),
{
    chance <= 0x7f80_0000 && draw < chance
}

/// Writes the blocks of a structure relative to cell (x, y, z), leaving out
/// those that fall outside the chunk.
fn stamp_structure(chunk: &mut Vec<i8>, blocks: &Vec<Block>, world: &WorldData, x: usize, y: usize, z: usize)
    requires
        old(chunk)@.len() == 32768,
        x < 32 && y < 32 && z < 32,
        structure_registered(*world, blocks@),
        names_indexed(world.block_index@, world.block_names()),
        forall|j: int| 0 <= j < 32768 && #[trigger] old(chunk)@[j] > 0 ==> old(chunk)@[j] <= world.blocks@.len(),
        ids_named(*world, old(chunk)@),
    ensures
        ids_named(*world, final(chunk)@),
        final(chunk)@ == stamp(old(chunk)@, blocks@, blocks@.len() as int, x as int, y as int, z as int, *world),
        final(chunk)@.len() == 32768,
        forall|j: int| 0 <= j < 32768 && #[trigger] final(chunk)@[j] > 0 ==> final(chunk)@[j] <= world.blocks@.len(),
{
    let ghost start = chunk@;
    let mut m: usize = 0;
    while m < blocks.len()
        invariant
            m <= blocks@.len(),
            chunk@.len() == 32768,
            x < 32 && y < 32 && z < 32,
            structure_registered(*world, blocks@),
            names_indexed(world.block_index@, world.block_names()),
            chunk@ == stamp(start, blocks@, m as int, x as int, y as int, z as int, *world),
            forall|j: int| 0 <= j < 32768 && #[trigger] chunk@[j] > 0 ==> chunk@[j] <= world.blocks@.len(),
            ids_named(*world, chunk@),
        decreases blocks@.len() - m,
    {
        let b = &blocks[m];
        let px: i64 = b.position[0] as i64 + x as i64;
        let py: i64 = b.position[1] as i64 + y as i64;
        let pz: i64 = b.position[2] as i64 + z as i64;
        if 0 <= px && px < 32 && 0 <= py && py < 32 && 0 <= pz && pz < 32 {
            assert(world.block_index@.contains_key(blocks@[m as int].block@));
            let id = *world.block_index.get(b.block.as_str()).unwrap() as i8;
            proof {
                lemma_block_id_registered(*world, b.block@);
                lemma_cell_bounds(32, px as int, py as int, pz as int);
            }
            let i = (px * 1024 + py * 32 + pz) as usize;
            assert(block_id(*world, b.block@) == id);
            chunk.set(i, id);
        }
        m = m + 1;
    }
}

/// Generates the blocks of the 32-cell chunk at (cx, cy, cz) from the noise
/// inputs and the random picks `layer_picks` and `tree_picks` (one of each
/// per cell), as `terrain_state` describes.
pub fn place_terrain(input: &BiomeTerrainInput, world_data: &WorldData, cx: i64, cy: i64, cz: i64,
    layer_picks: &Vec<usize>, tree_picks: &Vec<usize>) -> (chunk: Vec<i8>)
    requires
        world_data.wf(),
        terrain_usable(*input, *world_data, (cx, cy, cz)),
        draws_in_range(*input, *world_data, (cx, cy, cz), layer_picks@, tree_picks@),
        trees_found(*input, *world_data, (cx, cy, cz), layer_picks@, tree_picks@),
    ensures
        chunk@ == terrain_state(*input, *world_data, (cx, cy, cz), layer_picks@, tree_picks@, 32768),
        chunk@.len() == 32768,
        ids_registered(chunk@, world_data.blocks@),
        ids_named(*world_data, chunk@),
{
    let ghost c: Position = (cx, cy, cz);
    let ghost lp = layer_picks@;
    let ghost tp = tree_picks@;
    let mut chunk: Vec<i8> = Vec::new();
    let mut n: usize = 0;
    while n < 32768
        invariant
            n <= 32768,
            chunk@ == Seq::new(n as nat, |i: int| 0i8),
        decreases 32768 - n,
    {
        chunk.push(0);
        n = n + 1;
        assert(chunk@ =~= Seq::new(n as nat, |i: int| 0i8));
    }
    assert(chunk@ =~= terrain_state(*input, *world_data, c, lp, tp, 0));
    let mut k: usize = 0;
    while k < 32768
        invariant
            k <= 32768,
            world_data.wf(),
            terrain_usable(*input, *world_data, c),
            draws_in_range(*input, *world_data, c, lp, tp),
            trees_found(*input, *world_data, c, lp, tp),
            c == (cx, cy, cz),
            lp == layer_picks@,
            tp == tree_picks@,
            chunk@ == terrain_state(*input, *world_data, c, lp, tp, k as int),
            chunk@.len() == 32768,
            forall|j: int| 0 <= j < 32768 && #[trigger] chunk@[j] > 0 ==> chunk@[j] <= world_data.blocks@.len(),
            ids_named(*world_data, chunk@),
        decreases 32768 - k,
    {
        let x = k / 1024;
        let y = k % 32;
        let z = (k / 32) % 32;
        proof { lemma_cell_bounds(32, x as int, y as int, z as int); }
        let i = x * 1024 + y * 32 + z;
        assert(i as int == cell(32, x as int, y as int, z as int));
        assert(visit_coords(k as int) == (x as int, y as int, z as int));
        let ghost s = chunk@;
        if input.open[i] {
            let col = x * 32 + z;
            let biome = world_data.biomes.get(input.biomes[col].as_str()).unwrap();
            assert(*biome == column_biome(*input, *world_data, x as int, z as int));
            let py: i128 = y as i128 + 32 * (cy as i128);
            let h: i128 = input.heights[col] as i128;
            let found = find_layer(&biome.block_levels, py, input.heights[col]);
            assert(py as int == y as int + 32 * c.1);
            assert(col as int == column(x as int, z as int));
            assert(biome.block_levels@ == column_biome(*input, *world_data, x as int, z as int).block_levels@);
            assert(layer_at(*input, *world_data, c, x as int, y as int, z as int)
                == matched_layer(biome.block_levels@, py as int, input.heights@[col as int] as int, 0));
            match found {
                Some(l) => {
                    let names = &biome.block_levels[l].0;
                    assert(cell_usable(*input, *world_data, c, x as int, y as int, z as int));
                    assert(layer_names(*input, *world_data, x as int, z as int, l as int) == names@);
                    assert(names@.len() > 0);
                    let p: usize = if names.len() > 1 { layer_picks[i] } else { 0 };
                    assert(p as int == layer_choice(names@, lp[i as int]));
                    assert(names_registered(*world_data, names@));
                    assert(world_data.block_index@.contains_key(names@[p as int]@));
                    let id = *world_data.block_index.get(names[p].as_str()).unwrap() as i8;
                    proof { lemma_block_id_registered(*world_data, names@[p as int]@); }
                    assert(block_id(*world_data, names@[p as int]@) == id);
                    chunk.set(i, id);
                },
                None => {},
            }
            let ghost s1 = chunk@;
            assert(s1 == match layer_at(*input, *world_data, c, x as int, y as int, z as int) {
                Some(l) => {
                    let names = layer_names(*input, *world_data, x as int, z as int, l);
                    s.update(i as int, block_id(*world_data, names[layer_choice(names, lp[i as int])]@))
                },
                None => s,
            });
            if y > 0 && py == h + 1 {
                let below = chunk[i - 32];
                assert(i - 32 == cell(32, x as int, y as int - 1, z as int));
                assert(tree_possible(*input, c, x as int, y as int, z as int));
                assert(cell_usable(*input, *world_data, c, x as int, y as int, z as int));
                if is_ground_exec(world_data, below) {
                    assert(below == s[cell(32, x as int, y as int - 1, z as int)]);
                    assert(tree_found_at(*input, *world_data, c, lp, tp, k as int));
                    assert(biome.trees@.len() > 0);
                    let t = &biome.trees[tree_picks[i]];
                    if below_chance_exec(input.folliage[i], t.1) {
                        assert(trees_usable(*world_data, biome.trees@));
                        assert(world_data.structures@.contains_key(biome.trees@[tp[i as int] as int].0@));
                        let blocks = world_data.structures.get(t.0.as_str()).unwrap();
                        stamp_structure(&mut chunk, blocks, world_data, x, y, z);
                    }
                }
            } else {
                assert(!tree_possible(*input, c, x as int, y as int, z as int));
            }
            assert(chunk@ == terrain_step(s, *input, *world_data, c, lp, tp, k as int));
        } else {
            assert(chunk@ == terrain_step(s, *input, *world_data, c, lp, tp, k as int));
        }
        assert(terrain_state(*input, *world_data, c, lp, tp, k as int + 1)
            == terrain_step(terrain_state(*input, *world_data, c, lp, tp, k as int), *input, *world_data, c, lp, tp, k as int));
        k = k + 1;
    }
    chunk
}

/// Whether every name in `names` is a registered block.
fn names_all_registered(world: &WorldData, names: &Vec<String>) -> (b: bool)
    ensures
        b == names_registered(*world, names@),
{
    let mut n: usize = 0;
    while n < names.len()
        invariant
            n <= names@.len(),
            forall|m: int| 0 <= m < n ==> world.block_index@.contains_key(#[trigger] names@[m]@),
        decreases names@.len() - n,
    {
        if !world.block_index.contains_key(names[n].as_str()) {
            return false;
        }
        n = n + 1;
    }
    true
}

/// Whether every block of the structure is registered.
fn structure_all_registered(world: &WorldData, blocks: &Vec<Block>) -> (b: bool)
    ensures
        b == structure_registered(*world, blocks@),
{
    let mut m: usize = 0;
    while m < blocks.len()
        invariant
            m <= blocks@.len(),
            forall|k: int| 0 <= k < m ==> world.block_index@.contains_key(#[trigger] blocks@[k].block@),
        decreases blocks@.len() - m,
    {
        if !world.block_index.contains_key(blocks[m].block.as_str()) {
            return false;
        }
        m = m + 1;
    }
    true
}

/// Whether every tree names a registered structure of registered blocks.
fn trees_all_usable(world: &WorldData, trees: &Vec<(String, u32)>) -> (b: bool)
    ensures
        b == trees_usable(*world, trees@),
{
    let mut t: usize = 0;
    while t < trees.len()
        invariant
            t <= trees@.len(),
            forall|k: int| 0 <= k < t ==> world.structures@.contains_key(#[trigger] trees@[k].0@)
                && structure_registered(*world, world.structures@[trees@[k].0@]@),
        decreases trees@.len() - t,
    {
        match world.structures.get(trees[t].0.as_str()) {
            Some(blocks) => {
                if !structure_all_registered(world, blocks) {
                    return false;
                }
            },
            None => {
                return false;
            },
        }
        t = t + 1;
    }
    true
}

/// Whether some block of some tree of some column's biome is ground, as
/// `tree_ground` describes.
fn tree_ground_exec(input: &BiomeTerrainInput, world: &WorldData) -> (r: bool)
    requires
        input.wf(),
        ground_registered(*world),
        forall|col: int| 0 <= col < 1024 ==> world.biomes@.contains_key(#[trigger] input.biomes@[col]@),
    ensures
        r == tree_ground(*input, *world),
{
    let mut col: usize = 0;
    while col < 1024
        invariant
            col <= 1024,
            input.wf(),
            ground_registered(*world),
            forall|col: int| 0 <= col < 1024 ==> world.biomes@.contains_key(#[trigger] input.biomes@[col]@),
            forall|c2: int, t: int, m: int| c2 < col ==> !#[trigger] tree_block_ground(*input, *world, c2, t, m),
        decreases 1024 - col,
    {
        assert(world.biomes@.contains_key(input.biomes@[col as int]@));
        let trees = &world.biomes.get(input.biomes[col].as_str()).unwrap().trees;
        let mut t: usize = 0;
        while t < trees.len()
            invariant
                col < 1024,
                t <= trees@.len(),
                *trees == world.biomes@[input.biomes@[col as int]@].trees,
                ground_registered(*world),
                forall|c2: int, t2: int, m: int| c2 < col ==> !#[trigger] tree_block_ground(*input, *world, c2, t2, m),
                forall|t2: int, m: int| t2 < t ==> !#[trigger] tree_block_ground(*input, *world, col as int, t2, m),
            decreases trees@.len() - t,
        {
            match world.structures.get(trees[t].0.as_str()) {
                Some(blocks) => {
                    let mut m: usize = 0;
                    while m < blocks.len()
                        invariant
                            col < 1024,
                            t < trees@.len(),
                            *trees == world.biomes@[input.biomes@[col as int]@].trees,
                            world.structures@.contains_key(trees@[t as int].0@),
                            *blocks == world.structures@[trees@[t as int].0@],
                            m <= blocks@.len(),
                            ground_registered(*world),
                            forall|m2: int| m2 < m ==> !#[trigger] tree_block_ground(*input, *world, col as int, t as int, m2),
                        decreases blocks@.len() - m,
                    {
                        match world.block_index.get(blocks[m].block.as_str()) {
                            Some(v) => {
                                if is_ground_exec(world, *v as i8) {
                                    assert(tree_block_ground(*input, *world, col as int, t as int, m as int));
                                    return true;
                                }
                            },
                            None => {},
                        }
                        m = m + 1;
                    }
                },
                None => {},
            }
            t = t + 1;
        }
        col = col + 1;
    }
    false
}

/// Whether some block name of the layer that holds open cell (x, y, z) is
/// ground, as `layer_ground` describes.
fn layer_ground_exec(input: &BiomeTerrainInput, world: &WorldData, cx: i64, cy: i64, cz: i64, x: usize, y: usize, z: usize) -> (r: bool)
    requires
        input.wf(),
        ground_registered(*world),
        forall|col: int| 0 <= col < 1024 ==> world.biomes@.contains_key(#[trigger] input.biomes@[col]@),
        x < 32 && y < 32 && z < 32,
        cell_usable(*input, *world, (cx, cy, cz), x as int, y as int, z as int),
    ensures
        r == layer_ground(*input, *world, (cx, cy, cz), x as int, y as int, z as int),
{
    let ghost c: Position = (cx, cy, cz);
    proof { lemma_cell_bounds(32, x as int, y as int, z as int); }
    let i = x * 1024 + y * 32 + z;
    assert(i as int == cell(32, x as int, y as int, z as int));
    if !input.open[i] {
        return false;
    }
    let col = x * 32 + z;
    assert(col as int == column(x as int, z as int));
    assert(world.biomes@.contains_key(input.biomes@[col as int]@));
    let biome = world.biomes.get(input.biomes[col].as_str()).unwrap();
    let py: i128 = y as i128 + 32 * (cy as i128);
    assert(layer_at(*input, *world, c, x as int, y as int, z as int)
        == matched_layer(biome.block_levels@, py as int, input.heights@[col as int] as int, 0));
    match find_layer(&biome.block_levels, py, input.heights[col]) {
        None => false,
        Some(l) => {
            let names = &biome.block_levels[l].0;
            assert(layer_names(*input, *world, x as int, z as int, l as int) == names@);
            assert(layer_at(*input, *world, c, x as int, y as int, z as int) == Some(l as int));
            assert(names_registered(*world, names@));
            let mut n: usize = 0;
            while n < names.len()
                invariant
                    n <= names@.len(),
                    input.wf(),
                    c == (cx, cy, cz),
                    input.open@[cell(32, x as int, y as int, z as int)],
                    layer_at(*input, *world, c, x as int, y as int, z as int) == Some(l as int),
                    layer_names(*input, *world, x as int, z as int, l as int) == names@,
                    ground_registered(*world),
                    names_registered(*world, names@),
                    forall|m: int| 0 <= m < n ==> !is_ground(*world, block_id(*world, #[trigger] names@[m]@)),
                decreases names@.len() - n,
            {
                assert(world.block_index@.contains_key(names@[n as int]@));
                let id = *world.block_index.get(names[n].as_str()).unwrap() as i8;
                if is_ground_exec(world, id) {
                    let ghost ln = layer_names(*input, *world, x as int, z as int, l as int);
                    assert(0 <= n < ln.len() && is_ground(*world, block_id(*world, ln[n as int]@)));
                    assert(exists|n2: int| 0 <= n2 < ln.len() && is_ground(*world, block_id(*world, #[trigger] ln[n2]@)));
                    assert(input.open@[cell(32, x as int, y as int, z as int)]);
                    assert(layer_at(*input, *world, c, x as int, y as int, z as int) is Some);
                    assert(layer_at(*input, *world, c, x as int, y as int, z as int)->0 == l as int);
                    assert(layer_ground(*input, *world, c, x as int, y as int, z as int));
                    return true;
                }
                n = n + 1;
            }
            false
        },
    }
}

/// Whether generating the chunk at (cx, cy, cz) from `input` finds all it
/// looks up (see `terrain_usable`) and has a tree to pick wherever a tree
/// may grow over a cell that could be ground (see `trees_where_needed`);
/// where it has, every draw of random picks finds a tree wherever it draws
/// one. A biome without trees passes where nothing under its tree cells can
/// be ground.
pub fn generation_possible(input: &BiomeTerrainInput, world_data: &WorldData, cx: i64, cy: i64, cz: i64) -> (ok: bool)
    ensures
        ok == (terrain_usable(*input, *world_data, (cx, cy, cz)) && trees_where_needed(*input, *world_data, (cx, cy, cz))),
        ok ==> forall|lp: Seq<usize>, tp: Seq<usize>| #[trigger] draws_in_range(*input, *world_data, (cx, cy, cz), lp, tp)
            ==> trees_found(*input, *world_data, (cx, cy, cz), lp, tp),
{
    let ghost c: Position = (cx, cy, cz);
    if input.biomes.len() != 1024 || input.heights.len() != 1024 || input.open.len() != 32768 || input.folliage.len() != 32768 {
        return false;
    }
    let mut col: usize = 0;
    while col < 1024
        invariant
            col <= 1024,
            input.wf(),
            forall|k: int| 0 <= k < col ==> world_data.biomes@.contains_key(#[trigger] input.biomes@[k]@),
        decreases 1024 - col,
    {
        if !world_data.biomes.contains_key(input.biomes[col].as_str()) {
            return false;
        }
        col = col + 1;
    }
    let ground = world_data.block_index.contains_key("grass_1") && world_data.block_index.contains_key("grass_2")
        && world_data.block_index.contains_key("dirt") && world_data.block_index.contains_key("snow")
        && world_data.block_index.contains_key("sand_1") && world_data.block_index.contains_key("sand_2");
    assert(ground == ground_registered(*world_data));
    let mut i: usize = 0;
    while i < 32768
        invariant
            i <= 32768,
            input.wf(),
            c == (cx, cy, cz),
            ground == ground_registered(*world_data),
            forall|k: int| 0 <= k < 1024 ==> world_data.biomes@.contains_key(#[trigger] input.biomes@[k]@),
            forall|x: int, y: int, z: int| inside3(32, x, y, z) && #[trigger] cell(32, x, y, z) < i ==> {
                &&& cell_usable(*input, *world_data, c, x, y, z)
                &&& (tree_possible(*input, c, x, y, z) && ground_possible(*input, *world_data, c, x, y - 1, z)
                    ==> column_biome(*input, *world_data, x, z).trees@.len() > 0)
            },
        decreases 32768 - i,
    {
        let x = i / 1024;
        let y = (i / 32) % 32;
        let z = i % 32;
        proof { lemma_cell_bounds(32, x as int, y as int, z as int); }
        assert(i as int == cell(32, x as int, y as int, z as int));
        let col = x * 32 + z;
        assert(world_data.biomes@.contains_key(input.biomes@[col as int]@));
        let biome = world_data.biomes.get(input.biomes[col].as_str()).unwrap();
        assert(*biome == column_biome(*input, *world_data, x as int, z as int));
        let py: i128 = y as i128 + 32 * (cy as i128);
        let h: i128 = input.heights[col] as i128;
        assert(py as int == y as int + 32 * c.1);
        assert(col as int == column(x as int, z as int));
        assert(layer_at(*input, *world_data, c, x as int, y as int, z as int)
            == matched_layer(biome.block_levels@, py as int, input.heights@[col as int] as int, 0));
        if input.open[i] {
            match find_layer(&biome.block_levels, py, input.heights[col]) {
                Some(l) => {
                    let names = &biome.block_levels[l].0;
                    assert(layer_names(*input, *world_data, x as int, z as int, l as int) == names@);
                    if names.len() == 0 || !names_all_registered(world_data, names) {
                        assert(!cell_usable(*input, *world_data, c, x as int, y as int, z as int));
                        return false;
                    }
                },
                None => {},
            }
            if y > 0 && py == h + 1 {
                assert(tree_possible(*input, c, x as int, y as int, z as int));
                if !ground || !trees_all_usable(world_data, &biome.trees) {
                    assert(!cell_usable(*input, *world_data, c, x as int, y as int, z as int));
                    return false;
                }
                if biome.trees.len() == 0 {
                    proof {
                        lemma_cell_bounds(32, x as int, y as int - 1, z as int);
                        assert(cell_usable(*input, *world_data, c, x as int, y as int - 1, z as int));
                    }
                    let zero_ground = is_ground_exec(world_data, 0);
                    if zero_ground || layer_ground_exec(input, world_data, cx, cy, cz, x, y - 1, z) || tree_ground_exec(input, world_data) {
                        assert(ground_possible(*input, *world_data, c, x as int, y as int - 1, z as int));
                        return false;
                    }
                }
            }
        }
        proof {
            assert forall|x2: int, y2: int, z2: int| inside3(32, x2, y2, z2) && #[trigger] cell(32, x2, y2, z2) < i + 1 implies {
                &&& cell_usable(*input, *world_data, c, x2, y2, z2)
                &&& (tree_possible(*input, c, x2, y2, z2) && ground_possible(*input, *world_data, c, x2, y2 - 1, z2)
                    ==> column_biome(*input, *world_data, x2, z2).trees@.len() > 0)
            } by {
                if cell(32, x2, y2, z2) == i {
                    crate::grid::lemma_cell_injective(32, x2, y2, z2, x as int, y as int, z as int);
                }
            }
        }
        i = i + 1;
    }
    assert forall|x: int, y: int, z: int| inside3(32, x, y, z) implies #[trigger] cell_usable(*input, *world_data, c, x, y, z) by {
        lemma_cell_bounds(32, x, y, z);
    }
    assert forall|x: int, y: int, z: int| inside3(32, x, y, z) && #[trigger] tree_possible(*input, c, x, y, z)
        && ground_possible(*input, *world_data, c, x, y - 1, z) implies column_biome(*input, *world_data, x, z).trees@.len() > 0 by {
        lemma_cell_bounds(32, x, y, z);
    }
    proof { lemma_trees_found(*input, *world_data, c); }
    true
}

/// Generates the 32-cell chunk at (cx, cy, cz) and its light map: the
/// blocks as `terrain_state` describes for some random picks in range (each
/// drawn only for a cell that may use it), and the light falling down each
/// column as `column_light` describes.
pub fn generate_chunk(chunk_position_x: i64, chunk_position_y: i64, chunk_position_z: i64,
    input: &BiomeTerrainInput, world_data: &WorldData) -> (r: (Vec<i8>, Vec<i8>))
    requires
        world_data.wf(),
        terrain_usable(*input, *world_data, (chunk_position_x, chunk_position_y, chunk_position_z)),
        forall|lp: Seq<usize>, tp: Seq<usize>| #[trigger] draws_in_range(*input, *world_data, (chunk_position_x, chunk_position_y, chunk_position_z), lp, tp)
            ==> trees_found(*input, *world_data, (chunk_position_x, chunk_position_y, chunk_position_z), lp, tp),
    ensures
        exists|lp: Seq<usize>, tp: Seq<usize>| {
            &&& draws_in_range(*input, *world_data, (chunk_position_x, chunk_position_y, chunk_position_z), lp, tp)
            &&& r.0@ == terrain_state(*input, *world_data, (chunk_position_x, chunk_position_y, chunk_position_z), lp, tp, 32768)
        },
        r.1@.len() == volume(32),
        ids_named(*world_data, r.0@),
        forall|x: int, y: int, z: int| inside3(32, x, y, z) ==>
            #[trigger] r.1@[cell(32, x, y, z)] == column_light(r.0@, world_data.blocks@, x, z, y),
{
    let ghost c: Position = (chunk_position_x, chunk_position_y, chunk_position_z);
    let mut layer_picks: Vec<usize> = Vec::new();
    let mut tree_picks: Vec<usize> = Vec::new();
    let mut i: usize = 0;
    while i < 32768
        invariant
            i <= 32768,
            c == (chunk_position_x, chunk_position_y, chunk_position_z),
            layer_picks@.len() == i,
            tree_picks@.len() == i,
            terrain_usable(*input, *world_data, c),
            forall|x: int, y: int, z: int| inside3(32, x, y, z) && #[trigger] cell(32, x, y, z) < i ==> {
                &&& (input.open@[cell(32, x, y, z)] ==> (layer_at(*input, *world_data, c, x, y, z) matches Some(l) ==> layer_choice(layer_names(*input, *world_data, x, z, l), layer_picks@[cell(32, x, y, z)]) < layer_names(*input, *world_data, x, z, l).len()))
                &&& (tree_possible(*input, c, x, y, z) && column_biome(*input, *world_data, x, z).trees@.len() > 0
                    ==> tree_picks@[cell(32, x, y, z)] < column_biome(*input, *world_data, x, z).trees@.len())
            },
        decreases 32768 - i,
    {
        let x = i / 1024;
        let y = (i / 32) % 32;
        let z = i % 32;
        proof { lemma_cell_bounds(32, x as int, y as int, z as int); }
        assert(i as int == cell(32, x as int, y as int, z as int));
        let col = x * 32 + z;
        let mut lpick: usize = 0;
        let mut tpick: usize = 0;
        if input.open[i] {
            let biome = world_data.biomes.get(input.biomes[col].as_str()).unwrap();
            assert(*biome == column_biome(*input, *world_data, x as int, z as int));
            let py: i128 = y as i128 + 32 * (chunk_position_y as i128);
            let h: i128 = input.heights[col] as i128;
            match find_layer(&biome.block_levels, py, input.heights[col]) {
                Some(l) => {
                    let n = biome.block_levels[l].0.len();
                    if n > 1 {
                        lpick = random_below(n);
                    }
                },
                None => {},
            }
            if y > 0 && py == h + 1 && biome.trees.len() > 0 {
                assert(tree_possible(*input, c, x as int, y as int, z as int));
                tpick = random_below(biome.trees.len());
            }
        }
        proof {
            let cb = column_biome(*input, *world_data, x as int, z as int);
            assert(world_data.biomes@.contains_key(input.biomes@[col as int]@));
            lemma_matched_layer_range(cb.block_levels@, y as int + 32 * chunk_position_y, input.heights@[col as int] as int, 0);
            assert(cell_usable(*input, *world_data, c, x as int, y as int, z as int));
            if input.open@[i as int] {
                match layer_at(*input, *world_data, c, x as int, y as int, z as int) {
                    Some(l) => {
                        assert(layer_names(*input, *world_data, x as int, z as int, l).len() > 0);
                        assert(layer_choice(layer_names(*input, *world_data, x as int, z as int, l), lpick) < layer_names(*input, *world_data, x as int, z as int, l).len());
                    },
                    None => {},
                }
            }
        }
        layer_picks.push(lpick);
        tree_picks.push(tpick);
        proof {
            assert forall|x2: int, y2: int, z2: int| inside3(32, x2, y2, z2) && #[trigger] cell(32, x2, y2, z2) < i + 1 implies {
                &&& (input.open@[cell(32, x2, y2, z2)] ==> (layer_at(*input, *world_data, c, x2, y2, z2) matches Some(l) ==> layer_choice(layer_names(*input, *world_data, x2, z2, l), layer_picks@[cell(32, x2, y2, z2)]) < layer_names(*input, *world_data, x2, z2, l).len()))
                &&& (tree_possible(*input, c, x2, y2, z2) && column_biome(*input, *world_data, x2, z2).trees@.len() > 0
                    ==> tree_picks@[cell(32, x2, y2, z2)] < column_biome(*input, *world_data, x2, z2).trees@.len())
            } by {
                if cell(32, x2, y2, z2) == i {
                    crate::grid::lemma_cell_injective(32, x2, y2, z2, x as int, y as int, z as int);
                }
            }
        }
        i = i + 1;
    }
    assert forall|x: int, y: int, z: int| inside3(32, x, y, z) implies {
        &&& (input.open@[cell(32, x, y, z)] ==> (layer_at(*input, *world_data, c, x, y, z) matches Some(l) ==> layer_choice(layer_names(*input, *world_data, x, z, l), layer_picks@[#[trigger] cell(32, x, y, z)]) < layer_names(*input, *world_data, x, z, l).len()))
        &&& (tree_possible(*input, c, x, y, z) && column_biome(*input, *world_data, x, z).trees@.len() > 0
            ==> tree_picks@[cell(32, x, y, z)] < column_biome(*input, *world_data, x, z).trees@.len())
    } by {
        lemma_cell_bounds(32, x, y, z);
    }
    assert(draws_in_range(*input, *world_data, c, layer_picks@, tree_picks@));
    assert(trees_found(*input, *world_data, c, layer_picks@, tree_picks@));
    let chunk = place_terrain(input, world_data, chunk_position_x, chunk_position_y, chunk_position_z, &layer_picks, &tree_picks);
    let light = light_columns(&chunk, world_data);
    (chunk, light)
}

} // verus!
