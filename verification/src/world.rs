use vstd::prelude::*;
use vstd::hash_map::StringHashMap;
use crate::position_map::{Position, PositionMap};
use crate::common::{Block, Element};

pub mod object;
pub mod biomes;
pub mod generation;
pub mod world;

verus! {

/// A registered block kind.
pub struct BlockDefinition {
    pub name: String,
    /// Texture tiles of the six faces: +x, -x, +y, -y, +z, -z.
    pub sides: Vec<i8>,
    pub owner: String,
    pub shape: String,
    pub render_sides: bool,
    pub transparent: bool,
    pub collide: bool,
}

/// A registered biome. The chances of trees, foliage and buildings are the
/// IEEE-754 bit patterns of the biome file's numbers, carried unchanged.
pub struct BiomeDefinition {
    pub temperature: i8,
    pub moisture: i8,
    pub height: i8,
    pub block_levels: Vec<(Vec<String>, i64)>,
    pub sea_level: i64,
    pub trees: Vec<(String, u32)>,
    pub folliage: Vec<(String, u32)>,
    pub buildings: Vec<(String, u32)>,
}

/// The shared state of the world: the registries of shapes, blocks,
/// structures and biomes, the loaded chunks and the bookkeeping of which
/// chunks are queued, created, active and in which render buffer.
pub struct WorldData {
    pub active_chunks: Vec<usize>,
    pub updated_chunks: Vec<usize>,
    pub updated_chunks_transparent: Vec<usize>,
    pub chunk_update_queue: Vec<usize>,
    pub chunk_queue: PositionMap<()>,
    pub created_chunk_queue: PositionMap<()>,
    pub shapes: Vec<(String, Vec<Element>)>,
    pub shape_index: StringHashMap<usize>,
    pub blocks: Vec<BlockDefinition>,
    pub block_index: StringHashMap<usize>,
    pub chunks: PositionMap<Vec<i8>>,
    pub chunk_buffer_index: PositionMap<i64>,
    pub chunk_buffer_coordinates: Vec<Position>,
    pub biomes: StringHashMap<BiomeDefinition>,
    pub structures: StringHashMap<Vec<Block>>,
}

/// Each name in `index` names 0 or the 1-based position of an entry of
/// `names` that carries that name.
pub open spec fn names_indexed(index: Map<Seq<char>, usize>, names: Seq<Seq<char>>) -> bool {
    forall|n: Seq<char>| #[trigger] index.contains_key(n) ==>
        index[n] == 0 || (1 <= index[n] <= names.len() && names[index[n] - 1] == n)
}

/// Each position in `index` names an entry of `coordinates` that holds it.
pub open spec fn buffers_indexed(index: Map<Position, i64>, coordinates: Seq<Position>) -> bool {
    forall|p: Position| #[trigger] index.contains_key(p) ==>
        0 <= index[p] < coordinates.len() && coordinates[index[p] as int] == p
}

/// A block name registered with a non-zero id leads back to its own
/// definition: the id is the definition's 1-based position in the block
/// list. Every operation on the world keeps this so (it is part of `wf`).
pub proof fn lemma_registered_block_found(world: WorldData, name: Seq<char>)
    requires
        world.wf(),
        world.block_index@.contains_key(name),
        world.block_index@[name] != 0,
    ensures
        1 <= world.block_index@[name] <= world.blocks@.len(),
        world.blocks@[world.block_index@[name] - 1].name@ == name,
{
    assert(world.block_names()[world.block_index@[name] - 1] == name);
}

/// The render buffer recorded for a chunk position leads back to that
/// position: every operation on the world keeps this so (it is part of
/// `wf`).
pub proof fn lemma_buffer_leads_back(world: WorldData, p: Position)
    requires
        world.wf(),
        world.chunk_buffer_index@.contains_key(p),
    ensures
        0 <= world.chunk_buffer_index@[p] < world.chunk_buffer_coordinates@.len(),
        world.chunk_buffer_coordinates@[world.chunk_buffer_index@[p] as int] == p,
{
}

impl WorldData {
    pub open spec fn block_names(&self) -> Seq<Seq<char>> {
        self.blocks@.map_values(|b: BlockDefinition| b.name@)
    }

    pub open spec fn shape_names(&self) -> Seq<Seq<char>> {
        self.shapes@.map_values(|s: (String, Vec<Element>)| s.0@)
    }

    /// The world's registries and maps are consistent.
    pub open spec fn wf(&self) -> bool {
        &&& self.chunk_queue.wf()
        &&& self.created_chunk_queue.wf()
        &&& self.chunks.wf()
        &&& self.chunk_buffer_index.wf()
        &&& names_indexed(self.block_index@, self.block_names())
        &&& names_indexed(self.shape_index@, self.shape_names())
        &&& buffers_indexed(self.chunk_buffer_index@, self.chunk_buffer_coordinates@)
    }

    /// Everything but the chunk map is as in `other`.
    pub open spec fn same_except_chunks(&self, other: &WorldData) -> bool {
        &&& self.active_chunks == other.active_chunks
        &&& self.updated_chunks == other.updated_chunks
        &&& self.updated_chunks_transparent == other.updated_chunks_transparent
        &&& self.chunk_update_queue == other.chunk_update_queue
        &&& self.chunk_queue == other.chunk_queue
        &&& self.created_chunk_queue == other.created_chunk_queue
        &&& self.shapes == other.shapes
        &&& self.shape_index == other.shape_index
        &&& self.blocks == other.blocks
        &&& self.block_index == other.block_index
        &&& self.chunk_buffer_index == other.chunk_buffer_index
        &&& self.chunk_buffer_coordinates == other.chunk_buffer_coordinates
        &&& self.biomes == other.biomes
        &&& self.structures == other.structures
    }

    /// Everything but the chunk map and the re-render queue is as in
    /// `other`.
    pub open spec fn same_except_edit(&self, other: &WorldData) -> bool {
        &&& self.active_chunks == other.active_chunks
        &&& self.updated_chunks == other.updated_chunks
        &&& self.updated_chunks_transparent == other.updated_chunks_transparent
        &&& self.chunk_queue == other.chunk_queue
        &&& self.created_chunk_queue == other.created_chunk_queue
        &&& self.shapes == other.shapes
        &&& self.shape_index == other.shape_index
        &&& self.blocks == other.blocks
        &&& self.block_index == other.block_index
        &&& self.chunk_buffer_index == other.chunk_buffer_index
        &&& self.chunk_buffer_coordinates == other.chunk_buffer_coordinates
        &&& self.biomes == other.biomes
        &&& self.structures == other.structures
    }

    /// The loaded chunks, their render buffers and every queue are as in
    /// `other`: only the registries of blocks, shapes, structures and
    /// biomes may differ.
    pub open spec fn same_loaded(&self, other: &WorldData) -> bool {
        &&& self.active_chunks == other.active_chunks
        &&& self.updated_chunks == other.updated_chunks
        &&& self.updated_chunks_transparent == other.updated_chunks_transparent
        &&& self.chunk_update_queue == other.chunk_update_queue
        &&& self.chunk_queue == other.chunk_queue
        &&& self.created_chunk_queue == other.created_chunk_queue
        &&& self.chunks == other.chunks
        &&& self.chunk_buffer_index == other.chunk_buffer_index
        &&& self.chunk_buffer_coordinates == other.chunk_buffer_coordinates
    }

    /// An empty world: nothing registered, loaded or queued.
    pub fn new() -> (w: Self)
        ensures
            w.wf(),
            w.active_chunks@.len() == 0,
            w.updated_chunks@.len() == 0,
            w.updated_chunks_transparent@.len() == 0,
            w.chunk_update_queue@.len() == 0,
            w.chunk_queue@ == Map::<Position, ()>::empty(),
            w.created_chunk_queue@ == Map::<Position, ()>::empty(),
            w.shapes@.len() == 0,
            w.shape_index@ == Map::<Seq<char>, usize>::empty(),
            w.blocks@.len() == 0,
            w.block_index@ == Map::<Seq<char>, usize>::empty(),
            w.chunks@ == Map::<Position, Vec<i8>>::empty(),
            w.chunk_buffer_index@ == Map::<Position, i64>::empty(),
            w.chunk_buffer_coordinates@.len() == 0,
            w.biomes@ == Map::<Seq<char>, BiomeDefinition>::empty(),
            w.structures@ == Map::<Seq<char>, Vec<Block>>::empty(),
    {
        WorldData {
            active_chunks: Vec::new(),
            updated_chunks: Vec::new(),
            updated_chunks_transparent: Vec::new(),
            chunk_update_queue: Vec::new(),
            chunk_queue: PositionMap::new(),
            created_chunk_queue: PositionMap::new(),
            shapes: Vec::new(),
            shape_index: StringHashMap::new(),
            blocks: Vec::new(),
            block_index: StringHashMap::new(),
            chunks: PositionMap::new(),
            chunk_buffer_index: PositionMap::new(),
            chunk_buffer_coordinates: Vec::new(),
            biomes: StringHashMap::new(),
            structures: StringHashMap::new(),
        }
    }

    /// Stores the block list of the chunk at (x, y, z), replacing any held.
    pub fn set_chunk(&mut self, x: i64, y: i64, z: i64, chunk_data: Vec<i8>)
        requires
            old(self).wf(),
        ensures
            final(self).wf(),
            final(self).chunks@ == old(self).chunks@.insert((x, y, z), chunk_data),
            final(self).same_except_chunks(old(self)),
    {
        self.chunks.insert((x, y, z), chunk_data);
    }

    /// Registers a shape under a name not yet taken; a name already taken
    /// keeps its first shape. The shape's id is its 1-based position.
    pub fn add_shape(&mut self, shape_name: String, elements: Vec<Element>)
        requires
            old(self).wf(),
        ensures
            final(self).wf(),
            old(self).shape_index@.contains_key(shape_name@) ==> final(self).shapes@ == old(self).shapes@
                && final(self).shape_index@ == old(self).shape_index@,
            !old(self).shape_index@.contains_key(shape_name@) ==> final(self).shapes@ == old(self).shapes@.push((shape_name, elements))
                && final(self).shape_index@ == old(self).shape_index@.insert(shape_name@, final(self).shapes@.len() as usize),
            old(self).shape_index@.contains_key(shape_name@) ==> *final(self) == *old(self),
            final(self).same_loaded(old(self)),
            final(self).blocks == old(self).blocks,
            final(self).block_index == old(self).block_index,
            final(self).biomes == old(self).biomes,
            final(self).structures == old(self).structures,
    {
        if !self.shape_index.contains_key(shape_name.as_str()) {
            let key = shape_name.clone();
            let ghost old_names = self.shape_names();
            self.shapes.push((shape_name, elements));
            let n = self.shapes.len();
            self.shape_index.insert(key, n);
            proof {
                assert(self.shape_names() =~= old_names.push(key@));
            }
        }
    }

    /// Registers a block kind under a name not yet taken; a name already
    /// taken keeps its first definition. The block's id is its 1-based
    /// position.
    pub fn add_block(&mut self, block_name: String, sides: Vec<i8>, owner: String, shape: String, render_sides: bool, transparent: bool, collide: bool)
        requires
            old(self).wf(),
        ensures
            final(self).wf(),
            old(self).block_index@.contains_key(block_name@) ==> final(self).blocks@ == old(self).blocks@
                && final(self).block_index@ == old(self).block_index@,
            !old(self).block_index@.contains_key(block_name@) ==> final(self).blocks@.len() == old(self).blocks@.len() + 1
                && final(self).blocks@.drop_last() == old(self).blocks@
                && final(self).blocks@.last().name@ == block_name@
                && final(self).blocks@.last().sides@ == sides@
                && final(self).blocks@.last().owner@ == owner@
                && final(self).blocks@.last().shape@ == shape@
                && final(self).blocks@.last().render_sides == render_sides
                && final(self).blocks@.last().transparent == transparent
                && final(self).blocks@.last().collide == collide
                && final(self).block_index@ == old(self).block_index@.insert(block_name@, final(self).blocks@.len() as usize),
            old(self).block_index@.contains_key(block_name@) ==> *final(self) == *old(self),
            final(self).same_loaded(old(self)),
            final(self).shapes == old(self).shapes,
            final(self).shape_index == old(self).shape_index,
            final(self).biomes == old(self).biomes,
            final(self).structures == old(self).structures,
    {
        if !self.block_index.contains_key(block_name.as_str()) {
            let key = block_name.clone();
            let ghost old_blocks = self.blocks@;
            let ghost old_names = self.block_names();
            self.blocks.push(BlockDefinition { name: block_name, sides, owner, shape, render_sides, transparent, collide });
            let n = self.blocks.len();
            self.block_index.insert(key, n);
            proof {
                assert(self.block_names() =~= old_names.push(key@));
                assert(self.blocks@.drop_last() =~= old_blocks);
            }
        }
    }

    /// Registers a structure under a name not yet taken; a name already
    /// taken keeps its first structure.
    pub fn add_structure(&mut self, structure_name: String, blocks: Vec<Block>)
        requires
            old(self).wf(),
        ensures
            final(self).wf(),
            final(self).structures@ == if old(self).structures@.contains_key(structure_name@) {
                old(self).structures@
            } else {
                old(self).structures@.insert(structure_name@, blocks)
            },
            old(self).structures@.contains_key(structure_name@) ==> *final(self) == *old(self),
            final(self).same_loaded(old(self)),
            final(self).blocks == old(self).blocks,
            final(self).block_index == old(self).block_index,
            final(self).shapes == old(self).shapes,
            final(self).shape_index == old(self).shape_index,
            final(self).biomes == old(self).biomes,
    {
        if !self.structures.contains_key(structure_name.as_str()) {
            self.structures.insert(structure_name, blocks);
        }
    }

    /// Registers a biome under a name not yet taken; a name already taken
    /// keeps its first biome.
    pub fn add_biome(&mut self, biome_name: String, temperature: i8, moisture: i8, height: i8,
                     block_levels: Vec<(Vec<String>, i64)>, sea_level: i64, trees: Vec<(String, u32)>,
                     folliage: Vec<(String, u32)>, buildings: Vec<(String, u32)>)
        requires
            old(self).wf(),
        ensures
            final(self).wf(),
            final(self).biomes@ == if old(self).biomes@.contains_key(biome_name@) {
                old(self).biomes@
            } else {
                old(self).biomes@.insert(biome_name@, BiomeDefinition {
                    temperature, moisture, height, block_levels, sea_level, trees, folliage, buildings,
                })
            },
            old(self).biomes@.contains_key(biome_name@) ==> *final(self) == *old(self),
            final(self).same_loaded(old(self)),
            final(self).blocks == old(self).blocks,
            final(self).block_index == old(self).block_index,
            final(self).shapes == old(self).shapes,
            final(self).shape_index == old(self).shape_index,
            final(self).structures == old(self).structures,
    {
        if !self.biomes.contains_key(biome_name.as_str()) {
            self.biomes.insert(biome_name, BiomeDefinition {
                temperature, moisture, height, block_levels, sea_level, trees, folliage, buildings,
            });
        }
    }

    /// Registers air under the name "air" with block id 0, before any block
    /// model is read.
    pub fn register_air(&mut self)
        requires
            old(self).wf(),
        ensures
            final(self).wf(),
            final(self).block_index@ == old(self).block_index@.insert("air"@, 0usize),
            final(self).blocks == old(self).blocks,
            final(self).same_loaded(old(self)),
            final(self).shapes == old(self).shapes,
            final(self).shape_index == old(self).shape_index,
            final(self).biomes == old(self).biomes,
            final(self).structures == old(self).structures,
    {
        self.block_index.insert("air".to_string(), 0);
    }

    /// Records that the chunk at `position` takes the next render buffer.
    pub fn add_object(&mut self, position: Position)
        requires
            old(self).wf(),
            old(self).chunk_buffer_coordinates@.len() < i64::MAX,
        ensures
            final(self).wf(),
            final(self).chunk_buffer_coordinates@ == old(self).chunk_buffer_coordinates@.push(position),
            final(self).chunk_buffer_index@ == old(self).chunk_buffer_index@.insert(position, old(self).chunk_buffer_coordinates@.len() as i64),
            final(self).blocks == old(self).blocks,
            final(self).block_index == old(self).block_index,
            final(self).chunks == old(self).chunks,
            final(self).active_chunks == old(self).active_chunks,
            final(self).updated_chunks == old(self).updated_chunks,
            final(self).chunk_update_queue == old(self).chunk_update_queue,
            final(self).chunk_queue == old(self).chunk_queue,
    {
        let n = self.chunk_buffer_coordinates.len() as i64;
        self.chunk_buffer_index.insert(position, n);
        self.chunk_buffer_coordinates.push(position);
    }
}

} // verus!
