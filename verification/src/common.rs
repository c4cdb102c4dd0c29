use vstd::prelude::*;
use crate::world::WorldData;

verus! {

/// One box of a block shape. The corner coordinates are the IEEE-754 bit
/// patterns of the shape file's numbers, carried unchanged (with -0.0 read
/// as 0.0).
pub struct Element {
    pub from: [u64; 3],
    pub to: [u64; 3],
}

/// A named block shape.
pub struct ShapeData {
    pub shape_name: String,
    pub elements: Vec<Element>,
}

/// One block of a structure, placed relative to the structure's origin.
pub struct Block {
    pub position: [i32; 3],
    pub block: String,
}

/// A named structure.
pub struct StructureData {
    pub structure_name: String,
    pub blocks: Vec<Block>,
}

/// A named biome. The chances of trees, foliage and buildings are the
/// IEEE-754 bit patterns of the biome file's numbers, carried unchanged.
pub struct BiomeData {
    pub biome_name: String,
    pub temperature: i8,
    pub moisture: i8,
    pub height: i8,
    pub block_levels: Vec<(Vec<String>, i64)>,
    pub sea_level: i64,
    pub trees: Vec<(String, u32)>,
    pub folliage: Vec<(String, u32)>,
    pub buildings: Vec<(String, u32)>,
}

/// The texture tiles of a block model: one per face, one for the top, the
/// sides and the bottom, or one for all faces.
pub enum Textures {
    Single { top: i8, left: i8, right: i8, front: i8, back: i8, bottom: i8 },
    Individual { top: i8, sides: i8, bottom: i8 },
    Uniform { all: i8 },
}

impl Textures {
    pub open spec fn spec_top(&self) -> i8 {
        match *self {
            Textures::Single { top, .. } => top,
            Textures::Individual { top, .. } => top,
            Textures::Uniform { all } => all,
        }
    }

    pub open spec fn spec_side(&self, which: int) -> i8 {
        match *self {
            Textures::Single { left, right, front, back, .. } =>
                if which == 0 { left } else if which == 1 { right } else if which == 2 { front } else { back },
            Textures::Individual { sides, .. } => sides,
            Textures::Uniform { all } => all,
        }
    }

    pub open spec fn spec_bottom(&self) -> i8 {
        match *self {
            Textures::Single { bottom, .. } => bottom,
            Textures::Individual { bottom, .. } => bottom,
            Textures::Uniform { all } => all,
        }
    }

    /// The tile of the top face.
    pub fn top(&self) -> (t: i8)
        ensures
            t == self.spec_top(),
    {
        match self {
            Textures::Single { top, .. } => *top,
            Textures::Individual { top, .. } => *top,
            Textures::Uniform { all } => *all,
        }
    }

    /// The tile of the left (-x) face.
    pub fn left(&self) -> (t: i8)
        ensures
            t == self.spec_side(0),
    {
        match self {
            Textures::Single { left, .. } => *left,
            Textures::Individual { sides, .. } => *sides,
            Textures::Uniform { all } => *all,
        }
    }

    /// The tile of the right (+x) face.
    pub fn right(&self) -> (t: i8)
        ensures
            t == self.spec_side(1),
    {
        match self {
            Textures::Single { right, .. } => *right,
            Textures::Individual { sides, .. } => *sides,
            Textures::Uniform { all } => *all,
        }
    }

    /// The tile of the front (+z) face.
    pub fn front(&self) -> (t: i8)
        ensures
            t == self.spec_side(2),
    {
        match self {
            Textures::Single { front, .. } => *front,
            Textures::Individual { sides, .. } => *sides,
            Textures::Uniform { all } => *all,
        }
    }

    /// The tile of the back (-z) face.
    pub fn back(&self) -> (t: i8)
        ensures
            t == self.spec_side(3),
    {
        match self {
            Textures::Single { back, .. } => *back,
            Textures::Individual { sides, .. } => *sides,
            Textures::Uniform { all } => *all,
        }
    }

    /// The tile of the bottom face.
    pub fn bottom(&self) -> (t: i8)
        ensures
            t == self.spec_bottom(),
    {
        match self {
            Textures::Single { bottom, .. } => *bottom,
            Textures::Individual { bottom, .. } => *bottom,
            Textures::Uniform { all } => *all,
        }
    }

    /// The tiles of the six faces in block order: +x, -x, +y, -y, +z, -z.
    pub open spec fn face_tiles(&self) -> Seq<i8> {
        seq![self.spec_side(1), self.spec_side(0), self.spec_top(), self.spec_bottom(), self.spec_side(2), self.spec_side(3)]
    }
}

/// A block model: its name, author, textures, shape and flags.
pub struct ModelData {
    pub block_name: String,
    pub creator: String,
    pub textures: Textures,
    pub shape: String,
    pub sides: bool,
    pub transparent: bool,
    pub collide: bool,
}

/// Registers the structure read from a structure file.
pub fn handle_structure_data(world_data: &mut WorldData, structure_data: StructureData)
    requires
        old(world_data).wf(),
    ensures
        final(world_data).wf(),
        final(world_data).structures@ == if old(world_data).structures@.contains_key(structure_data.structure_name@) {
            old(world_data).structures@
        } else {
            old(world_data).structures@.insert(structure_data.structure_name@, structure_data.blocks)
        },
        final(world_data).blocks == old(world_data).blocks,
        final(world_data).block_index == old(world_data).block_index,
{
    world_data.add_structure(structure_data.structure_name, structure_data.blocks);
}

/// Registers the shape read from a shape file.
pub fn handle_shape_data(world_data: &mut WorldData, shape_data: ShapeData)
    requires
        old(world_data).wf(),
    ensures
        final(world_data).wf(),
        old(world_data).shape_index@.contains_key(shape_data.shape_name@) ==> final(world_data).shapes@ == old(world_data).shapes@
            && final(world_data).shape_index@ == old(world_data).shape_index@,
        !old(world_data).shape_index@.contains_key(shape_data.shape_name@) ==> final(world_data).shapes@ == old(world_data).shapes@.push((shape_data.shape_name, shape_data.elements))
            && final(world_data).shape_index@ == old(world_data).shape_index@.insert(shape_data.shape_name@, final(world_data).shapes@.len() as usize),
{
    world_data.add_shape(shape_data.shape_name, shape_data.elements);
}

/// Registers the biome read from a biome file.
pub fn handle_biome_data(world_data: &mut WorldData, biome_data: BiomeData)
    requires
        old(world_data).wf(),
    ensures
        final(world_data).wf(),
        final(world_data).biomes@ == if old(world_data).biomes@.contains_key(biome_data.biome_name@) {
            old(world_data).biomes@
        } else {
            old(world_data).biomes@.insert(biome_data.biome_name@, crate::world::BiomeDefinition {
                temperature: biome_data.temperature,
                moisture: biome_data.moisture,
                height: biome_data.height,
                block_levels: biome_data.block_levels,
                sea_level: biome_data.sea_level,
                trees: biome_data.trees,
                folliage: biome_data.folliage,
                buildings: biome_data.buildings,
            })
        },
{
    world_data.add_biome(biome_data.biome_name, biome_data.temperature, biome_data.moisture, biome_data.height,
        biome_data.block_levels, biome_data.sea_level, biome_data.trees, biome_data.folliage, biome_data.buildings);
}

/// Registers the block kind of a block model, with its face tiles in block
/// order (+x, -x, +y, -y, +z, -z).
pub fn handle_model_data(world_data: &mut WorldData, model_data: ModelData)
    requires
        old(world_data).wf(),
    ensures
        final(world_data).wf(),
        old(world_data).block_index@.contains_key(model_data.block_name@) ==> final(world_data).blocks@ == old(world_data).blocks@
            && final(world_data).block_index@ == old(world_data).block_index@,
        !old(world_data).block_index@.contains_key(model_data.block_name@) ==> final(world_data).blocks@.len() == old(world_data).blocks@.len() + 1
            && final(world_data).blocks@.drop_last() == old(world_data).blocks@
            && final(world_data).blocks@.last().name@ == model_data.block_name@
            && final(world_data).blocks@.last().sides@ == model_data.textures.face_tiles()
            && final(world_data).blocks@.last().owner@ == model_data.creator@
            && final(world_data).blocks@.last().shape@ == model_data.shape@
            && final(world_data).blocks@.last().render_sides == model_data.sides
            && final(world_data).blocks@.last().transparent == model_data.transparent
            && final(world_data).blocks@.last().collide == model_data.collide
            && final(world_data).block_index@ == old(world_data).block_index@.insert(model_data.block_name@, final(world_data).blocks@.len() as usize),
        final(world_data).shapes == old(world_data).shapes,
        final(world_data).shape_index == old(world_data).shape_index,
        final(world_data).chunks == old(world_data).chunks,
{
    let sides = vec![
        model_data.textures.right(),
        model_data.textures.left(),
        model_data.textures.top(),
        model_data.textures.bottom(),
        model_data.textures.front(),
        model_data.textures.back(),
    ];
    assert(sides@ =~= model_data.textures.face_tiles());
    world_data.add_block(model_data.block_name, sides, model_data.creator, model_data.shape,
        model_data.sides, model_data.transparent, model_data.collide);
}

} // verus!
