use vstd::prelude::*;

verus! {

/// A biome's climate and levels. Temperature and moisture are the IEEE-754
/// bit patterns of their values, carried unchanged.
pub struct Biome {
    pub name: String,
    pub temperature: u32,
    pub moisture: u32,
    pub height: u32,
    pub sea_level: u32,
}

/// The biomes of a world.
pub struct Biomes {
    biomes: Vec<Biome>,
}

impl Biomes {
    pub closed spec fn len(&self) -> nat {
        self.biomes@.len()
    }

    /// The biomes, in the order they were added.
    pub closed spec fn list(&self) -> Seq<Biome> {
        self.biomes@
    }

    /// No biomes.
    pub fn new() -> (b: Self)
        ensures
            b.len() == 0,
            b.list() == Seq::<Biome>::empty(),
    {
        Self { biomes: Vec::new() }
    }
}

} // verus!
