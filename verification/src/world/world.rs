use vstd::prelude::*;
use crate::world::object::Object;
use crate::world::generation::randomness;
use crate::world::biomes;

verus! {

/// A world: its noise source, its biomes and the objects placed in it.
pub struct World {
    random_functions: randomness::RandomnessFunctions,
    biomes: biomes::Biomes,
    objects: Vec<Object>,
}

impl World {
    /// The objects placed in the world, in the order they were added.
    pub closed spec fn objects_placed(&self) -> Seq<Object> {
        self.objects@
    }

    pub closed spec fn biome_count(&self) -> nat {
        self.biomes.len()
    }

    /// The biomes of the world, in the order they were added.
    pub closed spec fn biome_list(&self) -> Seq<biomes::Biome> {
        self.biomes.list()
    }

    /// The seed-determined noise generator of the world.
    pub closed spec fn noise(&self) -> noise::Perlin {
        self.random_functions.noise
    }

    /// A world with a freshly seeded noise source, no biomes and no objects.
    pub fn new() -> (w: Self)
        ensures
            w.objects_placed() == Seq::<Object>::empty(),
            w.biome_count() == 0,
            w.biome_list() == Seq::<biomes::Biome>::empty(),
            exists|seed: u32| seed < 1000000 && w.noise() == randomness::perlin_with_seed(seed),
    {
        Self {
            random_functions: randomness::RandomnessFunctions::new(),
            biomes: biomes::Biomes::new(),
            objects: Vec::new(),
        }
    }

    /// Places an object after those already placed.
    pub fn add_object(&mut self, object: Object)
        ensures
            final(self).objects_placed() == old(self).objects_placed().push(object),
            final(self).biome_count() == old(self).biome_count(),
            final(self).biome_list() == old(self).biome_list(),
            final(self).noise() == old(self).noise(),
    {
        self.objects.push(object);
    }

    /// The objects placed in the world.
    pub fn get_objects(&self) -> (r: &Vec<Object>)
        ensures
            r@ == self.objects_placed(),
    {
        &self.objects
    }
}

/// A new world, as `World::new` makes it.
pub fn create_world() -> (w: World)
    ensures
        w.objects_placed() == Seq::<Object>::empty(),
        w.biome_count() == 0,
        w.biome_list() == Seq::<biomes::Biome>::empty(),
        exists|seed: u32| seed < 1000000 && w.noise() == randomness::perlin_with_seed(seed),
{
    let world: World = World::new();
    world
}

/// Objects added one after another to a new world are exactly the world's
/// objects, in the order they were added: `worlds[0]` is as `World::new`
/// leaves it, and each `worlds[k + 1]` is `worlds[k]` after
/// `add_object(added[k])`.
pub proof fn lemma_objects_in_order(worlds: Seq<World>, added: Seq<Object>)
    requires
        worlds.len() == added.len() + 1,
        worlds[0].objects_placed() == Seq::<Object>::empty(),
        forall|k: int| 0 <= k < added.len() ==>
            #[trigger] worlds[k + 1].objects_placed() == worlds[k].objects_placed().push(added[k]),
    ensures
        worlds[added.len() as int].objects_placed() == added,
    decreases added.len(),
{
    if added.len() > 0 {
        let n = added.len() - 1;
        lemma_objects_in_order(worlds.take(n + 1), added.take(n));
        assert(worlds[n + 1].objects_placed() == worlds[n].objects_placed().push(added[n]));
        assert(worlds.take(n + 1)[n] == worlds[n]);
        assert(added.take(n).push(added[n]) =~= added);
    } else {
        assert(added =~= Seq::<Object>::empty());
    }
}

} // verus!
