use vstd::prelude::*;

verus! {

/// The blocks that make up the ground of a biome, from the surface down: the surface block,
/// the blocks of the `subsurface_depth` layers under the surface, and the deep block. Blocks
/// are named ("grass", "dirt", "sand", "snow", ...).
pub struct BiomeLayers {
    pub surface_block: String,
    pub subsurface_block: String,
    pub deep_block: String,
    pub subsurface_depth: i32,
}

/// The block id of the surface layer named `name`: sand or snow when it names them, grass
/// for any other name.
pub open spec fn surface_block_id(name: Seq<char>, grass_id: u32, sand_id: u32, snow_id: u32) -> u32 {
    if name == "sand"@ {
        sand_id
    } else if name == "snow"@ {
        snow_id
    } else {
        grass_id
    }
}

/// The block id of the subsurface layer named `name`: sand or snow when it names them, dirt
/// for any other name.
pub open spec fn subsurface_block_id(name: Seq<char>, dirt_id: u32, sand_id: u32, snow_id: u32) -> u32 {
    if name == "sand"@ {
        sand_id
    } else if name == "snow"@ {
        snow_id
    } else {
        dirt_id
    }
}

impl BiomeLayers {
    /// The id of the block placed on the surface of this biome.
    pub fn surface_id(&self, grass_id: u32, sand_id: u32, snow_id: u32) -> (id: u32)
        ensures
            id == surface_block_id(self.surface_block@, grass_id, sand_id, snow_id),
    {
        let sand = "sand".to_owned();
        let snow = "snow".to_owned();
        if self.surface_block == sand {
            sand_id
        } else if self.surface_block == snow {
            snow_id
        } else {
            grass_id
        }
    }

    /// The id of the block placed in the subsurface layers of this biome.
    pub fn subsurface_id(&self, dirt_id: u32, sand_id: u32, snow_id: u32) -> (id: u32)
        ensures
            id == subsurface_block_id(self.subsurface_block@, dirt_id, sand_id, snow_id),
    {
        let sand = "sand".to_owned();
        let snow = "snow".to_owned();
        if self.subsurface_block == sand {
            sand_id
        } else if self.subsurface_block == snow {
            snow_id
        } else {
            dirt_id
        }
    }
}

/// The index of the default biome among biomes named `ids`: the first one named "plains", or
/// 0 when none is.
pub fn default_biome_index(ids: &Vec<String>) -> (index: usize)
    ensures
        (exists|j: int| 0 <= j < ids.len() && #[trigger] ids@[j]@ == "plains"@) ==> index < ids.len()
            && ids@[index as int]@ == "plains"@ && forall|j: int|
            0 <= j < index ==> #[trigger] ids@[j]@ != "plains"@,
        (forall|j: int| 0 <= j < ids.len() ==> #[trigger] ids@[j]@ != "plains"@) ==> index == 0,
{
    let plains = "plains".to_owned();
    let mut i: usize = 0;
    while i < ids.len()
        invariant
            i <= ids.len(),
            plains@ == "plains"@,
            forall|j: int| 0 <= j < i ==> #[trigger] ids@[j]@ != "plains"@,
        decreases ids.len() - i,
    {
        if ids[i] == plains {
            return i;
        }
        i += 1;
    }
    0
}

} // verus!
