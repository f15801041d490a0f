use vstd::prelude::*;

verus! {

/// Biome types that can appear in the world.
#[derive(Debug, Clone, Copy, PartialEq, Eq, Hash, Structural)]
pub enum Biome {
    Plains,
    Forest,
    Desert,
    Mountains,
    Ocean,
    CrystalCaves,
    FloatingIslands,
    Volcanic,
}

/// The human-readable name of a biome.
pub open spec fn biome_name(b: Biome) -> Seq<char> {
    match b {
        Biome::Plains => "Plains"@,
        Biome::Forest => "Forest"@,
        Biome::Desert => "Desert"@,
        Biome::Mountains => "Mountains"@,
        Biome::Ocean => "Ocean"@,
        Biome::CrystalCaves => "Crystal Caves"@,
        Biome::FloatingIslands => "Floating Islands"@,
        Biome::Volcanic => "Volcanic"@,
    }
}

/// The name of the material at the surface of a biome.
pub open spec fn biome_surface_material(b: Biome) -> Seq<char> {
    match b {
        Biome::Plains => "grass"@,
        Biome::Forest => "grass"@,
        Biome::Desert => "sand"@,
        Biome::Mountains => "stone"@,
        Biome::Ocean => "water"@,
        Biome::CrystalCaves => "crystal"@,
        Biome::FloatingIslands => "cloud_stone"@,
        Biome::Volcanic => "basalt"@,
    }
}

impl Biome {
    /// Returns a human-readable name for the biome.
    pub fn name(self) -> (s: &'static str)
        ensures
            s@ == biome_name(self),
    {
        match self {
            Biome::Plains => "Plains",
            Biome::Forest => "Forest",
            Biome::Desert => "Desert",
            Biome::Mountains => "Mountains",
            Biome::Ocean => "Ocean",
            Biome::CrystalCaves => "Crystal Caves",
            Biome::FloatingIslands => "Floating Islands",
            Biome::Volcanic => "Volcanic",
        }
    }

    /// Returns the surface material name for this biome.
    pub fn surface_material(self) -> (s: &'static str)
        ensures
            s@ == biome_surface_material(self),
    {
        match self {
            Biome::Plains => "grass",
            Biome::Forest => "grass",
            Biome::Desert => "sand",
            Biome::Mountains => "stone",
            Biome::Ocean => "water",
            Biome::CrystalCaves => "crystal",
            Biome::FloatingIslands => "cloud_stone",
            Biome::Volcanic => "basalt",
        }
    }
}

} // verus!
