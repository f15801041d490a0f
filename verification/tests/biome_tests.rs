use lau_worldgen::Biome;

#[test]
fn biome_surface_materials() {
    assert_eq!(Biome::Plains.surface_material(), "grass");
    assert_eq!(Biome::Desert.surface_material(), "sand");
    assert_eq!(Biome::Mountains.surface_material(), "stone");
    assert_eq!(Biome::Ocean.surface_material(), "water");
    assert_eq!(Biome::CrystalCaves.surface_material(), "crystal");
    assert_eq!(Biome::Volcanic.surface_material(), "basalt");
    assert_eq!(Biome::FloatingIslands.surface_material(), "cloud_stone");
}

#[test]
fn biome_forest_surface_is_grass() {
    assert_eq!(Biome::Forest.surface_material(), "grass");
}

#[test]
fn biome_names() {
    assert_eq!(Biome::Plains.name(), "Plains");
    assert_eq!(Biome::Forest.name(), "Forest");
    assert_eq!(Biome::Desert.name(), "Desert");
    assert_eq!(Biome::Mountains.name(), "Mountains");
    assert_eq!(Biome::Ocean.name(), "Ocean");
    assert_eq!(Biome::CrystalCaves.name(), "Crystal Caves");
    assert_eq!(Biome::FloatingIslands.name(), "Floating Islands");
    assert_eq!(Biome::Volcanic.name(), "Volcanic");
}
