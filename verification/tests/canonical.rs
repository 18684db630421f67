use lib::canonical::{extension, from_mod_path, get_canonical, Root};
use lib::tkcl::attributes::{HAS_MC_EXTENSION, HAS_ZS_EXTENSION, IS_PRODUCT_FILE};

fn check(path: &str, canonical: &str, version: i32, attributes: u32) {
    let result = get_canonical(path);
    assert_eq!(result.canonical, canonical, "{}", path);
    assert_eq!(result.file_version, version, "{}", path);
    assert_eq!(result.attributes, attributes, "{}", path);
}

#[test]
fn strips_versions_and_compression() {
    check(
        "RSDB/Tag.Product.121.rstbl.byml.zs",
        "RSDB/Tag.Product.rstbl.byml",
        121,
        HAS_ZS_EXTENSION | IS_PRODUCT_FILE,
    );
    check("Pack/Actor/Foo.pack.zs", "Pack/Actor/Foo.pack", -1, HAS_ZS_EXTENSION);
    check(
        "Event/EventFlow/Dm_ED_0004.100.bfevfl.zs",
        "Event/EventFlow/Dm_ED_0004.bfevfl",
        100,
        HAS_ZS_EXTENSION | IS_PRODUCT_FILE,
    );
    check("Model/Foo.bfres.mc", "Model/Foo.bfres", -1, HAS_MC_EXTENSION);
    check("Mals/USen.Product.121.sarc.zs", "Mals/USen.Product.sarc", 121, HAS_ZS_EXTENSION | IS_PRODUCT_FILE);
    check(
        "Component/GameParameter/Foo.game__component__GameParameterTable.bgyml",
        "Component/GameParameter/Foo.game__component__GameParameterTable.bgyml",
        -1,
        0,
    );
    check("\\Pack\\Foo.pack", "Pack/Foo.pack", -1, 0);
}

#[test]
fn splits_mod_roots() {
    let (root, path) = from_mod_path("romfs/GameData/GameDataList.Product.110.byml.zs").unwrap();
    assert_eq!(root, Root::Romfs);
    assert_eq!(path.canonical, "GameData/GameDataList.Product.byml");
    assert_eq!(path.file_version, 110);
    assert!(from_mod_path("notes/readme.txt").is_none());
    assert_eq!(extension("Pack/Actor/Foo.pack"), ".pack");
    assert_eq!(extension("RSDB/Tag.Product.rstbl.byml"), ".byml");
}

#[test]
fn extensionless_names_and_other_roots() {
    assert_eq!(extension("Pack/Actor"), "");
    assert_eq!(extension("a.b/c"), "");
    let (root, path) = from_mod_path("\\EXEFS\\main.npdm").unwrap();
    assert_eq!(root, Root::Exefs);
    assert_eq!(path.canonical, "main.npdm");
    assert!(from_mod_path("romfs/").is_none());
    assert!(from_mod_path("romfs").is_none());
}
