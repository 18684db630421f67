use lib::rom::parse_region_lang_mask;
use lib::rsdb::row_key;

#[test]
fn reads_the_region_lang_mask() {
    let data = b"USen EUfr\r\nNormal\r\n121\r\n9b4e43650501a4d4489b4bbfdb740f26af3cf850";
    let (version, id) = parse_region_lang_mask(data).unwrap();
    assert_eq!(version, 121);
    assert_eq!(id, "9b4e43650501a4d4489b4bbfdb740f26af3cf850");
}

#[test]
fn short_or_odd_masks_are_refused() {
    assert!(parse_region_lang_mask(b"no line break").is_none());
    assert!(parse_region_lang_mask(b"ab\ncd").is_none());
    assert!(parse_region_lang_mask(b"x\r\nabc\r\nid").is_none());
    assert_eq!(parse_region_lang_mask(b"x\r\n 99\r\n id ").unwrap(), (99, "id".to_string()));
    assert!(parse_region_lang_mask(b"x\r\n 99\r\n id \n").is_none());
}

#[test]
fn row_tables_have_keys() {
    assert_eq!(row_key("RSDB/GameSafetySetting.Product.rstbl.byml"), Some("NameHash"));
    assert_eq!(row_key("RSDB/UIScreen.Product.rstbl.byml"), Some("Name"));
    assert_eq!(row_key("RSDB/Tag.Product.rstbl.byml"), None);
}

use lib::rom::{StringTable, TkRom};

fn table(pairs: &[(&str, &str)]) -> StringTable {
    let mut t = StringTable::new();
    for (k, v) in pairs {
        t.insert(k.to_string(), v.to_string());
    }
    t
}

fn sample_rom(game_version: i32) -> TkRom {
    TkRom::new(
        "content:/".to_string(),
        game_version,
        "0123".to_string(),
        table(&[("Actor/Foo.engine__actor__ActorParam.bgyml", "Actor/Foo.engine__actor__ActorParam.2.bgyml")]),
        table(&[("Sample", "300")]),
        table(&[("Pillar", "Pillar_1.1.0.Product")]),
        table(&[("AI/Root.ainb", "AI/Root.v2.ainb")]),
        table(&[("Logic/Main.logic", "Logic/Main.v3.logic")]),
        table(&[("Sequence/Start.seq", "Sequence/Start.v4.seq")]),
    )
}

#[test]
fn tables_give_their_last_text() {
    let t = table(&[("a", "1"), ("b", "2"), ("a", "3")]);
    assert_eq!(t.get("a"), Some("3"));
    assert_eq!(t.get("b"), Some("2"));
    assert_eq!(t.get("c"), None);
}

#[test]
fn relative_paths_follow_the_game_tables() {
    let rom = sample_rom(121);
    // The address table renames, then the extensions follow the attributes.
    assert_eq!(
        rom.canonical_to_relative("Actor/Foo.engine__actor__ActorParam.bgyml", 1),
        "Actor/Foo.engine__actor__ActorParam.2.bgyml.zs"
    );
    assert_eq!(rom.canonical_to_relative("AI/Root.ainb", 0), "AI/Root.v2.ainb");
    assert_eq!(rom.canonical_to_relative("Sequence/Start.seq", 3), "Sequence/Start.v4.seq.zs.mc");
    assert_eq!(rom.canonical_to_relative("Logic/Main.logic", 0), "Logic/Main.v3.logic");
    // Event flows: the name between "Event/EventFlow/" and the last seven bytes.
    assert_eq!(
        rom.canonical_to_relative("Event/EventFlow/Sample.bfevfl", 1),
        "Event/EventFlow/Sample.300.bfevfl.zs"
    );
    // Effects, only for product files.
    let effect = "Effect/Pillar.Product.Nin_NX_NVN.esetb.byml";
    assert_eq!(effect.len(), 43);
    assert_eq!(rom.canonical_to_relative(effect, 4), "Effect/Pillar_1.1.0.Product.Product.Nin_NX_NVN.esetb.byml");
    assert_eq!(rom.canonical_to_relative(effect, 0), effect);
    // Names no table knows stay as they are.
    assert_eq!(rom.canonical_to_relative("Pack/Other.pack", 1), "Pack/Other.pack.zs");
}

#[test]
fn the_size_table_path_follows_the_version() {
    assert_eq!(
        sample_rom(121).resource_size_table_path(),
        "System/Resource/ResourceSizeTable.Product.121.rsizetable.zs"
    );
    assert_eq!(
        sample_rom(140).resource_size_table_path(),
        "System/Resource/ResourceSizeTable.Product.140.Nin_NX_NVN.rsizetable.zs"
    );
}
