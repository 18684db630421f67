use lib::byml_keys::{array_builder, bgyml_type, common_key_name, key, merger_key_name, pair, ArrayBuilder, KeyName};

#[test]
fn derives_bgyml_types() {
    assert_eq!(
        bgyml_type("Component/ArmyManagerParam/Foo.game__component__ArmyManagerParam.bgyml"),
        "game__component__ArmyManagerParam"
    );
    assert_eq!(bgyml_type("Banc/Foo.bcett.byml"), "bcett");
    assert_eq!(bgyml_type("Foo.byml"), "");
}

#[test]
fn providers_agree_with_tkmm() {
    assert_eq!(merger_key_name("Actors", "bcett", 1), key("Hash"));
    assert_eq!(merger_key_name("Actors", "", 1), None);
    assert_eq!(merger_key_name("Rails", "", 0), key("Hash"));
    assert_eq!(merger_key_name("Rails", "", 1), None);
    assert_eq!(array_builder("Property", "", 0), ArrayBuilder::NameHash);
    assert_eq!(array_builder("Translate", "", 0), ArrayBuilder::DirectIndex);
    assert_eq!(array_builder("Actors", "game__component__ConditionParam", 0), ArrayBuilder::Default);
    assert_eq!(array_builder("Whatever", "game__component__ConditionParam", 0), ArrayBuilder::DirectIndex);
    assert_eq!(array_builder("Bones", "", 0), ArrayBuilder::Keyed(KeyName { primary: "BoneName", secondary: None }));
    // "DefaultValue" is only keyed for merging, and only in GDL structs.
    assert_eq!(array_builder("DefaultValue", "Struct", 0), ArrayBuilder::Default);
    assert_eq!(merger_key_name("DefaultValue", "Struct", 0), key("Hash"));
}

#[test]
fn tables_of_names_are_covered() {
    assert_eq!(common_key_name("SpotBig", "locationarea", 3), key("LocationName"));
    assert_eq!(common_key_name("SpotBig", "other", 3), None);
    assert_eq!(common_key_name("EditBBParams", "", 0), key("BBKey"));
    assert_eq!(common_key_name("Node", "", 0), key("Name"));
    assert_eq!(
        common_key_name("OverrideReactionVerbSettings", "", 0),
        pair("KeyActionVerb", "Setting.OverrideActionVerb")
    );
    assert_eq!(common_key_name("Elements", "game__gamebalance__LevelSensorTargetDefine", 0), pair("ActorNameHash", "Plus"));
    assert_eq!(array_builder("WeaponEffect", "game__ui__PouchSortTable", 0), ArrayBuilder::DirectIndex);
    assert_eq!(array_builder("WeaponEffect", "x", 0), ArrayBuilder::Default);
    assert_eq!(array_builder("RecipeArray", "game__cooking__RecipeCardTable", 0), ArrayBuilder::DirectIndex);
    assert_eq!(array_builder("SpotBig", "game__component__ConditionParam", 0), ArrayBuilder::Default);
    assert_eq!(bgyml_type("a.b/c"), "");
    assert_eq!(bgyml_type("x/.y.z"), "y");
}
