use lib::builder::{BuilderKind, BuiltChangelog, Payload};
use lib::canonical::try_canonical;
use lib::folder::{file_action, has_invalid_file_name, is_nameable, put, FileAction, FolderSink};
use lib::tkcl::EntryType;

fn sink() -> FolderSink {
    FolderSink { built: BuiltChangelog::new(), path_attributes: 1, zs_dictionary_id: 7 }
}

#[test]
fn invalid_characters_count_in_the_file_name_only() {
    assert!(has_invalid_file_name("Actor/a<b.bgyml"));
    assert!(has_invalid_file_name("Actor/ab\u{1}.bgyml"));
    assert!(has_invalid_file_name("what?"));
    assert!(!has_invalid_file_name("Act:or/ab.bgyml"));
    assert!(!has_invalid_file_name("Actor/ab.bgyml"));
}

#[test]
fn exefs_files_are_patches_or_served_as_they_are() {
    assert!(matches!(file_action("exefs/0123ABCD.ips", false), FileAction::Ips(id) if id == "0123ABCD"));
    assert!(matches!(file_action("exefs/mod.pchtxt", false), FileAction::Pchtxt));
    assert!(matches!(file_action("exefs/subsdk9", false), FileAction::Exefs(true, name) if name == "subsdk9"));
    assert!(matches!(file_action("exefs/main", false), FileAction::Exefs(false, name) if name == "main"));
    assert!(matches!(file_action("exefs/subsdk10", false), FileAction::Exefs(false, name) if name == "subsdk10"));
}

#[test]
fn cheats_extras_and_stray_files_are_left_out() {
    assert!(matches!(file_action("cheats/ABCD.txt", false), FileAction::Cheat));
    assert!(matches!(file_action("extras/readme.md", false), FileAction::Skip));
    assert!(matches!(file_action("notes/readme.md", false), FileAction::Skip));
    assert!(matches!(file_action("romfs", false), FileAction::Skip));
    assert!(matches!(
        file_action("romfs/System/Resource/ResourceSizeTable.Product.112.rsizetable.zs", false),
        FileAction::Skip
    ));
    assert!(matches!(file_action("desktop.ini", true), FileAction::Skip));
}

#[test]
fn romfs_files_go_to_a_builder_or_are_copied_whole() {
    match file_action("romfs/Pack/Actor/Foo.pack.zs", false) {
        FileAction::Build(BuilderKind::Pack, p) => {
            assert_eq!(p.canonical, "Pack/Actor/Foo.pack");
            assert_eq!(p.file_version, -1);
            assert_eq!(p.attributes, 1);
        }
        _ => panic!("a pack goes to its builder"),
    }
    match file_action("Actor/Foo.engine__actor__ActorParam.bgyml", true) {
        FileAction::Build(BuilderKind::Byml, p) => assert_eq!(p.canonical, "Actor/Foo.engine__actor__ActorParam.bgyml"),
        _ => panic!("a romfs root's files are under romfs/"),
    }
    assert!(matches!(
        file_action("romfs/UI/Tex/Foo__Combined.bntx", false),
        FileAction::Copy(p) if p.canonical == "UI/Tex/Foo__Combined.bntx"
    ));
    assert!(matches!(file_action("romfs/Sound/foo.bwav", false), FileAction::Copy(p) if p.canonical == "Sound/foo.bwav"));
}

#[test]
fn metadata_of_one_file_gathers_in_one_entry() {
    let mut built = BuiltChangelog::new();
    let first = built.add_metadata("Actor/A.bgyml", EntryType::Changelog, -1, None, 4, 2);
    assert_eq!(first, "Actor/A.bgyml");
    let second = built.add_metadata("Actor/A.bgyml", EntryType::Copy, 110, Some("Pack/X.pack"), 0, -1);
    assert_eq!(second, "Actor/A.bgyml110");
    assert_eq!(built.entries.len(), 1);
    let e = &built.entries[0];
    assert_eq!(e.kind, EntryType::Copy);
    assert_eq!(e.attributes, 4);
    assert_eq!(e.zs_dictionary_id, 2);
    assert_eq!(e.versions, vec![110]);
    assert_eq!(e.archive_canonicals, vec!["Pack/X.pack".to_string()]);

    let mals = built.add_metadata("Mals/USen.Product.sarc", EntryType::Changelog, 110, None, 0, -1);
    assert_eq!(mals, "Mals/USen.Product.sarc");
    assert_eq!(built.mals_files, vec!["Mals/USen.Product.sarc".to_string()]);
    assert_eq!(built.entries.len(), 1);
}

#[test]
fn recorded_content_is_stored_under_romfs() {
    let mut s = sink();
    s.record(-1, "Actor/A.bgyml", None, EntryType::Changelog, Payload::Data(&[1, 2]));
    s.record(-1, "Actor/A.bgyml", None, EntryType::Changelog, Payload::Data(&[3]));
    assert_eq!(s.built.files, vec![("romfs/Actor/A.bgyml".to_string(), vec![3u8])]);
    assert_eq!(s.built.entries[0].attributes, 1);
    assert_eq!(s.built.entries[0].zs_dictionary_id, 7);

    s.record(-1, "Actor/B.bgyml", Some("Pack/X.pack"), EntryType::Placeholder, Payload::Placeholder);
    assert_eq!(s.built.files.len(), 1);
    assert_eq!(s.built.entries.len(), 2);

    s.record(-1, "Actor/C?.bgyml", None, EntryType::Changelog, Payload::Data(&[9]));
    assert_eq!(s.built.entries.len(), 2);
    assert_eq!(s.built.files.len(), 1);
}

#[test]
fn whole_files_are_linked_from_where_they_are_stored() {
    let mut s = sink();
    let stored = s.link_whole("Sound/foo.bwav", 121, "sd:/mods/x/romfs/Sound/foo.121.bwav");
    assert_eq!(stored, "Sound/foo.bwav121");
    assert_eq!(
        s.built.links,
        vec![("romfs/Sound/foo.bwav121".to_string(), "sd:/mods/x/romfs/Sound/foo.121.bwav".to_string())]
    );
    assert_eq!(s.built.entries[0].kind, EntryType::Copy);
}

#[test]
fn put_replaces_the_pair_with_the_same_key() {
    let mut pairs: Vec<(String, String)> = Vec::new();
    put(&mut pairs, "a".to_string(), "1".to_string());
    put(&mut pairs, "b".to_string(), "2".to_string());
    put(&mut pairs, "a".to_string(), "3".to_string());
    assert_eq!(pairs, vec![("a".to_string(), "3".to_string()), ("b".to_string(), "2".to_string())]);
}

#[test]
fn names_tkmm_cannot_read_are_told_apart() {
    assert!(!is_nameable("romfs/.1x", false));
    assert!(!is_nameable(".1x", true));
    assert!(is_nameable("romfs/a.1x", false));
    assert!(is_nameable("notes/.1x", false));
    assert!(try_canonical(".1x").is_none());
    assert!(try_canonical("Actor/Foo.bgyml").is_some());
}
