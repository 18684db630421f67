use std::sync::Arc;

use lib::options::OptionMap;
use lib::tkcl::{
    attributes, is_ulid_folder, strip_romfs_bucket, ulid_to_string, Changelog, ChangelogEntry,
    ChangelogSource, Cheat, EntryType, ModOption, OptionGroup, OptionGroupType, Patch, TkMod,
};

#[test]
fn ulids_use_crockford_base32() {
    // 01ARZ3NDEKTSV4RRFFQ69G5FAV is the reference ULID from the spec.
    let bytes: [u8; 16] = [
        0x01, 0x56, 0x3E, 0x3A, 0xB5, 0xD3, 0xD6, 0x76, 0x4C, 0x61, 0xEF, 0xB9, 0x93, 0x02, 0xBD, 0x5B,
    ];
    assert_eq!(ulid_to_string(&bytes), "01ARZ3NDEKTSV4RRFFQ69G5FAV");
}

#[test]
fn strips_romfs_buckets() {
    assert_eq!(strip_romfs_bucket("romfs/tkmm001/pack/foo.pack"), "romfs/pack/foo.pack");
    assert_eq!(strip_romfs_bucket("romfs/pack/foo.pack"), "romfs/pack/foo.pack");
    assert_eq!(strip_romfs_bucket("romfs/tkmmx/foo"), "romfs/tkmmx/foo");
    assert_eq!(strip_romfs_bucket("exefs/main"), "exefs/main");
}

#[test]
fn nested_buckets_all_go() {
    assert_eq!(strip_romfs_bucket("romfs/tkmm1/tkmm22/a"), "romfs/a");
    assert_eq!(strip_romfs_bucket("romfs/tkmm1"), "romfs/tkmm1");
    assert_eq!(strip_romfs_bucket("romfs/tkmm/a"), "romfs/tkmm/a");
}

#[test]
fn ulid_folders_are_recognised() {
    assert!(is_ulid_folder("01ARZ3NDEKTSV4RRFFQ69G5FAV/romfs/a"));
    assert!(!is_ulid_folder("01ARZ3NDEKTSV4RRFFQ69G5FA/romfs/a"));
    assert!(!is_ulid_folder("01ARZ3NDEKTSV4RRFFQ69G5FA-/x"));
    assert!(!is_ulid_folder("01ARZ3NDEKTSV4RRFFQ69G5FAV"));
}

struct Nothing;
impl ChangelogSource for Nothing {
    fn read(&self, _: &str) -> Option<Vec<u8>> {
        None
    }
    fn describe(&self) -> String {
        "nothing".into()
    }
}

fn empty_changelog() -> Changelog<Arc<Nothing>> {
    Changelog {
        builder_version: 1,
        game_version: 121,
        entries: vec![],
        mals_files: vec![],
        patches: vec![],
        cheats: vec![],
        subsdk_files: vec![],
        exe_files: vec![],
        source: Arc::new(Nothing),
    }
}

#[test]
fn changelogs_round_trip() {
    let changelog = Changelog {
        builder_version: 200,
        game_version: 121,
        entries: vec![ChangelogEntry {
            canonical: "Component/Foo.bgyml".into(),
            kind: EntryType::Changelog,
            attributes: attributes::HAS_ZS_EXTENSION,
            zs_dictionary_id: 3,
            versions: vec![110, 121],
            archive_canonicals: vec!["Pack/Actor/Foo.pack".into()],
        }],
        mals_files: vec!["Mals/USen.Product.sarc".into()],
        patches: vec![Patch {
            nso_binary_id: "abc".into(),
            entries: vec![(0x100, 0xD503201F)],
        }],
        cheats: vec![Cheat {
            name: "c".into(),
            entries: vec![("[x]".into(), vec![vec![1, 2, 3]])],
        }],
        subsdk_files: vec!["subsdk1".into()],
        exe_files: vec![],
        source: Arc::new(Nothing),
    };

    let read = Changelog::read(&changelog.write(), Arc::new(Nothing)).unwrap();
    assert_eq!(read.entries.len(), 1);
    assert_eq!(read.entries[0].versions, vec![110, 121]);
    assert_eq!(read.entries[0].archive_canonicals, vec!["Pack/Actor/Foo.pack".to_string()]);
    assert_eq!(read.mals_files, changelog.mals_files);
    assert_eq!(read.patches[0].entries, vec![(0x100, 0xD503201F)]);
    assert_eq!(read.cheats[0].entries[0].1, vec![vec![1, 2, 3]]);
    assert_eq!(read.subsdk_files, vec!["subsdk1".to_string()]);
}

#[test]
fn changelog_bytes_follow_the_layout() {
    let bytes = empty_changelog().write();
    let mut expected = vec![b'T', b'K', b'C', b'L', 1, 0, 0, 0, 121, 0, 0, 0];
    expected.extend(std::iter::repeat(0u8).take(4 * 8));
    assert_eq!(bytes, expected);
    assert_eq!(read_error(&bytes[..10]), "truncated mod metadata at offset 8");
}

fn read_error(data: &[u8]) -> String {
    match Changelog::read(data, ()) {
        Ok(_) => panic!("read should fail"),
        Err(e) => e,
    }
}

#[test]
fn bad_changelogs_are_refused() {
    assert_eq!(read_error(b"XXXX"), "invalid changelog magic");
    let mut bytes = empty_changelog().write();
    bytes[12] = 0xFF;
    bytes[13] = 0xFF;
    bytes[14] = 0xFF;
    bytes[15] = 0xFF;
    assert_eq!(read_error(&bytes), "implausible count -1 in mod metadata");
    assert_eq!(EntryType::from_raw(7).unwrap_err(), "unknown changelog entry type 7");
    assert_eq!(EntryType::from_raw(2).unwrap(), EntryType::Placeholder);
}

fn option(name: &str, priority: i32, version: i32) -> ModOption<()> {
    let mut changelog = Changelog {
        builder_version: 0,
        game_version: version,
        entries: vec![],
        mals_files: vec![],
        patches: vec![],
        cheats: vec![],
        subsdk_files: vec![],
        exe_files: vec![],
        source: (),
    };
    changelog.builder_version = version;
    ModOption {
        id: [0; 16],
        name: name.into(),
        description: String::new(),
        changelog,
        priority,
    }
}

fn group(name: &str, kind: OptionGroupType, options: Vec<ModOption<()>>, defaults: Vec<usize>) -> OptionGroup<()> {
    OptionGroup {
        name: name.into(),
        description: String::new(),
        kind,
        priority: 0,
        options,
        default_selected: defaults,
    }
}

#[test]
fn selected_options_follow_priority() {
    let package = TkMod {
        id: [0; 16],
        name: "Mod".into(),
        description: String::new(),
        version: "1".into(),
        author: String::new(),
        thumbnail: None,
        changelog: Changelog {
            builder_version: 0,
            game_version: 0,
            entries: vec![],
            mals_files: vec![],
            patches: vec![],
            cheats: vec![],
            subsdk_files: vec![],
            exe_files: vec![],
            source: (),
        },
        option_groups: vec![
            group("Weapons", OptionGroupType::Multi, vec![option("Swords", 5, 1), option("Bows", 1, 2)], vec![]),
            group("Colour", OptionGroupType::SingleRequired, vec![option("Red", 3, 3), option("Blue", 0, 4)], vec![]),
            group("Extras", OptionGroupType::Multi, vec![option("A", 2, 5)], vec![0, 7]),
        ],
    };
    let mut selection = OptionMap::new();
    selection.insert("weapons".into(), vec!["swords".into(), "BOWS".into()]);
    let picked: Vec<i32> = package
        .selected_changelogs(&selection)
        .iter()
        .map(|c| c.game_version)
        .collect();
    // own changelog, then Bows (1), A (2), Red (3, the required group's first), Swords (5)
    assert_eq!(picked, vec![0, 2, 5, 3, 1]);
    assert_eq!(package.selected_options(&selection), vec![(0, 1), (2, 0), (1, 0), (0, 0)]);
}
