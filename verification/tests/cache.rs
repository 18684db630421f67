use lib::cache::{
    changelog_entry, entry_name, escape, index_text, is_stale_entry, parse_index, unescape, Location,
};
use lib::mods::DirEntry;

#[test]
fn names_with_tabs_survive_the_index() {
    assert_eq!(escape("romfs/Other\tname\n\\x"), "romfs/Other\\tname\\n\\\\x");
    assert_eq!(unescape(&escape("romfs/Other\tname\n\\x")), "romfs/Other\tname\n\\x");
    assert_eq!(unescape("a\\qb\\"), "aqb");
}

#[test]
fn stored_builds_index_their_files() {
    let files = vec![("romfs/Component/Foo.bgyml".to_string(), 9u64), ("romfs/Other\tname".to_string(), 1u64)];
    let links = vec![("romfs/Model/Foo.bfres.mc".to_string(), "/tmp/linked".to_string())];
    let text = index_text(&files, &links);
    assert_eq!(
        text,
        "romfs/Component/Foo.bgyml\tb\t0\t9\nromfs/Other\\tname\tb\t9\t1\nromfs/Model/Foo.bfres.mc\tf\t/tmp/linked\n"
    );
    let entries = parse_index(&text).unwrap();
    assert_eq!(
        entries,
        vec![
            ("romfs/Component/Foo.bgyml".to_string(), Location::Blob { offset: 0, size: 9 }),
            ("romfs/Other\tname".to_string(), Location::Blob { offset: 9, size: 1 }),
            ("romfs/Model/Foo.bfres.mc".to_string(), Location::File("/tmp/linked".to_string())),
        ]
    );
}

#[test]
fn broken_indexes_are_refused() {
    assert_eq!(parse_index(""), Some(vec![]));
    assert_eq!(parse_index("a\tb\t1\n"), None);
    assert_eq!(parse_index("a\tb\tx\t1\n"), None);
    assert_eq!(parse_index("a\tq\tfile\n"), None);
    assert_eq!(parse_index("a\tb\t+3\t4\r\n"), Some(vec![("a".to_string(), Location::Blob { offset: 3, size: 4 })]));
}

#[test]
fn entry_names_are_safe() {
    assert_eq!(entry_name("Weapons: Redux!", "0123"), "Weapons__Redux_-0123");
    let long = "x".repeat(60);
    assert_eq!(entry_name(&long, "f"), format!("{}-f", "x".repeat(48)));
}

#[test]
fn changelog_entries_follow_content_and_version() {
    let mut h: u64 = 0xcbf29ce484222325;
    for part in ["abc".as_bytes(), "121 1".as_bytes()] {
        for b in part {
            h = (h ^ *b as u64).wrapping_mul(0x100000001b3);
        }
        h = (h ^ 0xff).wrapping_mul(0x100000001b3);
    }
    assert_eq!(changelog_entry("My Mod", "abc", 121), format!("My_Mod-{:016x}", h));
    assert_ne!(changelog_entry("My Mod", "abc", 121), changelog_entry("My Mod", "abc", 110));
}

#[test]
fn older_entries_of_a_mod_are_stale() {
    let keep = "My_Mod-0123456789abcdef";
    let dir = |name: &str| DirEntry { name: name.to_string(), is_dir: true, len: 0 };
    assert!(is_stale_entry(&dir("My_Mod-fedcba9876543210"), "My Mod", keep));
    assert!(!is_stale_entry(&dir(keep), "My Mod", keep));
    assert!(!is_stale_entry(&dir("My_Mod_2-0123456789abcde"), "My Mod", keep));
    assert!(!is_stale_entry(&DirEntry { name: "My_Mod-fedcba9876543210".to_string(), is_dir: false, len: 0 }, "My Mod", keep));
}
