use lib::config::Locales;
use lib::merge_cache::{
    entry_ids, folders_to_remove, index_text, kept_ids, locales_cover, merge_folders, merge_id,
    must_write, patches_text, recent_ids_of, recent_text_of, served_of, touch_ids, MergeCache,
    Redirects, Served, StoreWriter,
};
use lib::mods::DirEntry;

fn strings(v: &[&str]) -> Vec<String> {
    v.iter().map(|s| s.to_string()).collect()
}

#[test]
fn languages_cover_what_is_needed() {
    assert!(locales_cover("all", &Locales::All));
    assert!(locales_cover("EUfr,USen", &Locales::Only(vec!["EUfr".into()])));
    assert!(!locales_cover("EUfr", &Locales::All));
    assert!(!locales_cover("EUfr", &Locales::Only(vec!["USen".into()])));
}

#[test]
fn merge_ids_are_sixteen_hex_digits() {
    let id = merge_id("plan-121-abc", "all");
    assert_eq!(id.len(), 16);
    assert!(id.chars().all(|c| c.is_ascii_hexdigit() && !c.is_ascii_uppercase()));
    assert_eq!(id, merge_id("plan-121-abc", "all"));
    assert_ne!(id, merge_id("plan-121-abc", "EUfr"));
    // FNV-1a 64 of each text, each followed by 0xFF.
    let mut h: u64 = 0xcbf29ce484222325;
    for part in ["plan-121-abc", "all"] {
        for b in part.as_bytes() {
            h = (h ^ *b as u64).wrapping_mul(0x100000001b3);
        }
        h = (h ^ 0xff).wrapping_mul(0x100000001b3);
    }
    assert_eq!(id, format!("{:016x}", h));
}

#[test]
fn cache_folders() {
    let cache = MergeCache::new("sd:/totk/merged");
    assert_eq!(cache.store_dir(), "sd:/totk/merged/store");
    assert_eq!(cache.entry_dir("0123"), "sd:/totk/merged/0123");
    assert_eq!(cache.dir(), "sd:/totk/merged");
}

#[test]
fn recent_list_reads_and_writes() {
    let ids = recent_ids_of(" b \n\na\r\n");
    assert_eq!(ids, vec!["b".to_string(), "a".to_string()]);
    assert_eq!(recent_text_of(&ids), "b\na\n");
    assert_eq!(recent_ids_of(&recent_text_of(&ids)), ids);
}

#[test]
fn touching_puts_a_merge_first() {
    let ids = vec!["b".to_string(), "a".to_string(), "c".to_string()];
    assert_eq!(touch_ids(&ids, "a"), vec!["a".to_string(), "b".to_string(), "c".to_string()]);
    assert_eq!(touch_ids(&ids, "b"), ids);
    assert_eq!(touch_ids(&ids, "d"), vec!["d".to_string(), "b".to_string(), "a".to_string(), "c".to_string()]);
}

#[test]
fn redirects_stay_sorted_and_unique() {
    let mut r = Redirects::new();
    r.insert("Pack/B.pack.zs".to_string(), "sd:/x/b".to_string());
    r.insert("Pack/A.pack.zs".to_string(), "sd:/x/a".to_string());
    r.insert("Pack/B.pack.zs".to_string(), "sd:/x/b2".to_string());
    assert_eq!(r.len(), 2);
    assert_eq!(r.entry(0), (&"Pack/A.pack.zs".to_string(), &"sd:/x/a".to_string()));
    assert_eq!(r.get("Pack/B.pack.zs").map(|s| s.as_str()), Some("sd:/x/b2"));
    assert_eq!(r.get("Pack/C.pack.zs"), None);
}

#[test]
fn served_files_read_back() {
    let mut served = Served::new();
    served.redirects.insert("Pack/A.pack.zs".to_string(), "sd:/totk/merged/store/ab/abc-6".to_string());
    served.redirects.insert("GameData/x.byml".to_string(), "sd:/totk/mods/A/romfs/GameData/x.byml".to_string());
    served.patches.push((0x1234, 0xd503201f));
    let index = index_text(&served);
    let patches = patches_text(&served);
    assert_eq!(patches, "00001234\td503201f\n");
    assert_eq!(
        index,
        "GameData/x.byml\tsd:/totk/mods/A/romfs/GameData/x.byml\nPack/A.pack.zs\tsd:/totk/merged/store/ab/abc-6\n"
    );
    let back = served_of(&index, &patches);
    assert_eq!(back.redirects, served.redirects);
    assert_eq!(back.patches, served.patches);
    let odd = served_of("no tab\nA\tB\tC\r\n", "1\tzz\nFF\t+10\n");
    assert_eq!(odd.redirects.get("A").map(|s| s.as_str()), Some("B\tC"));
    assert_eq!(odd.patches, vec![(0xff, 0x10)]);
}

#[test]
fn merges_are_listed_recent_first() {
    let dir = |name: &str| DirEntry { name: name.to_string(), is_dir: true, len: 0 };
    let entries = vec![dir("store"), dir("ROMFS"), dir("b"), dir("a"), DirEntry { name: "recent.txt".to_string(), is_dir: false, len: 3 }];
    let folders = merge_folders(&entries);
    assert_eq!(folders, strings(&["b", "a"]));
    assert_eq!(entry_ids(&strings(&["a", "c"]), &folders), strings(&["a", "c", "b"]));
}

#[test]
fn eviction_keeps_the_most_recent() {
    let complete = strings(&["c", "a", "b"]);
    assert_eq!(kept_ids(&complete, 2), strings(&["c", "a"]));
    assert_eq!(kept_ids(&complete, 0), strings(&["c"]));
    assert_eq!(kept_ids(&complete, 9), complete);
    let folders = strings(&["a", "b", "c", "interrupted"]);
    assert_eq!(folders_to_remove(&folders, &strings(&["c", "a"])), strings(&["b", "interrupted"]));
}

#[test]
fn the_store_names_files_by_content() {
    assert_eq!(StoreWriter::name_for(0x00ab_cdef_0123_4567, 0x1f), "00abcdef01234567-1f");
    let mut writer = StoreWriter::new("sd:/totk/merged/store");
    let name = StoreWriter::name_for(0xabcd, 5);
    let (folder, dir, file) = writer.place(&name);
    assert_eq!(folder, "00");
    assert_eq!(dir, "sd:/totk/merged/store/00");
    assert_eq!(file, format!("sd:/totk/merged/store/00/{}", name));
    assert_eq!(writer.folder("00"), None);
    writer.remember(folder, true);
    assert_eq!(writer.folder("00"), Some(true));
    assert!(must_write(true, Some(5), 5));
    assert!(!must_write(false, Some(5), 5));
    assert!(must_write(false, Some(3), 5));
    assert!(must_write(false, None, 5));
    writer.count_written(5);
    writer.count_reused();
    assert_eq!((writer.written, writer.reused, writer.bytes_written), (1, 1, 5));
}
