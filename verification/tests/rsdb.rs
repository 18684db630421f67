use lib::rsdb::{
    apply_changes, compile_tags, edit_entry, entry_tags, gather_entries, merge_tag_table, new_tags, sorted_entries,
    sorted_tags, tag_changes, tag_edits_of, utf16_less, EntryKey, TagChangelog, TagEdit, TagEntry,
};

fn strings(v: &[&str]) -> Vec<String> {
    v.iter().map(|s| s.to_string()).collect()
}

fn entry(name: &str, tags: &[&str]) -> TagEntry {
    (
        ("Actor/".to_string(), name.to_string(), ".engine__actor__ActorParam.gyml".to_string()),
        strings(tags),
    )
}

#[test]
fn utf16_order_puts_private_use_after_astral() {
    assert!(utf16_less("\u{10000}", "\u{E000}"));
    assert!(!utf16_less("\u{E000}", "\u{10000}"));
    assert!(utf16_less("a", "ab"));
    assert!(utf16_less("A", "a"));
    assert!(!utf16_less("b", "a"));
    assert!(!utf16_less("a", "a"));
    assert!(!utf16_less("", ""));
}

#[test]
fn entry_tags_read_the_bits_of_one_entry() {
    let tags = strings(&["Food", "Sharp", "Weapon"]);
    assert_eq!(entry_tags(0, &tags, &[53]), strings(&["Food", "Weapon"]));
    assert_eq!(entry_tags(1, &tags, &[53]), strings(&["Sharp", "Weapon"]));
    // Bits past the table's end read as unset.
    assert_eq!(entry_tags(3, &tags, &[53]), Vec::<String>::new());
}

#[test]
fn tag_changes_walk_both_sorted_lists() {
    assert_eq!(
        tag_changes(&strings(&["Food"]), &strings(&["Food", "Weapon"])),
        vec![(true, "Weapon".to_string())]
    );
    assert_eq!(
        tag_changes(&strings(&["Sharp", "Weapon"]), &strings(&["Weapon"])),
        vec![(false, "Sharp".to_string())]
    );
    assert_eq!(
        tag_changes(&strings(&["A", "C"]), &strings(&["B"])),
        vec![(false, "A".to_string()), (true, "B".to_string()), (false, "C".to_string())]
    );
    assert_eq!(tag_changes(&strings(&["A"]), &strings(&["A"])), Vec::<(bool, String)>::new());
}

#[test]
fn applied_changes_add_at_the_end_and_remove_the_first_mention() {
    let mut tags = strings(&["Food"]);
    apply_changes(&mut tags, &vec![(true, "Weapon".to_string())]);
    assert_eq!(tags, strings(&["Food", "Weapon"]));

    let mut tags = strings(&["A", "B", "A"]);
    apply_changes(&mut tags, &vec![(false, "A".to_string())]);
    assert_eq!(tags, strings(&["B", "A"]));

    let mut tags = strings(&["A"]);
    apply_changes(&mut tags, &vec![(false, "Z".to_string())]);
    assert_eq!(tags, strings(&["A"]));
}

#[test]
fn applied_changes_give_back_the_modded_tags() {
    let vanilla = strings(&["Sharp", "Weapon"]);
    let modded = strings(&["Blunt", "Weapon"]);
    let changes = tag_changes(&vanilla, &modded);
    let mut tags = vanilla.clone();
    apply_changes(&mut tags, &changes);
    assert_eq!(tags, strings(&["Weapon", "Blunt"]));
}

#[test]
fn tags_sort_and_keep_each_once() {
    assert_eq!(sorted_tags(strings(&["b", "a", "b", "a"])), strings(&["a", "b"]));
    assert_eq!(sorted_tags(Vec::new()), Vec::<String>::new());
}

#[test]
fn entries_sort_by_path() {
    let sorted = sorted_entries(vec![entry("Sword", &["Weapon"]), entry("Apple", &["Food"])]);
    assert_eq!(sorted, vec![entry("Apple", &["Food"]), entry("Sword", &["Weapon"])]);
}

#[test]
fn tag_edits_compile_to_one_bit_per_entry_and_tag() {
    let entries = vec![entry("Sword", &["Sharp", "Weapon"]), entry("Apple", &["Food", "Weapon"])];
    let tags = strings(&["Weapon", "Food", "Sharp", "Food"]);
    let (bits, paths, ts) = compile_tags(entries, tags).unwrap();
    assert_eq!(bits, vec![53u8]);
    assert_eq!(
        paths,
        strings(&[
            "Actor/",
            "Apple",
            ".engine__actor__ActorParam.gyml",
            "Actor/",
            "Sword",
            ".engine__actor__ActorParam.gyml",
        ])
    );
    assert_eq!(ts, strings(&["Food", "Sharp", "Weapon"]));
}

#[test]
fn a_tag_missing_from_the_list_is_refused() {
    let entries = vec![entry("Apple", &["Food", "Blunt"])];
    let r = compile_tags(entries, strings(&["Food"]));
    assert_eq!(
        r,
        Err("tag 'Blunt' is used by an entry but missing from the tag list".to_string())
    );
}

#[test]
fn an_empty_table_compiles_to_nothing() {
    let (bits, paths, ts) = compile_tags(Vec::new(), Vec::new()).unwrap();
    assert!(bits.is_empty() && paths.is_empty() && ts.is_empty());
}

fn key(name: &str) -> EntryKey {
    ("Actor/".to_string(), name.to_string(), ".engine__actor__ActorParam.gyml".to_string())
}

#[test]
fn tag_edits_from_several_mods_merge() {
    // Vanilla: the apple is food, the sword a weapon.
    let keys = vec![Some(key("Apple")), Some(key("Sword"))];
    let tags = strings(&["Food", "Weapon"]);
    let bits = vec![0b1001u8];
    // Mod A tags the apple as a weapon; mod B adds a new tag to the sword.
    let mod_a = TagChangelog {
        tags: Vec::new(),
        entries: vec![(key("Apple"), TagEdit::Changes(vec![(true, "Weapon".to_string())]))],
    };
    let mod_b = TagChangelog {
        tags: strings(&["Sharp"]),
        entries: vec![(key("Sword"), TagEdit::Changes(vec![(true, "Sharp".to_string())]))],
    };
    let (bits, paths, ts) = merge_tag_table(&keys, &tags, &bits, &vec![mod_a, mod_b]).unwrap();
    assert_eq!(ts, strings(&["Food", "Sharp", "Weapon"]));
    assert_eq!(bits, vec![53u8]);
    assert_eq!(paths.len(), 6);
    assert_eq!(paths[1], "Apple");
    assert_eq!(paths[4], "Sword");
}

#[test]
fn gathered_entries_skip_broken_paths_and_keep_the_later_tags() {
    let keys = vec![Some(key("Apple")), None, Some(key("Apple"))];
    let tags = strings(&["Food", "Weapon"]);
    // Entry 0: Food; entry 2: Weapon (bit 5).
    let entries = gather_entries(&keys, &tags, &[0b10_0001]);
    assert_eq!(entries, vec![(key("Apple"), strings(&["Weapon"]))]);
}

#[test]
fn edits_make_missing_entries() {
    let mut entries: Vec<TagEntry> = vec![(key("Apple"), strings(&["Food"]))];
    edit_entry(&mut entries, &key("Apple"), &TagEdit::Added(strings(&["Weapon", "Food"])));
    edit_entry(&mut entries, &key("Sword"), &TagEdit::Other);
    edit_entry(&mut entries, &key("Bow"), &TagEdit::Changes(vec![(false, "X".to_string()), (true, "Weapon".to_string())]));
    assert_eq!(
        entries,
        vec![
            (key("Apple"), strings(&["Food", "Weapon", "Food"])),
            (key("Sword"), Vec::new()),
            (key("Bow"), strings(&["Weapon"])),
        ]
    );
}

#[test]
fn a_merge_refuses_a_tag_no_list_holds() {
    let keys = vec![Some(key("Apple"))];
    let edit = TagChangelog { tags: Vec::new(), entries: vec![(key("Apple"), TagEdit::Added(strings(&["Blunt"])))] };
    let r = merge_tag_table(&keys, &strings(&["Food"]), &[1], &vec![edit]);
    assert_eq!(r, Err("tag 'Blunt' is used by an entry but missing from the tag list".to_string()));
}

fn changelog_of(keys: &[Option<EntryKey>], tags: &[String], bits: &[u8], vanilla_tags: &[String], vanilla_bits: &[u8]) -> TagChangelog {
    let vanilla_keys = vec![Some(key("Apple")), Some(key("Sword"))];
    let keys = keys.to_vec();
    let edits = tag_edits_of(&keys, &tags.to_vec(), bits, &vanilla_keys, &vanilla_tags.to_vec(), vanilla_bits);
    let nodes: Vec<Option<String>> = tags.iter().map(|t| Some(t.clone())).collect();
    let fresh = new_tags(&nodes, &vanilla_tags.to_vec());
    TagChangelog {
        tags: fresh.iter().map(|i| tags[*i].clone()).collect(),
        entries: edits.into_iter().map(|(i, e)| (keys[i].clone().unwrap(), e)).collect(),
    }
}

#[test]
fn tag_changelogs_built_from_mods_merge_into_their_edits() {
    let keys = vec![Some(key("Apple")), Some(key("Sword"))];
    let vanilla_tags = strings(&["Food", "Weapon"]);
    let vanilla_bits = [0b1001u8];
    let mod_a = changelog_of(&keys, &strings(&["Food", "Weapon"]), &[0b1011], &vanilla_tags, &vanilla_bits);
    let mod_b = changelog_of(&keys, &strings(&["Food", "Sharp", "Weapon"]), &[49], &vanilla_tags, &vanilla_bits);
    assert!(mod_a.tags.is_empty());
    assert_eq!(mod_b.tags, strings(&["Sharp"]));
    assert_eq!(mod_a.entries.len(), 1);
    assert_eq!(mod_b.entries.len(), 1);
    let (bits, _, ts) = merge_tag_table(&keys, &vanilla_tags, &vanilla_bits, &vec![mod_a, mod_b]).unwrap();
    assert_eq!(ts, strings(&["Food", "Sharp", "Weapon"]));
    assert_eq!(bits, vec![53u8]);
}

#[test]
fn tag_edits_name_new_entries_and_changed_ones() {
    let vanilla_keys = vec![Some(key("Apple"))];
    let keys = vec![Some(key("Apple")), None, Some(key("Bow"))];
    let tags = strings(&["Food", "Weapon"]);
    // Apple: Weapon; the broken path: Food; Bow: Weapon.
    let edits = tag_edits_of(&keys, &tags, &[0b10_0110], &vanilla_keys, &strings(&["Food"]), &[1]);
    assert_eq!(edits.len(), 3);
    assert!(matches!(&edits[0], (0, TagEdit::Changes(c)) if *c == vec![(false, "Food".to_string()), (true, "Weapon".to_string())]));
    assert!(matches!(&edits[1], (1, TagEdit::Added(t)) if *t == strings(&["Food"])));
    assert!(matches!(&edits[2], (2, TagEdit::Added(t)) if *t == strings(&["Weapon"])));
}

#[test]
fn unchanged_entries_make_no_edits() {
    let keys = vec![Some(key("Apple"))];
    let tags = strings(&["Food"]);
    assert!(tag_edits_of(&keys, &tags, &[1], &keys, &tags, &[1]).is_empty());
}

#[test]
fn new_tags_are_those_vanilla_does_not_list() {
    let nodes = vec![Some("Food".to_string()), None, Some("Sharp".to_string())];
    assert_eq!(new_tags(&nodes, &strings(&["Food", "Weapon"])), vec![1, 2]);
}

#[test]
fn changes_give_back_the_modded_tags_in_any_order() {
    for (vanilla, modded) in [
        (vec!["Weapon", "Food"], vec!["Food", "Blunt", "Food"]),
        (vec!["A", "A", "C"], vec!["C", "B"]),
        (vec![], vec!["X"]),
        (vec!["X"], vec![]),
    ] {
        let vanilla = strings(&vanilla);
        let modded = strings(&modded);
        let mut tags = vanilla.clone();
        apply_changes(&mut tags, &tag_changes(&vanilla, &modded));
        let mut got = tags.clone();
        let mut want = modded.clone();
        got.sort();
        want.sort();
        assert_eq!(got, want);
    }
}
