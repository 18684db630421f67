use lib::merger::{
    best_mals, best_version, changelog_file_path, deleted_mark, group_names, custom_merge_inputs, fallback_member, group_targets,
    merge_patches, merger_for, plan_target, plan_vanilla, shop_param_patch_address, MergerKind,
    TargetPlan, VanillaPlan,
};
use lib::rom::{StringTable, TkRom};
use lib::tkcl::{Changelog, ChangelogEntry, EntryType, Patch};
use lib::tkcl::EntryType::{Changelog as C, Copy as W, Placeholder as P};

#[test]
fn picks_the_closest_message_archive() {
    let files = vec!["Mals/EUen.Product.sarc".to_string(), "Mals/USfr.Product.sarc".to_string()];
    assert_eq!(best_mals(&files, "USen"), "Mals/EUen.Product.sarc");
    assert_eq!(best_mals(&files, "EUfr"), "Mals/USfr.Product.sarc");
    assert_eq!(best_mals(&files, "JPja"), "Mals/EUen.Product.sarc");
    let files = vec!["Mals/JPja.Product.sarc".to_string(), "Mals/USfr.Product.sarc".to_string()];
    assert_eq!(best_mals(&files, "KRko"), "Mals/JPja.Product.sarc");
}

#[test]
fn exact_archives_win_and_odd_locales_take_the_first() {
    let files = vec![
        "Mals/USen.Product.sarc".to_string(),
        "Mals/EUfr.Product.sarc".to_string(),
        "Mals/USfr.Product.sarc".to_string(),
    ];
    assert_eq!(best_mals(&files, "USfr"), "Mals/USfr.Product.sarc");
    assert_eq!(best_mals(&files, "CNfr"), "Mals/USfr.Product.sarc");
    assert_eq!(best_mals(&files, "fr"), "Mals/USen.Product.sarc");
    let one = vec!["Mals/KRko.Product.sarc".to_string()];
    assert_eq!(best_mals(&one, "USen"), "Mals/KRko.Product.sarc");
}

#[test]
fn picks_versions_like_tkmm() {
    assert_eq!(best_version(121, &[100, 110, 120]), 120);
    assert_eq!(best_version(100, &[110, 120]), 110);
}

#[test]
fn merger_kinds_follow_tkmm() {
    assert_eq!(merger_for("RSDB/Tag.Product.rstbl.byml"), Some(MergerKind::RsdbTag));
    assert_eq!(merger_for("RSDB/Other.Product.rstbl.byml"), Some(MergerKind::Byml));
    assert_eq!(merger_for("Pack/Actor/Foo.pack"), Some(MergerKind::Pack));
    assert_eq!(merger_for("Model/Foo.bfres"), None);
}

#[test]
fn shop_limits_are_known_per_build() {
    assert_eq!(shop_param_patch_address("9B4E43650501A4D4489B4BBFDB740F26AF3CF850"), Some(0x01acb308));
    assert_eq!(shop_param_patch_address("unknown"), None);
}

fn entry(canonical: &str, versions: Vec<i32>) -> ChangelogEntry {
    ChangelogEntry {
        canonical: canonical.to_string(),
        kind: EntryType::Changelog,
        attributes: 0,
        zs_dictionary_id: 0,
        versions,
        archive_canonicals: vec![],
    }
}

fn changelog(entries: Vec<ChangelogEntry>, patches: Vec<Patch>) -> Changelog<()> {
    Changelog {
        builder_version: 200,
        game_version: 121,
        entries,
        mals_files: vec![],
        patches,
        cheats: vec![],
        subsdk_files: vec![],
        exe_files: vec![],
        source: (),
    }
}

fn table(pairs: &[(&str, &str)]) -> StringTable {
    let mut t = StringTable::new();
    for (k, v) in pairs {
        t.insert(k.to_string(), v.to_string());
    }
    t
}

#[test]
fn changelog_files_pick_the_closest_version() {
    let rom = TkRom::new(
        String::new(),
        121,
        String::new(),
        StringTable::new(),
        table(&[("Intro", "110")]),
        StringTable::new(),
        table(&[("Root", "AI/Root.100")]),
        StringTable::new(),
        table(&[("Start", "Start.Product.1x0")]),
    );
    // No versions: the file itself.
    assert_eq!(changelog_file_path(&rom, &entry("Pack/A.pack", vec![])), "romfs/Pack/A.pack");
    // By the game version.
    assert_eq!(changelog_file_path(&rom, &entry("Pack/A.pack", vec![100, 110, 130])), "romfs/Pack/A.pack110");
    assert_eq!(changelog_file_path(&rom, &entry("Pack/A.pack", vec![130, 140])), "romfs/Pack/A.pack130");
    // By the event flow table.
    assert_eq!(
        changelog_file_path(&rom, &entry("Event/EventFlow/Intro.bfevfl", vec![100, 110, 121])),
        "romfs/Event/EventFlow/Intro.bfevfl110"
    );
    // By the last three characters of an AI table entry.
    assert_eq!(changelog_file_path(&rom, &entry("AI/Root.ainb", vec![100, 121])), "romfs/AI/Root.ainb100");
    // A table entry that does not end in a number: the first version.
    assert_eq!(
        changelog_file_path(&rom, &entry("Sequence/Start.seq", vec![110, 121])),
        "romfs/Sequence/Start.seq110"
    );
    // A table without the file: the first version too.
    assert_eq!(changelog_file_path(&rom, &entry("Logic/Other.logic", vec![110, 121])), "romfs/Logic/Other.logic110");
}

#[test]
fn targets_group_entries_by_name_in_first_seen_order() {
    let a = changelog(
        vec![
            entry("Pack/A.pack", vec![]),
            entry("System/Resource/ResourceSizeTable.Product.rsizetable", vec![]),
            entry("Pack/B.pack", vec![]),
        ],
        vec![],
    );
    let b = changelog(vec![entry("Pack/B.pack", vec![]), entry("Pack/C.pack", vec![])], vec![]);
    let targets = group_targets(&[&a, &b]);
    assert_eq!(targets.len(), 3);
    assert_eq!(targets[0].key, (0, 0));
    assert_eq!(targets[0].members, vec![(0, 0)]);
    assert_eq!(targets[1].key, (0, 2));
    assert_eq!(targets[1].members, vec![(0, 2), (1, 0)]);
    assert_eq!(targets[2].key, (1, 1));
    assert_eq!(targets[2].members, vec![(1, 1)]);
}

#[test]
fn later_patches_win_and_the_shop_limit_is_raised() {
    let id = "D5AD6AC71EF53E3E52417C1B81DBC9B4142AA3B3";
    let first = changelog(
        vec![],
        vec![Patch { nso_binary_id: id.to_lowercase(), entries: vec![(0x20, 1), (0x10, 2)] }],
    );
    let second = changelog(
        vec![],
        vec![
            Patch { nso_binary_id: "other".to_string(), entries: vec![(0x10, 9)] },
            Patch { nso_binary_id: id.to_string(), entries: vec![(0x10, 3)] },
        ],
    );
    let patches = merge_patches(id, 512, &[&first, &second]);
    let mov = (0x5280_0008u32 | (512 << 5)).swap_bytes();
    assert_eq!(patches, vec![(0x10, 3), (0x20, 1), (0x01ada148, mov)]);
    // Without raising the limit, or for an unknown build, only the patches.
    assert_eq!(merge_patches(id, 0, &[&first]), vec![(0x10, 2), (0x20, 1)]);
    assert_eq!(merge_patches("unknown", 512, &[&first]), vec![]);
}

#[test]
fn targets_are_planned_by_their_merger() {
    // No merger: the highest priority whole file.
    assert_eq!(plan_target("Model/A.bfres", &[W, P, W, P]), (TargetPlan::Copy(2), 0));
    assert_eq!(plan_target("Model/A.bfres", &[P, P]), (TargetPlan::Placeholder, 0));
    // A merger: every member with a file.
    assert_eq!(
        plan_target("Actor/A.bgyml", &[C, P, W]),
        (TargetPlan::Merge(MergerKind::Byml, vec![0, 2]), 0)
    );
    assert_eq!(plan_target("Actor/A.bgyml", &[P]), (TargetPlan::Placeholder, 0));
    // Combined textures: changelogs are skipped, whole files are used as they are.
    assert_eq!(
        plan_target("UI/Font/A__Combined.bntx", &[W, C, P, C]),
        (TargetPlan::Copy(0), 2)
    );
    assert_eq!(plan_target("UI/Font/A__Combined.bntx", &[C]), (TargetPlan::Placeholder, 1));
}

#[test]
fn targets_without_a_vanilla_file() {
    assert_eq!(plan_vanilla(true, false, C, &[C, C], &vec![0, 1]), VanillaPlan::MergeVanilla);
    assert_eq!(plan_vanilla(false, true, C, &[C], &vec![0]), VanillaPlan::Missing);
    assert_eq!(plan_vanilla(false, true, W, &[W], &vec![0]), VanillaPlan::Copy(0));
    assert_eq!(plan_vanilla(false, false, C, &[C], &vec![0]), VanillaPlan::Copy(0));
    assert_eq!(plan_vanilla(false, true, W, &[W, C], &vec![0, 1]), VanillaPlan::Missing);
    assert_eq!(plan_vanilla(false, false, W, &[W, C], &vec![0, 1]), VanillaPlan::MergeCustom);
    assert_eq!(plan_vanilla(false, true, W, &[W, W], &vec![0, 1]), VanillaPlan::MergeCustom);
}

#[test]
fn failed_merges_fall_back_to_the_last_whole_file() {
    assert_eq!(fallback_member(&[W, C, W, C], &vec![0, 1, 2, 3]), Some(2));
    assert_eq!(fallback_member(&[W, C, W, C], &vec![0, 1]), Some(0));
    assert_eq!(fallback_member(&[C, C], &vec![0, 1]), None);
}

#[test]
fn new_files_of_several_mods_merge_over_the_first() {
    // A whole file first and changelogs among the others: the changelogs are
    // used as they are, the whole files are diffed against the first.
    assert_eq!(custom_merge_inputs(&[W, C, W, C], &vec![0, 1, 2, 3]), (vec![1, 3], vec![2]));
    // Otherwise every other member is diffed.
    assert_eq!(custom_merge_inputs(&[C, C, W], &vec![0, 1, 2]), (vec![], vec![1, 2]));
    assert_eq!(custom_merge_inputs(&[W, W], &vec![0, 1]), (vec![], vec![1]));
}

#[test]
fn archive_entries_group_by_name() {
    let names: Vec<String> = ["a", "b", "a", "c", "b"].iter().map(|s| s.to_string()).collect();
    assert_eq!(group_names(&names), vec![vec![0, 2], vec![1, 4], vec![3]]);
    assert!(group_names(&[]).is_empty());
}

#[test]
fn deletion_marks_are_recognized() {
    assert!(deleted_mark(b"TKSCRMVD"));
    assert!(!deleted_mark(b"TKSCRMV"));
    assert!(!deleted_mark(b"TKSCRMVE"));
}
