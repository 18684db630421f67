use lib::install::{
    add_to_profile, folder_name, has_code_files, is_old_content_entry, keep_settings,
    loose_package_folder, moved_name, nothing_to_install_error, order_candidates, packages_in,
    remove_from_profile, scan_entries, thumbnail_name, Candidate, Finding,
};
use lib::mods::{DirEntry, ModInfo, ModKind};
use lib::profile::Profile;

fn entry(name: &str, is_dir: bool) -> DirEntry {
    DirEntry { name: name.to_string(), is_dir, len: 1 }
}

fn candidate(kind: ModKind, label: &str) -> Candidate {
    Candidate { kind, path: format!("/x/{}", label), label: label.to_string(), has_code: false, size: 0 }
}

#[test]
fn folder_names_are_fat32_safe() {
    assert_eq!(folder_name("Link: Warrior of <Sunlight>?"), "Link_ Warrior of _Sunlight__");
    assert_eq!(folder_name("  ...  "), "mod");
    assert_eq!(folder_name("Weapons v1.2."), "Weapons v1.2");
}

#[test]
fn folder_names_keep_64_characters() {
    let long = "é".repeat(70);
    assert_eq!(folder_name(&long), "é".repeat(64));
    assert_eq!(folder_name("a\u{7}b"), "a_b");
}

#[test]
fn folders_are_told_apart_by_their_entries() {
    let (packages, finding) = scan_entries(&vec![entry("Mod.TKCL", false), entry("ROMFS", true), entry("exefs", true)], false);
    assert_eq!(packages, vec!["Mod.TKCL".to_string()]);
    assert_eq!(finding, Finding::Folder { exefs: Some("exefs".to_string()) });
    let (_, finding) = scan_entries(&vec![entry("Pack", true)], true);
    assert_eq!(finding, Finding::Romfs);
    let (_, finding) = scan_entries(&vec![entry("plugin.nro", false)], true);
    assert_eq!(finding, Finding::Plugins);
    let (packages, finding) = scan_entries(&vec![entry("a", true), entry(".tkcl", false), entry("b", true)], false);
    assert!(packages.is_empty());
    assert_eq!(finding, Finding::Descend(vec!["a".to_string(), "b".to_string()]));
}

#[test]
fn packages_become_candidates() {
    let found = packages_in("/tmp/x/Packaged", "Packaged", &vec![entry("Mod.tkcl", false), entry("readme.txt", false)]);
    assert_eq!(found.len(), 1);
    assert_eq!(found[0].path, "/tmp/x/Packaged/Mod.tkcl");
    assert_eq!(found[0].label, "Packaged/Mod.tkcl");
    assert_eq!(found[0].kind, ModKind::Package);
}

#[test]
fn packages_come_first_each_by_label() {
    let packages = vec![candidate(ModKind::Package, "b.tkcl"), candidate(ModKind::Package, "a.tkcl")];
    let folders = vec![
        candidate(ModKind::Romfs, "Other"),
        candidate(ModKind::Folder, "Mod/Option B"),
        candidate(ModKind::Folder, "Code"),
        candidate(ModKind::Folder, "Mod/Option A"),
    ];
    let labels: Vec<String> = order_candidates(packages, folders).into_iter().map(|c| c.label).collect();
    assert_eq!(labels, vec!["a.tkcl", "b.tkcl", "Code", "Mod/Option A", "Mod/Option B", "Other"]);
}

#[test]
fn code_files_are_what_is_not_a_patch() {
    assert!(!has_code_files(&vec![("0100.ips".to_string(), 1), ("x.PCHTXT".to_string(), 1), (".keep".to_string(), 0)]));
    assert!(has_code_files(&vec![("main.npdm".to_string(), 1)]));
    assert!(has_code_files(&vec![(".ips".to_string(), 1), ("subsdk9".to_string(), 1)]) );
}

#[test]
fn updates_replace_content_and_keep_settings() {
    assert!(is_old_content_entry(&entry("RomFS", true)));
    assert!(is_old_content_entry(&entry("plugins", true)));
    assert!(is_old_content_entry(&entry("old.tkcl", false)));
    assert!(!is_old_content_entry(&entry("mod.ini", false)));
    assert_eq!(moved_name(&entry("RomFS", true)), Some("romfs".to_string()));
    assert_eq!(moved_name(&entry("hud.NRO", false)), Some("hud.NRO".to_string()));
    assert_eq!(moved_name(&entry("readme.txt", false)), None);
    assert_eq!(nothing_to_install_error("/tmp/x"), "/tmp/x holds no romfs or exefs folder");

    let mut info = ModInfo::default();
    info.name = Some("New".to_string());
    let mut previous = ModInfo::default();
    previous.enabled = false;
    previous.priority = 7;
    previous.thumbnail = "thumbnail.png".to_string();
    let kept = keep_settings(info, previous);
    assert_eq!(kept.name.as_deref(), Some("New"));
    assert!(!kept.enabled);
    assert_eq!(kept.priority, 7);
    assert_eq!(kept.thumbnail, "thumbnail.png");
}

#[test]
fn thumbnails_keep_short_extensions() {
    assert_eq!(thumbnail_name("shot.PNG"), "thumbnail.png");
    assert_eq!(thumbnail_name("shot.jpeg"), "thumbnail.jpeg");
    assert_eq!(thumbnail_name("shot.image"), "thumbnail.jpg");
    assert_eq!(thumbnail_name("shot"), "thumbnail.jpg");
}

#[test]
fn profiles_follow_installs() {
    let mut profile = Profile::parse("Test", "[mod]\nfolder = Other\nenabled = 0\n");
    assert!(add_to_profile(&mut profile, "Option A"));
    assert_eq!(profile.mods[0].folder, "Option A");
    assert!(profile.mods[0].enabled);
    assert!(!add_to_profile(&mut profile, "option a"));
    assert_eq!(profile.mods.len(), 2);
    assert!(remove_from_profile(&mut profile, "OPTION A"));
    assert_eq!(profile.mods.len(), 1);
    assert_eq!(profile.mods[0].folder, "Other");
    assert!(!remove_from_profile(&mut profile, "Option A"));
}

#[test]
fn loose_packages_get_folders() {
    assert_eq!(loose_package_folder(&entry("Weapons v1.2..tkcl", false)), Some("Weapons v1.2".to_string()));
    assert_eq!(loose_package_folder(&entry("Mod.tkcl", true)), None);
    assert_eq!(loose_package_folder(&entry("Mod.zip", false)), None);
}

#[test]
fn folder_names_end_trimmed_after_the_cut() {
    let spaced = format!("{} x", "a".repeat(63));
    assert_eq!(folder_name(&spaced), "a".repeat(63));
    let dotted = format!("{}.x", "a".repeat(63));
    assert_eq!(folder_name(&dotted), "a".repeat(63));
    assert_eq!(folder_name("a. ."), "a");
}
