use lib::config::Config;
use lib::mods::{
    classify_file, empty_folder_problem, local_plan, loose_package_problem, mod_plugins, single_folder,
    fingerprint_contents, has_extension, inspect_entries, select_mods, DirEntry, Fingerprint,
    InstalledMod, ModInfo, ModKind, ModSpec,
};
use lib::options::OptionMap;
use lib::profile::Profile;

#[test]
fn mod_info_round_trips() {
    let text = "name = Weapons\nversion = 1.2\ndescription = Two\\nlines\ngamebanana_file = 42\npriority = 5\n\n[options]\nWeapon Pack = Swords; Bows\n";
    let info = ModInfo::parse(text);
    assert_eq!(info.name.as_deref(), Some("Weapons"));
    assert_eq!(info.description, "Two\nlines");
    assert_eq!(info.priority, 5);
    assert_eq!(info.extra, vec![("gamebanana_file".to_string(), "42".to_string())]);
    assert_eq!(
        info.options.get("Weapon Pack").unwrap(),
        &vec!["Swords".to_string(), "Bows".to_string()]
    );
    let again = ModInfo::parse(&info.to_ini());
    assert_eq!(again.description, info.description);
    assert_eq!(again.options, info.options);
    assert_eq!(again.priority, 5);
    assert_eq!(again.extra, info.extra);
}

#[test]
fn mod_info_defaults_and_flags() {
    let info = ModInfo::parse("name =\nenabled = no\nplugins = 0\npriority = x\n");
    assert_eq!(info.name, None);
    assert!(!info.enabled);
    assert!(!info.load_plugins);
    assert_eq!(info.priority, 100);
    assert!(info.extra.is_empty());
    assert_eq!(info.to_ini(), "name = \nenabled = 0\nplugins = 0\n");
    let again = ModInfo::parse(&info.to_ini());
    assert_eq!(again.name, None);
    assert!(again.extra.is_empty());
    assert_eq!(ModInfo::default().to_ini(), "name = \n");
    let blank = ModInfo::parse("name = \n");
    assert!(blank.name.is_none() && blank.extra.is_empty());
}

#[test]
fn kinds_have_names() {
    assert_eq!(ModKind::Folder.as_str(), "folder");
    assert_eq!(ModKind::Package.as_str(), "package");
    assert_eq!(ModKind::Romfs.as_str(), "romfs");
}

#[test]
fn extensions_ignore_case() {
    assert!(has_extension("Mod.TKCL", ".tkcl"));
    assert!(!has_extension(".tkcl", ".tkcl"));
    assert!(!has_extension("éabc", ".nro"));
    assert!(has_extension("plugin.nro", ".nro"));
}

fn entry(name: &str, is_dir: bool) -> DirEntry {
    DirEntry { name: name.into(), is_dir, len: 0 }
}

#[test]
fn folders_are_told_apart() {
    let packages = vec![entry("b.tkcl", false), entry("a.TKCL", false), entry("romfs", true)];
    assert_eq!(
        inspect_entries("mods/X", &packages, false),
        Some((ModKind::Package, "mods/X/a.TKCL".to_string()))
    );
    let folder = vec![entry("ExeFS", true), entry("readme.txt", false)];
    assert_eq!(inspect_entries("mods/X", &folder, false), Some((ModKind::Folder, "mods/X".to_string())));
    let romfs = vec![entry("pack", true)];
    assert_eq!(inspect_entries("mods/X", &romfs, false), Some((ModKind::Romfs, "mods/X".to_string())));
    let code = vec![entry("plugin.nro", false)];
    assert_eq!(inspect_entries("mods/X", &code, true), Some((ModKind::Folder, "mods/X".to_string())));
    assert_eq!(inspect_entries("mods/X", &code, false), None);
}

#[test]
fn fingerprints_follow_fnv1a() {
    let mut f = Fingerprint::default();
    assert_eq!(f.value(), 0xcbf2_9ce4_8422_2325);
    f.mix(b"");
    assert_eq!(f.value(), (0xcbf2_9ce4_8422_2325u64 ^ 0xFF).wrapping_mul(0x100_0000_01b3));
    let mut ab = Fingerprint::default();
    ab.mix_str("ab");
    ab.mix_str("c");
    let mut a = Fingerprint::default();
    a.mix_str("a");
    a.mix_str("bc");
    assert_ne!(ab.value(), a.value());
    assert_eq!(ab.finish().len(), 16);
}

fn spec(path: &str, kind: ModKind) -> ModSpec {
    let mut s = ModSpec::default();
    s.path = path.into();
    s.kind = kind;
    s
}

#[test]
fn fingerprints_skip_files_that_are_not_merged() {
    let files = vec![("romfs/Pack/a.pack".to_string(), 3u64), ("mod.ini".to_string(), 10u64)];
    let other = vec![("romfs/Pack/a.pack".to_string(), 3u64), ("mod.ini".to_string(), 99u64), ("readme".to_string(), 1u64)];
    let folder = spec("mods/A", ModKind::Folder);
    assert_eq!(fingerprint_contents(&folder, &files, 0), fingerprint_contents(&folder, &other, 0));
    let bigger = vec![("romfs/Pack/a.pack".to_string(), 4u64)];
    assert_ne!(fingerprint_contents(&folder, &files, 0), fingerprint_contents(&folder, &bigger, 0));
    let package = spec("mods/B/b.tkcl", ModKind::Package);
    assert_ne!(fingerprint_contents(&package, &files, 1), fingerprint_contents(&package, &files, 2));
}

fn installed(folder: &str, ini: &str) -> InstalledMod {
    InstalledMod {
        folder: folder.into(),
        path: format!("mods/{}", folder),
        kind: ModKind::Folder,
        content: format!("mods/{}", folder),
        plugins: vec![format!("mods/{}/plugin.nro", folder)],
        info: ModInfo::parse(ini),
    }
}

#[test]
fn without_a_profile_mods_go_by_priority_then_name() {
    let mods = vec![
        installed("A", "priority = 5\n"),
        installed("B", "priority = 1\nplugins = 0\n"),
        installed("C", "enabled = 0\n"),
        installed("D", "name = Zed\npriority = 1\n"),
    ];
    let chosen = select_mods(Some((ModKind::Package, "x".into())), &mods, None);
    let names: Vec<(String, i32)> = chosen.iter().map(|s| (s.name.clone(), s.priority)).collect();
    assert_eq!(names, vec![("B".into(), 1), ("Zed".into(), 1), ("A".into(), 5)]);
    assert!(chosen[0].plugins.is_empty());
    assert_eq!(chosen[1].plugins, vec!["mods/D/plugin.nro".to_string()]);
}

#[test]
fn profiles_choose_and_order_mods() {
    let mods = vec![installed("A", ""), installed("B", "[options]\nG = x\n"), installed("C", "")];
    let profile = Profile::parse(
        "P",
        "[mod]\nfolder = b\noption.H = y\n[mod]\nfolder = Missing\n[mod]\nfolder = a\nenabled = 0\n[mod]\nfolder = C\n[mod]\nfolder = B\n",
    );
    let chosen = select_mods(Some((ModKind::Romfs, "lite".into())), &mods, Some(&profile));
    let names: Vec<(String, i32)> = chosen.iter().map(|s| (s.name.clone(), s.priority)).collect();
    assert_eq!(
        names,
        vec![("RomFSlite".into(), i32::MIN), ("C".into(), 1), ("B".into(), 4)]
    );
    let mut expected = OptionMap::new();
    expected.insert("G".into(), vec!["x".into()]);
    expected.insert("H".into(), vec!["y".into()]);
    assert_eq!(chosen[2].options, expected);
}

#[test]
fn folders_one_level_down_are_found() {
    let dir = |name: &str, is_dir: bool| DirEntry { name: name.to_string(), is_dir, len: 0 };
    assert_eq!(single_folder(&vec![dir("readme.txt", false), dir("My Mod", true)]), Some("My Mod".to_string()));
    assert_eq!(single_folder(&vec![dir("a", true), dir("b", true)]), None);
    assert_eq!(single_folder(&vec![dir("a.txt", false)]), None);
}

#[test]
fn scans_explain_what_is_left_out() {
    assert_eq!(classify_file("sd:/x/Mod.TKCL"), Some((ModKind::Package, "sd:/x/Mod.TKCL".to_string())));
    assert_eq!(classify_file("sd:/x/Mod.zip"), None);
    assert_eq!(
        loose_package_problem("Mod.tkcl", "sd:/totk/mods"),
        "'Mod.tkcl' ignored: every mod needs its own folder (sd:/totk/mods/<mod>/Mod.tkcl)"
    );
    assert_eq!(empty_folder_problem("X"), "'X' ignored: no romfs or exefs folder, and no .tkcl file");
    let a = vec!["d/a.nro".to_string()];
    let b = vec!["d/in/b.nro".to_string()];
    assert_eq!(mod_plugins("d", "d/in", ModKind::Folder, a.clone(), b.clone()), vec!["d/a.nro".to_string(), "d/in/b.nro".to_string()]);
    assert_eq!(mod_plugins("d", "d", ModKind::Folder, a.clone(), b.clone()), a);
    assert_eq!(mod_plugins("d", "d/x.tkcl", ModKind::Package, a.clone(), b), a);
}

#[test]
fn local_plans_name_their_profile() {
    let mut config = Config::default();
    config.profile = "  ".to_string();
    let plan = local_plan(&config, vec![]);
    assert_eq!(plan.profile, "local");
    assert_eq!(plan.merged_dir, config.merged_dir);
    config.profile = "Défaut".to_string();
    assert_eq!(local_plan(&config, vec![ModSpec::default()]).profile, "Défaut");
}
