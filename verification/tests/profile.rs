use lib::profile::{is_valid_name, Profile};

#[test]
fn profiles_round_trip() {
    let text = "[mod]\nfolder = Weapons of Legend = Redux\nenabled = 1\noption.Weapon Pack = Swords; Bows\n\n[mod]\nfolder = Capsules\nenabled = 0\n[mod]\nfolder = capsules\n";
    let profile = Profile::parse("Défaut", text);
    assert_eq!(profile.mods.len(), 2);
    assert_eq!(profile.mods[0].folder, "Weapons of Legend = Redux");
    assert_eq!(
        profile.mods[0].options.get("Weapon Pack"),
        Some(&vec!["Swords".to_string(), "Bows".to_string()])
    );
    assert!(!profile.mods[1].enabled);
    assert_eq!(Profile::parse("Défaut", &profile.to_ini()), profile);
}

#[test]
fn validates_names() {
    assert!(is_valid_name("Défaut"));
    assert!(is_valid_name("En ligne 2"));
    assert!(!is_valid_name(""));
    assert!(!is_valid_name(" x"));
    assert!(!is_valid_name("a/b"));
    assert!(!is_valid_name("what?"));
}

#[test]
fn new_profiles_are_empty() {
    let profile = Profile::new("Défaut");
    assert_eq!(profile.name, "Défaut");
    assert!(profile.mods.is_empty());
    assert_eq!(profile.entry("anything"), None);
}

#[test]
fn entries_are_found_without_case() {
    let profile = Profile::parse("p", "[mod]\nfolder = Capsules\nenabled = 0\n");
    let entry = profile.entry("CAPSULES").unwrap();
    assert_eq!(entry.folder, "Capsules");
    assert!(!entry.enabled);
}

#[test]
fn profile_files_are_listed_by_name() {
    use_entries();
}

fn use_entries() {
    let file = |name: &str| lib::mods::DirEntry { name: name.to_string(), is_dir: false, len: 1 };
    let entries = vec![
        file("Défaut.ini"),
        file("Online.INI"),
        file(".ini"),
        file("notes.txt"),
        lib::mods::DirEntry { name: "old.ini".to_string(), is_dir: true, len: 0 },
    ];
    assert_eq!(lib::profile::profile_names(&entries), vec!["Défaut".to_string(), "Online".to_string()]);
}
