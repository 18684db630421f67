use lib::tkcl::archive::read_package;
use lib::tkcl::{ulid_to_string, Changelog, OptionGroupType};

fn word(out: &mut Vec<u8>, v: u32) {
    out.extend_from_slice(&v.to_le_bytes());
}

fn string(out: &mut Vec<u8>, s: &str) {
    out.extend_from_slice(&(s.len() as i32).to_le_bytes());
    out.extend_from_slice(s.as_bytes());
}

fn empty_changelog(game_version: i32) -> Vec<u8> {
    Changelog {
        builder_version: 200,
        game_version,
        entries: vec![],
        mals_files: vec!["Mals/USen.Product.sarc".to_string()],
        patches: vec![],
        cheats: vec![],
        subsdk_files: vec![],
        exe_files: vec![],
        source: (),
    }
    .write()
}

fn package() -> Vec<u8> {
    let mut d = Vec::new();
    word(&mut d, 0x504D_4B54);
    word(&mut d, 0x20);
    d.extend_from_slice(&[1u8; 16]);
    string(&mut d, "Weapons");
    string(&mut d, "More weapons");
    d.push(1);
    string(&mut d, "img/thumb");
    d.extend_from_slice(&empty_changelog(121));
    string(&mut d, "1.2");
    string(&mut d, "Someone");
    word(&mut d, 1);
    string(&mut d, "Helper");
    string(&mut d, "Art");
    word(&mut d, 1);
    string(&mut d, "Pack");
    string(&mut d, "Choose one");
    d.push(0);
    word(&mut d, 2);
    string(&mut d, "");
    word(&mut d, 5);
    word(&mut d, 1);
    d.extend_from_slice(&[2u8; 16]);
    string(&mut d, "Swords");
    string(&mut d, "");
    d.push(0);
    d.extend_from_slice(&empty_changelog(110));
    word(&mut d, 3);
    word(&mut d, 1);
    word(&mut d, 0);
    word(&mut d, 0);
    d
}

#[test]
fn package_heads_are_read() {
    let m = read_package(&package(), "Weapons.tkcl").unwrap();
    assert_eq!(m.id, [1u8; 16]);
    assert_eq!((m.name.as_str(), m.description.as_str()), ("Weapons", "More weapons"));
    assert_eq!((m.version.as_str(), m.author.as_str()), ("1.2", "Someone"));
    assert_eq!(m.thumbnail.as_deref(), Some("img/thumb"));
    assert_eq!(m.changelog.game_version, 121);
    assert_eq!(m.changelog.source, "");
    assert_eq!(m.option_groups.len(), 1);
    let g = &m.option_groups[0];
    assert_eq!((g.name.as_str(), g.kind, g.priority), ("Pack", OptionGroupType::Single, 5));
    assert_eq!(g.default_selected, vec![0]);
    assert_eq!(g.options.len(), 1);
    let o = &g.options[0];
    assert_eq!((o.name.as_str(), o.priority, o.changelog.game_version), ("Swords", 3, 110));
    assert_eq!(o.changelog.source, ulid_to_string(&[2u8; 16]));
}

#[test]
fn other_files_are_refused() {
    let mut d = package();
    d[0] = 0;
    assert_eq!(read_package(&d, "x.tkcl").err().as_deref(), Some("x.tkcl is not a TKMM mod package"));
    let mut d = package();
    d[4] = 0x1f;
    assert_eq!(
        read_package(&d, "x.tkcl").err().as_deref(),
        Some("x.tkcl was packaged by an unsupported TKMM version (format 0x1F)")
    );
    let d = package();
    assert_eq!(
        read_package(&d[..30], "x.tkcl").err().as_deref(),
        Some("truncated mod metadata at offset 28")
    );
}
