use lib::builder::{builder_for, parse_ips, parse_pchtxt, zstd_dictionary_id, BuilderKind, DELETED_MARK};

#[test]
fn picks_builders_like_tkmm() {
    assert_eq!(builder_for("Pack/Actor/Foo.pack"), Some(BuilderKind::Pack));
    assert_eq!(builder_for("RSDB/ActorInfo.Product.rstbl.byml"), Some(BuilderKind::RsdbRow("__RowId")));
    assert_eq!(builder_for("RSDB/Unknown.Product.rstbl.byml"), None);
    assert_eq!(builder_for("GameData/GameDataList.Product.byml"), Some(BuilderKind::GameData));
    assert_eq!(builder_for("Banc/Foo.bcett.byml"), Some(BuilderKind::Byml));
    assert_eq!(builder_for("UI/Foo.blarc"), Some(BuilderKind::Sarc));
    assert_eq!(builder_for("Model/Foo.bfres"), None);
}

#[test]
fn more_builders() {
    assert_eq!(builder_for("RSDB/Tag.Product.rstbl.byml"), Some(BuilderKind::RsdbTag));
    assert_eq!(builder_for("Tex/Foo__Combined.bntx"), Some(BuilderKind::Bntx));
    assert_eq!(builder_for("Tex/Foo.bntx"), None);
    assert_eq!(builder_for("Mals/Foo.msbt"), Some(BuilderKind::Msbt));
    assert_eq!(builder_for("GameData/Other.byml"), None);
    assert!(BuilderKind::Pack.can_process_without_vanilla());
    assert!(!BuilderKind::Byml.can_process_without_vanilla());
    assert_eq!(&DELETED_MARK, b"TKSCRMVD");
}

#[test]
fn reads_ips32_patches() {
    let mut ips = b"IPS32".to_vec();
    ips.extend_from_slice(&0x0000_1100u32.to_be_bytes());
    ips.extend_from_slice(&4u16.to_be_bytes());
    ips.extend_from_slice(&0xD503_201Fu32.to_be_bytes());
    ips.extend_from_slice(b"EEOF");
    let patch = parse_ips(&ips, "abc").unwrap();
    assert_eq!(patch.entries, vec![(0x1000, 0xD503_201F)]);
}

#[test]
fn ips_records_sort_and_replace() {
    let mut ips = b"IPS32".to_vec();
    for (address, value) in [(0x300u32, 1u32), (0x200, 2), (0x300, 3)] {
        ips.extend_from_slice(&address.to_be_bytes());
        ips.extend_from_slice(&4u16.to_be_bytes());
        ips.extend_from_slice(&value.to_be_bytes());
    }
    ips.extend_from_slice(&0x400u32.to_be_bytes());
    ips.extend_from_slice(&2u16.to_be_bytes());
    ips.extend_from_slice(&[1, 2]);
    let patch = parse_ips(&ips, "x").unwrap();
    assert_eq!(patch.entries, vec![(0x100, 2), (0x200, 3)]);
    assert!(parse_ips(b"IPS", "x").is_none());
    assert_eq!(parse_ips(b"IPS32", "x").unwrap().entries, vec![]);
}

#[test]
fn reads_pchtxt_patches() {
    let text = "@nsobid-9B4E43650501A4D4489B4BBFDB740F26AF3CF850\n@enabled\n01acb308 E8FFBF52\n@stop\n00000000 00000000\n";
    let patch = parse_pchtxt(text).unwrap();
    assert_eq!(patch.nso_binary_id, "9B4E43650501A4D4489B4BBFDB740F26AF3CF850");
    assert_eq!(patch.entries, vec![(0x01acb308, 0xE8FFBF52)]);
}

#[test]
fn pchtxt_needs_its_header() {
    assert!(parse_pchtxt("").is_none());
    assert!(parse_pchtxt("@flag\n").is_none());
    let patch = parse_pchtxt("@nsobid abc\n@enabled\n@comment\n10 20\nzz 1\n10 30\n").unwrap();
    assert_eq!(patch.nso_binary_id, "abc");
    assert_eq!(patch.entries, vec![(0x10, 0x30)]);
}

#[test]
fn zstd_frames_name_their_dictionary() {
    assert_eq!(zstd_dictionary_id(&[0x28, 0xB5, 0x2F, 0xFD, 0x23, 0x78, 0x56, 0x34, 0x12]), 0x12345678);
    assert_eq!(zstd_dictionary_id(&[0x28, 0xB5, 0x2F, 0xFD, 0x01, 0x00, 0x07]), 7);
    assert_eq!(zstd_dictionary_id(&[0x28, 0xB5, 0x2F, 0xFD, 0x00, 0x00, 0x07]), -1);
    assert_eq!(zstd_dictionary_id(&[0x28, 0xB5, 0x2F, 0xFD, 0x23, 0xFF, 0xFF, 0xFF, 0xFF]), -1);
    assert_eq!(zstd_dictionary_id(&[1, 2, 3]), -1);
}
