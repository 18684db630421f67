use lib::packs::{is_unsized_resource, pack_groups};

fn strings(v: &[&str]) -> Vec<String> {
    v.iter().map(|s| s.to_string()).collect()
}

#[test]
fn files_gather_by_pack_in_the_order_packs_come_up() {
    let archives = strings(&["Pack/B.pack", "Pack/A.pack", "Pack/B.pack", "Pack/C.pack", "Pack/A.pack"]);
    assert_eq!(
        pack_groups(&archives),
        vec![
            ("Pack/B.pack".to_string(), vec![0, 2]),
            ("Pack/A.pack".to_string(), vec![1, 4]),
            ("Pack/C.pack".to_string(), vec![3]),
        ]
    );
    assert!(pack_groups(&Vec::new()).is_empty());
}

#[test]
fn sound_video_size_tables_and_the_dictionary_go_unsized() {
    assert!(is_unsized_resource("Pack/ZsDic.pack", ".pack"));
    assert!(is_unsized_resource("Sound/a.bwav", ".bwav"));
    assert!(is_unsized_resource("Movie/a.webm", ".webm"));
    assert!(is_unsized_resource("System/Resource/ResourceSizeTable.Product.rsizetable", ".rsizetable"));
    assert!(!is_unsized_resource("Pack/Actor/Foo.pack", ".pack"));
}
