use lib::byml_changelog::{default_provider, unnamed_array_builder, TrackingInfo};
use lib::byml_keys::ArrayBuilder;
use lib::byml_merge::{MapKeyName, Segment};
use lib::conflicts::{log_lines, Conflict, ConflictKind, ModRef};
use lib::progress::asks_about_conflicts;
use lib::Stage;

fn conflict(kind: ConflictKind, file: &str, count: usize, samples: &[&str]) -> Conflict {
    Conflict {
        kind,
        file: file.to_string(),
        mods: vec![
            ModRef { folder: "b".to_string(), name: "B".to_string() },
            ModRef { folder: "a".to_string(), name: "A".to_string() },
        ],
        count,
        samples: samples.iter().map(|s| s.to_string()).collect(),
    }
}

#[test]
fn conflicts_are_logged() {
    assert!(log_lines(&vec![]).is_empty());
    let lines = log_lines(&vec![
        conflict(ConflictKind::File, "Model/Foo.bfres", 1, &[]),
        conflict(ConflictKind::Values, "Mals/EUfr/Npc.msbt", 4, &["Talk_01", "Talk_02"]),
        conflict(ConflictKind::Values, "RSDB/Tag.rstbl.byml", 1, &["Life"]),
    ]);
    assert_eq!(
        lines,
        vec![
            "3 conflict(s) between mods (the mod named first wins, the merge goes ahead):".to_string(),
            "  Model/Foo.bfres: replaced by B > A".to_string(),
            "  Mals/EUfr/Npc.msbt: 4 value(s) set by B > A (Talk_01, Talk_02, ...)".to_string(),
            "  RSDB/Tag.rstbl.byml: 1 value(s) set by B > A (Life)".to_string(),
        ]
    );
    let many: Vec<Conflict> = (0..45).map(|i| conflict(ConflictKind::File, &format!("F{}", i), 1, &[])).collect();
    let lines = log_lines(&many);
    assert_eq!(lines.len(), 42);
    assert_eq!(lines[41], "  ... and 5 more");
}

#[test]
fn stages_have_numbers() {
    assert_eq!(Stage::Reading.code(), 0);
    assert_eq!(Stage::Conflicts.code(), 3);
    assert_eq!(Stage::from_code(2), Some(Stage::Writing));
    assert_eq!(Stage::from_code(4), None);
    assert!(asks_about_conflicts(true, 2));
    assert!(!asks_about_conflicts(true, 0));
    assert!(!asks_about_conflicts(false, 2));
}

#[test]
fn tracking_starts_at_the_document_type() {
    let info = TrackingInfo::for_canonical("Component/Foo/Bar.game__component__ConditionParam.bgyml");
    assert_eq!(info.bgyml_type, "game__component__ConditionParam");
    assert_eq!(info.depth, 0);
    assert!(matches!(default_provider(&info, "Unknown"), ArrayBuilder::DirectIndex));
    let eco = TrackingInfo { bgyml_type: "ecocat".to_string(), depth: 0 };
    match unnamed_array_builder(&eco) {
        ArrayBuilder::Keyed(k) => assert_eq!((k.primary, k.secondary), ("AreaNumber", None)),
        _ => panic!("ecocat tables are keyed"),
    }
    let deeper = TrackingInfo { bgyml_type: "ecocat".to_string(), depth: 1 };
    assert!(matches!(unnamed_array_builder(&deeper), ArrayBuilder::Default));
}

#[test]
fn only_string_keys_name_arrays() {
    assert_eq!("Actors".to_string().array_name(), Some("Actors"));
    assert_eq!(5u32.array_name(), None);
    assert_eq!(5u64.array_name(), None);
    let mut path = vec![Segment::Index(2), Segment::Key("Data".to_string()), Segment::Hash32(7)];
    path.sort();
    assert_eq!(path[0], Segment::Key("Data".to_string()));
}
