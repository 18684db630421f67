use lib::conflicts::{collisions, parse_tsv, to_tsv, Conflict, ConflictKind, ModRef};

#[test]
fn tsv_round_trip() {
    let conflicts = vec![
        Conflict {
            kind: ConflictKind::File,
            file: "Model/Foo.bfres".into(),
            mods: vec![
                ModRef { folder: "B".into(), name: "Mod | B".into() },
                ModRef { folder: "A".into(), name: "Mod A".into() },
            ],
            count: 1,
            samples: vec![],
        },
        Conflict {
            kind: ConflictKind::Values,
            file: "Mals/EUfr/Npc.msbt".into(),
            mods: vec![ModRef { folder: "C".into(), name: "C".into() }, ModRef { folder: "A".into(), name: "A".into() }],
            count: 4,
            samples: vec!["Talk_01".into(), "Talk_02".into()],
        },
    ];
    let parsed = parse_tsv(&to_tsv(&conflicts));
    assert_eq!(parsed.len(), 2);
    assert_eq!(parsed[0].mods[0].name, "Mod   B");
    assert_eq!(parsed[1], conflicts[1]);
}

#[test]
fn tsv_lines_have_six_fields() {
    let conflicts = vec![Conflict {
        kind: ConflictKind::Values,
        file: "a\tb".into(),
        mods: vec![ModRef { folder: "X".into(), name: "Y\nZ".into() }],
        count: 12,
        samples: vec!["s1".into(), "s|2".into()],
    }];
    assert_eq!(to_tsv(&conflicts), "values\ta b\t12\tX\tY Z\ts1|s 2\n");
    assert_eq!(ConflictKind::File.as_str(), "file");
    assert_eq!(ConflictKind::Values.as_str(), "values");
}

#[test]
fn odd_lines_are_skipped_or_defaulted() {
    let parsed = parse_tsv("junk\nfile\tF\tmany\tA|B\tNameA\t\r\nother\t1\t2\t3\t4\t5\n");
    assert_eq!(parsed.len(), 1);
    assert_eq!(parsed[0].kind, ConflictKind::File);
    assert_eq!(parsed[0].count, 1);
    assert_eq!(
        parsed[0].mods,
        vec![
            ModRef { folder: "A".into(), name: "NameA".into() },
            ModRef { folder: "B".into(), name: "B".into() },
        ]
    );
    assert!(parsed[0].samples.is_empty());
}

fn leaves(values: &[(&str, u64)]) -> Vec<(String, u64)> {
    values.iter().map(|(p, h)| (p.to_string(), *h)).collect()
}

#[test]
fn different_values_and_replaced_nodes_collide() {
    let sets = vec![
        (0, leaves(&[("A", 1), ("B/x", 5)])),
        (1, leaves(&[("A", 2)])),
        (2, leaves(&[("B", 9)])),
    ];
    let (mods, count, samples) = collisions(&sets).unwrap();
    assert_eq!(mods, vec![0, 1, 2]);
    assert_eq!(count, 2);
    assert_eq!(samples, vec!["A".to_string(), "B".to_string()]);
}

#[test]
fn equal_values_and_additions_do_not_collide() {
    let sets = vec![
        (0, leaves(&[("A", 1), ("C", 3)])),
        (1, leaves(&[("A", 1), ("D", 4)])),
        (2, leaves(&[("B", 2), ("Bx/y", 7)])),
    ];
    assert!(collisions(&sets).is_none());
}

#[test]
fn at_most_three_samples_are_named() {
    let sets = vec![
        (0, leaves(&[("d", 1), ("c", 1), ("b", 1), ("a", 1)])),
        (5, leaves(&[("a", 2), ("b", 2), ("c", 2), ("d", 2)])),
    ];
    let (mods, count, samples) = collisions(&sets).unwrap();
    assert_eq!(mods, vec![0, 5]);
    assert_eq!(count, 4);
    assert_eq!(samples, vec!["a".to_string(), "b".to_string(), "c".to_string()]);
}
