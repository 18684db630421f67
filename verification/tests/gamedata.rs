use lib::gamedata::{
    drop_row, game_data_metadata, hash_order, row_of, CountField, MetaRow, RowBook, RowChange, RowStep, DEFAULT_SIZE,
};

#[test]
fn rows_take_the_entries_that_name_their_hash() {
    let mut book = RowBook::new();
    let mut rows = vec![Some(1u64), Some(2), None, Some(3)];
    let entries = vec![(2u64, RowChange::Edit(Some(2))), (3, RowChange::Remove), (5, RowChange::Edit(Some(5)))];
    let steps = book.walk_table("Int", false, &mut rows, &entries, 0);
    assert_eq!(steps, vec![RowStep::Merge(1, 0), RowStep::Append(2)]);
    assert_eq!(rows, vec![Some(1), Some(2), None, Some(3), Some(5)]);
    assert_eq!(book.dropped, vec![("Int".to_string(), 3)]);
    assert_eq!(book.added.len(), 1);
    assert_eq!(book.added[0].table, "Int");
    assert_eq!(book.added[0].hash, 5);
    assert!(!book.added[0].is_struct);

    // A later mod edits the dropped row, which keeps it, and the added row,
    // whose edit waits for the end.
    let entries = vec![(3u64, RowChange::Edit(Some(3))), (5, RowChange::Edit(Some(5)))];
    let steps = book.walk_table("Int", false, &mut rows, &entries, 1);
    assert_eq!(steps, vec![RowStep::Merge(3, 0)]);
    assert!(book.dropped.is_empty());
    assert_eq!(book.added[0].changes, vec![(1, 1)]);
    assert_eq!(rows.len(), 5);
}

#[test]
fn a_removed_row_is_dropped_once_and_removals_add_nothing() {
    let mut book = RowBook::new();
    let mut rows = vec![Some(7u64)];
    book.walk_table("Bool", false, &mut rows, &vec![(7, RowChange::Remove), (8, RowChange::Remove)], 0);
    book.walk_table("Bool", false, &mut rows, &vec![(7, RowChange::Remove)], 1);
    assert_eq!(book.dropped, vec![("Bool".to_string(), 7)]);
    assert_eq!(rows, vec![Some(7)]);
    assert!(book.added.is_empty());
}

#[test]
fn rows_added_to_the_struct_table_merge_as_structs() {
    let mut book = RowBook::new();
    let mut rows: Vec<Option<u64>> = Vec::new();
    let steps = book.walk_table("Struct", false, &mut rows, &vec![(9, RowChange::Edit(None))], 0);
    assert_eq!(steps, vec![RowStep::Append(0)]);
    assert!(book.added[0].is_struct);
    assert_eq!(rows, vec![None]);
    let mut wide_rows: Vec<Option<u64>> = Vec::new();
    book.walk_table("Struct", true, &mut wide_rows, &vec![(10, RowChange::Edit(Some(10)))], 1);
    assert!(!book.added[1].is_struct);
}

#[test]
fn dropped_rows_go_by_their_first_match() {
    let mut rows = vec![None, Some(4u64), Some(5), Some(4)];
    assert_eq!(row_of(&rows, 4), Some(1));
    assert_eq!(row_of(&rows, 6), None);
    assert_eq!(drop_row(&mut rows, 4), Some(1));
    assert_eq!(rows, vec![None, Some(5), Some(4)]);
    assert_eq!(drop_row(&mut rows, 9), None);
    assert_eq!(rows.len(), 3);
}

fn meta(save_file_index: i32) -> MetaRow {
    MetaRow { save_file_index: Some(save_file_index), count: CountField::Missing, binary_default: None }
}

fn dirs() -> Vec<Option<String>> {
    vec![Some("a".to_string()), Some(String::new())]
}

#[test]
fn flags_from_several_mods_merge_and_sizes_follow() {
    let mut book = RowBook::new();
    let mut rows = vec![Some(1u64), Some(3)];
    let a = vec![(1u64, RowChange::Edit(Some(1))), (2, RowChange::Edit(Some(2)))];
    let b = vec![(4u64, RowChange::Edit(Some(4)))];
    assert_eq!(book.walk_table("Int", false, &mut rows, &a, 0), vec![RowStep::Merge(0, 0), RowStep::Append(1)]);
    assert_eq!(book.walk_table("Int", false, &mut rows, &b, 1), vec![RowStep::Append(0)]);
    assert_eq!(rows.len(), 4);

    let tables = vec![("Int".to_string(), rows.iter().map(|_| meta(0)).collect::<Vec<_>>())];
    let m = game_data_metadata(&dirs(), &tables).unwrap();
    // 4 entries of 8 bytes each in save file 0, plus the header size.
    assert_eq!(m.sizes[0], 4 * 8 + DEFAULT_SIZE);
    assert_eq!(m.all_offset, DEFAULT_SIZE + 4 * 8);
    assert_eq!(m.offsets, vec![4 * 8 + DEFAULT_SIZE, 0, 0, 0, 0, 0, 0]);
    assert_eq!(m.all_size, DEFAULT_SIZE + 4 * 8);
}

#[test]
fn sizes_follow_each_type() {
    let bool_array = MetaRow { save_file_index: Some(1), count: CountField::Field(true, Some(20)), binary_default: None };
    let binary = MetaRow { save_file_index: Some(1), count: CountField::Missing, binary_default: Some(16) };
    let strings = MetaRow { save_file_index: Some(1), count: CountField::Values(3), binary_default: None };
    let tables = vec![
        ("BoolArray".to_string(), vec![bool_array]),
        ("Binary".to_string(), vec![binary]),
        ("String32Array".to_string(), vec![strings]),
        ("Bool64bitKey".to_string(), vec![meta(2), meta(2)]),
        ("NotATable".to_string(), vec![meta(3)]),
    ];
    let dirs = vec![Some("a".to_string()), Some("b".to_string()), Some("c".to_string())];
    let m = game_data_metadata(&dirs, &tables).unwrap();
    // Binary 8 + 4 + 16, BoolArray 12 + 4, String32Array 12 + 3 * 32, each with an offset.
    assert_eq!(m.sizes[1], 28 + 16 + 108 + DEFAULT_SIZE);
    assert_eq!(m.offsets[1], 3 * 8 + DEFAULT_SIZE);
    // The 64-bit table: one key, then 8 bytes a row, no offsets.
    assert_eq!(m.sizes[2], 8 + 8 + 8 + DEFAULT_SIZE);
    assert_eq!(m.offsets[2], 0);
    assert_eq!(m.all_size, DEFAULT_SIZE + 28 + 16 + 108 + 24);
    assert_eq!(m.all_offset, DEFAULT_SIZE + 3 * 8);
}

#[test]
fn rows_without_a_save_file_count_in_the_totals_only() {
    let tables = vec![("Int".to_string(), vec![meta(-1), meta(1)]), ("Bool64bitKey".to_string(), vec![meta(-1)])];
    let m = game_data_metadata(&dirs(), &tables).unwrap();
    assert_eq!(m.sizes, vec![0; 7]);
    assert_eq!(m.offsets, vec![0; 7]);
    assert_eq!(m.all_offset, DEFAULT_SIZE + 16);
    assert_eq!(m.all_size, DEFAULT_SIZE + 16);
}

#[test]
fn sizes_stop_at_what_they_cannot_count() {
    let err = |tables: Vec<(String, Vec<MetaRow>)>| game_data_metadata(&dirs(), &tables).err().unwrap();
    assert_eq!(err(vec![("Int".to_string(), vec![meta(7)])]), "save file index 7 out of range");
    assert_eq!(err(vec![("Int".to_string(), vec![meta(-2)])]), "save file index -2 out of range");
    assert_eq!(
        err(vec![("BoolArray".to_string(), vec![meta(0)])]),
        "the length of an array entry in 'BoolArray' could not be determined"
    );
    let bad = MetaRow { save_file_index: Some(0), count: CountField::Field(false, None), binary_default: None };
    assert_eq!(err(vec![("IntArray".to_string(), vec![bad])]), "'Size' in 'IntArray' is not a UInt32");
}

#[test]
fn rows_go_in_hash_order_keeping_ties_in_place() {
    assert_eq!(hash_order(&vec![5, 3, 5, 1]), vec![3, 1, 0, 2]);
    assert_eq!(hash_order(&vec![]), Vec::<usize>::new());
    assert_eq!(hash_order(&vec![2, 2, 2]), vec![0, 1, 2]);
}
