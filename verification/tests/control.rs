use lib::control::{
    api_mod_spec, plan_profile, ApiMod,
    add_mod, commit, finish, merged_dir_for, phase, release_control, select_option, served_files,
    set_local_mods_enabled, set_merged_dir, settled, start_merging, take_control, Control, Phase,
};

#[test]
fn one_owner_at_a_time() {
    let mut state = Control::new();
    let token = take_control(&mut state, "online", 0x1235, 1, 1000);
    assert_ne!(token, 0);
    assert_eq!(token % 2, 1);
    assert_eq!(token, (0x1235u64.rotate_left(17) ^ 0x9E37_79B9_7F4A_7C15u64.wrapping_mul(1)) | 1);
    assert_eq!(take_control(&mut state, "other", 0x5679, 2, 1000), 0);
    assert!(!commit(&mut state, token ^ 2));
    assert_eq!(add_mod(&mut state, token, "sd:/totk/online/pack.tkcl", Some("Pack")), 0);
    assert!(select_option(&mut state, token, 0, "Group", "Option"));
    assert!(!select_option(&mut state, token, 3, "Group", "Option"));
    assert!(commit(&mut state, token));
    assert!(settled(&state, 0, 60_000));
    start_merging(&mut state);
    assert_eq!(merged_dir_for(&state, "sd:/totk/merged"), "sd:/totk/merged-online");
    // Too late to change anything now.
    assert_eq!(add_mod(&mut state, token, "x", None), -1);

    finish(&mut state, Phase::Done, 3);
    assert_eq!(phase(&state), Phase::Done);
    assert_eq!(served_files(&state), 3);
}

#[test]
fn releasing_brings_the_sd_card_back() {
    let mut state = Control::new();
    assert!(settled(&state, 0, 1));
    let token = take_control(&mut state, "A b/c", 7, 1, 50);
    assert!(!state.local_mods);
    assert!(!settled(&state, 10, 60_000));
    assert!(settled(&state, 50, 60_000));
    assert!(settled(&state, 20, 20));
    assert!(set_local_mods_enabled(&mut state, token, true));
    assert_eq!(merged_dir_for(&state, "sd:/merged//"), "sd:/merged-A_b_c");
    assert!(set_merged_dir(&mut state, token, "sd:/mine"));
    assert_eq!(merged_dir_for(&state, "sd:/merged"), "sd:/mine");
    assert!(select_option(&mut state, token, -1, "G", "O") == false);
    assert!(release_control(&mut state, token));
    assert!(state.owner.is_none() && state.local_mods && state.merged_dir.is_none());
    assert!(!release_control(&mut state, token));
    assert_eq!(merged_dir_for(&state, "sd:/merged"), "sd:/merged");
    assert_eq!(Phase::Failed.code(), 3);
}

#[test]
fn selections_add_up() {
    let mut state = Control::new();
    let token = take_control(&mut state, "p", 9, 1, 10);
    add_mod(&mut state, token, "a", None);
    assert!(select_option(&mut state, token, 0, "G", "One"));
    assert!(select_option(&mut state, token, 0, "G", "Two"));
    assert_eq!(
        state.mods[0].options.get("G").unwrap(),
        &vec!["One".to_string(), "Two".to_string()]
    );
}

#[test]
fn api_mods_become_specs() {
    let mut options = lib::options::OptionMap::new();
    options.insert("Group".to_string(), vec!["Option".to_string()]);
    let named = ApiMod { path: "sd:/totk/online/pack.tkcl".to_string(), name: Some("Pack".to_string()), options };
    let spec = api_mod_spec(&named, 2, lib::mods::ModKind::Package, named.path.clone(), "pack.tkcl", vec!["p.nro".to_string()]);
    assert_eq!(spec.name, "Pack");
    assert_eq!(spec.priority, i32::MAX / 2 + 2);
    assert_eq!(spec.options.get("Group"), Some(&vec!["Option".to_string()]));
    assert_eq!(spec.plugins, vec!["p.nro".to_string()]);
    let unnamed = ApiMod { path: "sd:/x/Mod".to_string(), name: None, options: lib::options::OptionMap::new() };
    assert_eq!(api_mod_spec(&unnamed, 0, lib::mods::ModKind::Folder, "sd:/x/Mod".to_string(), "Mod", vec![]).name, "Mod");

    let mut state = Control::new();
    assert_eq!(plan_profile(&state, "Défaut"), "Défaut");
    take_control(&mut state, "online", 7, 1, 1000);
    assert_eq!(plan_profile(&state, "Défaut"), "online");
}

#[test]
fn tokens_are_odd() {
    for (seed, counter) in [(0u64, 0u64), (u64::MAX, 3), (1 << 47, 9), (0x8000_0000_0000_0000, u64::MAX)] {
        let mut state = Control::new();
        let token = take_control(&mut state, "p", seed, counter, 10);
        assert_eq!(token % 2, 1);
        assert_eq!(token, (seed.rotate_left(17) ^ 0x9E37_79B9_7F4A_7C15u64.wrapping_mul(counter)) | 1);
    }
}

#[test]
fn waiters_are_told_once_in_the_order_they_asked() {
    let mut state = Control::new();
    assert_eq!(lib::control::on_merged(&mut state, 0, 10), None);
    assert_eq!(lib::control::on_merged(&mut state, 1, 20), None);
    start_merging(&mut state);
    assert_eq!(lib::control::on_merged(&mut state, 2, 30), None);
    assert_eq!(finish(&mut state, Phase::Done, 5), vec![(0, 10), (1, 20), (2, 30)]);
    assert_eq!(served_files(&state), 5);
    // Over: a late asker is answered at once, and nobody is told twice.
    assert_eq!(lib::control::on_merged(&mut state, 3, 40), Some((Phase::Done, 5)));
    assert_eq!(finish(&mut state, Phase::Failed, 0), Vec::<(usize, usize)>::new());
}
