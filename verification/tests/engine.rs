use lib::config::{Config, Locales};
use lib::engine::{
    cache_choices, game_suffix, is_plan_merged, locales_record, merge_stamp, plan_fingerprint,
    run_step, text_locale, Engine, Outcome, RunAction, RunEnd, RunEvent, RunState,
};
use lib::merge_cache::{CachedMerge, Served};
use lib::mods::{ModKind, ModSpec, Plan};
use lib::options::OptionMap;

fn mix(h: &mut u64, bytes: &[u8]) {
    for b in bytes {
        *h = (*h ^ *b as u64).wrapping_mul(0x100000001b3);
    }
    *h = (*h ^ 0xff).wrapping_mul(0x100000001b3);
}

fn plan_with(specs: Vec<ModSpec>) -> Plan {
    Plan { mods: specs, merged_dir: "sd:/totk/merged".to_string(), profile: "Défaut".to_string() }
}

fn spec(name: &str, priority: i32) -> ModSpec {
    let mut s = ModSpec::default();
    s.name = name.to_string();
    s.priority = priority;
    s.path = format!("sd:/totk/mods/{}/inner", name);
    s
}

fn merge(id: &str, stamp: &str, plan: &str, locales: &str) -> CachedMerge {
    CachedMerge {
        id: id.to_string(),
        stamp: stamp.to_string(),
        plan: plan.to_string(),
        locales: locales.to_string(),
        profile: "p".to_string(),
    }
}

#[test]
fn plan_fingerprints_cover_mods_and_settings() {
    let mut config = Config::default();
    config.shop_param_limit = 5;
    let mut a = spec("A", 2);
    let mut options = OptionMap::new();
    options.insert("G \"q\"".to_string(), vec!["x".to_string(), "y".to_string()]);
    a.options = options;
    a.kind = ModKind::Package;
    let plan = plan_with(vec![a]);
    let contents = vec!["c1".to_string()];

    let mut h: u64 = 0xcbf29ce484222325;
    mix(&mut h, b"builder 1");
    mix(&mut h, &5u32.to_le_bytes());
    mix(&mut h, b"A");
    mix(&mut h, &2i32.to_le_bytes());
    mix(&mut h, b"Package {\"G \\\"q\\\"\": [\"x\", \"y\"]}");
    mix(&mut h, b"c1");
    let expected = format!("{:016x}-1", h);
    assert_eq!(plan_fingerprint(&config, &plan, &contents), expected);

    let other = vec!["c2".to_string()];
    assert_ne!(plan_fingerprint(&config, &plan, &other), expected);
    assert!(plan_fingerprint(&config, &plan_with(vec![]), &vec![]).ends_with("-0"));
}

#[test]
fn merged_plans_are_found_in_the_cache() {
    let config = Config::default();
    let plan = plan_with(vec![spec("A", 1)]);
    let contents = vec!["c".to_string()];
    let stamp = plan_fingerprint(&config, &plan, &contents);
    assert!(is_plan_merged(&config, &plan_with(vec![]), &vec![], None, &vec![]));
    assert!(!is_plan_merged(&config, &plan, &contents, None, &vec![]));
    let entries = vec![merge("1", "s", &stamp, "EUfr"), merge("2", "s", &stamp, "all")];
    assert!(is_plan_merged(&config, &plan, &contents, None, &entries));
    let entries = vec![merge("1", "s", &stamp, "EUfr")];
    assert!(!is_plan_merged(&config, &plan, &contents, None, &entries));
}

#[test]
fn locales_are_recorded() {
    let locales = vec!["EUfr".to_string(), "USen".to_string()];
    assert_eq!(locales_record(&Locales::All, &locales, 5), "all");
    assert_eq!(locales_record(&Locales::Only(locales.clone()), &locales, 2), "all");
    assert_eq!(locales_record(&Locales::Only(locales.clone()), &locales, 5), "EUfr,USen");
}

#[test]
fn stamps_end_with_the_game() {
    assert_eq!(game_suffix(121, "abc"), "-121-abc");
    assert_eq!(merge_stamp("0123-2", 121, "abc"), "0123-2-121-abc");
}

#[test]
fn earlier_merges_are_chosen_in_order() {
    let mut config = Config::default();
    config.merge_at_boot = false;
    let locales = vec!["EUfr".to_string()];
    let merges = vec![
        merge("a", "other-121-x", "", "all"),
        merge("b", "plan-121-x", "", "USen"),
        merge("c", "plan-121-x", "", "EUfr,USen"),
    ];
    assert_eq!(cache_choices(&config, &merges, "plan-121-x", &locales, "-121-x"), (Some(2), Some(0)));
    assert_eq!(cache_choices(&config, &merges, "plan-121-x", &locales, "-110-x"), (Some(2), None));
    config.merge_at_boot = true;
    assert_eq!(cache_choices(&config, &merges, "new-121-x", &locales, "-121-x"), (None, None));
    config.force_merge = true;
    assert_eq!(cache_choices(&config, &merges, "plan-121-x", &locales, "-121-x"), (None, None));
}

#[test]
fn texts_are_compared_in_the_console_language() {
    let locales = vec!["EUfr".to_string(), "USen".to_string()];
    assert_eq!(text_locale(Some("USen"), &locales).as_deref(), Some("USen"));
    assert_eq!(text_locale(Some("JPja"), &locales).as_deref(), Some("EUfr"));
    assert_eq!(text_locale(None, &vec![]), None);
}

#[test]
fn mods_are_named_by_their_folder() {
    let mut config = Config::default();
    config.mods_dir = "sd:/totk/mods//".to_string();
    let engine = Engine::new(&config, "content:/");
    assert_eq!(engine.rom_prefix(), "content:/");
    assert_eq!(engine.folder_of(&spec("A", 0)), "A");
    let mut elsewhere = spec("RomFSlite", 0);
    elsewhere.path = "sd:/atmosphere/contents/romfs".to_string();
    assert_eq!(engine.folder_of(&elsewhere), "RomFSlite");
}

#[test]
fn outcomes_say_what_happened() {
    let o = Outcome::failure("could not read the game's files".to_string());
    assert!(o.failed && o.redirects.is_empty());
    let o = Outcome::cancelled(3);
    assert_eq!((o.cancelled, o.conflicts, o.error.as_deref()), (true, 3, Some("cancelled")));
    let mut served = Served::new();
    served.redirects.insert("A".to_string(), "B".to_string());
    served.patches.push((1, 2));
    let o = Outcome::served(served, true);
    assert!(o.reused && o.from_cache && !o.failed);
    assert_eq!(o.patches, vec![(1, 2)]);
    assert_eq!(o.redirects.get("A").map(|s| s.as_str()), Some("B"));
}

fn step(state: RunState, event: RunEvent) -> (RunState, RunAction) {
    run_step(state, event)
}

#[test]
fn runs_without_mods_serve_nothing() {
    let (state, action) = step(RunState::Idle, RunEvent::Start { mods: 0 });
    assert_eq!(state, RunState::Done);
    assert!(matches!(action, RunAction::Finish(RunEnd::NothingToMerge)));
}

#[test]
fn runs_serve_the_exact_merge_then_fall_back_then_merge() {
    let (state, action) = step(RunState::Idle, RunEvent::Start { mods: 2 });
    assert_eq!(state, RunState::OpeningRom);
    assert!(matches!(action, RunAction::OpenRom));
    let (state, action) = step(state, RunEvent::RomOpened { error: None });
    assert!(matches!(action, RunAction::ChooseFromCache));
    let (state, action) = step(state, RunEvent::Chosen { exact: Some(2), fallback: Some(0) });
    assert_eq!(state, RunState::ServingExact { fallback: Some(0) });
    assert!(matches!(action, RunAction::Serve { position: 2, moved: true }));
    // The exact merge could not be served: the fallback is.
    let (state, action) = step(state, RunEvent::Served { ok: false });
    assert_eq!(state, RunState::ServingFallback);
    assert!(matches!(action, RunAction::Serve { position: 0, moved: false }));
    let (done, action) = step(state, RunEvent::Served { ok: true });
    assert_eq!(done, RunState::Done);
    assert!(matches!(action, RunAction::Finish(RunEnd::ServedFallback)));
    // Neither could be: the mods are merged.
    let (state, action) = step(state, RunEvent::Served { ok: false });
    assert!(matches!(action, RunAction::LoadMods));
    let (state, action) = step(state, RunEvent::Loaded);
    assert!(matches!(action, RunAction::FindConflicts));
    let (state, action) = step(state, RunEvent::ConflictsFound { count: 3, go_ahead: true });
    assert_eq!(state, RunState::Beginning { conflicts: 3 });
    assert!(matches!(action, RunAction::BeginMerge));
    let (state, action) = step(state, RunEvent::Begun { error: None });
    assert!(matches!(action, RunAction::Merge));
    let (state, action) = step(state, RunEvent::Merged);
    assert_eq!(state, RunState::Done);
    assert!(matches!(action, RunAction::Finish(RunEnd::Merged(3))));
}

#[test]
fn runs_end_on_errors_and_cancels() {
    let (_, action) = step(RunState::OpeningRom, RunEvent::RomOpened { error: Some("gone".to_string()) });
    match action {
        RunAction::Finish(RunEnd::Failed(e)) => assert_eq!(e, "could not read the game's files: gone"),
        _ => panic!("expected a failure"),
    }
    let (_, action) = step(RunState::Beginning { conflicts: 0 }, RunEvent::Begun { error: Some("full".to_string()) });
    match action {
        RunAction::Finish(RunEnd::Failed(e)) => assert_eq!(e, "could not create the merge folder: full"),
        _ => panic!("expected a failure"),
    }
    let (state, action) = step(RunState::Checking, RunEvent::ConflictsFound { count: 2, go_ahead: false });
    assert_eq!(state, RunState::Done);
    assert!(matches!(action, RunAction::Finish(RunEnd::Cancelled(2))));
    // The exact merge served as it is; no merge to fall back to merges.
    let (_, action) = step(RunState::ServingExact { fallback: None }, RunEvent::Served { ok: true });
    assert!(matches!(action, RunAction::Finish(RunEnd::ServedExact)));
    let (_, action) = step(RunState::Choosing, RunEvent::Chosen { exact: None, fallback: None });
    assert!(matches!(action, RunAction::LoadMods));
    // An event out of place changes nothing.
    let (state, action) = step(RunState::Loading, RunEvent::Merged);
    assert_eq!(state, RunState::Loading);
    assert!(matches!(action, RunAction::Wait));
}

#[test]
fn recorded_merges_are_served_by_later_runs() {
    // The first run recorded its merge; a later run of the same plan finds it
    // in the cache and serves it without merging.
    let config = Config::default();
    let locales = vec!["EUfr".to_string(), "USen".to_string()];
    let record = locales_record(&Locales::Only(locales.clone()), &locales, 5);
    let stamp = "plan-121-abc";
    let merges = vec![merge("other", "x-121-abc", "x", "all"), merge("mine", stamp, "plan", &record)];
    let (exact, fallback) = cache_choices(&config, &merges, stamp, &locales, "-121-abc");
    assert_eq!(exact, Some(1));
    let (s, a) = step(RunState::Idle, RunEvent::Start { mods: 2 });
    assert!(matches!(a, RunAction::OpenRom));
    let (s, a) = step(s, RunEvent::RomOpened { error: None });
    assert!(matches!(a, RunAction::ChooseFromCache));
    let (s, a) = step(s, RunEvent::Chosen { exact, fallback });
    assert!(matches!(a, RunAction::Serve { position: 1, moved: true }));
    let (s, a) = step(s, RunEvent::Served { ok: true });
    assert!(matches!(a, RunAction::Finish(RunEnd::ServedExact)));
    assert!(matches!(s, RunState::Done));
}
