use lib::config::{detected_locale, locale_of_message_archive, parse_options, Config, Locales};

#[test]
fn reads_settings() {
    let config = Config::parse("profile = Défaut\nmerge_at_boot = 0\nLOCALES = EUfr\n[other]\nprofile = x\n");
    assert_eq!(config.profile, "Défaut");
    assert!(!config.merge_at_boot);
    assert_eq!(config.locales, "EUfr");
}

#[test]
fn resolves_locales() {
    let available = vec!["EUfr".to_string(), "USen".to_string()];
    let mut config = Config::default();
    config.locales = "all".into();
    assert_eq!(config.locale_list(&available, None), available);
    config.locales = "USen, JPja".into();
    assert_eq!(config.locale_list(&available, None), vec!["USen".to_string()]);
    config.locales = "KRko".into();
    assert_eq!(config.locale_list(&available, None), available);
}

#[test]
fn recognizes_message_archives() {
    assert_eq!(locale_of_message_archive("content:/Mals/EUfr.Product.121.sarc.zs").as_deref(), Some("EUfr"));
    assert_eq!(locale_of_message_archive("Mals/USen.Product.110.sarc.zs").as_deref(), Some("USen"));
    assert_eq!(locale_of_message_archive("content:/Pack/Actor/Mals.pack.zs"), None);
    assert_eq!(locale_of_message_archive("content:/Mals/EUfr.Product.121.sarc"), None);
}

#[test]
fn reads_option_selections() {
    let entries = vec![
        ("option.Weapon Pack".to_string(), "Swords; Bows".to_string()),
        ("folder".to_string(), "x".to_string()),
        ("Option.Color".to_string(), "Red".to_string()),
    ];
    let options = parse_options(&entries, "option.");
    assert_eq!(options.get("Weapon Pack").unwrap(), &vec!["Swords".to_string(), "Bows".to_string()]);
    assert_eq!(options.get("Color").unwrap(), &vec!["Red".to_string()]);
    assert_eq!(options.len(), 2);
}

#[test]
fn auto_locales_follow_the_game() {
    let config = Config::default();
    assert_eq!(config.locales(Some("EUfr")), Locales::Only(vec!["EUfr".to_string()]));
    assert_eq!(config.locales(None), Locales::All);
    assert_eq!(detected_locale(" USen\n").as_deref(), Some("USen"));
    assert_eq!(detected_locale("US-n"), None);
    assert_eq!(config.mod_path("Foo"), "sd:/totk/mods/Foo");
}

#[test]
fn numbers_and_defaults() {
    let config = Config::parse("merge_cache_size = 500\nshop_param_limit = 99\ncontrol_timeout_ms = x\nenabled = no\n");
    assert_eq!(config.merge_cache_size, 100);
    assert_eq!(config.shop_param_limit, 99);
    assert_eq!(config.control_timeout_ms, 60_000);
    assert!(!config.enabled);
    assert_eq!(Config::parse("merge_cache_size = 0").merge_cache_size, 1);
    assert_eq!(Config::parse("").mods_dir, "sd:/totk/mods");
}
