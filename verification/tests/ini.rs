use lib::ini::{escape, parse, set_value, unescape};

#[test]
fn keeps_repeated_sections_in_order() {
    let sections = parse("a = 1\n[mod]\nfolder = x\n[mod]\nfolder = y\n# c\n[Options]\nGroup = A; B\n");
    assert_eq!(sections.len(), 4);
    assert_eq!(sections[0].get("A"), Some("1"));
    assert_eq!(sections[1].get("folder"), Some("x"));
    assert_eq!(sections[2].get("folder"), Some("y"));
    assert_eq!(sections[3].name, "options");
    assert_eq!(sections[3].entries[0].0, "Group");
}

#[test]
fn escapes_round_trip() {
    let text = "line one\nline two with \\ and C:\\path";
    assert_eq!(unescape(&escape(text)), text);
    assert_eq!(unescape("C:\\Users"), "C:\\Users");
}

#[test]
fn sets_values_in_place() {
    let original = "# settings\nenabled = 1\nprofile = Old\n\n[extra]\nprofile = untouched\n";
    let updated = set_value(original, "profile", "Nouveau");
    assert_eq!(updated, "# settings\nenabled = 1\nprofile = Nouveau\n\n[extra]\nprofile = untouched\n");
    let added = set_value("enabled = 1\n[extra]\nx = 1\n", "profile", "P");
    assert_eq!(added, "enabled = 1\nprofile = P\n\n[extra]\nx = 1\n");
    assert_eq!(set_value("", "profile", "P"), "profile = P\n");
}

#[test]
fn crlf_line_breaks_come_back_as_lf() {
    assert_eq!(unescape(&escape("a\r\nb")), "a\nb");
    assert_eq!(escape("a\\b\nc"), "a\\\\b\\nc");
}

#[test]
fn reads_booleans_and_byte_order_marks() {
    let sections = parse("\u{feff}flag = Yes\nother = off\nbad = maybe\n[ Sec ]\n");
    assert!(sections[0].get_bool("FLAG", false));
    assert!(!sections[0].get_bool("other", true));
    assert!(sections[0].get_bool("bad", true));
    assert!(!sections[0].get_bool("missing", false));
    assert_eq!(sections[1].name, "sec");
    assert_eq!(lib::ini::parse_bool(" TRUE ", false), true);
}
