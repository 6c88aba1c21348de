use quotis::settings::{enabled, resolve, tools_to_repoll, trim_str, Folder, Settings};
use quotis::usage::Tool;

#[test]
fn settings_fill_missing_fields_and_resolve_paths() {
    // what `{"codex":{"enabled":false},"gemini":{"dir":"~/g"}}` holds over the defaults
    let mut s = Settings::default();
    s.codex.enabled = false;
    s.gemini.dir = "~/g".to_string();
    assert!(s.claude.enabled && !s.codex.enabled && s.gemini.enabled && s.opencode.enabled && s.cursor.enabled);
    assert_eq!(s.claude_refresh_min, 5);
    match resolve(&s.gemini.dir) {
        Folder::InHome(p) => assert_eq!(p, "g"),
        other => panic!("{:?}", other),
    }
    assert!(matches!(resolve(&s.qwen.dir), Folder::Default));
}

#[test]
fn folders() {
    match resolve("  ~\\/x/y \n") {
        Folder::InHome(p) => assert_eq!(p, "x/y"),
        other => panic!("{:?}", other),
    }
    match resolve("\u{3000}/opt/tool\t") {
        Folder::At(p) => assert_eq!(p, "/opt/tool"),
        other => panic!("{:?}", other),
    }
    match resolve("~") {
        Folder::InHome(p) => assert_eq!(p, ""),
        other => panic!("{:?}", other),
    }
    assert!(matches!(resolve(" \t "), Folder::Default));
    assert_eq!(trim_str("\u{85} a b \u{2009}"), "a b");
}

#[test]
fn defaults_and_normalize() {
    let mut s = Settings::default();
    assert_eq!((s.glass_opacity, s.always_on_top, s.show_used, s.blur), (55, true, false, true));
    s.claude_refresh_min = 0;
    s.glass_opacity = 250;
    s.normalize();
    assert_eq!((s.claude_refresh_min, s.glass_opacity), (1, 100));
    s.claude_refresh_min = 99;
    s.normalize();
    assert_eq!(s.claude_refresh_min, 60);
    s.normalize();
    assert_eq!((s.claude_refresh_min, s.glass_opacity), (60, 100));
}

#[test]
fn enabled_by_tool() {
    let mut s = Settings::default();
    s.qwen.enabled = false;
    assert!(enabled(&s, Tool::Claude));
    assert!(!enabled(&s, Tool::Qwen));
}

#[test]
fn repoll_after_settings_change() {
    let old = Settings::default();
    let mut new = Settings::default();
    assert!(tools_to_repoll(&old, &new).is_empty());
    new.cursor.dir = "/x".to_string();
    new.claude.enabled = false;
    assert_eq!(tools_to_repoll(&old, &new), vec![Tool::Cursor]);
    assert_eq!(tools_to_repoll(&new, &old), vec![Tool::Claude, Tool::Cursor]);
}
