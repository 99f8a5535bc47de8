use devlaunch::hotkey::{parse, parse_code, Code, Modifiers, Shortcut};

#[test]
fn parse_accepts_canonical_combo() {
    let got = parse("Ctrl+Alt+D").unwrap();
    let want = Shortcut::new(Some(Modifiers::control().union(Modifiers::alt())), Code::Key('D'));
    assert_eq!(got, want);
}

#[test]
fn parse_is_case_insensitive() {
    assert_eq!(parse("ctrl+alt+d").unwrap(), parse("Ctrl+Alt+D").unwrap());
    assert_eq!(parse("CTRL+SHIFT+space").unwrap(), parse("Ctrl+Shift+Space").unwrap());
}

#[test]
fn parse_supports_fkeys_and_digits() {
    assert_eq!(
        parse("Ctrl+Alt+F12").unwrap(),
        Shortcut::new(Some(Modifiers::control().union(Modifiers::alt())), Code::F(12))
    );
    assert_eq!(
        parse("Win+Shift+1").unwrap(),
        Shortcut::new(Some(Modifiers::super_key().union(Modifiers::shift())), Code::Digit(1))
    );
}

#[test]
fn parse_rejects_without_modifier() {
    assert!(parse("D").unwrap_err().contains("修饰键"));
    assert!(parse("F5").is_err());
}

#[test]
fn parse_rejects_unknown_key_and_modifier() {
    assert!(parse("Ctrl+Alt+F13").is_err());
    assert!(parse("Ctrl+Alt+Enter").is_err());
    assert!(parse("Foo+D").unwrap_err().contains("修饰键"));
}

#[test]
fn parse_rejects_duplicate_modifier_and_empty() {
    assert!(parse("Ctrl+Ctrl+D").unwrap_err().contains("重复"));
    assert!(parse("   ").unwrap_err().contains("不能为空"));
}

#[test]
fn parse_code_covers_each_key_family() {
    assert_eq!(parse_code("q").unwrap(), Code::Key('Q'));
    assert_eq!(parse_code("0").unwrap(), Code::Digit(0));
    assert_eq!(parse_code("f1").unwrap(), Code::F(1));
    assert_eq!(parse_code("F10").unwrap(), Code::F(10));
    assert_eq!(parse_code("Space").unwrap(), Code::Space);
    assert_eq!(
        parse_code("f0").unwrap_err(),
        "不支持的按键：F0（支持 A-Z、0-9、F1-F12、Space）"
    );
    assert!(parse_code("F01").is_err());
}

#[test]
fn parse_trims_parts_and_names_the_bad_modifier_lowercased() {
    let got = parse("  Shift + Meta + x ").unwrap();
    assert_eq!(got.mods, Modifiers::shift().union(Modifiers::super_key()));
    assert_eq!(got.key, Code::Key('X'));
    assert_eq!(parse("Hyper+D").unwrap_err(), "不支持的修饰键：hyper");
    assert_eq!(parse("Ctrl+control+D").unwrap_err(), "修饰键重复：control");
    assert_eq!(parse("Ctrl+").unwrap_err(), "快捷键至少需要一个修饰键加一个按键：Ctrl+");
}
