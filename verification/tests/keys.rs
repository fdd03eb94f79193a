use egui::Key;
use fuide::agent::keys::{parse_combo, parse_key, resolve_key, Mods};

fn key(combo: &str) -> Key {
    let (k, _) = parse_combo(combo, false).unwrap();
    Key::from_name(&k).unwrap()
}

#[test]
fn combos_parse() {
    let (k, m) = parse_combo("cmd+3", false).unwrap();
    assert_eq!(Key::from_name(&k), Some(Key::Num3));
    assert!(m.command);
    let (k, m) = parse_combo("Shift+Tab", false).unwrap();
    assert_eq!(Key::from_name(&k), Some(Key::Tab));
    assert!(m.shift && !m.command);
    assert_eq!(key("enter"), Key::Enter);
    assert_eq!(key("down"), Key::ArrowDown);
    assert_eq!(key("ArrowDown"), Key::ArrowDown);
    assert_eq!(key("f"), Key::F);
    assert_eq!(key("cmd+backspace"), Key::Backspace);
    assert!(parse_combo("hyper+x", false).is_err());
    assert!(parse_combo("cmd+", false).is_err());
    assert!(parse_combo("", false).is_err());
}

#[test]
fn combo_errors_name_the_culprit() {
    assert_eq!(parse_combo("", false), Err("empty key".to_string()));
    assert_eq!(parse_combo(" + ", false), Err("empty key".to_string()));
    assert_eq!(
        parse_combo("hyper+x", false),
        Err("unknown modifier `hyper`".to_string())
    );
    assert_eq!(parse_combo("cmd+", false), Err("unknown key `cmd`".to_string()));
    assert_eq!(parse_key("blorp"), Err("unknown key `blorp`".to_string()));
}

#[test]
fn cmd_and_ctrl_follow_the_platform() {
    let none = Mods { alt: false, ctrl: false, shift: false, mac_cmd: false, command: false };
    let (_, m) = parse_combo("cmd+f", true).unwrap();
    assert_eq!(m, Mods { command: true, mac_cmd: true, ..none });
    let (_, m) = parse_combo("cmd+f", false).unwrap();
    assert_eq!(m, Mods { command: true, ..none });
    let (_, m) = parse_combo("ctrl+f", false).unwrap();
    assert_eq!(m, Mods { ctrl: true, command: true, ..none });
    let (_, m) = parse_combo("ctrl+f", true).unwrap();
    assert_eq!(m, Mods { ctrl: true, ..none });
    let (_, m) = parse_combo("Option+Shift+z", true).unwrap();
    assert_eq!(m, Mods { alt: true, shift: true, ..none });
}

#[test]
fn aliases_and_egui_names() {
    assert_eq!(parse_key("esc"), Ok("Escape".to_string()));
    assert_eq!(parse_key("PgDn"), Ok("PageDown".to_string()));
    assert_eq!(parse_key(","), Ok("Comma".to_string()));
    assert_eq!(parse_key("Escape"), Ok(Key::Escape.name().to_string()));
    // egui's variant name, any ASCII case
    assert_eq!(parse_key("arrowleft"), Ok(Key::ArrowLeft.name().to_string()));
    assert_eq!(parse_key("num7"), Ok(Key::Num7.name().to_string()));
}

#[test]
fn modifier_order_does_not_matter() {
    for mac in [false, true] {
        assert_eq!(parse_combo("shift+cmd+x", mac), parse_combo("cmd+shift+x", mac));
        assert_eq!(parse_combo("ctrl+cmd+x", mac), parse_combo("cmd+ctrl+x", mac));
        assert_eq!(parse_combo("alt+ctrl+x", mac), parse_combo("ctrl+alt+x", mac));
    }
}

#[test]
fn resolving_uses_aliases_then_egui_then_the_key_list() {
    let entries = vec![
        ("Up".to_string(), "ArrowUp".to_string()),
        ("F1".to_string(), "F1".to_string()),
    ];
    assert_eq!(resolve_key("esc", Some("Nope".into()), &entries), Ok("Escape".to_string()));
    assert_eq!(resolve_key("zz", Some("Z".into()), &entries), Ok("Z".to_string()));
    assert_eq!(resolve_key("arrowup", None, &entries), Ok("Up".to_string()));
    assert_eq!(resolve_key("f1", None, &entries), Ok("F1".to_string()));
    assert_eq!(resolve_key("f2", None, &entries), Err("unknown key `f2`".to_string()));
}
