use fuide::settings::{config_dir, settings_file, Platform, Settings};
use fuide::theme::PaletteKind;

/// The layout height as the app reads it: a finite number, else unset.
fn height(s: &Settings) -> Option<f32> {
    s.log_height
        .as_deref()
        .and_then(|t| t.parse::<f32>().ok())
        .filter(|h| h.is_finite())
}

#[test]
fn round_trip() {
    let s = Settings {
        palette: PaletteKind::Amber,
        chamfer: true,
        compact: false,
        transparent: false,
        log_height: Some(format!("{}", 180.0f32)),
        log_open: false,
        agent: true,
        agent_confirm: false,
    };
    assert_eq!(Settings::parse(&s.to_string()), s);
    assert!(
        !Settings::default().to_string().contains("log_height"),
        "unset keys are omitted"
    );
    assert_eq!(height(&Settings::parse("log_height=abc")), None);
    assert!(
        Settings::parse("log_open=nonsense").log_open,
        "only `false` closes it"
    );
}

#[test]
fn parse_is_lenient() {
    let s = Settings::parse("# comment\npalette = green\nbogus=1\nchamfer=yes\n\ncompact=true");
    assert_eq!(s.palette, PaletteKind::Green);
    assert!(!s.chamfer); // only the literal `true` switches it on
    assert!(s.compact);
    assert_eq!(Settings::parse("palette=nope"), Settings::default());
}

#[test]
fn written_file_lists_every_key_in_order() {
    let s = Settings::new(PaletteKind::Green);
    assert_eq!(
        s.to_string(),
        "# FUIDE settings\npalette=green\nchamfer=false\ncompact=false\ntransparent=true\nlog_open=true\nagent=false\nagent_confirm=false\n"
    );
}

#[test]
fn empty_text_gives_the_defaults() {
    assert_eq!(Settings::parse(""), Settings::default());
    assert_eq!(Settings::default(), Settings::new(PaletteKind::Cyan));
}

#[test]
fn later_lines_win_and_values_are_trimmed() {
    let s = Settings::parse("agent = true\nagent=false\r\n  log_height =  240 \nagent_confirm=true");
    assert!(!s.agent);
    assert!(s.agent_confirm);
    assert_eq!(s.log_height.as_deref(), Some("240"));
    assert_eq!(height(&s), Some(240.0));
}

#[test]
fn palette_names_round_trip() {
    for k in PaletteKind::ALL {
        assert_eq!(PaletteKind::from_name(k.name()), Some(k));
    }
    assert_eq!(PaletteKind::Cyan.name(), "cyan");
    assert_eq!(PaletteKind::from_name("Cyan"), None);
    assert_eq!(PaletteKind::default(), PaletteKind::Cyan);
}

#[test]
fn window_opacity_is_read_and_written() {
    assert!(Settings::default().transparent, "translucent by default");
    let s = Settings::parse("transparent=false");
    assert!(!s.transparent, "OPAQUE is recorded");
    assert!(s.to_string().contains("\ntransparent=false\n"));
    assert_eq!(Settings::parse(&s.to_string()), s);
    assert!(Settings::parse("transparent=no").transparent, "only `false` makes it opaque");
}

#[test]
fn platform_path_ends_with_app_conf() {
    let dir = config_dir(None, Platform::Apple, Some("/Users/me"), None, None)
        .expect("HOME / APPDATA is set on dev machines");
    let p = settings_file(&dir, "brew");
    assert!(p.ends_with("/brew.conf"));
    assert_eq!(p, "/Users/me/Library/Application Support/FUIDE/brew.conf");
}

#[test]
fn config_dir_follows_the_override_and_the_platform() {
    assert_eq!(
        config_dir(Some("/tmp/cfg"), Platform::Apple, Some("/Users/me"), None, None).as_deref(),
        Some("/tmp/cfg")
    );
    assert_eq!(
        config_dir(None, Platform::Other, Some("/home/me"), None, Some("/xdg")).as_deref(),
        Some("/xdg/fuide")
    );
    assert_eq!(
        config_dir(None, Platform::Other, Some("/home/me/"), None, None).as_deref(),
        Some("/home/me/.config/fuide")
    );
    assert_eq!(config_dir(None, Platform::Windows, Some("/home/me"), None, None), None);
    assert_eq!(config_dir(None, Platform::Apple, None, Some("C:/AppData"), None), None);
    assert_eq!(settings_file("/tmp/cfg/", "player"), "/tmp/cfg/player.conf");
}

#[test]
fn an_unknown_line_appended_changes_nothing() {
    let t = "palette=amber\nchamfer=true";
    for l in ["", "   ", "# note", "no equals here", "bogus = 1", "  volume=11  "] {
        assert_eq!(Settings::parse(&format!("{t}\n{l}")), Settings::parse(t), "{l:?}");
    }
    assert_ne!(Settings::parse(&format!("{t}\ncompact=true")), Settings::parse(t));
}
