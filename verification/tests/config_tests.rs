use epycell::config::{
    fallback_syntax_theme, syntax_theme_source, ThemeSource, parse_hex, parse_keys, parse_single_key, usize_decimal, Config, KeyBind, KeyCode, KeyModifiers,
    Keys, RawConfig, RawImages, RawKeys, RawTheme, Rgb, Theme,
};

fn plain(code: KeyCode) -> KeyBind {
    KeyBind { code, mods: KeyModifiers::none() }
}

fn ctrl(c: char) -> KeyBind {
    KeyBind { code: KeyCode::Char(c), mods: KeyModifiers::control_only() }
}

#[test]
fn parse_hex_with_and_without_hash() {
    assert_eq!(parse_hex("#ff8000"), Some(Rgb { r: 255, g: 128, b: 0 }));
    assert_eq!(parse_hex("0d1926"), Some(Rgb { r: 13, g: 25, b: 38 }));
    assert_eq!(parse_hex("#ABCDEF"), Some(Rgb { r: 0xab, g: 0xcd, b: 0xef }));
}

#[test]
fn parse_hex_rejects_bad_colours() {
    assert_eq!(parse_hex("#fff"), None);
    assert_eq!(parse_hex("gg0000"), None);
    assert_eq!(parse_hex("##ff0000"), None);
    assert_eq!(parse_hex(""), None);
}

#[test]
fn parse_hex_accepts_plus_sign_pairs() {
    // `u8::from_str_radix` takes a leading '+'.
    assert_eq!(parse_hex("+f+f+f"), Some(Rgb { r: 15, g: 15, b: 15 }));
}

#[test]
fn parse_single_key_plain_and_named() {
    assert_eq!(parse_single_key("j"), Some(plain(KeyCode::Char('j'))));
    assert_eq!(parse_single_key("Enter"), Some(plain(KeyCode::Enter)));
    assert_eq!(parse_single_key("space"), Some(plain(KeyCode::Char(' '))));
    assert_eq!(parse_single_key("PageDown"), Some(plain(KeyCode::PageDown)));
    assert_eq!(parse_single_key("del"), Some(plain(KeyCode::Delete)));
}

#[test]
fn parse_single_key_lowercases_the_key() {
    assert_eq!(parse_single_key("R"), Some(plain(KeyCode::Char('r'))));
}

#[test]
fn parse_single_key_modifiers() {
    assert_eq!(parse_single_key("ctrl+r"), Some(ctrl('r')));
    assert_eq!(parse_single_key("C+c"), Some(ctrl('c')));
    let shift_a = parse_single_key("shift+a").unwrap();
    assert_eq!(shift_a.code, KeyCode::Char('A'));
    assert!(shift_a.mods.shift && !shift_a.mods.control);
    let alt = parse_single_key("Alt+Meta+x").unwrap();
    assert!(alt.mods.alt && !alt.mods.shift);
    assert_eq!(alt.code, KeyCode::Char('x'));
}

#[test]
fn parse_single_key_function_keys() {
    assert_eq!(parse_single_key("f12"), Some(plain(KeyCode::F(12))));
    assert_eq!(parse_single_key("F5"), Some(plain(KeyCode::F(5))));
    assert_eq!(parse_single_key("f+5"), None);
    assert_eq!(parse_single_key("f256"), None);
    assert_eq!(parse_single_key("fx"), None);
}

#[test]
fn parse_single_key_rejects_unknown() {
    assert_eq!(parse_single_key("hyper+x"), None);
    assert_eq!(parse_single_key("nothing"), None);
    assert_eq!(parse_single_key(""), None);
    assert_eq!(parse_single_key("ctrl+"), None);
}

#[test]
fn parse_single_key_multibyte_char() {
    assert_eq!(parse_single_key("é"), None);
    assert_eq!(parse_single_key("ä").is_none(), true);
}

#[test]
fn parse_keys_list() {
    let binds = parse_keys("j, down ,bogus,ctrl+n").unwrap();
    assert_eq!(binds, vec![plain(KeyCode::Char('j')), plain(KeyCode::Down), ctrl('n')]);
    assert_eq!(parse_keys("bogus, also bogus"), None);
    assert_eq!(parse_keys(""), None);
}

#[test]
fn keybind_matches_exactly() {
    let b = ctrl('r');
    assert!(b.matches(KeyCode::Char('r'), KeyModifiers::control_only()));
    assert!(!b.matches(KeyCode::Char('r'), KeyModifiers::none()));
    assert!(!b.matches(KeyCode::Char('s'), KeyModifiers::control_only()));
}

#[test]
fn keybind_labels() {
    assert_eq!(ctrl('r').label(), "C-r");
    assert_eq!(plain(KeyCode::Down).label(), "↓");
    assert_eq!(plain(KeyCode::F(11)).label(), "F11");
    assert_eq!(plain(KeyCode::Insert).label(), "?");
    let all = KeyBind {
        code: KeyCode::PageUp,
        mods: KeyModifiers { shift: true, control: true, alt: true, ..KeyModifiers::none() },
    };
    assert_eq!(all.label(), "C-A-S-PgUp");
}

#[test]
fn default_help_line() {
    let k = Keys::default();
    assert_eq!(
        k.help_line(),
        "j/k move · i edit · e full-edit · R run · C-r run-all · o new · dddel · w save · q quit"
    );
}

#[test]
fn default_theme_and_keys() {
    let t = Theme::default();
    assert_eq!(t.bg, Rgb { r: 0x0d, g: 0x19, b: 0x26 });
    assert_eq!(t.syntax_theme, "base16-ocean.dark");
    let k = Keys::default();
    assert_eq!(k.run, vec![plain(KeyCode::Char('R'))]);
    assert_eq!(k.move_down, vec![plain(KeyCode::Char('j')), plain(KeyCode::Down)]);
}

fn empty_theme() -> RawTheme {
    RawTheme {
        bg: None,
        selected: None,
        editing: None,
        inactive: None,
        error: None,
        output: None,
        status_nav: None,
        status_edit: None,
        syntax_theme: None,
    }
}

fn empty_keys() -> RawKeys {
    RawKeys {
        run: None,
        run_all: None,
        run_above: None,
        interrupt: None,
        move_down: None,
        move_up: None,
        edit: None,
        edit_full: None,
        new_below: None,
        new_above: None,
        delete: None,
        save: None,
        quit: None,
    }
}

#[test]
fn empty_config_gives_defaults() {
    let d = Config::default();
    for raw in [
        RawConfig { theme: None, keys: None, images: None },
        RawConfig {
            theme: Some(empty_theme()),
            keys: Some(empty_keys()),
            images: Some(RawImages { max_width: None, max_height: None, min_width: None, min_height: None }),
        },
    ] {
        let c = Config::from_raw(&raw);
        assert_eq!(c.theme.bg, d.theme.bg);
        assert_eq!(c.theme.error, d.theme.error);
        assert_eq!(c.theme.syntax_theme, d.theme.syntax_theme);
        assert_eq!(c.keys.run, d.keys.run);
        assert_eq!(c.keys.quit, d.keys.quit);
        assert_eq!(c.images.max_width, 0);
        assert_eq!(c.images.min_height, 0);
    }
}

#[test]
fn config_entries_override_valid_values_only() {
    let mut theme = empty_theme();
    theme.bg = Some("#000000".to_string());
    theme.error = Some("not a colour".to_string());
    theme.syntax_theme = Some("dracula".to_string());
    let mut keys = empty_keys();
    keys.run = Some("enter, ctrl+e".to_string());
    keys.quit = Some("???".to_string());
    let raw = RawConfig {
        theme: Some(theme),
        keys: Some(keys),
        images: Some(RawImages { max_width: Some(60), max_height: None, min_width: None, min_height: Some(3) }),
    };
    let c = Config::from_raw(&raw);
    let d = Config::default();
    assert_eq!(c.theme.bg, Rgb { r: 0, g: 0, b: 0 });
    assert_eq!(c.theme.error, d.theme.error);
    assert_eq!(c.theme.syntax_theme, "dracula");
    assert_eq!(c.keys.run, vec![plain(KeyCode::Enter), ctrl('e')]);
    assert_eq!(c.keys.quit, d.keys.quit);
    assert_eq!(c.images.max_width, 60);
    assert_eq!(c.images.max_height, 0);
    assert_eq!(c.images.min_height, 3);
}

#[test]
fn decimal_text() {
    assert_eq!(usize_decimal(0), "0");
    assert_eq!(usize_decimal(1234567), "1234567");
}

#[test]
fn modifier_order_does_not_matter() {
    assert_eq!(parse_single_key("shift+ctrl+a"), parse_single_key("ctrl+shift+a"));
    assert_eq!(parse_single_key("alt+c+x"), parse_single_key("c+alt+x"));
    assert_eq!(parse_single_key("bogus+ctrl+x"), parse_single_key("ctrl+bogus+x"));
}

#[test]
fn syntax_theme_sources() {
    assert_eq!(syntax_theme_source("base16-ocean.dark"), ThemeSource::Bundled);
    assert_eq!(syntax_theme_source("dracula.tmTheme"), ThemeSource::File);
    assert_eq!(syntax_theme_source("themes/nord"), ThemeSource::File);
    assert_eq!(syntax_theme_source(".tmTheme"), ThemeSource::File);
    assert_eq!(syntax_theme_source("tmTheme"), ThemeSource::Bundled);
    assert_eq!(syntax_theme_source(""), ThemeSource::Bundled);
    assert_eq!(fallback_syntax_theme(), "base16-ocean.dark");
}

#[test]
fn key_names_read_alike_in_any_case() {
    assert_eq!(parse_single_key("CTRL+R"), parse_single_key("ctrl+r"));
    assert_eq!(parse_single_key("Ctrl+R"), Some(ctrl('r')));
    assert_eq!(parse_single_key("SHIFT+TAB"), parse_single_key("shift+tab"));
    assert_eq!(parse_single_key("PAGEUP"), Some(plain(KeyCode::PageUp)));
    assert_eq!(parse_single_key("Alt+F5"), parse_single_key("alt+f5"));
}

#[test]
fn rejected_entry_leaves_the_rest_as_without_it() {
    let build = |with_bad: bool| {
        let mut theme = empty_theme();
        theme.bg = Some("#102030".to_string());
        if with_bad {
            theme.selected = Some("red".to_string());
        }
        let mut keys = empty_keys();
        keys.save = Some("ctrl+s".to_string());
        RawConfig { theme: Some(theme), keys: Some(keys), images: None }
    };
    let a = Config::from_raw(&build(true));
    let b = Config::from_raw(&build(false));
    let d = Config::default();
    assert_eq!(a.theme.selected, d.theme.selected);
    assert_eq!(a.theme.selected, b.theme.selected);
    assert_eq!(a.theme.bg, Rgb { r: 0x10, g: 0x20, b: 0x30 });
    assert_eq!(a.theme.bg, b.theme.bg);
    assert_eq!(a.theme.syntax_theme, b.theme.syntax_theme);
    assert_eq!(a.keys.save, vec![ctrl('s')]);
    assert_eq!(a.keys.save, b.keys.save);
    assert_eq!(a.keys.run, b.keys.run);
}
