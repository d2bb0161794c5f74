use lector::config::{
    default_true, default_window_height, default_window_width, expand_tilde, expand_tilde_with, path_join,
    is_hex_colour, validate_tab, Config, ConfigError, Density, Group, OpenOnLaunch, Tab, Warning,
    WindowConfig,
};
use lector::validate::{validate, ResolvedRoot, RootCheck, RootError, WindowFacts};

fn window(title: &str) -> WindowConfig {
    WindowConfig {
        title: title.to_string(),
        width: default_window_width(),
        height: default_window_height(),
        open_on_launch: OpenOnLaunch::default(),
        colour: None,
        tabs: Vec::new(),
        groups: Vec::new(),
        roots: Vec::new(),
    }
}

fn tab(title: &str, dir: &str) -> Tab {
    Tab { title: title.to_string(), dir: dir.to_string(), load_on_open: false }
}

fn config(windows: Vec<WindowConfig>) -> Config {
    Config { windows, ..Config::default() }
}

fn is_dir(dir: &str) -> bool {
    std::path::Path::new(&String::from_utf8(expand_tilde(dir)).unwrap()).is_dir()
}

/// Facts gathered the way the app gathers them: each tab dir probed on disk, no roots.
fn facts_for(cfg: &Config) -> Vec<WindowFacts> {
    cfg.windows
        .iter()
        .map(|w| WindowFacts {
            loose: w.tabs.iter().map(|t| is_dir(&t.dir)).collect(),
            groups: w.groups.iter().map(|g| g.tabs.iter().map(|t| is_dir(&t.dir)).collect()).collect(),
            roots: Vec::new(),
        })
        .collect()
}

fn check(cfg: &Config) -> Result<Vec<Warning>, ConfigError> {
    validate(cfg, &facts_for(cfg))
}

/// The bundled example: one window, a loose tab and a group with one eager tab.
fn valid() -> Config {
    let mut w = window("Docs");
    w.tabs.push(tab("homelab", "~/Developer/homelab"));
    let mut t = tab("compositor", "~/Developer/compositor");
    t.load_on_open = true;
    w.groups.push(Group { name: "tools".to_string(), tabs: vec![t] });
    config(vec![w])
}

#[test]
fn a_valid_config_passes_with_missing_dir_warnings() {
    let cfg = valid();
    let warnings = check(&cfg).unwrap();
    // Neither dir exists here, so each warns — and nothing errors.
    assert_eq!(warnings.len(), 2);
    assert!(warnings.iter().all(|w| w.window == "Docs"));
    assert_eq!(
        warnings[0].message,
        "dir missing or not a directory: ~/Developer/homelab"
    );
}

#[test]
fn config_default_agrees_with_the_parse_defaults() {
    let c = Config::default();
    assert!(c.sidebar_drag);
    assert!(c.auto_update);
    assert!(!c.dark_mode);
    assert!(!c.format_on_save);
    assert_eq!(c.density, Density::Comfortable);
    assert!(c.windows.is_empty());
    assert!(default_true());
    assert_eq!(default_window_width(), 1500);
    assert_eq!(default_window_height(), 1000);
    assert_eq!(OpenOnLaunch::default(), OpenOnLaunch::Toggle(false));
    assert_eq!(Density::default(), Density::Comfortable);
}

#[test]
fn rejects_empty_and_duplicate_window_titles() {
    let cfg = config(vec![window("  ")]);
    assert!(matches!(check(&cfg).unwrap_err(), ConfigError::EmptyField("title")));
    let cfg = config(vec![window("W"), window("W")]);
    assert!(matches!(check(&cfg).unwrap_err(), ConfigError::DuplicateWindowTitle(_)));
}

#[test]
fn rejects_zero_window_dimension() {
    let mut w = window("W");
    w.width = 0;
    let cfg = config(vec![w]);
    assert!(matches!(check(&cfg).unwrap_err(), ConfigError::InvalidWindowSize { .. }));
}

#[test]
fn rejects_invalid_colour() {
    let mut w = window("W");
    w.colour = Some("octarine".to_string());
    let cfg = config(vec![w]);
    assert!(matches!(check(&cfg).unwrap_err(), ConfigError::InvalidColour { .. }));
}

#[test]
fn accepts_short_and_long_hex_colours() {
    assert!(is_hex_colour("#abc"));
    assert!(is_hex_colour("#A1b2C3"));
    assert!(!is_hex_colour("abc"));
    assert!(!is_hex_colour("#abcd"));
    assert!(!is_hex_colour("#ggg"));
    assert!(!is_hex_colour(""));
    let mut w = window("W");
    w.colour = Some("#1e90ff".to_string());
    assert!(check(&config(vec![w])).is_ok());
}

#[test]
fn rejects_empty_tab_title_and_dir() {
    let mut w = window("W");
    w.tabs.push(tab("", "/tmp"));
    assert!(matches!(check(&config(vec![w])).unwrap_err(), ConfigError::EmptyField("title")));
    let mut w = window("W");
    w.tabs.push(tab("T", "  "));
    assert!(matches!(check(&config(vec![w])).unwrap_err(), ConfigError::EmptyField("dir")));
}

#[test]
fn validate_tab_checks_title_then_dir() {
    assert!(matches!(validate_tab(&tab(" ", " ")), Err(ConfigError::EmptyField("title"))));
    assert!(matches!(validate_tab(&tab("T", "\t")), Err(ConfigError::EmptyField("dir"))));
    assert!(validate_tab(&tab("T", "/tmp")).is_ok());
}

#[test]
fn rejects_duplicate_tab_title_window_wide_across_loose_and_grouped() {
    let mut w = window("W");
    w.tabs.push(tab("Dup", "/tmp"));
    w.groups.push(Group { name: "G".to_string(), tabs: vec![tab("Dup", "/usr")] });
    assert!(matches!(
        check(&config(vec![w])).unwrap_err(),
        ConfigError::DuplicateTabTitle { .. }
    ));
}

#[test]
fn duplicate_tab_titles_compare_trimmed() {
    let mut w = window("W");
    w.tabs.push(tab("Dup", "/tmp"));
    w.tabs.push(tab(" Dup ", "/usr"));
    match check(&config(vec![w])).unwrap_err() {
        ConfigError::DuplicateTabTitle { window, title } => {
            assert_eq!(window, "W");
            assert_eq!(title, " Dup ");
        }
        e => panic!("unexpected {e:?}"),
    }
}

#[test]
fn rejects_empty_and_duplicate_group_names() {
    let mut w = window("W");
    w.groups.push(Group { name: " ".to_string(), tabs: Vec::new() });
    assert!(matches!(check(&config(vec![w])).unwrap_err(), ConfigError::EmptyField("name")));
    let mut w = window("W");
    w.groups.push(Group { name: "G".to_string(), tabs: Vec::new() });
    w.groups.push(Group { name: "G".to_string(), tabs: Vec::new() });
    assert!(matches!(
        check(&config(vec![w])).unwrap_err(),
        ConfigError::DuplicateGroupName { .. }
    ));
}

#[test]
fn duplicate_dir_within_window_warns_once() {
    let mut w = window("W");
    w.tabs.push(tab("A", "/tmp"));
    w.tabs.push(tab("B", "/tmp"));
    w.tabs.push(tab("C", "/tmp"));
    let warnings = check(&config(vec![w])).unwrap();
    let dups: Vec<_> = warnings
        .iter()
        .filter(|w| w.message.contains("duplicate dir"))
        .collect();
    // Three copies, one warning.
    assert_eq!(dups.len(), 1);
    assert_eq!(dups[0].window, "W");
    assert_eq!(dups[0].message, "duplicate dir: /tmp");
}

#[test]
fn missing_dir_warns_but_never_errors() {
    let mut w = window("W");
    w.tabs.push(tab("Gone", "/definitely/not/here"));
    let cfg = config(vec![w]);
    let warnings = check(&cfg).unwrap();
    assert_eq!(cfg.windows[0].tabs.len(), 1);
    assert!(warnings.iter().any(|w| w.message.contains("dir missing")));
}

#[test]
fn an_existing_dir_produces_no_dir_warning() {
    let mut w = window("W");
    w.tabs.push(tab("T", "/tmp"));
    let warnings = check(&config(vec![w])).unwrap();
    assert!(!warnings.iter().any(|w| w.message.contains("dir missing")));
}

#[test]
fn the_same_config_is_rejected_whatever_the_disk_says() {
    let mut w = window("W");
    w.tabs.push(tab("T", "/tmp"));
    w.tabs.push(tab("T", "/usr"));
    let cfg = config(vec![w]);
    let all_there = vec![WindowFacts { loose: vec![true, true], groups: vec![], roots: vec![] }];
    let none_there = vec![WindowFacts { loose: vec![false, false], groups: vec![], roots: vec![] }];
    assert!(matches!(validate(&cfg, &all_there), Err(ConfigError::DuplicateTabTitle { .. })));
    assert!(matches!(validate(&cfg, &none_there), Err(ConfigError::DuplicateTabTitle { .. })));
}

#[test]
fn expand_tilde_resolves_home_and_leaves_absolute_paths_alone() {
    let home = dirs::home_dir().unwrap();
    assert_eq!(expand_tilde("~/x"), home.join("x").into_os_string().into_encoded_bytes());
    assert_eq!(expand_tilde("~"), home.into_os_string().into_encoded_bytes());
    assert_eq!(expand_tilde("/tmp"), b"/tmp".to_vec());
    // A bare `~something` is not a home reference — leave it verbatim.
    assert_eq!(expand_tilde("~notahome"), b"~notahome".to_vec());
}

#[test]
fn expand_tilde_with_an_explicit_home() {
    let home = Some(b"/home/me".to_vec());
    assert_eq!(expand_tilde_with("~/x", &home), b"/home/me/x".to_vec());
    assert_eq!(expand_tilde_with("  ~/x  ", &home), b"/home/me/x".to_vec());
    assert_eq!(expand_tilde_with("~", &home), b"/home/me".to_vec());
    assert_eq!(expand_tilde_with("~/", &home), b"/home/me/".to_vec());
    assert_eq!(expand_tilde_with("~x", &home), b"~x".to_vec());
    assert_eq!(expand_tilde_with("~/x", &None), b"./x".to_vec());
    assert_eq!(expand_tilde_with("~", &None), b".".to_vec());
    assert_eq!(expand_tilde_with("~/x", &Some(b"/root/".to_vec())), b"/root/x".to_vec());
    assert_eq!(expand_tilde_with("~//abs", &home), b"/abs".to_vec());
    assert_eq!(expand_tilde_with("~/x", &Some(Vec::new())), b"x".to_vec());
    // A home that is not UTF-8 comes through byte for byte.
    assert_eq!(expand_tilde_with("~/d", &Some(vec![b'/', 0xff])), vec![b'/', 0xff, b'/', b'd']);
}

#[test]
fn path_join_matches_std() {
    for (base, rest) in [("/a", "b"), ("/a/", "b"), ("", "b"), ("/a", "/b"), ("/a", ""), ("a", "b/c")] {
        let expected = std::path::Path::new(base).join(rest).into_os_string().into_encoded_bytes();
        assert_eq!(path_join(&base.as_bytes().to_vec(), &rest.as_bytes().to_vec()), expected, "{base:?} + {rest:?}");
    }
}

#[test]
fn config_default_turns_sidebar_drag_and_auto_update_on() {
    let cfg = Config::default();
    assert!(cfg.sidebar_drag);
    assert!(cfg.auto_update);
    assert!(!cfg.dark_mode);
    assert!(!cfg.format_on_save);
    assert_eq!(cfg.density, lector::Density::Comfortable);
    assert_eq!(cfg.tab_digit_keys, lector::TabDigitKeys::Jump);
    assert!(!cfg.tab_digit_keys.is_cycle());
    assert!(lector::TabDigitKeys::Cycle.is_cycle());
    assert!(cfg.windows.is_empty());
}

fn root_check(resolved: Result<ResolvedRoot, RootError>, dir_exists: bool) -> RootCheck {
    RootCheck { resolved, dir_exists }
}

#[test]
fn root_with_empty_dir_errors() {
    let mut w = window("W");
    w.roots.push(lector::RawRoot { name: None, dir: "  ".to_string(), depth: None });
    let cfg = config(vec![w]);
    let facts = vec![WindowFacts {
        loose: vec![],
        groups: vec![],
        roots: vec![root_check(Err(RootError::EmptyDir), false)],
    }];
    assert!(matches!(validate(&cfg, &facts).unwrap_err(), ConfigError::EmptyRootDir { .. }));
}

#[test]
fn root_resolution_errors_map_to_config_errors() {
    let mut w = window("W");
    w.roots.push(lector::RawRoot { name: Some(" ".to_string()), dir: "/tmp".to_string(), depth: Some(0) });
    let cfg = config(vec![w]);
    let facts = |e: RootError| {
        vec![WindowFacts { loose: vec![], groups: vec![], roots: vec![root_check(Err(e), true)] }]
    };
    assert!(matches!(
        validate(&cfg, &facts(RootError::EmptyName)).unwrap_err(),
        ConfigError::EmptyRootName { .. }
    ));
    match validate(&cfg, &facts(RootError::ZeroDepth(0))).unwrap_err() {
        ConfigError::InvalidRootDepth { window, depth } => {
            assert_eq!(window, "W");
            assert_eq!(depth, 0);
        }
        e => panic!("unexpected {e:?}"),
    }
}

#[test]
fn root_name_colliding_with_group_errors() {
    let mut w = window("W");
    w.groups.push(Group { name: "tools".to_string(), tabs: Vec::new() });
    w.roots.push(lector::RawRoot { name: Some("tools".to_string()), dir: "/tmp".to_string(), depth: None });
    let cfg = config(vec![w]);
    let facts = vec![WindowFacts {
        loose: vec![],
        groups: vec![vec![]],
        roots: vec![root_check(
            Ok(ResolvedRoot { name: "tools".to_string(), dir: "/tmp".to_string(), depth: 3 }),
            true,
        )],
    }];
    assert!(matches!(validate(&cfg, &facts).unwrap_err(), ConfigError::DuplicateSection { .. }));
}

#[test]
fn a_missing_root_dir_warns() {
    let mut w = window("W");
    w.roots.push(lector::RawRoot { name: None, dir: "/nope".to_string(), depth: None });
    let cfg = config(vec![w]);
    let facts = vec![WindowFacts {
        loose: vec![],
        groups: vec![],
        roots: vec![root_check(
            Ok(ResolvedRoot { name: "nope".to_string(), dir: "/nope".to_string(), depth: 3 }),
            false,
        )],
    }];
    let warnings = validate(&cfg, &facts).unwrap();
    assert_eq!(warnings.len(), 1);
    assert_eq!(warnings[0].message, "root dir missing or not a directory: /nope");
}

#[test]
fn error_messages_render_like_the_display_impl() {
    assert_eq!(ConfigError::EmptyField("title").message(), "empty title");
    assert_eq!(
        ConfigError::DuplicateWindowTitle("W".to_string()).message(),
        "duplicate window title: W"
    );
    assert_eq!(
        ConfigError::DuplicateTabTitle { window: "W".to_string(), title: "T".to_string() }.message(),
        "window \"W\" has duplicate tab title: \"T\""
    );
    assert_eq!(
        ConfigError::InvalidWindowSize { width: 0, height: 900 }.message(),
        "window size must be positive, got 0\u{d7}900"
    );
    assert_eq!(
        ConfigError::InvalidColour { title: "W".to_string(), colour: "octarine".to_string() }.message(),
        "window \"W\" has invalid colour: octarine"
    );
    assert_eq!(
        ConfigError::InvalidRootDepth { window: "W".to_string(), depth: 0 }.message(),
        "window \"W\" has a root with invalid depth 0"
    );
    assert_eq!(
        ConfigError::DuplicateSection { window: "a\"b".to_string(), name: "n".to_string() }.message(),
        "window \"a\\\"b\" has duplicate section name: \"n\""
    );
    assert_eq!(ConfigError::Io("gone".to_string()).message(), "cannot read config: gone");
    assert_eq!(ConfigError::Parse("bad".to_string()).message(), "invalid TOML: bad");
}
