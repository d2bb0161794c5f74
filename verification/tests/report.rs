use lector::config::{ConfigError, Config, OpenOnLaunch, Warning, WindowConfig};
use lector::report::{error_cli_line, validate_report, warning_cli_line, warning_log_line};
use lector::views::TabView;

#[test]
fn warning_lines_name_the_window() {
    let w = Warning { window: "W".into(), message: "duplicate dir: /tmp".into() };
    assert_eq!(warning_log_line(&w), "config warning [W]: duplicate dir: /tmp");
    assert_eq!(warning_cli_line(&w), "warning [W]: duplicate dir: /tmp");
    assert_eq!(error_cli_line(&ConfigError::EmptyField("dir")), "error: empty dir");
}

#[test]
fn validate_report_lists_windows_and_rows() {
    let w = WindowConfig {
        title: "Docs".into(),
        width: 1500,
        height: 1000,
        open_on_launch: OpenOnLaunch::Toggle(false),
        colour: None,
        tabs: vec![],
        groups: vec![],
        roots: vec![],
    };
    let cfg = Config { windows: vec![w], ..Config::default() };
    let rows = vec![vec![
        TabView { label: "l1".into(), group: None, title: "homelab".into(), dir: "~/x".into(), load_on_open: false, tree: false, tree_path: vec![] },
        TabView { label: "l2".into(), group: Some("tools".into()), title: "c".into(), dir: "/y".into(), load_on_open: true, tree: false, tree_path: vec![] },
    ]];
    let lines = validate_report("/etc/lector.toml", &cfg, &rows);
    assert_eq!(
        lines,
        vec![
            "ok: /etc/lector.toml (1 window(s))".to_string(),
            "  window \"Docs\"".to_string(),
            "    tab \"homelab\" dir=~/x load_on_open=false".to_string(),
            "    tab \"c\" dir=/y load_on_open=true group=\"tools\"".to_string(),
        ]
    );
}

#[test]
fn report_lines_built_from_given_quotings() {
    let v = TabView {
        label: "w:tab-1".into(),
        group: Some("g".into()),
        title: "t".into(),
        dir: "/d".into(),
        load_on_open: true,
        tree: false,
        tree_path: vec![],
    };
    assert_eq!(lector::report::window_line_text("<W>"), "  window <W>");
    assert_eq!(lector::report::tab_line_text(&v, "<T>", Some("<G>")), "    tab <T> dir=/d load_on_open=true group=<G>");
    assert_eq!(lector::report::tab_line_text(&v, "<T>", None), "    tab <T> dir=/d load_on_open=true");
}

#[test]
fn error_messages_built_from_given_quotings() {
    let e = ConfigError::DuplicateTabTitle { window: "W".into(), title: "T".into() };
    assert_eq!(e.message_with("<W>", "<T>"), "window <W> has duplicate tab title: <T>");
    let e = ConfigError::InvalidRootDepth { window: "W".into(), depth: 0 };
    assert_eq!(e.message_with("<W>", ""), "window <W> has a root with invalid depth 0");
    assert_eq!(e.message(), "window \"W\" has a root with invalid depth 0");
    let e = ConfigError::DuplicateSection { window: "W\"x".into(), name: "n".into() };
    assert_eq!(e.message(), "window \"W\\\"x\" has duplicate section name: \"n\"");
}
