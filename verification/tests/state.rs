use lector::state::{neighbour_label, pick_live_neighbour, tab_dtos, AppState, LectorDetached, Redock, UnloadPlan};
use lector::servers::Servers;
use lector::views::TabView;
use lector::Density;

fn view(label: &str) -> TabView {
    TabView {
        label: label.into(),
        group: None,
        title: label.into(),
        dir: "/tmp".into(),
        load_on_open: false,
        tree: false,
        tree_path: Vec::new(),
    }
}

fn detached(tab_label: &str, port: u16) -> LectorDetached {
    LectorDetached { origin_wid: "w1".into(), tab_label: tab_label.into(), port }
}

#[test]
fn tab_dto_marks_the_active_tab() {
    let views = vec![
        TabView { label: "t1".into(), group: None, title: "A".into(), dir: "/tmp".into(), load_on_open: false, tree: false, tree_path: Vec::new() },
        TabView { label: "t2".into(), group: Some("G".into()), title: "B".into(), dir: "/usr".into(), load_on_open: false, tree: false, tree_path: Vec::new() },
    ];
    let dtos = tab_dtos(&views, &vec![false, false], Some("t2"), &Vec::new());
    assert!(!dtos[0].active);
    assert!(dtos[1].active);
    assert_eq!(dtos[1].group.as_deref(), Some("G"));
}

#[test]
fn tab_dto_marks_the_detached_flag_from_the_passed_in_set() {
    let views = vec![
        TabView { label: "t1".into(), group: None, title: "A".into(), dir: "/tmp".into(), load_on_open: false, tree: false, tree_path: Vec::new() },
        TabView { label: "t2".into(), group: None, title: "B".into(), dir: "/usr".into(), load_on_open: false, tree: false, tree_path: Vec::new() },
    ];
    let detached = vec!["t2".to_string()];
    let dtos = tab_dtos(&views, &vec![false, false], None, &detached);
    assert!(!dtos[0].detached, "t1 was not popped out");
    assert!(dtos[1].detached, "t2 was popped out");
}

#[test]
fn tab_dtos_forward_tree_fields() {
    let views = vec![TabView {
        label: "tab-1".into(),
        group: Some("Dev".into()),
        title: "proj".into(),
        dir: "/tmp/proj".into(),
        load_on_open: false,
        tree: true,
        tree_path: vec!["gh".into()],
    }];
    let dtos = tab_dtos(&views, &vec![false], None, &Vec::new());
    assert!(dtos[0].tree);
    assert_eq!(dtos[0].tree_path, vec!["gh".to_string()]);
}

#[test]
fn tab_dto_live_reflects_the_registry_not_the_config() {
    let mut v = view("t1");
    v.load_on_open = true;
    let views = vec![v];
    let mut servers: Servers<u32> = Servers::new();
    let live: Vec<bool> = views.iter().map(|v| servers.is_live(&v.label)).collect();
    assert!(!tab_dtos(&views, &live, None, &Vec::new())[0].loaded, "load_on_open must not imply live");
    servers.register("t1", 4100, 1).unwrap();
    let live: Vec<bool> = views.iter().map(|v| servers.is_live(&v.label)).collect();
    assert!(tab_dtos(&views, &live, None, &Vec::new())[0].loaded, "a registered server reads as live");
}

#[test]
fn detached_tab_labels_reflects_the_detached_map() {
    let mut state = AppState::new();
    assert!(state.detached_tab_labels().is_empty());
    state.insert_detached("shell-detach:w1:tab-abc".into(), detached("w1:tab-abc", 8080));
    let labels = state.detached_tab_labels();
    assert_eq!(labels.len(), 1);
    assert!(labels.contains(&"w1:tab-abc".to_string()));
}

#[test]
fn unload_tab_state_check_skips_a_detached_label() {
    let mut state = AppState::new();
    state.insert_detached("shell-detach:w1:tab-a".into(), detached("w1:tab-a", 1234));
    assert!(state.detached_tab_labels().contains(&"w1:tab-a".to_string()));
    assert!(!state.detached_tab_labels().contains(&"w1:tab-b".to_string()));
    let mut servers: Servers<u32> = Servers::new();
    servers.register("w1:tab-a", 1234, 7).unwrap();
    assert_eq!(state.begin_unload(&mut servers, "w1:tab-a"), (UnloadPlan::Ignored, None));
    assert!(servers.is_live("w1:tab-a"), "a popped-out tab's server keeps running");
}

#[test]
fn views_for_window_preserves_tab_views_order() {
    let mut state = AppState::new();
    let views = vec![
        TabView { label: "w1:tab-a".into(), group: None, title: "Loose".into(), dir: "/tmp".into(), load_on_open: false, tree: false, tree_path: Vec::new() },
        TabView { label: "w1:tab-b".into(), group: Some("G".into()), title: "Grouped".into(), dir: "/usr".into(), load_on_open: false, tree: false, tree_path: Vec::new() },
        TabView { label: "w2:tab-c".into(), group: None, title: "OtherWindow".into(), dir: "/opt".into(), load_on_open: false, tree: false, tree_path: Vec::new() },
    ];
    state.set_views(views);
    let got = state.views_for_window("w1");
    assert_eq!(got.len(), 2);
    assert_eq!(got[0].title, "Loose");
    assert_eq!(got[1].title, "Grouped");
}

#[test]
fn views_for_window_needs_the_colon_boundary() {
    let mut state = AppState::new();
    state.set_views(vec![view("w1:tab-a"), view("w10:tab-b"), view("w1"), view("w1:")]);
    let got = state.views_for_window("w1");
    assert_eq!(got.len(), 2);
    assert_eq!(got[0].label, "w1:tab-a");
    assert_eq!(got[1].label, "w1:");
}

#[test]
fn unload_clears_active_so_a_reclick_routes_to_select_not_home() {
    let mut state = AppState::new();
    let mut v = view("w1:tab-a");
    v.title = "A".into();
    state.set_views(vec![v]);
    state.set_active("w1:tab-a");
    assert_eq!(state.active_for("w1").as_deref(), Some("w1:tab-a"));
    let mut servers: Servers<u32> = Servers::new();
    servers.register("w1:tab-a", 4100, 3).unwrap();

    assert_eq!(state.unload(&mut servers, "w1:tab-a"), Some(3));

    assert!(!servers.is_live("w1:tab-a"), "unloading stops the tab's server");
    assert_eq!(
        state.active_for("w1"),
        None,
        "unloading the active tab must clear the active tab for its window"
    );
    let views = state.views_for_window("w1");
    let live = vec![false; views.len()];
    let dtos = tab_dtos(&views, &live, state.active_for("w1").as_deref(), &Vec::new());
    assert!(
        !dtos[0].active,
        "the unloaded tab must no longer read as active in the rows the chrome consumes"
    );
}

#[test]
fn unload_of_a_non_active_tab_leaves_active_untouched() {
    let mut state = AppState::new();
    state.set_active("w1:tab-a");
    state.set_active("w1:tab-b"); // tab-b is now the sole active tab for w1
    let mut servers: Servers<u32> = Servers::new();
    state.unload(&mut servers, "w1:tab-a");
    assert_eq!(
        state.active_for("w1").as_deref(),
        Some("w1:tab-b"),
        "unloading a non-active tab must not clear or change a different tab's active state"
    );
}

#[test]
fn active_is_tracked_per_window() {
    let mut state = AppState::new();
    state.set_active("w1:tab-a");
    state.set_active("w2:tab-c");
    assert_eq!(state.active_for("w1").as_deref(), Some("w1:tab-a"));
    assert_eq!(state.active_for("w2").as_deref(), Some("w2:tab-c"));
    assert!(state.is_active("w2:tab-c"));
    assert!(!state.is_active("w2:tab-d"));
    let mut servers: Servers<u32> = Servers::new();
    servers.register("w2:tab-c", 4100, 5).unwrap();
    assert_eq!(state.begin_unload(&mut servers, "w2:tab-c"), (UnloadPlan::Unloaded { was_active: true }, Some(5)));
    assert!(!servers.is_live("w2:tab-c"));
    assert_eq!(state.active_for("w2"), None);
    assert_eq!(state.active_for("w1").as_deref(), Some("w1:tab-a"));
}

#[test]
fn neighbour_label_promotes_the_nearest_live_left_neighbour() {
    let views = vec![view("w1:tab-a"), view("w1:tab-b"), view("w1:tab-c")];
    assert_eq!(
        neighbour_label(&views, "w1:tab-b", &[true, false, true].to_vec()),
        Some("w1:tab-a".to_string())
    );
}

#[test]
fn neighbour_label_is_none_when_it_was_the_last_live_tab() {
    let views = vec![view("w1:tab-a"), view("w1:tab-b")];
    assert_eq!(neighbour_label(&views, "w1:tab-b", &[false, false].to_vec()), None);
}

#[test]
fn neighbour_label_never_self_promotes_even_when_the_popped_tab_stays_live() {
    let views = vec![view("w1:tab-a"), view("w1:tab-b"), view("w1:tab-c")];
    assert_eq!(
        neighbour_label(&views, "w1:tab-b", &[false, true, false].to_vec()),
        None,
        "the popped tab's own liveness must never make it its own neighbour"
    );
}

#[test]
fn the_nearest_live_neighbour_wins_over_a_farther_left_one() {
    assert_eq!(pick_live_neighbour(3, &vec![true, false, false, false, true]), Some(4));
    assert_eq!(pick_live_neighbour(2, &vec![true, false, false, false, true]), Some(0));
    assert_eq!(pick_live_neighbour(0, &vec![false, false, true]), Some(2));
    assert_eq!(pick_live_neighbour(0, &vec![]), None);
    let views = vec![view("a"), view("b")];
    assert_eq!(neighbour_label(&views, "missing", &vec![true, true]), None);
}

#[test]
fn colour_and_global_settings_make_the_identity() {
    let mut state = AppState::new();
    assert!(state.sidebar_drag());
    assert!(state.auto_update());
    assert_eq!(state.density(), Density::Comfortable);
    state.set_colour("w1", Some("#abc".to_string()));
    state.set_colour("w2", None);
    state.set_global(Density::Compact, false, true);
    let id = state.identity("w1", "Docs".to_string());
    assert_eq!(id.title, "Docs");
    assert_eq!(id.colour.as_deref(), Some("#abc"));
    assert_eq!(id.density, Density::Compact);
    assert!(!id.sidebar_drag);
    assert!(id.auto_update);
    assert_eq!(state.colour_for("w2"), None);
    assert_eq!(state.colour_for("w3"), None);
}

#[test]
fn pop_out_checks_and_redock_bookkeeping() {
    let mut state = AppState::new();
    state.set_views(vec![view("w1:tab-a"), view("w1:tab-b")]);
    state.set_active("w1:tab-a");
    assert_eq!(state.pop_out_target("w1:nope").unwrap_err(), "no such tab: w1:nope");
    let v = state.pop_out_target("w1:tab-a").unwrap();
    assert_eq!(v.label, "w1:tab-a");
    assert!(state.release_active("w1:tab-a"));
    assert_eq!(state.active_for("w1"), None);
    state.insert_detached("shell-detach:w1:tab-a".into(), detached("w1:tab-a", 9000));
    assert!(state.has_detached());
    assert!(state.is_detached_tab("w1:tab-a"));
    assert_eq!(state.pop_out_target("w1:tab-a").unwrap_err(), "w1:tab-a is already popped out");
    assert_eq!(state.detached_window_for("w1:tab-a").as_deref(), Some("shell-detach:w1:tab-a"));
    assert_eq!(state.peek_detached("shell-detach:w1:tab-a").unwrap().port, 9000);
    let back = state.take_detached("shell-detach:w1:tab-a").unwrap();
    assert_eq!(back.tab_label, "w1:tab-a");
    assert!(state.take_detached("shell-detach:w1:tab-a").is_none());
    assert!(!state.has_detached());
    assert_eq!(state.select_target("w1:tab-b").unwrap().label, "w1:tab-b");
}

#[test]
fn reconcile_keeps_rows_and_detached_tabs_and_starts_only_cold_eager_rows() {
    let mut state = AppState::new();
    let mut eager = view("w1:tab-a");
    eager.load_on_open = true;
    let mut live_eager = view("w1:tab-b");
    live_eager.load_on_open = true;
    state.set_views(vec![eager.clone(), live_eager.clone(), view("w1:tab-c")]);
    state.insert_detached("d1".into(), detached("w1:gone", 1));
    let keep = state.retained_labels();
    assert_eq!(keep, vec!["w1:tab-a", "w1:tab-b", "w1:tab-c", "w1:gone"]);
    let starts = lector::state::eager_starts(&vec![eager, live_eager, view("w1:tab-c")], &vec![false, true, false]);
    assert_eq!(starts, vec![0]);
}

#[test]
fn redock_returns_a_tab_to_its_origin_as_the_active_tab() {
    let mut s = AppState::new();
    s.set_views(vec![view("w1:a"), view("w1:b")]);
    s.set_active("w1:b");
    s.insert_detached("detached-w1:a".into(), detached("w1:a", 4100));
    match s.finish_redock("detached-w1:a") {
        Redock::Returned { origin_wid, tab_label, port } => {
            assert_eq!(origin_wid, "w1");
            assert_eq!(tab_label, "w1:a");
            assert_eq!(port, 4100);
        }
        other => panic!("expected the tab to return, got {other:?}"),
    }
    assert_eq!(s.active_for("w1").as_deref(), Some("w1:a"));
    assert!(!s.has_detached());
    assert_eq!(s.finish_redock("detached-w1:a"), Redock::Done, "a second close finds nothing");
}

#[test]
fn redock_of_a_tab_whose_row_vanished_ends_it() {
    let mut s = AppState::new();
    s.set_views(vec![view("w1:b")]);
    s.set_active("w1:b");
    s.insert_detached("detached-w1:a".into(), detached("w1:a", 4100));
    assert_eq!(
        s.finish_redock("detached-w1:a"),
        Redock::Ended { tab_label: "w1:a".into() }
    );
    assert_eq!(s.active_for("w1").as_deref(), Some("w1:b"), "the showing tab is untouched");
    assert!(!s.has_detached());
}
