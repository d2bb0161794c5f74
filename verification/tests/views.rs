use lector::config::{expand_tilde, Group, OpenOnLaunch, Tab, WindowConfig};
use lector::identity::{namespaced, window_id};
use lector::views::{dir_label, DiscoveredProject, TabView};

fn window(title: &str) -> WindowConfig {
    WindowConfig {
        title: title.to_string(),
        width: 1500,
        height: 1000,
        open_on_launch: OpenOnLaunch::Toggle(false),
        colour: None,
        tabs: Vec::new(),
        groups: Vec::new(),
        roots: Vec::new(),
    }
}

fn tab(title: &str, dir: &str) -> Tab {
    Tab { title: title.to_string(), dir: dir.to_string(), load_on_open: false }
}

/// A dir's canonical path bytes, the way the app derives them: tilde-expanded, canonicalized,
/// falling back to the expanded path when it does not resolve.
fn key(dir: &str) -> Vec<u8> {
    let expanded = std::path::PathBuf::from(String::from_utf8(expand_tilde(dir)).unwrap());
    let canonical = expanded.canonicalize().unwrap_or(expanded);
    canonical.as_os_str().as_encoded_bytes().to_vec()
}

fn keys(w: &WindowConfig) -> Vec<Vec<u8>> {
    w.tab_dirs().iter().map(|d| key(d)).collect()
}

fn views(w: &WindowConfig) -> Vec<TabView> {
    w.tab_views(&keys(w))
}

fn valid_window() -> WindowConfig {
    let mut w = window("Docs");
    w.tabs.push(tab("homelab", "~/Developer/homelab"));
    let mut t = tab("compositor", "~/Developer/compositor");
    t.load_on_open = true;
    w.groups.push(Group { name: "tools".to_string(), tabs: vec![t] });
    w
}

#[test]
fn loose_tabs_resolve_before_groups_with_none_group() {
    let mut w = window("W");
    w.tabs.push(tab("Loose", "/tmp"));
    w.groups.push(Group { name: "G".to_string(), tabs: vec![tab("Grouped", "/usr")] });
    let views = views(&w);
    assert_eq!(views[0].title, "Loose");
    assert_eq!(views[0].group, None);
    assert_eq!(views[1].title, "Grouped");
    assert_eq!(views[1].group.as_deref(), Some("G"));
}

#[test]
fn label_is_the_canonicalized_dir_hash_so_retitling_is_free() {
    let mut a = window("W");
    a.tabs.push(tab("Before", "/tmp"));
    let mut b = window("W");
    b.tabs.push(tab("After", "/tmp"));
    assert_eq!(
        views(&a)[0].label,
        views(&b)[0].label,
        "retitling a tab must not change its label"
    );
}

#[test]
fn two_spellings_of_one_dir_share_a_label() {
    let mut a = window("W");
    a.tabs.push(tab("A", "/tmp"));
    let mut b = window("W");
    b.tabs.push(tab("A", "/tmp/."));
    assert_eq!(views(&a)[0].label, views(&b)[0].label);
}

#[test]
fn label_is_stable_when_a_tab_is_inserted_before_it() {
    let base = valid_window();
    let first = views(&base)
        .into_iter()
        .find(|t| t.title == "compositor")
        .unwrap()
        .label;
    let mut inserted = window("Docs");
    inserted.tabs.push(tab("New", "/tmp"));
    inserted.tabs.push(tab("homelab", "~/Developer/homelab"));
    inserted.groups.push(Group {
        name: "tools".to_string(),
        tabs: vec![tab("compositor", "~/Developer/compositor")],
    });
    let after = views(&inserted)
        .into_iter()
        .find(|t| t.title == "compositor")
        .unwrap();
    assert_eq!(
        after.label, first,
        "a tab's label must not change when a tab is inserted before it"
    );
}

#[test]
fn duplicate_dirs_get_distinct_labels() {
    let mut w = window("W");
    w.tabs.push(tab("A", "/tmp"));
    w.tabs.push(tab("B", "/tmp"));
    let views = views(&w);
    assert_ne!(views[0].label, views[1].label);
}

#[test]
fn labels_are_the_window_id_then_the_dir_label_then_a_dedup_suffix() {
    let mut w = window("W");
    w.tabs.push(tab("A", "/x"));
    w.tabs.push(tab("B", "/y"));
    w.tabs.push(tab("C", "/x"));
    w.tabs.push(tab("D", "/x"));
    let ks = vec![b"/x".to_vec(), b"/y".to_vec(), b"/x".to_vec(), b"/x".to_vec()];
    let vs = w.tab_views(&ks);
    let wid = window_id("W");
    let base = dir_label(b"/x");
    assert_eq!(base.len(), 20);
    assert!(base.starts_with("tab-"));
    assert_eq!(vs[0].label, namespaced(&wid, &base));
    assert_eq!(vs[1].label, namespaced(&wid, &dir_label(b"/y")));
    assert_eq!(vs[2].label, format!("{}:{}-1", wid, base));
    assert_eq!(vs[3].label, format!("{}:{}-2", wid, base));
    assert!(vs.iter().all(|v| !v.tree && v.tree_path.is_empty()));
}

#[test]
fn dir_label_is_tab_then_the_hex_hash() {
    // fnv1a_64(b"a") = 0xaf63dc4c8601ec8c
    assert_eq!(dir_label(b"a"), "tab-af63dc4c8601ec8c");
}

#[test]
fn startup_label_honours_open_on_launch() {
    // Default: the first loaded (load_on_open) tab, not necessarily the first tab.
    let default = valid_window();
    let loaded = views(&default)
        .into_iter()
        .find(|v| v.title == "compositor")
        .unwrap()
        .label;
    assert_eq!(default.startup_label(&keys(&default)), Some(loaded));

    // `true` forces the first tab even though it's cold.
    let mut forced = valid_window();
    forced.open_on_launch = OpenOnLaunch::Toggle(true);
    assert_eq!(
        forced.startup_label(&keys(&forced)),
        Some(views(&forced)[0].label.clone())
    );

    // No loaded tab anywhere: blank background.
    let mut none = window("W");
    none.tabs.push(tab("a", "/tmp"));
    assert_eq!(none.startup_label(&keys(&none)), None);

    let mut named = valid_window();
    named.open_on_launch = OpenOnLaunch::Tab("compositor".to_string());
    let want = views(&named)
        .into_iter()
        .find(|v| v.title == "compositor")
        .unwrap()
        .label;
    assert_eq!(named.startup_label(&keys(&named)), Some(want));
}

#[test]
fn a_title_that_matches_no_tab_falls_back_to_the_first() {
    let mut w = valid_window();
    w.open_on_launch = OpenOnLaunch::Tab("nope".to_string());
    assert_eq!(w.startup_label(&keys(&w)), Some(views(&w)[0].label.clone()));
    let mut empty = window("E");
    empty.open_on_launch = OpenOnLaunch::Tab("nope".to_string());
    assert_eq!(empty.startup_label(&keys(&empty)), None);
}

#[test]
fn discovered_projects_become_tree_views_after_curated() {
    let mut w = window("W");
    w.tabs.push(tab("loose", "/tmp"));
    let disc = vec![DiscoveredProject {
        path: "/tmp/gh/proj".to_string(),
        tree_path: vec!["gh".into()],
        section: "Dev".into(),
    }];
    let dkeys: Vec<Vec<u8>> = disc.iter().map(|p| key(&p.path)).collect();
    let views = w.tab_views_with_discovered(&keys(&w), &disc, &dkeys);
    assert_eq!(views.len(), 2);
    assert!(!views[0].tree); // curated
    assert!(views[1].tree);
    assert_eq!(views[1].tree_path, vec!["gh".to_string()]);
    assert_eq!(views[1].group.as_deref(), Some("Dev"));
    assert_eq!(views[1].title, "proj");
    assert!(!views[1].load_on_open);
}

#[test]
fn a_curated_tab_shadows_a_same_dir_discovered_project() {
    let mut w = window("W");
    w.tabs.push(tab("curated", "/tmp"));
    let disc = vec![DiscoveredProject {
        path: "/tmp".to_string(),
        tree_path: vec![],
        section: "Dev".into(),
    }];
    let dkeys: Vec<Vec<u8>> = disc.iter().map(|p| key(&p.path)).collect();
    let views = w.tab_views_with_discovered(&keys(&w), &disc, &dkeys);
    assert_eq!(
        views.len(),
        1,
        "discovered duplicate of a curated tab must be dropped"
    );
    assert_eq!(views[0].title, "curated");
}

#[test]
fn a_project_reachable_from_two_roots_lands_once() {
    let w = window("W");
    let disc = vec![
        DiscoveredProject { path: "/a/p".into(), tree_path: vec![], section: "One".into() },
        DiscoveredProject { path: "/b/q".into(), tree_path: vec![], section: "One".into() },
        DiscoveredProject { path: "/a/p".into(), tree_path: vec![], section: "Two".into() },
    ];
    let dkeys: Vec<Vec<u8>> = disc.iter().map(|p| p.path.as_bytes().to_vec()).collect();
    let views = w.tab_views_with_discovered(&vec![], &disc, &dkeys);
    assert_eq!(views.len(), 2);
    assert_eq!(views[0].title, "p");
    assert_eq!(views[0].group.as_deref(), Some("One"));
    assert_eq!(views[1].title, "q");
    assert_eq!(views[0].dir, "/a/p");
}

#[test]
fn tab_dirs_follow_render_order() {
    let w = valid_window();
    assert_eq!(w.tab_dirs(), vec!["~/Developer/homelab".to_string(), "~/Developer/compositor".to_string()]);
}

#[test]
fn a_discovered_title_is_the_paths_final_component_as_std_gives_it() {
    let w = window("W");
    let paths = ["/a/b/", "/a/c/.", "/a/e/.//", "rel/f", "/d/..", "/", ".", "./g", "h", "/x/./y"];
    let disc: Vec<DiscoveredProject> = paths
        .iter()
        .map(|p| DiscoveredProject { path: p.to_string(), tree_path: vec![], section: "S".into() })
        .collect();
    let dkeys: Vec<Vec<u8>> = (0..disc.len()).map(|i| vec![i as u8]).collect();
    let views = w.tab_views_with_discovered(&vec![], &disc, &dkeys);
    assert_eq!(views.len(), paths.len());
    for (v, p) in views.iter().zip(paths.iter()) {
        let expected = std::path::Path::new(p)
            .file_name()
            .map(|n| n.to_string_lossy().into_owned())
            .unwrap_or_else(|| p.to_string());
        assert_eq!(v.title, expected, "title of {p:?}");
    }
    assert_eq!(views[0].title, "b");
    assert_eq!(views[1].title, "c");
    assert_eq!(views[4].title, "/d/..");
}
