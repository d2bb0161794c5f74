use lector::servers::Servers;

fn s(x: &str) -> String {
    x.to_string()
}

#[test]
fn a_cold_tab_owns_nothing() {
    let reg: Servers<u32> = Servers::new();
    assert!(!reg.is_live("t1"));
    assert_eq!(reg.port("t1"), None);
    assert!(reg.labels().is_empty());
}

#[test]
fn register_makes_a_tab_live_on_its_port() {
    let mut reg: Servers<u32> = Servers::new();
    assert_eq!(reg.register("t1", 4100, 7), Ok(4100));
    assert!(reg.is_live("t1"));
    assert_eq!(reg.port("t1"), Some(4100));
}

#[test]
fn a_second_register_keeps_the_winner_and_hands_back_the_loser() {
    let mut reg: Servers<u32> = Servers::new();
    assert_eq!(reg.register("t1", 4100, 1), Ok(4100));
    assert_eq!(reg.register("t1", 4200, 2), Err((4100, 2)));
    assert_eq!(reg.port("t1"), Some(4100));
    assert_eq!(reg.labels(), vec![s("t1")]);
}

#[test]
fn stop_frees_the_tab() {
    let mut reg: Servers<u32> = Servers::new();
    reg.register("t1", 4100, 9).unwrap();
    assert_eq!(reg.stop("t1"), Some(9));
    assert!(!reg.is_live("t1"));
    assert_eq!(reg.port("t1"), None);
    assert_eq!(reg.stop("t1"), None);
}

#[test]
fn retain_stops_servers_for_removed_tabs() {
    let mut reg: Servers<u32> = Servers::new();
    reg.register("keep", 4100, 1).unwrap();
    reg.register("drop", 4101, 2).unwrap();
    reg.register("also-drop", 4102, 3).unwrap();
    let dropped = reg.retain(&vec![s("keep"), s("not-live")]);
    assert_eq!(dropped, vec![2, 3]);
    assert!(reg.is_live("keep"));
    assert!(!reg.is_live("drop"));
    assert!(!reg.is_live("also-drop"));
    assert!(!reg.is_live("not-live"));
}

#[test]
fn shutdown_all_stops_every_server() {
    let mut reg: Servers<u32> = Servers::new();
    reg.register("t1", 4100, 1).unwrap();
    reg.register("t2", 4101, 2).unwrap();
    assert_eq!(reg.shutdown_all(), vec![1, 2]);
    assert!(!reg.is_live("t1"));
    assert!(!reg.is_live("t2"));
    assert!(reg.labels().is_empty());
}

#[test]
fn reap_drops_a_registered_tab_whose_server_stopped_answering() {
    let mut reg: Servers<u32> = Servers::new();
    reg.register("up", 4100, 1).unwrap();
    reg.register("ghost", 4101, 2).unwrap();
    assert_eq!(reg.labels(), vec![s("up"), s("ghost")]);
    let dropped = reg.reap(&vec![true, false]);
    assert_eq!(dropped, vec![2]);
    assert!(reg.is_live("up"));
    assert!(!reg.is_live("ghost"));
}

#[test]
fn repeated_start_stop_cycles_do_not_leak_ports() {
    let mut reg: Servers<u32> = Servers::new();
    for n in 0..20u32 {
        reg.register("t1", 4100, n).unwrap();
        assert!(reg.is_live("t1"));
        assert_eq!(reg.stop("t1"), Some(n));
        assert!(!reg.is_live("t1"));
    }
    assert!(reg.labels().is_empty());
}
