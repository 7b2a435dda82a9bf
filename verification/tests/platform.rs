use psy::platform::unix::{
    anchor_chain_filename, anchor_socket_path, get_ancestor_chain, parse_anchor_chain, roots_dir,
    UNIX_SOCK_MAX,
};

#[test]
fn test_get_ancestor_chain_self() {
    let pid = 4321;
    let chain = get_ancestor_chain(pid, &vec![Some(1500), Some(423), Some(1)]);
    assert!(!chain.is_empty(), "chain must not be empty");
    assert_eq!(*chain.last().unwrap(), pid, "chain must end with our PID");
    assert!(chain.len() >= 2, "chain too short: {chain:?}");
    assert_eq!(chain, vec![1, 423, 1500, 4321]);
}

#[test]
fn test_get_ancestor_chain_init() {
    let chain = get_ancestor_chain(1, &vec![]);
    assert_eq!(chain, vec![1]);
}

#[test]
fn test_anchor_chain_filename() {
    assert_eq!(anchor_chain_filename(&vec![1, 423, 5000]), "1-423-5000.sock");
    assert_eq!(anchor_chain_filename(&vec![1]), "1.sock");
}

#[test]
fn test_parse_anchor_chain() {
    assert_eq!(
        parse_anchor_chain("1-423-5000.sock"),
        Some(vec![1, 423, 5000])
    );
    assert_eq!(parse_anchor_chain("1.sock"), Some(vec![1]));
    assert_eq!(parse_anchor_chain("not-a-number.sock"), None);
    assert_eq!(parse_anchor_chain("1-423-5000.pipe"), None); // wrong extension
    assert_eq!(parse_anchor_chain("1-423-5000"), None); // no extension
}

#[test]
fn test_anchor_socket_path_direct() {
    // A short chain should produce a direct socket (anchor == socket).
    let chain = vec![1, 100, 200];
    let (anchor, socket) = anchor_socket_path("/tmp/psy-1000", &chain);
    assert_eq!(anchor, socket, "short chain should be direct socket");
    assert!(anchor.contains("roots/"));
    assert!(anchor.ends_with(".sock"));
    assert_eq!(anchor, "/tmp/psy-1000/roots/1-100-200.sock");
}

#[test]
fn test_anchor_socket_path_indirect() {
    // Build a chain long enough to exceed UNIX_SOCK_MAX.
    let chain: Vec<u32> = (0..30).map(|i| 10000 + i).collect();
    let (anchor, socket) = anchor_socket_path("/tmp/psy-1000", &chain);
    assert!(anchor.len() >= UNIX_SOCK_MAX);
    assert_ne!(anchor, socket, "long chain should use indirect socket");
    assert!(socket.contains("/s/"));
    assert_eq!(socket, "/tmp/psy-1000/s/10029.sock");
}

#[test]
fn test_roots_dir() {
    let dir = roots_dir("/run/user/1000/psy");
    assert!(dir.contains("roots"));
    assert_eq!(dir, "/run/user/1000/psy/roots");
}
