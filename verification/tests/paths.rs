use psy::platform::{anchor_root, chain_filename, join_path, read_chain};
use psy::platform::{unix, windows};
use psy::platform::windows::Link;

#[test]
fn chains_read_back_from_filenames() {
    let chain = vec![1, 200, 4_294_967_295];
    let name = chain_filename(&chain, ".sock");
    assert_eq!(read_chain(&name, ".sock"), Some(chain.clone()));
    assert_eq!(read_chain("1-x.sock", ".sock"), None);
    assert_eq!(read_chain("1-2.txt", ".sock"), None);
    assert_eq!(anchor_root(&chain), Some(4_294_967_295));
    assert_eq!(anchor_root(&vec![]), None);
    assert_eq!(join_path("/a", "b"), "/a/b");
}

#[test]
fn unix_sockets_live_in_the_runtime_directory() {
    let dir = unix::primary_socket_dir(&Some("/run/user/7".to_string()), 7);
    assert!(dir.starts_with("/run/user/7"));
    assert!(unix::primary_socket_dir(&None, 7).contains('7'));
    let path = unix::socket_path(&dir, 7, 55);
    assert!(path.contains("55") && path.ends_with(".sock"));
    let name = path.rsplit('/').next().unwrap();
    assert_eq!(unix::socket_owner(name), Some(55));
    assert_eq!(unix::socket_owner("other"), None);
    assert!(unix::roots_dir(&dir).starts_with(&dir));
}

#[test]
fn long_directories_give_way_to_short_ones() {
    let dir = format!("/{}", "x".repeat(200));
    assert!(unix::socket_path(&dir, 7, 55).len() <= unix::UNIX_SOCK_MAX);
}

#[test]
fn ancestors_are_followed_to_the_top() {
    assert_eq!(unix::get_ancestor_chain(30, &vec![Some(20), Some(1), None]), vec![1, 20, 30]);
    assert_eq!(unix::next_lookup(30, &vec![Some(20)]), Some(20));
    assert_eq!(unix::next_lookup(30, &vec![Some(20), None]), None);
    assert_eq!(unix::parent_in_stat("30 (a b) c) S 20 30 30 0"), Some(20));
    assert_eq!(unix::parent_in_stat("garbage"), None);
}

#[test]
fn windows_pipes_are_named_by_process() {
    assert!(windows::socket_path(55).starts_with(r"\\.\pipe\"));
    assert!(windows::socket_path(55).contains("55"));
    assert!(windows::cleanup_stale_socket("x").is_ok());
    let dir = windows::roots_dir(&Some(r"C:\L".to_string()), &None);
    assert!(dir.starts_with(r"C:\L"));
    let chain = vec![4, 8];
    assert_eq!(windows::parse_anchor_chain(&windows::anchor_chain_filename(&chain)), Some(chain.clone()));
    assert!(windows::anchor_file_path(&dir, &chain).starts_with(&dir));
}

#[test]
fn windows_parents_are_older_than_their_children() {
    assert!(windows::validate_parent_child_times(Some(1), Some(2)));
    assert!(!windows::validate_parent_child_times(Some(3), Some(2)));
    let link = |pid: u32, parent: u32, created: u64, parent_created: u64| Link {
        pid,
        parent,
        created: Some(created),
        parent_created: Some(parent_created),
    };
    let links = vec![link(30, 20, 9, 5), link(20, 10, 5, 1)];
    assert_eq!(windows::get_ancestor_chain(30, &Some(links)), vec![10, 20, 30]);
    let reused = vec![link(30, 20, 9, 11), link(20, 10, 5, 1)];
    assert_eq!(windows::get_ancestor_chain(30, &Some(reused)), vec![30]);
    assert_eq!(windows::get_ancestor_chain(30, &None), vec![30]);
}
