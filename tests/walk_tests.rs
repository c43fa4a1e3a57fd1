use dirtop::walk::{Probe, SizeWalk};

/// Answers each probed path from a list of (path, probe) pairs, as a file
/// system would, and returns the final total.
fn walk_with(root: &str, answer: &dyn Fn(&str) -> Probe) -> u64 {
    let mut w = SizeWalk::new(root.to_string());
    let mut steps = 0;
    while let Some(p) = w.next_path() {
        w.record(answer(&p));
        steps += 1;
        assert!(steps < 10_000);
    }
    assert!(w.is_done());
    w.total()
}

fn dir(children: &[&str]) -> Probe {
    Probe::Dir { children: children.iter().map(|c| c.to_string()).collect() }
}

#[test]
fn walk_sums_every_file_of_a_tree() {
    let total = walk_with("/r", &|p| match p {
        "/r" => dir(&["/r/a", "/r/b.txt", "/r/c"]),
        "/r/a" => dir(&["/r/a/x", "/r/a/y"]),
        "/r/a/x" => Probe::File { len: 1_000_000 },
        "/r/a/y" => Probe::File { len: 500_000 },
        "/r/b.txt" => Probe::File { len: 2_000_000 },
        "/r/c" => dir(&["/r/c/d"]),
        "/r/c/d" => dir(&["/r/c/d/e"]),
        "/r/c/d/e" => Probe::File { len: 7 },
        _ => panic!("unexpected path {}", p),
    });
    assert_eq!(total, 3_500_007);
}

#[test]
fn walk_of_a_leaf_is_its_length() {
    let total = walk_with("/f", &|_| Probe::File { len: 12345 });
    assert_eq!(total, 12345);
}

#[test]
fn walk_of_an_empty_directory_is_zero() {
    let total = walk_with("/e", &|_| dir(&[]));
    assert_eq!(total, 0);
}

#[test]
fn walk_skips_a_denied_subdirectory() {
    let total = walk_with("/r", &|p| match p {
        "/r" => dir(&["/r/ok", "/r/denied", "/r/gone"]),
        "/r/ok" => Probe::File { len: 40 },
        "/r/denied" => Probe::Failed,
        "/r/gone" => Probe::Failed,
        _ => panic!("unexpected path {}", p),
    });
    assert_eq!(total, 40);
}

#[test]
fn walk_of_an_unreadable_root_is_zero() {
    let total = walk_with("/x", &|_| Probe::Failed);
    assert_eq!(total, 0);
}

#[test]
fn walk_total_stays_at_the_largest_u64() {
    let total = walk_with("/r", &|p| match p {
        "/r" => dir(&["/r/a", "/r/b"]),
        _ => Probe::File { len: u64::MAX - 1 },
    });
    assert_eq!(total, u64::MAX);
}

#[test]
fn next_path_is_the_last_pending_entry() {
    let mut w = SizeWalk::new("/r".to_string());
    assert_eq!(w.next_path(), Some("/r".to_string()));
    w.record(dir(&["/r/a", "/r/b"]));
    assert_eq!(w.next_path(), Some("/r/b".to_string()));
    w.record(Probe::File { len: 3 });
    assert_eq!(w.next_path(), Some("/r/a".to_string()));
    w.record(Probe::File { len: 4 });
    assert_eq!(w.next_path(), None);
    assert_eq!(w.total(), 7);
    w.record(Probe::File { len: 100 });
    assert_eq!(w.total(), 7);
}
