use dirtop::collect::ScanSlots;
use dirtop::walk::{Probe, SizeWalk};

fn walk_with(root: &str, answer: &dyn Fn(&str) -> Probe) -> u64 {
    let mut w = SizeWalk::new(root.to_string());
    while let Some(p) = w.next_path() {
        w.record(answer(&p));
    }
    w.total()
}

#[test]
fn scan_orders_entries_largest_first() {
    let entries = ["a", "b.txt"];
    let mut slots = ScanSlots::new(entries.len());
    for (i, name) in entries.iter().enumerate() {
        let root = format!("/r/{}", name);
        let size = walk_with(&root, &|p| match p {
            "/r/a" => Probe::Dir { children: vec!["/r/a/1".to_string(), "/r/a/2".to_string()] },
            "/r/a/1" => Probe::File { len: 1_000_000 },
            "/r/a/2" => Probe::File { len: 500_000 },
            "/r/b.txt" => Probe::File { len: 2_000_000 },
            _ => panic!("unexpected path {}", p),
        });
        slots.record(i, size, name.to_string());
    }
    assert_eq!(
        slots.into_sorted(),
        vec![(2_000_000, "b.txt".to_string()), (1_500_000, "a".to_string())]
    );
}

#[test]
fn scan_of_an_empty_root_is_empty() {
    let slots = ScanSlots::new(0);
    assert_eq!(slots.len(), 0);
    assert!(slots.into_sorted().is_empty());
}

#[test]
fn unrecorded_slots_are_left_out() {
    let mut slots = ScanSlots::new(4);
    slots.record(1, 10, "x".to_string());
    slots.record(3, 30, "y".to_string());
    let r = slots.into_sorted();
    assert_eq!(r, vec![(30, "y".to_string()), (10, "x".to_string())]);
}

#[test]
fn sorted_results_never_grow_and_keep_every_entry() {
    let sizes = [5u64, 1, 9, 9, 0, 3, 7, 5];
    let mut slots = ScanSlots::new(sizes.len());
    for (i, s) in sizes.iter().enumerate() {
        slots.record(i, *s, format!("e{}", i));
    }
    let r = slots.into_sorted();
    assert_eq!(r.len(), sizes.len());
    for w in r.windows(2) {
        assert!(w[0].0 >= w[1].0);
    }
    let mut names: Vec<String> = r.iter().map(|x| x.1.clone()).collect();
    names.sort();
    let mut expected: Vec<String> = (0..sizes.len()).map(|i| format!("e{}", i)).collect();
    expected.sort();
    assert_eq!(names, expected);
}

#[test]
fn equal_sizes_both_kept() {
    let mut slots = ScanSlots::new(2);
    slots.record(0, 4, "p".to_string());
    slots.record(1, 4, "q".to_string());
    let r = slots.into_sorted();
    assert_eq!(r.len(), 2);
    assert!(r.contains(&(4, "p".to_string())));
    assert!(r.contains(&(4, "q".to_string())));
}
