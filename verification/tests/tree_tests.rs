use howbig::tree::{sort_by_size_desc, fold_children, DirEntry};

fn file(name: &str, size: u64) -> DirEntry {
    DirEntry::file_node(String::from(name), size)
}

fn names(children: &Vec<DirEntry>) -> Vec<String> {
    let mut out: Vec<String> = Vec::new();
    for c in children.iter() {
        out.push(c.name.clone());
    }
    out
}

#[test]
fn leaf_base_case() {
    let f = file("data.bin", 4096);
    assert_eq!(f.name, "data.bin");
    assert_eq!(f.size, 4096);
    assert_eq!(f.file_count, 1);
    assert!(f.children.is_empty());
    assert!(!f.is_dir);
    assert_eq!(f.other_count, 0);
    assert_eq!(f.other_size, 0);
}

#[test]
fn empty_directory_base_case() {
    let d = DirEntry::new(String::from("empty"), true);
    assert_eq!(d.size, 0);
    assert_eq!(d.file_count, 0);
    assert!(d.children.is_empty());
    assert!(d.is_dir);
    assert_eq!(d.other_count, 0);
    assert_eq!(d.other_size, 0);

    let folded = fold_children(String::from("empty"), Vec::new(), 5);
    assert_eq!(folded.size, 0);
    assert_eq!(folded.file_count, 0);
    assert!(folded.children.is_empty());
    assert_eq!(folded.other_count, 0);
    assert_eq!(folded.other_size, 0);
}

#[test]
fn end_to_end_example() {
    // root holds file a (100), file b (200) and directory c holding file d (50)
    let d = file("d", 50);
    let c = fold_children(String::from("c"), vec![d], 5);
    assert_eq!(c.size, 50);
    assert_eq!(c.file_count, 1);
    assert_eq!(names(&c.children), vec!["d"]);

    let root = fold_children(String::from("root"), vec![file("a", 100), file("b", 200), c], 5);
    assert_eq!(root.size, 350);
    assert_eq!(root.file_count, 3);
    assert!(root.is_dir);
    assert_eq!(names(&root.children), vec!["b", "a", "c"]);
    assert_eq!(root.children[0].size, 200);
    assert_eq!(root.children[1].size, 100);
    assert_eq!(root.children[2].size, 50);
    assert_eq!(root.other_count, 0);
    assert_eq!(root.other_size, 0);
}

#[test]
fn pruning_example() {
    // ten files of sizes 10, 20, ..., 100, keeping at most five children
    let mut kids: Vec<DirEntry> = Vec::new();
    let mut i: u64 = 1;
    while i <= 10 {
        kids.push(file(&format!("f{}", i), 10 * i));
        i += 1;
    }
    let dir = fold_children(String::from("dir"), kids, 5);
    assert_eq!(dir.size, 550);
    assert_eq!(dir.file_count, 10);
    assert_eq!(dir.children.len(), 5);
    let sizes: Vec<u64> = dir.children.iter().map(|c| c.size).collect();
    assert_eq!(sizes, vec![100, 90, 80, 70, 60]);
    assert_eq!(dir.other_count, 5);
    assert_eq!(dir.other_size, 10 + 20 + 30 + 40 + 50);
}

#[test]
fn no_pruning_when_bound_is_large() {
    // with a bound beyond the fan-out nothing is pruned and the bucket is empty
    let kids = vec![file("a", 7), file("b", 3), file("c", 11)];
    let dir = fold_children(String::from("dir"), kids, usize::MAX);
    assert_eq!(dir.size, 21);
    assert_eq!(dir.file_count, 3);
    assert_eq!(dir.children.len(), 3);
    assert_eq!(dir.other_count, 0);
    assert_eq!(dir.other_size, 0);
}

#[test]
fn sum_invariant_after_pruning() {
    let kids = vec![file("a", 5), file("b", 9), file("c", 2), file("d", 4)];
    let dir = fold_children(String::from("dir"), kids, 2);
    let retained: u64 = dir.children.iter().map(|c| c.size).sum();
    assert_eq!(dir.size, retained + dir.other_size);
    assert_eq!(dir.size, 20);
    assert_eq!(dir.other_count, 2);
    assert_eq!(dir.other_size, 6);
}

#[test]
fn prune_to_zero_children_keeps_totals() {
    let kids = vec![file("a", 5), file("b", 9), file("c", 2)];
    let dir = fold_children(String::from("dir"), kids, 0);
    assert!(dir.children.is_empty());
    assert_eq!(dir.size, 16);
    assert_eq!(dir.file_count, 3);
    assert_eq!(dir.other_count, 3);
    assert_eq!(dir.other_size, 16);
}

#[test]
fn no_pruning_at_exact_limit() {
    let kids = vec![file("a", 5), file("b", 9), file("c", 2)];
    let dir = fold_children(String::from("dir"), kids, 3);
    assert_eq!(dir.children.len(), 3);
    assert_eq!(dir.other_count, 0);
    assert_eq!(dir.other_size, 0);
    assert_eq!(dir.size, 16);
}

#[test]
fn fold_is_order_independent() {
    // the same children in another arrival order give the same directory node
    let d1 = fold_children(
        String::from("dir"),
        vec![file("a", 100), file("b", 200), file("c", 50)],
        2,
    );
    let d2 = fold_children(
        String::from("dir"),
        vec![file("c", 50), file("b", 200), file("a", 100)],
        2,
    );
    assert_eq!(d1.size, d2.size);
    assert_eq!(d1.file_count, d2.file_count);
    assert_eq!(d1.other_count, d2.other_count);
    assert_eq!(d1.other_size, d2.other_size);
    assert_eq!(names(&d1.children), names(&d2.children));
}

#[test]
fn sort_is_stable_for_equal_sizes() {
    let sorted = sort_by_size_desc(vec![file("x", 5), file("y", 9), file("z", 5)]);
    let got: Vec<String> = sorted.iter().map(|c| c.name.clone()).collect();
    assert_eq!(got, vec!["y", "x", "z"]);
}

#[test]
fn sort_children_reorders_whole_subtree() {
    let inner = DirEntry {
        name: String::from("inner"),
        size: 30,
        file_count: 2,
        children: vec![file("small", 10), file("big", 20)],
        is_dir: true,
        other_count: 0,
        other_size: 0,
    };
    let root = DirEntry {
        name: String::from("root"),
        size: 35,
        file_count: 3,
        children: vec![inner, file("tiny", 5)],
        is_dir: true,
        other_count: 0,
        other_size: 0,
    };
    let sorted = root.sort_children();
    assert_eq!(sorted.size, 35);
    assert_eq!(sorted.file_count, 3);
    assert_eq!(names(&sorted.children), vec!["inner", "tiny"]);
    assert_eq!(names(&sorted.children[0].children), vec!["big", "small"]);
}

#[test]
fn sort_children_is_idempotent_on_sorted_tree() {
    let root = fold_children(
        String::from("root"),
        vec![file("a", 1), file("b", 3), file("c", 2)],
        5,
    );
    let sorted = root.sort_children();
    assert_eq!(names(&sorted.children), vec!["b", "c", "a"]);
    let again = sorted.sort_children();
    assert_eq!(names(&again.children), vec!["b", "c", "a"]);
    assert_eq!(again.size, 6);
    assert_eq!(again.file_count, 3);
}
