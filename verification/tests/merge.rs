use codesync::merge::{is_clean_path, is_digest};
use codesync::merge::{plan, Plan, Tree};

fn digest(c: char) -> String {
    std::iter::repeat(c).take(64).collect()
}

fn names(list: &[&str]) -> Vec<String> {
    list.iter().map(|s| s.to_string()).collect()
}

fn targets(plan: &Plan) -> Vec<String> {
    let mut all: Vec<String> = plan.files.iter().map(|f| f.target.clone()).collect();
    all.sort();
    all
}

fn three_copies() -> Vec<Tree> {
    let mut trees = Vec::new();
    for (i, version) in ['a', 'b', 'c'].into_iter().enumerate() {
        let mut tree = Tree::new();
        tree.insert_dir("nested");
        tree.insert_file("nested/file.txt", &digest(version));
        tree.insert_file(&format!("unique-{i}"), &digest(['d', 'e', 'f'][i]));
        tree.insert_file("same", &digest('1'));
        trees.push(tree);
    }
    trees[0].insert_file("nested/Host_file.txt", &digest('2'));
    trees
}

#[test]
fn three_copies_keep_every_version_under_fresh_names() {
    let trees = three_copies();
    let plan = plan(&trees, &names(&["Host", "Server", "Server"])).unwrap();
    assert_eq!(plan.renames.len(), 3);
    assert_eq!(plan.files.len(), 8);
    assert!(plan.renames.iter().all(|r| r.to != "nested/Host_file.txt"));
    assert!(plan.renames.iter().all(|r| r.from == "nested/file.txt"));
    let mut participants: Vec<usize> = plan.renames.iter().map(|r| r.participant).collect();
    participants.sort();
    assert_eq!(participants, vec![0, 1, 2]);
    assert_eq!(
        targets(&plan),
        vec![
            "nested/Host_aaaaaaaa_1_file.txt".to_string(),
            "nested/Host_file.txt".to_string(),
            "nested/Server_cccccccc_1_file.txt".to_string(),
            "nested/Server_file.txt".to_string(),
            "same".to_string(),
            "unique-0".to_string(),
            "unique-1".to_string(),
            "unique-2".to_string(),
        ]
    );
    assert_eq!(plan.dirs, vec!["nested".to_string()]);
    for rename in &plan.renames {
        let kept = plan
            .files
            .iter()
            .find(|f| f.target == rename.to)
            .expect("renamed version is kept");
        assert_eq!(kept.path, rename.from);
    }
}

#[test]
fn agreeing_copies_plan_no_renames() {
    let merged = [
        ("nested/Host_aaaaaaaa_1_file.txt", 'a'),
        ("nested/Host_file.txt", '2'),
        ("nested/Server_cccccccc_1_file.txt", 'c'),
        ("nested/Server_file.txt", 'b'),
        ("same", '1'),
        ("unique-0", 'd'),
        ("unique-1", 'e'),
        ("unique-2", 'f'),
    ];
    let mut trees = Vec::new();
    for _ in 0..3 {
        let mut tree = Tree::new();
        tree.insert_dir("nested");
        for (path, c) in merged {
            tree.insert_file(path, &digest(c));
        }
        trees.push(tree);
    }
    let repeated = plan(&trees, &names(&["Host", "Server", "Server"])).unwrap();
    assert!(repeated.renames.is_empty());
    assert_eq!(repeated.files.len(), 8);
    assert!(repeated.files.iter().all(|f| f.target == f.path && f.source == 0));
}

#[test]
fn refuses_a_file_and_a_directory_at_one_path() {
    let mut file = Tree::new();
    file.insert_file("path", &"a".repeat(64));
    let mut dir = Tree::new();
    dir.insert_dir("path");
    assert_eq!(
        plan(&[file, dir], &names(&["A", "B"])).err().unwrap(),
        "A file and a directory use the same path on different hosts. Rename one before syncing."
    );
}

#[test]
fn refuses_mismatched_participants() {
    let tree = Tree::new();
    assert_eq!(
        plan(&[tree], &names(&["A", "B"])).err().unwrap(),
        "Invalid sync participants."
    );
}

#[test]
fn labels_are_normalized_and_shortened() {
    let mut a = Tree::new();
    a.insert_file("notes.txt", &digest('a'));
    let mut b = Tree::new();
    b.insert_file("notes.txt", &digest('b'));
    let long = "x".repeat(50);
    let plan = plan(&[a, b], &names(&["my host!", &long])).unwrap();
    let mut all = targets(&plan);
    all.sort();
    assert_eq!(all, vec!["my_host__notes.txt".to_string(), format!("{}_notes.txt", "x".repeat(40))]);
    let mut c = Tree::new();
    c.insert_file("n", &digest('a'));
    let mut d = Tree::new();
    d.insert_file("n", &digest('b'));
    let plan = codesync::merge::plan(&[c, d], &names(&["", "Héllo"])).unwrap();
    assert_eq!(targets(&plan), vec!["Host_n".to_string(), "Héllo_n".to_string()]);
}

#[test]
fn replacing_a_digest_keeps_one_file() {
    let mut a = Tree::new();
    a.insert_file("f", &digest('a'));
    a.insert_file("f", &digest('b'));
    let mut b = Tree::new();
    b.insert_file("f", &digest('b'));
    let plan = plan(&[a, b], &names(&["A", "B"])).unwrap();
    assert!(plan.renames.is_empty());
    assert_eq!(plan.files.len(), 1);
}

#[test]
fn tree_paths_and_digests_are_checked_before_use() {
    assert!(is_clean_path("notes/a.txt"));
    assert!(!is_clean_path(""));
    assert!(!is_clean_path("/abs"));
    assert!(!is_clean_path("a//b"));
    assert!(!is_clean_path("a/./b"));
    assert!(!is_clean_path("../a"));
    assert!(is_clean_path("..a/.b"));
    assert!(is_digest(&digest('f')));
    assert!(!is_digest("abc"));
    assert!(!is_digest("ééééééééé"));
}
