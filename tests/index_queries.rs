use orange::commands::{
    add_exclude_path, get_exclude_paths, get_walk_matrix, remove_exclude_path, search, suggest,
};
use orange::exclusion::ExclusionPolicy;
use orange::index::SearchIndex;
use orange::metrics::{WalkMetrics, WalkPhase};
use orange::text::{file_ext, find_last, path2name, walk_key};

fn sample() -> SearchIndex {
    let mut index = SearchIndex::new();
    index.add("report.pdf".to_string(), "/d/report.pdf".to_string(), false, "pdf".to_string());
    index.add("repo.git".to_string(), "/d/repo.git".to_string(), true, "git".to_string());
    index.add("readme.md".to_string(), "/d/readme.md".to_string(), false, "md".to_string());
    index.commit();
    index
}

#[test]
fn suggest_matches_prefix_only() {
    let index = sample();
    let got: Vec<String> = suggest(&index, "rep").iter().map(|d| d.name.clone()).collect();
    assert_eq!(got, vec!["report.pdf".to_string(), "repo.git".to_string()]);
}

#[test]
fn suggest_ignores_case() {
    let index = sample();
    let got: Vec<String> = suggest(&index, "REP").iter().map(|d| d.name.clone()).collect();
    assert_eq!(got.len(), 2);
    assert_eq!(index.suggest("re", 1).len(), 1);
}

#[test]
fn empty_search_returns_directories_up_to_limit() {
    let mut index = SearchIndex::new();
    for i in 0..150 {
        index.add(format!("d{}", i), format!("/x/d{}", i), true, String::new());
        index.add(format!("f{}.txt", i), format!("/x/f{}.txt", i), false, "txt".to_string());
    }
    index.commit();
    let r = search(&index, "".to_string(), Some(true), None);
    assert_eq!(r.docs.len(), 100);
    assert_eq!(r.total, 150);
    assert!(r.docs.iter().all(|d| d.is_dir));
}

#[test]
fn search_filters_by_extension_and_substring() {
    let index = sample();
    let r = search(&index, "*".to_string(), None, Some("md".to_string()));
    assert_eq!(r.total, 1);
    assert_eq!(r.docs[0].name, "readme.md");
    let r = search(&index, "EPO".to_string(), None, None);
    assert_eq!(r.total, 2);
    let r = search(&index, "EPO".to_string(), Some(false), None);
    assert_eq!(r.total, 1);
    assert_eq!(r.docs[0].name, "report.pdf");
    let r = search(&index, "zzz".to_string(), None, None);
    assert_eq!(r.total, 0);
}

#[test]
fn add_is_invisible_until_commit() {
    let mut index = sample();
    index.add("new.txt".to_string(), "/d/new.txt".to_string(), false, "txt".to_string());
    assert_eq!(index.num_docs(), 3);
    assert_eq!(search(&index, "*".to_string(), None, None).total, 3);
    index.commit();
    assert_eq!(index.num_docs(), 4);
    assert_eq!(search(&index, "*".to_string(), None, None).total, 4);
}

#[test]
fn same_path_twice_keeps_latest() {
    let mut index = SearchIndex::new();
    index.add("x".to_string(), "/p/x".to_string(), false, "".to_string());
    index.add("x".to_string(), "/p/x".to_string(), true, "".to_string());
    index.commit();
    index.add("x".to_string(), "/p/x".to_string(), false, "old".to_string());
    index.commit();
    assert_eq!(index.num_docs(), 1);
    let r = search(&index, "*".to_string(), None, None);
    assert_eq!(r.docs[0].ext, "old");
    assert!(!r.docs[0].is_dir);
}

#[test]
fn exclusion_list_edits() {
    let mut policy = ExclusionPolicy::new();
    assert_eq!(add_exclude_path(&mut policy, "/".to_string()), 1);
    assert_eq!(add_exclude_path(&mut policy, "/a".to_string()), 0);
    assert_eq!(add_exclude_path(&mut policy, "/a".to_string()), 1);
    assert_eq!(add_exclude_path(&mut policy, "/b".to_string()), 0);
    assert_eq!(get_exclude_paths(&policy), vec!["/a".to_string(), "/b".to_string()]);
    assert!(policy.matches("/a/b/c"));
    assert!(!policy.matches("/c"));
    remove_exclude_path(&mut policy, "/a".to_string());
    assert_eq!(get_exclude_paths(&policy), vec!["/b".to_string()]);
    assert!(!policy.matches("/a/b/c"));
}

#[test]
fn path_helpers() {
    assert_eq!(path2name("/home/user/b.txt"), "b.txt");
    assert_eq!(path2name("noslash"), "noslash");
    assert_eq!(file_ext("b.txt"), "txt");
    assert_eq!(file_ext("a.tar.gz"), "gz");
    assert_eq!(file_ext(".bashrc"), "");
    assert_eq!(file_ext("Makefile"), "");
    assert_eq!(find_last("a/b/c", '/'), Some(3));
    assert_eq!(walk_key("/home"), "walk:stat:/home");
}

#[test]
fn walk_matrix_snapshot() {
    let index = sample();
    let mut metrics = WalkMetrics::new();
    assert_eq!(get_walk_matrix(&metrics, &index).percent, 0);
    metrics.start_home(10);
    assert_eq!(metrics.phase, WalkPhase::HomeScan { started_at: 10 });
    metrics.end_home(20);
    metrics.root_inc_percent(1, 3);
    let v = get_walk_matrix(&metrics, &index);
    assert_eq!(v.percent, 33);
    assert_eq!(v.doc_count, 3);
    metrics.root_inc_percent(1, 4);
    assert_eq!(get_walk_matrix(&metrics, &index).percent, 33);
    metrics.root_inc_percent(3, 3);
    assert_eq!(get_walk_matrix(&metrics, &index).percent, 100);
    metrics.end_walk();
    assert_eq!(get_walk_matrix(&metrics, &index).phase, WalkPhase::Idle);
}
