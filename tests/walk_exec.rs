use orange::checkpoint::KvStore;
use orange::commands::{add_exclude_path, reindex, search, suggest};
use orange::exclusion::ExclusionPolicy;
use orange::index::SearchIndex;
use orange::metrics::{WalkMetrics, WalkPhase};
use orange::text::{file_ext, path2name};
use orange::walk::{is_walked, run, should_prune, WalkAction, WalkSession, WalkStage};
use std::time::{SystemTime, UNIX_EPOCH};

/// Entries of a small file tree: path and whether it is a directory.
fn tree() -> Vec<(&'static str, bool)> {
    vec![
        ("/home", true),
        ("/home/user", true),
        ("/home/user/b.txt", false),
        ("/home/user/docs", true),
        ("/home/user/docs/report.pdf", false),
        ("/tmp", true),
        ("/tmp/a.txt", false),
    ]
}

/// Walks `root` in `tree` as the directory walker does: the root and every
/// entry below it, except those under a child directory that is pruned.
/// Returns how many entries it read.
fn fake_walk(
    entries: &[(&'static str, bool)],
    root: &str,
    skip: &Vec<String>,
    policy: &ExclusionPolicy,
    index: &mut SearchIndex,
) -> usize {
    let mut n = 0;
    for (path, is_dir) in entries {
        let under = *path == root || path.starts_with(&format!("{}/", root));
        if !under {
            continue;
        }
        let mut pruned = false;
        for (dir, dir_is_dir) in entries {
            if !*dir_is_dir || *dir == root || *dir == *path {
                continue;
            }
            let dir_below_root = dir.starts_with(&format!("{}/", root));
            let path_below_dir = path.starts_with(&format!("{}/", dir));
            if dir_below_root && path_below_dir && should_prune(policy, skip, dir) {
                pruned = true;
            }
        }
        if pruned {
            continue;
        }
        n += 1;
        let name = path2name(path);
        let ext = file_ext(&name);
        index.add(name, path.to_string(), *is_dir, ext);
    }
    n
}

/// Runs the walk to its end; returns the number of entries read.
fn run_walk(
    entries: &[(&'static str, bool)],
    home: &str,
    roots: &[&str],
    policy: &ExclusionPolicy,
    store: &mut KvStore,
    index: &mut SearchIndex,
    metrics: &mut WalkMetrics,
) -> usize {
    let mut session = WalkSession::new(home.to_string(), roots.iter().map(|r| r.to_string()).collect());
    let mut read = 0;
    let mut ok = true;
    loop {
        match run(&mut session, policy, store, index, metrics, 7, ok) {
            WalkAction::Walk { root, skip } => {
                read += fake_walk(entries, &root, &skip, policy, index);
                ok = true;
            }
            WalkAction::Done => break,
        }
    }
    assert_eq!(session.stage(), WalkStage::Finished);
    read
}

fn names(docs: &[orange::index::Document]) -> Vec<String> {
    docs.iter().map(|d| d.name.clone()).collect()
}

#[test]
fn disable_walk() {
    let dir = "/tmp";
    let conf_path = format!("{}{}", dir, "/orangecachedata/conf");
    let mut conf_store = KvStore::new(&conf_path);
    let curr_ts = SystemTime::now()
        .duration_since(UNIX_EPOCH)
        .unwrap()
        .as_secs();
    conf_store.put_str("version".to_string(), "0.3.0".to_string());
    conf_store.put_str("last_index_ts".to_string(), curr_ts.to_string());
    assert_eq!(conf_store.get_str("version"), Some("0.3.0".to_string()));
    assert_eq!(conf_store.get_str("last_index_ts"), Some(curr_ts.to_string()));
    assert_eq!(conf_store.len(), 2);
    assert_eq!(conf_store.location(), &conf_path);
}

#[test]
fn excluded_tree_is_not_indexed() {
    let mut policy = ExclusionPolicy::new();
    assert_eq!(add_exclude_path(&mut policy, "/tmp".to_string()), 0);
    let mut store = KvStore::new("conf");
    let mut index = SearchIndex::new();
    let mut metrics = WalkMetrics::new();
    run_walk(&tree(), "/home/user", &["/home", "/tmp"], &policy, &mut store, &mut index, &mut metrics);
    let r = search(&index, "*".to_string(), None, None);
    let found = names(&r.docs);
    assert!(found.contains(&"b.txt".to_string()));
    assert!(!found.contains(&"a.txt".to_string()));
    assert!(!is_walked(&store, &"/tmp".to_string()));
}

#[test]
fn second_run_walks_nothing() {
    let policy = ExclusionPolicy::new();
    let mut store = KvStore::new("conf");
    let mut index = SearchIndex::new();
    let mut metrics = WalkMetrics::new();
    let first = run_walk(&tree(), "/home/user", &["/home", "/tmp"], &policy, &mut store, &mut index, &mut metrics);
    assert!(first > 0);
    let docs = index.num_docs();
    let second = run_walk(&tree(), "/home/user", &["/home", "/tmp"], &policy, &mut store, &mut index, &mut metrics);
    assert_eq!(second, 0);
    assert_eq!(index.num_docs(), docs);
}

#[test]
fn overlapping_walks_do_not_duplicate() {
    let policy = ExclusionPolicy::new();
    let mut store = KvStore::new("conf");
    let mut index = SearchIndex::new();
    let mut metrics = WalkMetrics::new();
    run_walk(&tree(), "/home/user", &["/home", "/tmp"], &policy, &mut store, &mut index, &mut metrics);
    // all seven entries, each once, though "/home/user" is read by two walks
    assert_eq!(index.num_docs(), 7);
    let r = search(&index, "user".to_string(), None, None);
    assert_eq!(r.total, 1);
}

#[test]
fn failed_walk_is_not_checkpointed() {
    let policy = ExclusionPolicy::new();
    let mut store = KvStore::new("conf");
    let mut index = SearchIndex::new();
    let mut metrics = WalkMetrics::new();
    let mut session = WalkSession::new("/home/user".to_string(), vec!["/tmp".to_string()]);
    let a = run(&mut session, &policy, &mut store, &mut index, &mut metrics, 1, true);
    match a {
        WalkAction::Walk { root, skip } => {
            assert_eq!(root, "/home/user");
            fake_walk(&tree(), &root, &skip, &policy, &mut index);
        }
        WalkAction::Done => panic!("home walk expected"),
    }
    assert_eq!(index.num_docs(), 0);
    // the walk failed: documents are committed, no checkpoint is written
    let b = run(&mut session, &policy, &mut store, &mut index, &mut metrics, 2, false);
    assert!(index.num_docs() > 0);
    assert!(!is_walked(&store, &"/home/user".to_string()));
    match b {
        WalkAction::Walk { root, .. } => assert_eq!(root, "/tmp"),
        WalkAction::Done => panic!("root walk expected"),
    }
    // a restart walks the home directory again
    let mut again = WalkSession::new("/home/user".to_string(), vec![]);
    let c = run(&mut again, &policy, &mut store, &mut index, &mut metrics, 3, true);
    assert!(matches!(c, WalkAction::Walk { .. }));
}

#[test]
fn checkpoint_follows_commit() {
    let policy = ExclusionPolicy::new();
    let mut store = KvStore::new("conf");
    let mut index = SearchIndex::new();
    let mut metrics = WalkMetrics::new();
    let mut session = WalkSession::new("/home/user".to_string(), vec![]);
    let a = run(&mut session, &policy, &mut store, &mut index, &mut metrics, 1, true);
    assert!(matches!(a, WalkAction::Walk { .. }));
    assert!(!is_walked(&store, &"/home/user".to_string()));
    let b = run(&mut session, &policy, &mut store, &mut index, &mut metrics, 2, true);
    assert!(matches!(b, WalkAction::Done));
    assert!(is_walked(&store, &"/home/user".to_string()));
    assert_eq!(store.get_str("walk:stat:/home/user"), Some("1".to_string()));
    assert_eq!(index.num_docs(), 1);
}

#[test]
fn excluded_home_is_skipped() {
    let mut policy = ExclusionPolicy::new();
    add_exclude_path(&mut policy, "/home".to_string());
    let mut store = KvStore::new("conf");
    let mut index = SearchIndex::new();
    let mut metrics = WalkMetrics::new();
    let mut session = WalkSession::new("/home/user".to_string(), vec![]);
    let a = run(&mut session, &policy, &mut store, &mut index, &mut metrics, 1, true);
    assert!(matches!(a, WalkAction::Done));
    assert_eq!(metrics.phase, WalkPhase::Idle);
    assert_eq!(index.num_docs(), 0);
}

#[test]
fn progress_never_goes_down() {
    let policy = ExclusionPolicy::new();
    let mut store = KvStore::new("conf");
    let mut index = SearchIndex::new();
    let mut metrics = WalkMetrics::new();
    let roots: Vec<String> = vec!["/a".to_string(), "/b".to_string(), "/c".to_string(), "/d".to_string()];
    let mut session = WalkSession::new("/home/user".to_string(), roots);
    let mut last = metrics.view(0).percent;
    let mut seen = vec![];
    loop {
        let a = run(&mut session, &policy, &mut store, &mut index, &mut metrics, 5, true);
        let p = metrics.view(index.num_docs() as u64).percent;
        assert!(p >= last);
        last = p;
        seen.push(p);
        if matches!(a, WalkAction::Done) {
            break;
        }
    }
    assert_eq!(seen, vec![0, 25, 50, 75, 100, 100]);
}

#[test]
fn reindex_walks_again() {
    let policy = ExclusionPolicy::new();
    let mut store = KvStore::new("conf");
    store.put_str("version".to_string(), "0.3.0".to_string());
    let mut index = SearchIndex::new();
    let mut metrics = WalkMetrics::new();
    run_walk(&tree(), "/home/user", &["/home", "/tmp"], &policy, &mut store, &mut index, &mut metrics);
    assert_eq!(store.len(), 4);
    reindex(&mut store);
    assert_eq!(store.len(), 1);
    assert_eq!(store.get_str("version"), Some("0.3.0".to_string()));
    let read = run_walk(&tree(), "/home/user", &["/home", "/tmp"], &policy, &mut store, &mut index, &mut metrics);
    assert!(read > 0);
}

#[test]
fn prune_checks_exclusions_and_skips() {
    let mut policy = ExclusionPolicy::new();
    add_exclude_path(&mut policy, "/home/user/private".to_string());
    let skip = vec!["/proc".to_string()];
    assert!(should_prune(&policy, &skip, "/home/user/private"));
    assert!(should_prune(&policy, &skip, "/home/user/private/deep"));
    assert!(should_prune(&policy, &skip, "/proc/1"));
    assert!(!should_prune(&policy, &skip, "/home/user/public"));
}

#[test]
fn exclusion_added_mid_walk_prunes() {
    let mut policy = ExclusionPolicy::new();
    let mut store = KvStore::new("conf");
    let mut index = SearchIndex::new();
    let mut metrics = WalkMetrics::new();
    let mut session = WalkSession::new("/home/user".to_string(), vec![]);
    let a = run(&mut session, &policy, &mut store, &mut index, &mut metrics, 1, true);
    add_exclude_path(&mut policy, "/home/user/docs".to_string());
    if let WalkAction::Walk { root, skip } = a {
        fake_walk(&tree(), &root, &skip, &policy, &mut index);
    }
    run(&mut session, &policy, &mut store, &mut index, &mut metrics, 2, true);
    let found = names(&search(&index, "".to_string(), None, None).docs);
    assert!(found.contains(&"docs".to_string()));
    assert!(!found.contains(&"report.pdf".to_string()));
    assert!(suggest(&index, "rep").is_empty());
}

#[test]
fn walks_carry_their_skip_lists() {
    let policy = ExclusionPolicy::new();
    let mut store = KvStore::new("conf");
    let mut index = SearchIndex::new();
    let mut metrics = WalkMetrics::new();
    let mut session = WalkSession::new("/home/ann".to_string(), vec!["/opt".to_string()]);
    match run(&mut session, &policy, &mut store, &mut index, &mut metrics, 1, true) {
        WalkAction::Walk { root, skip } => {
            assert_eq!(root, "/home/ann");
            assert_eq!(
                skip,
                vec![
                    "/Users/ann/Library/Calendars".to_string(),
                    "/Users/ann/Library/Reminders".to_string(),
                    "/Users/ann/Library/Application Support/AddressBook".to_string(),
                ]
            );
        }
        WalkAction::Done => panic!("home walk expected"),
    }
    match run(&mut session, &policy, &mut store, &mut index, &mut metrics, 2, true) {
        WalkAction::Walk { root, skip } => {
            assert_eq!(root, "/opt");
            assert_eq!(
                skip,
                vec![
                    "/home/ann".to_string(),
                    "/proc".to_string(),
                    "/System/Volumes/Data/Users/ann".to_string(),
                ]
            );
        }
        WalkAction::Done => panic!("root walk expected"),
    }
    assert_eq!(metrics.phase, WalkPhase::RootScan { started_at: 2, completed_roots: 1, total_roots: 1 });
}

#[test]
fn failed_walk_is_reported_by_session() {
    let policy = ExclusionPolicy::new();
    let mut store = KvStore::new("conf");
    let mut index = SearchIndex::new();
    let mut metrics = WalkMetrics::new();
    let mut session = WalkSession::new("/home/ann".to_string(), vec!["/opt".to_string()]);
    run(&mut session, &policy, &mut store, &mut index, &mut metrics, 1, true);
    assert!(!session.had_failures());
    let a = run(&mut session, &policy, &mut store, &mut index, &mut metrics, 2, false);
    assert!(session.had_failures());
    // the run goes on to the next root and does not hand the failed one out again
    assert!(matches!(a, WalkAction::Walk { ref root, .. } if root == "/opt"));
    let b = run(&mut session, &policy, &mut store, &mut index, &mut metrics, 3, true);
    assert!(matches!(b, WalkAction::Done));
    assert!(session.had_failures());
    assert!(is_walked(&store, &"/opt".to_string()));
}

#[test]
fn directories_get_no_extension() {
    assert_eq!(orange::text::entry_ext("photos.d", true), "");
    assert_eq!(orange::text::entry_ext("photo.jpg", false), "jpg");
    let mut index = SearchIndex::new();
    index.add("a".to_string(), "/a".to_string(), true, String::new());
    index.commit();
    assert_eq!(index.doc_at(0).path, "/a");
}
