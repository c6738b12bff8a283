use ttl_sweep::events::FsEvent;
use ttl_sweep::path::CanonPath;
use ttl_sweep::path::path_eq;
use ttl_sweep::path::path_in_dir;
use ttl_sweep::registry::Registry;
use ttl_sweep::registry::contains_path;
use ttl_sweep::time::Timestamp;

fn p(components: &[&str]) -> CanonPath {
    CanonPath { components: components.iter().map(|c| c.as_bytes().to_vec()).collect() }
}

fn ts(secs: u64) -> Timestamp {
    Timestamp::from_secs(secs)
}

#[test]
fn insert_get_remove() {
    let mut reg = Registry::new();
    assert_eq!(reg.len(), 0);
    reg.insert_or_replace(p(&["a", "f"]), ts(100));
    assert_eq!(reg.len(), 1);
    assert_eq!(reg.get(&p(&["a", "f"])), Some(ts(100)));
    assert_eq!(reg.get(&p(&["a", "g"])), None);
    reg.remove(&p(&["a", "f"]));
    assert_eq!(reg.len(), 0);
    assert_eq!(reg.get(&p(&["a", "f"])), None);
}

#[test]
fn insert_overwrites_expiration() {
    let mut reg = Registry::new();
    reg.insert_or_replace(p(&["a", "f"]), ts(100));
    reg.insert_or_replace(p(&["a", "f"]), ts(200));
    assert_eq!(reg.len(), 1);
    assert_eq!(reg.get(&p(&["a", "f"])), Some(ts(200)));
}

#[test]
fn insert_twice_same_is_once() {
    let mut once = Registry::new();
    once.insert_or_replace(p(&["a", "f"]), ts(100));
    let mut twice = Registry::new();
    twice.insert_or_replace(p(&["a", "f"]), ts(100));
    twice.insert_or_replace(p(&["a", "f"]), ts(100));
    assert_eq!(twice.len(), once.len());
    assert_eq!(twice.get(&p(&["a", "f"])), once.get(&p(&["a", "f"])));
}

#[test]
fn remove_absent_is_noop() {
    let mut reg = Registry::new();
    reg.insert_or_replace(p(&["a", "f"]), ts(100));
    reg.remove(&p(&["other"]));
    assert_eq!(reg.len(), 1);
    assert_eq!(reg.get(&p(&["a", "f"])), Some(ts(100)));
}

#[test]
fn remove_prefix_takes_subtree_only() {
    let mut reg = Registry::new();
    reg.insert_or_replace(p(&["a", "b", "f1"]), ts(1));
    reg.insert_or_replace(p(&["a", "b2", "f2"]), ts(2));
    reg.insert_or_replace(p(&["a", "b", "c", "f3"]), ts(3));
    reg.remove_prefix(&p(&["a", "b"]));
    assert_eq!(reg.get(&p(&["a", "b", "f1"])), None);
    assert_eq!(reg.get(&p(&["a", "b", "c", "f3"])), None);
    assert_eq!(reg.get(&p(&["a", "b2", "f2"])), Some(ts(2)));
    assert_eq!(reg.len(), 1);
}

#[test]
fn sweep_candidates_are_strictly_expired() {
    let mut reg = Registry::new();
    reg.insert_or_replace(p(&["old"]), ts(100));
    reg.insert_or_replace(p(&["fresh"]), ts(300));
    reg.insert_or_replace(p(&["edge"]), ts(200));
    let due = reg.sweep_candidates(&ts(200));
    assert_eq!(due.len(), 1);
    assert!(path_eq(&due[0], &p(&["old"])));
    assert!(contains_path(&due, &p(&["old"])));
    assert!(!contains_path(&due, &p(&["edge"])));
}

#[test]
fn sweep_evicts_only_deleted_entries() {
    let mut reg = Registry::new();
    reg.insert_or_replace(p(&["gone"]), ts(100));
    reg.insert_or_replace(p(&["stuck"]), ts(150));
    reg.insert_or_replace(p(&["fresh"]), ts(900));
    let deleted = vec![p(&["gone"])];
    let count = reg.sweep(&ts(200), &deleted);
    assert_eq!(count, 1);
    assert_eq!(reg.get(&p(&["gone"])), None);
    // deletion failed for "stuck": kept, expiration unchanged, retried later
    assert_eq!(reg.get(&p(&["stuck"])), Some(ts(150)));
    assert_eq!(reg.get(&p(&["fresh"])), Some(ts(900)));
    assert_eq!(reg.len(), 2);
}

#[test]
fn sweep_with_no_deletions_keeps_everything() {
    let mut reg = Registry::new();
    reg.insert_or_replace(p(&["gone"]), ts(100));
    let count = reg.sweep(&ts(200), &Vec::new());
    assert_eq!(count, 0);
    assert_eq!(reg.get(&p(&["gone"])), Some(ts(100)));
}

#[test]
fn add_file_tracks_only_ttl_paths() {
    let mut reg = Registry::new();
    assert!(!reg.add_file(p(&["root", "plain.txt"]), &ts(1000)));
    assert_eq!(reg.len(), 0);
    assert!(reg.add_file(p(&["root", "ttl=10s", "data.bin"]), &ts(1000)));
    assert_eq!(reg.get(&p(&["root", "ttl=10s", "data.bin"])), Some(ts(1010)));
}

#[test]
fn add_file_saturates_far_expiration() {
    let mut reg = Registry::new();
    let created = Timestamp { secs: u64::MAX - 5, nanos: 0 };
    assert!(reg.add_file(p(&["ttl=10s", "f"]), &created));
    assert_eq!(
        reg.get(&p(&["ttl=10s", "f"])),
        Some(Timestamp { secs: u64::MAX, nanos: 999_999_999 }),
    );
}

#[test]
fn full_lifecycle_of_one_file() {
    // a file at root/ttl=10s/data.bin created at T0 expires at T0 + 10s
    let mut reg = Registry::new();
    let path = p(&["root", "ttl=10s", "data.bin"]);
    let t0 = ts(1_000_000);
    assert!(reg.add_file(path.clone(), &t0));
    assert_eq!(reg.get(&path), Some(ts(1_000_010)));
    // a sweep tick at T0 + 5s leaves it untouched
    assert_eq!(reg.sweep_candidates(&ts(1_000_005)).len(), 0);
    let count = reg.sweep(&ts(1_000_005), &vec![path.clone()]);
    assert_eq!(count, 0);
    assert_eq!(reg.get(&path), Some(ts(1_000_010)));
    // a sweep tick at T0 + 11s deletes it and evicts the entry
    let due = reg.sweep_candidates(&ts(1_000_011));
    assert_eq!(due.len(), 1);
    assert!(path_eq(&due[0], &path));
    let count = reg.sweep(&ts(1_000_011), &due);
    assert_eq!(count, 1);
    assert_eq!(reg.get(&path), None);
    assert_eq!(reg.len(), 0);
}

#[test]
fn rename_reextracts_ttl_from_new_path() {
    // root/report has no TTL and is untracked; renaming it to
    // root/ttl=5m/report tracks it under the new path
    let mut reg = Registry::new();
    let old_path = p(&["root", "report"]);
    assert!(!reg.add_file(old_path.clone(), &ts(50)));
    let new_path = p(&["root", "ttl=5m", "report"]);
    reg.handle_event(FsEvent::Renamed {
        old_path: old_path.clone(),
        new_path: new_path.clone(),
        created: Some(ts(60)),
    });
    assert_eq!(reg.get(&old_path), None);
    assert_eq!(reg.get(&new_path), Some(ts(360)));
}

#[test]
fn rename_away_from_ttl_untracks() {
    let mut reg = Registry::new();
    let old_path = p(&["root", "ttl=5m", "report"]);
    assert!(reg.add_file(old_path.clone(), &ts(50)));
    let new_path = p(&["root", "report"]);
    reg.handle_event(FsEvent::Renamed {
        old_path: old_path.clone(),
        new_path: new_path.clone(),
        created: Some(ts(60)),
    });
    assert_eq!(reg.get(&old_path), None);
    assert_eq!(reg.get(&new_path), None);
    assert_eq!(reg.len(), 0);
}

#[test]
fn directory_removal_clears_subtree() {
    // three tracked files under root/tmp disappear with the directory
    let mut reg = Registry::new();
    reg.add_file(p(&["root", "tmp", "ttl=1m", "a"]), &ts(10));
    reg.add_file(p(&["root", "tmp", "ttl=2m", "b"]), &ts(10));
    reg.add_file(p(&["root", "tmp", "ttl=3m", "c"]), &ts(10));
    reg.add_file(p(&["root", "tmp2", "ttl=1m", "d"]), &ts(10));
    assert_eq!(reg.len(), 4);
    reg.handle_event(FsEvent::DirRemoved { path: p(&["root", "tmp"]) });
    assert_eq!(reg.get(&p(&["root", "tmp", "ttl=1m", "a"])), None);
    assert_eq!(reg.get(&p(&["root", "tmp", "ttl=2m", "b"])), None);
    assert_eq!(reg.get(&p(&["root", "tmp", "ttl=3m", "c"])), None);
    assert_eq!(reg.get(&p(&["root", "tmp2", "ttl=1m", "d"])), Some(ts(70)));
    assert_eq!(reg.len(), 1);
}

#[test]
fn created_and_removed_events() {
    let mut reg = Registry::new();
    reg.handle_event(FsEvent::FileCreated {
        path: p(&["ttl=10s", "f"]),
        created: Some(ts(100)),
    });
    assert_eq!(reg.get(&p(&["ttl=10s", "f"])), Some(ts(110)));
    // a created file whose metadata could not be read is not tracked
    reg.handle_event(FsEvent::FileCreated { path: p(&["ttl=10s", "g"]), created: None });
    assert_eq!(reg.get(&p(&["ttl=10s", "g"])), None);
    reg.handle_event(FsEvent::FileRemoved { path: p(&["ttl=10s", "f"]) });
    assert_eq!(reg.get(&p(&["ttl=10s", "f"])), None);
    reg.handle_event(FsEvent::Other);
    assert_eq!(reg.len(), 0);
}

#[test]
fn path_containment_is_by_components() {
    assert!(path_in_dir(&p(&["a", "b", "c"]), &p(&["a", "b"])));
    assert!(path_in_dir(&p(&["a", "b"]), &p(&["a", "b"])));
    assert!(!path_in_dir(&p(&["a", "b2"]), &p(&["a", "b"])));
    assert!(!path_in_dir(&p(&["a"]), &p(&["a", "b"])));
    assert!(path_eq(&p(&["a", "b"]), &p(&["a", "b"])));
    assert!(!path_eq(&p(&["a", "b"]), &p(&["a", "b2"])));
}

#[test]
fn before_orders_instants() {
    let a = Timestamp { secs: 5, nanos: 10 };
    let b = Timestamp { secs: 5, nanos: 11 };
    let c = Timestamp { secs: 6, nanos: 0 };
    assert!(a.before(&b));
    assert!(b.before(&c));
    assert!(!b.before(&a));
    assert!(!a.before(&a));
}

#[test]
fn zero_ttl_expires_at_the_next_tick() {
    let mut reg = Registry::new();
    let path = p(&["root", "ttl=0s", "f"]);
    assert!(reg.add_file(path.clone(), &ts(500)));
    assert_eq!(reg.get(&path), Some(ts(500)));
    // expiration is not strictly before the creation instant itself
    assert_eq!(reg.sweep_candidates(&ts(500)).len(), 0);
    let due = reg.sweep_candidates(&ts(501));
    assert_eq!(due.len(), 1);
    let count = reg.sweep(&ts(501), &due);
    assert_eq!(count, 1);
    assert_eq!(reg.get(&path), None);
}
