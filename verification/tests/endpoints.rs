use nice::endpoints::{
    contains_name, dedup_names, diff_endpoints, insert_change, names_not_in, plan_changes,
    resolved_uris, EndpointChange, EndpointDiff, EndpointSet,
};

fn strings(v: &[&str]) -> Vec<String> {
    v.iter().map(|s| s.to_string()).collect()
}

fn sorted(mut v: Vec<String>) -> Vec<String> {
    v.sort();
    v
}

#[test]
fn contains_name_finds_strings() {
    let v = strings(&["a", "b"]);
    assert!(contains_name(&v, &"b".to_string()));
    assert!(!contains_name(&v, &"c".to_string()));
}

#[test]
fn names_not_in_is_set_difference() {
    let a = strings(&["x", "y", "x", "z"]);
    let b = strings(&["y"]);
    assert_eq!(names_not_in(&a, &b), strings(&["x", "z"]));
}

#[test]
fn dedup_keeps_first_occurrences() {
    assert_eq!(dedup_names(&strings(&["b", "a", "b", "a"])), strings(&["b", "a"]));
}

#[test]
fn resolved_hosts_become_uris() {
    let uris = resolved_uris(&strings(&["10.0.0.1", "10.0.0.2", "10.0.0.1"]));
    assert_eq!(
        uris,
        strings(&["http://10.0.0.1:7788", "http://10.0.0.2:7788"])
    );
}

#[test]
fn diff_of_two_rounds() {
    let old = strings(&["http://180.97.34.96:7788", "http://180.97.34.86:7788"]);
    let new = strings(&["http://180.97.34.96:7788", "http://110.242.68.66:7788"]);
    let d = diff_endpoints(&old, &new);
    assert_eq!(d.added, strings(&["http://110.242.68.66:7788"]));
    assert_eq!(d.removed, strings(&["http://180.97.34.86:7788"]));
}

#[test]
fn same_round_changes_nothing() {
    let old = strings(&["a", "b"]);
    let new = strings(&["b", "a", "a"]);
    let d = diff_endpoints(&old, &new);
    assert!(d.added.is_empty());
    assert!(d.removed.is_empty());
}

#[test]
fn applying_the_diff_gives_the_new_round() {
    let old = strings(&["a", "b", "c"]);
    let new = strings(&["c", "d", "e"]);
    let d = diff_endpoints(&old, &new);
    let mut applied: Vec<String> = old.iter().filter(|u| !d.removed.contains(u)).cloned().collect();
    applied.extend(d.added.iter().cloned());
    assert_eq!(sorted(applied), sorted(new));
    assert!(d.added.iter().all(|u| !d.removed.contains(u)));
}

#[test]
fn endpoint_set_tracks_rounds() {
    let mut set = EndpointSet::new();
    let d1 = set.update(strings(&["a", "b"]));
    assert_eq!(d1.added, strings(&["a", "b"]));
    assert!(d1.removed.is_empty());
    let d2 = set.update(strings(&["b", "c"]));
    assert_eq!(d2.added, strings(&["c"]));
    assert_eq!(d2.removed, strings(&["a"]));
}

#[test]
fn insert_change_of_valid_uri() {
    match insert_change("http://localhost:7788".to_string()) {
        Ok(EndpointChange::Insert(key, endpoint)) => {
            assert_eq!(key, "http://localhost:7788");
            assert_eq!(endpoint.uri().to_string(), "http://localhost:7788/");
        }
        _ => panic!("expected an insertion"),
    }
}

#[test]
fn insert_change_of_invalid_uri() {
    let e = insert_change("http://[::1".to_string()).err().unwrap();
    assert_eq!(e.uri, "http://[::1");
}

#[test]
fn plan_lists_insertions_then_removals() {
    let diff = EndpointDiff {
        added: strings(&["http://10.0.0.3:7788", "http://10.0.0.4:7788"]),
        removed: strings(&["http://10.0.0.1:7788"]),
    };
    let changes = plan_changes(diff).ok().unwrap();
    assert_eq!(changes.len(), 3);
    match &changes[0] {
        EndpointChange::Insert(k, e) => {
            assert_eq!(k, "http://10.0.0.3:7788");
            assert_eq!(e.uri().to_string(), "http://10.0.0.3:7788/");
        }
        _ => panic!("expected an insertion"),
    }
    match &changes[1] {
        EndpointChange::Insert(k, _) => assert_eq!(k, "http://10.0.0.4:7788"),
        _ => panic!("expected an insertion"),
    }
    match &changes[2] {
        EndpointChange::Remove(k) => assert_eq!(k, "http://10.0.0.1:7788"),
        _ => panic!("expected a removal"),
    }
}

#[test]
fn plan_names_the_first_invalid_uri() {
    let diff = EndpointDiff {
        added: strings(&["http://ok:1", "http://[bad", "http://[worse"]),
        removed: vec![],
    };
    let e = plan_changes(diff).err().unwrap();
    assert_eq!(e.uri, "http://[bad");
}
