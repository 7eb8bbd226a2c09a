use nice::keyed::{find_key, remove_key};
use nice::round_robin::RoundRobin;

fn sample() -> RoundRobin<u32> {
    let mut rr = RoundRobin::new();
    rr.insert("a".to_string(), 1);
    rr.insert("b".to_string(), 2);
    rr.insert("c".to_string(), 3);
    rr
}

#[test]
fn empty_selector_is_pending() {
    let mut rr: RoundRobin<u32> = RoundRobin::new();
    assert_eq!(rr.poll_ready(), None);
    assert_eq!(rr.poll_ready(), None);
    rr.insert("a".to_string(), 1);
    // The counter did not move while nothing was connected.
    assert_eq!(rr.poll_ready(), Some(0));
}

#[test]
fn picks_go_round() {
    let mut rr = sample();
    let picks: Vec<Option<usize>> = (0..7).map(|_| rr.poll_ready()).collect();
    assert_eq!(
        picks,
        vec![Some(0), Some(1), Some(2), Some(0), Some(1), Some(2), Some(0)]
    );
}

#[test]
fn each_endpoint_once_per_round() {
    let mut rr = sample();
    rr.poll_ready();
    let mut seen: Vec<usize> = (0..3).map(|_| rr.poll_ready().unwrap()).collect();
    seen.sort();
    assert_eq!(seen, vec![0, 1, 2]);
}

#[test]
fn get_returns_the_channel() {
    let mut rr = sample();
    let i = rr.poll_ready().unwrap();
    assert_eq!(*rr.get(i), 1);
    let j = rr.poll_ready().unwrap();
    assert_eq!(*rr.get(j), 2);
}

#[test]
fn remove_drops_every_entry_of_the_key() {
    let mut rr = sample();
    rr.insert("a".to_string(), 4);
    assert_eq!(rr.len(), 4);
    rr.remove(&"a".to_string());
    assert_eq!(rr.len(), 2);
    assert_eq!(*rr.get(0), 2);
    assert_eq!(*rr.get(1), 3);
}

#[test]
fn remove_unknown_key_changes_nothing() {
    let mut rr = sample();
    rr.remove(&"zzz".to_string());
    assert_eq!(rr.len(), 3);
}

#[test]
fn insert_then_remove_is_remove() {
    let mut a = sample();
    a.insert("d".to_string(), 9);
    a.remove(&"d".to_string());
    let mut b = sample();
    b.remove(&"d".to_string());
    assert_eq!(a.len(), b.len());
    for i in 0..a.len() {
        assert_eq!(a.get(i), b.get(i));
    }
}

#[test]
fn remove_key_keeps_order() {
    let mut v = vec![
        ("x".to_string(), 1),
        ("y".to_string(), 2),
        ("x".to_string(), 3),
        ("z".to_string(), 4),
    ];
    remove_key(&mut v, &"x".to_string());
    assert_eq!(v, vec![("y".to_string(), 2), ("z".to_string(), 4)]);
}

#[test]
fn find_key_finds_the_position() {
    let v = vec![("x".to_string(), 1), ("y".to_string(), 2)];
    assert_eq!(find_key(&v, &"y".to_string()), Some(1));
    assert_eq!(find_key(&v, &"q".to_string()), None);
}
