use nice::chans::Chans;

#[test]
fn pick_from_empty_is_none() {
    let c: Chans<&str> = Chans::new();
    assert_eq!(c.pick_chan(0), None);
}

#[test]
fn pick_gives_the_sampled_channel() {
    let mut c = Chans::new();
    c.add_chan("a".to_string(), "chan-a");
    c.add_chan("b".to_string(), "chan-b");
    assert_eq!(c.pick_chan(0), Some(&"chan-a"));
    assert_eq!(c.pick_chan(1), Some(&"chan-b"));
    assert_eq!(c.pick_chan(2), None);
}

#[test]
fn remove_chan_drops_the_key() {
    let mut c = Chans::new();
    c.add_chan("a".to_string(), 1);
    c.add_chan("b".to_string(), 2);
    c.remove_chan(&"a".to_string());
    assert_eq!(c.len(), 1);
    assert_eq!(c.pick_chan(0), Some(&2));
    assert_eq!(*c.get(0), 2);
}
