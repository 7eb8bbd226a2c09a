use nice::choice::{ChoiceError, WeightedChoice};

#[test]
fn no_weights_is_no_item() {
    let r = WeightedChoice::new(vec!['a'], vec![]);
    assert_eq!(r.err(), Some(ChoiceError::NoItem));
}

#[test]
fn zero_weights_are_all_weights_zero() {
    let r = WeightedChoice::new(vec!['a', 'b'], vec![0, 0]);
    assert_eq!(r.err(), Some(ChoiceError::AllWeightsZero));
}

#[test]
fn draws_come_from_the_choices() {
    let c = WeightedChoice::new(vec!['a', 'b', 'c'], vec![2, 1, 1]).ok().unwrap();
    let items = c.draw(100);
    assert_eq!(items.len(), 100);
    assert!(items.iter().all(|x| ['a', 'b', 'c'].contains(x)));
}

#[test]
fn zero_weight_items_are_never_drawn() {
    let c = WeightedChoice::new(vec!['a', 'b', 'c'], vec![0, 5, 0]).ok().unwrap();
    let items = c.draw(50);
    assert!(items.iter().all(|x| *x == 'b'));
}

#[test]
fn pick_with_own_generator() {
    let c = WeightedChoice::new(vec![10u8, 20, 30], vec![0, 0, 1]).ok().unwrap();
    let mut rng = rand::thread_rng();
    for _ in 0..20 {
        assert_eq!(c.pick(&mut rng), 30);
    }
}

#[test]
fn heavier_items_come_more_often() {
    let c = WeightedChoice::new(vec!['a', 'b'], vec![1000, 1]).ok().unwrap();
    let items = c.draw(200);
    let a = items.iter().filter(|x| **x == 'a').count();
    assert!(a > 150);
}

#[test]
fn random_delays_stay_in_range() {
    let mut rng = rand::thread_rng();
    for _ in 0..200 {
        let d = nice::choice::random_delay_ms(&mut rng);
        assert!((500..2000).contains(&d));
    }
}

#[test]
fn zero_weights_past_the_items_are_accepted() {
    let c = WeightedChoice::new(vec!['a', 'b'], vec![0, 3, 0, 0]).ok().unwrap();
    assert!(c.draw(30).iter().all(|x| *x == 'b'));
}

#[test]
fn item_at_gives_the_item_of_a_position() {
    let c = WeightedChoice::new(vec!['x', 'y', 'z'], vec![1, 1, 1]).ok().unwrap();
    assert_eq!(c.item_at(0), 'x');
    assert_eq!(c.item_at(2), 'z');
}
