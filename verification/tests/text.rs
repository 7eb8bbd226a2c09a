use nice::text::{
    default_name, demo_nums, endpoint_uri, greeting, push_decimal, request_body, to_decimal,
    worker_reply, worker_tag,
};

#[test]
fn decimal_of_zero() {
    assert_eq!(to_decimal(0), "0");
}

#[test]
fn decimal_of_numbers() {
    assert_eq!(to_decimal(7), "7");
    assert_eq!(to_decimal(10), "10");
    assert_eq!(to_decimal(305), "305");
    assert_eq!(to_decimal(u64::MAX), "18446744073709551615");
}

#[test]
fn decimal_matches_std_formatting() {
    for n in [1u64, 9, 99, 100, 1234567, 4294967296] {
        assert_eq!(to_decimal(n), format!("{}", n));
    }
}

#[test]
fn push_decimal_appends() {
    let mut s = String::from("n=");
    push_decimal(&mut s, 42);
    assert_eq!(s, "n=42");
}

#[test]
fn request_body_is_the_number() {
    assert_eq!(request_body(42), "42");
    assert_eq!(request_body(0), "0");
}

#[test]
fn greeting_names_the_person() {
    assert_eq!(greeting("World"), "Hello, World!");
    assert_eq!(greeting(""), "Hello, !");
}

#[test]
fn default_name_is_alexander() {
    assert_eq!(default_name(), "Alexander");
}

#[test]
fn demo_nums_are_one_to_six() {
    assert_eq!(demo_nums(), vec![1, 2, 3, 4, 5, 6]);
}

#[test]
fn worker_reply_format() {
    assert_eq!(worker_reply(3, "hi"), ">>> worker3 => hi");
    assert_eq!(worker_reply(12, ""), ">>> worker12 => ");
}

#[test]
fn worker_tag_format() {
    assert_eq!(worker_tag(0), "worker-0");
    assert_eq!(worker_tag(12), "worker-12");
}

#[test]
fn endpoint_uri_format() {
    assert_eq!(endpoint_uri("10.0.0.1"), "http://10.0.0.1:7788");
    assert_eq!(endpoint_uri("::1"), "http://::1:7788");
}

#[test]
fn demo_nums_hold_exactly_six() {
    let v = demo_nums();
    assert_eq!(v.len(), 6);
    assert_eq!(v.capacity(), 6);
}
