use lot_of_cars::lifetime::Lifetime;

#[test]
fn lifetime_expires_exactly_at_the_boundary() {
    let mut l = Lifetime::new(100_000);
    assert!(l.tick(100_000));
    assert_eq!(l.remaining, 0);
    assert!(l.is_expired());
}

#[test]
fn lifetime_expires_past_the_boundary() {
    let mut l = Lifetime::new(100_000);
    assert!(l.tick(100_001));
    assert_eq!(l.remaining, 0);
    let mut l = Lifetime::new(100_000);
    assert!(l.tick(u64::MAX));
    assert_eq!(l.remaining, 0);
}

#[test]
fn lifetime_survives_a_shorter_step() {
    let mut l = Lifetime::new(100_000);
    assert!(!l.tick(50_000));
    assert_eq!(l.remaining, 50_000);
    assert!(!l.is_expired());
    assert!(!l.tick(49_999));
    assert_eq!(l.remaining, 1);
    assert!(l.tick(1));
}

#[test]
fn lifetime_ignores_an_empty_step() {
    let mut l = Lifetime::new(7);
    assert!(!l.tick(0));
    assert_eq!(l.remaining, 7);
}

#[test]
fn empty_lifetime_is_expired_from_the_start() {
    let mut l = Lifetime::new(0);
    assert!(l.is_expired());
    assert!(l.tick(0));
    assert_eq!(l.remaining, 0);
}
