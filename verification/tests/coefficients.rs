use poly::Coefficients;
use poly::Rational;

#[test]
fn coefficients_grow_and_shrink_at_the_end() {
    let mut c = Coefficients::new();
    assert!(c.is_empty());
    assert_eq!(c.len(), 0);
    assert!(c.pop().is_none());
    c.push(Rational::from_i32(4));
    c.push(Rational::from_i32(5));
    assert!(!c.is_empty());
    assert_eq!(c.len(), 2);
    assert_eq!(*c.get(0), Rational::from_i32(4));
    assert_eq!(*c.get(1), Rational::from_i32(5));
    assert_eq!(c.pop(), Some(Rational::from_i32(5)));
    assert_eq!(c.len(), 1);
    assert_eq!(*c.get(0), Rational::from_i32(4));
}

#[test]
fn coefficients_are_written_in_place() {
    let items: Vec<Rational> = (1..=3).map(Rational::from_i32).collect();
    let mut c = Coefficients::from_vec(items.clone());
    assert_eq!(c.len(), 3);
    c.set(1, Rational::from_i32(20));
    c.get_mut(2).add_assign(&Rational::from_i32(30));
    let expected = vec![Rational::from_i32(1), Rational::from_i32(20), Rational::from_i32(33)];
    assert_eq!(c.clone().into_vec(), expected);
    assert_eq!(c, Coefficients::from_vec(expected));
}

#[test]
fn coefficients_reverse_and_spill_past_eight() {
    let items: Vec<Rational> = (0..12).map(Rational::from_i32).collect();
    let mut c = Coefficients::new();
    for item in items.iter() {
        c.push(item.clone());
    }
    assert_eq!(c.len(), 12);
    assert_eq!(c.clone().into_vec(), items);
    c.reverse();
    let mut reversed = items.clone();
    reversed.reverse();
    assert_eq!(c.clone().into_vec(), reversed);
    assert_eq!(*c.get(0), Rational::from_i32(11));
}
