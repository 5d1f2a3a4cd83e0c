use runner::spread::{spread, Spread};

fn one<T>(value: T) -> Spread<T> {
    Spread::One(value)
}

fn many<T>(values: Vec<T>) -> Spread<T> {
    Spread::Many(values)
}

#[test]
fn test_spread() {
    assert_eq!(vec![1], spread(vec![one(1)]));
    assert_eq!(vec![1, 2], spread(vec![one(1), one(2)]));
    assert_eq!(vec![1, 2, 3, 4], spread(vec![one(1), one(2), one(3), one(4)]));
    assert_eq!(vec![1, 2, 3, 4], spread(vec![many(vec![1, 2]), one(3), one(4)]));
    assert_eq!(vec![1, 2, 3, 4], spread(vec![one(1), many(vec![2, 3]), one(4)]));
    assert_eq!(vec![1, 2, 3, 4], spread(vec![one(1), one(2), many(vec![3, 4])]));
    assert_eq!(vec![1, 2, 3, 4], spread(vec![many(vec![1, 2]), many(vec![3, 4])]));
    assert_eq!(vec![1, 2, 3, 4], spread(vec![many(vec![1, 2, 3, 4])]));

    assert_eq!(vec!["foo", "bar"], spread(vec![one("foo"), one("bar")]));
}

#[test]
fn nothing_spreads_to_nothing() {
    assert_eq!(Vec::<i32>::new(), spread(Vec::<Spread<i32>>::new()));
    assert_eq!(Vec::<i32>::new(), spread(vec![many(Vec::<i32>::new())]));
}

#[test]
fn spreading_distributes_over_concatenation() {
    let first = || vec![one(1), many(vec![2, 3])];
    let second = || vec![many(vec![]), one(4)];
    let mut both = first();
    both.extend(second());
    let mut expected = spread(first());
    expected.extend(spread(second()));
    assert_eq!(spread(both), expected);
}
