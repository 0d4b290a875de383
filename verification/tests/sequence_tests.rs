use fibonacci_like::{FindError, IntoNumber, Sequence};
use num_bigint::BigInt;
use std::str::FromStr;

#[test]
fn test_get_500th() {
    let nth500 = BigInt::from_str("139423224561697880139724382870407283950070256587697307264108962948325571622863290691557658876222521294125").unwrap();

    let fib = Sequence::fibonacci();

    assert_eq!(fib.calculate(500), nth500);
}

#[test]
fn test_get_first() {
    let first = 1.into_number();

    let fib = Sequence::fibonacci();

    assert_eq!(fib.calculate(1), first);
}

#[test]
fn test_get_third() {
    let third = 2.into_number();

    let fib = Sequence::fibonacci();

    assert_eq!(fib.calculate(3), third);
}

#[test]
fn test_find_first() {
    let first = 1.into_number();

    let fib = Sequence::fibonacci();

    assert_eq!(fib.find(first).unwrap(), 1);
}

#[test]
fn test_find_third() {
    let third = 2.into_number();

    let fib = Sequence::fibonacci();

    assert_eq!(fib.find(third).unwrap(), 3);
}

#[test]
fn test_find_fifteenth() {
    let fifteenth = 610.into_number();

    let fib = Sequence::fibonacci();

    assert_eq!(fib.find(fifteenth).unwrap(), 15);
}

#[test]
fn test_get_fifteenth() {
    let fib = Sequence::fibonacci();

    assert_eq!(fib.calculate(15), 610.into_number());
}

#[test]
fn test_seed_identity() {
    assert_eq!(Sequence::new([5, 9]).calculate(1), 5.into_number());
    assert_eq!(Sequence::new([5, 9]).calculate(2), 9.into_number());
}

#[test]
fn test_recurrence_concrete() {
    let sixth = Sequence::new([2, 3]).calculate(6);
    let fifth = Sequence::new([2, 3]).calculate(5);
    let fourth = Sequence::new([2, 3]).calculate(4);

    assert_eq!(sixth, fifth + fourth);
}

#[test]
fn test_non_fibonacci_seed() {
    let sequence = Sequence::new([2, 3]);

    assert_eq!(sequence.calculate(4), 8.into_number());
}

#[test]
fn test_find_non_fibonacci_seed() {
    let sequence = Sequence::new([2, 3]);

    assert_eq!(sequence.find(8.into_number()).unwrap(), 4);
}

#[test]
fn test_find_absent() {
    let fib = Sequence::fibonacci();

    match fib.find(4.into_number()) {
        Ok(position) => panic!("4 should not be in the sequence, found at {position}"),
        Err(FindError::NotFound(number)) => assert_eq!(number, 4.into_number()),
    }
}

#[test]
fn test_find_absent_larger() {
    let fib = Sequence::fibonacci();

    match fib.find(100.into_number()) {
        Ok(position) => panic!("100 should not be in the sequence, found at {position}"),
        Err(FindError::NotFound(number)) => assert_eq!(number, 100.into_number()),
    }
}

#[test]
fn test_find_zero_seed() {
    assert_eq!(Sequence::new([0, 0]).find(0.into_number()).unwrap(), 1);
    assert_eq!(Sequence::new([0, 1]).find(0.into_number()).unwrap(), 1);
}

#[test]
fn test_find_negative_target_absent() {
    match Sequence::new([0, 1]).find((-2).into_number()) {
        Ok(position) => panic!("a negative value cannot appear, found at {position}"),
        Err(FindError::NotFound(number)) => assert_eq!(number, (-2).into_number()),
    }
}

#[test]
fn test_into_number() {
    assert_eq!(2.into_number(), BigInt::from(2));
    assert_eq!((-7).into_number(), BigInt::from(-7));
}

#[test]
fn test_fibonacci_seed() {
    let sequence = Sequence::new([1, 1]);
    let fib_sequence = Sequence::fibonacci();

    assert_eq!(sequence, fib_sequence);
}

#[test]
fn test_clone_calculates_alike() {
    let sequence = Sequence::new([2, 3]);
    let copy = sequence.clone();

    assert_eq!(sequence.calculate(5), copy.calculate(5));
}
