use lgp_evolve::errors::EvolveError;
use lgp_evolve::registers::{RegisterValue, Registers, ZERO_KEY};

fn rv(key: u64) -> RegisterValue {
    RegisterValue { key }
}

#[test]
fn new_is_zero_filled() {
    let r = Registers::new(4);
    assert_eq!(r.len(), 4);
    for i in 0..4 {
        assert_eq!(r.get(i).unwrap(), RegisterValue::zero());
        assert_eq!(r.get(i).unwrap().key, ZERO_KEY);
    }
}

#[test]
fn reset_zeroes_every_entry() {
    let mut r = Registers::from(vec![rv(3), rv(9), rv(2), rv(77), rv(1)]);
    r.reset();
    assert_eq!(r.len(), 5);
    for i in 0..5 {
        assert_eq!(r.get(i).unwrap(), RegisterValue::zero());
    }
}

#[test]
fn reset_of_fresh_file_keeps_zeroes() {
    let mut r = Registers::new(3);
    r.reset();
    assert_eq!(r.len(), 3);
    for i in 0..3 {
        assert_eq!(r.get(i).unwrap().key, ZERO_KEY);
    }
}

#[test]
fn get_and_update_in_bounds() {
    let mut r = Registers::from(vec![rv(1), rv(2)]);
    assert_eq!(r.get(1).unwrap(), rv(2));
    r.update(1, rv(42)).unwrap();
    assert_eq!(r.get(1).unwrap(), rv(42));
    assert_eq!(r.get(0).unwrap(), rv(1));
}

#[test]
fn get_out_of_bounds_is_an_error() {
    let r = Registers::from(vec![rv(1), rv(2)]);
    assert_eq!(r.get(2), Err(EvolveError::OutOfBounds { index: 2, len: 2 }));
}

#[test]
fn update_out_of_bounds_is_an_error() {
    let mut r = Registers::from(vec![rv(1), rv(2)]);
    assert_eq!(
        r.update(5, rv(9)),
        Err(EvolveError::OutOfBounds { index: 5, len: 2 })
    );
    assert_eq!(r.get(0).unwrap(), rv(1));
    assert_eq!(r.get(1).unwrap(), rv(2));
}

#[test]
fn slice_fails_whenever_end_exceeds_len() {
    let r = Registers::from(vec![rv(1), rv(2), rv(3), rv(4)]);
    for start in 0..=6usize {
        for end in start..=6usize {
            let s = r.get_slice(start, Some(end));
            if end > 4 {
                assert!(s.is_err(), "start {start} end {end} should fail");
            } else {
                assert!(s.is_ok(), "start {start} end {end} should succeed");
            }
        }
    }
}

#[test]
fn slice_contents_are_the_requested_range() {
    let r = Registers::from(vec![rv(10), rv(20), rv(30), rv(40)]);
    let s = r.get_slice(1, Some(3)).unwrap();
    assert_eq!(s, vec![rv(20), rv(30)]);
    let single = r.get_slice(2, None).unwrap();
    assert_eq!(single, vec![rv(30)]);
    let empty = r.get_slice(2, Some(2)).unwrap();
    assert_eq!(empty, Vec::<RegisterValue>::new());
}

#[test]
fn slice_default_end_past_len_is_an_error() {
    let r = Registers::from(vec![rv(1), rv(2)]);
    assert!(r.get_slice(2, None).is_err());
    assert!(r.get_slice(1, None).is_ok());
}

#[test]
fn mut_slice_matches_slice_policy() {
    let mut r = Registers::from(vec![rv(1), rv(2), rv(3)]);
    assert_eq!(r.get_mut_slice(0, Some(2)).unwrap(), vec![rv(1), rv(2)]);
    assert!(r.get_mut_slice(0, Some(4)).is_err());
}

#[test]
fn argmax_tie_gives_no_decision() {
    // order codes standing for the values 0.3, 0.9, 0.9
    let r = Registers::from(vec![rv(3), rv(9), rv(9)]);
    assert_eq!(r.argmax(3, 1), None);
}

#[test]
fn argmax_unique_maximum_gives_the_decision() {
    // order codes standing for the values 0.1, 0.9, 0.2
    let r = Registers::from(vec![rv(1), rv(9), rv(2)]);
    assert_eq!(r.argmax(3, 1), Some(1));
}

#[test]
fn argmax_maximum_elsewhere_gives_no_decision() {
    let r = Registers::from(vec![rv(1), rv(9), rv(2)]);
    assert_eq!(r.argmax(3, 0), None);
}

#[test]
fn argmax_ignores_cells_beyond_the_class_prefix() {
    let r = Registers::from(vec![rv(5), rv(1), rv(99)]);
    assert_eq!(r.argmax(2, 0), Some(0));
}
