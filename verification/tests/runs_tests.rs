use gemma4_fixture::prng::{name_hash, word};
use gemma4_fixture::runs::{median, pos};

#[test]
fn positions_of_the_first_runs() {
    assert_eq!(pos(0), 1763);
    assert_eq!(pos(1), 693);
    assert_eq!(pos(2), 1576);
    assert_eq!(pos(3), 596);
}

#[test]
fn positions_are_never_zero() {
    for run in 0..200 {
        let p = pos(run);
        assert!((1..=2047).contains(&p));
        let seed = name_hash(&format!("run{run}.global.pos"));
        assert_eq!(p, 1 + (word(seed, 0) % 2047) as usize);
    }
}

#[test]
fn median_of_odd_count_is_middle() {
    assert_eq!(median(&[5, 1, 3]), 3);
    assert_eq!(median(&[900, 100, 500, 700, 300]), 500);
}

#[test]
fn median_of_single_value() {
    assert_eq!(median(&[42]), 42);
}

#[test]
fn median_of_even_count_takes_upper_middle() {
    assert_eq!(median(&[4, 1]), 4);
    assert_eq!(median(&[1, 2, 3, 4]), 3);
}

#[test]
fn median_with_duplicates() {
    assert_eq!(median(&[7, 7, 1, 7, 2]), 7);
}
