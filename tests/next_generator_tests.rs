use std::collections::HashMap;
use tetris::mino::Mino;
use tetris::next_generator::{DefaultNextGenerator, NextGenerator, shuffled_bag};
use tetris::random_source::RandomSource;

/// A small xorshift generator standing in for a random number source.
struct XorShift(u64);

impl RandomSource for XorShift {
    fn next_random(&mut self) -> usize {
        let mut x = self.0;
        x ^= x << 13;
        x ^= x >> 7;
        x ^= x << 17;
        self.0 = x;
        x as usize
    }
}

/// Always draws the same number.
struct Constant(usize);

impl RandomSource for Constant {
    fn next_random(&mut self) -> usize {
        self.0
    }
}

#[test]
fn next_generator_test_generate() {
    let mut nx = DefaultNextGenerator::new(XorShift(0x2545_f491_4f6c_dd1d));
    for _ in 0..10 {
        nx.generate();
    }
}

#[test]
fn test_get_next() {
    let mut nx = DefaultNextGenerator::new(XorShift(0x9e37_79b9_7f4a_7c15));
    nx.generate();
    let mut count_some = 0;
    let mut count_none = 0;
    for i in 0..10 {
        match nx.get_next(i) {
            Some(_) => {
                count_some += 1;
            }
            None => {
                count_none += 1;
            }
        }
    }
    assert!(!(count_some == 0 || count_none == 0));
}

#[test]
fn test_next() {
    let num_iter = 100;
    let mut ng = DefaultNextGenerator::new(XorShift(0x1234_5678_9abc_def1));
    let mut count_next_mino = HashMap::new();
    for _ in 0..7 * num_iter {
        let next_mino = ng.next();
        let shape = next_mino.get_shape();
        let mut key = 0;
        for i in 0..next_mino.get_size() {
            for j in 0..next_mino.get_size() {
                if shape[i][j] {
                    key += 1 << i * next_mino.get_size() + j;
                }
            }
        }
        let count = count_next_mino.entry(key).or_insert(0);
        *count += 1;
    }
    assert_eq!(count_next_mino.len(), 7);
    for v in count_next_mino.values() {
        assert_eq!(*v, num_iter)
    }
}

#[test]
fn each_bag_holds_every_kind_once() {
    let mut ng = DefaultNextGenerator::new(XorShift(77));
    for _ in 0..20 {
        let mut seen: Vec<Mino> = Vec::new();
        for _ in 0..7 {
            let m = ng.next();
            assert!(!seen.contains(&m));
            seen.push(m);
        }
    }
}

#[test]
fn queue_refills_at_one_bag_left() {
    let mut ng = DefaultNextGenerator::new(Constant(0));
    assert!(ng.get_next(0).is_none());
    ng.next();
    assert!(ng.get_next(5).is_some());
    assert!(ng.get_next(6).is_none());
    ng.next();
    assert!(ng.get_next(11).is_some());
    assert!(ng.get_next(12).is_none());
}

#[test]
fn unshuffled_bag_keeps_catalog_order() {
    let mut ng = DefaultNextGenerator::new(Constant(0));
    let got: Vec<Mino> = (0..7).map(|_| ng.next()).collect();
    assert_eq!(got, vec![Mino::T, Mino::S, Mino::Z, Mino::L, Mino::J, Mino::I, Mino::O]);
}

#[test]
fn peeking_does_not_consume() {
    let mut ng = DefaultNextGenerator::new(XorShift(5));
    ng.generate();
    let first = *ng.get_next(0).unwrap();
    let again = *ng.get_next(0).unwrap();
    assert_eq!(first, again);
    assert_eq!(ng.next(), first);
}

/// Counts the numbers drawn from it.
struct Counting(usize);

impl RandomSource for Counting {
    fn next_random(&mut self) -> usize {
        self.0 += 1;
        self.0
    }
}

#[test]
fn shuffled_bag_follows_the_draws() {
    assert_eq!(
        shuffled_bag(&vec![0; 14]),
        vec![Mino::T, Mino::S, Mino::Z, Mino::L, Mino::J, Mino::I, Mino::O]
    );
    let mut draws = vec![0; 14];
    draws[0] = 7;
    draws[1] = 8;
    assert_eq!(
        shuffled_bag(&draws),
        vec![Mino::S, Mino::T, Mino::Z, Mino::L, Mino::J, Mino::I, Mino::O]
    );
    let draws = vec![0, 6, 1, 5, 2, 4, 0, 1, 3, 3, 13, 20, 9, 16];
    assert_eq!(
        shuffled_bag(&draws),
        vec![Mino::I, Mino::O, Mino::J, Mino::L, Mino::Z, Mino::S, Mino::T]
    );
}

#[test]
fn a_refill_draws_fourteen_numbers() {
    let mut ng = DefaultNextGenerator::new(Counting(0));
    ng.next();
    ng.generate();
    // 14 draws for the refill in next, 14 for the explicit one: the draws
    // 15..=28 shuffle the second bag exactly as shuffled_bag says
    let draws: Vec<usize> = (15..=28).collect();
    let expected = shuffled_bag(&draws);
    for (i, m) in expected.iter().enumerate() {
        assert_eq!(ng.get_next(6 + i), Some(m));
    }
}
