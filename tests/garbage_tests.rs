use tetris::garbage_block_generator::{GarbageBlockGenerator, HoritetoGarbageBlockGenerator, garbage_line_from};
use tetris::mino::Color;
use tetris::random_source::RandomSource;

struct XorShift(u64);

impl RandomSource for XorShift {
    fn next_random(&mut self) -> usize {
        let mut x = self.0;
        x ^= x << 13;
        x ^= x >> 7;
        x ^= x << 17;
        self.0 = x;
        x as usize
    }
}

/// Hands out the listed numbers in turn, then zeros.
struct Script(Vec<usize>, usize);

impl RandomSource for Script {
    fn next_random(&mut self) -> usize {
        let v = if self.1 < self.0.len() { self.0[self.1] } else { 0 };
        self.1 += 1;
        v
    }
}

#[test]
fn garbage_block_generator_test_generate() {
    let mut gbg = HoritetoGarbageBlockGenerator::new(XorShift(0xdead_beef_1234_5678));
    let field_width = 10;
    let num_garbage_lines = 1000;
    let garbage_lines = gbg.generate(field_width, num_garbage_lines, Color::zero());

    assert!(garbage_lines.len() == num_garbage_lines);

    for line in garbage_lines {
        let count_hole = line.iter().fold(0, |acc, x| acc + !(x.filled) as usize);
        assert!(count_hole >= 1 && count_hole <= field_width / 2);
    }
}

#[test]
fn garbage_holes_at_drawn_columns() {
    // hole count 2 + 1 = 3 (limit 4), then columns 1, 1 (repeat), 6, 3
    let mut gbg = HoritetoGarbageBlockGenerator::new(Script(vec![2, 1, 1, 6, 3], 0));
    let color = Color { r: 100, g: 200, b: 300, a: 1000 };
    let lines = gbg.generate(8, 1, color);
    assert_eq!(lines.len(), 1);
    let filled: Vec<bool> = lines[0].iter().map(|b| b.filled).collect();
    assert_eq!(filled, vec![true, false, true, false, true, true, false, true]);
    assert!(lines[0].iter().all(|b| b.color == color));
}

#[test]
fn narrow_garbage_rows_get_one_hole() {
    let mut gbg = HoritetoGarbageBlockGenerator::new(XorShift(3));
    for line in gbg.generate(1, 5, Color::zero()) {
        assert_eq!(line.len(), 1);
        assert!(!line[0].filled);
    }
    assert!(gbg.generate(0, 2, Color::zero()).iter().all(|l| l.is_empty()));
}

#[test]
fn garbage_line_from_given_draws() {
    let color = Color { r: 1, g: 2, b: 3, a: 4 };
    let row = garbage_line_from(8, color, &vec![2, 1, 1, 6, 3, 5]);
    let filled: Vec<bool> = row.iter().map(|b| b.filled).collect();
    // three holes wanted; the draw 5 comes after the third hole and is ignored
    assert_eq!(filled, vec![true, false, true, false, true, true, false, true]);
    let row = garbage_line_from(4, color, &vec![1, 4, 10]);
    let filled: Vec<bool> = row.iter().map(|b| b.filled).collect();
    assert_eq!(filled, vec![false, true, false, true]);
    assert!(row.iter().all(|b| b.color == color));
    let row = garbage_line_from(4, color, &vec![1]);
    assert!(row.iter().all(|b| b.filled));
}

#[test]
fn garbage_row_draws_only_what_it_needs() {
    // hole count 1 (limit 1 for width 3), then one column draw
    let mut gbg = HoritetoGarbageBlockGenerator::new(Script(vec![0, 2, 0, 1, 1, 1], 0));
    let lines = gbg.generate(3, 2, Color::zero());
    let first: Vec<bool> = lines[0].iter().map(|b| b.filled).collect();
    let second: Vec<bool> = lines[1].iter().map(|b| b.filled).collect();
    assert_eq!(first, vec![true, true, false]);
    assert_eq!(second, vec![true, false, true]);
}
