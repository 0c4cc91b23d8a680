use zeptoclaw::utils::ratio::{add_counts, count_bytes, Quantity, Ratio};
use zeptoclaw::utils::text::{
    chars_of, first_word, has_prefix, prefix_of, same_text, split_at_space, split_words, suffix_of,
    to_decimal, trim, trim_start, white_space,
};

struct Source(u64);

impl Source {
    fn next(&mut self) -> u64 {
        self.0 = self.0.wrapping_mul(6364136223846793005).wrapping_add(1442695040888963407);
        self.0 ^ (self.0 >> 29)
    }
}

fn ratio(x: f64) -> Ratio {
    Ratio::from_bits(x.to_bits())
}

fn numbers() -> Vec<f64> {
    let mut all = vec![
        0.0,
        -0.0,
        1.0,
        -1.0,
        0.5,
        0.70,
        0.75,
        0.85,
        0.90,
        0.95,
        1.2,
        4.0,
        1e-320,
        5e-324,
        2.2250738585072014e-308,
        1e-17,
        1e17,
        1e300,
        f64::MAX,
        f64::INFINITY,
        f64::NEG_INFINITY,
        f64::NAN,
    ];
    let mut source = Source(3);
    for _ in 0..300 {
        all.push(f64::from_bits(source.next()));
        all.push((source.next() % 2_000) as f64 / 1_000.0);
    }
    all
}

fn counts() -> Vec<usize> {
    let mut all = vec![
        0,
        1,
        2,
        3,
        100,
        180_000,
        (1 << 53) - 1,
        1 << 53,
        (1 << 53) + 1,
        (1 << 54) + 2,
        (1 << 54) + 6,
        usize::MAX - 1,
        usize::MAX,
    ];
    let mut source = Source(11);
    for i in 0..60 {
        all.push((source.next() >> (i % 60)) as usize);
    }
    all
}

#[test]
fn fractions_of_counts_match_floating_point() {
    for x in numbers() {
        for n in counts() {
            assert_eq!(ratio(x).of(n), (n as f64 * x) as usize, "{n} {x}");
        }
    }
}

#[test]
fn scaled_counts_match_floating_point() {
    for x in numbers() {
        for n in counts() {
            let quarters = count_bytes(n as u128, true);
            assert_eq!(quarters as f64, n as f64 * 2.0);
            assert_eq!(
                ratio(x).scale(quarters),
                (n as f64 / 2.0 * x) as usize,
                "{n} {x}"
            );
        }
    }
}

#[test]
fn comparisons_match_floating_point() {
    let ns = counts();
    for x in numbers() {
        for (i, n) in ns.iter().enumerate() {
            let (a, b) = (*n as f64, n_th(&ns, i * 7 + 3) as f64);
            let quotient = Quantity::quotient(*n, n_th(&ns, i * 7 + 3));
            assert_eq!(quotient.at_most(ratio(x).value()), a / b <= x);
            let quotient = Quantity::quotient(*n, n_th(&ns, i * 7 + 3));
            assert_eq!(quotient.above(ratio(x).value()), a / b > x);
            assert_eq!(Quantity::whole(*n).above(ratio(x).times(n_th(&ns, i + 5))), {
                a > n_th(&ns, i + 5) as f64 * x
            });
        }
    }
}

fn n_th(ns: &[usize], i: usize) -> usize {
    ns[i % ns.len()]
}

#[test]
fn numbers_compare_as_floating_point_does() {
    let all = numbers();
    for x in &all {
        for y in &all {
            assert_eq!(ratio(*x).value().at_most(ratio(*y).value()), x <= y, "{x} {y}");
            assert_eq!(ratio(*x).value().above(ratio(*y).value()), x > y, "{x} {y}");
        }
    }
}

#[test]
fn sums_match_floating_point() {
    for a in counts() {
        for b in counts() {
            let sum = add_counts(count_bytes(a as u128, false), count_bytes(b as u128, true));
            assert_eq!(sum as f64 / 4.0, a as f64 / 4.0 + b as f64 / 2.0);
        }
    }
    let ceiling: u128 = 1 << 126;
    assert_eq!(add_counts(ceiling, ceiling), ceiling);
}

#[test]
fn white_space_is_what_unicode_says() {
    for code in 0..=0x10ffff_u32 {
        if let Some(c) = char::from_u32(code) {
            assert_eq!(white_space(c), c.is_whitespace(), "{code:x}");
        }
    }
}

#[test]
fn words_and_trimming_match_std() {
    let pieces = ["a", "é", " ", "\t", "\u{3000}", "\n", "word", "\u{85}", "x y"];
    let mut source = Source(5);
    for _ in 0..2_000 {
        let mut s = String::new();
        for _ in 0..source.next() % 9 {
            s.push_str(pieces[(source.next() >> 20) as usize % pieces.len()]);
        }
        assert_eq!(split_words(&s), s.split_whitespace().collect::<Vec<&str>>());
        assert_eq!(first_word(&s).as_deref(), s.split_whitespace().next());
        assert_eq!(trim(&s), s.trim());
        assert_eq!(trim_start(&s), s.trim_start());
        let split = s.split_once(char::is_whitespace);
        let ours = split_at_space(&s);
        assert_eq!(ours.as_ref().map(|(a, b)| (a.as_str(), b.as_str())), split);
        assert_eq!(chars_of(&s), s.chars().collect::<Vec<char>>());
        for n in 0..s.len() + 2 {
            let p = prefix_of(&s, n);
            assert!(s.starts_with(p) && p.len() <= n);
            let next = s[p.len()..].chars().next();
            assert!(next.map_or(true, |c| p.len() + c.len_utf8() > n));
            let q = suffix_of(&s, n);
            assert!(s.ends_with(q) && q.len() <= n);
            let next = s[..s.len() - q.len()].chars().last();
            assert!(next.map_or(true, |c| q.len() + c.len_utf8() > n));
        }
    }
}

#[test]
fn texts_compare_as_in_std() {
    for a in ["", "a", "ab", "é", "ée", "http://x", "https://x", "http:/x"] {
        for b in ["", "a", "ab", "é", "http://", "https://"] {
            assert_eq!(same_text(a, b), a == b);
            assert_eq!(has_prefix(a, b), a.starts_with(b));
        }
    }
}

#[test]
fn decimals_match_std() {
    for n in [0, 1, 9, 10, 11, 99, 100, 101, 12_345, u64::MAX - 1, u64::MAX] {
        assert_eq!(to_decimal(n), n.to_string());
    }
}
