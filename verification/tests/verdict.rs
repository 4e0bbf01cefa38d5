use benford::digit_count::DigitCount;
use benford::lines::get_counts;
use benford::significance::SignificanceLevel;

fn target(digit: u32) -> f64 {
    (1.0 + 1.0 / f64::from(digit)).log10()
}

fn shares(dc: &DigitCount) -> [f64; 9] {
    let total = dc.total() as f64;
    dc.counts().map(|count| count as f64 / total)
}

fn score(dc: &DigitCount) -> f64 {
    let found = shares(dc);
    let mut sum: f64 = 0.0;
    let mut d: u32 = 1;
    while d <= 9 {
        sum += (found[(d - 1) as usize] - target(d)).powi(2);
        d += 1;
    }
    (dc.total() as f64 * sum).sqrt()
}

fn passes(dc: &DigitCount, level: SignificanceLevel) -> bool {
    score(dc) < f64::from(level.value_thousandths()) / 1000.0
}

/// The powers of two from 2^0 on, in decimal, one on each line.
fn powers_of_two(lines: usize) -> String {
    let mut text = String::new();
    let mut digits: Vec<u8> = vec![1];
    let mut n: usize = 0;
    while n < lines {
        let line: String = digits.iter().rev().map(|d| char::from(b'0' + *d)).collect();
        text.push_str(&line);
        text.push('\n');
        let mut carry: u8 = 0;
        for d in digits.iter_mut() {
            let doubled: u8 = *d * 2 + carry;
            *d = doubled % 10;
            carry = doubled / 10;
        }
        if carry > 0 {
            digits.push(carry);
        }
        n += 1;
    }
    text
}

/// Numbers between 100000 and 999999 whose leading digits come up equally
/// often, from a fixed linear congruential sequence.
fn evenly_spread(lines: usize) -> String {
    let mut text = String::new();
    let mut state: u64 = 12345;
    let mut n: usize = 0;
    while n < lines {
        state = state.wrapping_mul(6364136223846793005).wrapping_add(1442695040888963407);
        let number: u64 = 100000 + (state >> 33) % 900000;
        text.push_str(&format!("{}\n", number));
        n += 1;
    }
    text
}

#[test]
fn test_fail() {
    let dc = get_counts(&evenly_spread(1000));
    assert_eq!(dc.total(), 1000);
    assert!(!passes(&dc, SignificanceLevel::Adot01));
}

#[test]
fn test_pass() {
    let dc = get_counts(&powers_of_two(1000));
    assert_eq!(dc.total(), 1000);
    assert!(passes(&dc, SignificanceLevel::Adot01));
}

#[test]
fn powers_of_two_leading_digits() {
    // 1, 2, 4, 8, 16, 32, 64, 128, 256, 512, 1024, 2048, 4096, 8192, 16384, 32768
    let dc = get_counts(&powers_of_two(16));
    assert_eq!(dc.total(), 16);
    assert_eq!(dc.counts(), [5, 3, 2, 2, 1, 1, 0, 2, 0]);
}

#[test]
fn powers_of_two_pass_at_every_level() {
    let dc = get_counts(&powers_of_two(1000));
    assert!(passes(&dc, SignificanceLevel::Adot1));
    assert!(passes(&dc, SignificanceLevel::Adot05));
    assert!(passes(&dc, SignificanceLevel::Adot01));
}

#[test]
fn target_shares_sum_to_one() {
    let mut sum: f64 = 0.0;
    let mut d: u32 = 1;
    while d <= 9 {
        sum += target(d);
        d += 1;
    }
    assert!((sum - 1.0).abs() < 1e-9);
    assert!((target(1) - 0.30102999566398120).abs() < 1e-15);
    assert!((target(9) - 0.04575749056067513).abs() < 1e-15);
}

#[test]
fn found_shares_sum_to_one() {
    let texts: [&str; 3] = ["1", "12\n-3\n45\n0\n9\n7\n7", "3\n3\n3\n4\n5\n6\n1\n2\n8\n9\n9"];
    for text in texts.iter() {
        let dc = get_counts(text);
        assert!(dc.total() > 0);
        let sum: f64 = shares(&dc).iter().sum();
        assert!((sum - 1.0).abs() < 1e-9, "text {:?}", text);
    }
}

#[test]
fn score_is_not_negative() {
    let texts: [&str; 3] = ["1", "12\n-3\n45\n0\n9\n7\n7", "3\n3\n3\n4\n5\n6\n1\n2\n8\n9\n9"];
    for text in texts.iter() {
        let dc = get_counts(text);
        assert!(score(&dc) >= 0.0, "text {:?}", text);
    }
}

#[test]
fn score_of_a_single_one() {
    // One observation of digit 1: the shares are 1, 0, ..., 0.
    let dc = get_counts("1");
    let mut sum: f64 = (1.0 - target(1)).powi(2);
    let mut d: u32 = 2;
    while d <= 9 {
        sum += target(d).powi(2);
        d += 1;
    }
    assert!((score(&dc) - sum.sqrt()).abs() < 1e-12);
    assert!((score(&dc) - 0.750595346229053).abs() < 1e-12);
}

#[test]
fn empty_text_fails_at_every_level() {
    for text in ["", "\n"].iter() {
        let dc = get_counts(text);
        assert_eq!(dc.total(), 0);
        assert_eq!(dc, DigitCount::default());
        for share in shares(&dc).iter() {
            assert!(!share.is_finite());
        }
        assert!(score(&dc).is_nan());
        assert!(!passes(&dc, SignificanceLevel::Adot1));
        assert!(!passes(&dc, SignificanceLevel::Adot05));
        assert!(!passes(&dc, SignificanceLevel::Adot01));
    }
}

#[test]
fn text_without_leading_digits_fails_at_every_level() {
    let dc = get_counts("-1\n0.5\nabc\n\n 7");
    assert_eq!(dc.total(), 0);
    assert!(!passes(&dc, SignificanceLevel::Adot1));
    assert!(!passes(&dc, SignificanceLevel::Adot05));
    assert!(!passes(&dc, SignificanceLevel::Adot01));
}
