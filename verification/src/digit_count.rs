use vstd::prelude::*;

verus! {

/// The tally in which nothing has been counted: nine zeros.
pub open spec fn zero_counts() -> Seq<nat> {
    Seq::new(9, |i: int| 0nat)
}

/// The tally of a single observation of `digit`: a one at the digit's place
/// (place `digit - 1`) and zeros elsewhere.
pub open spec fn unit_counts(digit: int) -> Seq<nat> {
    Seq::new(9, |i: int| if i == digit - 1 { 1nat } else { 0nat })
}

/// Place by place sum of two tallies.
pub open spec fn merge_counts(a: Seq<nat>, b: Seq<nat>) -> Seq<nat> {
    Seq::new(9, |i: int| a[i] + b[i])
}

/// Number of observations in a tally: the sum of its nine places.
pub open spec fn total_of(counts: Seq<nat>) -> nat {
    counts[0] + counts[1] + counts[2] + counts[3] + counts[4] + counts[5] + counts[6] + counts[7]
        + counts[8]
}

/// Whether `c` is one of the characters `'1'` to `'9'`.
pub open spec fn is_leading_digit(c: char) -> bool {
    '1' <= c && c <= '9'
}

/// The value of a digit character, `1` for `'1'` up to `9` for `'9'`.
pub open spec fn digit_value(c: char) -> int {
    c as int - '0' as int
}

/// The leading digit of a line: the value of its first character where that
/// character is one of `'1'` to `'9'`, and nothing otherwise. An empty line,
/// a line that starts with `'0'`, a sign, a point or a letter has none.
pub open spec fn leading_digit(line: Seq<char>) -> Option<int> {
    if line.len() > 0 && is_leading_digit(line[0]) {
        Some(digit_value(line[0]))
    } else {
        None
    }
}

/// The tally of one line: one observation of its leading digit, or nothing.
pub open spec fn line_counts(line: Seq<char>) -> Seq<nat> {
    match leading_digit(line) {
        Some(d) => unit_counts(d),
        None => zero_counts(),
    }
}

/// How often each leading digit from 1 to 9 was seen, and how many
/// observations were made in all.
///
/// The view is the sequence of the nine per-digit counts, the count of digit
/// `d` at place `d - 1`. The total is kept equal to the sum of the nine.
#[derive(Clone, Copy, Debug, PartialEq, Eq, Structural)]
pub struct DigitCount {
    total: usize,
    d1: usize,
    d2: usize,
    d3: usize,
    d4: usize,
    d5: usize,
    d6: usize,
    d7: usize,
    d8: usize,
    d9: usize,
}

impl View for DigitCount {
    type V = Seq<nat>;

    closed spec fn view(&self) -> Seq<nat> {
        seq![
            self.d1 as nat,
            self.d2 as nat,
            self.d3 as nat,
            self.d4 as nat,
            self.d5 as nat,
            self.d6 as nat,
            self.d7 as nat,
            self.d8 as nat,
            self.d9 as nat,
        ]
    }
}

impl Default for DigitCount {
    /// The empty tally.
    fn default() -> (r: DigitCount)
        ensures
            r@ == zero_counts(),
            total_of(r@) == 0,
    {
        let r = DigitCount { total: 0, d1: 0, d2: 0, d3: 0, d4: 0, d5: 0, d6: 0, d7: 0, d8: 0, d9: 0 };
        assert(r@ =~= zero_counts());
        r
    }
}

impl DigitCount {
    /// What holds of every tally that this library hands out: the total is
    /// the sum of the nine counts.
    #[verifier::type_invariant]
    pub closed spec fn total_is_sum(&self) -> bool {
        self.total == total_of(self@)
    }

    /// The tally of a single character standing at the start of a line.
    pub(crate) fn of_first(first: Option<char>) -> (r: DigitCount)
        ensures
            r@ == match first {
                Some(c) => line_counts(seq![c]),
                None => zero_counts(),
            },
    {
        let none = DigitCount::default();
        let dc = match first {
            Some('1') => DigitCount { total: 1, d1: 1, ..none },
            Some('2') => DigitCount { total: 1, d2: 1, ..none },
            Some('3') => DigitCount { total: 1, d3: 1, ..none },
            Some('4') => DigitCount { total: 1, d4: 1, ..none },
            Some('5') => DigitCount { total: 1, d5: 1, ..none },
            Some('6') => DigitCount { total: 1, d6: 1, ..none },
            Some('7') => DigitCount { total: 1, d7: 1, ..none },
            Some('8') => DigitCount { total: 1, d8: 1, ..none },
            Some('9') => DigitCount { total: 1, d9: 1, ..none },
            _ => none,
        };
        assert(dc@ =~= match first {
            Some(c) => line_counts(seq![c]),
            None => zero_counts(),
        });
        dc
    }

    /// The tally of one line of text. Only the first character counts: a line
    /// that starts with one of `'1'` to `'9'` is one observation of that digit,
    /// every other line, the empty one too, is no observation at all.
    pub fn init(number: &str) -> (r: DigitCount)
        ensures
            r@ == line_counts(number@),
            leading_digit(number@) is Some ==> total_of(r@) == 1 && forall|i: int|
                0 <= i < 9 ==> r@[i] == if i == leading_digit(number@)->0 - 1 {
                    1nat
                } else {
                    0nat
                },
            leading_digit(number@) is None ==> r@ == zero_counts() && total_of(r@) == 0,
    {
        let mut chars = number.chars();
        let first = chars.next();
        let r = DigitCount::of_first(first);
        r
    }

    /// The two tallies taken together: each count is the sum of the two
    /// counts at its place, and so is the total.
    pub fn merge(self, other: DigitCount) -> (r: DigitCount)
        requires
            total_of(self@) + total_of(other@) <= usize::MAX,
        ensures
            r@ == merge_counts(self@, other@),
            total_of(r@) == total_of(self@) + total_of(other@),
            other@ == zero_counts() ==> r == self,
            self@ == zero_counts() ==> r == other,
    {
        proof {
            use_type_invariant(&self);
            use_type_invariant(&other);
            assert(forall|i: int| 0 <= i < 9 ==> zero_counts()[i] == 0);
        }
        let r = DigitCount {
            total: self.total + other.total,
            d1: self.d1 + other.d1,
            d2: self.d2 + other.d2,
            d3: self.d3 + other.d3,
            d4: self.d4 + other.d4,
            d5: self.d5 + other.d5,
            d6: self.d6 + other.d6,
            d7: self.d7 + other.d7,
            d8: self.d8 + other.d8,
            d9: self.d9 + other.d9,
        };
        assert(r@ =~= merge_counts(self@, other@));
        r
    }

    /// The number of observations: the sum of the nine counts.
    pub fn total(&self) -> (r: usize)
        ensures
            r == total_of(self@),
    {
        proof {
            use_type_invariant(self);
        }
        self.total
    }

    /// The nine counts, that of digit `d` at index `d - 1`.
    pub fn counts(&self) -> (r: [usize; 9])
        ensures
            forall|i: int| 0 <= i < 9 ==> r[i] == self@[i],
    {
        [self.d1, self.d2, self.d3, self.d4, self.d5, self.d6, self.d7, self.d8, self.d9]
    }
}

/// Merging is commutative: the order of the two tallies does not matter.
pub proof fn lemma_merge_commutative(x: DigitCount, y: DigitCount)
    ensures
        merge_counts(x@, y@) == merge_counts(y@, x@),
{
    assert(merge_counts(x@, y@) =~= merge_counts(y@, x@));
}

/// Merging is associative: three tallies can be merged in either grouping.
pub proof fn lemma_merge_associative(x: DigitCount, y: DigitCount, z: DigitCount)
    ensures
        merge_counts(merge_counts(x@, y@), z@) == merge_counts(x@, merge_counts(y@, z@)),
{
    assert(merge_counts(merge_counts(x@, y@), z@) =~= merge_counts(x@, merge_counts(y@, z@)));
}

/// The empty tally is the identity of merging, on either side.
pub proof fn lemma_merge_identity(x: DigitCount)
    ensures
        merge_counts(x@, zero_counts()) == x@,
        merge_counts(zero_counts(), x@) == x@,
{
    assert(merge_counts(x@, zero_counts()) =~= x@);
    assert(merge_counts(zero_counts(), x@) =~= x@);
}

/// The total of a merged tally is the sum of the two totals.
pub proof fn lemma_merge_total(x: DigitCount, y: DigitCount)
    ensures
        total_of(merge_counts(x@, y@)) == total_of(x@) + total_of(y@),
{
}

/// A tally whose total is the sum of its counts has a total that fits the
/// machine's word, since the total is stored in one.
pub proof fn lemma_total_fits(x: DigitCount)
    requires
        x.total_is_sum(),
    ensures
        total_of(x@) <= usize::MAX,
{
}

/// Two tallies with the same counts are the same value, total included, as
/// long as each total is the sum of its counts.
pub proof fn lemma_counts_determine(x: DigitCount, y: DigitCount)
    requires
        x.total_is_sum(),
        y.total_is_sum(),
        x@ == y@,
    ensures
        x == y,
{
    assert(x@[0] == y@[0]);
    assert(x@[1] == y@[1]);
    assert(x@[2] == y@[2]);
    assert(x@[3] == y@[3]);
    assert(x@[4] == y@[4]);
    assert(x@[5] == y@[5]);
    assert(x@[6] == y@[6]);
    assert(x@[7] == y@[7]);
    assert(x@[8] == y@[8]);
}

} // verus!
