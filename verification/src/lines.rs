use crate::digit_count::{line_counts, merge_counts, total_of, zero_counts, DigitCount};
use vstd::prelude::*;
use vstd::std_specs::iter::IteratorSpec;
use vstd::utf8::encode_utf8;

verus! {

/// The lines of a text: the pieces between its newline characters, in order.
/// A text with `n` newlines has `n + 1` lines, so the empty text has one
/// empty line, and a text that ends in a newline has an empty last line.
pub open spec fn split_lines(text: Seq<char>) -> Seq<Seq<char>>
    decreases text.len(),
{
    if text.len() == 0 {
        seq![Seq::<char>::empty()]
    } else if text.last() == '\n' {
        split_lines(text.drop_last()).push(Seq::<char>::empty())
    } else {
        let before = split_lines(text.drop_last());
        before.drop_last().push(before.last().push(text.last()))
    }
}

/// The tallies of the given lines, merged from the first line to the last.
pub open spec fn sum_lines(lines: Seq<Seq<char>>) -> Seq<nat>
    decreases lines.len(),
{
    if lines.len() == 0 {
        zero_counts()
    } else {
        merge_counts(sum_lines(lines.drop_last()), line_counts(lines.last()))
    }
}

/// The tally of a whole text: that of its lines, merged.
pub open spec fn text_counts(text: Seq<char>) -> Seq<nat> {
    sum_lines(split_lines(text))
}

/// Whether a character appended to `text` would start a line.
pub open spec fn at_line_start(text: Seq<char>) -> bool {
    text.len() == 0 || text.last() == '\n'
}

/// A text always has a last line, and that line is empty exactly where the
/// text is empty or ends in a newline.
pub proof fn lemma_last_line(text: Seq<char>)
    ensures
        split_lines(text).len() >= 1,
        split_lines(text).last().len() == 0 <==> at_line_start(text),
    decreases text.len(),
{
    if text.len() > 0 {
        lemma_last_line(text.drop_last());
    }
}

/// A tally has nine places.
pub proof fn lemma_sum_lines_len(lines: Seq<Seq<char>>)
    ensures
        sum_lines(lines).len() == 9,
    decreases lines.len(),
{
    if lines.len() > 0 {
        lemma_sum_lines_len(lines.drop_last());
    }
}

/// What one more character does to the tally of a text: at the start of a
/// line it is counted as that line's first character, elsewhere it changes
/// nothing.
pub proof fn lemma_text_counts_push(text: Seq<char>, c: char)
    ensures
        text_counts(text.push(c)) == if at_line_start(text) {
            merge_counts(text_counts(text), line_counts(seq![c]))
        } else {
            text_counts(text)
        },
{
    let lines = split_lines(text);
    let longer = text.push(c);
    lemma_last_line(text);
    assert(longer.drop_last() =~= text);
    assert(longer.last() == c);
    lemma_sum_lines_len(lines);
    lemma_sum_lines_len(lines.drop_last());
    if c == '\n' {
        assert(split_lines(longer) == lines.push(Seq::<char>::empty()));
        assert(lines.push(Seq::<char>::empty()).drop_last() =~= lines);
        assert(text_counts(longer) =~= text_counts(text));
        assert(merge_counts(text_counts(text), line_counts(seq![c])) =~= text_counts(text));
    } else {
        let grown = lines.last().push(c);
        assert(split_lines(longer) == lines.drop_last().push(grown));
        assert(lines.drop_last().push(grown).drop_last() =~= lines.drop_last());
        assert(text_counts(longer) == merge_counts(sum_lines(lines.drop_last()), line_counts(grown)));
        assert(text_counts(text) == merge_counts(
            sum_lines(lines.drop_last()),
            line_counts(lines.last()),
        ));
        if at_line_start(text) {
            assert(grown =~= seq![c]);
            assert(text_counts(text) =~= sum_lines(lines.drop_last()));
        } else {
            assert(grown[0] == lines.last()[0]);
            assert(line_counts(grown) == line_counts(lines.last()));
        }
    }
}

/// The empty text is one empty line, in which nothing is counted.
pub proof fn lemma_text_counts_empty()
    ensures
        text_counts(Seq::<char>::empty()) == zero_counts(),
{
    let lines = split_lines(Seq::<char>::empty());
    assert(lines.drop_last() =~= Seq::<Seq<char>>::empty());
    assert(sum_lines(lines.drop_last()) == zero_counts());
    assert(line_counts(lines.last()) == zero_counts());
    assert(sum_lines(lines) =~= zero_counts());
}

/// The given lines put together again, with a newline between each two.
pub open spec fn join_lines(lines: Seq<Seq<char>>) -> Seq<char>
    decreases lines.len(),
{
    if lines.len() == 0 {
        Seq::<char>::empty()
    } else if lines.len() == 1 {
        lines[0]
    } else {
        join_lines(lines.drop_last()).push('\n') + lines.last()
    }
}

/// Whether none of the lines holds a newline.
pub open spec fn newline_free(lines: Seq<Seq<char>>) -> bool {
    forall|i: int, j: int|
        0 <= i < lines.len() && 0 <= j < lines[i].len() ==> #[trigger] lines[i][j] != '\n'
}

/// Splitting loses nothing and cuts at every newline: the lines of a text,
/// joined by newlines, are the text again, and no line holds a newline.
pub proof fn lemma_split_lines_joins_back(text: Seq<char>)
    ensures
        split_lines(text).len() >= 1,
        join_lines(split_lines(text)) == text,
        newline_free(split_lines(text)),
    decreases text.len(),
{
    if text.len() == 0 {
        assert(join_lines(split_lines(text)) =~= text);
    } else {
        let shorter = text.drop_last();
        let before = split_lines(shorter);
        let c = text.last();
        lemma_split_lines_joins_back(shorter);
        assert(shorter.push(c) =~= text);
        if c == '\n' {
            let lines = before.push(Seq::<char>::empty());
            assert(lines.drop_last() =~= before);
            assert(join_lines(lines) =~= text);
        } else {
            let lines = before.drop_last().push(before.last().push(c));
            assert(lines.drop_last() =~= before.drop_last());
            if before.len() == 1 {
                assert(join_lines(lines) =~= text);
            } else {
                assert(join_lines(before) == join_lines(before.drop_last()).push('\n')
                    + before.last());
                assert(join_lines(lines) =~= join_lines(before).push(c));
            }
        }
    }
}

/// Characters without a newline, put behind a text, lengthen its last line
/// and leave the lines before it as they are.
pub proof fn lemma_split_lines_extend(text: Seq<char>, tail: Seq<char>)
    requires
        forall|j: int| 0 <= j < tail.len() ==> tail[j] != '\n',
    ensures
        split_lines(text).len() >= 1,
        split_lines(text + tail) == split_lines(text).drop_last().push(
            split_lines(text).last() + tail,
        ),
    decreases tail.len(),
{
    let lines = split_lines(text);
    lemma_last_line(text);
    if tail.len() == 0 {
        assert(text + tail =~= text);
        assert(lines.last() + tail =~= lines.last());
        assert(lines.drop_last().push(lines.last()) =~= lines);
    } else {
        let shorter = tail.drop_last();
        let c = tail.last();
        lemma_split_lines_extend(text, shorter);
        assert((text + tail).drop_last() =~= text + shorter);
        assert((text + tail).last() == c);
        let before = split_lines(text + shorter);
        assert(before.drop_last() =~= lines.drop_last());
        assert(before.last().push(c) =~= lines.last() + tail);
    }
}

/// Joining undoes splitting the other way round too: lines without a
/// newline, at least one of them, are the lines of what they join to.
pub proof fn lemma_join_lines_splits_back(lines: Seq<Seq<char>>)
    requires
        lines.len() >= 1,
        newline_free(lines),
    ensures
        split_lines(join_lines(lines)) == lines,
    decreases lines.len(),
{
    let empty = Seq::<char>::empty();
    if lines.len() == 1 {
        lemma_split_lines_extend(empty, lines[0]);
        assert(empty + lines[0] =~= lines[0]);
        assert(split_lines(empty).drop_last().push(split_lines(empty).last() + lines[0])
            =~= lines);
    } else {
        let before = lines.drop_last();
        assert(newline_free(before)) by {
            assert forall|i: int, j: int|
                0 <= i < before.len() && 0 <= j < before[i].len() implies #[trigger] before[i][j]
                != '\n' by {
                assert(before[i][j] == lines[i][j]);
            }
        }
        lemma_join_lines_splits_back(before);
        let head = join_lines(before).push('\n');
        assert(head.drop_last() =~= join_lines(before));
        assert(split_lines(head) == before.push(empty));
        assert forall|j: int| 0 <= j < lines.last().len() implies lines.last()[j] != '\n' by {
            assert(lines.last()[j] == lines[lines.len() - 1][j]);
        }
        lemma_split_lines_extend(head, lines.last());
        assert(before.push(empty).drop_last().push(before.push(empty).last() + lines.last())
            =~= lines);
    }
}

/// A text cut at a newline can be counted in two parts: the tally of the
/// whole is the tallies of the two parts, merged.
pub proof fn lemma_text_counts_concat(first: Seq<char>, second: Seq<char>)
    ensures
        text_counts(first.push('\n') + second) == merge_counts(
            text_counts(first),
            text_counts(second),
        ),
    decreases second.len(),
{
    lemma_sum_lines_len(split_lines(first));
    if second.len() == 0 {
        lemma_text_counts_push(first, '\n');
        lemma_text_counts_empty();
        assert(first.push('\n') + second =~= first.push('\n'));
        assert(merge_counts(text_counts(first), line_counts(seq!['\n'])) =~= text_counts(first));
        assert(merge_counts(text_counts(first), zero_counts()) =~= text_counts(first));
    } else {
        let shorter = second.drop_last();
        let c = second.last();
        let whole = first.push('\n') + shorter;
        lemma_text_counts_concat(first, shorter);
        lemma_text_counts_push(whole, c);
        lemma_text_counts_push(shorter, c);
        assert(whole.push(c) =~= first.push('\n') + second);
        assert(shorter.push(c) =~= second);
        assert(at_line_start(whole) == at_line_start(shorter));
        lemma_sum_lines_len(split_lines(shorter));
        if at_line_start(shorter) {
            assert(merge_counts(
                merge_counts(text_counts(first), text_counts(shorter)),
                line_counts(seq![c]),
            ) =~= merge_counts(
                text_counts(first),
                merge_counts(text_counts(shorter), line_counts(seq![c])),
            ));
        }
    }
}

/// A text is not longer than its UTF-8 encoding.
proof fn lemma_encoding_not_shorter(text: Seq<char>)
    ensures
        text.len() <= encode_utf8(text).len(),
    decreases text.len(),
{
    if text.len() > 0 {
        lemma_encoding_not_shorter(text.drop_first());
    }
}

/// The tally of a text, line by line: every line is counted by its first
/// character, as [`DigitCount::init`] counts it, and the results are merged.
/// The text is read once, from its first character to its last.
pub fn get_counts(contents: &str) -> (r: DigitCount)
    ensures
        r@ == text_counts(contents@),
{
    // A text has at most as many characters as bytes, and its bytes are
    // counted in `usize`: no count can overflow.
    let _byte_len: usize = contents.as_bytes().len();
    proof {
        lemma_encoding_not_shorter(contents@);
    }
    let mut acc = DigitCount::default();
    let mut line_start = true;
    let ghost mut seen: Seq<char> = Seq::empty();
    let mut chars = contents.chars();
    proof {
        lemma_text_counts_empty();
    }
    loop
        invariant
            contents@.len() <= usize::MAX,
            seen + chars.remaining() == contents@,
            acc@ == text_counts(seen),
            total_of(acc@) <= seen.len(),
            line_start == at_line_start(seen),
        ensures
            seen == contents@,
        decreases contents@.len() - seen.len(),
    {
        let next = chars.next();
        match next {
            None => {
                assert(seen =~= contents@);
                break;
            },
            Some(c) => {
                proof {
                    lemma_text_counts_push(seen, c);
                    seen = seen.push(c);
                }
                if line_start {
                    acc = acc.merge(DigitCount::of_first(Some(c)));
                }
                line_start = c == '\n';
            },
        }
    }
    acc
}

} // verus!
