//! What the operations on text keep, drop and find.

use crate::text;
use vstd::prelude::*;
use vstd::string::*;

verus! {

/// Whether every character of a text satisfies a predicate.
pub open spec fn all_chars(s: Seq<char>, p: spec_fn(char) -> bool) -> bool {
    forall|i: int| 0 <= i < s.len() ==> p(#[trigger] s[i])
}

/// A text trimmed at its end is the text up to the last character that is not
/// dropped.
pub proof fn lemma_trimmed_end_keeps_the_head(s: Seq<char>, drop: spec_fn(char) -> bool)
    ensures
        text::trimmed_end(s, drop).len() <= s.len(),
        text::trimmed_end(s, drop) == s.take(text::trimmed_end(s, drop).len() as int),
        all_chars(s.skip(text::trimmed_end(s, drop).len() as int), drop),
        text::trimmed_end(s, drop).len() > 0 ==> !drop(text::trimmed_end(s, drop).last()),
    decreases s.len(),
{
    if s.len() > 0 && drop(s.last()) {
        lemma_trimmed_end_keeps_the_head(s.drop_last(), drop);
        let n = text::trimmed_end(s.drop_last(), drop).len() as int;
        assert(s.drop_last().take(n) == s.take(n));
        assert forall|i: int| 0 <= i < s.skip(n).len() implies drop(#[trigger] s.skip(n)[i]) by {
            if i < s.len() - 1 - n {
                assert(s.drop_last().skip(n)[i] == s.skip(n)[i]);
            }
        }
    } else {
        assert(s.take(s.len() as int) == s);
    }
}

/// A text trimmed at its start is the text from the first character that is
/// not dropped.
pub proof fn lemma_trimmed_start_keeps_the_tail(s: Seq<char>, drop: spec_fn(char) -> bool)
    ensures
        text::trimmed_start(s, drop).len() <= s.len(),
        text::trimmed_start(s, drop) == s.skip(s.len() - text::trimmed_start(s, drop).len()),
        all_chars(s.take(s.len() - text::trimmed_start(s, drop).len()), drop),
        text::trimmed_start(s, drop).len() > 0 ==> !drop(text::trimmed_start(s, drop)[0]),
    decreases s.len(),
{
    if s.len() > 0 && drop(s[0]) {
        lemma_trimmed_start_keeps_the_tail(s.skip(1), drop);
        let n = s.len() - text::trimmed_start(s, drop).len();
        assert(s.skip(1).skip(n - 1) == s.skip(n));
        assert forall|i: int| 0 <= i < s.take(n).len() implies drop(#[trigger] s.take(n)[i]) by {
            if i > 0 {
                assert(s.skip(1).take(n - 1)[i - 1] == s.take(n)[i]);
            }
        }
    } else {
        assert(s.skip(0) == s);
    }
}

/// A trimmed text is the middle of the text, between white space that is all
/// gone.
pub proof fn lemma_trimmed_is_the_middle(s: Seq<char>)
    ensures
        exists|i: int, j: int|
            0 <= i <= j <= s.len() && text::trimmed(s) == #[trigger] s.subrange(i, j) && all_chars(
                s.take(i),
                text::white(),
            ) && all_chars(s.skip(j), text::white()),
        text::trimmed(s).len() > 0 ==> !text::is_white_space(text::trimmed(s)[0])
            && !text::is_white_space(text::trimmed(s).last()),
{
    let w = text::white();
    let front = text::trimmed_end(s, w);
    lemma_trimmed_end_keeps_the_head(s, w);
    lemma_trimmed_start_keeps_the_tail(front, w);
    let i = front.len() - text::trimmed(s).len();
    let j = front.len() as int;
    assert(front.skip(i) == s.subrange(i, j));
    assert(front.take(i) == s.take(i));
}

/// Trimming leaves nothing exactly where there is nothing but white space.
pub proof fn lemma_trimmed_to_nothing(s: Seq<char>)
    ensures
        text::trimmed(s).len() == 0 <==> all_chars(s, text::white()),
{
    let w = text::white();
    let front = text::trimmed_end(s, w);
    lemma_trimmed_end_keeps_the_head(s, w);
    lemma_trimmed_start_keeps_the_tail(front, w);
    if text::trimmed(s).len() == 0 {
        assert forall|i: int| 0 <= i < s.len() implies w(#[trigger] s[i]) by {
            if i < front.len() {
                assert(front.take(front.len() as int)[i] == s[i]);
            } else {
                assert(s.skip(front.len() as int)[i - front.len()] == s[i]);
            }
        }
    } else {
        let k = front.len() - text::trimmed(s).len();
        assert(text::trimmed(s)[0] == s[k]);
    }
}

/// Cutting at a character loses that character alone, and cuts at its first
/// occurrence.
pub proof fn lemma_cut_parts(s: Seq<char>, c: char)
    ensures
        match text::cut_at(s, c) {
            Some((head, tail)) => s == head.push(c) + tail && !head.contains(c),
            None => !s.contains(c),
        },
{
    text::lemma_first_at_is(s, c);
    let i = text::first_at(s, c) as int;
    if i < s.len() {
        assert(s == s.take(i).push(c) + s.skip(i + 1));
    }
}

/// The pieces of a text hold no separator, and joined by it they are the text.
pub proof fn lemma_pieces_join(s: Seq<char>, c: char)
    ensures
        text::pieces(s, c).len() > 0,
        forall|i: int| 0 <= i < text::pieces(s, c).len() ==> !(#[trigger] text::pieces(s, c)[i]).contains(c),
        text::joined(text::pieces(s, c), seq![c]) == s,
    decreases s.len(),
{
    text::lemma_first_at_is(s, c);
    let i = text::first_at(s, c) as int;
    if i < s.len() {
        let head = s.take(i);
        let rest = text::pieces(s.skip(i + 1), c);
        lemma_pieces_join(s.skip(i + 1), c);
        lemma_joined_front(head, rest, seq![c]);
        assert(s == head + seq![c] + s.skip(i + 1));
    }
}

/// Joining puts the first text in front, with one separator behind it.
pub proof fn lemma_joined_front(head: Seq<char>, rest: Seq<Seq<char>>, sep: Seq<char>)
    requires
        rest.len() > 0,
    ensures
        text::joined(seq![head] + rest, sep) == head + sep + text::joined(rest, sep),
    decreases rest.len(),
{
    let all = seq![head] + rest;
    assert(all.drop_last() == seq![head] + rest.drop_last());
    assert(all.last() == rest.last());
    if rest.len() == 1 {
        assert(all.drop_last() == seq![head]);
        assert(text::joined(seq![head], sep) == head);
    } else {
        lemma_joined_front(head, rest.drop_last(), sep);
    }
    assert(text::joined(all, sep) == head + sep + text::joined(rest, sep));
}

/// A line up to its end comes first; what follows is read as lines of its own.
/// A carriage return before the end does not count.
pub proof fn lemma_first_line(line: Seq<char>, rest: Seq<char>)
    requires
        !line.contains('\n'),
        line.len() > 0 ==> line.last() != '\r',
    ensures
        text::line_texts(line.push('\n') + rest) == seq![line] + text::line_texts(rest),
        text::line_texts(line.push('\r').push('\n') + rest) == seq![line] + text::line_texts(rest),
        line.len() > 0 ==> text::line_texts(line) == seq![line],
{
    let n = line.len() as int;
    let a = line.push('\n') + rest;
    text::lemma_first_at(a, '\n', n);
    assert(a.take(n) == line);
    assert(a.skip(n + 1) == rest);
    let b = line.push('\r').push('\n') + rest;
    text::lemma_first_at(b, '\n', n + 1);
    assert(b.take(n + 1) == line.push('\r'));
    assert(line.push('\r').drop_last() == line);
    assert(b.skip(n + 2) == rest);
    text::lemma_first_at_is(line, '\n');
}

/// Nothing is read as no line.
pub proof fn lemma_no_lines()
    ensures
        text::line_texts(Seq::empty()) == Seq::<Seq<char>>::empty(),
{
}

/// What follows a prefix, put behind it again, is the text; a text that opens
/// otherwise has nothing behind the prefix.
pub proof fn lemma_behind_a_prefix(prefix: Seq<char>, rest: Seq<char>, s: Seq<char>)
    ensures
        text::after_prefix(prefix + rest, prefix) == Some(rest),
        text::after_prefix(s, prefix) matches Some(tail) ==> s == prefix + tail,
{
    assert((prefix + rest).take(prefix.len() as int) == prefix);
    assert((prefix + rest).skip(prefix.len() as int) == rest);
    if text::after_prefix(s, prefix) is Some {
        assert(s == prefix + s.skip(prefix.len() as int));
    }
}

/// Replaced characters are gone, all others stand where they stood.
pub proof fn lemma_mapped_chars(s: Seq<char>, a: char, b: char, to: char)
    ensures
        text::mapped_chars(s, a, b, to).len() == s.len(),
        forall|i: int|
            0 <= i < s.len() && s[i] != a && s[i] != b ==> #[trigger] text::mapped_chars(
                s,
                a,
                b,
                to,
            )[i] == s[i],
        forall|i: int|
            0 <= i < s.len() && (s[i] == a || s[i] == b) ==> #[trigger] text::mapped_chars(
                s,
                a,
                b,
                to,
            )[i] == to,
        to != a ==> !text::mapped_chars(s, a, b, to).contains(a),
        to != b ==> !text::mapped_chars(s, a, b, to).contains(b),
{
}

/// A text without what is looked for stays as it is.
pub proof fn lemma_nothing_to_replace(s: Seq<char>, from: Seq<char>, to: Seq<char>)
    requires
        !text::has_text(s, from),
    ensures
        text::replaced(s, from, to) == s,
    decreases s.len(),
{
    if s.len() > 0 && from.len() > 0 {
        assert(!text::occurs_at(s, from, 0));
        assert(s.subrange(0, s.len() as int) == s);
        assert(!text::opens_with(s, from)) by {
            if text::opens_with(s, from) {
                assert(text::occurs_at(s, from, 0)) by {
                    assert(s.subrange(0, from.len() as int) == s.take(from.len() as int));
                }
            }
        }
        assert(!text::has_text(s.skip(1), from)) by {
            if text::has_text(s.skip(1), from) {
                let i = choose|i: int| text::occurs_at(s.skip(1), from, i);
                assert(s.skip(1).subrange(i, i + from.len()) == s.subrange(i + 1, i + 1 + from.len()));
                assert(text::occurs_at(s, from, i + 1));
            }
        }
        lemma_nothing_to_replace(s.skip(1), from, to);
        assert(seq![s[0]] + s.skip(1) == s);
    }
}

/// The first occurrence of what is looked for gives way to the replacement;
/// what stands before it is kept, and what stands behind it is replaced in
/// turn.
pub proof fn lemma_first_is_replaced(
    head: Seq<char>,
    from: Seq<char>,
    tail: Seq<char>,
    to: Seq<char>,
)
    requires
        from.len() > 0,
        forall|i: int| 0 <= i < head.len() ==> !#[trigger] text::occurs_at(head + from + tail, from, i),
    ensures
        text::replaced(head + from + tail, from, to) == head + to + text::replaced(tail, from, to),
    decreases head.len(),
{
    let s = head + from + tail;
    if head.len() == 0 {
        assert(s.take(from.len() as int) == from);
        assert(s.skip(from.len() as int) == tail);
        assert(text::opens_with(s, from));
        assert(head + to == to);
    } else {
        let rest = head.skip(1) + from + tail;
        assert(s.skip(1) == rest);
        assert(!text::occurs_at(s, from, 0));
        assert(!text::opens_with(s, from)) by {
            if text::opens_with(s, from) {
                assert(s.subrange(0, from.len() as int) == s.take(from.len() as int));
                assert(text::occurs_at(s, from, 0));
            }
        }
        assert forall|i: int| 0 <= i < head.skip(1).len() implies !#[trigger] text::occurs_at(
            rest,
            from,
            i,
        ) by {
            if text::occurs_at(rest, from, i) {
                assert(rest.subrange(i, i + from.len()) == s.subrange(i + 1, i + 1 + from.len()));
                assert(text::occurs_at(s, from, i + 1));
            }
        }
        lemma_first_is_replaced(head.skip(1), from, tail, to);
        assert(seq![s[0]] + (head.skip(1) + to + text::replaced(tail, from, to)) == head + to
            + text::replaced(tail, from, to));
    }
}

// ---------------------------------------------------------------------------
// Numerals

proof fn lemma_all_leading(s: Seq<char>)
    requires
        text::all_digits(s),
    ensures
        text::leading_digits(s) == s.len(),
    decreases s.len(),
{
    if s.len() > 0 {
        assert(forall|i: int| 0 <= i < s.skip(1).len() ==> #[trigger] s.skip(1)[i] == s[i + 1]);
        lemma_all_leading(s.skip(1));
    }
}

/// A numeral out of range is too large or too small, a text that does not start
/// like one has an invalid digit, and nothing at all is told apart from both.
pub proof fn lemma_integer_problems(n: int, s: Seq<char>, lo: int, hi: int)
    requires
        lo <= 0 <= hi,
    ensures
        n > hi ==> text::int_problem(text::int_text(n), lo, hi)
            == "number too large to fit in target type"@,
        n < lo ==> text::int_problem(text::int_text(n), lo, hi)
            == "number too small to fit in target type"@,
        text::int_problem(Seq::empty(), lo, hi) == "cannot parse integer from empty string"@,
        s.len() > 0 && !('0' <= s[0] <= '9') && s[0] != '-' && s[0] != '+' ==> text::int_problem(
            s,
            lo,
            hi,
        ) == "invalid digit found in string"@,
{
    if n >= 0 {
        let t = text::int_text(n);
        text::lemma_int_text_denotes(n);
        lemma_all_leading(t);
        assert(t.take(t.len() as int) == t);
    } else {
        let t = text::int_text(n);
        let body = text::int_text(-n);
        text::lemma_int_text_denotes(-n);
        lemma_all_leading(body);
        assert(t == seq!['-'] + body);
        assert(t.skip(1) == body);
        assert(body.take(body.len() as int) == body);
    }
    if s.len() > 0 {
        assert(s.take(0) == Seq::<char>::empty());
    }
}

/// A hexadecimal numeral has its width, and its last digit is the rest of a
/// division by sixteen.
pub proof fn lemma_hexadecimal(n: nat, d: nat, width: nat)
    requires
        d < 16,
    ensures
        text::hex_text(n, width).len() == width,
        text::hex_text(16 * n + d, width + 1).drop_last() == text::hex_text(n, width),
        d < 10 ==> text::hex_text(16 * n + d, width + 1).last() as int == '0' as int + d,
        d >= 10 ==> text::hex_text(16 * n + d, width + 1).last() as int == 'a' as int + d - 10,
    decreases width,
{
    assert((16 * n + d) / 16 == n && (16 * n + d) % 16 == d);
    let whole = text::hex_text(16 * n + d, width + 1);
    assert(whole == text::hex_text(n, width).push(text::hex_char(d as int)));
    assert(whole.drop_last() == text::hex_text(n, width));
    if width > 0 {
        lemma_hexadecimal(n / 16, n % 16, (width - 1) as nat);
        assert(16 * (n / 16) + n % 16 == n);
    }
}

/// Capitals and digits are upper case already, small letters become capitals,
/// and every ASCII character stays one.
pub proof fn lemma_uppercase(s: Seq<char>)
    requires
        forall|i: int| 0 <= i < s.len() ==> #[trigger] s[i] <= '\u{7f}',
    ensures
        text::uppercased(s).len() == s.len(),
        forall|i: int|
            0 <= i < s.len() && 'a' <= s[i] <= 'z' ==> (#[trigger] text::uppercased(s)[i]) as int
                == s[i] as int - 32,
        forall|i: int|
            0 <= i < s.len() && !('a' <= s[i] <= 'z') ==> #[trigger] text::uppercased(s)[i] == s[i],
    decreases s.len(),
{
    if s.len() > 0 {
        let init = s.drop_last();
        let c = s.last();
        assert(s[s.len() - 1] == c);
        assert(forall|i: int| 0 <= i < init.len() ==> #[trigger] init[i] == s[i]);
        lemma_uppercase(init);
        assert(text::uppercased(s) == text::uppercased(init).push(text::ascii_upper(c)));
    }
}

/// A numeral filled up to a width has at least that width, zeros in front, and
/// the numeral behind them.
pub proof fn lemma_padding(n: nat, width: nat)
    ensures
        text::padded_nat(n, width).len() >= width,
        text::closes_with(text::padded_nat(n, width), text::nat_text(n)),
        forall|i: int|
            0 <= i < text::padded_nat(n, width).len() - text::nat_text(n).len()
                ==> #[trigger] text::padded_nat(n, width)[i] == '0',
{
    let s = text::padded_nat(n, width);
    let t = text::nat_text(n);
    assert(s.skip(s.len() - t.len()) == t);
}

} // verus!
