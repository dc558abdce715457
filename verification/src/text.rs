//! Text primitives shared by the whole library: searching, splitting and
//! trimming over sequences of characters, decimal numerals, and the handful
//! of character properties that come from the standard library.

use vstd::prelude::*;
use vstd::string::*;

verus! {

// ---------------------------------------------------------------------------
// Character properties of the standard library

/// The characters with the Unicode `White_Space` property.
pub open spec fn is_white_space(c: char) -> bool {
    ||| '\u{9}' <= c <= '\u{d}'
    ||| c == ' '
    ||| c == '\u{85}'
    ||| c == '\u{a0}'
    ||| c == '\u{1680}'
    ||| '\u{2000}' <= c <= '\u{200a}'
    ||| c == '\u{2028}'
    ||| c == '\u{2029}'
    ||| c == '\u{202f}'
    ||| c == '\u{205f}'
    ||| c == '\u{3000}'
}

/// `char::is_whitespace`: whether the character has the `White_Space` property,
/// which the Unicode Character Database lists.
pub assume_specification[ char::is_whitespace ](c: char) -> (r: bool)
    ensures
        r == is_white_space(c),
;

/// Unicode uppercase mapping of a character, as `char::to_uppercase` yields it.
pub uninterp spec fn uppercase_chars(c: char) -> Seq<char>;

/// `char::to_uppercase`: the whole mapping, one or more characters, named
/// [`uppercase_chars`].
#[verifier::external_body]
fn std_uppercase(c: char) -> (r: String)
    ensures
        r@ == uppercase_chars(c),
{
    c.to_uppercase().to_string()
}

/// A string between double quotes with the escapes of `str`'s `Debug` format.
pub uninterp spec fn debug_text(s: Seq<char>) -> Seq<char>;

/// `format!("{:?}")` of a string slice, named [`debug_text`].
#[verifier::external_body]
pub(crate) fn debug_quoted(s: &str) -> (r: String)
    ensures
        r@ == debug_text(s@),
{
    format!("{s:?}")
}

/// `String::push`: appends the character at the end.
pub assume_specification[ String::push ](s: &mut String, c: char)
    ensures
        final(s)@ == old(s)@.push(c),
;

// ---------------------------------------------------------------------------
// Case folding

/// Lower-case twin of an ASCII upper-case letter; other characters unchanged.
pub open spec fn ascii_lower(c: char) -> char {
    if 'A' <= c <= 'Z' {
        (c as u32 + 32) as char
    } else {
        c
    }
}

/// Upper-case twin of an ASCII lower-case letter; other characters unchanged.
pub open spec fn ascii_upper(c: char) -> char {
    if 'a' <= c <= 'z' {
        (c as u32 - 32) as char
    } else {
        c
    }
}

/// Upper-case form of one character: one ASCII letter or the Unicode mapping.
pub open spec fn upper_chars(c: char) -> Seq<char> {
    if c <= '\u{7f}' {
        seq![ascii_upper(c)]
    } else {
        uppercase_chars(c)
    }
}

pub fn to_ascii_lower(c: char) -> (r: char)
    ensures
        r == ascii_lower(c),
{
    if c >= 'A' && c <= 'Z' {
        ((c as u8) + 32) as char
    } else {
        c
    }
}

pub fn to_ascii_upper(c: char) -> (r: char)
    ensures
        r == ascii_upper(c),
{
    if c >= 'a' && c <= 'z' {
        ((c as u8) - 32) as char
    } else {
        c
    }
}

pub fn to_upper_chars(c: char) -> (r: String)
    ensures
        r@ == upper_chars(c),
{
    if c <= '\u{7f}' {
        let mut out = String::new();
        out.push(to_ascii_upper(c));
        assert(out@ == upper_chars(c));
        out
    } else {
        std_uppercase(c)
    }
}

// ---------------------------------------------------------------------------
// Characters, strings and views

/// A text with every character in upper case.
pub open spec fn uppercased(s: Seq<char>) -> Seq<char>
    decreases s.len(),
{
    if s.len() == 0 {
        Seq::empty()
    } else {
        uppercased(s.drop_last()) + upper_chars(s.last())
    }
}

pub fn to_uppercase(s: &str) -> (r: String)
    ensures
        r@ == uppercased(s@),
{
    let chars = chars_of(s);
    let mut out = String::new();
    let mut i: usize = 0;
    assert(s@.take(0) == Seq::<char>::empty());
    assert(out@ == Seq::<char>::empty());
    while i < chars.len()
        invariant
            i <= chars@.len(),
            chars@ == s@,
            out@ == uppercased(s@.take(i as int)),
        decreases chars@.len() - i,
    {
        assert(s@.take(i + 1).drop_last() == s@.take(i as int));
        assert(s@.take(i + 1).last() == s@[i as int]);
        out.append(to_upper_chars(chars[i]).as_str());
        i = i + 1;
    }
    assert(s@.take(i as int) == s@);
    out
}

/// The texts of a sequence of strings.
pub open spec fn texts(v: Seq<String>) -> Seq<Seq<char>> {
    Seq::new(v.len(), |i: int| v[i]@)
}

/// The view of an optional string slice.
pub open spec fn opt_str_text(s: Option<&str>) -> Option<Seq<char>> {
    match s {
        Some(t) => Some(t@),
        None => None,
    }
}

/// The text of an optional string.
pub open spec fn opt_text(s: Option<String>) -> Option<Seq<char>> {
    match s {
        Some(t) => Some(t@),
        None => None,
    }
}

pub fn chars_of(s: &str) -> (r: Vec<char>)
    ensures
        r@ == s@,
{
    let mut out: Vec<char> = Vec::new();
    for c in it: s.chars()
        invariant
            out@ == s@.take(it.index()),
            it.seq() == s@,
    {
        assert(s@.take(it.index() + 1) == s@.take(it.index()).push(c));
        out.push(c);
    }
    assert(s@.take(s@.len() as int) == s@);
    out
}

/// The characters `lo..hi` as a string.
pub fn string_between(chars: &Vec<char>, lo: usize, hi: usize) -> (r: String)
    requires
        lo <= hi <= chars@.len(),
    ensures
        r@ == chars@.subrange(lo as int, hi as int),
{
    let mut out = String::new();
    let mut i: usize = lo;
    assert(out@ == chars@.subrange(lo as int, lo as int));
    while i < hi
        invariant
            lo <= i <= hi <= chars@.len(),
            out@ == chars@.subrange(lo as int, i as int),
        decreases hi - i,
    {
        out.push(chars[i]);
        assert(chars@.subrange(lo as int, i as int).push(chars@[i as int]) == chars@.subrange(
            lo as int,
            i + 1,
        ));
        i = i + 1;
    }
    out
}

pub fn text_eq(a: &str, b: &str) -> (r: bool)
    ensures
        r == (a@ == b@),
{
    a.to_owned() == b.to_owned()
}

/// Copies a vector of strings.
pub fn copy_strings(v: &Vec<String>) -> (r: Vec<String>)
    ensures
        r@ == v@,
{
    let mut out: Vec<String> = Vec::new();
    let mut i: usize = 0;
    while i < v.len()
        invariant
            i <= v@.len(),
            out@ == v@.take(i as int),
        decreases v@.len() - i,
    {
        out.push(v[i].clone());
        assert(v@.take(i + 1) == v@.take(i as int).push(v@[i as int]));
        i = i + 1;
    }
    assert(v@.take(v@.len() as int) == v@);
    out
}

/// Copies an optional string.
pub fn copy_opt(s: &Option<String>) -> (r: Option<String>)
    ensures
        r == *s,
{
    match s {
        Some(t) => Some(t.clone()),
        None => None,
    }
}

// ---------------------------------------------------------------------------
// Searching

/// Index of the first occurrence of `c` in `s`; the length of `s` when there
/// is none.
pub open spec fn first_at(s: Seq<char>, c: char) -> nat
    decreases s.len(),
{
    if s.len() == 0 || s[0] == c {
        0
    } else {
        1 + first_at(s.skip(1), c)
    }
}

pub proof fn lemma_first_at(s: Seq<char>, c: char, i: int)
    requires
        0 <= i <= s.len(),
        forall|j: int| 0 <= j < i ==> s[j] != c,
        i < s.len() ==> s[i] == c,
    ensures
        first_at(s, c) == i,
    decreases i,
{
    if i > 0 {
        assert forall|j: int| 0 <= j < i - 1 implies s.skip(1)[j] != c by {
            assert(s[j + 1] != c);
        }
        lemma_first_at(s.skip(1), c, i - 1);
    }
}

/// What the first occurrence is: everything before it differs from `c`.
pub proof fn lemma_first_at_is(s: Seq<char>, c: char)
    ensures
        first_at(s, c) <= s.len(),
        first_at(s, c) < s.len() ==> s[first_at(s, c) as int] == c,
        forall|j: int| 0 <= j < first_at(s, c) ==> s[j] != c,
        first_at(s, c) < s.len() <==> s.contains(c),
    decreases s.len(),
{
    if s.len() > 0 && s[0] != c {
        lemma_first_at_is(s.skip(1), c);
        let t = s.skip(1);
        let k = first_at(t, c);
        assert forall|j: int| 0 <= j < 1 + k implies s[j] != c by {
            if j > 0 {
                assert(t[j - 1] != c);
            }
        }
        if s.contains(c) {
            let j = choose|j: int| 0 <= j < s.len() && s[j] == c;
            assert(t[j - 1] == c);
        }
        if k < t.len() {
            assert(s[1 + k as int] == t[k as int]);
        }
    } else if s.len() > 0 {
        assert(s.contains(s[0]));
    }
}

/// First occurrence of `c` at or after `from`; the length when there is none.
pub fn find_from(chars: &Vec<char>, from: usize, c: char) -> (r: usize)
    requires
        from <= chars@.len(),
    ensures
        from <= r <= chars@.len(),
        r == from + first_at(chars@.skip(from as int), c),
        r < chars@.len() ==> chars@[r as int] == c,
        forall|j: int| from <= j < r ==> chars@[j] != c,
{
    let mut i: usize = from;
    while i < chars.len() && chars[i] != c
        invariant
            from <= i <= chars@.len(),
            forall|j: int| from <= j < i ==> chars@[j] != c,
        decreases chars@.len() - i,
    {
        i = i + 1;
    }
    proof {
        lemma_first_at(chars@.skip(from as int), c, i - from);
    }
    i
}

/// Whether some character is white space.
pub open spec fn has_white(s: Seq<char>) -> bool {
    exists|i: int| 0 <= i < s.len() && is_white_space(#[trigger] s[i])
}

pub fn has_white_space(s: &str) -> (r: bool)
    ensures
        r == has_white(s@),
{
    let chars = chars_of(s);
    let mut i: usize = 0;
    while i < chars.len()
        invariant
            i <= chars@.len(),
            chars@ == s@,
            forall|k: int| 0 <= k < i ==> !is_white_space(#[trigger] s@[k]),
        decreases chars@.len() - i,
    {
        if chars[i].is_whitespace() {
            assert(is_white_space(s@[i as int]));
            return true;
        }
        i = i + 1;
    }
    false
}

/// Whether `c` occurs in `s`.
pub fn contains_char(s: &str, c: char) -> (r: bool)
    ensures
        r == s@.contains(c),
{
    let chars = chars_of(s);
    let i = find_from(&chars, 0, c);
    proof {
        assert(s@.skip(0) == s@);
        lemma_first_at_is(s@, c);
    }
    i < chars.len()
}

/// `p` occurs in `s` at position `i`.
pub open spec fn occurs_at(s: Seq<char>, p: Seq<char>, i: int) -> bool {
    0 <= i && i + p.len() <= s.len() && s.subrange(i, i + p.len()) == p
}

/// `p` occurs somewhere in `s`.
pub open spec fn has_text(s: Seq<char>, p: Seq<char>) -> bool {
    exists|i: int| occurs_at(s, p, i)
}

/// Whether the pattern stands at position `at`.
pub fn matches_at(chars: &Vec<char>, at: usize, pattern: &Vec<char>) -> (r: bool)
    requires
        at <= chars@.len(),
    ensures
        r == occurs_at(chars@, pattern@, at as int),
{
    let total: usize = chars.len();
    if total - at < pattern.len() {
        return false;
    }
    let mut i: usize = 0;
    while i < pattern.len()
        invariant
            total == chars@.len(),
            at + pattern@.len() <= total,
            i <= pattern@.len(),
            forall|j: int| 0 <= j < i ==> chars@[at + j] == pattern@[j],
        decreases pattern@.len() - i,
    {
        if chars[at + i] != pattern[i] {
            assert(chars@.subrange(at as int, at + pattern@.len())[i as int] != pattern@[i as int]);
            return false;
        }
        i = i + 1;
    }
    assert(chars@.subrange(at as int, at + pattern@.len()) == pattern@);
    true
}

/// Whether `pattern` occurs in `s`.
pub fn contains_text(s: &str, pattern: &str) -> (r: bool)
    ensures
        r == has_text(s@, pattern@),
{
    let chars = chars_of(s);
    let p = chars_of(pattern);
    let mut i: usize = 0;
    while i < chars.len()
        invariant
            i <= chars@.len(),
            chars@ == s@,
            p@ == pattern@,
            forall|j: int| 0 <= j < i ==> !occurs_at(s@, pattern@, j),
        decreases chars@.len() - i,
    {
        if matches_at(&chars, i, &p) {
            return true;
        }
        i = i + 1;
    }
    matches_at(&chars, i, &p)
}

/// Whether `prefix` opens `s`.
pub open spec fn opens_with(s: Seq<char>, prefix: Seq<char>) -> bool {
    occurs_at(s, prefix, 0)
}

/// Whether `suffix` closes `s`.
pub open spec fn closes_with(s: Seq<char>, suffix: Seq<char>) -> bool {
    occurs_at(s, suffix, s.len() - suffix.len())
}

pub fn opens_with_char(s: &str, c: char) -> (r: bool)
    ensures
        r == (s@.len() > 0 && s@[0] == c),
{
    let chars = chars_of(s);
    chars.len() > 0 && chars[0] == c
}

pub fn starts_with(s: &str, prefix: &str) -> (r: bool)
    ensures
        r == opens_with(s@, prefix@),
{
    matches_at(&chars_of(s), 0, &chars_of(prefix))
}

pub fn ends_with(s: &str, suffix: &str) -> (r: bool)
    ensures
        r == closes_with(s@, suffix@),
{
    let chars = chars_of(s);
    let p = chars_of(suffix);
    if p.len() > chars.len() {
        false
    } else {
        matches_at(&chars, chars.len() - p.len(), &p)
    }
}

/// What follows `prefix` in `s`, when `s` opens with it.
pub open spec fn after_prefix(s: Seq<char>, prefix: Seq<char>) -> Option<Seq<char>> {
    if opens_with(s, prefix) {
        Some(s.skip(prefix.len() as int))
    } else {
        None
    }
}

pub fn strip_prefix(s: &str, prefix: &str) -> (r: Option<String>)
    ensures
        opt_text(r) == after_prefix(s@, prefix@),
{
    let chars = chars_of(s);
    let p = chars_of(prefix);
    if matches_at(&chars, 0, &p) {
        let rest = string_between(&chars, p.len(), chars.len());
        assert(rest@ == s@.skip(prefix@.len() as int));
        Some(rest)
    } else {
        None
    }
}

// ---------------------------------------------------------------------------
// Splitting

/// The two sides of the first `c`, when there is one.
pub open spec fn cut_at(s: Seq<char>, c: char) -> Option<(Seq<char>, Seq<char>)> {
    let i = first_at(s, c) as int;
    if i < s.len() {
        Some((s.take(i), s.skip(i + 1)))
    } else {
        None
    }
}

pub fn split_once(s: &str, c: char) -> (r: Option<(String, String)>)
    ensures
        (match r {
            Some(p) => cut_at(s@, c) == Some((p.0@, p.1@)),
            None => cut_at(s@, c) is None,
        }),
{
    let chars = chars_of(s);
    let i = find_from(&chars, 0, c);
    assert(s@.skip(0) == s@);
    if i < chars.len() {
        let a = string_between(&chars, 0, i);
        let b = string_between(&chars, i + 1, chars.len());
        assert(a@ == s@.take(i as int));
        assert(b@ == s@.skip(i + 1));
        Some((a, b))
    } else {
        None
    }
}

/// The pieces of `s` between occurrences of `c`; one piece when there is none.
pub open spec fn pieces(s: Seq<char>, c: char) -> Seq<Seq<char>>
    decreases s.len(),
{
    let i = first_at(s, c) as int;
    if i >= s.len() {
        seq![s]
    } else {
        seq![s.take(i)] + pieces(s.skip(i + 1), c)
    }
}

pub fn split(s: &str, c: char) -> (r: Vec<String>)
    ensures
        texts(r@) == pieces(s@, c),
{
    let chars = chars_of(s);
    let mut out: Vec<String> = Vec::new();
    let mut i: usize = 0;
    assert(s@.skip(0) == s@);
    assert(texts(out@) + pieces(s@.skip(0), c) == pieces(s@, c));
    loop
        invariant
            i <= chars@.len(),
            chars@ == s@,
            texts(out@) + pieces(s@.skip(i as int), c) == pieces(s@, c),
        decreases chars@.len() + 1 - i,
    {
        let j = find_from(&chars, i, c);
        let piece = string_between(&chars, i, j);
        let ghost before = texts(out@);
        let ghost rest = s@.skip(i as int);
        assert(piece@ == rest.take(j - i));
        out.push(piece);
        assert(texts(out@) == before.push(piece@));
        if j >= chars.len() {
            assert(rest.take(j - i) == rest);
            assert(texts(out@) == before + seq![rest]);
            return out;
        }
        assert(rest.skip(j - i + 1) == s@.skip(j + 1));
        assert(texts(out@) + pieces(s@.skip(j + 1), c) == before + (seq![rest.take(j - i)]
            + pieces(rest.skip(j - i + 1), c)));
        i = j + 1;
    }
}

/// `s` without one trailing carriage return.
pub open spec fn without_cr(s: Seq<char>) -> Seq<char> {
    if s.len() > 0 && s.last() == '\r' {
        s.drop_last()
    } else {
        s
    }
}

/// Lines of `s`: a line ends at `\n` or `\r\n`, the final terminator is
/// optional and yields no empty line of its own.
pub open spec fn line_texts(s: Seq<char>) -> Seq<Seq<char>>
    decreases s.len(),
{
    let i = first_at(s, '\n') as int;
    if s.len() == 0 {
        Seq::empty()
    } else if i >= s.len() {
        seq![s]
    } else {
        seq![without_cr(s.take(i))] + line_texts(s.skip(i + 1))
    }
}

pub fn lines(s: &str) -> (r: Vec<String>)
    ensures
        texts(r@) == line_texts(s@),
{
    let chars = chars_of(s);
    let mut out: Vec<String> = Vec::new();
    let mut i: usize = 0;
    assert(s@.skip(0) == s@);
    assert(texts(out@) + line_texts(s@.skip(0)) == line_texts(s@));
    while i < chars.len()
        invariant
            i <= chars@.len(),
            chars@ == s@,
            texts(out@) + line_texts(s@.skip(i as int)) == line_texts(s@),
        decreases chars@.len() - i,
    {
        let j = find_from(&chars, i, '\n');
        let ghost before = texts(out@);
        let ghost rest = s@.skip(i as int);
        if j >= chars.len() {
            let last = string_between(&chars, i, j);
            assert(last@ == rest);
            out.push(last);
            assert(texts(out@) == before + seq![rest]);
            return out;
        }
        let end: usize = if j > i && chars[j - 1] == '\r' {
            j - 1
        } else {
            j
        };
        let line = string_between(&chars, i, end);
        assert(line@ == without_cr(rest.take(j - i)));
        out.push(line);
        assert(texts(out@) == before.push(line@));
        assert(rest.skip(j - i + 1) == s@.skip(j + 1));
        assert(texts(out@) + line_texts(s@.skip(j + 1)) == before + (seq![line@] + line_texts(
            rest.skip(j - i + 1),
        )));
        i = j + 1;
    }
    assert(s@.skip(i as int).len() == 0);
    assert(texts(out@) + line_texts(s@.skip(i as int)) == texts(out@));
    out
}

/// Texts joined with a separator between neighbours.
pub open spec fn joined(parts: Seq<Seq<char>>, sep: Seq<char>) -> Seq<char>
    decreases parts.len(),
{
    if parts.len() == 0 {
        Seq::empty()
    } else if parts.len() == 1 {
        parts[0]
    } else {
        joined(parts.drop_last(), sep) + sep + parts.last()
    }
}

pub fn join(parts: &Vec<String>, sep: &str) -> (r: String)
    ensures
        r@ == joined(texts(parts@), sep@),
{
    let mut out = String::new();
    let mut i: usize = 0;
    assert(texts(parts@).take(0).len() == 0);
    while i < parts.len()
        invariant
            i <= parts@.len(),
            out@ == joined(texts(parts@).take(i as int), sep@),
        decreases parts@.len() - i,
    {
        assert(texts(parts@).take(i + 1).drop_last() == texts(parts@).take(i as int));
        if i > 0 {
            out.append(sep);
            out.append(parts[i].as_str());
        } else {
            out.append(parts[i].as_str());
            assert(out@ == parts@[0]@);
        }
        i = i + 1;
    }
    assert(texts(parts@).take(parts@.len() as int) == texts(parts@));
    out
}

// ---------------------------------------------------------------------------
// Trimming and replacing

/// `s` without the trailing characters that satisfy `drop`.
pub open spec fn trimmed_end(s: Seq<char>, drop: spec_fn(char) -> bool) -> Seq<char>
    decreases s.len(),
{
    if s.len() > 0 && drop(s.last()) {
        trimmed_end(s.drop_last(), drop)
    } else {
        s
    }
}

/// `s` without the leading characters that satisfy `drop`.
pub open spec fn trimmed_start(s: Seq<char>, drop: spec_fn(char) -> bool) -> Seq<char>
    decreases s.len(),
{
    if s.len() > 0 && drop(s[0]) {
        trimmed_start(s.skip(1), drop)
    } else {
        s
    }
}

/// What is left of a trimmed text does not start with what was dropped.
pub proof fn lemma_trimmed_start(s: Seq<char>, drop: spec_fn(char) -> bool)
    ensures
        trimmed_start(s, drop).len() > 0 ==> !drop(trimmed_start(s, drop)[0]),
    decreases s.len(),
{
    if s.len() > 0 && drop(s[0]) {
        lemma_trimmed_start(s.skip(1), drop);
    }
}

/// The white-space predicate as a function value.
pub open spec fn white() -> spec_fn(char) -> bool {
    |c: char| is_white_space(c)
}

/// The predicate that holds of one character only.
pub open spec fn only(x: char) -> spec_fn(char) -> bool {
    |c: char| c == x
}

/// `s` without leading and trailing white space.
pub open spec fn trimmed(s: Seq<char>) -> Seq<char> {
    trimmed_start(trimmed_end(s, white()), white())
}

/// `s` without trailing white space.
pub fn trim_end(s: &str) -> (r: String)
    ensures
        r@ == trimmed_end(s@, white()),
{
    let chars = chars_of(s);
    let mut hi: usize = chars.len();
    assert(s@.take(hi as int) == s@);
    while hi > 0 && chars[hi - 1].is_whitespace()
        invariant
            hi <= chars@.len(),
            chars@ == s@,
            trimmed_end(s@.take(hi as int), white()) == trimmed_end(s@, white()),
        decreases hi,
    {
        assert(s@.take(hi as int).drop_last() == s@.take(hi - 1));
        hi = hi - 1;
    }
    let r = string_between(&chars, 0, hi);
    assert(r@ == s@.take(hi as int));
    r
}

/// `s` without leading and trailing white space.
pub fn trim(s: &str) -> (r: String)
    ensures
        r@ == trimmed(s@),
{
    let ended = trim_end(s);
    let chars = chars_of(ended.as_str());
    let mut lo: usize = 0;
    assert(ended@.skip(0) == ended@);
    while lo < chars.len() && chars[lo].is_whitespace()
        invariant
            lo <= chars@.len(),
            chars@ == ended@,
            trimmed_start(ended@.skip(lo as int), white()) == trimmed_start(ended@, white()),
        decreases chars@.len() - lo,
    {
        assert(ended@.skip(lo as int).skip(1) == ended@.skip(lo + 1));
        lo = lo + 1;
    }
    let r = string_between(&chars, lo, chars.len());
    assert(r@ == ended@.skip(lo as int));
    r
}

/// `s` without trailing occurrences of `x`.
pub fn trim_end_char(s: &str, x: char) -> (r: String)
    ensures
        r@ == trimmed_end(s@, only(x)),
{
    let chars = chars_of(s);
    let mut hi: usize = chars.len();
    assert(s@.take(hi as int) == s@);
    while hi > 0 && chars[hi - 1] == x
        invariant
            hi <= chars@.len(),
            chars@ == s@,
            trimmed_end(s@.take(hi as int), only(x)) == trimmed_end(s@, only(x)),
        decreases hi,
    {
        assert(s@.take(hi as int).drop_last() == s@.take(hi - 1));
        hi = hi - 1;
    }
    let r = string_between(&chars, 0, hi);
    assert(r@ == s@.take(hi as int));
    r
}

/// `s` without leading occurrences of `x`.
pub fn trim_start_char(s: &str, x: char) -> (r: String)
    ensures
        r@ == trimmed_start(s@, only(x)),
{
    let chars = chars_of(s);
    let mut lo: usize = 0;
    assert(s@.skip(0) == s@);
    while lo < chars.len() && chars[lo] == x
        invariant
            lo <= chars@.len(),
            chars@ == s@,
            trimmed_start(s@.skip(lo as int), only(x)) == trimmed_start(s@, only(x)),
        decreases chars@.len() - lo,
    {
        assert(s@.skip(lo as int).skip(1) == s@.skip(lo + 1));
        lo = lo + 1;
    }
    let r = string_between(&chars, lo, chars.len());
    assert(r@ == s@.skip(lo as int));
    r
}

/// `s` with every occurrence of `a` or `b` turned into `to`.
pub open spec fn mapped_chars(s: Seq<char>, a: char, b: char, to: char) -> Seq<char> {
    Seq::new(
        s.len(),
        |i: int|
            if s[i] == a || s[i] == b {
                to
            } else {
                s[i]
            },
    )
}

pub fn replace_chars(s: &str, a: char, b: char, to: char) -> (r: String)
    ensures
        r@ == mapped_chars(s@, a, b, to),
{
    let chars = chars_of(s);
    let mut out = String::new();
    let mut i: usize = 0;
    while i < chars.len()
        invariant
            i <= chars@.len(),
            chars@ == s@,
            out@ == mapped_chars(s@, a, b, to).take(i as int),
        decreases chars@.len() - i,
    {
        let c: char = if chars[i] == a || chars[i] == b {
            to
        } else {
            chars[i]
        };
        out.push(c);
        assert(mapped_chars(s@, a, b, to).take(i + 1) == mapped_chars(s@, a, b, to).take(
            i as int,
        ).push(c));
        i = i + 1;
    }
    assert(mapped_chars(s@, a, b, to).take(s@.len() as int) == mapped_chars(s@, a, b, to));
    out
}

/// `s` with every occurrence of `from`, taken from the left without overlap,
/// replaced by `to`.
pub open spec fn replaced(s: Seq<char>, from: Seq<char>, to: Seq<char>) -> Seq<char>
    decreases s.len(),
{
    if s.len() == 0 || from.len() == 0 {
        s
    } else if opens_with(s, from) {
        to + replaced(s.skip(from.len() as int), from, to)
    } else {
        seq![s[0]] + replaced(s.skip(1), from, to)
    }
}

/// Replaces every occurrence of a non-empty `from`.
pub fn replace(s: &str, from: &str, to: &str) -> (r: String)
    requires
        from@.len() > 0,
    ensures
        r@ == replaced(s@, from@, to@),
{
    let chars = chars_of(s);
    let p = chars_of(from);
    let mut out = String::new();
    let mut i: usize = 0;
    assert(s@.skip(0) == s@);
    assert(out@ + replaced(s@.skip(0), from@, to@) == replaced(s@, from@, to@));
    while i < chars.len()
        invariant
            i <= chars@.len(),
            chars@ == s@,
            p@ == from@,
            from@.len() > 0,
            out@ + replaced(s@.skip(i as int), from@, to@) == replaced(s@, from@, to@),
        decreases chars@.len() - i,
    {
        let ghost rest = s@.skip(i as int);
        let ghost before = out@;
        let here = matches_at(&chars, i, &p);
        proof {
            if i + from@.len() <= s@.len() {
                assert(rest.subrange(0, from@.len() as int) == s@.subrange(
                    i as int,
                    i + from@.len(),
                ));
            }
            assert(here == opens_with(rest, from@));
        }
        if here {
            out.append(to);
            assert(rest.skip(from@.len() as int) == s@.skip(i + from@.len()));
            assert(out@ + replaced(s@.skip(i + from@.len()), from@, to@) == before + (to@
                + replaced(rest.skip(from@.len() as int), from@, to@)));
            i = i + p.len();
        } else {
            out.push(chars[i]);
            assert(rest.skip(1) == s@.skip(i + 1));
            assert(out@ + replaced(s@.skip(i + 1), from@, to@) == before + (seq![rest[0]]
                + replaced(rest.skip(1), from@, to@)));
            i = i + 1;
        }
    }
    assert(s@.skip(i as int).len() == 0);
    assert(out@ + replaced(s@.skip(i as int), from@, to@) == out@);
    out
}

/// Equality that ignores the case of ASCII letters.
pub open spec fn same_ignoring_case(a: Seq<char>, b: Seq<char>) -> bool {
    a.len() == b.len() && forall|i: int|
        0 <= i < a.len() ==> ascii_lower(#[trigger] a[i]) == ascii_lower(b[i])
}

pub fn eq_ignore_case(a: &str, b: &str) -> (r: bool)
    ensures
        r == same_ignoring_case(a@, b@),
{
    let x = chars_of(a);
    let y = chars_of(b);
    if x.len() != y.len() {
        return false;
    }
    let mut i: usize = 0;
    while i < x.len()
        invariant
            i <= x@.len(),
            x@ == a@,
            y@ == b@,
            x@.len() == y@.len(),
            forall|j: int| 0 <= j < i ==> ascii_lower(#[trigger] a@[j]) == ascii_lower(b@[j]),
        decreases x@.len() - i,
    {
        if to_ascii_lower(x[i]) != to_ascii_lower(y[i]) {
            assert(ascii_lower(a@[i as int]) != ascii_lower(b@[i as int]));
            return false;
        }
        i = i + 1;
    }
    true
}

// ---------------------------------------------------------------------------
// Order

/// Lexicographic order by character, the order of the standard library's
/// string comparison.
pub open spec fn text_lt(a: Seq<char>, b: Seq<char>) -> bool
    decreases a.len(),
{
    if b.len() == 0 {
        false
    } else if a.len() == 0 {
        true
    } else if a[0] != b[0] {
        a[0] < b[0]
    } else {
        text_lt(a.skip(1), b.skip(1))
    }
}

/// The first character that differs decides the order.
pub proof fn lemma_first_difference(a: Seq<char>, b: Seq<char>, k: int)
    requires
        0 <= k < a.len(),
        k < b.len(),
        forall|i: int| 0 <= i < k ==> a[i] == b[i],
        a[k] < b[k],
    ensures
        text_lt(a, b),
    decreases k,
{
    if k > 0 {
        assert(a[0] == b[0]);
        lemma_first_difference(a.skip(1), b.skip(1), k - 1);
    }
}

/// The order is total: two texts are equal or one precedes the other, never
/// both.
pub proof fn lemma_text_order_total(a: Seq<char>, b: Seq<char>)
    ensures
        text_lt(a, b) ==> !text_lt(b, a) && a != b,
        !text_lt(a, b) && !text_lt(b, a) ==> a == b,
    decreases a.len(),
{
    if a.len() > 0 && b.len() > 0 && a[0] == b[0] {
        lemma_text_order_total(a.skip(1), b.skip(1));
        if a.skip(1) == b.skip(1) {
            assert(a == seq![a[0]] + a.skip(1));
            assert(b == seq![b[0]] + b.skip(1));
        }
    } else if a.len() == 0 && b.len() == 0 {
        assert(a == b);
    }
}

pub proof fn lemma_text_lt_transitive(a: Seq<char>, b: Seq<char>, c: Seq<char>)
    requires
        text_lt(a, b),
        text_lt(b, c),
    ensures
        text_lt(a, c),
    decreases a.len(),
{
    if a.len() > 0 && a[0] == b[0] && b[0] == c[0] {
        lemma_text_lt_transitive(a.skip(1), b.skip(1), c.skip(1));
    }
}

pub fn precedes(a: &str, b: &str) -> (r: bool)
    ensures
        r == text_lt(a@, b@),
{
    let x = chars_of(a);
    let y = chars_of(b);
    let mut i: usize = 0;
    assert(a@.skip(0) == a@ && b@.skip(0) == b@);
    while i < x.len() && i < y.len() && x[i] == y[i]
        invariant
            i <= x@.len(),
            i <= y@.len(),
            x@ == a@,
            y@ == b@,
            text_lt(a@.skip(i as int), b@.skip(i as int)) == text_lt(a@, b@),
        decreases x@.len() - i,
    {
        assert(a@.skip(i as int).skip(1) == a@.skip(i + 1));
        assert(b@.skip(i as int).skip(1) == b@.skip(i + 1));
        i = i + 1;
    }
    if i >= y.len() {
        false
    } else if i >= x.len() {
        true
    } else {
        x[i] < y[i]
    }
}

// ---------------------------------------------------------------------------
// Decimal numerals

/// The character of one decimal digit.
pub open spec fn digit_char(d: int) -> char {
    (48 + d) as char
}

/// The decimal numeral of a natural number, without leading zeros.
pub open spec fn nat_text(n: nat) -> Seq<char>
    decreases n,
{
    if n < 10 {
        seq![digit_char(n as int)]
    } else {
        nat_text(n / 10).push(digit_char((n % 10) as int))
    }
}

/// The decimal numeral of an integer, with a leading `-` when negative.
pub open spec fn int_text(i: int) -> Seq<char> {
    if i < 0 {
        seq!['-'] + nat_text((-i) as nat)
    } else {
        nat_text(i as nat)
    }
}

/// A numeral filled with zeros on the left up to `width` characters.
pub open spec fn padded_nat(n: nat, width: nat) -> Seq<char> {
    if nat_text(n).len() >= width {
        nat_text(n)
    } else {
        Seq::new((width - nat_text(n).len()) as nat, |i: int| '0') + nat_text(n)
    }
}

/// A signed numeral filled with zeros between the sign and the digits.
pub open spec fn padded_int(i: int, width: nat) -> Seq<char> {
    if i < 0 {
        seq!['-'] + padded_nat((-i) as nat, if width == 0 { 0 } else { (width - 1) as nat })
    } else {
        padded_nat(i as nat, width)
    }
}

/// Up to two digits, two characters wide.
pub proof fn lemma_padded_two(n: int)
    requires
        0 <= n < 100,
    ensures
        padded_int(n, 2) =~= seq![digit_char(n / 10), digit_char(n % 10)],
{
    reveal_with_fuel(nat_text, 2);
}

/// Up to four digits, four characters wide.
pub proof fn lemma_padded_four(n: int)
    requires
        0 <= n < 10_000,
    ensures
        padded_int(n, 4) =~= seq![
            digit_char(n / 1_000),
            digit_char(n / 100 % 10),
            digit_char(n / 10 % 10),
            digit_char(n % 10),
        ],
{
    reveal_with_fuel(nat_text, 4);
    assert(n / 10 / 10 == n / 100);
    assert(n / 100 / 10 == n / 1_000);
}

fn digit(d: u64) -> (r: char)
    requires
        d < 10,
    ensures
        r == digit_char(d as int),
{
    (48u8 + d as u8) as char
}

pub fn u128_string(n: u128) -> (r: String)
    ensures
        r@ == nat_text(n as nat),
    decreases n,
{
    if n < 10 {
        let mut s = String::new();
        s.push(digit(n as u64));
        assert(s@ == nat_text(n as nat));
        s
    } else {
        let mut s = u128_string(n / 10);
        s.push(digit((n % 10) as u64));
        s
    }
}

pub fn u64_string(n: u64) -> (r: String)
    ensures
        r@ == nat_text(n as nat),
{
    u128_string(n as u128)
}

pub fn u32_string(n: u32) -> (r: String)
    ensures
        r@ == nat_text(n as nat),
{
    u64_string(n as u64)
}

pub fn i128_string(i: i128) -> (r: String)
    ensures
        r@ == int_text(i as int),
{
    if i < 0 {
        let magnitude: u128 = if i == i128::MIN {
            170_141_183_460_469_231_731_687_303_715_884_105_728
        } else {
            (-i) as u128
        };
        let digits = u128_string(magnitude);
        let mut s = String::new();
        s.push('-');
        s.append(digits.as_str());
        assert(s@ == seq!['-'] + digits@);
        s
    } else {
        u128_string(i as u128)
    }
}

pub fn i64_string(i: i64) -> (r: String)
    ensures
        r@ == int_text(i as int),
{
    i128_string(i as i128)
}

pub fn i32_string(i: i32) -> (r: String)
    ensures
        r@ == int_text(i as int),
{
    i64_string(i as i64)
}

pub fn padded_u64(n: u64, width: usize) -> (r: String)
    ensures
        r@ == padded_nat(n as nat, width as nat),
{
    let digits = u64_string(n);
    let have: usize = digits.as_str().unicode_len();
    let mut out = String::new();
    let mut i: usize = have;
    while i < width
        invariant
            have <= i,
            i <= width || i == have,
            out@ == Seq::new((i - have) as nat, |k: int| '0'),
        decreases width - i,
    {
        out.push('0');
        assert(out@ == Seq::new((i + 1 - have) as nat, |k: int| '0'));
        i = i + 1;
    }
    out.append(digits.as_str());
    assert(have >= width ==> out@ == digits@);
    out
}

pub fn padded_i64(i: i64, width: usize) -> (r: String)
    ensures
        r@ == padded_int(i as int, width as nat),
{
    if i < 0 {
        let magnitude: u64 = if i == i64::MIN {
            9_223_372_036_854_775_808
        } else {
            (-i) as u64
        };
        let digits = padded_u64(
            magnitude,
            if width == 0 {
                0
            } else {
                width - 1
            },
        );
        let mut s = String::new();
        s.push('-');
        s.append(digits.as_str());
        assert(s@ == seq!['-'] + digits@);
        s
    } else {
        padded_u64(i as u64, width)
    }
}

/// Whether every character is an ASCII decimal digit.
pub open spec fn all_digits(s: Seq<char>) -> bool {
    forall|i: int| 0 <= i < s.len() ==> '0' <= #[trigger] s[i] <= '9'
}

/// The number written by a sequence of digits.
pub open spec fn digits_value(s: Seq<char>) -> nat
    decreases s.len(),
{
    if s.len() == 0 {
        0
    } else {
        digits_value(s.drop_last()) * 10 + ((s.last() as int - 48) as nat)
    }
}

/// The integer that a text denotes: an optional sign, then one or more
/// digits. A `-` is a sign only where negative numbers are allowed.
pub open spec fn denoted(s: Seq<char>, signed: bool) -> Option<int> {
    if s.len() > 0 && s[0] == '+' {
        unsigned_denoted(s.skip(1))
    } else if signed && s.len() > 0 && s[0] == '-' {
        match unsigned_denoted(s.skip(1)) {
            Some(n) => Some(-n),
            None => None,
        }
    } else {
        unsigned_denoted(s)
    }
}

pub open spec fn unsigned_denoted(s: Seq<char>) -> Option<int> {
    if s.len() > 0 && all_digits(s) {
        Some(digits_value(s) as int)
    } else {
        None
    }
}

/// The integer that a text denotes, where it lies in `lo..=hi`.
pub open spec fn parsed_in(s: Seq<char>, signed: bool, lo: int, hi: int) -> Option<int> {
    match denoted(s, signed) {
        Some(n) => if lo <= n <= hi {
            Some(n)
        } else {
            None
        },
        None => None,
    }
}

/// The value of a digit run when it does not exceed `limit`.
fn digits_upto(chars: &Vec<char>, from: usize, limit: u64) -> (r: Option<u64>)
    requires
        from <= chars@.len(),
    ensures
        r == match unsigned_denoted(chars@.skip(from as int)) {
            Some(n) => if n <= limit {
                Some(n as u64)
            } else {
                None
            },
            None => None,
        },
{
    let ghost s = chars@.skip(from as int);
    let total: usize = chars.len();
    if from == total {
        return None;
    }
    let mut value: u128 = 0;
    let mut i: usize = from;
    let mut over: bool = false;
    assert(s.take(0).len() == 0);
    while i < total
        invariant
            from <= i <= total,
            total == chars@.len(),
            s == chars@.skip(from as int),
            all_digits(s.take(i - from)),
            over ==> digits_value(s.take(i - from)) > limit,
            !over ==> value == digits_value(s.take(i - from)) && value <= limit,
        decreases total - i,
    {
        let c = chars[i];
        assert(s[i - from] == c);
        if c < '0' || c > '9' {
            assert(!all_digits(s));
            return None;
        }
        proof {
            assert(s.take(i + 1 - from).drop_last() == s.take(i - from));
            assert(s.take(i + 1 - from).last() == c);
            assert forall|j: int| 0 <= j < i + 1 - from implies '0' <= #[trigger] s.take(
                i + 1 - from,
            )[j] <= '9' by {
                if j < i - from {
                    assert(s.take(i - from)[j] == s[j]);
                }
            }
        }
        if !over {
            value = value * 10 + ((c as u32) - 48) as u128;
            if value > limit as u128 {
                over = true;
            }
        }
        i = i + 1;
    }
    assert(s.take(total - from) == s);
    if over {
        None
    } else {
        Some(value as u64)
    }
}

/// Reads an unsigned integer no larger than `limit`.
pub fn parse_u64_upto(s: &str, limit: u64) -> (r: Option<u64>)
    ensures
        r == match parsed_in(s@, false, 0, limit as int) {
            Some(n) => Some(n as u64),
            None => None,
        },
{
    let chars = chars_of(s);
    assert(s@.skip(0) == s@);
    if chars.len() > 0 && chars[0] == '+' {
        digits_upto(&chars, 1, limit)
    } else {
        digits_upto(&chars, 0, limit)
    }
}

/// Reads an unsigned 32-bit integer.
pub fn parse_u32(s: &str) -> (r: Option<u32>)
    ensures
        r == match parsed_in(s@, false, 0, u32::MAX as int) {
            Some(n) => Some(n as u32),
            None => None,
        },
{
    match parse_u64_upto(s, u32::MAX as u64) {
        Some(n) => Some(n as u32),
        None => None,
    }
}

/// Reads an unsigned 64-bit integer.
pub fn parse_u64(s: &str) -> (r: Option<u64>)
    ensures
        r == match parsed_in(s@, false, 0, u64::MAX as int) {
            Some(n) => Some(n as u64),
            None => None,
        },
{
    parse_u64_upto(s, u64::MAX)
}

/// Reads a signed 32-bit integer.
pub fn parse_i32(s: &str) -> (r: Option<i32>)
    ensures
        r == match parsed_in(s@, true, i32::MIN as int, i32::MAX as int) {
            Some(n) => Some(n as i32),
            None => None,
        },
{
    let chars = chars_of(s);
    if chars.len() > 0 && chars[0] == '-' {
        match digits_upto(&chars, 1, 2_147_483_648) {
            Some(n) => Some((0 - n as i64) as i32),
            None => None,
        }
    } else {
        match parse_u64_upto(s, 2_147_483_647) {
            Some(n) => Some(n as i32),
            None => None,
        }
    }
}

proof fn lemma_nat_text_digits(n: nat)
    ensures
        nat_text(n).len() > 0,
        all_digits(nat_text(n)),
        digits_value(nat_text(n)) == n,
    decreases n,
{
    if n < 10 {
        let s = nat_text(n);
        assert(s.drop_last().len() == 0);
        assert(digits_value(s.drop_last()) == 0);
        assert(s.last() == digit_char(n as int));
    } else {
        lemma_nat_text_digits(n / 10);
        let s = nat_text(n);
        assert(s.drop_last() == nat_text(n / 10));
        assert(s.last() == digit_char((n % 10) as int));
        assert forall|i: int| 0 <= i < s.len() implies '0' <= #[trigger] s[i] <= '9' by {
            if i < nat_text(n / 10).len() {
                assert(s[i] == nat_text(n / 10)[i]);
            }
        }
    }
}

/// Reading back a written integer gives the integer.
pub proof fn lemma_int_text_denotes(i: int)
    ensures
        denoted(int_text(i), true) == Some(i),
        i >= 0 ==> denoted(int_text(i), false) == Some(i),
        i >= 0 ==> unsigned_denoted(int_text(i)) == Some(i),
{
    if i < 0 {
        lemma_nat_text_digits((-i) as nat);
        assert(int_text(i).skip(1) == nat_text((-i) as nat));
    } else {
        lemma_nat_text_digits(i as nat);
        assert('0' <= nat_text(i as nat)[0] <= '9');
    }
}

/// How many digits a text starts with.
pub open spec fn leading_digits(s: Seq<char>) -> nat
    decreases s.len(),
{
    if s.len() > 0 && '0' <= s[0] <= '9' {
        1 + leading_digits(s.skip(1))
    } else {
        0
    }
}

/// Why a text is no signed integer of `lo..=hi`, as the standard library words
/// it: the first thing that goes wrong from left to right.
pub open spec fn int_problem(s: Seq<char>, lo: int, hi: int) -> Seq<char> {
    let signed = s.len() > 0 && (s[0] == '-' || s[0] == '+');
    let body = if signed {
        s.skip(1)
    } else {
        s
    };
    let run = digits_value(body.take(leading_digits(body) as int)) as int;
    if s.len() == 0 {
        "cannot parse integer from empty string"@
    } else if s[0] == '-' && -run < lo {
        "number too small to fit in target type"@
    } else if s[0] != '-' && run > hi {
        "number too large to fit in target type"@
    } else {
        "invalid digit found in string"@
    }
}

proof fn lemma_leading_digits(s: Seq<char>, n: int)
    requires
        0 <= n <= s.len(),
        forall|i: int| 0 <= i < n ==> '0' <= #[trigger] s[i] <= '9',
        n < s.len() ==> !('0' <= s[n] <= '9'),
    ensures
        leading_digits(s) == n,
    decreases n,
{
    if n > 0 {
        assert('0' <= s[0] <= '9');
        assert forall|i: int| 0 <= i < n - 1 implies '0' <= #[trigger] s.skip(1)[i] <= '9' by {
            assert('0' <= s[i + 1] <= '9');
        }
        lemma_leading_digits(s.skip(1), n - 1);
    }
}

/// Why a text is no signed 32-bit integer.
pub fn i32_problem(s: &str) -> (r: String)
    ensures
        r@ == int_problem(s@, i32::MIN as int, i32::MAX as int),
{
    let chars = chars_of(s);
    let n: usize = chars.len();
    if n == 0 {
        return "cannot parse integer from empty string".to_owned();
    }
    let negative: bool = chars[0] == '-';
    let start: usize = if negative || chars[0] == '+' {
        1
    } else {
        0
    };
    let limit: u64 = if negative {
        2_147_483_648
    } else {
        2_147_483_647
    };
    let ghost body = s@.skip(start as int);
    let mut value: u64 = 0;
    let mut over: bool = false;
    let mut i: usize = start;
    assert(body.take(0).len() == 0);
    while i < n && chars[i] >= '0' && chars[i] <= '9'
        invariant
            start <= i <= n,
            n == chars@.len(),
            chars@ == s@,
            body == s@.skip(start as int),
            limit <= 2_147_483_648,
            forall|k: int| 0 <= k < i - start ==> '0' <= #[trigger] body[k] <= '9',
            over ==> digits_value(body.take(i - start)) > limit,
            !over ==> value == digits_value(body.take(i - start)) && value <= limit,
        decreases n - i,
    {
        assert(body[i - start] == chars@[i as int]);
        assert(body.take(i + 1 - start).drop_last() == body.take(i - start));
        assert(body.take(i + 1 - start).last() == chars@[i as int]);
        if !over {
            value = value * 10 + ((chars[i] as u32) - 48) as u64;
            if value > limit {
                over = true;
            }
        }
        i = i + 1;
    }
    proof {
        if i < n {
            assert(body[i - start] == chars@[i as int]);
        }
        lemma_leading_digits(body, i - start);
        assert(s@.skip(0) == s@);
    }
    if over {
        if negative {
            "number too small to fit in target type".to_owned()
        } else {
            "number too large to fit in target type".to_owned()
        }
    } else {
        "invalid digit found in string".to_owned()
    }
}

/// The character of one hexadecimal digit.
pub open spec fn hex_char(d: int) -> char {
    if d < 10 {
        (48 + d) as char
    } else {
        (87 + d) as char
    }
}

/// The `width` lowest hexadecimal digits of a number, most significant first.
pub open spec fn hex_text(n: nat, width: nat) -> Seq<char>
    decreases width,
{
    if width == 0 {
        Seq::empty()
    } else {
        hex_text(n / 16, (width - 1) as nat).push(hex_char((n % 16) as int))
    }
}

pub fn hex_string(n: u64, width: usize) -> (r: String)
    ensures
        r@ == hex_text(n as nat, width as nat),
    decreases width,
{
    if width == 0 {
        let s = String::new();
        assert(s@ == Seq::<char>::empty());
        s
    } else {
        let mut s = hex_string(n / 16, width - 1);
        let d: u8 = (n % 16) as u8;
        if d < 10 {
            s.push((48u8 + d) as char);
        } else {
            s.push((87u8 + d) as char);
        }
        s
    }
}

// ---------------------------------------------------------------------------
// Containment

/// A text contains itself.
pub proof fn lemma_has_itself(p: Seq<char>)
    ensures
        has_text(p, p),
{
    assert(p.subrange(0, p.len() as int) == p);
    assert(occurs_at(p, p, 0));
}

/// What a part of a text contains, the text contains.
pub proof fn lemma_has_part(a: Seq<char>, b: Seq<char>, p: Seq<char>)
    requires
        has_text(a, p) || has_text(b, p),
    ensures
        has_text(a + b, p),
{
    let s = a + b;
    if has_text(a, p) {
        let i = choose|i: int| occurs_at(a, p, i);
        assert(s.subrange(i, i + p.len()) == a.subrange(i, i + p.len()));
        assert(occurs_at(s, p, i));
    } else {
        let i = choose|i: int| occurs_at(b, p, i);
        let k = a.len() + i;
        assert(s.subrange(k, k + p.len()) == b.subrange(i, i + p.len()));
        assert(occurs_at(s, p, k));
    }
}

/// A text between two others is contained in the whole.
pub proof fn lemma_has_middle(a: Seq<char>, p: Seq<char>, b: Seq<char>)
    ensures
        has_text(a + p + b, p),
{
    lemma_has_itself(p);
    lemma_has_part(a, p, p);
    lemma_has_part(a + p, b, p);
}

} // verus!
