//! Operations on text that the other modules share.
use vstd::prelude::*;

verus! {

/// Whether Unicode gives `c` the `White_Space` property.
pub open spec fn white_space(c: char) -> bool {
    ||| '\u{9}' <= c <= '\u{d}'
    ||| c == ' '
    ||| c == '\u{85}'
    ||| c == '\u{a0}'
    ||| c == '\u{1680}'
    ||| '\u{2000}' <= c <= '\u{200a}'
    ||| c == '\u{2028}'
    ||| c == '\u{2029}'
    ||| c == '\u{202f}'
    ||| c == '\u{205f}'
    ||| c == '\u{3000}'
}

/// `char::is_whitespace`: the `White_Space` property of Unicode.
pub assume_specification[ char::is_whitespace ](c: char) -> (res: bool)
    ensures
        res == white_space(c),
;

/// `String::push`: appends one character.
pub assume_specification[ String::push ](text: &mut String, c: char)
    ensures
        final(text)@ == old(text)@.push(c),
;

/// The characters of `text`.
pub(crate) fn chars_of(text: &str) -> (chars: Vec<char>)
    ensures
        chars@ == text@,
{
    let mut chars: Vec<char> = Vec::new();
    for c in it: text.chars()
        invariant
            it.seq() == text@,
            chars@ == text@.take(it.index()),
    {
        chars.push(c);
        assert(chars@ == text@.take(it.index() + 1));
    }
    assert(text@.take(text@.len() as int) == text@);
    chars
}

/// The characters from `from` up to `to`, as a string.
pub(crate) fn string_of(chars: &Vec<char>, from: usize, to: usize) -> (text: String)
    requires
        from <= to <= chars@.len(),
    ensures
        text@ == chars@.subrange(from as int, to as int),
{
    let mut text = String::new();
    for i in from..to
        invariant
            from <= to <= chars@.len(),
            text@ == chars@.subrange(from as int, i as int),
    {
        text.push(chars[i]);
        assert(text@ == chars@.subrange(from as int, i + 1));
    }
    text
}

/// Whether two texts hold the same characters.
pub fn same_text(a: &str, b: &str) -> (same: bool)
    ensures
        same == (a@ == b@),
{
    a.to_owned() == b.to_owned()
}

/// The two texts one after the other.
pub(crate) fn join2(a: &str, b: &str) -> (text: String)
    ensures
        text@ == a@ + b@,
{
    let mut text = a.to_owned();
    text.append(b);
    text
}

/// The three texts one after the other.
pub(crate) fn join3(a: &str, b: &str, c: &str) -> (text: String)
    ensures
        text@ == a@ + b@ + c@,
{
    let mut text = a.to_owned();
    text.append(b);
    text.append(c);
    text
}

/// The digit for `d`, up to nine.
pub open spec fn digit(d: int) -> char {
    if d <= 0 {
        '0'
    } else if d == 1 {
        '1'
    } else if d == 2 {
        '2'
    } else if d == 3 {
        '3'
    } else if d == 4 {
        '4'
    } else if d == 5 {
        '5'
    } else if d == 6 {
        '6'
    } else if d == 7 {
        '7'
    } else if d == 8 {
        '8'
    } else {
        '9'
    }
}

fn digit_char(d: u64) -> (c: char)
    ensures
        c == digit(d as int),
{
    if d == 0 {
        '0'
    } else if d == 1 {
        '1'
    } else if d == 2 {
        '2'
    } else if d == 3 {
        '3'
    } else if d == 4 {
        '4'
    } else if d == 5 {
        '5'
    } else if d == 6 {
        '6'
    } else if d == 7 {
        '7'
    } else if d == 8 {
        '8'
    } else {
        '9'
    }
}

/// `n` in decimal, without leading zeros.
pub open spec fn decimal(n: nat) -> Seq<char>
    decreases n,
{
    if n < 10 {
        seq![digit(n as int)]
    } else {
        decimal(n / 10).push(digit((n % 10) as int))
    }
}

/// Writes `n` in decimal.
pub fn decimal_text(n: u64) -> (text: String)
    ensures
        text@ == decimal(n as nat),
    decreases n,
{
    if n < 10 {
        let mut text = String::new();
        text.push(digit_char(n));
        text
    } else {
        let mut text = decimal_text(n / 10);
        text.push(digit_char(n % 10));
        text
    }
}

/// Permission bits as four octal digits.
pub open spec fn octal_mode(mode: u32) -> Seq<char> {
    seq![
        digit(mode as int / 512 % 8),
        digit(mode as int / 64 % 8),
        digit(mode as int / 8 % 8),
        digit(mode as int % 8),
    ]
}

/// Writes permission bits as four octal digits.
pub fn octal_mode_text(mode: u32) -> (text: String)
    ensures
        text@ == octal_mode(mode),
{
    let mode: u64 = mode as u64;
    let mut text = String::new();
    text.push(digit_char(mode / 512 % 8));
    text.push(digit_char(mode / 64 % 8));
    text.push(digit_char(mode / 8 % 8));
    text.push(digit_char(mode % 8));
    text
}

/// `s` without the slashes it ends in.
pub open spec fn without_trailing_slashes(s: Seq<char>) -> Seq<char>
    decreases s.len(),
{
    if s.len() > 0 && s.last() == '/' {
        without_trailing_slashes(s.drop_last())
    } else {
        s
    }
}

/// Drops the slashes that `text` ends in.
pub fn trim_trailing_slashes(text: &str) -> (trimmed: String)
    ensures
        trimmed@ == without_trailing_slashes(text@),
{
    let chars = chars_of(text);
    let mut end: usize = chars.len();
    assert(text@.take(end as int) == text@);
    while end > 0 && chars[end - 1] == '/'
        invariant
            chars@ == text@,
            end <= chars@.len(),
            without_trailing_slashes(text@.take(end as int)) == without_trailing_slashes(text@),
        decreases end,
    {
        assert(text@.take(end as int).drop_last() == text@.take(end - 1));
        end = end - 1;
    }
    assert(chars@.subrange(0, end as int) == text@.take(end as int));
    string_of(&chars, 0, end)
}

/// `s` without the white space it starts with.
pub open spec fn without_leading_space(s: Seq<char>) -> Seq<char>
    decreases s.len(),
{
    if s.len() > 0 && white_space(s[0]) {
        without_leading_space(s.skip(1))
    } else {
        s
    }
}

/// `s` without the white space it ends in.
pub open spec fn without_trailing_space(s: Seq<char>) -> Seq<char>
    decreases s.len(),
{
    if s.len() > 0 && white_space(s.last()) {
        without_trailing_space(s.drop_last())
    } else {
        s
    }
}

/// Drops the white space at both ends of `text`.
pub fn trim_space(text: &str) -> (trimmed: String)
    ensures
        trimmed@ == without_trailing_space(without_leading_space(text@)),
{
    let chars = chars_of(text);
    let len: usize = chars.len();
    let mut start: usize = 0;
    assert(text@.skip(0) == text@);
    while start < len && chars[start].is_whitespace()
        invariant
            chars@ == text@,
            len == chars@.len(),
            start <= len,
            without_leading_space(text@.skip(start as int)) == without_leading_space(text@),
        decreases len - start,
    {
        assert(text@.skip(start as int).skip(1) == text@.skip(start + 1));
        start = start + 1;
    }
    let ghost rest = text@.skip(start as int);
    assert(rest == without_leading_space(text@));
    let mut end: usize = len;
    assert(rest.take(end - start) == rest);
    while end > start && chars[end - 1].is_whitespace()
        invariant
            chars@ == text@,
            start <= end <= chars@.len(),
            rest == text@.skip(start as int),
            without_trailing_space(rest.take(end - start)) == without_trailing_space(rest),
        decreases end - start,
    {
        assert(rest.take(end - start).drop_last() == rest.take(end - start - 1));
        assert(rest.take(end - start).last() == chars@[end - 1]);
        end = end - 1;
    }
    assert(chars@.subrange(start as int, end as int) == rest.take(end - start));
    if end > start {
        assert(rest.take(end - start).last() == chars@[end - 1]);
    }
    string_of(&chars, start, end)
}

/// `s` with each occurrence of `from` replaced by `to`, found from left to
/// right without overlap.
pub open spec fn replaced(s: Seq<char>, from: Seq<char>, to: Seq<char>) -> Seq<char>
    decreases s.len(),
{
    if from.len() == 0 || s.len() < from.len() {
        s
    } else if s.take(from.len() as int) == from {
        to + replaced(s.skip(from.len() as int), from, to)
    } else {
        seq![s[0]] + replaced(s.skip(1), from, to)
    }
}

fn found_at(chars: &Vec<char>, at: usize, pattern: &Vec<char>) -> (found: bool)
    requires
        at + pattern@.len() <= chars@.len(),
    ensures
        found == (chars@.skip(at as int).take(pattern@.len() as int) == pattern@),
{
    let len: usize = chars.len();
    for i in 0..pattern.len()
        invariant
            at + pattern@.len() <= chars@.len(),
            len == chars@.len(),
            forall|j: int| 0 <= j < i ==> chars@[at + j] == #[trigger] pattern@[j],
    {
        if chars[at + i] != pattern[i] {
            assert(chars@.skip(at as int).take(pattern@.len() as int)[i as int] != pattern@[i as int]);
            return false;
        }
    }
    assert(chars@.skip(at as int).take(pattern@.len() as int) =~= pattern@);
    true
}

/// Replaces each occurrence of `from` in `text` by `to`.
pub fn replace_all(text: &str, from: &str, to: &str) -> (result: String)
    requires
        from@.len() > 0,
    ensures
        result@ == replaced(text@, from@, to@),
{
    let chars = chars_of(text);
    let pattern = chars_of(from);
    let mut result = String::new();
    let mut i: usize = 0;
    assert(text@.skip(0) == text@);
    while chars.len() - i >= pattern.len()
        invariant
            chars@ == text@,
            pattern@ == from@,
            from@.len() > 0,
            i <= chars@.len(),
            result@ + replaced(text@.skip(i as int), from@, to@) == replaced(text@, from@, to@),
        decreases chars@.len() - i,
    {
        let ghost rest = text@.skip(i as int);
        if found_at(&chars, i, &pattern) {
            assert(rest.skip(from@.len() as int) == text@.skip(i + from@.len()));
            result.append(to);
            i = i + pattern.len();
        } else {
            assert(rest.skip(1) == text@.skip(i + 1));
            assert(rest[0] == chars@[i as int]);
            result.push(chars[i]);
            i = i + 1;
        }
        assert(result@ + replaced(text@.skip(i as int), from@, to@) == replaced(text@, from@, to@));
    }
    let tail = string_of(&chars, i, chars.len());
    assert(tail@ == text@.skip(i as int));
    result.append(tail.as_str());
    result
}

/// Dropping trailing slashes drops nothing else, and leaves none.
pub proof fn lemma_trailing_slashes(s: Seq<char>)
    ensures
        without_trailing_slashes(s).len() <= s.len(),
        s.take(without_trailing_slashes(s).len() as int) == without_trailing_slashes(s),
        forall|i: int| without_trailing_slashes(s).len() <= i < s.len() ==> #[trigger] s[i] == '/',
        without_trailing_slashes(s).len() > 0 ==> without_trailing_slashes(s).last() != '/',
    decreases s.len(),
{
    let r = without_trailing_slashes(s);
    if s.len() > 0 && s.last() == '/' {
        lemma_trailing_slashes(s.drop_last());
        assert(s.take(r.len() as int) =~= s.drop_last().take(r.len() as int));
        assert forall|i: int| r.len() <= i < s.len() implies #[trigger] s[i] == '/' by {
            if i < s.len() - 1 {
                assert(s.drop_last()[i] == '/');
            }
        }
    } else {
        assert(s.take(s.len() as int) =~= s);
    }
}

/// Dropping white space in front drops nothing else, and leaves none there.
pub proof fn lemma_leading_space(s: Seq<char>)
    ensures
        without_leading_space(s).len() <= s.len(),
        s.skip(s.len() - without_leading_space(s).len()) == without_leading_space(s),
        forall|i: int|
            0 <= i < s.len() - without_leading_space(s).len() ==> white_space(#[trigger] s[i]),
        without_leading_space(s).len() > 0 ==> !white_space(without_leading_space(s)[0]),
    decreases s.len(),
{
    let r = without_leading_space(s);
    if s.len() > 0 && white_space(s[0]) {
        let rest = s.skip(1);
        lemma_leading_space(rest);
        assert(s.skip(s.len() - r.len()) =~= rest.skip(rest.len() - r.len()));
        assert forall|i: int| 0 <= i < s.len() - r.len() implies white_space(#[trigger] s[i]) by {
            if i > 0 {
                assert(rest[i - 1] == s[i]);
            }
        }
    } else {
        assert(s.skip(0) =~= s);
    }
}

/// Dropping white space behind drops nothing else, and leaves none there.
pub proof fn lemma_trailing_space(s: Seq<char>)
    ensures
        without_trailing_space(s).len() <= s.len(),
        s.take(without_trailing_space(s).len() as int) == without_trailing_space(s),
        forall|i: int|
            without_trailing_space(s).len() <= i < s.len() ==> white_space(#[trigger] s[i]),
        without_trailing_space(s).len() > 0 ==> !white_space(without_trailing_space(s).last()),
    decreases s.len(),
{
    let r = without_trailing_space(s);
    if s.len() > 0 && white_space(s.last()) {
        lemma_trailing_space(s.drop_last());
        assert(s.take(r.len() as int) =~= s.drop_last().take(r.len() as int));
        assert forall|i: int| r.len() <= i < s.len() implies white_space(#[trigger] s[i]) by {
            if i < s.len() - 1 {
                assert(s.drop_last()[i] == s[i]);
            }
        }
    } else {
        assert(s.take(s.len() as int) =~= s);
    }
}

/// A number in decimal ends in its last digit, and in front of that stands a tenth of it;
/// a number below ten is one digit.
pub proof fn lemma_decimal_digits(n: nat)
    ensures
        decimal(n).len() > 0,
        decimal(n).last() as int == '0' as int + n % 10,
        n < 10 ==> decimal(n).len() == 1,
        n >= 10 ==> decimal(n).drop_last() == decimal(n / 10),
{
    if n >= 10 {
        assert(decimal(n).drop_last() =~= decimal(n / 10));
    }
}

/// What a number is written as, read digit by digit.
pub open spec fn decimal_value(s: Seq<char>) -> int
    decreases s.len(),
{
    if s.len() == 0 {
        0
    } else {
        10 * decimal_value(s.drop_last()) + (s.last() as int - '0' as int)
    }
}

/// A number in decimal is read back as it was, so no two numbers are written alike.
pub proof fn lemma_decimal_read_back(n: nat)
    ensures
        decimal_value(decimal(n)) == n,
    decreases n,
{
    lemma_decimal_digits(n);
    if n >= 10 {
        lemma_decimal_read_back(n / 10);
    } else {
        assert(decimal(n).drop_last() =~= Seq::empty());
        assert(decimal_value(decimal(n).drop_last()) == 0);
    }
}

/// Permission bits are written as the octal digits of their last twelve bits.
pub proof fn lemma_octal_mode(mode: u32)
    ensures
        octal_mode(mode).len() == 4,
        octal_mode(mode)[0] as int == '0' as int + mode as int / 512 % 8,
        octal_mode(mode)[1] as int == '0' as int + mode as int / 64 % 8,
        octal_mode(mode)[2] as int == '0' as int + mode as int / 8 % 8,
        octal_mode(mode)[3] as int == '0' as int + mode as int % 8,
{
}

/// A text without an occurrence stays as it is.
pub proof fn lemma_nothing_to_replace(s: Seq<char>, from: Seq<char>, to: Seq<char>)
    requires
        from.len() > 0,
        forall|i: int|
            0 <= i <= s.len() - from.len() ==> #[trigger] s.subrange(i, i + from.len()) != from,
    ensures
        replaced(s, from, to) == s,
    decreases s.len(),
{
    if s.len() >= from.len() {
        assert(s.take(from.len() as int) =~= s.subrange(0int, 0int + from.len()));
        let rest = s.skip(1);
        assert forall|i: int| 0 <= i <= rest.len() - from.len() implies #[trigger] rest.subrange(
            i,
            i + from.len(),
        ) != from by {
            assert(rest.subrange(i, i + from.len()) =~= s.subrange(i + 1, i + 1 + from.len()));
        }
        lemma_nothing_to_replace(rest, from, to);
        assert(seq![s[0]] + rest =~= s);
    }
}

/// The first occurrence gives way to `to`, what stands before it stays as it is, and what
/// stands behind it is replaced in its turn.
pub proof fn lemma_first_replaced(s: Seq<char>, from: Seq<char>, to: Seq<char>, at: int)
    requires
        from.len() > 0,
        0 <= at <= s.len() - from.len(),
        s.subrange(at, at + from.len()) == from,
        forall|i: int| 0 <= i < at ==> #[trigger] s.subrange(i, i + from.len()) != from,
    ensures
        replaced(s, from, to) == s.take(at) + to + replaced(s.skip(at + from.len()), from, to),
    decreases at,
{
    assert(s.take(from.len() as int) =~= s.subrange(0int, 0int + from.len()));
    if at == 0 {
        assert(s.take(0) + to =~= to);
    } else {
        let rest = s.skip(1);
        assert(rest.subrange(at - 1, at - 1 + from.len()) =~= s.subrange(at, at + from.len()));
        assert forall|i: int| 0 <= i < at - 1 implies #[trigger] rest.subrange(
            i,
            i + from.len(),
        ) != from by {
            assert(rest.subrange(i, i + from.len()) =~= s.subrange(i + 1, i + 1 + from.len()));
        }
        lemma_first_replaced(rest, from, to, at - 1);
        assert(rest.skip(at - 1 + from.len()) =~= s.skip(at + from.len()));
        assert(seq![s[0]] + (rest.take(at - 1) + to + replaced(s.skip(at + from.len()), from, to))
            =~= s.take(at) + to + replaced(s.skip(at + from.len()), from, to));
    }
}

} // verus!
