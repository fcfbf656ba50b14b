//! Operations on text: numbers in decimal, searching, splitting, trimming and
//! comparing. A text is modelled by the sequence of its characters.

use vstd::prelude::*;
use vstd::string::*;
use vstd::utf8::*;

verus! {

/// `String::push` appends one character to the end of the string.
pub assume_specification[ std::string::String::push ](s: &mut std::string::String, c: char)
    ensures
        final(s)@ == old(s)@.push(c),
;

/// `std::str::from_utf8` reads bytes as text. It succeeds exactly on valid
/// UTF-8 and then gives the characters that the bytes encode.
#[verifier::external_body]
pub(crate) fn utf8_text(bytes: &[u8]) -> (out: Option<&str>)
    ensures
        match out {
            Some(s) => valid_utf8(bytes@) && s@ == decode_utf8(bytes@),
            None => !valid_utf8(bytes@),
        },
{
    std::str::from_utf8(bytes).ok()
}

// ---------------------------------------------------------------------------
// Characters
// ---------------------------------------------------------------------------

/// The characters of `s`, one by one.
pub fn chars_of(s: &str) -> (out: Vec<char>)
    ensures
        out@ == s@,
{
    let mut out: Vec<char> = Vec::new();
    for c in it: s.chars()
        invariant
            out@ == it.seq().take(it.index()),
            it.seq() == s@,
    {
        out.push(c);
    }
    out
}

/// The text made of the characters from `from` up to `to`.
pub fn text_of(chars: &Vec<char>, from: usize, to: usize) -> (out: String)
    requires
        from <= to <= chars@.len(),
    ensures
        out@ == chars@.subrange(from as int, to as int),
{
    let mut out = String::new();
    let mut i: usize = from;
    while i < to
        invariant
            from <= i <= to <= chars@.len(),
            out@ == chars@.subrange(from as int, i as int),
        decreases to - i,
    {
        out.push(chars[i]);
        i += 1;
    }
    out
}

/// Tells whether two texts are the same.
pub fn same(a: &str, b: &str) -> (out: bool)
    ensures
        out == (a@ == b@),
{
    a.to_owned() == b.to_owned()
}

// ---------------------------------------------------------------------------
// Decimal numbers
// ---------------------------------------------------------------------------

/// The character of a decimal digit.
pub open spec fn digit(d: nat) -> char {
    (48 + d) as char
}

/// `n` in decimal, without leading zeros.
pub open spec fn decimal(n: nat) -> Seq<char>
    decreases n,
{
    if n < 10 {
        seq![digit(n)]
    } else {
        decimal(n / 10).push(digit(n % 10))
    }
}

/// Writes `n` in decimal.
pub fn decimal_text(n: u64) -> (out: String)
    ensures
        out@ == decimal(n as nat),
    decreases n,
{
    if n < 10 {
        let mut out = String::new();
        out.push((48 + n as u8) as char);
        assert(out@ =~= decimal(n as nat));
        out
    } else {
        let mut out = decimal_text(n / 10);
        out.push((48 + (n % 10) as u8) as char);
        out
    }
}

pub open spec fn is_digit(c: char) -> bool {
    '0' <= c <= '9'
}

pub open spec fn all_digits(s: Seq<char>) -> bool {
    forall|i: int| 0 <= i < s.len() ==> is_digit(#[trigger] s[i])
}

/// The number that a row of digits stands for.
pub open spec fn digits_value(s: Seq<char>) -> nat
    decreases s.len(),
{
    if s.len() == 0 {
        0
    } else {
        10 * digits_value(s.drop_last()) + (s.last() as nat - 48) as nat
    }
}

/// The unsigned number that `s` spells: an optional `+`, then at least one
/// digit and nothing else, and no more than `max`.
pub open spec fn unsigned(s: Seq<char>, max: nat) -> Option<nat> {
    let body = if s.len() > 0 && s[0] == '+' {
        s.drop_first()
    } else {
        s
    };
    if body.len() > 0 && all_digits(body) && digits_value(body) <= max {
        Some(digits_value(body))
    } else {
        None
    }
}

/// A number in decimal consists of digits and stands for itself.
pub proof fn lemma_decimal_reads_back(n: nat)
    ensures
        decimal(n).len() > 0,
        all_digits(decimal(n)),
        digits_value(decimal(n)) == n,
    decreases n,
{
    if n < 10 {
        assert(decimal(n).drop_last() =~= Seq::<char>::empty());
        assert(digits_value(Seq::<char>::empty()) == 0);
        assert(decimal(n).last() == digit(n));
    } else {
        let high = decimal(n / 10);
        lemma_decimal_reads_back(n / 10);
        assert(decimal(n).drop_last() =~= high);
        assert(decimal(n).last() == digit(n % 10));
        assert forall|i: int| 0 <= i < decimal(n).len() implies is_digit(
            #[trigger] decimal(n)[i],
        ) by {
            if i < high.len() {
                assert(decimal(n)[i] == high[i]);
            }
        }
    }
}

/// What is written in decimal is read back as the same number.
pub proof fn decimal_is_read_back(n: nat, max: nat)
    requires
        n <= max,
    ensures
        unsigned(decimal(n), max) == Some(n),
{
    lemma_decimal_reads_back(n);
    assert(is_digit(decimal(n)[0]));
}

proof fn lemma_digits_value_grows(s: Seq<char>, n: int)
    requires
        all_digits(s),
        0 <= n <= s.len(),
    ensures
        digits_value(s.take(n)) <= digits_value(s),
    decreases s.len(),
{
    if n < s.len() {
        assert(s.drop_last().take(n) =~= s.take(n));
        lemma_digits_value_grows(s.drop_last(), n);
    } else {
        assert(s.take(n) =~= s);
    }
}

/// Reads an unsigned number of at most `max`.
pub fn parse_unsigned(s: &str, max: u64) -> (out: Option<u64>)
    ensures
        match out {
            Some(n) => unsigned(s@, max as nat) == Some(n as nat),
            None => unsigned(s@, max as nat) is None,
        },
{
    let chars = chars_of(s);
    let start: usize = if chars.len() > 0 && chars[0] == '+' { 1 } else { 0 };
    let ghost body = s@.skip(start as int);
    assert(start == 1 ==> body =~= s@.drop_first());
    assert(start == 0 ==> body =~= s@);
    if start == chars.len() {
        return None;
    }
    let mut value: u64 = 0;
    let mut i: usize = start;
    assert(body.take(0) =~= Seq::<char>::empty());
    while i < chars.len()
        invariant
            start <= i <= chars@.len(),
            start <= 1,
            chars@ == s@,
            body == s@.skip(start as int),
            body == (if s@.len() > 0 && s@[0] == '+' { s@.drop_first() } else { s@ }),
            body.len() > 0,
            all_digits(body.take(i - start)),
            value == digits_value(body.take(i - start)),
            value <= max,
        decreases chars.len() - i,
    {
        let c = chars[i];
        let ghost seen = body.take(i - start);
        let ghost next = body.take(i - start + 1);
        assert(next.drop_last() =~= seen);
        assert(next.last() == c);
        if c < '0' || c > '9' {
            assert(!is_digit(body[i - start]));
            return None;
        }
        assert(all_digits(next)) by {
            assert forall|j: int| 0 <= j < next.len() implies is_digit(#[trigger] next[j]) by {
                if j < seen.len() {
                    assert(seen[j] == next[j]);
                }
            }
        }
        let d: u64 = c as u64 - 48;
        assert(digits_value(next) == 10 * value + d);
        if value > max / 10 || max - value * 10 < d {
            proof {
                assert(digits_value(next) > max);
                if all_digits(body) {
                    lemma_digits_value_grows(body, i - start + 1);
                }
            }
            return None;
        }
        value = value * 10 + d;
        i += 1;
    }
    assert(body.take(i - start) =~= body);
    Some(value)
}

// ---------------------------------------------------------------------------
// Order
// ---------------------------------------------------------------------------

/// `a` stands before `b` in the order of characters, from the left.
pub open spec fn before(a: Seq<char>, b: Seq<char>) -> bool
    decreases a.len(),
{
    if b.len() == 0 {
        false
    } else if a.len() == 0 {
        true
    } else if a[0] != b[0] {
        a[0] < b[0]
    } else {
        before(a.drop_first(), b.drop_first())
    }
}

/// No text stands before itself.
pub proof fn lemma_before_irreflexive(a: Seq<char>)
    ensures
        !before(a, a),
    decreases a.len(),
{
    if a.len() > 0 {
        lemma_before_irreflexive(a.drop_first());
    }
}

/// The order of texts is transitive.
pub proof fn lemma_before_transitive(a: Seq<char>, b: Seq<char>, c: Seq<char>)
    requires
        before(a, b),
        before(b, c),
    ensures
        before(a, c),
    decreases a.len(),
{
    if a.len() > 0 && b.len() > 0 && c.len() > 0 && a[0] == b[0] && b[0] == c[0] {
        lemma_before_transitive(a.drop_first(), b.drop_first(), c.drop_first());
    }
}

/// Of two different texts one stands before the other.
pub proof fn lemma_before_total(a: Seq<char>, b: Seq<char>)
    ensures
        a == b || before(a, b) || before(b, a),
    decreases a.len(),
{
    if a.len() == 0 {
        if b.len() == 0 {
            assert(a =~= b);
        }
    } else if b.len() > 0 && a[0] == b[0] {
        lemma_before_total(a.drop_first(), b.drop_first());
        if a.drop_first() == b.drop_first() {
            assert(a =~= seq![a[0]] + a.drop_first());
            assert(b =~= seq![b[0]] + b.drop_first());
        }
    }
}

/// Tells whether `a` stands before `b`.
pub fn is_before(a: &str, b: &str) -> (out: bool)
    ensures
        out == before(a@, b@),
{
    let x = chars_of(a);
    let y = chars_of(b);
    let mut i: usize = 0;
    assert(a@.skip(0) =~= a@);
    assert(b@.skip(0) =~= b@);
    while i < x.len() && i < y.len()
        invariant
            i <= x@.len(),
            i <= y@.len(),
            x@ == a@,
            y@ == b@,
            before(a@, b@) == before(a@.skip(i as int), b@.skip(i as int)),
        decreases x.len() - i,
    {
        if x[i] != y[i] {
            return x[i] < y[i];
        }
        assert(a@.skip(i as int).drop_first() =~= a@.skip(i + 1));
        assert(b@.skip(i as int).drop_first() =~= b@.skip(i + 1));
        i += 1;
    }
    i < y.len()
}

// ---------------------------------------------------------------------------
// Trimming
// ---------------------------------------------------------------------------

/// The white space of Unicode.
pub open spec fn is_white_space(c: char) -> bool {
    ||| '\u{9}' <= c <= '\u{d}'
    ||| c == ' '
    ||| c == '\u{85}'
    ||| c == '\u{a0}'
    ||| c == '\u{1680}'
    ||| '\u{2000}' <= c <= '\u{200a}'
    ||| c == '\u{2028}'
    ||| c == '\u{2029}'
    ||| c == '\u{202f}'
    ||| c == '\u{205f}'
    ||| c == '\u{3000}'
}

/// `s` without the characters at its start that are in `unwanted`.
pub open spec fn without_leading(s: Seq<char>, unwanted: spec_fn(char) -> bool) -> Seq<char>
    decreases s.len(),
{
    if s.len() > 0 && unwanted(s[0]) {
        without_leading(s.drop_first(), unwanted)
    } else {
        s
    }
}

/// `s` without the characters at its end that are in `unwanted`.
pub open spec fn without_trailing(s: Seq<char>, unwanted: spec_fn(char) -> bool) -> Seq<char>
    decreases s.len(),
{
    if s.len() > 0 && unwanted(s.last()) {
        without_trailing(s.drop_last(), unwanted)
    } else {
        s
    }
}

/// `s` without white space at its ends.
pub open spec fn trimmed(s: Seq<char>) -> Seq<char> {
    without_trailing(
        without_leading(s, |c: char| is_white_space(c)),
        |c: char| is_white_space(c),
    )
}

fn white_space(c: char) -> (out: bool)
    ensures
        out == is_white_space(c),
{
    ('\u{9}' <= c && c <= '\u{d}') || c == ' ' || c == '\u{85}' || c == '\u{a0}' || c
        == '\u{1680}' || ('\u{2000}' <= c && c <= '\u{200a}') || c == '\u{2028}' || c
        == '\u{2029}' || c == '\u{202f}' || c == '\u{205f}' || c == '\u{3000}'
}

/// Takes the white space off the ends of a text.
pub fn trim(s: &str) -> (out: String)
    ensures
        out@ == trimmed(s@),
{
    let ghost unwanted = |c: char| is_white_space(c);
    let chars = chars_of(s);
    let mut from: usize = 0;
    assert(s@.skip(0) =~= s@);
    while from < chars.len() && white_space(chars[from])
        invariant
            from <= chars@.len(),
            chars@ == s@,
            unwanted == (|c: char| is_white_space(c)),
            without_leading(s@, unwanted) == without_leading(s@.skip(from as int), unwanted),
        decreases chars.len() - from,
    {
        assert(s@.skip(from as int).drop_first() =~= s@.skip(from + 1));
        from += 1;
    }
    let ghost rest = s@.skip(from as int);
    assert(without_leading(s@, unwanted) == rest);
    let mut to: usize = chars.len();
    assert(s@.subrange(from as int, to as int) =~= rest);
    while to > from && white_space(chars[to - 1])
        invariant
            from <= to <= chars@.len(),
            chars@ == s@,
            unwanted == (|c: char| is_white_space(c)),
            without_trailing(rest, unwanted) == without_trailing(
                s@.subrange(from as int, to as int),
                unwanted,
            ),
        decreases to,
    {
        assert(s@.subrange(from as int, to as int).drop_last() =~= s@.subrange(
            from as int,
            to - 1,
        ));
        to -= 1;
    }
    text_of(&chars, from, to)
}

/// Takes every `unwanted` character off the start of a text.
pub fn trim_start_of(s: &str, unwanted: char) -> (out: String)
    ensures
        out@ == without_leading(s@, |c: char| c == unwanted),
{
    let ghost is_unwanted = |c: char| c == unwanted;
    let chars = chars_of(s);
    let mut from: usize = 0;
    assert(s@.skip(0) =~= s@);
    while from < chars.len() && chars[from] == unwanted
        invariant
            from <= chars@.len(),
            chars@ == s@,
            is_unwanted == (|c: char| c == unwanted),
            without_leading(s@, is_unwanted) == without_leading(s@.skip(from as int), is_unwanted),
        decreases chars.len() - from,
    {
        assert(s@.skip(from as int).drop_first() =~= s@.skip(from + 1));
        from += 1;
    }
    text_of(&chars, from, chars.len())
}

/// Takes every `unwanted` character off the end of a text.
pub fn trim_end_of(s: &str, unwanted: char) -> (out: String)
    ensures
        out@ == without_trailing(s@, |c: char| c == unwanted),
{
    let ghost is_unwanted = |c: char| c == unwanted;
    let chars = chars_of(s);
    let mut to: usize = chars.len();
    assert(s@.take(to as int) =~= s@);
    while to > 0 && chars[to - 1] == unwanted
        invariant
            to <= chars@.len(),
            chars@ == s@,
            is_unwanted == (|c: char| c == unwanted),
            without_trailing(s@, is_unwanted) == without_trailing(s@.take(to as int), is_unwanted),
        decreases to,
    {
        assert(s@.take(to as int).drop_last() =~= s@.take(to - 1));
        to -= 1;
    }
    text_of(&chars, 0, to)
}

// ---------------------------------------------------------------------------
// Splitting and joining
// ---------------------------------------------------------------------------

/// The parts of `s` between its separators.
pub open spec fn split_by<T>(s: Seq<T>, separates: spec_fn(T) -> bool) -> Seq<Seq<T>>
    decreases s.len(),
{
    if s.len() == 0 {
        seq![Seq::empty()]
    } else {
        let parts = split_by(s.drop_last(), separates);
        if separates(s.last()) {
            parts.push(Seq::empty())
        } else {
            parts.drop_last().push(parts.last().push(s.last()))
        }
    }
}

/// A text without the separator is one part.
pub proof fn lemma_no_separator(s: Seq<char>, separator: char)
    requires
        !s.contains(separator),
    ensures
        split_by(s, |c: char| c == separator) == seq![s],
    decreases s.len(),
{
    if s.len() == 0 {
        assert(s =~= Seq::<char>::empty());
    } else {
        let rest = s.drop_last();
        assert forall|c: char| rest.contains(c) implies s.contains(c) by {
            let i = choose|i: int| 0 <= i < rest.len() && rest[i] == c;
            assert(s[i] == c);
        }
        lemma_no_separator(rest, separator);
        assert(s.contains(s.last()));
        assert(rest.push(s.last()) =~= s);
        assert(split_by(s, |c: char| c == separator) =~= seq![s]);
    }
}

/// What stands behind the last separator is the last part.
pub proof fn lemma_last_part(s: Seq<char>, separator: char, tail: Seq<char>)
    requires
        !tail.contains(separator),
    ensures
        split_by(s + seq![separator] + tail, |c: char| c == separator) == split_by(
            s,
            |c: char| c == separator,
        ).push(tail),
    decreases tail.len(),
{
    let all = s + seq![separator] + tail;
    if tail.len() == 0 {
        assert(all.drop_last() =~= s);
        assert(all.last() == separator);
        assert(tail =~= Seq::<char>::empty());
    } else {
        let rest = tail.drop_last();
        assert forall|c: char| rest.contains(c) implies tail.contains(c) by {
            let i = choose|i: int| 0 <= i < rest.len() && rest[i] == c;
            assert(tail[i] == c);
        }
        lemma_last_part(s, separator, rest);
        assert(tail.contains(tail.last()));
        assert(all.drop_last() =~= s + seq![separator] + rest);
        assert(all.last() == tail.last());
        assert(rest.push(tail.last()) =~= tail);
        let parts = split_by(s, |c: char| c == separator);
        assert(parts.push(rest).drop_last() =~= parts);
    }
}

/// The parts with `between` between each two.
pub open spec fn joined(parts: Seq<Seq<char>>, between: Seq<char>) -> Seq<char>
    decreases parts.len(),
{
    if parts.len() == 0 {
        Seq::empty()
    } else if parts.len() == 1 {
        parts[0]
    } else {
        joined(parts.drop_last(), between) + between + parts.last()
    }
}

/// What stands before and behind the first `at`.
pub open spec fn split_first(s: Seq<char>, at: char) -> Option<(Seq<char>, Seq<char>)> {
    match s.index_of_first(at) {
        Some(i) => Some((s.take(i), s.skip(i + 1))),
        None => None,
    }
}

/// What stands before and behind the last `at`.
pub open spec fn split_last(s: Seq<char>, at: char) -> Option<(Seq<char>, Seq<char>)> {
    match s.index_of_last(at) {
        Some(i) => Some((s.take(i), s.skip(i + 1))),
        None => None,
    }
}

/// Splits a text at the first `at`.
pub fn split_at_first(s: &str, at: char) -> (out: Option<(String, String)>)
    ensures
        match out {
            Some((head, tail)) => split_first(s@, at) == Some((head@, tail@)),
            None => split_first(s@, at) is None,
        },
{
    let chars = chars_of(s);
    let mut i: usize = 0;
    proof {
        s@.index_of_first_ensures(at);
    }
    while i < chars.len()
        invariant
            i <= chars@.len(),
            chars@ == s@,
            forall|j: int| 0 <= j < i ==> s@[j] != at,
        decreases chars.len() - i,
    {
        if chars[i] == at {
            proof {
                s@.index_of_first_ensures(at);
                assert(s@.contains(at));
                let k = s@.index_of_first(at)->0;
                assert(s@[k] == at);
                assert(k == i);
            }
            return Some((text_of(&chars, 0, i), text_of(&chars, i + 1, chars.len())));
        }
        i += 1;
    }
    None
}

/// Splits a text at the last `at`.
pub fn split_at_last(s: &str, at: char) -> (out: Option<(String, String)>)
    ensures
        match out {
            Some((head, tail)) => split_last(s@, at) == Some((head@, tail@)),
            None => split_last(s@, at) is None,
        },
{
    let chars = chars_of(s);
    let mut i: usize = chars.len();
    proof {
        s@.index_of_last_ensures(at);
    }
    while i > 0
        invariant
            i <= chars@.len(),
            chars@ == s@,
            forall|j: int| i <= j < s@.len() ==> s@[j] != at,
        decreases i,
    {
        i -= 1;
        if chars[i] == at {
            proof {
                s@.index_of_last_ensures(at);
                assert(s@.contains(at));
                let k = s@.index_of_last(at)->0;
                assert(s@[k] == at);
                assert(k == i);
            }
            return Some((text_of(&chars, 0, i), text_of(&chars, i + 1, chars.len())));
        }
    }
    None
}

/// What stands behind `prefix`, where a text starts with it.
pub open spec fn behind_prefix(s: Seq<char>, prefix: Seq<char>) -> Option<Seq<char>> {
    if prefix.is_prefix_of(s) {
        Some(s.skip(prefix.len() as int))
    } else {
        None
    }
}

/// Takes a prefix off a text that starts with it.
pub fn strip_prefix(s: &str, prefix: &str) -> (out: Option<String>)
    ensures
        crate::model::text_in(out) == behind_prefix(s@, prefix@),
{
    let chars = chars_of(s);
    let start = chars_of(prefix);
    if chars.len() < start.len() {
        return None;
    }
    let mut i: usize = 0;
    while i < start.len()
        invariant
            i <= start@.len() <= chars@.len(),
            chars@ == s@,
            start@ == prefix@,
            forall|k: int| 0 <= k < i ==> prefix@[k] == s@[k],
        decreases start.len() - i,
    {
        if chars[i] != start[i] {
            assert(!prefix@.is_prefix_of(s@)) by {
                if prefix@.is_prefix_of(s@) {
                    assert(s@.subrange(0, prefix@.len() as int)[i as int] == prefix@[i as int]);
                }
            }
            return None;
        }
        i += 1;
    }
    assert(prefix@ =~= s@.subrange(0, prefix@.len() as int));
    Some(text_of(&chars, start.len(), chars.len()))
}

/// Splits a text at every `separator`.
pub fn split_on(s: &str, separator: char) -> (out: Vec<String>)
    ensures
        crate::model::texts(out@) == split_by(s@, |c: char| c == separator),
{
    let ghost separates = |c: char| c == separator;
    let chars = chars_of(s);
    let mut out: Vec<String> = Vec::new();
    let ghost mut done: Seq<Seq<char>> = Seq::empty();
    let mut from: usize = 0;
    let mut i: usize = 0;
    assert(s@.take(0) =~= Seq::<char>::empty());
    assert(done.push(s@.subrange(0, 0)) =~= seq![Seq::empty()]);
    assert(crate::model::texts(out@) =~= done);
    while i < chars.len()
        invariant
            from <= i <= chars@.len(),
            chars@ == s@,
            separates == (|c: char| c == separator),
            split_by(s@.take(i as int), separates) == done.push(s@.subrange(from as int, i as int)),
            crate::model::texts(out@) == done,
        decreases chars.len() - i,
    {
        let ghost seen = s@.take(i + 1);
        let ghost part = s@.subrange(from as int, i as int);
        assert(seen.drop_last() =~= s@.take(i as int));
        assert(seen.last() == s@[i as int]);
        assert(done.push(part).drop_last() =~= done);
        if chars[i] == separator {
            let ghost before = out@;
            out.push(text_of(&chars, from, i));
            proof {
                done = done.push(part);
                assert(crate::model::texts(out@) =~= done);
            }
            from = i + 1;
            assert(s@.subrange(from as int, i + 1) =~= Seq::<char>::empty());
        } else {
            assert(part.push(s@[i as int]) =~= s@.subrange(from as int, i + 1));
        }
        i += 1;
    }
    assert(s@.take(i as int) =~= s@);
    out.push(text_of(&chars, from, i));
    assert(crate::model::texts(out@) =~= done.push(s@.subrange(from as int, i as int)));
    out
}

/// Joins texts with `between` between each two.
pub fn join(parts: &Vec<String>, between: &str) -> (out: String)
    ensures
        out@ == joined(crate::model::texts(parts@), between@),
{
    let ghost all = crate::model::texts(parts@);
    let mut out = String::new();
    let mut i: usize = 0;
    assert(all.take(0) =~= Seq::<Seq<char>>::empty());
    while i < parts.len()
        invariant
            i <= parts@.len(),
            all == crate::model::texts(parts@),
            out@ == joined(all.take(i as int), between@),
        decreases parts.len() - i,
    {
        assert(all.take(i + 1).drop_last() =~= all.take(i as int));
        assert(all.take(i + 1).last() == parts@[i as int]@);
        if i > 0 {
            out.append(between);
        }
        let ghost sofar = out@;
        out.append(parts[i].as_str());
        assert(i == 0 ==> out@ =~= parts@[0]@);
        i += 1;
    }
    assert(all.take(i as int) =~= all);
    out
}

// ---------------------------------------------------------------------------
// Case
// ---------------------------------------------------------------------------

/// An ASCII capital becomes small, any other character stays.
pub open spec fn lower(c: char) -> char {
    if 'A' <= c <= 'Z' {
        (c as u32 + 32) as char
    } else {
        c
    }
}

/// The two texts differ at most in the case of ASCII letters.
pub open spec fn same_but_case(a: Seq<char>, b: Seq<char>) -> bool {
    a.len() == b.len() && forall|i: int| 0 <= i < a.len() ==> lower(#[trigger] a[i]) == lower(b[i])
}

fn lower_case(c: char) -> (out: char)
    ensures
        out == lower(c),
{
    if 'A' <= c && c <= 'Z' {
        (c as u8 + 32) as char
    } else {
        c
    }
}

/// Compares two texts without regard to the case of ASCII letters.
pub fn equal_but_case(a: &str, b: &str) -> (out: bool)
    ensures
        out == same_but_case(a@, b@),
{
    let x = chars_of(a);
    let y = chars_of(b);
    if x.len() != y.len() {
        return false;
    }
    let mut i: usize = 0;
    while i < x.len()
        invariant
            i <= x@.len(),
            x@.len() == y@.len(),
            x@ == a@,
            y@ == b@,
            forall|j: int| 0 <= j < i ==> lower(#[trigger] a@[j]) == lower(b@[j]),
        decreases x.len() - i,
    {
        if lower_case(x[i]) != lower_case(y[i]) {
            assert(lower(a@[i as int]) != lower(b@[i as int]));
            return false;
        }
        i += 1;
    }
    true
}

// ---------------------------------------------------------------------------
// Laws
// ---------------------------------------------------------------------------

/// A number below ten is written as its digit, and a further digit is written
/// behind the digits of the number before it.
pub proof fn a_digit_more_is_ten_times_as_much(n: nat, d: nat)
    requires
        d < 10,
    ensures
        decimal(d).len() == 1,
        decimal(d)[0] as int == '0' as int + d,
        n > 0 ==> decimal(10 * n + d) == decimal(n) + decimal(d),
        n > 0 ==> decimal(n)[0] != '0',
    decreases n,
{
    if n > 0 {
        assert((10 * n + d) / 10 == n && (10 * n + d) % 10 == d);
        assert(decimal(10 * n + d) =~= decimal(n) + decimal(d));
        if n >= 10 {
            lemma_decimal_reads_back(n / 10);
            a_digit_more_is_ten_times_as_much(n / 10, n % 10);
        }
    }
}

/// A text of digits is read as the number that its digits make up in their
/// order, as long as the number is no more than the bound; behind a plus sign it
/// is the same.
pub proof fn digits_are_read_in_their_order(s: Seq<char>, c: char, max: nat)
    requires
        all_digits(s),
    ensures
        '0' <= c <= '9' ==> unsigned(seq![c], max) == (if c as int - '0' as int <= max {
            Some((c as int - '0' as int) as nat)
        } else {
            None
        }),
        '0' <= c <= '9' ==> (unsigned(s, max) matches Some(n) ==> unsigned(s.push(c), max) == (
        if 10 * n + (c as int - '0' as int) <= max {
            Some((10 * n + (c as int - '0' as int)) as nat)
        } else {
            None
        })),
        s.len() > 0 && unsigned(s, max) is None ==> unsigned(s.push(c), max) is None,
        s.len() > 0 ==> unsigned(seq!['+'] + s, max) == unsigned(s, max),
{
    let one = seq![c];
    assert(one.drop_last() =~= Seq::empty());
    assert(digits_value(one.drop_last()) == 0);
    let longer = s.push(c);
    assert(longer.drop_last() =~= s);
    if s.len() > 0 {
        assert(is_digit(s[0]));
        assert(longer[0] == s[0]);
    }
    if is_digit(c) {
        assert forall|i: int| 0 <= i < longer.len() implies is_digit(#[trigger] longer[i]) by {
            if i < s.len() {
                assert(longer[i] == s[i]);
            }
        }
    } else {
        assert(!is_digit(longer[s.len() as int]));
    }
    assert((seq!['+'] + s).drop_first() =~= s);
}

/// Only digits are read as a number, behind one plus sign or none.
pub proof fn nothing_but_digits_is_a_number(s: &str, max: u64, out: Option<u64>, i: int)
    requires
        call_ensures(parse_unsigned, (s, max), out),
        s@.len() == 0 || s@ == seq!['+'] || (0 <= i < s@.len() && !('0' <= s@[i] <= '9') && !(i == 0
            && s@[0] == '+')),
    ensures
        out is None,
{
    if s@.len() > 0 && s@ != seq!['+'] {
        let body = if s@[0] == '+' {
            s@.drop_first()
        } else {
            s@
        };
        if s@[0] == '+' {
            assert(body[i - 1] == s@[i]);
        } else {
            assert(body[i] == s@[i]);
        }
    } else if s@.len() > 0 {
        assert(s@.drop_first() =~= Seq::empty());
    }
}

/// What is written in decimal is read back by the reader, and a number over the
/// bound is refused.
pub proof fn a_written_number_is_read(n: nat, s: &str, max: u64, out: Option<u64>)
    requires
        s@ == decimal(n),
        call_ensures(parse_unsigned, (s, max), out),
    ensures
        n <= max ==> out == Some(n as u64),
        n > max ==> out is None,
{
    lemma_decimal_reads_back(n);
    assert(is_digit(decimal(n)[0]));
}

/// The characters that are taken off the ends of a text.
pub open spec fn is_blank(c: char) -> bool {
    let n = c as int;
    ||| n == 0x20 || 0x9 <= n <= 0xd || n == 0x85 || n == 0xa0 || n == 0x1680
    ||| 0x2000 <= n <= 0x200a || n == 0x2028 || n == 0x2029 || n == 0x202f || n == 0x205f
    ||| n == 0x3000
}

pub proof fn lemma_without_leading(a: Seq<char>, s: Seq<char>, unwanted: spec_fn(char) -> bool)
    requires
        forall|i: int| 0 <= i < a.len() ==> unwanted(#[trigger] a[i]),
        s.len() > 0 ==> !unwanted(s[0]),
    ensures
        without_leading(a + s, unwanted) == s,
    decreases a.len(),
{
    if a.len() > 0 {
        assert((a + s)[0] == a[0]);
        assert((a + s).drop_first() =~= a.drop_first() + s);
        assert forall|i: int| 0 <= i < a.drop_first().len() implies unwanted(
            #[trigger] a.drop_first()[i],
        ) by {
            assert(a.drop_first()[i] == a[i + 1]);
        }
        lemma_without_leading(a.drop_first(), s, unwanted);
    } else {
        assert(a + s =~= s);
    }
}

pub proof fn lemma_without_trailing(s: Seq<char>, b: Seq<char>, unwanted: spec_fn(char) -> bool)
    requires
        forall|i: int| 0 <= i < b.len() ==> unwanted(#[trigger] b[i]),
        s.len() > 0 ==> !unwanted(s.last()),
    ensures
        without_trailing(s + b, unwanted) == s,
    decreases b.len(),
{
    if b.len() > 0 {
        assert((s + b).last() == b.last());
        assert(unwanted(b[b.len() - 1]));
        assert((s + b).drop_last() =~= s + b.drop_last());
        assert forall|i: int| 0 <= i < b.drop_last().len() implies unwanted(
            #[trigger] b.drop_last()[i],
        ) by {
            assert(b.drop_last()[i] == b[i]);
        }
        lemma_without_trailing(s, b.drop_last(), unwanted);
    } else {
        assert(s + b =~= s);
    }
}

/// White space is taken off both ends of a text and left alone within it.
pub proof fn white_space_is_taken_off_the_ends(a: Seq<char>, s: Seq<char>, b: Seq<char>)
    requires
        forall|i: int| 0 <= i < a.len() ==> is_blank(#[trigger] a[i]),
        forall|i: int| 0 <= i < b.len() ==> is_blank(#[trigger] b[i]),
        s.len() > 0 ==> !is_blank(s[0]) && !is_blank(s.last()),
    ensures
        trimmed(a + s + b) == s,
{
    let blank = |c: char| is_white_space(c);
    assert forall|c: char| is_blank(c) == #[trigger] is_white_space(c) by {}
    if s.len() > 0 {
        assert(a + s + b =~= a + (s + b));
        assert((s + b)[0] == s[0]);
        lemma_without_leading(a, s + b, blank);
        lemma_without_trailing(s, b, blank);
    } else {
        let all = a + b;
        assert(a + s + b =~= all + Seq::<char>::empty());
        assert forall|i: int| 0 <= i < all.len() implies blank(#[trigger] all[i]) by {
            if i < a.len() {
                assert(all[i] == a[i]);
            } else {
                assert(all[i] == b[i - a.len()]);
            }
        }
        lemma_without_leading(all, Seq::empty(), blank);
        assert(s =~= Seq::empty());
    }
}

/// No part holds a separator.
pub proof fn no_part_holds_a_separator<T>(s: Seq<T>, separates: spec_fn(T) -> bool)
    ensures
        split_by(s, separates).len() > 0,
        forall|i: int, j: int|
            0 <= i < split_by(s, separates).len() && 0 <= j < split_by(s, separates)[i].len()
                ==> !separates(#[trigger] split_by(s, separates)[i][j]),
    decreases s.len(),
{
    if s.len() > 0 {
        no_part_holds_a_separator(s.drop_last(), separates);
        let before = split_by(s.drop_last(), separates);
        let now = split_by(s, separates);
        assert forall|i: int, j: int| 0 <= i < now.len() && 0 <= j < now[i].len() implies !separates(
            #[trigger] now[i][j],
        ) by {
            if separates(s.last()) {
                if i < before.len() {
                    assert(now[i] == before[i]);
                }
            } else if i < before.len() - 1 {
                assert(now[i] == before[i]);
            } else {
                assert(now[i] == before.last().push(s.last()));
                if j < before.last().len() {
                    assert(now[i][j] == before[before.len() - 1][j]);
                }
            }
        }
    }
}

/// Two texts with a separator between them have the parts of the one and then
/// the parts of the other.
pub proof fn a_separator_parts_a_text<T>(a: Seq<T>, c: T, b: Seq<T>, separates: spec_fn(T) -> bool)
    requires
        separates(c),
    ensures
        split_by(a + seq![c] + b, separates) == split_by(a, separates) + split_by(b, separates),
    decreases b.len(),
{
    let all = a + seq![c] + b;
    let x = split_by(a, separates);
    if b.len() == 0 {
        assert(all.drop_last() =~= a);
        assert(all.last() == c);
        assert(split_by(all, separates) =~= x + split_by(b, separates));
    } else {
        a_separator_parts_a_text(a, c, b.drop_last(), separates);
        no_part_holds_a_separator(b.drop_last(), separates);
        assert(all.drop_last() =~= a + seq![c] + b.drop_last());
        assert(all.last() == b.last());
        let y = split_by(b.drop_last(), separates);
        if separates(b.last()) {
            assert((x + y).push(Seq::empty()) =~= x + y.push(Seq::empty()));
        } else {
            assert((x + y).last() == y.last());
            assert((x + y).drop_last() =~= x + y.drop_last());
            assert((x + y).drop_last().push(y.last().push(b.last())) =~= x + y.drop_last().push(
                y.last().push(b.last()),
            ));
        }
    }
}

/// A text without separators is one part.
pub proof fn without_separators_a_text_is_one_part<T>(s: Seq<T>, separates: spec_fn(T) -> bool)
    requires
        forall|i: int| 0 <= i < s.len() ==> !separates(#[trigger] s[i]),
    ensures
        split_by(s, separates) == seq![s],
    decreases s.len(),
{
    if s.len() == 0 {
        assert(s =~= Seq::empty());
        assert(split_by(s, separates) =~= seq![s]);
    } else {
        let rest = s.drop_last();
        assert forall|i: int| 0 <= i < rest.len() implies !separates(#[trigger] rest[i]) by {
            assert(rest[i] == s[i]);
        }
        without_separators_a_text_is_one_part(rest, separates);
        assert(!separates(s[s.len() - 1]));
        assert(rest.push(s.last()) =~= s);
        assert(split_by(s, separates) =~= seq![s]);
    }
}

/// One text stands for itself, and a further one stands behind what is between
/// two.
pub proof fn texts_are_joined_in_their_order(parts: Seq<Seq<char>>, last: Seq<char>, between: Seq<
    char,
>)
    ensures
        joined(Seq::empty(), between) == Seq::<char>::empty(),
        joined(seq![last], between) == last,
        parts.len() > 0 ==> joined(parts.push(last), between) == joined(parts, between) + between
            + last,
{
    assert(parts.push(last).drop_last() =~= parts);
}

/// A text is parted at the first, or at the last, of the characters that part
/// it.
pub proof fn a_text_is_parted_where_it_is_said(a: Seq<char>, c: char, b: Seq<char>)
    ensures
        !a.contains(c) ==> split_first(a + seq![c] + b, c) == Some((a, b)),
        !b.contains(c) ==> split_last(a + seq![c] + b, c) == Some((a, b)),
        !a.contains(c) ==> split_first(a, c) is None && split_last(a, c) is None,
{
    let s = a + seq![c] + b;
    assert(s[a.len() as int] == c);
    assert(s.contains(c));
    s.index_of_first_ensures(c);
    s.index_of_last_ensures(c);
    a.index_of_first_ensures(c);
    a.index_of_last_ensures(c);
    if !a.contains(c) {
        let i = s.index_of_first(c)->0;
        if i < a.len() {
            assert(a[i] == s[i]);
        }
        assert(i == a.len());
        assert(s.take(i) =~= a && s.skip(i + 1) =~= b);
    }
    if !b.contains(c) {
        let i = s.index_of_last(c)->0;
        if i > a.len() {
            assert(b[i - a.len() - 1] == s[i]);
        }
        assert(i == a.len());
        assert(s.take(i) =~= a && s.skip(i + 1) =~= b);
    }
}

/// What stands behind a prefix is what the prefix was put before, and a text
/// without it has nothing behind it.
pub proof fn a_prefix_is_taken_off(prefix: Seq<char>, rest: Seq<char>, s: Seq<char>)
    ensures
        behind_prefix(prefix + rest, prefix) == Some(rest),
        behind_prefix(s, prefix) matches Some(r) ==> s == prefix + r,
{
    let whole = prefix + rest;
    assert(prefix =~= whole.subrange(0, prefix.len() as int));
    assert(whole.skip(prefix.len() as int) =~= rest);
    if prefix.is_prefix_of(s) {
        assert(s =~= prefix + s.skip(prefix.len() as int));
    }
}

/// Two texts are the same but for their case where each two characters are the
/// same, or are the small and the capital form of one letter of ASCII.
pub proof fn only_the_case_of_letters_is_passed_over(a: &str, b: &str, out: bool)
    requires
        call_ensures(equal_but_case, (a, b), out),
    ensures
        out <==> a@.len() == b@.len() && forall|i: int|
            0 <= i < a@.len() ==> {
                let (x, y) = (#[trigger] a@[i] as int, b@[i] as int);
                x == y || (65 <= x <= 90 && y == x + 32) || (65 <= y <= 90 && x == y + 32)
            },
{
    assert forall|x: char, y: char| #![trigger lower(x), lower(y)] lower(x) == lower(y) <==> (x as int
        == y as int || (65 <= x as int <= 90 && y as int == x as int + 32) || (65 <= y as int <= 90
        && x as int == y as int + 32)) by {}
    if a@.len() == b@.len() {
        assert forall|i: int| 0 <= i < a@.len() implies (lower(#[trigger] a@[i]) == lower(b@[i])
            <==> {
            let (x, y) = (a@[i] as int, b@[i] as int);
            x == y || (65 <= x <= 90 && y == x + 32) || (65 <= y <= 90 && x == y + 32)
        }) by {}
    }
}

/// The first characters in which two texts differ tell which stands before the
/// other; a text stands before its own continuations.
pub proof fn the_first_difference_decides(p: Seq<char>, x: Seq<char>, y: Seq<char>)
    ensures
        x.len() > 0 && y.len() > 0 && x[0] != y[0] ==> (before(p + x, p + y) <==> x[0] < y[0]),
        y.len() > 0 ==> before(p, p + y) && !before(p + y, p),
        !before(p, p),
    decreases p.len(),
{
    if p.len() > 0 {
        the_first_difference_decides(p.drop_first(), x, y);
        assert((p + x).drop_first() =~= p.drop_first() + x);
        assert((p + y).drop_first() =~= p.drop_first() + y);
        assert((p + x)[0] == p[0] && (p + y)[0] == p[0]);
    } else {
        assert(p + x =~= x && p + y =~= y);
    }
}

proof fn lemma_led_by(s: Seq<char>, unwanted: spec_fn(char) -> bool) -> (a: Seq<char>)
    ensures
        s == a + without_leading(s, unwanted),
        forall|i: int| 0 <= i < a.len() ==> unwanted(#[trigger] a[i]),
        without_leading(s, unwanted).len() > 0 ==> !unwanted(without_leading(s, unwanted)[0]),
    decreases s.len(),
{
    if s.len() > 0 && unwanted(s[0]) {
        let rest = lemma_led_by(s.drop_first(), unwanted);
        let a = seq![s[0]] + rest;
        assert(s =~= seq![s[0]] + s.drop_first());
        assert(s =~= a + without_leading(s, unwanted));
        assert forall|i: int| 0 <= i < a.len() implies unwanted(#[trigger] a[i]) by {
            if i > 0 {
                assert(a[i] == rest[i - 1]);
            }
        }
        a
    } else {
        assert(s =~= Seq::<char>::empty() + s);
        Seq::empty()
    }
}

proof fn lemma_followed_by(s: Seq<char>, unwanted: spec_fn(char) -> bool) -> (b: Seq<char>)
    ensures
        s == without_trailing(s, unwanted) + b,
        forall|i: int| 0 <= i < b.len() ==> unwanted(#[trigger] b[i]),
        without_trailing(s, unwanted).len() > 0 ==> !unwanted(without_trailing(s, unwanted).last()),
    decreases s.len(),
{
    if s.len() > 0 && unwanted(s.last()) {
        let rest = lemma_followed_by(s.drop_last(), unwanted);
        let b = rest.push(s.last());
        assert(s =~= s.drop_last().push(s.last()));
        assert(s =~= without_trailing(s, unwanted) + b);
        assert forall|i: int| 0 <= i < b.len() implies unwanted(#[trigger] b[i]) by {
            if i < rest.len() {
                assert(b[i] == rest[i]);
            }
        }
        b
    } else {
        assert(s =~= s + Seq::<char>::empty());
        Seq::empty()
    }
}

/// Nothing but white space is taken off a text, and none is left at its ends.
pub proof fn nothing_but_white_space_is_taken_off(s: Seq<char>) -> (ends: (Seq<char>, Seq<char>))
    ensures
        s == ends.0 + trimmed(s) + ends.1,
        forall|i: int| 0 <= i < ends.0.len() ==> is_blank(#[trigger] ends.0[i]),
        forall|i: int| 0 <= i < ends.1.len() ==> is_blank(#[trigger] ends.1[i]),
        trimmed(s).len() > 0 ==> !is_blank(trimmed(s)[0]) && !is_blank(trimmed(s).last()),
{
    let blank = |c: char| is_white_space(c);
    assert forall|c: char| is_blank(c) == #[trigger] is_white_space(c) by {}
    let a = lemma_led_by(s, blank);
    let rest = without_leading(s, blank);
    let b = lemma_followed_by(rest, blank);
    assert(rest == trimmed(s) + b);
    assert(s =~= a + trimmed(s) + b);
    assert forall|i: int| 0 <= i < a.len() implies is_blank(#[trigger] a[i]) by {
        assert(blank(a[i]));
    }
    assert forall|i: int| 0 <= i < b.len() implies is_blank(#[trigger] b[i]) by {
        assert(blank(b[i]));
    }
    if trimmed(s).len() > 0 {
        assert(rest[0] == trimmed(s)[0]);
        assert(!blank(rest[0]));
        assert(!blank(trimmed(s).last()));
    }
    (a, b)
}

/// Two texts are the same where their characters are.
pub proof fn texts_are_the_same_where_their_characters_are(a: &str, b: &str, out: bool)
    requires
        call_ensures(same, (a, b), out),
    ensures
        out <==> a@.len() == b@.len() && forall|i: int|
            0 <= i < a@.len() ==> #[trigger] a@[i] == b@[i],
{
    if a@.len() == b@.len() && forall|i: int| 0 <= i < a@.len() ==> #[trigger] a@[i] == b@[i] {
        assert(a@ =~= b@);
    }
}

/// What is written as a number is its digits, and is read as the number again.
pub proof fn a_number_is_written_with_its_digits(n: u64, out: String)
    requires
        call_ensures(decimal_text, (n,), out),
    ensures
        out@.len() > 0,
        forall|i: int| 0 <= i < out@.len() ==> '0' <= #[trigger] out@[i] <= '9',
        digits_value(out@) == n,
        n > 0 ==> out@[0] != '0',
{
    lemma_decimal_reads_back(n as nat);
    assert forall|i: int| 0 <= i < out@.len() implies '0' <= #[trigger] out@[i] <= '9' by {
        assert(is_digit(out@[i]));
    }
    if n > 0 {
        lemma_no_leading_zero(n as nat);
    }
}

proof fn lemma_no_leading_zero(n: nat)
    requires
        n > 0,
    ensures
        decimal(n).len() > 0,
        decimal(n)[0] != '0',
    decreases n,
{
    if n >= 10 {
        lemma_no_leading_zero(n / 10);
        assert(decimal(n)[0] == decimal(n / 10)[0]);
    }
}

/// White space is taken off the ends of what is read.
pub proof fn a_read_text_has_no_white_space_around_it(
    a: Seq<char>,
    t: Seq<char>,
    b: Seq<char>,
    s: &str,
    out: String,
)
    requires
        call_ensures(trim, (s,), out),
        s@ == a + t + b,
        forall|i: int| 0 <= i < a.len() ==> is_blank(#[trigger] a[i]),
        forall|i: int| 0 <= i < b.len() ==> is_blank(#[trigger] b[i]),
        t.len() > 0 ==> !is_blank(t[0]) && !is_blank(t.last()),
    ensures
        out@ == t,
{
    white_space_is_taken_off_the_ends(a, t, b);
}

/// One character is taken off one end, as often as it stands there.
pub proof fn one_character_is_taken_off_an_end(
    a: Seq<char>,
    t: Seq<char>,
    c: char,
    texts: (&str, &str),
    outs: (String, String),
)
    requires
        call_ensures(trim_start_of, (texts.0, c), outs.0),
        call_ensures(trim_end_of, (texts.1, c), outs.1),
        texts.0@ == a + t,
        texts.1@ == t + a,
        forall|i: int| 0 <= i < a.len() ==> #[trigger] a[i] == c,
        t.len() > 0 ==> t[0] != c && t.last() != c,
    ensures
        outs.0@ == t,
        outs.1@ == t,
{
    let unwanted = |x: char| x == c;
    lemma_without_leading(a, t, unwanted);
    lemma_without_trailing(t, a, unwanted);
}

/// A text is taken apart at the first, or at the last, of the characters that part
/// it.
pub proof fn a_text_is_taken_apart(
    a: Seq<char>,
    c: char,
    b: Seq<char>,
    s: &str,
    outs: (Option<(String, String)>, Option<(String, String)>),
)
    requires
        call_ensures(split_at_first, (s, c), outs.0),
        call_ensures(split_at_last, (s, c), outs.1),
    ensures
        s@ == a + seq![c] + b && !a.contains(c) ==> (outs.0 matches Some((x, y)) && x@
            == a && y@ == b),
        s@ == a + seq![c] + b && !b.contains(c) ==> (outs.1 matches Some((x, y)) && x@
            == a && y@ == b),
        !s@.contains(c) ==> outs.0 is None && outs.1 is None,
{
    a_text_is_parted_where_it_is_said(a, c, b);
    a_text_is_parted_where_it_is_said(s@, c, b);
}

/// What stands behind a prefix is given, and nothing where the text has no such
/// prefix.
pub proof fn what_stands_behind_a_prefix_is_given(s: &str, prefix: &str, out: Option<String>)
    requires
        call_ensures(strip_prefix, (s, prefix), out),
    ensures
        out matches Some(rest) ==> s@ == prefix@ + rest@,
        out is None ==> forall|rest: Seq<char>| s@ != #[trigger] (prefix@ + rest),
{
    a_prefix_is_taken_off(prefix@, Seq::empty(), s@);
    assert forall|rest: Seq<char>| s@ == #[trigger] (prefix@ + rest) implies out is Some by {
        a_prefix_is_taken_off(prefix@, rest, s@);
    }
}

/// The parts of two texts with a separator between them are those of the first and
/// then those of the second; a text without one is its own only part.
pub proof fn a_text_is_split_at_every_separator(
    a: &str,
    c: char,
    b: &str,
    both: &str,
    outs: (Vec<String>, Vec<String>, Vec<String>),
    i: int,
)
    requires
        both@ == a@ + seq![c] + b@,
        call_ensures(split_on, (a, c), outs.0),
        call_ensures(split_on, (b, c), outs.1),
        call_ensures(split_on, (both, c), outs.2),
    ensures
        outs.2@.len() == outs.0@.len() + outs.1@.len(),
        0 <= i < outs.0@.len() ==> outs.2@[i]@ == outs.0@[i]@,
        0 <= i < outs.1@.len() ==> outs.2@[outs.0@.len() + i]@ == outs.1@[i]@,
        !a@.contains(c) ==> outs.0@.len() == 1 && outs.0@[0]@ == a@,
{
    let parts = |x: char| x == c;
    let (x, y, z) = (
        crate::model::texts(outs.0@),
        crate::model::texts(outs.1@),
        crate::model::texts(outs.2@),
    );
    a_separator_parts_a_text(a@, c, b@, parts);
    assert(z == x + y);
    assert(x.len() == outs.0@.len() && y.len() == outs.1@.len() && z.len() == outs.2@.len());
    if 0 <= i < outs.0@.len() {
        assert(z[i] == outs.2@[i]@ && x[i] == outs.0@[i]@);
    }
    if 0 <= i < outs.1@.len() {
        assert(z[outs.0@.len() + i] == outs.2@[outs.0@.len() + i]@ && y[i] == outs.1@[i]@);
    }
    if !a@.contains(c) {
        assert forall|k: int| 0 <= k < a@.len() implies !parts(#[trigger] a@[k]) by {
            assert(a@.contains(a@[k]));
        }
        without_separators_a_text_is_one_part(a@, parts);
        assert(x[0] == outs.0@[0]@);
    }
}

/// One text stands before another where the first characters in which they differ do,
/// or where it is the beginning of the other.
pub proof fn a_text_stands_before_another(
    p: Seq<char>,
    x: Seq<char>,
    y: Seq<char>,
    a: &str,
    b: &str,
    out: bool,
)
    requires
        call_ensures(is_before, (a, b), out),
        a@ == p + x,
        b@ == p + y,
        x.len() == 0 || y.len() == 0 || x[0] != y[0],
    ensures
        out <==> y.len() > 0 && (x.len() == 0 || x[0] < y[0]),
{
    the_first_difference_decides(p, x, y);
    if x.len() == 0 {
        assert(p + x =~= p);
    }
    if y.len() == 0 {
        assert(p + y =~= p);
        if x.len() > 0 {
            the_first_difference_decides(p, y, x);
        }
    }
}

} // verus!
