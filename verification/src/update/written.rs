//! Documents as they are written, and what is read of them.

use vstd::prelude::*;
use vstd::utf8::*;
use crate::update::json::{after_digits, after_space, ascii, digit_at, document, hex_digit, hex_value};
use crate::update::json::{holds, is_high, is_low, is_space, items_at, joined, lemma_after_space};
use crate::update::json::{lemma_encoded_char, lone, members_at, number_at, numeral, paired, parse};
use crate::update::json::parse_string;
use crate::update::json::{piece_at, pieces_at, short_escape, string_at, value_at, word_at, Json};
use crate::update::json::{JsonValue, Piece};

verus! {

// ---------------------------------------------------------------------------
// Texts in quotes
// ---------------------------------------------------------------------------

/// A part of a text in quotes.
pub ghost enum Atom {
    /// A character that stands for itself.
    Plain(char),
    /// A backslash and a letter.
    Short(char),
    /// A character by its number, in four hexadecimal digits.
    Unit(u16),
    /// A character by the two numbers of a surrogate pair.
    Pair(u16, u16),
}

/// The part may be written so.
pub open spec fn is_atom(a: Atom) -> bool {
    match a {
        Atom::Plain(c) => c != '"' && c != '\\',
        Atom::Short(l) => l == '"' || l == '\\' || l == '/' || l == 'n' || l == 't' || l == 'r' || l
            == 'b' || l == 'f',
        Atom::Unit(n) => n < 0xD800 || n > 0xDFFF,
        Atom::Pair(high, low) => 0xD800 <= high <= 0xDBFF && 0xDC00 <= low <= 0xDFFF,
    }
}

/// The character that the part stands for.
pub open spec fn char_of(a: Atom) -> char {
    match a {
        Atom::Plain(c) => c,
        Atom::Short(l) => if l == 'n' {
            '\u{a}'
        } else if l == 't' {
            '\u{9}'
        } else if l == 'r' {
            '\u{d}'
        } else if l == 'b' {
            '\u{8}'
        } else if l == 'f' {
            '\u{c}'
        } else {
            l
        },
        Atom::Unit(n) => n as char,
        Atom::Pair(high, low) => (0x10000 + (high - 0xD800) * 1024 + (low - 0xDC00)) as char,
    }
}

/// The byte of a hexadecimal digit.
pub open spec fn digit_byte(d: int, upper: bool) -> u8 {
    if d < 10 {
        ('0' as int + d) as u8
    } else if upper {
        ('A' as int + d - 10) as u8
    } else {
        ('a' as int + d - 10) as u8
    }
}

/// A backslash, a `u` and four hexadecimal digits.
pub open spec fn unit_bytes(n: u16, upper: bool) -> Seq<u8> {
    seq![
        0x5Cu8,
        0x75u8,
        digit_byte(n as int / 4096, upper),
        digit_byte(n as int / 256 % 16, upper),
        digit_byte(n as int / 16 % 16, upper),
        digit_byte(n as int % 16, upper),
    ]
}

pub open spec fn atom_bytes(a: Atom, upper: bool) -> Seq<u8> {
    match a {
        Atom::Plain(c) => encode_utf8(seq![c]),
        Atom::Short(l) => seq![0x5Cu8, l as u8],
        Atom::Unit(n) => unit_bytes(n, upper),
        Atom::Pair(high, low) => unit_bytes(high, upper) + unit_bytes(low, upper),
    }
}

pub open spec fn text_bytes(atoms: Seq<Atom>, upper: bool) -> Seq<u8>
    decreases atoms.len(),
{
    if atoms.len() == 0 {
        Seq::empty()
    } else {
        atom_bytes(atoms[0], upper) + text_bytes(atoms.drop_first(), upper)
    }
}

/// The text that the parts stand for.
pub open spec fn text_in(atoms: Seq<Atom>) -> Seq<char>
    decreases atoms.len(),
{
    if atoms.len() == 0 {
        Seq::empty()
    } else {
        seq![char_of(atoms[0])] + text_in(atoms.drop_first())
    }
}

pub open spec fn are_atoms(atoms: Seq<Atom>) -> bool {
    forall|i: int| 0 <= i < atoms.len() ==> is_atom(#[trigger] atoms[i])
}

/// The text in quotes.
pub open spec fn quoted_bytes(atoms: Seq<Atom>, upper: bool) -> Seq<u8> {
    seq![0x22u8] + text_bytes(atoms, upper) + seq![0x22u8]
}

/// What stands at `pos`, and what stands behind it.
proof fn lemma_part(b: Seq<u8>, pos: int, x: Seq<u8>, y: Seq<u8>)
    requires
        0 <= pos <= b.len(),
        b.skip(pos) == x + y,
    ensures
        pos + x.len() <= b.len(),
        b.len() == pos + x.len() + y.len(),
        b.skip(pos + x.len()) == y,
        b.subrange(pos, pos + x.len()) == x,
        forall|i: int| 0 <= i < x.len() ==> b[pos + i] == #[trigger] x[i],
{
    let tail = b.skip(pos);
    assert(tail.len() == b.len() - pos);
    assert forall|i: int| 0 <= i < x.len() implies b[pos + i] == #[trigger] x[i] by {
        assert(tail[i] == b[pos + i]);
        assert((x + y)[i] == x[i]);
    }
    assert(b.skip(pos + x.len()) =~= y) by {
        assert forall|i: int| 0 <= i < y.len() implies b[pos + x.len() + i] == y[i] by {
            assert(tail[x.len() + i] == b[pos + x.len() + i]);
            assert((x + y)[x.len() + i] == y[i]);
        }
    }
    assert(b.subrange(pos, pos + x.len()) =~= x);
}

proof fn lemma_digit_byte(d: int, upper: bool)
    requires
        0 <= d < 16,
    ensures
        hex_digit(digit_byte(d, upper)) == Some(d as nat),
        digit_byte(d, upper) < 0x80,
{
}

/// What the reader makes of a number of four hexadecimal digits.
proof fn lemma_unit(b: Seq<u8>, pos: int, n: u16, upper: bool, rest: Seq<u8>)
    requires
        0 <= pos <= b.len(),
        b.skip(pos) == unit_bytes(n, upper) + rest,
    ensures
        b.skip(pos + 6) == rest,
        pos + 6 <= b.len(),
        !holds(b, pos, '"'),
        piece_at(b, pos) == Ok::<(Piece, int), Seq<char>>((Piece::Unit(n as nat), pos + 6)),
{
    let bytes = unit_bytes(n, upper);
    lemma_part(b, pos, bytes, rest);
    let (d3, d2, d1, d0) = (
        n as int / 4096,
        n as int / 256 % 16,
        n as int / 16 % 16,
        n as int % 16,
    );
    lemma_digit_byte(d3, upper);
    lemma_digit_byte(d2, upper);
    lemma_digit_byte(d1, upper);
    lemma_digit_byte(d0, upper);
    assert(b[pos + 0] == bytes[0] && b[pos + 1] == bytes[1]);
    let digits = b.subrange(pos + 2, pos + 6);
    assert(digits =~= seq![bytes[2], bytes[3], bytes[4], bytes[5]]) by {
        assert(b[pos + 2] == bytes[2] && b[pos + 3] == bytes[3] && b[pos + 4] == bytes[4] && b[pos
            + 5] == bytes[5]);
    }
    lemma_ascii_is_valid(digits);
    let (one, two, three) = (digits.drop_last().drop_last().drop_last(), digits.drop_last().drop_last(), digits.drop_last());
    assert(one.drop_last() =~= Seq::<u8>::empty());
    assert(one.last() == bytes[2] && two.last() == bytes[3] && three.last() == bytes[4]
        && digits.last() == bytes[5]);
    assert(hex_value(one.drop_last()) == Some(0nat));
    assert(hex_value(one) == Some(d3 as nat));
    assert(hex_value(two) == Some((16 * d3 + d2) as nat));
    assert(hex_value(three) == Some((16 * (16 * d3 + d2) + d1) as nat));
    assert(hex_value(digits) == Some((16 * (16 * (16 * d3 + d2) + d1) + d0) as nat));
    assert(16 * (16 * (16 * d3 + d2) + d1) + d0 == n as int) by {
        let a = n as int / 16;
        let c = n as int / 256;
        assert(c == a / 16 && d3 == c / 16);
        assert(16 * d3 + c % 16 == c);
        assert(16 * c + a % 16 == a);
    }
    assert(short_escape('u') is None);
    assert(b[pos + 1] as char == 'u');
}

proof fn lemma_ascii_is_valid(digits: Seq<u8>)
    requires
        digits.len() == 4,
        forall|i: int| 0 <= i < digits.len() ==> #[trigger] digits[i] < 0x80,
    ensures
        valid_utf8(digits),
{
    let chars = Seq::new(digits.len(), |i: int| digits[i] as char);
    is_ascii_chars_encode_utf8(chars);
    encode_utf8_valid_utf8(chars);
    assert(encode_utf8(chars) =~= digits);
}

/// What the reader makes of a part.
pub open spec fn atom_pieces(a: Atom) -> Seq<Piece> {
    match a {
        Atom::Plain(_) | Atom::Short(_) => seq![Piece::Text(seq![char_of(a)])],
        Atom::Unit(n) => seq![Piece::Unit(n as nat)],
        Atom::Pair(high, low) => seq![Piece::Unit(high as nat), Piece::Unit(low as nat)],
    }
}

proof fn lemma_atom(b: Seq<u8>, pos: int, a: Atom, upper: bool, rest: Seq<u8>)
    requires
        0 <= pos <= b.len(),
        is_atom(a),
        b.skip(pos) == atom_bytes(a, upper) + rest,
    ensures
        ({
            let end = pos + atom_bytes(a, upper).len();
            &&& pos < end <= b.len()
            &&& b.skip(end) == rest
            &&& pieces_at(b, end) matches Ok((more, behind)) ==> pieces_at(b, pos) == Ok::<
                (Seq<Piece>, int),
                Seq<char>,
            >((atom_pieces(a) + more, behind))
        }),
{
    let bytes = atom_bytes(a, upper);
    let end = pos + bytes.len();
    lemma_part(b, pos, bytes, rest);
    match a {
        Atom::Plain(c) => {
            lemma_encoded_char(c);
            assert(b[pos + 0] == bytes[0]);
        },
        Atom::Short(l) => {
            assert(b[pos + 0] == bytes[0] && b[pos + 1] == bytes[1]);
            assert(bytes[1] as char == l);
        },
        Atom::Unit(n) => {
            lemma_unit(b, pos, n, upper, rest);
        },
        Atom::Pair(high, low) => {
            let (first, second) = (unit_bytes(high, upper), unit_bytes(low, upper));
            assert(first + second + rest =~= first + (second + rest));
            lemma_unit(b, pos, high, upper, second + rest);
            lemma_unit(b, pos + 6, low, upper, rest);
            assert(end == pos + 6 + 6);
            if let Ok((more, behind)) = pieces_at(b, end) {
                assert(pieces_at(b, pos + 6) == Ok::<(Seq<Piece>, int), Seq<char>>(
                    (seq![Piece::Unit(low as nat)] + more, behind),
                ));
                assert(seq![Piece::Unit(high as nat)] + (seq![Piece::Unit(low as nat)] + more)
                    =~= atom_pieces(a) + more);
            }
        },
    }
}

proof fn lemma_atom_joined(a: Atom, more: Seq<Piece>)
    requires
        is_atom(a),
    ensures
        joined(atom_pieces(a) + more, None) == seq![char_of(a)] + joined(more, None),
{
    let all = atom_pieces(a) + more;
    match a {
        Atom::Pair(high, low) => {
            let rest = all.drop_first();
            assert(all[0] == Piece::Unit(high as nat));
            assert(rest[0] == Piece::Unit(low as nat));
            assert(rest.drop_first() =~= more);
            assert(joined(all, None) == joined(rest, Some(high as nat)));
            assert(paired(high as nat, low as nat) == char_of(a));
        },
        Atom::Unit(n) => {
            assert(all[0] == Piece::Unit(n as nat));
            assert(all.drop_first() =~= more);
            assert(lone(n as nat) == seq![char_of(a)]);
        },
        _ => {
            assert(all.drop_first() =~= more);
        },
    }
}

proof fn lemma_text(b: Seq<u8>, pos: int, atoms: Seq<Atom>, upper: bool, behind: Seq<u8>)
    requires
        0 <= pos <= b.len(),
        are_atoms(atoms),
        b.skip(pos) == text_bytes(atoms, upper) + (seq![0x22u8] + behind),
    ensures
        pieces_at(b, pos) matches Ok((pieces, end)) && end == b.len() - behind.len() && joined(
            pieces,
            None,
        ) == text_in(atoms),
    decreases atoms.len(),
{
    if atoms.len() == 0 {
        let none = Seq::<u8>::empty();
        assert(none + (seq![0x22u8] + behind) =~= seq![0x22u8] + behind);
        lemma_part(b, pos, seq![0x22u8], behind);
        assert(b[pos + 0] == seq![0x22u8][0]);
        assert(holds(b, pos, '"'));
        assert(joined(Seq::empty(), None) =~= text_in(atoms));
    } else {
        let (first, rest) = (atoms[0], atoms.drop_first());
        let (x, y) = (atom_bytes(first, upper), text_bytes(rest, upper));
        let tail = seq![0x22u8] + behind;
        assert(x + y + tail =~= x + (y + tail));
        assert forall|i: int| 0 <= i < rest.len() implies is_atom(#[trigger] rest[i]) by {
            assert(rest[i] == atoms[i + 1]);
        }
        lemma_atom(b, pos, first, upper, y + tail);
        let end = pos + x.len();
        lemma_text(b, end, rest, upper, behind);
        let (more, last) = pieces_at(b, end)->Ok_0;
        lemma_atom_joined(first, more);
    }
}

/// A text in quotes is read as what its parts stand for.
proof fn lemma_string(b: Seq<u8>, pos: int, atoms: Seq<Atom>, upper: bool, behind: Seq<u8>)
    requires
        0 <= pos <= b.len(),
        are_atoms(atoms),
        b.skip(pos) == quoted_bytes(atoms, upper) + behind,
    ensures
        holds(b, pos, '"'),
        string_at(b, pos) == Ok::<(Seq<char>, int), Seq<char>>(
            (text_in(atoms), b.len() - behind.len()),
        ),
{
    let text = text_bytes(atoms, upper);
    assert(quoted_bytes(atoms, upper) + behind =~= seq![0x22u8] + (text + (seq![0x22u8] + behind)));
    lemma_part(b, pos, seq![0x22u8], text + (seq![0x22u8] + behind));
    assert(b[pos + 0] == seq![0x22u8][0]);
    lemma_text(b, pos + 1, atoms, upper, behind);
}

// ---------------------------------------------------------------------------
// Numbers
// ---------------------------------------------------------------------------

/// A number: its sign, its digits before and behind the point, and its exponent.
pub ghost struct Numeral {
    pub minus: bool,
    pub whole: Seq<u8>,
    pub fraction: Option<Seq<u8>>,
    pub exponent: Option<Exponent>,
}

pub ghost struct Exponent {
    pub capital: bool,
    /// A sign, where one is written: whether it is a minus.
    pub sign: Option<bool>,
    pub digits: Seq<u8>,
}

pub open spec fn are_digits(s: Seq<u8>) -> bool {
    forall|i: int| 0 <= i < s.len() ==> 0x30 <= #[trigger] s[i] <= 0x39
}

pub open spec fn is_numeral(n: Numeral) -> bool {
    &&& n.whole.len() > 0 && are_digits(n.whole)
    &&& n.fraction matches Some(f) ==> are_digits(f)
    &&& n.exponent matches Some(e) ==> e.digits.len() > 0 && are_digits(e.digits)
}

pub open spec fn sign_bytes(minus: bool) -> Seq<u8> {
    if minus {
        seq![0x2Du8]
    } else {
        Seq::empty()
    }
}

pub open spec fn fraction_bytes(f: Option<Seq<u8>>) -> Seq<u8> {
    match f {
        Some(digits) => seq![0x2Eu8] + digits,
        None => Seq::empty(),
    }
}

pub open spec fn exponent_sign_bytes(sign: Option<bool>) -> Seq<u8> {
    match sign {
        Some(minus) => if minus {
            seq![0x2Du8]
        } else {
            seq![0x2Bu8]
        },
        None => Seq::empty(),
    }
}

pub open spec fn exponent_bytes(e: Option<Exponent>) -> Seq<u8> {
    match e {
        Some(e) => seq![
            if e.capital {
                0x45u8
            } else {
                0x65u8
            },
        ] + exponent_sign_bytes(e.sign) + e.digits,
        None => Seq::empty(),
    }
}

pub open spec fn numeral_bytes(n: Numeral) -> Seq<u8> {
    sign_bytes(n.minus) + n.whole + fraction_bytes(n.fraction) + exponent_bytes(n.exponent)
}

/// What may stand behind a number: nothing that would belong to it.
pub open spec fn stops(behind: Seq<u8>) -> bool {
    behind.len() > 0 ==> !(0x30 <= behind[0] <= 0x39) && behind[0] != 0x2E && behind[0] != 0x65
        && behind[0] != 0x45
}

proof fn lemma_digits(b: Seq<u8>, pos: int, digits: Seq<u8>, behind: Seq<u8>)
    requires
        0 <= pos <= b.len(),
        are_digits(digits),
        b.skip(pos) == digits + behind,
        behind.len() > 0 ==> !(0x30 <= behind[0] <= 0x39),
    ensures
        after_digits(b, pos) == pos + digits.len(),
    decreases digits.len(),
{
    lemma_part(b, pos, digits, behind);
    if digits.len() == 0 {
        if behind.len() > 0 {
            assert(b.skip(pos + digits.len())[0] == b[pos]);
        }
    } else {
        let rest = digits.drop_first();
        assert(b[pos + 0] == digits[0]);
        assert(b.skip(pos + 1) =~= rest + behind) by {
            assert(digits + behind =~= seq![digits[0]] + (rest + behind));
            lemma_part(b, pos, seq![digits[0]], rest + behind);
        }
        assert forall|i: int| 0 <= i < rest.len() implies 0x30 <= #[trigger] rest[i] <= 0x39 by {
            assert(rest[i] == digits[i + 1]);
        }
        lemma_digits(b, pos + 1, rest, behind);
    }
}

proof fn lemma_first_of(b: Seq<u8>, pos: int, x: Seq<u8>)
    requires
        0 <= pos <= b.len(),
        b.skip(pos) == x,
    ensures
        b.len() == pos + x.len(),
        x.len() > 0 ==> pos < b.len() && b[pos] == x[0],
        x.len() > 1 ==> b[pos + 1] == x[1],
{
    if x.len() > 0 {
        assert(b.skip(pos)[0] == b[pos]);
    }
    if x.len() > 1 {
        assert(b.skip(pos)[1] == b[pos + 1]);
    }
}

/// The exponent of a number ends where it was written to.
proof fn lemma_exponent(b: Seq<u8>, pos: int, e: Exponent, behind: Seq<u8>)
    requires
        0 <= pos <= b.len(),
        e.digits.len() > 0 && are_digits(e.digits),
        b.skip(pos) == exponent_bytes(Some(e)) + behind,
        stops(behind),
    ensures
        holds(b, pos, 'e') || holds(b, pos, 'E'),
        ({
            let power = if holds(b, pos + 1, '+') || holds(b, pos + 1, '-') {
                pos + 2
            } else {
                pos + 1
            };
            power < after_digits(b, power) && after_digits(b, power) == b.len() - behind.len()
        }),
{
    let mark = seq![
        if e.capital {
            0x45u8
        } else {
            0x65u8
        },
    ];
    let sign = exponent_sign_bytes(e.sign);
    assert(exponent_bytes(Some(e)) + behind =~= mark + (sign + (e.digits + behind)));
    lemma_part(b, pos, mark, sign + (e.digits + behind));
    assert(b[pos + 0] == mark[0]);
    lemma_part(b, pos + 1, sign, e.digits + behind);
    let power = pos + 1 + sign.len();
    lemma_digits(b, power, e.digits, behind);
    lemma_first_of(b, power, e.digits + behind);
    assert((e.digits + behind)[0] == e.digits[0]);
    if e.sign is Some {
        assert(b[pos + 1 + 0] == sign[0]);
    } else {
        assert(b[pos + 1] == e.digits[0]);
    }
    lemma_part(b, power, e.digits, behind);
}

/// A number is read as it is written.
#[verifier::rlimit(30)]
proof fn lemma_number(b: Seq<u8>, pos: int, n: Numeral, behind: Seq<u8>)
    requires
        0 <= pos <= b.len(),
        is_numeral(n),
        b.skip(pos) == numeral_bytes(n) + behind,
        stops(behind),
    ensures
        digit_at(b, pos) || holds(b, pos, '-'),
        number_at(b, pos) == Ok::<(JsonValue, int), Seq<char>>(
            (JsonValue::Number(chars_in(numeral_bytes(n))), b.len() - behind.len()),
        ),
{
    let (sign, fraction, exponent) = (
        sign_bytes(n.minus),
        fraction_bytes(n.fraction),
        exponent_bytes(n.exponent),
    );
    let last = exponent + behind;
    lemma_numeral_regrouped(sign, n.whole, fraction, exponent, behind);
    lemma_part(b, pos, sign, n.whole + (fraction + last));
    let whole = pos + sign.len();
    lemma_part(b, whole, n.whole, fraction + last);
    lemma_first_of(b, whole, n.whole + (fraction + last));
    assert((n.whole + (fraction + last))[0] == n.whole[0]);
    if n.minus {
        assert(b[pos + 0] == sign[0]);
    }
    assert(last.len() > 0 ==> !(0x30 <= last[0] <= 0x39) && last[0] != 0x2E) by {
        if exponent.len() > 0 {
            assert(last[0] == exponent[0]);
        } else {
            assert(last =~= behind);
        }
    }
    let after = fraction + last;
    assert(after.len() > 0 ==> !(0x30 <= after[0] <= 0x39)) by {
        if fraction.len() > 0 {
            assert(after[0] == fraction[0]);
        } else {
            assert(after =~= last);
        }
    }
    lemma_digits(b, whole, n.whole, after);
    let point = whole + n.whole.len();
    lemma_part(b, point, fraction, last);
    lemma_first_of(b, point, after);
    let rest = point + fraction.len();
    if let Some(digits) = n.fraction {
        assert(fraction + last =~= seq![0x2Eu8] + (digits + last));
        lemma_part(b, point, seq![0x2Eu8], digits + last);
        assert(b[point + 0] == seq![0x2Eu8][0]);
        lemma_digits(b, point + 1, digits, last);
    } else {
        assert(after =~= last);
    }
    lemma_first_of(b, rest, last);
    if let Some(e) = n.exponent {
        lemma_exponent(b, rest, e, behind);
    } else {
        assert(last =~= behind);
    }
    let end = b.len() - behind.len();
    assert(numeral(b, pos) == (end as int, true));
    lemma_part(b, pos, numeral_bytes(n), behind);
    assert(ascii(b, pos, end as int) =~= chars_in(numeral_bytes(n)));
}

proof fn lemma_numeral_regrouped(
    sign: Seq<u8>,
    whole: Seq<u8>,
    fraction: Seq<u8>,
    exponent: Seq<u8>,
    behind: Seq<u8>,
)
    ensures
        sign + whole + fraction + exponent + behind == sign + (whole + (fraction + (exponent
            + behind))),
{
    assert(sign + whole + fraction + exponent + behind =~= sign + (whole + (fraction + (exponent
        + behind))));
}

/// Bytes as the characters that they stand for.
pub open spec fn chars_in(bytes: Seq<u8>) -> Seq<char> {
    Seq::new(bytes.len(), |i: int| bytes[i] as char)
}

// ---------------------------------------------------------------------------
// Documents
// ---------------------------------------------------------------------------

/// A document as it is written.
pub ghost enum Doc {
    Null,
    Yes,
    No,
    Text(Seq<Atom>),
    Number(Numeral),
    List(Seq<Doc>),
    /// The members in the order in which they are written.
    Record(Seq<(Seq<Atom>, Doc)>),
}

/// The document may be written so, and its lists and records nest no deeper than this.
pub open spec fn is_doc(doc: Doc, levels: nat) -> bool
    decreases doc,
{
    match doc {
        Doc::Null | Doc::Yes | Doc::No => true,
        Doc::Text(atoms) => are_atoms(atoms),
        Doc::Number(n) => is_numeral(n),
        Doc::List(items) => levels > 0 && forall|i: int|
            0 <= i < items.len() ==> is_doc(#[trigger] items[i], (levels - 1) as nat),
        Doc::Record(members) => levels > 0 && forall|i: int|
            0 <= i < members.len() ==> are_atoms((#[trigger] members[i]).0) && is_doc(
                members[i].1,
                (levels - 1) as nat,
            ),
    }
}

/// What the document means.
pub open spec fn meaning(doc: Doc) -> JsonValue
    decreases doc,
{
    match doc {
        Doc::Null => JsonValue::Null,
        Doc::Yes => JsonValue::Bool(true),
        Doc::No => JsonValue::Bool(false),
        Doc::Text(atoms) => JsonValue::String(text_in(atoms)),
        Doc::Number(n) => JsonValue::Number(chars_in(numeral_bytes(n))),
        Doc::List(items) => JsonValue::Array(meanings(items)),
        Doc::Record(members) => JsonValue::Object(gathered(Map::empty(), members)),
    }
}

/// What the items mean, in their order.
pub open spec fn meanings(items: Seq<Doc>) -> Seq<JsonValue>
    decreases items,
{
    if items.len() == 0 {
        Seq::empty()
    } else {
        seq![meaning(items[0])] + meanings(items.drop_first())
    }
}

/// What the members mean, behind those that were found before: of several with one
/// name the last counts.
pub open spec fn gathered(
    found: Map<Seq<char>, JsonValue>,
    members: Seq<(Seq<Atom>, Doc)>,
) -> Map<Seq<char>, JsonValue>
    decreases members,
{
    if members.len() == 0 {
        found
    } else {
        gathered(
            found.insert(text_in(members[0].0), meaning(members[0].1)),
            members.drop_first(),
        )
    }
}

/// The document in bytes, with the white space `w` at every place where some may
/// stand.
pub open spec fn doc_bytes(doc: Doc, w: Seq<u8>, upper: bool) -> Seq<u8>
    decreases doc,
{
    match doc {
        Doc::Null => seq![0x6Eu8, 0x75u8, 0x6Cu8, 0x6Cu8],
        Doc::Yes => seq![0x74u8, 0x72u8, 0x75u8, 0x65u8],
        Doc::No => seq![0x66u8, 0x61u8, 0x6Cu8, 0x73u8, 0x65u8],
        Doc::Text(atoms) => quoted_bytes(atoms, upper),
        Doc::Number(n) => numeral_bytes(n),
        Doc::List(items) => seq![0x5Bu8] + w + items_bytes(items, w, upper) + seq![0x5Du8],
        Doc::Record(members) => seq![0x7Bu8] + w + members_bytes(members, w, upper) + seq![0x7Du8],
    }
}

/// What stands between two items.
pub open spec fn comma(w: Seq<u8>) -> Seq<u8> {
    seq![0x2Cu8] + w
}

pub open spec fn items_bytes(items: Seq<Doc>, w: Seq<u8>, upper: bool) -> Seq<u8>
    decreases items,
{
    if items.len() == 0 {
        Seq::empty()
    } else {
        doc_bytes(items[0], w, upper) + w + (if items.len() == 1 {
            Seq::empty()
        } else {
            comma(w) + items_bytes(items.drop_first(), w, upper)
        })
    }
}

/// One member: its name, a colon, its value.
pub open spec fn member_bytes(key: Seq<Atom>, value: Seq<u8>, w: Seq<u8>, upper: bool) -> Seq<u8> {
    quoted_bytes(key, upper) + w + seq![0x3Au8] + w + value + w
}

pub open spec fn members_bytes(members: Seq<(Seq<Atom>, Doc)>, w: Seq<u8>, upper: bool) -> Seq<u8>
    decreases members,
{
    if members.len() == 0 {
        Seq::empty()
    } else {
        member_bytes(members[0].0, doc_bytes(members[0].1, w, upper), w, upper) + (
        if members.len() == 1 {
            Seq::empty()
        } else {
            comma(w) + members_bytes(members.drop_first(), w, upper)
        })
    }
}

pub open spec fn is_white(w: Seq<u8>) -> bool {
    forall|i: int|
        0 <= i < w.len() ==> #[trigger] w[i] == 0x20 || w[i] == 0x09 || w[i] == 0x0A || w[i] == 0x0D
}

proof fn lemma_white(b: Seq<u8>, pos: int, w: Seq<u8>, x: Seq<u8>)
    requires
        0 <= pos <= b.len(),
        is_white(w),
        b.skip(pos) == w + x,
        x.len() > 0 ==> !is_space(x[0]),
    ensures
        after_space(b, pos) == pos + w.len(),
        b.skip(pos + w.len()) == x,
    decreases w.len(),
{
    lemma_part(b, pos, w, x);
    if w.len() == 0 {
        assert(w + x =~= x);
        lemma_first_of(b, pos, x);
    } else {
        let rest = w.drop_first();
        assert(w + x =~= seq![w[0]] + (rest + x));
        lemma_part(b, pos, seq![w[0]], rest + x);
        assert(b[pos + 0] == w[0]);
        assert forall|i: int| 0 <= i < rest.len() implies #[trigger] rest[i] == 0x20 || rest[i] == 0x09
            || rest[i] == 0x0A || rest[i] == 0x0D by {
            assert(rest[i] == w[i + 1]);
        }
        lemma_white(b, pos + 1, rest, x);
    }
}

/// How a document begins.
proof fn lemma_first_byte(doc: Doc, w: Seq<u8>, upper: bool, levels: nat)
    requires
        is_doc(doc, levels),
    ensures
        ({
            let bytes = doc_bytes(doc, w, upper);
            &&& bytes.len() > 0
            &&& !is_space(bytes[0])
            &&& bytes[0] != 0x5D
        }),
{
    let bytes = doc_bytes(doc, w, upper);
    match doc {
        Doc::Number(n) => {
            if n.minus {
                assert(bytes[0] == sign_bytes(true)[0]);
            } else {
                assert(bytes[0] == n.whole[0]);
            }
        },
        _ => {},
    }
}

/// A value is read as what it means, and ends where it was written to.
#[verifier::rlimit(60)]
proof fn lemma_value(
    b: Seq<u8>,
    start: int,
    v: Seq<u8>,
    doc: Doc,
    w: Seq<u8>,
    upper: bool,
    behind: Seq<u8>,
    depth: nat,
)
    requires
        0 <= start <= b.len(),
        depth <= 32,
        is_white(v),
        is_white(w),
        is_doc(doc, (32 - depth) as nat),
        stops(behind),
        b.skip(start) == v + (doc_bytes(doc, w, upper) + behind),
    ensures
        value_at(b, start, depth) == Ok::<(JsonValue, int), Seq<char>>(
            (meaning(doc), b.len() - behind.len()),
        ),
    decreases doc,
{
    let bytes = doc_bytes(doc, w, upper);
    lemma_first_byte(doc, w, upper, (32 - depth) as nat);
    assert((bytes + behind)[0] == bytes[0]);
    lemma_white(b, start, v, bytes + behind);
    lemma_part(b, start, v, bytes + behind);
    let pos = start + v.len();
    let none = Seq::<u8>::empty();
    match doc {
        Doc::List(items) => {
            let inner = items_bytes(items, w, upper);
            let end = seq![0x5Du8] + behind;
            lemma_enclosed(seq![0x5Bu8], w, inner, seq![0x5Du8], behind);
            if items.len() == 0 {
                assert(meanings(items) =~= Seq::empty());
                lemma_list_opens(b, start, pos, w, inner, behind, depth);
            } else {
                lemma_first_byte(items[0], w, upper, (32 - depth - 1) as nat);
                assert(inner[0] == doc_bytes(items[0], w, upper)[0]);
                lemma_list_opens(b, start, pos, w, inner, behind, depth);
                let first = pos + 1 + w.len();
                lemma_part(b, pos, seq![0x5Bu8] + w, inner + end);
                lemma_items(b, first, none, items, w, upper, behind, depth + 1, Seq::empty());
                assert(Seq::<JsonValue>::empty() + meanings(items) =~= meanings(items));
            }
        },
        Doc::Record(members) => {
            let inner = members_bytes(members, w, upper);
            let end = seq![0x7Du8] + behind;
            lemma_enclosed(seq![0x7Bu8], w, inner, seq![0x7Du8], behind);
            if members.len() == 0 {
                lemma_record_opens(b, start, pos, w, inner, behind, depth);
            } else {
                assert(inner[0] == 0x22u8);
                lemma_record_opens(b, start, pos, w, inner, behind, depth);
                let first = pos + 1 + w.len();
                lemma_part(b, pos, seq![0x7Bu8] + w, inner + end);
                lemma_members(b, first, none, members, w, upper, behind, depth + 1, Map::empty());
            }
        },
        _ => lemma_leaf(b, start, pos, doc, w, upper, behind, depth),
    }
}

proof fn lemma_enclosed(
    open: Seq<u8>,
    w: Seq<u8>,
    inner: Seq<u8>,
    close: Seq<u8>,
    behind: Seq<u8>,
)
    ensures
        open + w + inner + close + behind == open + (w + (inner + (close + behind))),
        open + w + inner + close + behind == (open + w) + (inner + (close + behind)),
        Seq::<u8>::empty() + (inner + (close + behind)) == inner + (close + behind),
{
    assert(open + w + inner + close + behind =~= open + (w + (inner + (close + behind))));
    assert(open + w + inner + close + behind =~= (open + w) + (inner + (close + behind)));
    assert(Seq::<u8>::empty() + (inner + (close + behind)) =~= inner + (close + behind));
}

/// A word, a text or a number is read as what it means.
proof fn lemma_leaf(
    b: Seq<u8>,
    start: int,
    pos: int,
    doc: Doc,
    w: Seq<u8>,
    upper: bool,
    behind: Seq<u8>,
    depth: nat,
)
    requires
        0 <= pos <= b.len(),
        pos == after_space(b, start),
        !(doc is List) && !(doc is Record),
        is_doc(doc, 0),
        stops(behind),
        b.skip(pos) == doc_bytes(doc, w, upper) + behind,
    ensures
        value_at(b, start, depth) == Ok::<(JsonValue, int), Seq<char>>(
            (meaning(doc), b.len() - behind.len()),
        ),
{
    let bytes = doc_bytes(doc, w, upper);
    lemma_first_byte(doc, w, upper, 0);
    lemma_part(b, pos, bytes, behind);
    assert(b[pos + 0] == bytes[0]);
    lemma_words();
    match doc {
        Doc::Null => {
            assert(b[pos + 1] == bytes[1] && b[pos + 2] == bytes[2] && b[pos + 3] == bytes[3]);
            assert(!holds(b, pos + 0, "true"@[0]) && !holds(b, pos + 0, "false"@[0]));
            assert(word_at(b, pos, "null"@));
        },
        Doc::Yes => {
            assert(b[pos + 1] == bytes[1] && b[pos + 2] == bytes[2] && b[pos + 3] == bytes[3]);
            assert(word_at(b, pos, "true"@));
        },
        Doc::No => {
            assert(b[pos + 1] == bytes[1] && b[pos + 2] == bytes[2] && b[pos + 3] == bytes[3] && b[pos
                + 4] == bytes[4]);
            assert(!holds(b, pos + 0, "true"@[0]));
            assert(word_at(b, pos, "false"@));
        },
        Doc::Text(atoms) => {
            lemma_string(b, pos, atoms, upper, behind);
        },
        Doc::Number(n) => {
            lemma_number(b, pos, n, behind);
            assert(!holds(b, pos + 0, "true"@[0]) && !holds(b, pos + 0, "false"@[0]) && !holds(
                b,
                pos + 0,
                "null"@[0],
            ));
            assert(bytes[0] != 0x22 && bytes[0] != 0x7B && bytes[0] != 0x5B) by {
                if n.minus {
                    assert(bytes[0] == sign_bytes(true)[0]);
                } else {
                    assert(bytes[0] == n.whole[0]);
                }
            }
        },
        _ => {},
    }
}

/// A list begins with its bracket, and then its items come, or its end.
proof fn lemma_list_opens(
    b: Seq<u8>,
    start: int,
    pos: int,
    w: Seq<u8>,
    inner: Seq<u8>,
    behind: Seq<u8>,
    depth: nat,
)
    requires
        0 <= pos <= b.len(),
        pos == after_space(b, start),
        depth < 32,
        is_white(w),
        inner.len() > 0 ==> !is_space(inner[0]) && inner[0] != 0x5D,
        b.skip(pos) == seq![0x5Bu8] + (w + (inner + (seq![0x5Du8] + behind))),
    ensures
        inner.len() == 0 ==> value_at(b, start, depth) == Ok::<(JsonValue, int), Seq<char>>(
            (JsonValue::Array(Seq::empty()), b.len() - behind.len()),
        ),
        inner.len() > 0 ==> value_at(b, start, depth) == items_at(
            b,
            pos + 1 + w.len(),
            depth + 1,
            Seq::empty(),
        ),
{
    let end = seq![0x5Du8] + behind;
    let rest = inner + end;
    lemma_part(b, pos, seq![0x5Bu8], w + rest);
    assert(b[pos + 0] == seq![0x5Bu8][0]);
    assert(rest[0] == (if inner.len() > 0 {
        inner[0]
    } else {
        0x5Du8
    }));
    lemma_white(b, pos + 1, w, rest);
    lemma_first_of(b, pos + 1 + w.len(), rest);
    if inner.len() == 0 {
        assert(rest =~= end);
    }
}

/// A record begins with its brace, and then its members come, or its end.
proof fn lemma_record_opens(
    b: Seq<u8>,
    start: int,
    pos: int,
    w: Seq<u8>,
    inner: Seq<u8>,
    behind: Seq<u8>,
    depth: nat,
)
    requires
        0 <= pos <= b.len(),
        pos == after_space(b, start),
        depth < 32,
        is_white(w),
        inner.len() > 0 ==> inner[0] == 0x22,
        b.skip(pos) == seq![0x7Bu8] + (w + (inner + (seq![0x7Du8] + behind))),
    ensures
        inner.len() == 0 ==> value_at(b, start, depth) == Ok::<(JsonValue, int), Seq<char>>(
            (JsonValue::Object(Map::empty()), b.len() - behind.len()),
        ),
        inner.len() > 0 ==> value_at(b, start, depth) == members_at(
            b,
            pos + 1 + w.len(),
            depth + 1,
            Map::empty(),
        ),
{
    let end = seq![0x7Du8] + behind;
    let rest = inner + end;
    lemma_part(b, pos, seq![0x7Bu8], w + rest);
    assert(b[pos + 0] == seq![0x7Bu8][0]);
    assert(rest[0] == (if inner.len() > 0 {
        inner[0]
    } else {
        0x7Du8
    }));
    lemma_white(b, pos + 1, w, rest);
    lemma_first_of(b, pos + 1 + w.len(), rest);
    if inner.len() == 0 {
        assert(rest =~= end);
    }

}

proof fn lemma_words()
    ensures
        "true"@ == seq!['t', 'r', 'u', 'e'],
        "false"@ == seq!['f', 'a', 'l', 's', 'e'],
        "null"@ == seq!['n', 'u', 'l', 'l'],
{
    reveal_strlit("true");
    reveal_strlit("false");
    reveal_strlit("null");
    assert("true"@ =~= seq!['t', 'r', 'u', 'e']);
    assert("false"@ =~= seq!['f', 'a', 'l', 's', 'e']);
    assert("null"@ =~= seq!['n', 'u', 'l', 'l']);
}

/// The items of a list are read in their order.
proof fn lemma_items(
    b: Seq<u8>,
    start: int,
    v: Seq<u8>,
    items: Seq<Doc>,
    w: Seq<u8>,
    upper: bool,
    behind: Seq<u8>,
    depth: nat,
    found: Seq<JsonValue>,
)
    requires
        0 <= start <= b.len(),
        depth <= 32,
        is_white(v),
        is_white(w),
        items.len() > 0,
        forall|i: int| 0 <= i < items.len() ==> is_doc(#[trigger] items[i], (32 - depth) as nat),
        b.skip(start) == v + (items_bytes(items, w, upper) + (seq![0x5Du8] + behind)),
    ensures
        items_at(b, start, depth, found) == Ok::<(JsonValue, int), Seq<char>>(
            (JsonValue::Array(found + meanings(items)), b.len() - behind.len()),
        ),
    decreases items,
{
    let first = doc_bytes(items[0], w, upper);
    let end = seq![0x5Du8] + behind;
    let rest = items.drop_first();
    let more = if items.len() == 1 {
        Seq::empty()
    } else {
        comma(w) + items_bytes(rest, w, upper)
    };
    let tail = more + end;
    assert(items_bytes(items, w, upper) + end =~= first + (w + tail));
    assert(stops(w + tail)) by {
        if w.len() > 0 {
            assert((w + tail)[0] == w[0]);
        } else {
            assert(w + tail =~= tail);
            if items.len() > 1 {
                assert(tail[0] == 0x2C);
            } else {
                assert(tail[0] == 0x5D);
            }
        }
    }
    assert(is_doc(items[0], (32 - depth) as nat));
    lemma_value(b, start, v, items[0], w, upper, w + tail, depth);
    lemma_part(b, start, v, first + (w + tail));
    let middle = start + v.len() + first.len();
    lemma_part(b, start + v.len(), first, w + tail);
    assert(b.len() - (w + tail).len() == middle);
    assert(tail[0] == 0x2C || tail[0] == 0x5D) by {
        if items.len() > 1 {
            assert(tail[0] == more[0]);
        }
    }
    lemma_white(b, middle, w, tail);
    let next = middle + w.len();
    lemma_first_of(b, next, tail);
    let value = meaning(items[0]);
    if items.len() == 1 {
        assert(tail =~= end);
        assert(rest =~= Seq::empty());
        assert(meanings(rest) =~= Seq::empty());
        assert(found + meanings(items) =~= found.push(value));
    } else {
        let others = items_bytes(rest, w, upper);
        assert(tail =~= seq![0x2Cu8] + (w + (others + end)));
        lemma_part(b, next, seq![0x2Cu8], w + (others + end));
        assert forall|i: int| 0 <= i < rest.len() implies is_doc(
            #[trigger] rest[i],
            (32 - depth) as nat,
        ) by {
            assert(rest[i] == items[i + 1]);
        }
        lemma_items(b, next + 1, w, rest, w, upper, behind, depth, found.push(value));
        assert(found.push(value) + meanings(rest) =~= found + meanings(items));
    }
}

/// The members of a record are read in their order.
#[verifier::rlimit(60)]
proof fn lemma_members(
    b: Seq<u8>,
    start: int,
    v: Seq<u8>,
    members: Seq<(Seq<Atom>, Doc)>,
    w: Seq<u8>,
    upper: bool,
    behind: Seq<u8>,
    depth: nat,
    found: Map<Seq<char>, JsonValue>,
)
    requires
        0 <= start <= b.len(),
        depth <= 32,
        is_white(v),
        is_white(w),
        members.len() > 0,
        forall|i: int|
            0 <= i < members.len() ==> are_atoms((#[trigger] members[i]).0) && is_doc(
                members[i].1,
                (32 - depth) as nat,
            ),
        b.skip(start) == v + (members_bytes(members, w, upper) + (seq![0x7Du8] + behind)),
    ensures
        members_at(b, start, depth, found) == Ok::<(JsonValue, int), Seq<char>>(
            (JsonValue::Object(gathered(found, members)), b.len() - behind.len()),
        ),
    decreases members,
{
    let (key, doc) = members[0];
    let name = quoted_bytes(key, upper);
    let first = doc_bytes(doc, w, upper);
    let end = seq![0x7Du8] + behind;
    let rest = members.drop_first();
    let more = if members.len() == 1 {
        Seq::empty()
    } else {
        comma(w) + members_bytes(rest, w, upper)
    };
    let tail = more + end;
    let value_on = w + (first + (w + tail));
    let colon_on = seq![0x3Au8] + value_on;
    lemma_member_regrouped(name, w, first, more, end);
    assert((name + (w + colon_on))[0] == 0x22u8);
    lemma_white(b, start, v, name + (w + colon_on));
    lemma_part(b, start, v, name + (w + colon_on));
    let pos = start + v.len();
    lemma_string(b, pos, key, upper, w + colon_on);
    lemma_part(b, pos, name, w + colon_on);
    let behind_key = pos + name.len();
    lemma_white(b, behind_key, w, colon_on);
    let colon = behind_key + w.len();
    lemma_first_of(b, colon, colon_on);
    lemma_part(b, colon, seq![0x3Au8], value_on);
    assert(stops(w + tail)) by {
        if w.len() > 0 {
            assert((w + tail)[0] == w[0]);
        } else {
            assert(w + tail =~= tail);
            if members.len() > 1 {
                assert(tail[0] == 0x2C);
            } else {
                assert(tail[0] == 0x7D);
            }
        }
    }
    assert(is_doc(members[0].1, (32 - depth) as nat));
    lemma_value(b, colon + 1, w, doc, w, upper, w + tail, depth);
    lemma_part(b, colon + 1, w, first + (w + tail));
    let middle = colon + 1 + w.len() + first.len();
    lemma_part(b, colon + 1 + w.len(), first, w + tail);
    assert(b.len() - (w + tail).len() == middle);
    assert(tail[0] == 0x2C || tail[0] == 0x7D) by {
        if members.len() > 1 {
            assert(tail[0] == more[0]);
        }
    }
    lemma_white(b, middle, w, tail);
    let next = middle + w.len();
    lemma_first_of(b, next, tail);
    let grown = found.insert(text_in(key), meaning(doc));
    if members.len() == 1 {
        assert(tail =~= end);
        assert(rest =~= Seq::empty());
        assert(gathered(grown, rest) == grown);
    } else {
        let others = members_bytes(rest, w, upper);
        assert(tail =~= seq![0x2Cu8] + (w + (others + end)));
        lemma_part(b, next, seq![0x2Cu8], w + (others + end));
        assert forall|i: int| 0 <= i < rest.len() implies are_atoms((#[trigger] rest[i]).0) && is_doc(
            rest[i].1,
            (32 - depth) as nat,
        ) by {
            assert(rest[i] == members[i + 1]);
        }
        lemma_members(b, next + 1, w, rest, w, upper, behind, depth, grown);
    }
}

/// Every document that is written with lists and records nested at most 32 deep, with
/// any white space wherever some may stand, is read as what it means: words, texts
/// with their escapes, numbers as they are spelled, lists in their order, and of
/// several members with one name the last.
pub proof fn a_written_document_is_read_as_what_it_means(
    doc: Doc,
    w: Seq<u8>,
    upper: bool,
    text: &str,
    out: Result<Json, String>,
)
    requires
        is_doc(doc, 32),
        is_white(w),
        encode_utf8(text@) == w + doc_bytes(doc, w, upper) + w,
        call_ensures(parse, (text,), out),
    ensures
        out is Ok,
        out->Ok_0@ == meaning(doc),
{
    let b = encode_utf8(text@);
    let bytes = doc_bytes(doc, w, upper);
    let none = Seq::<u8>::empty();
    lemma_first_byte(doc, w, upper, 32);
    assert(b.skip(0) =~= w + (bytes + w));
    assert((bytes + w)[0] == bytes[0]);
    lemma_white(b, 0, w, bytes + w);
    let start = w.len() as int;
    assert(none + (bytes + w) =~= bytes + w);
    assert(stops(w));
    lemma_value(b, start, none, doc, w, upper, w, 0);
    lemma_part(b, start, bytes, w);
    assert(b.skip(start + bytes.len()) =~= w + none);
    lemma_white(b, start + bytes.len(), w, none);
}

proof fn lemma_member_regrouped(
    name: Seq<u8>,
    w: Seq<u8>,
    first: Seq<u8>,
    more: Seq<u8>,
    end: Seq<u8>,
)
    ensures
        name + w + seq![0x3Au8] + w + first + w + more + end == name + (w + (seq![0x3Au8] + (w + (first
            + (w + (more + end)))))),
{
    assert(name + w + seq![0x3Au8] + w + first + w + more + end =~= name + (w + (seq![0x3Au8] + (w + (
    first + (w + (more + end)))))));
}

/// A high surrogate without its low one is read as U+FFFD, a low one without its high
/// one as nothing.
pub proof fn half_a_pair_is_no_character(
    n: u16,
    upper: bool,
    b: &[u8],
    out: Result<(String, usize), String>,
)
    requires
        0xD800 <= n <= 0xDFFF,
        b@ == seq![0x22u8] + unit_bytes(n, upper) + seq![0x22u8],
        call_ensures(parse_string, (b, 0), out),
    ensures
        out is Ok,
        n <= 0xDBFF ==> (out->Ok_0).0@ == seq!['\u{FFFD}'],
        n > 0xDBFF ==> (out->Ok_0).0@.len() == 0,
{
    let quote = seq![0x22u8];
    let unit = unit_bytes(n, upper);
    let none = Seq::<u8>::empty();
    assert(b@.skip(1) =~= unit + quote);
    lemma_unit(b@, 1, n, upper, quote);
    assert(b@[7] == 0x22u8) by {
        lemma_first_of(b@, 7, quote);
    }
    assert(holds(b@, 7, '"'));
    let pieces = seq![Piece::Unit(n as nat)];
    assert(pieces_at(b@, 7) == Ok::<(Seq<Piece>, int), Seq<char>>((Seq::empty(), 8)));
    assert(pieces_at(b@, 1) == Ok::<(Seq<Piece>, int), Seq<char>>((pieces + Seq::empty(), 8)));
    let all = pieces + Seq::<Piece>::empty();
    assert(all =~= pieces);
    assert(pieces.drop_first() =~= Seq::empty());
    if is_high(n as nat) {
        assert(joined(pieces, None) == joined(pieces.drop_first(), Some(n as nat)));
        assert(joined(pieces.drop_first(), Some(n as nat)) =~= seq!['\u{FFFD}']);
    } else {
        assert(joined(pieces.drop_first(), None) =~= Seq::empty());
        assert(joined(pieces, None) =~= Seq::empty());
    }
}

/// A backslash before any other letter is refused.
pub proof fn an_unknown_escape_is_refused(
    letter: u8,
    behind: Seq<u8>,
    b: &[u8],
    out: Result<(String, usize), String>,
)
    requires
        letter < 0x80,
        letter != 0x22 && letter != 0x5C && letter != 0x2F && letter != 0x6E && letter != 0x74,
        letter != 0x72 && letter != 0x62 && letter != 0x66 && letter != 0x75,
        b@ == seq![0x22u8] + seq![0x5Cu8, letter] + behind,
        call_ensures(parse_string, (b, 0), out),
    ensures
        out is Err,
{
    let bytes = seq![0x5Cu8, letter];
    assert(b@.skip(1) =~= bytes + behind);
    lemma_part(b@, 1, bytes, behind);
    let pos: int = 1;
    assert(b@[pos + 0] == bytes[0] && b@[pos + 1] == bytes[1]);
    assert(short_escape(letter as char) is None);
    assert(piece_at(b@, 1) is Err);
}

// ---------------------------------------------------------------------------
// What is no document
// ---------------------------------------------------------------------------

/// A value may begin with this byte.
pub open spec fn begins_a_value(c: u8) -> bool {
    c == 0x7B || c == 0x5B || c == 0x22 || c == 0x74 || c == 0x66 || c == 0x6E || c == 0x2D || 0x30
        <= c <= 0x39
}

proof fn lemma_no_value(b: Seq<u8>, start: int, w: Seq<u8>, x: Seq<u8>, depth: nat)
    requires
        0 <= start <= b.len(),
        is_white(w),
        b.skip(start) == w + x,
        x.len() > 0 ==> !is_space(x[0]) && !begins_a_value(x[0]),
    ensures
        value_at(b, start, depth) is Err,
{
    lemma_white(b, start, w, x);
    let pos = start + w.len();
    lemma_part(b, start, w, x);
    lemma_first_of(b, pos, x);
    lemma_words();
    assert(!holds(b, pos + 0, "true"@[0]) && !holds(b, pos + 0, "false"@[0]) && !holds(
        b,
        pos + 0,
        "null"@[0],
    ));
}

/// Where no value begins, nothing is read.
pub proof fn a_text_that_is_no_value_is_refused(
    w: Seq<u8>,
    x: Seq<u8>,
    text: &str,
    out: Result<Json, String>,
)
    requires
        is_white(w),
        x.len() > 0 ==> !is_space(x[0]) && !begins_a_value(x[0]),
        encode_utf8(text@) == w + x,
        call_ensures(parse, (text,), out),
    ensures
        out is Err,
{
    let b = encode_utf8(text@);
    let none = Seq::<u8>::empty();
    assert(b.skip(0) =~= w + x);
    lemma_white(b, 0, w, x);
    assert(none + x =~= x);
    lemma_no_value(b, w.len() as int, none, x, 0);
}

/// Behind an item of a list comes a comma with another item, or the end of the list;
/// anything else is refused.
pub proof fn a_list_goes_on_with_a_comma_or_ends(
    w: Seq<u8>,
    doc: Doc,
    upper: bool,
    tail: Seq<u8>,
    text: &str,
    out: Result<Json, String>,
)
    requires
        is_white(w),
        is_doc(doc, 31),
        stops(w + tail),
        tail.len() > 0 ==> !is_space(tail[0]),
        tail.len() > 0 && tail[0] == 0x2C ==> exists|x: Seq<u8>|
            {
                &&& tail == seq![0x2Cu8] + (w + x)
                &&& #[trigger] x.len() > 0 ==> !is_space(x[0]) && !begins_a_value(x[0])
            },
        tail.len() > 0 ==> tail[0] != 0x5D,
        encode_utf8(text@) == seq![0x5Bu8] + (w + (doc_bytes(doc, w, upper) + (w + tail))),
        call_ensures(parse, (text,), out),
    ensures
        out is Err,
{
    let b = encode_utf8(text@);
    let first = doc_bytes(doc, w, upper);
    let rest = first + (w + tail);
    lemma_first_byte(doc, w, upper, 31);
    assert(b.skip(0) =~= seq![0x5Bu8] + (w + rest));
    lemma_part(b, 0, seq![0x5Bu8], w + rest);
    assert(b[0] == 0x5B);
    assert(after_space(b, 0) == 0);
    assert(rest[0] == first[0]);
    lemma_white(b, 1, w, rest);
    let start = 1 + w.len() as int;
    lemma_part(b, 1, w, rest);
    lemma_first_of(b, start, rest);
    lemma_listed(b, start, w, doc, upper, tail);
    assert(value_at(b, 0, 0) == items_at(b, start, 1, Seq::empty()));
}

/// The reader of a list comes to what stands behind the first item.
proof fn lemma_listed(b: Seq<u8>, start: int, w: Seq<u8>, doc: Doc, upper: bool, tail: Seq<u8>)
    requires
        0 <= start <= b.len(),
        is_white(w),
        is_doc(doc, 31),
        stops(w + tail),
        tail.len() > 0 ==> !is_space(tail[0]),
        tail.len() > 0 && tail[0] == 0x2C ==> exists|x: Seq<u8>|
            {
                &&& tail == seq![0x2Cu8] + (w + x)
                &&& #[trigger] x.len() > 0 ==> !is_space(x[0]) && !begins_a_value(x[0])
            },
        tail.len() > 0 ==> tail[0] != 0x5D,
        b.skip(start) == doc_bytes(doc, w, upper) + (w + tail),
    ensures
        items_at(b, start, 1, Seq::empty()) is Err,
{
    let none = Seq::<u8>::empty();
    let first = doc_bytes(doc, w, upper);
    assert(none + (first + (w + tail)) =~= first + (w + tail));
    lemma_value(b, start, none, doc, w, upper, w + tail, 1);
    lemma_part(b, start, first, w + tail);
    let middle = start + first.len();
    lemma_white(b, middle, w, tail);
    lemma_part(b, middle, w, tail);
    let next = middle + w.len();
    lemma_first_of(b, next, tail);
    let found = Seq::<JsonValue>::empty();
    if tail.len() > 0 && tail[0] == 0x2C {
        let x = choose|x: Seq<u8>|
            {
                &&& tail == seq![0x2Cu8] + (w + x)
                &&& #[trigger] x.len() > 0 ==> !is_space(x[0]) && !begins_a_value(x[0])
            };
        lemma_part(b, next, seq![0x2Cu8], w + x);
        lemma_no_value(b, next + 1, w, x, 1);
        assert(items_at(b, next + 1, 1, found.push(meaning(doc))) is Err);
    }
}

/// A record begins with a name in quotes, or ends at once.
pub proof fn a_record_begins_with_a_name(
    w: Seq<u8>,
    x: Seq<u8>,
    text: &str,
    out: Result<Json, String>,
)
    requires
        is_white(w),
        x.len() > 0 ==> !is_space(x[0]) && x[0] != 0x22 && x[0] != 0x7D,
        encode_utf8(text@) == seq![0x7Bu8] + (w + x),
        call_ensures(parse, (text,), out),
    ensures
        out is Err,
{
    let b = encode_utf8(text@);
    assert(b.skip(0) =~= seq![0x7Bu8] + (w + x));
    lemma_part(b, 0, seq![0x7Bu8], w + x);
    assert(b[0] == 0x7B);
    assert(after_space(b, 0) == 0);
    lemma_white(b, 1, w, x);
    lemma_part(b, 1, w, x);
    let start = 1 + w.len() as int;
    lemma_first_of(b, start, x);
    let none = Seq::<u8>::empty();
    assert(none + x =~= x);
    lemma_white(b, start, none, x);
    assert(members_at(b, start, 1, Map::empty()) is Err);
}

/// Behind a name comes a colon with a value, behind the value a comma with another
/// name, or the end of the record; anything else is refused.
pub proof fn a_member_is_a_name_with_a_value(
    w: Seq<u8>,
    key: Seq<Atom>,
    doc: Doc,
    upper: bool,
    tails: (Seq<u8>, Seq<u8>, Seq<u8>),
    texts: (&str, &str, &str),
    outs: (Result<Json, String>, Result<Json, String>, Result<Json, String>),
)
    requires
        is_white(w),
        are_atoms(key),
        is_doc(doc, 31),
        tails.0.len() > 0 ==> !is_space(tails.0[0]) && tails.0[0] != 0x3A,
        tails.1.len() > 0 ==> !is_space(tails.1[0]) && !begins_a_value(tails.1[0]),
        stops(w + tails.2),
        tails.2.len() > 0 ==> !is_space(tails.2[0]) && tails.2[0] != 0x7D,
        tails.2.len() > 0 && tails.2[0] == 0x2C ==> exists|x: Seq<u8>|
            {
                &&& tails.2 == seq![0x2Cu8] + (w + x)
                &&& #[trigger] x.len() > 0 ==> !is_space(x[0]) && x[0] != 0x22
            },
        ({
            let named = quoted_bytes(key, upper);
            let colon = seq![0x3Au8];
            let value = doc_bytes(doc, w, upper);
            &&& encode_utf8(texts.0@) == seq![0x7Bu8] + (w + (named + (w + tails.0)))
            &&& encode_utf8(texts.1@) == seq![0x7Bu8] + (w + (named + (w + (colon + (w
                + tails.1)))))
            &&& encode_utf8(texts.2@) == seq![0x7Bu8] + (w + (named + (w + (colon + (w + (value + (w
                + tails.2)))))))
        }),
        call_ensures(parse, (texts.0,), outs.0),
        call_ensures(parse, (texts.1,), outs.1),
        call_ensures(parse, (texts.2,), outs.2),
    ensures
        outs.0 is Err,
        outs.1 is Err,
        outs.2 is Err,
{
    let colon = seq![0x3Au8];
    let value = doc_bytes(doc, w, upper);
    lemma_named(encode_utf8(texts.0@), w, key, upper, tails.0);
    let second = colon + (w + tails.1);
    let b = encode_utf8(texts.1@);
    lemma_named(b, w, key, upper, second);
    let at = b.len() - second.len();
    lemma_first_of(b, at, second);
    lemma_part(b, at, colon, w + tails.1);
    lemma_no_value(b, at + 1, w, tails.1, 1);
    let third = colon + (w + (value + (w + tails.2)));
    let c = encode_utf8(texts.2@);
    lemma_named(c, w, key, upper, third);
    lemma_valued(c, c.len() - third.len(), w, doc, upper, tails.2);
}

/// The reader of a record comes to what stands behind the first name.
proof fn lemma_named(b: Seq<u8>, w: Seq<u8>, key: Seq<Atom>, upper: bool, tail: Seq<u8>)
    requires
        is_white(w),
        are_atoms(key),
        tail.len() > 0 ==> !is_space(tail[0]),
        b == seq![0x7Bu8] + (w + (quoted_bytes(key, upper) + (w + tail))),
    ensures
        ({
            let at = b.len() - tail.len();
            &&& 0 < at <= b.len()
            &&& b.skip(at) == tail
            &&& tail.len() == 0 || tail[0] != 0x3A ==> document(b) is Err
            &&& tail.len() > 0 && tail[0] == 0x3A && value_at(b, at + 1, 1) is Err ==> document(
                b,
            ) is Err
            &&& tail.len() > 0 && tail[0] == 0x3A ==> (value_at(b, at + 1, 1) matches Ok(
                (value, behind),
            ) ==> {
                let next = after_space(b, behind);
                &&& !holds(b, next, ',') && !holds(b, next, '}') ==> document(b) is Err
                &&& holds(b, next, ',') && next >= at && (forall|found: Map<Seq<char>, JsonValue>|
                    #[trigger] members_at(b, next + 1, 1, found) is Err) ==> document(b) is Err
            })
        }),
{
    let name = quoted_bytes(key, upper);
    let rest = name + (w + tail);
    let none = Seq::<u8>::empty();
    assert(b.skip(0) =~= seq![0x7Bu8] + (w + rest));
    lemma_part(b, 0, seq![0x7Bu8], w + rest);
    assert(b[0] == 0x7B);
    assert(after_space(b, 0) == 0);
    assert(rest[0] == 0x22u8);
    lemma_white(b, 1, w, rest);
    lemma_part(b, 1, w, rest);
    let start = 1 + w.len() as int;
    lemma_first_of(b, start, rest);
    assert(none + rest =~= rest);
    lemma_white(b, start, none, rest);
    lemma_string(b, start, key, upper, w + tail);
    lemma_part(b, start, name, w + tail);
    let behind_key = start + name.len();
    lemma_white(b, behind_key, w, tail);
    lemma_part(b, behind_key, w, tail);
    let at = behind_key + w.len();
    lemma_first_of(b, at, tail);
    let found = Map::<Seq<char>, JsonValue>::empty();
    assert(value_at(b, 0, 0) == members_at(b, start, 1, found));
    assert(at == b.len() - tail.len());
    if tail.len() > 0 && tail[0] == 0x3A {
        assert(holds(b, at, ':'));
        if let Ok((value, behind)) = value_at(b, at + 1, 1) {
            let next = after_space(b, behind);
            let grown = found.insert(text_in(key), value);
            if holds(b, next, ',') && next >= at {
                assert(members_at(b, start, 1, found) == members_at(b, next + 1, 1, grown));
            }
        }
    }
}

proof fn lemma_valued(b: Seq<u8>, at: int, w: Seq<u8>, doc: Doc, upper: bool, tail: Seq<u8>)
    requires
        0 <= at <= b.len(),
        is_white(w),
        is_doc(doc, 31),
        stops(w + tail),
        tail.len() > 0 ==> !is_space(tail[0]) && tail[0] != 0x7D,
        tail.len() > 0 && tail[0] == 0x2C ==> exists|x: Seq<u8>|
            {
                &&& tail == seq![0x2Cu8] + (w + x)
                &&& #[trigger] x.len() > 0 ==> !is_space(x[0]) && x[0] != 0x22
            },
        b.skip(at) == seq![0x3Au8] + (w + (doc_bytes(doc, w, upper) + (w + tail))),
    ensures
        value_at(b, at + 1, 1) matches Ok((value, behind)) && {
            let next = after_space(b, behind);
            &&& next >= at
            &&& !holds(b, next, '}')
            &&& holds(b, next, ',') ==> forall|found: Map<Seq<char>, JsonValue>|
                #[trigger] members_at(b, next + 1, 1, found) is Err
        },
{
    let first = doc_bytes(doc, w, upper);
    let rest = w + (first + (w + tail));
    lemma_part(b, at, seq![0x3Au8], rest);
    lemma_value(b, at + 1, w, doc, w, upper, w + tail, 1);
    lemma_part(b, at + 1, w, first + (w + tail));
    let start = at + 1 + w.len();
    lemma_part(b, start, first, w + tail);
    let middle = start + first.len();
    lemma_white(b, middle, w, tail);
    lemma_part(b, middle, w, tail);
    let next = middle + w.len();
    lemma_first_of(b, next, tail);
    if tail.len() > 0 && tail[0] == 0x2C {
        let x = choose|x: Seq<u8>|
            {
                &&& tail == seq![0x2Cu8] + (w + x)
                &&& #[trigger] x.len() > 0 ==> !is_space(x[0]) && x[0] != 0x22
            };
        lemma_part(b, next, seq![0x2Cu8], w + x);
        lemma_white(b, next + 1, w, x);
        lemma_part(b, next + 1, w, x);
        lemma_first_of(b, next + 1 + w.len(), x);
    }
}

} // verus!
