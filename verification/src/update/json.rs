//! A reader of JSON documents: objects, arrays, strings with the standard
//! escapes, numbers, `true`, `false` and `null`.
//!
//! The input comes from the network. Nothing in it makes the reader panic, and
//! objects and arrays may nest at most [`MAX_DEPTH`] deep, so that no document
//! can exhaust the stack.

use vstd::prelude::*;
use vstd::slice::*;
use vstd::string::*;
use vstd::utf8::*;
use crate::number::{equal_numbers, exponent_of, numeral_of, same_number};
use crate::text::{before, chars_of, decimal, decimal_text, is_before, same, utf8_text};
use crate::text::{all_digits, is_digit, split_first};
use crate::text::{lemma_before_irreflexive, lemma_before_total, lemma_before_transitive};

verus! {

/// How deep objects and arrays may nest in each other.
pub const MAX_DEPTH: u32 = 32;

// ---------------------------------------------------------------------------
// Values
// ---------------------------------------------------------------------------

/// A JSON document. Two documents are equal where they mean the same: numerals
/// are equal where they stand for the same floating point number.
#[derive(Debug)]
pub enum Json {
    Null,
    Bool(bool),
    /// The numeral, as the document spells it.
    Number(String),
    String(String),
    Array(Vec<Json>),
    /// The members in the order of their keys, each key once.
    Object(Vec<(String, Json)>),
}

/// What a JSON document means.
pub ghost enum JsonValue {
    Null,
    Bool(bool),
    Number(Seq<char>),
    String(Seq<char>),
    Array(Seq<JsonValue>),
    Object(Map<Seq<char>, JsonValue>),
}

/// What the items mean, one by one.
pub open spec fn values(items: Seq<Json>) -> Seq<JsonValue>
    decreases items,
{
    if items.len() == 0 {
        Seq::empty()
    } else {
        values(items.drop_last()).push(items.last().view())
    }
}

/// The members as a map from key to value.
pub open spec fn members(pairs: Seq<(String, Json)>) -> Map<Seq<char>, JsonValue>
    decreases pairs,
{
    if pairs.len() == 0 {
        Map::empty()
    } else {
        members(pairs.drop_last()).insert(pairs.last().0@, pairs.last().1.view())
    }
}

/// The keys stand in ascending order.
pub open spec fn keys_ascend(pairs: Seq<(String, Json)>) -> bool {
    forall|i: int, j: int|
        0 <= i < j < pairs.len() ==> #[trigger] before(pairs[i].0@, pairs[j].0@)
}

impl View for Json {
    type V = JsonValue;

    open spec fn view(&self) -> JsonValue
        decreases self,
    {
        match self {
            Json::Null => JsonValue::Null,
            Json::Bool(b) => JsonValue::Bool(*b),
            Json::Number(s) => JsonValue::Number(s@),
            Json::String(s) => JsonValue::String(s@),
            Json::Array(items) => JsonValue::Array(values(items@)),
            Json::Object(pairs) => JsonValue::Object(members(pairs@)),
        }
    }
}

impl Json {
    /// In every object of the document the keys stand in ascending order.
    pub open spec fn well_formed(&self) -> bool
        decreases self,
    {
        match self {
            Json::Array(items) => forall|i: int|
                0 <= i < items@.len() ==> (#[trigger] items@[i]).well_formed(),
            Json::Object(pairs) => {
                &&& keys_ascend(pairs@)
                &&& forall|i: int| 0 <= i < pairs@.len() ==> (#[trigger] pairs@[i]).1.well_formed()
            },
            _ => true,
        }
    }
}

/// The two documents are equal.
pub open spec fn alike(a: Json, b: Json) -> bool
    decreases a,
{
    match (a, b) {
        (Json::Null, Json::Null) => true,
        (Json::Bool(x), Json::Bool(y)) => x == y,
        (Json::Number(x), Json::Number(y)) => same_number(x@, y@),
        (Json::String(x), Json::String(y)) => x@ == y@,
        (Json::Array(x), Json::Array(y)) => {
            &&& x@.len() == y@.len()
            &&& forall|i: int| 0 <= i < x@.len() ==> alike(#[trigger] x@[i], y@[i])
        },
        (Json::Object(x), Json::Object(y)) => {
            &&& x@.len() == y@.len()
            &&& forall|i: int|
                0 <= i < x@.len() ==> (#[trigger] x@[i]).0@ == y@[i].0@ && alike(x@[i].1, y@[i].1)
        },
        _ => false,
    }
}

impl vstd::std_specs::cmp::PartialEqSpecImpl for Json {
    open spec fn obeys_eq_spec() -> bool {
        true
    }

    open spec fn eq_spec(&self, other: &Json) -> bool {
        alike(*self, *other)
    }
}

impl PartialEq for Json {
    fn eq(&self, other: &Json) -> (out: bool) {
        equal_documents(self, other)
    }
}

fn equal_documents(a: &Json, b: &Json) -> (out: bool)
    ensures
        out == alike(*a, *b),
    decreases a,
{
    match (a, b) {
        (Json::Null, Json::Null) => true,
        (Json::Bool(x), Json::Bool(y)) => *x == *y,
        (Json::Number(x), Json::Number(y)) => equal_numbers(x.as_str(), y.as_str()),
        (Json::String(x), Json::String(y)) => same(x.as_str(), y.as_str()),
        (Json::Array(x), Json::Array(y)) => {
            if x.len() != y.len() {
                return false;
            }
            let mut i: usize = 0;
            while i < x.len()
                invariant
                    i <= x@.len() == y@.len(),
                    *a == Json::Array(*x),
                    *b == Json::Array(*y),
                    forall|j: int| 0 <= j < i ==> alike(#[trigger] x@[j], y@[j]),
                decreases x.len() - i,
            {
                assert(decreases_to!(a => a->Array_0@[i as int]));
                if !equal_documents(&x[i], &y[i]) {
                    assert(!alike(x@[i as int], y@[i as int]));
                    return false;
                }
                i += 1;
            }
            true
        },
        (Json::Object(x), Json::Object(y)) => {
            if x.len() != y.len() {
                return false;
            }
            let mut i: usize = 0;
            while i < x.len()
                invariant
                    i <= x@.len() == y@.len(),
                    *a == Json::Object(*x),
                    *b == Json::Object(*y),
                    forall|j: int|
                        0 <= j < i ==> (#[trigger] x@[j]).0@ == y@[j].0@ && alike(
                            x@[j].1,
                            y@[j].1,
                        ),
                decreases x.len() - i,
            {
                assert(decreases_to!(a => a->Object_0@[i as int]));
                if !same(x[i].0.as_str(), y[i].0.as_str()) || !equal_documents(&x[i].1, &y[i].1) {
                    assert(!(x@[i as int].0@ == y@[i as int].0@ && alike(
                        x@[i as int].1,
                        y@[i as int].1,
                    )));
                    return false;
                }
                i += 1;
            }
            true
        },
        _ => false,
    }
}

impl Clone for Json {
    fn clone(&self) -> (out: Self)
        ensures
            out@ == self@,
            self.well_formed() ==> out.well_formed(),
        decreases self,
    {
        match self {
            Json::Null => Json::Null,
            Json::Bool(b) => Json::Bool(*b),
            Json::Number(numeral) => Json::Number(numeral.clone()),
            Json::String(text) => Json::String(text.clone()),
            Json::Array(items) => {
                let mut copies: Vec<Json> = Vec::new();
                let mut i: usize = 0;
                assert(items@.take(0) =~= Seq::empty());
                while i < items.len()
                    invariant
                        i <= items@.len(),
                        copies@.len() == i,
                        *self == Json::Array(*items),
                        self.well_formed() ==> forall|j: int|
                            0 <= j < items@.len() ==> (#[trigger] items@[j]).well_formed(),
                        values(copies@) == values(items@.take(i as int)),
                        self.well_formed() ==> forall|j: int|
                            0 <= j < i ==> (#[trigger] copies@[j]).well_formed(),
                    decreases items.len() - i,
                {
                    let ghost before = copies@;
                    assert(decreases_to!(self => items@[i as int]));
                    let copy = items[i].clone();
                    copies.push(copy);
                    assert(copies@.drop_last() =~= before);
                    assert(items@.take(i + 1).drop_last() =~= items@.take(i as int));
                    assert(items@.take(i + 1).last() == items@[i as int]);
                    i += 1;
                }
                assert(items@.take(i as int) =~= items@);
                Json::Array(copies)
            },
            Json::Object(pairs) => {
                let mut copies: Vec<(String, Json)> = Vec::new();
                let mut i: usize = 0;
                assert(pairs@.take(0) =~= Seq::empty());
                while i < pairs.len()
                    invariant
                        i <= pairs@.len(),
                        copies@.len() == i,
                        *self == Json::Object(*pairs),
                        members(copies@) == members(pairs@.take(i as int)),
                        forall|j: int| 0 <= j < i ==> (#[trigger] copies@[j]).0@ == pairs@[j].0@,
                        self.well_formed() ==> forall|j: int|
                            0 <= j < i ==> (#[trigger] copies@[j]).1.well_formed(),
                    decreases pairs.len() - i,
                {
                    let ghost before = copies@;
                    assert(decreases_to!(self => pairs@[i as int]));
                    let copy = pairs[i].1.clone();
                    copies.push((pairs[i].0.clone(), copy));
                    assert(copies@.drop_last() =~= before);
                    assert(pairs@.take(i + 1).drop_last() =~= pairs@.take(i as int));
                    assert(pairs@.take(i + 1).last() == pairs@[i as int]);
                    i += 1;
                }
                assert(pairs@.take(i as int) =~= pairs@);
                assert(keys_ascend(pairs@) ==> keys_ascend(copies@)) by {
                    if keys_ascend(pairs@) {
                        assert forall|a: int, b: int|
                            0 <= a < b < copies@.len() implies #[trigger] before(
                            copies@[a].0@,
                            copies@[b].0@,
                        ) by {
                            assert(before(pairs@[a].0@, pairs@[b].0@));
                        }
                    }
                }
                Json::Object(copies)
            },
        }
    }
}

/// Each member stands in the map under its key, and nothing else does.
proof fn lemma_members(pairs: Seq<(String, Json)>)
    requires
        keys_ascend(pairs),
    ensures
        forall|i: int|
            0 <= i < pairs.len() ==> members(pairs).contains_key((#[trigger] pairs[i]).0@)
                && members(pairs)[pairs[i].0@] == pairs[i].1@,
        forall|k: Seq<char>| #[trigger]
            members(pairs).contains_key(k) ==> exists|i: int|
                0 <= i < pairs.len() && (#[trigger] pairs[i]).0@ == k,
    decreases pairs.len(),
{
    if pairs.len() > 0 {
        let rest = pairs.drop_last();
        assert(keys_ascend(rest)) by {
            assert forall|i: int, j: int| 0 <= i < j < rest.len() implies #[trigger] before(
                rest[i].0@,
                rest[j].0@,
            ) by {
                assert(rest[i] == pairs[i] && rest[j] == pairs[j]);
            }
        }
        lemma_members(rest);
        let last = pairs.last();
        assert(members(pairs) == members(rest).insert(last.0@, last.1@));
        assert forall|i: int| 0 <= i < pairs.len() implies members(pairs).contains_key(
            (#[trigger] pairs[i]).0@,
        ) && members(pairs)[pairs[i].0@] == pairs[i].1@ by {
            if i < rest.len() {
                assert(rest[i] == pairs[i]);
                assert(before(pairs[i].0@, pairs[pairs.len() - 1].0@));
                lemma_before_irreflexive(last.0@);
            }
        }
        assert forall|k: Seq<char>| #[trigger] members(pairs).contains_key(k) implies exists|i: int|
            0 <= i < pairs.len() && (#[trigger] pairs[i]).0@ == k by {
            if k == last.0@ {
                assert(pairs[pairs.len() - 1].0@ == k);
            } else {
                assert(members(rest).contains_key(k));
                let i = choose|i: int| 0 <= i < rest.len() && (#[trigger] rest[i]).0@ == k;
                assert(pairs[i] == rest[i]);
            }
        }
    }
}

proof fn lemma_values(items: Seq<Json>)
    ensures
        values(items).len() == items.len(),
        forall|i: int| 0 <= i < items.len() ==> values(items)[i] == (#[trigger] items[i])@,
    decreases items.len(),
{
    if items.len() > 0 {
        let rest = items.drop_last();
        lemma_values(rest);
        assert(values(items) == values(rest).push(items.last()@));
        assert forall|i: int| 0 <= i < items.len() implies values(items)[i] == (
        #[trigger] items[i])@ by {
            if i < rest.len() {
                assert(rest[i] == items[i]);
            }
        }
    }
}

impl Json {
    /// The member of an object with the given key.
    pub fn get(&self, key: &str) -> (out: Option<&Json>)
        requires
            self.well_formed(),
        ensures
            match out {
                Some(value) => {
                    &&& self@ matches JsonValue::Object(map)
                    &&& map.contains_key(key@)
                    &&& value@ == map[key@]
                    &&& value.well_formed()
                },
                None => self@ matches JsonValue::Object(map) ==> !map.contains_key(key@),
            },
    {
        match self {
            Json::Object(pairs) => {
                let mut i: usize = 0;
                while i < pairs.len()
                    invariant
                        i <= pairs@.len(),
                        self.well_formed(),
                        *self == Json::Object(*pairs),
                        forall|j: int| 0 <= j < i ==> (#[trigger] pairs@[j]).0@ != key@,
                    decreases pairs.len() - i,
                {
                    if same(pairs[i].0.as_str(), key) {
                        proof {
                            lemma_members(pairs@);
                        }
                        return Some(&pairs[i].1);
                    }
                    i += 1;
                }
                proof {
                    lemma_members(pairs@);
                    assert(self@ == JsonValue::Object(members(pairs@)));
                }
                None
            },
            _ => None,
        }
    }

    /// The text of a string.
    pub fn as_str(&self) -> (out: Option<&str>)
        ensures
            match out {
                Some(s) => self@ == JsonValue::String(s@),
                None => !(self@ is String),
            },
    {
        match self {
            Json::String(s) => Some(s.as_str()),
            _ => None,
        }
    }

    /// The items of an array.
    pub fn as_array(&self) -> (out: Option<&[Json]>)
        ensures
            match out {
                Some(items) => {
                    &&& self@ matches JsonValue::Array(values)
                    &&& values.len() == items@.len()
                    &&& forall|i: int| 0 <= i < values.len() ==> values[i] == (#[trigger] items@[i])@
                    &&& self.well_formed() ==> forall|i: int|
                        0 <= i < values.len() ==> (#[trigger] items@[i]).well_formed()
                },
                None => !(self@ is Array),
            },
    {
        match self {
            Json::Array(items) => {
                let slice = items.as_slice();
                proof {
                    lemma_values(items@);
                    assert(self@ == JsonValue::Array(values(items@)));
                }
                Some(slice)
            },
            _ => None,
        }
    }
}

/// Sets the member `key` to `value`: a member of that key gets the new value,
/// otherwise a new member takes its place in the order.
fn set_member(pairs: &mut Vec<(String, Json)>, key: String, value: Json)
    requires
        keys_ascend(old(pairs)@),
        forall|i: int| 0 <= i < old(pairs)@.len() ==> (#[trigger] old(pairs)@[i]).1.well_formed(),
        value.well_formed(),
    ensures
        keys_ascend(final(pairs)@),
        forall|i: int|
            0 <= i < final(pairs)@.len() ==> (#[trigger] final(pairs)@[i]).1.well_formed(),
        members(final(pairs)@) == members(old(pairs)@).insert(key@, value@),
{
    let ghost before_call = pairs@;
    let ghost k = key@;
    let ghost v = value@;
    let mut i: usize = 0;
    while i < pairs.len() && is_before(pairs[i].0.as_str(), key.as_str())
        invariant
            i <= pairs@.len(),
            pairs@ == before_call,
            k == key@,
            forall|j: int| 0 <= j < i ==> before((#[trigger] pairs@[j]).0@, k),
        decreases pairs.len() - i,
    {
        i += 1;
    }
    proof {
        lemma_members(before_call);
    }
    if i < pairs.len() && same(pairs[i].0.as_str(), key.as_str()) {
        pairs[i] = (key, value);
        proof {
            assert(pairs@ == before_call.update(i as int, pairs@[i as int]));
            assert forall|a: int, b: int| 0 <= a < b < pairs@.len() implies #[trigger] before(
                pairs@[a].0@,
                pairs@[b].0@,
            ) by {
                assert(before(before_call[a].0@, before_call[b].0@));
            }
            lemma_members(pairs@);
            lemma_same_members(pairs@, before_call, i as int, k, v);
        }
    } else {
        proof {
            assert forall|j: int| i <= j < before_call.len() implies before(
                k,
                (#[trigger] before_call[j]).0@,
            ) by {
                lemma_before_total(before_call[i as int].0@, k);
                if j > i {
                    assert(before(before_call[i as int].0@, before_call[j].0@));
                    lemma_before_transitive(k, before_call[i as int].0@, before_call[j].0@);
                }
            }
        }
        pairs.insert(i, (key, value));
        proof {
            let at = i as int;
            assert forall|a: int, b: int| 0 <= a < b < pairs@.len() implies #[trigger] before(
                pairs@[a].0@,
                pairs@[b].0@,
            ) by {
                if a < at && b > at {
                    assert(before(before_call[a].0@, before_call[b - 1].0@));
                } else if a < at && b < at {
                    assert(before(before_call[a].0@, before_call[b].0@));
                } else if a > at {
                    assert(before(before_call[a - 1].0@, before_call[b - 1].0@));
                } else if a == at {
                    assert(before(k, before_call[b - 1].0@));
                } else {
                    assert(before(before_call[a].0@, k));
                }
            }
            assert forall|j: int| 0 <= j < pairs@.len() implies (
            #[trigger] pairs@[j]).1.well_formed() by {
                if j < at {
                    assert(pairs@[j] == before_call[j]);
                } else if j > at {
                    assert(pairs@[j] == before_call[j - 1]);
                }
            }
            lemma_members(pairs@);
            lemma_inserted_members(pairs@, before_call, at, k, v);
        }
    }
}

proof fn lemma_same_members(
    after: Seq<(String, Json)>,
    pairs: Seq<(String, Json)>,
    at: int,
    key: Seq<char>,
    value: JsonValue,
)
    requires
        keys_ascend(after),
        keys_ascend(pairs),
        0 <= at < pairs.len(),
        after.len() == pairs.len(),
        after[at].0@ == key,
        pairs[at].0@ == key,
        after[at].1@ == value,
        forall|i: int| 0 <= i < pairs.len() && i != at ==> after[i] == pairs[i],
    ensures
        members(after) == members(pairs).insert(key, value),
{
    lemma_members(after);
    lemma_members(pairs);
    let expected = members(pairs).insert(key, value);
    assert forall|k: Seq<char>| members(after).contains_key(k) == expected.contains_key(k) by {
        if members(after).contains_key(k) {
            let i = choose|i: int| 0 <= i < after.len() && (#[trigger] after[i]).0@ == k;
            assert(members(pairs).contains_key(pairs[i].0@));
        }
        if expected.contains_key(k) && k != key {
            let i = choose|i: int| 0 <= i < pairs.len() && (#[trigger] pairs[i]).0@ == k;
            assert(after[i] == pairs[i]);
        }
        assert(members(after).contains_key(after[at].0@));
    }
    assert forall|k: Seq<char>| members(after).contains_key(k) implies members(after)[k]
        == expected[k] by {
        let i = choose|i: int| 0 <= i < after.len() && (#[trigger] after[i]).0@ == k;
        if i != at {
            assert(after[i] == pairs[i]);
            if i < at {
                assert(before(pairs[i].0@, pairs[at].0@));
            } else {
                assert(before(pairs[at].0@, pairs[i].0@));
            }
            lemma_before_irreflexive(key);
        }
    }
    assert(members(after) =~= expected);
}

proof fn lemma_inserted_members(
    after: Seq<(String, Json)>,
    pairs: Seq<(String, Json)>,
    at: int,
    key: Seq<char>,
    value: JsonValue,
)
    requires
        keys_ascend(after),
        keys_ascend(pairs),
        0 <= at <= pairs.len(),
        after.len() == pairs.len() + 1,
        after[at].0@ == key,
        after[at].1@ == value,
        forall|i: int| 0 <= i < at ==> after[i] == pairs[i],
        forall|i: int| at <= i < pairs.len() ==> after[i + 1] == #[trigger] pairs[i],
    ensures
        members(after) == members(pairs).insert(key, value),
{
    lemma_members(after);
    lemma_members(pairs);
    let expected = members(pairs).insert(key, value);
    assert forall|k: Seq<char>| members(after).contains_key(k) == expected.contains_key(k) by {
        if members(after).contains_key(k) {
            let i = choose|i: int| 0 <= i < after.len() && (#[trigger] after[i]).0@ == k;
            if i < at {
                assert(after[i] == pairs[i]);
            } else if i > at {
                assert(after[i - 1 + 1] == pairs[i - 1]);
            }
        }
        if expected.contains_key(k) && k != key {
            let i = choose|i: int| 0 <= i < pairs.len() && (#[trigger] pairs[i]).0@ == k;
            if i < at {
                assert(after[i] == pairs[i]);
            } else {
                assert(after[i + 1] == pairs[i]);
            }
        }
        assert(members(after).contains_key(after[at].0@));
    }
    assert forall|k: Seq<char>| members(after).contains_key(k) implies members(after)[k]
        == expected[k] by {
        let i = choose|i: int| 0 <= i < after.len() && (#[trigger] after[i]).0@ == k;
        if i < at {
            assert(after[i] == pairs[i]);
            assert(before(after[i].0@, after[at].0@));
            lemma_before_irreflexive(key);
        } else if i > at {
            assert(after[i - 1 + 1] == pairs[i - 1]);
            assert(before(after[at].0@, after[i].0@));
            lemma_before_irreflexive(key);
        }
    }
    assert(members(after) =~= expected);
}

// ---------------------------------------------------------------------------
// The grammar
// ---------------------------------------------------------------------------

pub open spec fn is_space(c: u8) -> bool {
    c == 0x20 || c == 0x09 || c == 0x0A || c == 0x0D
}

/// The first position from `pos` on that holds no white space.
pub open spec fn after_space(b: Seq<u8>, pos: int) -> int
    decreases b.len() - pos,
{
    if 0 <= pos < b.len() && is_space(b[pos]) {
        after_space(b, pos + 1)
    } else {
        pos
    }
}

/// The byte at `pos` is there, and it is `c`.
pub open spec fn holds(b: Seq<u8>, pos: int, c: char) -> bool {
    0 <= pos < b.len() && b[pos] as char == c
}

/// The bytes from `pos` on start with `word`.
pub open spec fn word_at(b: Seq<u8>, pos: int, word: Seq<char>) -> bool {
    forall|i: int| 0 <= i < word.len() ==> holds(b, pos + i, #[trigger] word[i])
}

pub open spec fn at_byte(what: Seq<char>, pos: int) -> Seq<char> {
    what + " на байте "@ + decimal(pos as nat)
}

// Strings

/// A part of a string literal: text that stands for itself, or one UTF-16 code
/// unit that is written in hexadecimal.
pub ghost enum Piece {
    Text(Seq<char>),
    Unit(nat),
}

/// How many bytes the UTF-8 sequence has that starts with `first`.
pub open spec fn sequence_length(first: u8) -> int {
    if first < 0x80 {
        1
    } else if 0xC0 <= first < 0xE0 {
        2
    } else if 0xE0 <= first < 0xF0 {
        3
    } else {
        4
    }
}

/// The character that a one-letter escape stands for.
pub open spec fn short_escape(letter: char) -> Option<char> {
    if letter == '"' {
        Some('"')
    } else if letter == '\\' {
        Some('\\')
    } else if letter == '/' {
        Some('/')
    } else if letter == 'n' {
        Some('\n')
    } else if letter == 't' {
        Some('\t')
    } else if letter == 'r' {
        Some('\r')
    } else if letter == 'b' {
        Some('\u{8}')
    } else if letter == 'f' {
        Some('\u{c}')
    } else {
        None
    }
}

pub open spec fn hex_digit(c: u8) -> Option<nat> {
    if 48 <= c <= 57 {
        Some((c - 48) as nat)
    } else if 97 <= c <= 102 {
        Some((c - 97 + 10) as nat)
    } else if 65 <= c <= 70 {
        Some((c - 65 + 10) as nat)
    } else {
        None
    }
}

/// The number that a row of hexadecimal digits stands for.
pub open spec fn hex_value(s: Seq<u8>) -> Option<nat>
    decreases s.len(),
{
    if s.len() == 0 {
        Some(0)
    } else {
        match (hex_value(s.drop_last()), hex_digit(s.last())) {
            (Some(high), Some(low)) => Some(16 * high + low),
            _ => None,
        }
    }
}

/// The part of a string literal that starts at `pos`, and where it ends. The
/// byte at `pos` is there and is no quote.
pub open spec fn piece_at(b: Seq<u8>, pos: int) -> Result<(Piece, int), Seq<char>> {
    if !holds(b, pos, '\\') {
        let end = pos + sequence_length(b[pos]);
        if end > b.len() {
            Err("оборванная UTF-8 последовательность в строке"@)
        } else if !valid_utf8(b.subrange(pos, end)) {
            Err("невалидный UTF-8 в строке"@)
        } else {
            Ok((Piece::Text(decode_utf8(b.subrange(pos, end))), end))
        }
    } else if pos + 1 >= b.len() {
        Err("escape-последовательность оборвалась"@)
    } else if short_escape(b[pos + 1] as char) is Some {
        Ok((Piece::Text(seq![short_escape(b[pos + 1] as char)->0]), pos + 2))
    } else if !holds(b, pos + 1, 'u') {
        Err("неизвестный escape «\\"@ + seq![b[pos + 1] as char] + "»"@)
    } else if pos + 6 > b.len() {
        Err("«\\u» без четырёх шестнадцатеричных знаков"@)
    } else if !valid_utf8(b.subrange(pos + 2, pos + 6)) {
        Err("«\\uXXXX» не ASCII"@)
    } else {
        match hex_value(b.subrange(pos + 2, pos + 6)) {
            Some(unit) => Ok((Piece::Unit(unit), pos + 6)),
            None => Err("«\\uXXXX» не шестнадцатеричное число"@),
        }
    }
}

/// The parts of a string literal from `pos` up to its closing quote, and the
/// position behind that quote.
pub open spec fn pieces_at(b: Seq<u8>, pos: int) -> Result<(Seq<Piece>, int), Seq<char>>
    decreases b.len() - pos,
{
    if !(0 <= pos < b.len()) {
        Err("строка оборвалась до закрывающей кавычки"@)
    } else if holds(b, pos, '"') {
        Ok((Seq::empty(), pos + 1))
    } else {
        match piece_at(b, pos) {
            Err(e) => Err(e),
            Ok((piece, next)) => match pieces_at(b, next) {
                Err(e) => Err(e),
                Ok((rest, end)) => Ok((seq![piece] + rest, end)),
            },
        }
    }
}

pub open spec fn is_high(unit: nat) -> bool {
    0xD800 <= unit <= 0xDBFF
}

pub open spec fn is_low(unit: nat) -> bool {
    0xDC00 <= unit <= 0xDFFF
}

/// The character of a code unit that is no surrogate.
pub open spec fn lone(unit: nat) -> Seq<char> {
    if is_high(unit) || is_low(unit) {
        Seq::empty()
    } else {
        seq![unit as char]
    }
}

/// The character of a surrogate pair.
pub open spec fn paired(high: nat, low: nat) -> char {
    (0x10000 + (high - 0xD800) * 0x400 + (low - 0xDC00)) as char
}

/// The text that the parts of a literal stand for. `high` is a high surrogate
/// that waits for the code unit that completes it: it waits over text, and it
/// becomes U+FFFD where the next code unit is no low surrogate or none comes.
/// A low surrogate without a high one stands for nothing.
pub open spec fn joined(pieces: Seq<Piece>, high: Option<nat>) -> Seq<char>
    decreases pieces.len(),
{
    if pieces.len() == 0 {
        if high is Some {
            seq!['\u{FFFD}']
        } else {
            Seq::empty()
        }
    } else {
        let rest = pieces.drop_first();
        match (pieces[0], high) {
            (Piece::Text(text), _) => text + joined(rest, high),
            (Piece::Unit(unit), Some(h)) => if is_low(unit) {
                seq![paired(h, unit)] + joined(rest, None)
            } else {
                seq!['\u{FFFD}'] + lone(unit) + joined(rest, None)
            },
            (Piece::Unit(unit), None) => if is_high(unit) {
                joined(rest, Some(unit))
            } else {
                lone(unit) + joined(rest, None)
            },
        }
    }
}

/// The rest of a string literal from `pos` on.
pub open spec fn string_rest(b: Seq<u8>, pos: int, high: Option<nat>) -> Result<
    (Seq<char>, int),
    Seq<char>,
> {
    match pieces_at(b, pos) {
        Err(e) => Err(e),
        Ok((pieces, end)) => Ok((joined(pieces, high), end)),
    }
}

/// The string literal whose opening quote is at `pos`.
pub open spec fn string_at(b: Seq<u8>, pos: int) -> Result<(Seq<char>, int), Seq<char>> {
    string_rest(b, pos + 1, None)
}

// Numbers

pub open spec fn digit_at(b: Seq<u8>, pos: int) -> bool {
    0 <= pos < b.len() && 48 <= b[pos] <= 57
}

pub open spec fn after_digits(b: Seq<u8>, pos: int) -> int
    decreases b.len() - pos,
{
    if digit_at(b, pos) {
        after_digits(b, pos + 1)
    } else {
        pos
    }
}

/// Where the numeral at `pos` ends, and whether it is one: it has a digit
/// before or behind the point, and one in the exponent if it has an exponent.
pub open spec fn numeral(b: Seq<u8>, pos: int) -> (int, bool) {
    let whole = if holds(b, pos, '-') {
        pos + 1
    } else {
        pos
    };
    let point = after_digits(b, whole);
    let behind = if holds(b, point, '.') {
        after_digits(b, point + 1)
    } else {
        point
    };
    let has_digit = point > whole || behind > point + 1;
    if holds(b, behind, 'e') || holds(b, behind, 'E') {
        let power = if holds(b, behind + 1, '+') || holds(b, behind + 1, '-') {
            behind + 2
        } else {
            behind + 1
        };
        let end = after_digits(b, power);
        (end, has_digit && end > power)
    } else {
        (behind, has_digit)
    }
}

/// The bytes from `from` up to `to`, each taken as one character.
pub open spec fn ascii(b: Seq<u8>, from: int, to: int) -> Seq<char> {
    Seq::new((to - from) as nat, |i: int| b[from + i] as char)
}

pub open spec fn number_at(b: Seq<u8>, pos: int) -> Result<(JsonValue, int), Seq<char>> {
    let (end, good) = numeral(b, pos);
    let text = ascii(b, pos, end);
    if good {
        Ok((JsonValue::Number(text), end))
    } else {
        Err("не число: «"@ + text + "»"@)
    }
}

// Values

/// The value that starts at `start`, behind white space, with `depth` objects
/// and arrays open around it, and where it ends.
pub open spec fn value_at(b: Seq<u8>, start: int, depth: nat) -> Result<
    (JsonValue, int),
    Seq<char>,
>
    decreases b.len() - start, 0nat,
{
    let pos = after_space(b, start);
    proof {
        lemma_after_space(b, start);
        lemma_after_space(b, pos + 1);
    }
    if (holds(b, pos, '{') || holds(b, pos, '[')) && depth >= MAX_DEPTH {
        Err(
            "JSON вложен глубже "@ + decimal(MAX_DEPTH as nat) + " уровней на байте "@ + decimal(
                pos as nat,
            ) + " — отклонено"@,
        )
    } else if holds(b, pos, '{') {
        let first = after_space(b, pos + 1);
        if holds(b, first, '}') {
            Ok((JsonValue::Object(Map::empty()), first + 1))
        } else {
            members_at(b, first, depth + 1, Map::empty())
        }
    } else if holds(b, pos, '[') {
        let first = after_space(b, pos + 1);
        if holds(b, first, ']') {
            Ok((JsonValue::Array(Seq::empty()), first + 1))
        } else {
            items_at(b, first, depth + 1, Seq::empty())
        }
    } else if holds(b, pos, '"') {
        match string_at(b, pos) {
            Err(e) => Err(e),
            Ok((text, end)) => Ok((JsonValue::String(text), end)),
        }
    } else if word_at(b, pos, "true"@) {
        Ok((JsonValue::Bool(true), pos + 4))
    } else if word_at(b, pos, "false"@) {
        Ok((JsonValue::Bool(false), pos + 5))
    } else if word_at(b, pos, "null"@) {
        Ok((JsonValue::Null, pos + 4))
    } else if digit_at(b, pos) || holds(b, pos, '-') {
        number_at(b, pos)
    } else {
        Err(at_byte("неожиданный символ"@, pos))
    }
}

/// The members of an object from `start` on, behind those in `found`. A key
/// that comes again takes the later value.
pub open spec fn members_at(
    b: Seq<u8>,
    start: int,
    depth: nat,
    found: Map<Seq<char>, JsonValue>,
) -> Result<(JsonValue, int), Seq<char>>
    decreases b.len() - start, 1nat,
{
    let pos = after_space(b, start);
    proof {
        lemma_after_space(b, start);
        lemma_string_advances(b, pos);
    }
    if !holds(b, pos, '"') {
        Err(at_byte("ожидался ключ-строка"@, pos))
    } else {
        match string_at(b, pos) {
            Err(e) => Err(e),
            Ok((key, behind_key)) => {
                let colon = after_space(b, behind_key);
                proof {
                    lemma_after_space(b, behind_key);
                }
                if !holds(b, colon, ':') {
                    Err(at_byte("ожидалось «:»"@, colon))
                } else {
                    match value_at(b, colon + 1, depth) {
                        Err(e) => Err(e),
                        Ok((value, behind)) => {
                            let next = after_space(b, behind);
                            if holds(b, next, ',') && next >= start {
                                members_at(b, next + 1, depth, found.insert(key, value))
                            } else if holds(b, next, '}') {
                                Ok((JsonValue::Object(found.insert(key, value)), next + 1))
                            } else {
                                Err(at_byte("ожидалось «,» или «}»"@, next))
                            }
                        },
                    }
                }
            },
        }
    }
}

/// The items of an array from `start` on, behind those in `found`.
pub open spec fn items_at(b: Seq<u8>, start: int, depth: nat, found: Seq<JsonValue>) -> Result<
    (JsonValue, int),
    Seq<char>,
>
    decreases b.len() - start, 1nat,
{
    match value_at(b, start, depth) {
        Err(e) => Err(e),
        Ok((value, behind)) => {
            let next = after_space(b, behind);
            if holds(b, next, ',') && next >= start {
                items_at(b, next + 1, depth, found.push(value))
            } else if holds(b, next, ']') {
                Ok((JsonValue::Array(found.push(value)), next + 1))
            } else {
                Err(at_byte("ожидалось «,» или «]»"@, next))
            }
        },
    }
}

/// The value of a whole document: one value with nothing but white space
/// around it.
pub open spec fn document(b: Seq<u8>) -> Result<JsonValue, Seq<char>> {
    match value_at(b, after_space(b, 0), 0) {
        Err(e) => Err(e),
        Ok((value, behind)) => {
            let end = after_space(b, behind);
            if end == b.len() {
                Ok(value)
            } else {
                Err(at_byte("лишние данные после значения"@, end))
            }
        },
    }
}

pub proof fn lemma_after_space(b: Seq<u8>, pos: int)
    ensures
        pos <= after_space(b, pos),
        pos <= b.len() ==> after_space(b, pos) <= b.len(),
    decreases b.len() - pos,
{
    if 0 <= pos < b.len() && is_space(b[pos]) {
        lemma_after_space(b, pos + 1);
    }
}

proof fn lemma_pieces_advance(b: Seq<u8>, pos: int)
    ensures
        pieces_at(b, pos) matches Ok((_, end)) ==> pos < end <= b.len(),
    decreases b.len() - pos,
{
    if 0 <= pos < b.len() && !holds(b, pos, '"') {
        if let Ok((_, next)) = piece_at(b, pos) {
            lemma_pieces_advance(b, next);
        }
    }
}

pub proof fn lemma_string_advances(b: Seq<u8>, pos: int)
    ensures
        string_at(b, pos) matches Ok((_, end)) ==> pos < end <= b.len(),
{
    lemma_pieces_advance(b, pos + 1);
}

proof fn lemma_after_digits(b: Seq<u8>, pos: int)
    ensures
        pos <= after_digits(b, pos),
        pos <= b.len() ==> after_digits(b, pos) <= b.len(),
        digit_at(b, pos) ==> pos < after_digits(b, pos),
    decreases b.len() - pos,
{
    if digit_at(b, pos) {
        lemma_after_digits(b, pos + 1);
    }
}

proof fn lemma_numeral_advances(b: Seq<u8>, pos: int)
    requires
        digit_at(b, pos) || holds(b, pos, '-'),
    ensures
        pos < numeral(b, pos).0 <= b.len(),
{
    let whole = if holds(b, pos, '-') {
        pos + 1
    } else {
        pos
    };
    let point = after_digits(b, whole);
    lemma_after_digits(b, whole);
    lemma_after_digits(b, point + 1);
    let behind = if holds(b, point, '.') {
        after_digits(b, point + 1)
    } else {
        point
    };
    lemma_after_digits(b, behind + 1);
    lemma_after_digits(b, behind + 2);
}

proof fn lemma_word_fits(b: Seq<u8>, pos: int, word: Seq<char>)
    requires
        word_at(b, pos, word),
        word.len() > 0,
    ensures
        0 <= pos,
        pos + word.len() <= b.len(),
{
    assert(holds(b, pos + 0, word[0]));
    assert(holds(b, pos + (word.len() - 1), word[word.len() - 1]));
}

/// A value that was read ends behind its start and within the document.
proof fn lemma_value_advances(b: Seq<u8>, start: int, depth: nat)
    ensures
        value_at(b, start, depth) matches Ok((_, end)) ==> start < end <= b.len(),
    decreases b.len() - start, 0nat,
{
    let pos = after_space(b, start);
    lemma_after_space(b, start);
    lemma_after_space(b, pos + 1);
    if (holds(b, pos, '{') || holds(b, pos, '[')) && depth >= MAX_DEPTH {
    } else if holds(b, pos, '{') {
        let first = after_space(b, pos + 1);
        lemma_members_advance(b, first, depth + 1, Map::empty());
    } else if holds(b, pos, '[') {
        let first = after_space(b, pos + 1);
        lemma_items_advance(b, first, depth + 1, Seq::empty());
    } else if holds(b, pos, '"') {
        lemma_string_advances(b, pos);
    } else if word_at(b, pos, "true"@) {
        reveal_strlit("true");
        lemma_word_fits(b, pos, "true"@);
    } else if word_at(b, pos, "false"@) {
        reveal_strlit("false");
        lemma_word_fits(b, pos, "false"@);
    } else if word_at(b, pos, "null"@) {
        reveal_strlit("null");
        lemma_word_fits(b, pos, "null"@);
    } else if digit_at(b, pos) || holds(b, pos, '-') {
        lemma_numeral_advances(b, pos);
    }
}

proof fn lemma_members_advance(
    b: Seq<u8>,
    start: int,
    depth: nat,
    found: Map<Seq<char>, JsonValue>,
)
    ensures
        members_at(b, start, depth, found) matches Ok((_, end)) ==> start < end <= b.len(),
    decreases b.len() - start, 1nat,
{
    let pos = after_space(b, start);
    lemma_after_space(b, start);
    lemma_string_advances(b, pos);
    if holds(b, pos, '"') {
        if let Ok((key, behind_key)) = string_at(b, pos) {
            let colon = after_space(b, behind_key);
            lemma_after_space(b, behind_key);
            if holds(b, colon, ':') {
                lemma_value_advances(b, colon + 1, depth);
                if let Ok((value, behind)) = value_at(b, colon + 1, depth) {
                    let next = after_space(b, behind);
                    lemma_after_space(b, behind);
                    if holds(b, next, ',') {
                        lemma_members_advance(b, next + 1, depth, found.insert(key, value));
                    }
                }
            }
        }
    }
}

proof fn lemma_items_advance(b: Seq<u8>, start: int, depth: nat, found: Seq<JsonValue>)
    ensures
        items_at(b, start, depth, found) matches Ok((_, end)) ==> start < end <= b.len(),
    decreases b.len() - start, 1nat,
{
    lemma_value_advances(b, start, depth);
    if let Ok((value, behind)) = value_at(b, start, depth) {
        let next = after_space(b, behind);
        lemma_after_space(b, behind);
        if holds(b, next, ',') {
            lemma_items_advance(b, next + 1, depth, found.push(value));
        }
    }
}

// ---------------------------------------------------------------------------
// The reader
// ---------------------------------------------------------------------------

/// `char::from_u32` gives the character of a scalar value, and nothing for any
/// other number.
pub assume_specification[ char::from_u32 ](i: u32) -> (out: Option<char>)
    ensures
        match out {
            Some(c) => is_scalar(i) && c as int == i,
            None => !is_scalar(i),
        },
;

fn holds_at(b: &[u8], pos: usize, c: char) -> (out: bool)
    ensures
        out == holds(b@, pos as int, c),
        out ==> pos < usize::MAX,
{
    pos < b.len() && b[pos] as char == c
}

fn has_word(b: &[u8], pos: usize, word: &str) -> (out: bool)
    requires
        pos <= b@.len(),
    ensures
        out == word_at(b@, pos as int, word@),
        out ==> pos + word@.len() <= usize::MAX,
{
    let chars = chars_of(word);
    let left: usize = b.len() - pos;
    let mut i: usize = 0;
    while i < chars.len()
        invariant
            i <= chars@.len(),
            chars@ == word@,
            left == b@.len() - pos,
            i <= left,
            pos + left <= usize::MAX,
            forall|j: int| 0 <= j < i ==> holds(b@, pos + j, #[trigger] word@[j]),
        decreases chars.len() - i,
    {
        if i >= left || b[pos + i] as char != chars[i] {
            assert(!holds(b@, pos + i as int, word@[i as int]));
            return false;
        }
        i += 1;
    }
    true
}

fn skip_ws(b: &[u8], start: usize) -> (out: usize)
    requires
        start <= b@.len(),
    ensures
        out == after_space(b@, start as int),
        start <= out <= b@.len(),
{
    let mut pos: usize = start;
    while pos < b.len() && (b[pos] == 0x20 || b[pos] == 0x09 || b[pos] == 0x0A || b[pos] == 0x0D)
        invariant
            start <= pos <= b@.len(),
            after_space(b@, start as int) == after_space(b@, pos as int),
        decreases b.len() - pos,
    {
        pos += 1;
    }
    pos
}

fn skip_digits(b: &[u8], start: usize) -> (out: usize)
    requires
        start <= b@.len(),
    ensures
        out == after_digits(b@, start as int),
        start <= out <= b@.len(),
{
    let mut pos: usize = start;
    while pos < b.len() && 48 <= b[pos] && b[pos] <= 57
        invariant
            start <= pos <= b@.len(),
            after_digits(b@, start as int) == after_digits(b@, pos as int),
        decreases b.len() - pos,
    {
        pos += 1;
    }
    pos
}

fn error_at(what: &str, pos: usize) -> (out: String)
    ensures
        out@ == at_byte(what@, pos as int),
{
    let mut out = what.to_owned();
    out.append(" на байте ");
    out.append(decimal_text(pos as u64).as_str());
    out
}

fn parse_number(b: &[u8], start: usize) -> (out: Result<(Json, usize), String>)
    requires
        digit_at(b@, start as int) || holds(b@, start as int, '-'),
    ensures
        read_as(out, number_at(b@, start as int)),
{
    let whole: usize = if holds_at(b, start, '-') { start + 1 } else { start };
    let point: usize = skip_digits(b, whole);
    let mut behind: usize = point;
    if holds_at(b, point, '.') {
        behind = skip_digits(b, point + 1);
    }
    let mut end: usize = behind;
    let mut good: bool = point > whole || (behind > point && behind - point > 1);
    if holds_at(b, behind, 'e') || holds_at(b, behind, 'E') {
        let mut power: usize = behind + 1;
        if holds_at(b, power, '+') || holds_at(b, power, '-') {
            power = power + 1;
        }
        end = skip_digits(b, power);
        good = good && end > power;
    }
    let mut text = String::new();
    let mut i: usize = start;
    proof {
        lemma_numeral_advances(b@, start as int);
    }
    while i < end
        invariant
            start <= i <= end <= b@.len(),
            text@ == ascii(b@, start as int, i as int),
        decreases end - i,
    {
        text.push(b[i] as char);
        i += 1;
        assert(text@ =~= ascii(b@, start as int, i as int));
    }
    if good {
        Ok((Json::Number(text), end))
    } else {
        let mut message = "не число: «".to_owned();
        message.append(text.as_str());
        message.append("»");
        Err(message)
    }
}

/// What the reader returns agrees with what the grammar says.
pub open spec fn read_as(
    out: Result<(Json, usize), String>,
    meant: Result<(JsonValue, int), Seq<char>>,
) -> bool {
    match (out, meant) {
        (Ok((value, end)), Ok((v, e))) => value@ == v && end == e && value.well_formed(),
        (Err(message), Err(m)) => message@ == m,
        _ => false,
    }
}

/// `text` in front of what was read.
spec fn behind_text(
    text: Seq<char>,
    read: Result<(Seq<char>, int), Seq<char>>,
) -> Result<(Seq<char>, int), Seq<char>> {
    match read {
        Ok((rest, end)) => Ok((text + rest, end)),
        Err(e) => Err(e),
    }
}

/// What one part of a literal adds to its text, and the high surrogate that
/// waits behind it.
spec fn piece_text(piece: Piece, high: Option<nat>) -> (Seq<char>, Option<nat>) {
    match (piece, high) {
        (Piece::Text(text), _) => (text, high),
        (Piece::Unit(unit), Some(h)) => if is_low(unit) {
            (seq![paired(h, unit)], None)
        } else {
            (seq!['\u{FFFD}'] + lone(unit), None)
        },
        (Piece::Unit(unit), None) => if is_high(unit) {
            (Seq::empty(), Some(unit))
        } else {
            (lone(unit), None)
        },
    }
}

proof fn lemma_string_step(b: Seq<u8>, pos: int, high: Option<nat>, out: Seq<char>)
    requires
        0 <= pos < b.len(),
        !holds(b, pos, '"'),
        piece_at(b, pos) is Ok,
    ensures
        ({
            let (piece, next) = piece_at(b, pos)->Ok_0;
            let (text, waiting) = piece_text(piece, high);
            behind_text(out, string_rest(b, pos, high)) == behind_text(
                out + text,
                string_rest(b, next, waiting),
            )
        }),
{
    let (piece, next) = piece_at(b, pos)->Ok_0;
    let (text, waiting) = piece_text(piece, high);
    if let Ok((rest, end)) = pieces_at(b, next) {
        let all = seq![piece] + rest;
        assert(all.drop_first() =~= rest);
        assert(joined(all, high) =~= text + joined(rest, waiting));
        assert(out + joined(all, high) =~= out + text + joined(rest, waiting));
    }
}

proof fn lemma_sequence_length(first: u8)
    ensures
        first & 0x80 == 0 <==> first < 0x80,
        first & 0xE0 == 0xC0 <==> 0xC0 <= first < 0xE0,
        first & 0xF0 == 0xE0 <==> 0xE0 <= first < 0xF0,
{
    broadcast use utf8_byte_ranges_bitwise;

    assert(first & 0xE0 == first & 0xe0);
}

fn utf8_len(first_byte: u8) -> (out: usize)
    ensures
        out == sequence_length(first_byte),
{
    proof {
        lemma_sequence_length(first_byte);
    }
    if first_byte & 0x80 == 0 {
        1
    } else if first_byte & 0xE0 == 0xC0 {
        2
    } else if first_byte & 0xF0 == 0xE0 {
        3
    } else {
        4
    }
}

/// Reads hexadecimal digits.
fn parse_hex(digits: &[u8]) -> (out: Option<u32>)
    requires
        digits@.len() <= 4,
    ensures
        match out {
            Some(n) => hex_value(digits@) == Some(n as nat) && n < 0x10000,
            None => hex_value(digits@) is None,
        },
{
    let mut value: u32 = 0;
    let mut i: usize = 0;
    assert(digits@.take(0) =~= Seq::<u8>::empty());
    while i < digits.len()
        invariant
            i <= digits@.len() <= 4,
            hex_value(digits@.take(i as int)) == Some(value as nat),
            i == 0 ==> value == 0,
            i == 1 ==> value < 0x10,
            i == 2 ==> value < 0x100,
            i == 3 ==> value < 0x1000,
            i == 4 ==> value < 0x10000,
        decreases digits.len() - i,
    {
        let c: u8 = digits[i];
        assert(digits@.take(i + 1).drop_last() =~= digits@.take(i as int));
        let d: u8 = if 48 <= c && c <= 57 {
            c - 48
        } else if 97 <= c && c <= 102 {
            c - 97 + 10
        } else if 65 <= c && c <= 70 {
            c - 65 + 10
        } else {
            proof {
                lemma_hex_prefix(digits@, i + 1);
            }
            return None;
        };
        value = value * 16 + d as u32;
        i += 1;
    }
    assert(digits@.take(i as int) =~= digits@);
    Some(value)
}

proof fn lemma_hex_prefix(s: Seq<u8>, n: int)
    requires
        0 <= n <= s.len(),
        hex_value(s.take(n)) is None,
    ensures
        hex_value(s) is None,
    decreases s.len(),
{
    if n == s.len() {
        assert(s.take(n) =~= s);
    } else {
        assert(s.drop_last().take(n) =~= s.take(n));
        lemma_hex_prefix(s.drop_last(), n);
    }
}

/// Reads the string literal whose opening quote is at `start`.
pub fn parse_string(b: &[u8], start: usize) -> (out: Result<(String, usize), String>)
    requires
        start < usize::MAX,
    ensures
        match (out, string_at(b@, start as int)) {
            (Ok((text, end)), Ok((t, e))) => text@ == t && end == e,
            (Err(message), Err(m)) => message@ == m,
            _ => false,
        },
{
    let len: usize = b.len();
    if start >= len {
        return Err("строка оборвалась до закрывающей кавычки".to_owned());
    }
    let mut pos: usize = start + 1;
    let mut out = String::new();
    let mut high: Option<u32> = None;
    let ghost mut waiting: Option<nat> = None;
    assert(behind_text(Seq::empty(), string_at(b@, start as int)) == string_at(b@, start as int))
        by {
        if let Ok((text, _)) = string_at(b@, start as int) {
            assert(Seq::<char>::empty() + text =~= text);
        }
    }
    while pos < len
        invariant
            start < pos <= len == b@.len(),
            string_at(b@, start as int) == behind_text(
                out@,
                string_rest(b@, pos as int, waiting),
            ),
            match high {
                Some(h) => waiting == Some(h as nat) && is_high(h as nat),
                None => waiting is None,
            },
        decreases len - pos,
    {
        let c: u8 = b[pos];
        if c == 0x22 {
            if high.is_some() {
                out.push('\u{FFFD}');
            }
            proof {
                assert(pieces_at(b@, pos as int) == Ok::<(Seq<Piece>, int), Seq<char>>(
                    (Seq::empty(), pos + 1),
                ));
                assert(string_at(b@, start as int)->Ok_0.0 =~= out@);
            }
            return Ok((out, pos + 1));
        }
        if c != 0x5C {
            let size: usize = utf8_len(c);
            if len - pos < size {
                return Err("оборванная UTF-8 последовательность в строке".to_owned());
            }
            match utf8_text(slice_subrange(b, pos, pos + size)) {
                None => {
                    return Err("невалидный UTF-8 в строке".to_owned());
                },
                Some(text) => {
                    proof {
                        lemma_string_step(b@, pos as int, waiting, out@);
                    }
                    out.append(text);
                    pos = pos + size;
                },
            }
            continue ;
        }
        if len - pos < 2 {
            return Err("escape-последовательность оборвалась".to_owned());
        }
        let letter: u8 = b[pos + 1];
        let short: Option<char> = match letter {
            0x22 => Some('"'),
            0x5C => Some('\\'),
            0x2F => Some('/'),
            0x6E => Some('\n'),
            0x74 => Some('\t'),
            0x72 => Some('\r'),
            0x62 => Some('\u{8}'),
            0x66 => Some('\u{c}'),
            _ => None,
        };
        if let Some(plain) = short {
            proof {
                lemma_string_step(b@, pos as int, waiting, out@);
                assert(out@.push(plain) =~= out@ + seq![plain]);
            }
            out.push(plain);
            pos = pos + 2;
            continue ;
        }
        if letter != 0x75 {
            let mut message = "неизвестный escape «\\".to_owned();
            message.push(letter as char);
            message.append("»");
            proof {
                assert(message@ =~= "неизвестный escape «\\"@ + seq![letter as char] + "»"@);
            }
            return Err(message);
        }
        if len - pos < 6 {
            return Err("«\\u» без четырёх шестнадцатеричных знаков".to_owned());
        }
        let digits = slice_subrange(b, pos + 2, pos + 6);
        if utf8_text(digits).is_none() {
            return Err("«\\uXXXX» не ASCII".to_owned());
        }
        let unit: u32 = match parse_hex(digits) {
            None => {
                return Err("«\\uXXXX» не шестнадцатеричное число".to_owned());
            },
            Some(unit) => unit,
        };
        let ghost before_piece = out@;
        let ghost u = unit as nat;
        let ghost (added, after) = piece_text(Piece::Unit(u), waiting);
        proof {
            lemma_string_step(b@, pos as int, waiting, out@);
        }
        match high {
            Some(h) => {
                if 0xDC00 <= unit && unit <= 0xDFFF {
                    let scalar: u32 = 0x10000 + (h - 0xD800) * 0x400 + (unit - 0xDC00);
                    match char::from_u32(scalar) {
                        Some(pair) => {
                            out.push(pair);
                        },
                        None => {
                            out.push('\u{FFFD}');
                        },
                    }
                } else {
                    out.push('\u{FFFD}');
                    if let Some(lonely) = char::from_u32(unit) {
                        out.push(lonely);
                    }
                }
                high = None;
            },
            None => {
                if 0xD800 <= unit && unit <= 0xDBFF {
                    high = Some(unit);
                } else if let Some(lonely) = char::from_u32(unit) {
                    out.push(lonely);
                }
            },
        }
        proof {
            assert(is_scalar(unit) <==> !is_high(u) && !is_low(u));
            assert(out@ =~= before_piece + added);
            waiting = after;
        }
        pos = pos + 6;
    }
    Err("строка оборвалась до закрывающей кавычки".to_owned())
}

/// Reads the value behind `start`, with `depth` objects and arrays open around
/// it.
fn parse_value(b: &[u8], start: usize, depth: u32) -> (out: Result<(Json, usize), String>)
    requires
        start <= b@.len(),
        depth <= MAX_DEPTH,
    ensures
        read_as(out, value_at(b@, start as int, depth as nat)),
    decreases b@.len() - start, 0nat,
{
    let pos: usize = skip_ws(b, start);
    let opens_object: bool = holds_at(b, pos, '{');
    let opens_array: bool = holds_at(b, pos, '[');
    proof {
        lemma_value_advances(b@, start as int, depth as nat);
        reveal_strlit("true");
        reveal_strlit("false");
        reveal_strlit("null");
    }
    if (opens_object || opens_array) && depth >= MAX_DEPTH {
        let mut message = "JSON вложен глубже ".to_owned();
        message.append(decimal_text(MAX_DEPTH as u64).as_str());
        message.append(" уровней на байте ");
        message.append(decimal_text(pos as u64).as_str());
        message.append(" — отклонено");
        return Err(message);
    }
    if opens_object {
        return parse_object(b, pos, depth + 1);
    }
    if opens_array {
        return parse_array(b, pos, depth + 1);
    }
    if holds_at(b, pos, '"') {
        return match parse_string(b, pos) {
            Ok((text, end)) => Ok((Json::String(text), end)),
            Err(message) => Err(message),
        };
    }
    if has_word(b, pos, "true") {
        return Ok((Json::Bool(true), pos + 4));
    }
    if has_word(b, pos, "false") {
        return Ok((Json::Bool(false), pos + 5));
    }
    if has_word(b, pos, "null") {
        return Ok((Json::Null, pos + 4));
    }
    if pos < b.len() && (b[pos] == 0x2D || (48 <= b[pos] && b[pos] <= 57)) {
        return parse_number(b, pos);
    }
    Err(error_at("неожиданный символ", pos))
}

/// Reads the object whose opening brace is at `start`; `depth` counts it in.
fn parse_object(b: &[u8], start: usize, depth: u32) -> (out: Result<(Json, usize), String>)
    requires
        start < b@.len(),
        start < usize::MAX,
        depth <= MAX_DEPTH,
    ensures
        ({
            let first = after_space(b@, start + 1);
            if holds(b@, first, '}') {
                read_as(out, Ok((JsonValue::Object(Map::empty()), first + 1)))
            } else {
                read_as(out, members_at(b@, first, depth as nat, Map::empty()))
            }
        }),
    decreases b@.len() - start - 1, 2nat,
{
    let first: usize = skip_ws(b, start + 1);
    let mut pairs: Vec<(String, Json)> = Vec::new();
    if holds_at(b, first, '}') {
        return Ok((Json::Object(pairs), first + 1));
    }
    let mut next_member: usize = first;
    let ghost meant = members_at(b@, first as int, depth as nat, Map::empty());
    loop
        invariant
            start < first <= next_member <= b@.len(),
            depth <= MAX_DEPTH,
            meant == members_at(b@, next_member as int, depth as nat, members(pairs@)),
            keys_ascend(pairs@),
            forall|i: int| 0 <= i < pairs@.len() ==> (#[trigger] pairs@[i]).1.well_formed(),
            meant == members_at(b@, first as int, depth as nat, Map::empty()),
            !holds(b@, first as int, '}'),
            first == after_space(b@, start + 1),
        decreases b@.len() - next_member,
    {
        let pos: usize = skip_ws(b, next_member);
        if !holds_at(b, pos, '"') {
            return Err(error_at("ожидался ключ-строка", pos));
        }
        proof {
            lemma_string_advances(b@, pos as int);
        }
        let (key, behind_key) = match parse_string(b, pos) {
            Ok(read) => read,
            Err(message) => {
                return Err(message);
            },
        };
        let colon: usize = skip_ws(b, behind_key);
        if !holds_at(b, colon, ':') {
            return Err(error_at("ожидалось «:»", colon));
        }
        proof {
            lemma_value_advances(b@, colon + 1, depth as nat);
        }
        let (value, behind) = match parse_value(b, colon + 1, depth) {
            Ok(read) => read,
            Err(message) => {
                return Err(message);
            },
        };
        set_member(&mut pairs, key, value);
        let next: usize = skip_ws(b, behind);
        if holds_at(b, next, ',') {
            next_member = next + 1;
        } else if holds_at(b, next, '}') {
            return Ok((Json::Object(pairs), next + 1));
        } else {
            return Err(error_at("ожидалось «,» или «}»", next));
        }
    }
}

/// Reads the array whose opening bracket is at `start`; `depth` counts it in.
fn parse_array(b: &[u8], start: usize, depth: u32) -> (out: Result<(Json, usize), String>)
    requires
        start < b@.len(),
        start < usize::MAX,
        depth <= MAX_DEPTH,
    ensures
        ({
            let first = after_space(b@, start + 1);
            if holds(b@, first, ']') {
                read_as(out, Ok((JsonValue::Array(Seq::empty()), first + 1)))
            } else {
                read_as(out, items_at(b@, first, depth as nat, Seq::empty()))
            }
        }),
    decreases b@.len() - start - 1, 2nat,
{
    let first: usize = skip_ws(b, start + 1);
    let mut items: Vec<Json> = Vec::new();
    if holds_at(b, first, ']') {
        return Ok((Json::Array(items), first + 1));
    }
    let mut next_item: usize = first;
    let ghost meant = items_at(b@, first as int, depth as nat, Seq::empty());
    loop
        invariant
            start < first <= next_item <= b@.len(),
            depth <= MAX_DEPTH,
            meant == items_at(b@, next_item as int, depth as nat, values(items@)),
            forall|i: int| 0 <= i < items@.len() ==> (#[trigger] items@[i]).well_formed(),
            meant == items_at(b@, first as int, depth as nat, Seq::empty()),
            !holds(b@, first as int, ']'),
            first == after_space(b@, start + 1),
        decreases b@.len() - next_item,
    {
        proof {
            lemma_value_advances(b@, next_item as int, depth as nat);
        }
        let (value, behind) = match parse_value(b, next_item, depth) {
            Ok(read) => read,
            Err(message) => {
                return Err(message);
            },
        };
        let ghost before = items@;
        items.push(value);
        proof {
            assert(items@.drop_last() =~= before);
            assert(values(items@) == values(before).push(value@));
        }
        let next: usize = skip_ws(b, behind);
        if holds_at(b, next, ',') {
            next_item = next + 1;
        } else if holds_at(b, next, ']') {
            assert(Json::Array(items)@ == JsonValue::Array(values(items@)));
            return Ok((Json::Array(items), next + 1));
        } else {
            return Err(error_at("ожидалось «,» или «]»", next));
        }
    }
}

/// Reads a whole document. Anything but white space behind the value is an
/// error.
pub fn parse(text: &str) -> (out: Result<Json, String>)
    ensures
        match (out, document(encode_utf8(text@))) {
            (Ok(value), Ok(v)) => value@ == v && value.well_formed(),
            (Err(message), Err(m)) => message@ == m,
            _ => false,
        },
{
    let bytes = text.as_bytes();
    let start: usize = skip_ws(bytes, 0);
    proof {
        lemma_value_advances(bytes@, start as int, 0);
    }
    match parse_value(bytes, start, 0) {
        Err(message) => Err(message),
        Ok((value, behind)) => {
            let end: usize = skip_ws(bytes, behind);
            if end != bytes.len() {
                return Err(error_at("лишние данные после значения", end));
            }
            Ok(value)
        },
    }
}

// ---------------------------------------------------------------------------
// Laws
// ---------------------------------------------------------------------------

/// Objects and arrays in `value` nest at most `levels` deep.
pub open spec fn nests_within(value: JsonValue, levels: nat) -> bool
    decreases levels,
{
    match value {
        JsonValue::Array(items) => levels > 0 && forall|i: int|
            0 <= i < items.len() ==> nests_within(#[trigger] items[i], (levels - 1) as nat),
        JsonValue::Object(map) => levels > 0 && forall|k: Seq<char>| #[trigger]
            map.contains_key(k) ==> nests_within(map[k], (levels - 1) as nat),
        _ => true,
    }
}

proof fn lemma_value_nests(b: Seq<u8>, start: int, depth: nat)
    requires
        depth <= MAX_DEPTH,
    ensures
        value_at(b, start, depth) matches Ok((value, _)) ==> nests_within(
            value,
            (MAX_DEPTH - depth) as nat,
        ),
    decreases b.len() - start, 0nat,
{
    let pos = after_space(b, start);
    lemma_after_space(b, start);
    lemma_after_space(b, pos + 1);
    if depth < MAX_DEPTH {
        if holds(b, pos, '{') {
            let first = after_space(b, pos + 1);
            lemma_members_nest(b, first, depth + 1, Map::empty());
        } else if holds(b, pos, '[') {
            let first = after_space(b, pos + 1);
            lemma_items_nest(b, first, depth + 1, Seq::empty());
        }
    }
}

proof fn lemma_members_nest(b: Seq<u8>, start: int, depth: nat, found: Map<Seq<char>, JsonValue>)
    requires
        0 < depth <= MAX_DEPTH,
        forall|k: Seq<char>| #[trigger]
            found.contains_key(k) ==> nests_within(found[k], (MAX_DEPTH - depth) as nat),
    ensures
        members_at(b, start, depth, found) matches Ok((value, _)) ==> nests_within(
            value,
            (MAX_DEPTH - depth + 1) as nat,
        ),
    decreases b.len() - start, 1nat,
{
    let pos = after_space(b, start);
    lemma_after_space(b, start);
    lemma_string_advances(b, pos);
    if holds(b, pos, '"') {
        if let Ok((key, behind_key)) = string_at(b, pos) {
            let colon = after_space(b, behind_key);
            lemma_after_space(b, behind_key);
            if holds(b, colon, ':') {
                lemma_value_nests(b, colon + 1, depth);
                if let Ok((value, behind)) = value_at(b, colon + 1, depth) {
                    let next = after_space(b, behind);
                    let grown = found.insert(key, value);
                    if holds(b, next, ',') && next >= start {
                        lemma_members_nest(b, next + 1, depth, grown);
                    }
                }
            }
        }
    }
}

proof fn lemma_items_nest(b: Seq<u8>, start: int, depth: nat, found: Seq<JsonValue>)
    requires
        0 < depth <= MAX_DEPTH,
        forall|i: int|
            0 <= i < found.len() ==> nests_within(
                #[trigger] found[i],
                (MAX_DEPTH - depth) as nat,
            ),
    ensures
        items_at(b, start, depth, found) matches Ok((value, _)) ==> nests_within(
            value,
            (MAX_DEPTH - depth + 1) as nat,
        ),
    decreases b.len() - start, 1nat,
{
    lemma_value_nests(b, start, depth);
    if let Ok((value, behind)) = value_at(b, start, depth) {
        let next = after_space(b, behind);
        let grown = found.push(value);
        assert forall|i: int| 0 <= i < grown.len() implies nests_within(
            #[trigger] grown[i],
            (MAX_DEPTH - depth) as nat,
        ) by {
            if i < found.len() {
                assert(grown[i] == found[i]);
            }
        }
        if holds(b, next, ',') && next >= start {
            lemma_items_nest(b, next + 1, depth, grown);
        }
    }
}

/// Whatever is accepted nests at most [`MAX_DEPTH`] deep.
pub proof fn accepted_documents_nest_within_the_limit(b: Seq<u8>)
    ensures
        document(b) matches Ok(value) ==> nests_within(value, MAX_DEPTH as nat),
{
    lemma_value_nests(b, after_space(b, 0), 0);
}

proof fn lemma_open_brackets(b: Seq<u8>, pos: int, depth: nat)
    requires
        0 <= pos,
        depth <= MAX_DEPTH,
        forall|i: int| pos <= i <= pos + MAX_DEPTH - depth ==> #[trigger] holds(b, i, '['),
    ensures
        value_at(b, pos, depth) is Err,
    decreases MAX_DEPTH - depth,
{
    assert(holds(b, pos, '['));
    assert(after_space(b, pos) == pos);
    if depth < MAX_DEPTH {
        assert(holds(b, pos + 1, '['));
        assert(after_space(b, pos + 1) == pos + 1);
        lemma_open_brackets(b, pos + 1, depth + 1);
    }
}

/// A document that opens more than [`MAX_DEPTH`] arrays in each other is
/// refused, whatever follows.
pub proof fn deeper_nesting_is_refused(b: Seq<u8>)
    requires
        b.len() > MAX_DEPTH,
        forall|i: int| 0 <= i <= MAX_DEPTH ==> #[trigger] holds(b, i, '['),
    ensures
        document(b) is Err,
{
    assert(holds(b, 0, '['));
    assert(after_space(b, 0) == 0);
    lemma_open_brackets(b, 0, 0);
}

/// Behind the value of an accepted document nothing stands but white space.
pub proof fn accepted_documents_have_no_tail(b: Seq<u8>)
    ensures
        document(b) is Ok ==> {
            &&& value_at(b, after_space(b, 0), 0) is Ok
            &&& forall|i: int|
                (value_at(b, after_space(b, 0), 0)->Ok_0).1 <= i < b.len() ==> is_space(
                    #[trigger] b[i],
                )
        },
{
    lemma_value_advances(b, after_space(b, 0), 0);
    lemma_after_space(b, 0);
    if let Ok((_, behind)) = value_at(b, after_space(b, 0), 0) {
        lemma_all_space(b, behind);
    }
}

proof fn lemma_all_space(b: Seq<u8>, pos: int)
    requires
        0 <= pos,
    ensures
        forall|i: int| pos <= i < after_space(b, pos) ==> is_space(#[trigger] b[i]),
    decreases b.len() - pos,
{
    if 0 <= pos < b.len() && is_space(b[pos]) {
        lemma_all_space(b, pos + 1);
    }
}

/// What the encoding of one character looks like to the reader.
pub proof fn lemma_encoded_char(c: char)
    ensures
        ({
            let e = encode_utf8(seq![c]);
            &&& e.len() > 0
            &&& sequence_length(e[0]) == e.len()
            &&& valid_utf8(e)
            &&& decode_utf8(e) == seq![c]
            &&& e[0] as char == '"' ==> c == '"'
            &&& e[0] as char == '\\' ==> c == '\\'
        }),
{
    let e = encode_utf8(seq![c]);
    encode_utf8_first_scalar(seq![c]);
    encode_utf8_valid_utf8(seq![c]);
    encode_utf8_decode_utf8(seq![c]);
    reveal_with_fuel(encode_utf8, 2);
    assert(e =~= encode_scalar(c as u32));
    if is_leading_byte_width_1(e[0]) {
        is_ascii_chars_encode_utf8(seq![c]);
        assert(codepoint_width_1(e[0]) == c as u32);
        let first = e[0];
        assert((first & 0x7F) as u32 == first as u32) by (bit_vector)
            requires
                first <= 0x7F,
        ;
    }
}

/// The text with a backslash before every quote and every backslash.
pub open spec fn slashed(s: Seq<char>) -> Seq<char>
    decreases s.len(),
{
    if s.len() == 0 {
        Seq::empty()
    } else if s[0] == '"' || s[0] == '\\' {
        seq!['\\', s[0]] + slashed(s.drop_first())
    } else {
        seq![s[0]] + slashed(s.drop_first())
    }
}

/// The text as a string literal.
pub open spec fn quoted(s: Seq<char>) -> Seq<char> {
    seq!['"'] + slashed(s) + seq!['"']
}

/// What one character of a literal is encoded to, and what the reader makes of
/// it.
proof fn lemma_slashed_char(b: Seq<u8>, pos: int, c: char, rest: Seq<u8>)
    requires
        0 <= pos <= b.len(),
        ({
            let one = slashed(seq![c]);
            b.skip(pos) == encode_utf8(one) + rest
        }),
    ensures
        ({
            let end = pos + encode_utf8(slashed(seq![c])).len();
            &&& pos < end <= b.len()
            &&& !holds(b, pos, '"')
            &&& piece_at(b, pos) == Ok::<(Piece, int), Seq<char>>((Piece::Text(seq![c]), end))
            &&& b.skip(end) == rest
        }),
{
    let one = slashed(seq![c]);
    let bytes = encode_utf8(one);
    let tail = b.skip(pos);
    let end = pos + bytes.len();
    assert(tail.len() == b.len() - pos);
    assert(tail.len() == bytes.len() + rest.len());
    assert(seq![c].drop_first() =~= Seq::<char>::empty());
    assert(slashed(seq![c].drop_first()) =~= Seq::<char>::empty());
    assert forall|i: int| 0 <= i < bytes.len() implies b[pos + i] == #[trigger] bytes[i] by {
        assert(tail[i] == b[pos + i]);
    }
    assert(b.subrange(pos, end) =~= bytes);
    assert(b.skip(end) =~= tail.skip(bytes.len() as int));
    assert(tail.skip(bytes.len() as int) =~= rest);
    if c == '"' || c == '\\' {
        assert(one =~= seq!['\\', c]);
        is_ascii_chars_encode_utf8(one);
        assert(bytes.len() == 2);
        assert(b[pos + 0] == bytes[0]);
        assert(b[pos + 1] == bytes[1]);
    } else {
        assert(one =~= seq![c]);
        lemma_encoded_char(c);
        assert(b[pos + 0] == bytes[0]);
    }
}

proof fn lemma_slashed_pieces(b: Seq<u8>, pos: int, s: Seq<char>, behind: Seq<u8>)
    requires
        0 <= pos <= b.len(),
        b.skip(pos) == encode_utf8(slashed(s)) + (seq![0x22u8] + behind),
    ensures
        pieces_at(b, pos) matches Ok((pieces, end)) && end == b.len() - behind.len() && joined(
            pieces,
            None,
        ) == s,
    decreases s.len(),
{
    let tail = b.skip(pos);
    if s.len() == 0 {
        assert(encode_utf8(slashed(s)) =~= Seq::<u8>::empty());
        assert(tail =~= seq![0x22u8] + behind);
        assert(b[pos] == tail[0]);
        assert(holds(b, pos, '"'));
        assert(joined(Seq::empty(), None) =~= s);
    } else {
        let c = s[0];
        let one = slashed(seq![c]);
        let rest = s.drop_first();
        assert(seq![c].drop_first() =~= Seq::<char>::empty());
        assert(slashed(seq![c].drop_first()) =~= Seq::<char>::empty());
        assert(slashed(s) =~= one + slashed(rest));
        lemma_encode_concat(one, slashed(rest));
        let follows = encode_utf8(slashed(rest)) + (seq![0x22u8] + behind);
        assert(tail =~= encode_utf8(one) + follows);
        lemma_slashed_char(b, pos, c, follows);
        let end = pos + encode_utf8(one).len();
        lemma_slashed_pieces(b, end, rest, behind);
        let pieces = pieces_at(b, end)->Ok_0.0;
        let all = seq![Piece::Text(seq![c])] + pieces;
        assert(all.drop_first() =~= pieces);
        assert(joined(all, None) =~= s);
    }
}

proof fn lemma_quoted_bytes(s: Seq<char>)
    ensures
        encode_utf8(quoted(s)) == seq![0x22u8] + (encode_utf8(slashed(s)) + seq![0x22u8]),
{
    lemma_encode_concat(seq!['"'] + slashed(s), seq!['"']);
    lemma_encode_concat(seq!['"'], slashed(s));
    is_ascii_chars_encode_utf8(seq!['"']);
    assert(encode_utf8(seq!['"']) =~= seq![0x22u8]);
    assert(encode_utf8(quoted(s)) =~= seq![0x22u8] + (encode_utf8(slashed(s)) + seq![0x22u8]));
}

/// Any text, written as a literal, is read back as it is, and the literal ends
/// where it ends, whatever stands before and behind it.
pub proof fn a_quoted_text_is_read_back(before: Seq<u8>, s: Seq<char>, behind: Seq<u8>)
    ensures
        ({
            let literal = encode_utf8(quoted(s));
            string_at(before + literal + behind, before.len() as int) == Ok::<
                (Seq<char>, int),
                Seq<char>,
            >((s, (before.len() + literal.len()) as int))
        }),
{
    let literal = encode_utf8(quoted(s));
    let b = before + literal + behind;
    let pos = before.len() as int;
    lemma_quoted_bytes(s);
    assert(b.skip(pos + 1) =~= encode_utf8(slashed(s)) + (seq![0x22u8] + behind));
    lemma_slashed_pieces(b, pos + 1, s, behind);
}

/// Two literals in a row are read back one by one.
pub proof fn literals_in_a_row_are_read_back(s: Seq<char>, t: Seq<char>)
    ensures
        ({
            let b = encode_utf8(quoted(s) + quoted(t));
            let middle = encode_utf8(quoted(s)).len() as int;
            &&& string_at(b, 0) == Ok::<(Seq<char>, int), Seq<char>>((s, middle))
            &&& string_at(b, middle) == Ok::<(Seq<char>, int), Seq<char>>((t, b.len() as int))
        }),
{
    let (first, second) = (encode_utf8(quoted(s)), encode_utf8(quoted(t)));
    lemma_encode_concat(quoted(s), quoted(t));
    a_quoted_text_is_read_back(Seq::empty(), s, second);
    assert(Seq::<u8>::empty() + first + second =~= first + second);
    a_quoted_text_is_read_back(first, t, Seq::empty());
    assert(first + second + Seq::<u8>::empty() =~= first + second);
}

/// A document that is one literal means the text that the literal was made of.
pub proof fn a_quoted_document_is_its_text(s: Seq<char>)
    ensures
        document(encode_utf8(quoted(s))) == Ok::<JsonValue, Seq<char>>(JsonValue::String(s)),
{
    let b = encode_utf8(quoted(s));
    lemma_quoted_bytes(s);
    a_quoted_text_is_read_back(Seq::empty(), s, Seq::empty());
    assert(Seq::<u8>::empty() + b + Seq::<u8>::empty() =~= b);
    assert(holds(b, 0, '"'));
    assert(after_space(b, 0) == 0);
    assert(after_space(b, b.len() as int) == b.len());
}

proof fn lemma_nothing_to_slash(s: Seq<char>)
    requires
        !s.contains('"'),
        !s.contains('\\'),
    ensures
        slashed(s) == s,
    decreases s.len(),
{
    if s.len() > 0 {
        assert(s.contains(s[0]));
        assert forall|x: char| s.drop_first().contains(x) implies s.contains(x) by {
            let i = choose|i: int| 0 <= i < s.drop_first().len() && s.drop_first()[i] == x;
            assert(s[i + 1] == x);
        }
        lemma_nothing_to_slash(s.drop_first());
        assert(slashed(s) =~= s);
    }
}

/// A text without quotes and backslashes, put in quotes, is read back as it
/// is, whatever characters it has.
pub proof fn plain_text_is_copied_through(s: Seq<char>)
    requires
        !s.contains('"'),
        !s.contains('\\'),
    ensures
        document(encode_utf8(seq!['"'] + s + seq!['"'])) == Ok::<JsonValue, Seq<char>>(
            JsonValue::String(s),
        ),
{
    lemma_nothing_to_slash(s);
    a_quoted_document_is_its_text(s);
}

proof fn lemma_encode_concat(x: Seq<char>, y: Seq<char>)
    ensures
        encode_utf8(x + y) == encode_utf8(x) + encode_utf8(y),
    decreases x.len(),
{
    if x.len() == 0 {
        assert(x + y =~= y);
        assert(encode_utf8(x) + encode_utf8(y) =~= encode_utf8(y));
    } else {
        assert((x + y).drop_first() =~= x.drop_first() + y);
        lemma_encode_concat(x.drop_first(), y);
        assert(encode_utf8(x + y) =~= encode_utf8(x) + encode_utf8(y));
    }
}

// A document that is cut short, at `i`.

proof fn lemma_cut_space(b: Seq<u8>, i: int, pos: int)
    requires
        0 <= pos <= i <= b.len(),
    ensures
        after_space(b.take(i), pos) == (if after_space(b, pos) < i {
            after_space(b, pos)
        } else {
            i
        }),
    decreases b.len() - pos,
{
    lemma_after_space(b, pos);
    if pos < i {
        assert(b.take(i)[pos] == b[pos]);
        if is_space(b[pos]) {
            lemma_cut_space(b, i, pos + 1);
        }
    }
}

proof fn lemma_space_is_skipped_once(b: Seq<u8>, pos: int)
    ensures
        after_space(b, after_space(b, pos)) == after_space(b, pos),
    decreases b.len() - pos,
{
    if 0 <= pos < b.len() && is_space(b[pos]) {
        lemma_space_is_skipped_once(b, pos + 1);
    }
}

proof fn lemma_cut_digits(b: Seq<u8>, i: int, pos: int)
    requires
        0 <= pos <= i <= b.len(),
    ensures
        after_digits(b.take(i), pos) == (if after_digits(b, pos) < i {
            after_digits(b, pos)
        } else {
            i
        }),
    decreases b.len() - pos,
{
    lemma_after_digits(b, pos);
    if pos < i {
        assert(b.take(i)[pos] == b[pos]);
        if digit_at(b, pos) {
            lemma_cut_digits(b, i, pos + 1);
        }
    }
}

/// What is left of a literal has no closing quote; a literal before the cut is
/// what it was.
proof fn lemma_cut_pieces(b: Seq<u8>, i: int, pos: int)
    requires
        0 <= pos,
        0 <= i <= b.len(),
        pieces_at(b, pos) is Ok,
    ensures
        pieces_at(b, pos)->Ok_0.1 <= i ==> pieces_at(b.take(i), pos) == pieces_at(b, pos),
        pieces_at(b, pos)->Ok_0.1 > i ==> pieces_at(b.take(i), pos) is Err,
    decreases b.len() - pos,
{
    let cut = b.take(i);
    lemma_pieces_advance(b, pos);
    if pos < i {
        assert(cut[pos] == b[pos]);
        if !holds(b, pos, '"') {
            let (piece, next) = piece_at(b, pos)->Ok_0;
            lemma_pieces_advance(b, next);
            lemma_cut_pieces(b, i, next);
            if next <= i {
                assert(cut.subrange(pos, next) =~= b.subrange(pos, next));
                if holds(b, pos, '\\') {
                    assert(cut[pos + 1] == b[pos + 1]);
                    if piece is Unit {
                        assert(cut.subrange(pos + 2, pos + 6) =~= b.subrange(pos + 2, pos + 6));
                    }
                }
                assert(piece_at(cut, pos) == piece_at(b, pos));
            } else {
                if pos + 1 < i {
                    assert(cut[pos + 1] == b[pos + 1]);
                }
                assert(piece_at(cut, pos) is Err);
            }
        }
    }
}

proof fn lemma_cut_number(b: Seq<u8>, i: int, pos: int)
    requires
        0 <= pos < i <= b.len(),
        digit_at(b, pos) || holds(b, pos, '-'),
        number_at(b, pos) is Ok,
    ensures
        number_at(b, pos)->Ok_0.1 <= i ==> number_at(b.take(i), pos) == number_at(b, pos),
        number_at(b, pos)->Ok_0.1 > i ==> numeral(b.take(i), pos).0 == i,
{
    let cut = b.take(i);
    assert forall|k: int| 0 <= k < i implies #[trigger] cut[k] == b[k] by {}
    assert(cut[pos] == b[pos]);
    let whole = if holds(b, pos, '-') {
        pos + 1
    } else {
        pos
    };
    let point = after_digits(b, whole);
    lemma_after_digits(b, whole);
    lemma_cut_digits(b, i, whole);
    lemma_after_digits(b, point + 1);
    if point < i {
        assert(cut[point] == b[point]);
        lemma_cut_digits(b, i, point + 1);
    }
    let behind = if holds(b, point, '.') {
        after_digits(b, point + 1)
    } else {
        point
    };
    lemma_after_digits(b, behind + 1);
    lemma_after_digits(b, behind + 2);
    if point < i && behind < i {
        assert(cut[behind] == b[behind]);
        if behind + 1 < i {
            assert(cut[behind + 1] == b[behind + 1]);
        }
        lemma_cut_digits(b, i, behind + 1);
        if behind + 2 <= i {
            lemma_cut_digits(b, i, behind + 2);
        }
    }
    lemma_numeral_advances(b, pos);
    let end = numeral(b, pos).0;
    if end <= i {
        assert(numeral(cut, pos) == numeral(b, pos));
        assert(ascii(cut, pos, end) =~= ascii(b, pos, end));
    }
}

/// The value of a document that is cut short: a value before the cut is what it
/// was, one that the cut goes through is an error or a number that fills the
/// rest.
spec fn survives_cut(
    whole: Result<(JsonValue, int), Seq<char>>,
    cut: Result<(JsonValue, int), Seq<char>>,
    i: int,
) -> bool {
    match whole {
        Err(_) => true,
        Ok((value, end)) => if end <= i {
            cut == whole
        } else {
            match cut {
                Err(_) => true,
                Ok((_, cut_end)) => value is Number && cut_end == i,
            }
        },
    }
}

proof fn lemma_cut_word(b: Seq<u8>, i: int, pos: int, word: Seq<char>)
    requires
        0 <= pos < i <= b.len(),
        word_at(b, pos, word),
        word.len() > 0,
    ensures
        word_at(b.take(i), pos, word) <==> pos + word.len() <= i,
{
    let cut = b.take(i);
    if pos + word.len() <= i {
        assert forall|k: int| 0 <= k < word.len() implies holds(cut, pos + k, #[trigger] word[k]) by {
            assert(holds(b, pos + k, word[k]));
            assert(cut[pos + k] == b[pos + k]);
        }
    } else if word_at(cut, pos, word) {
        lemma_word_fits(cut, pos, word);
    }
}

proof fn lemma_cut_value(b: Seq<u8>, i: int, start: int, depth: nat)
    requires
        0 <= start <= i <= b.len(),
    ensures
        survives_cut(value_at(b, start, depth), value_at(b.take(i), start, depth), i),
    decreases b.len() - start, 0nat,
{
    let cut = b.take(i);
    let pos = after_space(b, start);
    lemma_after_space(b, start);
    lemma_cut_space(b, i, start);
    lemma_value_advances(b, start, depth);
    reveal_strlit("true");
    reveal_strlit("false");
    reveal_strlit("null");
    assert("true"@.len() == 4 && "true"@[0] == 't');
    assert("false"@.len() == 5 && "false"@[0] == 'f');
    assert("null"@.len() == 4 && "null"@[0] == 'n');
    if value_at(b, start, depth) is Ok {
        if pos >= i {
            assert(!word_at(cut, i, "true"@)) by {
                assert(!holds(cut, i + 0, "true"@[0]));
            }
            assert(!word_at(cut, i, "false"@)) by {
                assert(!holds(cut, i + 0, "false"@[0]));
            }
            assert(!word_at(cut, i, "null"@)) by {
                assert(!holds(cut, i + 0, "null"@[0]));
            }
            assert(value_at(cut, start, depth) is Err);
            lemma_space_is_skipped_once(b, start);
            assert(value_at(b, pos, depth) == value_at(b, start, depth));
            lemma_value_advances(b, pos, depth);
        } else {
            assert(cut[pos] == b[pos]);
            lemma_after_space(b, pos + 1);
            lemma_cut_space(b, i, pos + 1);
            let first = after_space(b, pos + 1);
            if first < i {
                assert(cut[first] == b[first]);
            }
            if holds(b, pos, '{') {
                lemma_cut_members(
                    b,
                    i,
                    if first < i {
                        first
                    } else {
                        i
                    },
                    depth + 1,
                    Map::empty(),
                );
                if first >= i {
                    lemma_members_advance(b, first, depth + 1, Map::empty());
                    lemma_nothing_behind_the_cut(b, i, depth + 1);
                }
            } else if holds(b, pos, '[') {
                lemma_cut_items(
                    b,
                    i,
                    if first < i {
                        first
                    } else {
                        i
                    },
                    depth + 1,
                    Seq::empty(),
                );
                if first >= i {
                    lemma_items_advance(b, first, depth + 1, Seq::empty());
                    lemma_nothing_behind_the_cut(b, i, depth + 1);
                }
            } else if holds(b, pos, '"') {
                lemma_cut_pieces(b, i, pos + 1);
            } else {
                assert(word_at(cut, pos, "true"@) ==> holds(cut, pos + 0, "true"@[0]));
                assert(word_at(cut, pos, "false"@) ==> holds(cut, pos + 0, "false"@[0]));
                assert(word_at(cut, pos, "null"@) ==> holds(cut, pos + 0, "null"@[0]));
                assert(word_at(b, pos, "true"@) ==> holds(b, pos + 0, "true"@[0]));
                assert(word_at(b, pos, "false"@) ==> holds(b, pos + 0, "false"@[0]));
                assert(word_at(b, pos, "null"@) ==> holds(b, pos + 0, "null"@[0]));
                if word_at(b, pos, "true"@) {
                    lemma_cut_word(b, i, pos, "true"@);
                } else if word_at(b, pos, "false"@) {
                    lemma_cut_word(b, i, pos, "false"@);
                } else if word_at(b, pos, "null"@) {
                    lemma_cut_word(b, i, pos, "null"@);
                } else {
                    lemma_cut_number(b, i, pos);
                }
            }
        }
    }
}

/// At the end of what is left neither a member nor an item begins.
proof fn lemma_nothing_behind_the_cut(b: Seq<u8>, i: int, depth: nat)
    requires
        0 <= i <= b.len(),
    ensures
        members_at(b.take(i), i, depth, Map::empty()) is Err,
        items_at(b.take(i), i, depth, Seq::empty()) is Err,
{
    let cut = b.take(i);
    reveal_strlit("true");
    reveal_strlit("false");
    reveal_strlit("null");
    assert(after_space(cut, i) == i);
    assert(!word_at(cut, i, "true"@)) by {
        assert(!holds(cut, i + 0, "true"@[0]));
    }
    assert(!word_at(cut, i, "false"@)) by {
        assert(!holds(cut, i + 0, "false"@[0]));
    }
    assert(!word_at(cut, i, "null"@)) by {
        assert(!holds(cut, i + 0, "null"@[0]));
    }
    assert(value_at(cut, i, depth) is Err);
}

/// Where the parts of the first member stand.
proof fn lemma_member_positions(
    b: Seq<u8>,
    start: int,
    depth: nat,
    found: Map<Seq<char>, JsonValue>,
)
    requires
        members_at(b, start, depth, found) is Ok,
    ensures
        ({
            let all = members_at(b, start, depth, found);
            let pos = after_space(b, start);
            let (key, behind_key) = string_at(b, pos)->Ok_0;
            let colon = after_space(b, behind_key);
            let (value, behind) = value_at(b, colon + 1, depth)->Ok_0;
            let next = after_space(b, behind);
            let grown = found.insert(key, value);
            &&& holds(b, pos, '"') && string_at(b, pos) is Ok
            &&& holds(b, colon, ':') && value_at(b, colon + 1, depth) is Ok
            &&& start <= pos < behind_key <= colon < behind <= next < all->Ok_0.1 <= b.len()
            &&& if holds(b, next, ',') {
                all == members_at(b, next + 1, depth, grown)
            } else {
                holds(b, next, '}') && all == Ok::<(JsonValue, int), Seq<char>>(
                    (JsonValue::Object(grown), next + 1),
                )
            }
        }),
{
    let pos = after_space(b, start);
    lemma_after_space(b, start);
    lemma_string_advances(b, pos);
    let (key, behind_key) = string_at(b, pos)->Ok_0;
    let colon = after_space(b, behind_key);
    lemma_after_space(b, behind_key);
    lemma_value_advances(b, colon + 1, depth);
    let (value, behind) = value_at(b, colon + 1, depth)->Ok_0;
    let next = after_space(b, behind);
    lemma_after_space(b, behind);
    lemma_members_advance(b, next + 1, depth, found.insert(key, value));
}

proof fn lemma_cut_members(
    b: Seq<u8>,
    i: int,
    start: int,
    depth: nat,
    found: Map<Seq<char>, JsonValue>,
)
    requires
        0 <= start <= i <= b.len(),
    ensures
        members_at(b, start, depth, found) matches Ok((_, end)) ==> if end <= i {
            members_at(b.take(i), start, depth, found) == members_at(b, start, depth, found)
        } else {
            members_at(b.take(i), start, depth, found) is Err
        },
    decreases b.len() - start, 1nat,
{
    if members_at(b, start, depth, found) is Ok {
        let cut = b.take(i);
        let pos = after_space(b, start);
        lemma_member_positions(b, start, depth, found);
        lemma_cut_space(b, i, start);
        let (key, behind_key) = string_at(b, pos)->Ok_0;
        let colon = after_space(b, behind_key);
        let (value, behind) = value_at(b, colon + 1, depth)->Ok_0;
        let next = after_space(b, behind);
        if pos < i {
            assert(cut[pos] == b[pos]);
            lemma_cut_pieces(b, i, pos + 1);
        }
        if behind_key <= i {
            assert(string_at(cut, pos) == string_at(b, pos));
            lemma_cut_space(b, i, behind_key);
        }
        if colon < i {
            assert(cut[colon] == b[colon]);
            lemma_cut_value(b, i, colon + 1, depth);
        }
        if behind <= i {
            lemma_cut_space(b, i, behind);
        } else {
            assert(after_space(cut, i) == i);
        }
        if next < i {
            assert(cut[next] == b[next]);
            lemma_cut_members(b, i, next + 1, depth, found.insert(key, value));
        }
    }
}

/// Where the first item ends and what stands behind it.
proof fn lemma_item_positions(b: Seq<u8>, start: int, depth: nat, found: Seq<JsonValue>)
    requires
        items_at(b, start, depth, found) is Ok,
    ensures
        ({
            let all = items_at(b, start, depth, found);
            let (value, behind) = value_at(b, start, depth)->Ok_0;
            let next = after_space(b, behind);
            let grown = found.push(value);
            &&& value_at(b, start, depth) is Ok
            &&& start < behind <= next < all->Ok_0.1 <= b.len()
            &&& if holds(b, next, ',') {
                all == items_at(b, next + 1, depth, grown)
            } else {
                holds(b, next, ']') && all == Ok::<(JsonValue, int), Seq<char>>(
                    (JsonValue::Array(grown), next + 1),
                )
            }
        }),
{
    lemma_value_advances(b, start, depth);
    let (value, behind) = value_at(b, start, depth)->Ok_0;
    let next = after_space(b, behind);
    lemma_after_space(b, behind);
    lemma_items_advance(b, next + 1, depth, found.push(value));
}

proof fn lemma_cut_items(b: Seq<u8>, i: int, start: int, depth: nat, found: Seq<JsonValue>)
    requires
        0 <= start <= i <= b.len(),
    ensures
        items_at(b, start, depth, found) matches Ok((_, end)) ==> if end <= i {
            items_at(b.take(i), start, depth, found) == items_at(b, start, depth, found)
        } else {
            items_at(b.take(i), start, depth, found) is Err
        },
    decreases b.len() - start, 1nat,
{
    if items_at(b, start, depth, found) is Ok {
        let cut = b.take(i);
        lemma_item_positions(b, start, depth, found);
        lemma_cut_value(b, i, start, depth);
        let (value, behind) = value_at(b, start, depth)->Ok_0;
        let next = after_space(b, behind);
        if behind <= i {
            lemma_cut_space(b, i, behind);
        } else {
            assert(after_space(cut, i) == i);
        }
        if next < i {
            assert(cut[next] == b[next]);
            lemma_cut_items(b, i, next + 1, depth, found.push(value));
        }
    }
}

/// No proper part of an object, an array or a text, from its beginning on, is
/// itself a document.
pub proof fn a_cut_document_is_refused(b: Seq<u8>, i: int)
    requires
        document(b) matches Ok(value) && (value is Object || value is Array || value is String),
        !is_space(b.last()),
        0 <= i < b.len(),
    ensures
        document(b.take(i)) is Err,
{
    let cut = b.take(i);
    let start = after_space(b, 0);
    lemma_after_space(b, 0);
    lemma_cut_space(b, i, 0);
    lemma_value_advances(b, start, 0);
    accepted_documents_have_no_tail(b);
    let (value, behind) = value_at(b, start, 0)->Ok_0;
    assert(behind == b.len()) by {
        if behind < b.len() {
            assert(is_space(b[b.len() - 1]));
        }
    }
    if start < i {
        lemma_cut_value(b, i, start, 0);
    } else {
        lemma_cut_value(b, i, i, 0);
        lemma_nothing_behind_the_cut(b, i, 0);
    }
}

/// The same of texts: whatever is missing at the end of an object, an array or
/// a string, what is left is refused.
pub proof fn a_truncated_text_is_refused(text: Seq<char>, n: int)
    requires
        document(encode_utf8(text)) matches Ok(value) && (value is Object || value is Array
            || value is String),
        !is_space(encode_utf8(text).last()),
        0 <= n < text.len(),
    ensures
        document(encode_utf8(text.take(n))) is Err,
{
    let b = encode_utf8(text);
    let (head, rest) = (text.take(n), text.skip(n));
    assert(text =~= head + rest);
    lemma_encode_concat(head, rest);
    let i = encode_utf8(head).len() as int;
    assert(rest =~= seq![rest[0]] + rest.drop_first());
    lemma_encode_concat(seq![rest[0]], rest.drop_first());
    lemma_encoded_char(rest[0]);
    assert(b == encode_utf8(head) + encode_utf8(rest));
    assert(encode_utf8(rest).len() > 0);
    assert(b.take(i) =~= encode_utf8(head));
    a_cut_document_is_refused(b, i);
}

// Numerals.

proof fn lemma_digit_run(b: Seq<u8>, pos: int)
    ensures
        forall|k: int| pos <= k < after_digits(b, pos) ==> #[trigger] digit_at(b, k),
    decreases b.len() - pos,
{
    if digit_at(b, pos) {
        lemma_digit_run(b, pos + 1);
    }
}

proof fn lemma_split_at(s: Seq<char>, at: char, i: int)
    requires
        0 <= i < s.len(),
        s[i] == at,
        forall|k: int| 0 <= k < i ==> #[trigger] s[k] != at,
    ensures
        split_first(s, at) == Some((s.take(i), s.skip(i + 1))),
{
    s.index_of_first_ensures(at);
    assert(s.contains(at));
    let found = s.index_of_first(at)->0;
    assert(s[found] == at);
    assert(found == i);
}

proof fn lemma_nothing_to_split(s: Seq<char>, at: char)
    requires
        forall|k: int| 0 <= k < s.len() ==> #[trigger] s[k] != at,
    ensures
        split_first(s, at) is None,
{
    s.index_of_first_ensures(at);
    assert(!s.contains(at));
}

/// The part of a numeral before its exponent.
proof fn lemma_mantissa(b: Seq<u8>, whole: int, m: Seq<char>)
    requires
        0 <= whole <= b.len(),
        ({
            let point = after_digits(b, whole);
            let behind = if holds(b, point, '.') {
                after_digits(b, point + 1)
            } else {
                point
            };
            &&& m == ascii(b, whole, behind)
            &&& point > whole || behind > point + 1
        }),
    ensures
        ({
            let (before, after) = match split_first(m, '.') {
                Some(split) => split,
                None => (m, Seq::empty()),
            };
            (before + after).len() > 0 && all_digits(before + after)
        }),
        forall|k: int| 0 <= k < m.len() ==> #[trigger] m[k] == '.' || is_digit(m[k]),
{
    let point = after_digits(b, whole);
    lemma_after_digits(b, whole);
    lemma_digit_run(b, whole);
    lemma_after_digits(b, point + 1);
    lemma_digit_run(b, point + 1);
    let x = point - whole;
    assert forall|k: int| 0 <= k < x implies is_digit(#[trigger] m[k]) by {
        assert(digit_at(b, whole + k));
    }
    if holds(b, point, '.') {
        assert forall|k: int| x < k < m.len() implies is_digit(#[trigger] m[k]) by {
            assert(digit_at(b, whole + k));
        }
        assert(m[x] == '.');
        lemma_split_at(m, '.', x);
        let digits = m.take(x) + m.skip(x + 1);
        assert forall|k: int| 0 <= k < digits.len() implies is_digit(#[trigger] digits[k]) by {
            if k < x {
                assert(digits[k] == m[k]);
            } else {
                assert(digits[k] == m[k + 1]);
            }
        }
    } else {
        lemma_nothing_to_split(m, '.');
        assert(m + Seq::<char>::empty() =~= m);
    }
}

proof fn lemma_exponent(b: Seq<u8>, from: int, end: int)
    requires
        0 <= from,
        ({
            let power = if holds(b, from, '+') || holds(b, from, '-') {
                from + 1
            } else {
                from
            };
            end == after_digits(b, power) && end > power
        }),
    ensures
        exponent_of(ascii(b, from, end)) is Some,
        forall|k: int|
            0 <= k < end - from ==> #[trigger] ascii(b, from, end)[k] != 'e',
{
    let e = ascii(b, from, end);
    let signed = holds(b, from, '+') || holds(b, from, '-');
    let power = if signed {
        from + 1
    } else {
        from
    };
    lemma_digit_run(b, power);
    assert(e[0] == b[from] as char);
    assert(digit_at(b, power));
    assert forall|k: int| power - from <= k < e.len() implies is_digit(#[trigger] e[k]) by {
        assert(digit_at(b, from + k));
    }
    let digits = if signed {
        e.skip(1)
    } else {
        e
    };
    assert forall|k: int| 0 <= k < digits.len() implies is_digit(#[trigger] digits[k]) by {
        assert(digits[k] == e[k + (power - from)]);
    }
}

/// Every number that is read is a numeral, so that it stands for a floating
/// point number.
pub proof fn what_is_read_as_a_number_is_one(b: Seq<u8>, pos: int)
    requires
        digit_at(b, pos) || holds(b, pos, '-'),
    ensures
        number_at(b, pos) matches Ok((value, _)) ==> (value matches JsonValue::Number(text)
            && numeral_of(text) is Some),
{
    if number_at(b, pos) is Ok {
        let (end, _) = numeral(b, pos);
        let text = ascii(b, pos, end);
        lemma_numeral_advances(b, pos);
        let whole = if holds(b, pos, '-') {
            pos + 1
        } else {
            pos
        };
        let point = after_digits(b, whole);
        let behind = if holds(b, point, '.') {
            after_digits(b, point + 1)
        } else {
            point
        };
        lemma_after_digits(b, whole);
        lemma_after_digits(b, point + 1);
        assert(text[0] == b[pos] as char);
        let unsigned = if holds(b, pos, '-') {
            text.skip(1)
        } else {
            text
        };
        assert(unsigned =~= ascii(b, whole, end));
        let mantissa = ascii(b, whole, behind);
        lemma_mantissa(b, whole, mantissa);
        let x = behind - whole;
        assert forall|k: int| 0 <= k < x implies #[trigger] unsigned[k] == mantissa[k] by {}
        if holds(b, behind, 'e') || holds(b, behind, 'E') {
            let from = behind + 1;
            lemma_after_digits(b, from);
            lemma_after_digits(b, from + 1);
            lemma_exponent(b, from, end);
            assert(unsigned[x] == b[behind] as char);
            assert(unsigned.take(x) =~= mantissa);
            assert(unsigned.skip(x + 1) =~= ascii(b, from, end));
            if holds(b, behind, 'e') {
                lemma_split_at(unsigned, 'e', x);
            } else {
                assert forall|k: int| 0 <= k < unsigned.len() implies #[trigger] unsigned[k]
                    != 'e' by {
                    if k > x {
                        assert(unsigned[k] == ascii(b, from, end)[k - x - 1]);
                    }
                }
                lemma_nothing_to_split(unsigned, 'e');
                lemma_split_at(unsigned, 'E', x);
            }
        } else {
            assert(unsigned =~= mantissa);
            lemma_nothing_to_split(unsigned, 'e');
            lemma_nothing_to_split(unsigned, 'E');
        }
    }
}

/// A member is found where its key stands among the members, and nothing is found in
/// what is no object.
pub proof fn a_member_is_found_by_its_key(value: &Json, key: &str, out: Option<&Json>)
    requires
        value.well_formed(),
        call_ensures(Json::get, (value, key), out),
    ensures
        !(value is Object) ==> out is None,
        value matches Json::Object(pairs) ==> (out is Some <==> exists|i: int|
            0 <= i < pairs@.len() && (#[trigger] pairs@[i]).0@ == key@),
        value matches Json::Object(pairs) ==> out matches Some(found) ==> exists|i: int|
            0 <= i < pairs@.len() && (#[trigger] pairs@[i]).0@ == key@ && pairs@[i].1@ == found@,
{
    if let Json::Object(pairs) = value {
        lemma_members(pairs@);
        assert(value@ == JsonValue::Object(members(pairs@)));
        if out is Some {
            let i = choose|i: int| 0 <= i < pairs@.len() && (#[trigger] pairs@[i]).0@ == key@;
            assert(pairs@[i].1@ == out->0@);
        }
        if exists|i: int| 0 <= i < pairs@.len() && (#[trigger] pairs@[i]).0@ == key@ {
            let i = choose|i: int| 0 <= i < pairs@.len() && (#[trigger] pairs@[i]).0@ == key@;
            assert(members(pairs@).contains_key(pairs@[i].0@));
        }
    }
}

/// A string gives its text and an array its items, and nothing else does.
pub proof fn a_value_gives_what_it_holds(
    value: &Json,
    text: Option<&str>,
    items: Option<&[Json]>,
    i: int,
)
    requires
        call_ensures(Json::as_str, (value,), text),
        call_ensures(Json::as_array, (value,), items),
    ensures
        text is Some <==> value is String,
        value matches Json::String(s) ==> text->0@ == s@,
        items is Some <==> value is Array,
        value matches Json::Array(held) ==> items->0@.len() == held@.len() && (0 <= i < held@.len()
            ==> items->0@[i]@ == held@[i]@),
{
    if let Json::Array(held) = value {
        lemma_values(held@);
        assert(value@ == JsonValue::Array(values(held@)));
    }
}

} // verus!
