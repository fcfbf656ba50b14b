//! The form of the settings page: reading what a browser sends and turning it
//! into a configuration.

use vstd::prelude::*;
use vstd::slice::*;
use vstd::string::*;
use vstd::utf8::*;
use crate::model::{Config, ConfigView, OfficeNetwork, OfficeNetworkView};
use crate::model::{networks, text_in, texts};
use crate::model::{same_beside_the_form, the_view_tells_configurations_apart};
use crate::text::{chars_of, join, joined, parse_unsigned, same, split_by, text_of, trim, trimmed};
use crate::text::{a_separator_parts_a_text, no_part_holds_a_separator};
use crate::text::{decimal, decimal_is_read_back, lemma_decimal_reads_back, unsigned};
use crate::text::{is_blank, nothing_but_white_space_is_taken_off};
use crate::text::white_space_is_taken_off_the_ends;
use crate::text::{texts_are_joined_in_their_order, without_separators_a_text_is_one_part};

verus! {

// ---------------------------------------------------------------------------
// Percent-encoding
// ---------------------------------------------------------------------------

/// What `String::from_utf8_lossy` makes of bytes.
pub uninterp spec fn lossy_text(bytes: Seq<u8>) -> Seq<char>;

/// `String::from_utf8_lossy` reads bytes as text and puts U+FFFD where they are
/// not valid UTF-8. Valid bytes give the characters that they encode; which
/// runs of invalid bytes share one U+FFFD is left to the name.
#[verifier::external_body]
fn text_from_lossy(bytes: &Vec<u8>) -> (out: String)
    ensures
        out@ == lossy_text(bytes@),
        valid_utf8(bytes@) ==> out@ == decode_utf8(bytes@),
{
    String::from_utf8_lossy(bytes.as_slice()).into_owned()
}

pub open spec fn hex_digit(b: u8) -> Option<u8> {
    if 48 <= b <= 57 {
        Some((b - 48) as u8)
    } else if 97 <= b <= 102 {
        Some((b - 87) as u8)
    } else if 65 <= b <= 70 {
        Some((b - 55) as u8)
    } else {
        None
    }
}

/// The bytes that percent-encoding stands for: a plus is a space, `%` with two
/// hexadecimal digits is one byte, anything else is itself. An unfinished `%`
/// stays as it is.
pub open spec fn percent_decoded(raw: Seq<u8>) -> Seq<u8>
    decreases raw.len(),
{
    if raw.len() == 0 {
        Seq::empty()
    } else if raw[0] == 0x2B {
        seq![0x20u8] + percent_decoded(raw.skip(1))
    } else if raw[0] == 0x25 && raw.len() > 2 && hex_digit(raw[1]) is Some && hex_digit(
        raw[2],
    ) is Some {
        seq![(hex_digit(raw[1])->0 * 16 + hex_digit(raw[2])->0) as u8] + percent_decoded(raw.skip(3))
    } else {
        seq![raw[0]] + percent_decoded(raw.skip(1))
    }
}

/// The text that percent-encoding stands for.
pub open spec fn decoded(raw: Seq<u8>) -> Seq<char> {
    let bytes = percent_decoded(raw);
    if valid_utf8(bytes) {
        decode_utf8(bytes)
    } else {
        lossy_text(bytes)
    }
}

fn hex(b: u8) -> (out: Option<u8>)
    ensures
        out == hex_digit(b),
        out matches Some(d) ==> d < 16,
{
    if 48 <= b && b <= 57 {
        Some(b - 48)
    } else if 97 <= b && b <= 102 {
        Some(b - 97 + 10)
    } else if 65 <= b && b <= 70 {
        Some(b - 65 + 10)
    } else {
        None
    }
}

/// Decodes one name or value. The bytes are put together first and read as
/// text only then: a letter may take several of them.
pub fn decode(raw: &[u8]) -> (out: String)
    ensures
        out@ == decoded(raw@),
{
    let mut bytes: Vec<u8> = Vec::new();
    let mut i: usize = 0;
    assert(raw@.skip(0) =~= raw@);
    assert(Seq::<u8>::empty() + percent_decoded(raw@) =~= percent_decoded(raw@));
    while i < raw.len()
        invariant
            i <= raw@.len(),
            percent_decoded(raw@) == bytes@ + percent_decoded(raw@.skip(i as int)),
        decreases raw.len() - i,
    {
        let ghost rest = raw@.skip(i as int);
        let ghost sofar = bytes@;
        assert(rest[0] == raw@[i as int]);
        assert(rest.skip(1) =~= raw@.skip(i + 1));
        let b: u8 = raw[i];
        let mut step: usize = 1;
        let mut byte: u8 = b;
        if b == 0x2B {
            byte = 0x20;
        } else if b == 0x25 && raw.len() - i > 2 {
            assert(rest[1] == raw@[i + 1]);
            assert(rest[2] == raw@[i + 2]);
            assert(rest.skip(3) =~= raw@.skip(i + 3));
            if let (Some(high), Some(low)) = (hex(raw[i + 1]), hex(raw[i + 2])) {
                byte = high * 16 + low;
                step = 3;
            }
        }
        bytes.push(byte);
        i += step;
        assert(percent_decoded(rest) == seq![byte] + percent_decoded(raw@.skip(i as int)));
        assert(sofar + (seq![byte] + percent_decoded(raw@.skip(i as int))) =~= bytes@
            + percent_decoded(raw@.skip(i as int)));
    }
    assert(raw@.skip(i as int) =~= Seq::<u8>::empty());
    assert(bytes@ =~= percent_decoded(raw@));
    text_from_lossy(&bytes)
}

// ---------------------------------------------------------------------------
// The form
// ---------------------------------------------------------------------------

/// The fields of a form, in the order in which the browser sent them.
///
/// The order is kept because only it ties the name of an office network to its
/// identifier: both come as repeated fields.
#[derive(Debug)]
pub struct Form(Vec<(String, String)>);

impl Default for Form {
    /// A form without fields.
    fn default() -> (out: Self)
        ensures
            out@ == Seq::<(Seq<char>, Seq<char>)>::empty(),
    {
        let out = Form(Vec::new());
        assert(out@ =~= Seq::<(Seq<char>, Seq<char>)>::empty());
        out
    }
}

/// One field: what stands before the first `=` and what stands behind it.
pub open spec fn field_of(chunk: Seq<u8>) -> (Seq<char>, Seq<char>) {
    match chunk.index_of_first(0x3D) {
        Some(i) => (decoded(chunk.take(i)), decoded(chunk.skip(i + 1))),
        None => (decoded(chunk), decoded(Seq::empty())),
    }
}

/// The fields in `chunks`, without the empty ones.
pub open spec fn fields_in(chunks: Seq<Seq<u8>>) -> Seq<(Seq<char>, Seq<char>)>
    decreases chunks.len(),
{
    if chunks.len() == 0 {
        Seq::empty()
    } else {
        let before = fields_in(chunks.drop_last());
        if chunks.last().len() == 0 {
            before
        } else {
            before.push(field_of(chunks.last()))
        }
    }
}

/// The fields of a form body: chunks between `&`.
pub open spec fn form_fields(body: Seq<u8>) -> Seq<(Seq<char>, Seq<char>)> {
    fields_in(split_by(body, |b: u8| b == 0x26))
}

/// The value of the first field with the name `key`.
pub open spec fn first_value(fields: Seq<(Seq<char>, Seq<char>)>, key: Seq<char>) -> Option<
    Seq<char>,
>
    decreases fields.len(),
{
    if fields.len() == 0 {
        None
    } else if fields[0].0 == key {
        Some(fields[0].1)
    } else {
        first_value(fields.drop_first(), key)
    }
}

/// The values of all fields with the name `key`, in order.
pub open spec fn values(fields: Seq<(Seq<char>, Seq<char>)>, key: Seq<char>) -> Seq<Seq<char>>
    decreases fields.len(),
{
    if fields.len() == 0 {
        Seq::empty()
    } else if fields.last().0 == key {
        values(fields.drop_last(), key).push(fields.last().1)
    } else {
        values(fields.drop_last(), key)
    }
}

/// A field with the name `key` is there.
pub open spec fn present(fields: Seq<(Seq<char>, Seq<char>)>, key: Seq<char>) -> bool {
    exists|i: int| 0 <= i < fields.len() && (#[trigger] fields[i]).0 == key
}

impl View for Form {
    type V = Seq<(Seq<char>, Seq<char>)>;

    closed spec fn view(&self) -> Seq<(Seq<char>, Seq<char>)> {
        self.0@.map_values(|p: (String, String)| (p.0@, p.1@))
    }
}

/// The texts that references point to.
pub open spec fn texts_at(v: Seq<&str>) -> Seq<Seq<char>> {
    v.map_values(|s: &str| s@)
}

/// Reads one field.
fn parse_field(chunk: &[u8]) -> (out: (String, String))
    ensures
        (out.0@, out.1@) == field_of(chunk@),
{
    let mut i: usize = 0;
    proof {
        chunk@.index_of_first_ensures(0x3D);
    }
    while i < chunk.len()
        invariant
            i <= chunk@.len(),
            forall|j: int| 0 <= j < i ==> chunk@[j] != 0x3D,
        decreases chunk.len() - i,
    {
        if chunk[i] == 0x3D {
            proof {
                chunk@.index_of_first_ensures(0x3D);
                assert(chunk@.contains(0x3D));
                let k = chunk@.index_of_first(0x3D)->0;
                assert(chunk@[k] == 0x3D);
                assert(k == i);
                assert(chunk@.take(k) == chunk@.subrange(0, i as int));
            }
            return (
                decode(slice_subrange(chunk, 0, i)),
                decode(slice_subrange(chunk, i + 1, chunk.len())),
            );
        }
        i += 1;
    }
    let none: Vec<u8> = Vec::new();
    assert(none@ =~= Seq::<u8>::empty());
    (decode(chunk), decode(none.as_slice()))
}

impl Form {
    /// Reads the body of a request. A field without `=` has an empty value.
    pub fn parse(body: &[u8]) -> (out: Form)
        ensures
            out@ == form_fields(body@),
    {
        let ghost is_and = |b: u8| b == 0x26;
        let mut pairs: Vec<(String, String)> = Vec::new();
        let mut from: usize = 0;
        let mut i: usize = 0;
        let ghost mut done: Seq<Seq<u8>> = Seq::empty();
        let ghost mut fields: Seq<(Seq<char>, Seq<char>)> = Seq::empty();
        assert(body@.take(0) =~= Seq::<u8>::empty());
        assert(done.push(body@.subrange(0, 0)) =~= seq![Seq::empty()]);
        while i < body.len()
            invariant
                from <= i <= body@.len(),
                is_and == (|b: u8| b == 0x26),
                split_by(body@.take(i as int), is_and) == done.push(
                    body@.subrange(from as int, i as int),
                ),
                fields == fields_in(done),
                fields.len() == pairs@.len(),
                forall|k: int|
                    0 <= k < fields.len() ==> fields[k] == ((#[trigger] pairs@[k]).0@, pairs@[k].1@),
            decreases body.len() - i,
        {
            let ghost seen = body@.take(i + 1);
            let ghost part = body@.subrange(from as int, i as int);
            assert(seen.drop_last() =~= body@.take(i as int));
            assert(seen.last() == body@[i as int]);
            assert(done.push(part).drop_last() =~= done);
            if body[i] == 0x26 {
                proof {
                    done = done.push(part);
                    assert(fields_in(done) == if part.len() == 0 {
                        fields
                    } else {
                        fields.push(field_of(part))
                    });
                }
                if from < i {
                    pairs.push(parse_field(slice_subrange(body, from, i)));
                    proof {
                        fields = fields.push(field_of(part));
                    }
                }
                from = i + 1;
                assert(body@.subrange(from as int, i + 1) =~= Seq::<u8>::empty());
            } else {
                assert(part.push(body@[i as int]) =~= body@.subrange(from as int, i + 1));
            }
            i += 1;
        }
        let ghost part = body@.subrange(from as int, i as int);
        assert(body@.take(i as int) =~= body@);
        assert(done.push(part).drop_last() =~= done);
        if from < i {
            pairs.push(parse_field(slice_subrange(body, from, i)));
            proof {
                fields = fields.push(field_of(part));
            }
        }
        assert(fields == form_fields(body@));
        let out = Form(pairs);
        assert(out@ =~= fields);
        out
    }

    /// The value of the first field with this name.
    pub fn get(&self, key: &str) -> (out: Option<&str>)
        ensures
            match out {
                Some(value) => first_value(self@, key@) == Some(value@),
                None => first_value(self@, key@) is None,
            },
    {
        let mut i: usize = 0;
        assert(self@.skip(0) =~= self@);
        while i < self.0.len()
            invariant
                i <= self.0@.len(),
                first_value(self@, key@) == first_value(self@.skip(i as int), key@),
            decreases self.0.len() - i,
        {
            let ghost rest = self@.skip(i as int);
            assert(rest[0] == (self.0@[i as int].0@, self.0@[i as int].1@));
            assert(rest.drop_first() =~= self@.skip(i + 1));
            if same(self.0[i].0.as_str(), key) {
                return Some(self.0[i].1.as_str());
            }
            i += 1;
        }
        None
    }

    /// The values of all fields with this name, in order.
    pub fn all(&self, key: &str) -> (out: Vec<&str>)
        ensures
            texts_at(out@) == values(self@, key@),
    {
        let mut out: Vec<&str> = Vec::new();
        let mut i: usize = 0;
        assert(self@.take(0) =~= Seq::empty());
        assert(texts_at(out@) =~= Seq::empty());
        while i < self.0.len()
            invariant
                i <= self.0@.len(),
                texts_at(out@) == values(self@.take(i as int), key@),
            decreases self.0.len() - i,
        {
            let ghost seen = self@.take(i + 1);
            let ghost sofar = out@;
            assert(seen.last() == (self.0@[i as int].0@, self.0@[i as int].1@));
            assert(seen.drop_last() =~= self@.take(i as int));
            if same(self.0[i].0.as_str(), key) {
                out.push(self.0[i].1.as_str());
                assert(texts_at(out@) =~= texts_at(sofar).push(self.0@[i as int].1@));
            }
            i += 1;
        }
        assert(self@.take(i as int) =~= self@);
        out
    }

    /// A browser sends a checkbox only when it is ticked, so that "ticked" is
    /// "present".
    pub fn checked(&self, key: &str) -> (out: bool)
        ensures
            out == present(self@, key@),
    {
        let mut i: usize = 0;
        while i < self.0.len()
            invariant
                i <= self.0@.len(),
                forall|j: int| 0 <= j < i ==> (#[trigger] self@[j]).0 != key@,
            decreases self.0.len() - i,
        {
            assert(self@[i as int] == (self.0@[i as int].0@, self.0@[i as int].1@));
            if same(self.0[i].0.as_str(), key) {
                return true;
            }
            i += 1;
        }
        false
    }
}

// ---------------------------------------------------------------------------
// The configuration in the form
// ---------------------------------------------------------------------------

pub open spec fn or_empty(o: Option<Seq<char>>) -> Seq<char> {
    match o {
        Some(s) => s,
        None => Seq::empty(),
    }
}

/// An empty field means "not set".
pub open spec fn optional_text(value: Option<Seq<char>>) -> Option<Seq<char>> {
    let text = trimmed(or_empty(value));
    if text.len() == 0 {
        None
    } else {
        Some(text)
    }
}

/// What parts the entries of the bypass list: people write one per line.
pub open spec fn parts_bypass(c: char) -> bool {
    c == ',' || c == '\n' || c == '\r' || c == ' ' || c == '\t'
}

/// The parts without white space around them, and without the empty ones.
pub open spec fn entries(parts: Seq<Seq<char>>) -> Seq<Seq<char>>
    decreases parts.len(),
{
    if parts.len() == 0 {
        Seq::empty()
    } else {
        let before = entries(parts.drop_last());
        let entry = trimmed(parts.last());
        if entry.len() == 0 {
            before
        } else {
            before.push(entry)
        }
    }
}

/// The bypass list with commas between its entries.
pub open spec fn bypass_list(raw: Seq<char>) -> Seq<char> {
    joined(entries(split_by(raw, |c: char| parts_bypass(c))), ","@)
}

/// The office networks in the first `n` rows: rows without an identifier are
/// left out, and the name of a row is the one at the same place.
pub open spec fn office_rows(ids: Seq<Seq<char>>, names: Seq<Seq<char>>, n: nat) -> Seq<
    OfficeNetworkView,
>
    decreases n,
{
    if n == 0 {
        Seq::empty()
    } else {
        let i = n - 1;
        let before = office_rows(ids, names, i as nat);
        let id = trimmed(ids[i]);
        if id.len() == 0 {
            before
        } else {
            before.push(
                OfficeNetworkView {
                    id,
                    name: if i < names.len() {
                        trimmed(names[i])
                    } else {
                        Seq::empty()
                    },
                },
            )
        }
    }
}

/// The configuration that a form asks for, on top of `base`.
pub open spec fn form_config(base: ConfigView, fields: Seq<(Seq<char>, Seq<char>)>) -> Result<
    ConfigView,
    Seq<char>,
> {
    let port = trimmed(or_empty(first_value(fields, "bridge_port"@)));
    let ids = values(fields, "office_id"@);
    match unsigned(port, 65535) {
        None => Err("порт моста «"@ + port + "»: нужно целое число от 1 до 65535"@),
        Some(n) => Ok(
            ConfigView {
                bridge_port: n as u16,
                socks_upstream: optional_text(first_value(fields, "socks_upstream"@)),
                http_upstream: optional_text(first_value(fields, "http_upstream"@)),
                no_proxy: bypass_list(or_empty(first_value(fields, "no_proxy"@))),
                manage_system_proxy: present(fields, "manage_system_proxy"@),
                office_networks: office_rows(ids, values(fields, "office_name"@), ids.len()),
                automate_tunnel: present(fields, "automate_tunnel"@),
                ..base
            },
        ),
    }
}

fn value_or_empty<'a>(form: &'a Form, key: &str) -> (out: &'a str)
    ensures
        out@ == or_empty(first_value(form@, key@)),
{
    match form.get(key) {
        Some(value) => value,
        None => {
            proof {
                reveal_strlit("");
            }
            assert(""@ =~= Seq::<char>::empty());
            ""
        },
    }
}

fn optional(form: &Form, key: &str) -> (out: Option<String>)
    ensures
        text_in(out) == optional_text(first_value(form@, key@)),
{
    let text = trim(value_or_empty(form, key));
    if text.as_str().is_empty() {
        None
    } else {
        Some(text)
    }
}

/// Puts the bypass list into the form with commas that the rest of the program
/// reads.
fn normalise_bypass(raw: &str) -> (out: String)
    ensures
        out@ == bypass_list(raw@),
{
    let ghost parts = |c: char| parts_bypass(c);
    let chars = chars_of(raw);
    let mut found: Vec<String> = Vec::new();
    let mut from: usize = 0;
    let mut i: usize = 0;
    let ghost mut done: Seq<Seq<char>> = Seq::empty();
    assert(raw@.take(0) =~= Seq::<char>::empty());
    assert(done.push(raw@.subrange(0, 0)) =~= seq![Seq::empty()]);
    assert(texts(found@) =~= Seq::empty());
    while i < chars.len()
        invariant
            from <= i <= chars@.len(),
            chars@ == raw@,
            parts == (|c: char| parts_bypass(c)),
            split_by(raw@.take(i as int), parts) == done.push(
                raw@.subrange(from as int, i as int),
            ),
            texts(found@) == entries(done),
        decreases chars.len() - i,
    {
        let ghost seen = raw@.take(i + 1);
        let ghost part = raw@.subrange(from as int, i as int);
        assert(seen.drop_last() =~= raw@.take(i as int));
        assert(seen.last() == raw@[i as int]);
        assert(done.push(part).drop_last() =~= done);
        let c = chars[i];
        if c == ',' || c == '\n' || c == '\r' || c == ' ' || c == '\t' {
            add_entry(&mut found, &chars, from, i);
            proof {
                done = done.push(part);
            }
            from = i + 1;
            assert(raw@.subrange(from as int, i + 1) =~= Seq::<char>::empty());
        } else {
            assert(part.push(raw@[i as int]) =~= raw@.subrange(from as int, i + 1));
        }
        i += 1;
    }
    assert(raw@.take(i as int) =~= raw@);
    assert(done.push(raw@.subrange(from as int, i as int)).drop_last() =~= done);
    add_entry(&mut found, &chars, from, i);
    join(&found, ",")
}

/// Adds the entry between `from` and `to`, unless it is empty.
fn add_entry(found: &mut Vec<String>, chars: &Vec<char>, from: usize, to: usize)
    requires
        from <= to <= chars@.len(),
    ensures
        ({
            let entry = trimmed(chars@.subrange(from as int, to as int));
            texts(final(found)@) == if entry.len() == 0 {
                texts(old(found)@)
            } else {
                texts(old(found)@).push(entry)
            }
        }),
{
    let entry = trim(text_of(chars, from, to).as_str());
    if !entry.as_str().is_empty() {
        let ghost before = found@;
        found.push(entry);
        assert(texts(found@) =~= texts(before).push(entry@));
    }
}

/// The office networks that the form lists.
fn offices_from_form(form: &Form) -> (out: Vec<OfficeNetwork>)
    ensures
        networks(out@) == office_rows(
            values(form@, "office_id"@),
            values(form@, "office_name"@),
            values(form@, "office_id"@).len(),
        ),
{
    let ids = form.all("office_id");
    let names = form.all("office_name");
    let ghost id_texts = values(form@, "office_id"@);
    let ghost name_texts = values(form@, "office_name"@);
    assert(id_texts.len() == ids@.len());
    assert(name_texts.len() == names@.len());
    let mut out: Vec<OfficeNetwork> = Vec::new();
    let mut i: usize = 0;
    assert(networks(out@) =~= Seq::empty());
    while i < ids.len()
        invariant
            i <= ids@.len(),
            id_texts == texts_at(ids@),
            name_texts == texts_at(names@),
            networks(out@) == office_rows(id_texts, name_texts, i as nat),
        decreases ids.len() - i,
    {
        assert(id_texts[i as int] == ids@[i as int]@);
        let id = trim(ids[i]);
        if !id.as_str().is_empty() {
            let name = if i < names.len() {
                assert(name_texts[i as int] == names@[i as int]@);
                trim(names[i])
            } else {
                String::new()
            };
            let ghost before = out@;
            let row = OfficeNetwork { id, name };
            out.push(row);
            assert(networks(out@) =~= networks(before).push(row@));
        }
        i += 1;
    }
    out
}

/// The configuration that the form asks for, on top of the current one.
///
/// Only the text is read here. Whether the values make sense is for the
/// configuration itself to say.
pub fn config_from_form(base: &Config, form: &Form) -> (out: Result<Config, String>)
    ensures
        match (out, form_config(base@, form@)) {
            (Ok(config), Ok(c)) => config@ == c,
            (Err(message), Err(m)) => message@ == m,
            _ => false,
        },
{
    let raw_port = trim(value_or_empty(form, "bridge_port"));
    match parse_unsigned(raw_port.as_str(), 65535) {
        None => {
            let mut message = "порт моста «".to_owned();
            message.append(raw_port.as_str());
            message.append("»: нужно целое число от 1 до 65535");
            Err(message)
        },
        Some(port) => {
            let mut config = base.clone();
            config.bridge_port = port as u16;
            config.socks_upstream = optional(form, "socks_upstream");
            config.http_upstream = optional(form, "http_upstream");
            config.no_proxy = normalise_bypass(value_or_empty(form, "no_proxy"));
            config.manage_system_proxy = form.checked("manage_system_proxy");
            config.office_networks = offices_from_form(form);
            config.automate_tunnel = form.checked("automate_tunnel");
            Ok(config)
        },
    }
}

// ---------------------------------------------------------------------------
// Laws
// ---------------------------------------------------------------------------

/// Whatever a form holds, it changes only the fields that it owns: the mode,
/// the saved settings of the system, the subnets, the update check, the limits
/// and the timeouts stay.
pub proof fn the_form_keeps_the_fields_it_does_not_own(
    base: ConfigView,
    fields: Seq<(Seq<char>, Seq<char>)>,
)
    ensures
        form_config(base, fields) matches Ok(next) ==> {
            &&& next.mode == base.mode
            &&& next.saved_sysproxy == base.saved_sysproxy
            &&& next.office_subnets == base.office_subnets
            &&& next.check_for_updates == base.check_for_updates
            &&& next.max_connections == base.max_connections
            &&& next.dial_timeout_ms == base.dial_timeout_ms
            &&& next.head_timeout_ms == base.head_timeout_ms
        },
{
}

/// The values of a repeated field come in the order in which they were sent.
pub proof fn repeated_fields_keep_their_order(
    first: Seq<(Seq<char>, Seq<char>)>,
    second: Seq<(Seq<char>, Seq<char>)>,
    key: Seq<char>,
)
    ensures
        values(first + second, key) == values(first, key) + values(second, key),
    decreases second.len(),
{
    if second.len() == 0 {
        assert(first + second =~= first);
        assert(values(first, key) + values(second, key) =~= values(first, key));
    } else {
        assert((first + second).drop_last() =~= first + second.drop_last());
        repeated_fields_keep_their_order(first, second.drop_last(), key);
        assert(values(first + second, key) =~= values(first, key) + values(second, key));
    }
}

/// No office network comes out of the form without an identifier.
pub proof fn rows_without_an_identifier_are_dropped(
    ids: Seq<Seq<char>>,
    names: Seq<Seq<char>>,
    n: nat,
)
    ensures
        forall|i: int|
            0 <= i < office_rows(ids, names, n).len() ==> (#[trigger] office_rows(
                ids,
                names,
                n,
            )[i]).id.len() > 0,
    decreases n,
{
    if n > 0 {
        rows_without_an_identifier_are_dropped(ids, names, (n - 1) as nat);
        let before = office_rows(ids, names, (n - 1) as nat);
        let rows = office_rows(ids, names, n);
        assert forall|i: int| 0 <= i < rows.len() implies (#[trigger] rows[i]).id.len() > 0 by {
            if i < before.len() {
                assert(before[i].id.len() > 0);
            }
        }
    }
}

/// The rows of the table of office networks, as a browser sends them.
pub open spec fn rows_sent(list: Seq<OfficeNetworkView>) -> Seq<(Seq<char>, Seq<char>)>
    decreases list.len(),
{
    if list.len() == 0 {
        Seq::empty()
    } else {
        rows_sent(list.drop_last()) + seq![
            ("office_id"@, list.last().id),
            ("office_name"@, list.last().name),
        ]
    }
}

/// A checkbox, as a browser sends it.
pub open spec fn box_sent(name: Seq<char>, ticked: bool) -> Seq<(Seq<char>, Seq<char>)> {
    if ticked {
        seq![(name, "on"@)]
    } else {
        Seq::empty()
    }
}

/// What a browser sends of a page that shows this configuration, on which nobody
/// has changed anything before pressing the button that saves.
pub open spec fn sent_untouched(cfg: ConfigView, autostart: bool) -> Seq<
    (Seq<char>, Seq<char>),
> {
    seq![
        ("socks_upstream"@, or_empty(cfg.socks_upstream)),
        ("http_upstream"@, or_empty(cfg.http_upstream)),
        ("bridge_port"@, decimal(cfg.bridge_port as nat)),
    ] + rows_sent(cfg.office_networks) + seq![
        ("office_id"@, Seq::empty()),
        ("office_name"@, Seq::empty()),
    ] + box_sent("automate_tunnel"@, cfg.automate_tunnel) + seq![("no_proxy"@, cfg.no_proxy)]
        + box_sent("manage_system_proxy"@, cfg.manage_system_proxy) + box_sent(
        "autostart"@,
        autostart,
    ) + seq![("action"@, "save"@)]
}

/// The texts of a configuration are as a form leaves them: without white space
/// around them, upstreams set or absent, office networks with an identifier, the
/// bypass list with commas.
pub open spec fn is_tidy(cfg: ConfigView) -> bool {
    &&& optional_text(cfg.socks_upstream) == cfg.socks_upstream
    &&& optional_text(cfg.http_upstream) == cfg.http_upstream
    &&& bypass_list(cfg.no_proxy) == cfg.no_proxy
    &&& forall|i: int|
        0 <= i < cfg.office_networks.len() ==> {
            let row = #[trigger] cfg.office_networks[i];
            row.id.len() > 0 && trimmed(row.id) == row.id && trimmed(row.name) == row.name
        }
}

proof fn lemma_first_of_both(
    a: Seq<(Seq<char>, Seq<char>)>,
    b: Seq<(Seq<char>, Seq<char>)>,
    key: Seq<char>,
)
    ensures
        first_value(a + b, key) == (if first_value(a, key) is Some {
            first_value(a, key)
        } else {
            first_value(b, key)
        }),
    decreases a.len(),
{
    if a.len() == 0 {
        assert(a + b =~= b);
    } else {
        assert((a + b)[0] == a[0]);
        assert((a + b).drop_first() =~= a.drop_first() + b);
        lemma_first_of_both(a.drop_first(), b, key);
    }
}

proof fn lemma_present_in_both(
    a: Seq<(Seq<char>, Seq<char>)>,
    b: Seq<(Seq<char>, Seq<char>)>,
    key: Seq<char>,
)
    ensures
        present(a + b, key) == (present(a, key) || present(b, key)),
{
    if present(a, key) {
        let i = choose|i: int| 0 <= i < a.len() && (#[trigger] a[i]).0 == key;
        assert((a + b)[i].0 == key);
    }
    if present(b, key) {
        let i = choose|i: int| 0 <= i < b.len() && (#[trigger] b[i]).0 == key;
        assert((a + b)[a.len() + i].0 == key);
    }
    if present(a + b, key) {
        let i = choose|i: int| 0 <= i < (a + b).len() && (#[trigger] (a + b)[i]).0 == key;
        if i < a.len() {
            assert(a[i].0 == key);
        } else {
            assert(b[i - a.len()].0 == key);
        }
    }
}

/// What the fields say under a name, put together from two parts.
proof fn lemma_both(
    a: Seq<(Seq<char>, Seq<char>)>,
    b: Seq<(Seq<char>, Seq<char>)>,
    key: Seq<char>,
)
    ensures
        first_value(a + b, key) == (if first_value(a, key) is Some {
            first_value(a, key)
        } else {
            first_value(b, key)
        }),
        present(a + b, key) == (present(a, key) || present(b, key)),
        values(a + b, key) == values(a, key) + values(b, key),
{
    lemma_first_of_both(a, b, key);
    lemma_present_in_both(a, b, key);
    repeated_fields_keep_their_order(a, b, key);
}

/// What one field says under a name.
proof fn lemma_one(name: Seq<char>, value: Seq<char>, key: Seq<char>)
    ensures
        first_value(seq![(name, value)], key) == (if name == key {
            Some(value)
        } else {
            None
        }),
        present(seq![(name, value)], key) == (name == key),
        values(seq![(name, value)], key) == (if name == key {
            seq![value]
        } else {
            Seq::empty()
        }),
{
    let one = seq![(name, value)];
    assert(one[0].0 == name);
    assert(one.drop_first() =~= Seq::empty());
    assert(one.drop_last() =~= Seq::empty());
    assert(first_value(one.drop_first(), key) is None);
    assert(values(one.drop_last(), key) =~= Seq::empty());
    assert(Seq::<Seq<char>>::empty().push(value) =~= seq![value]);
}

/// What nothing says under a name.
proof fn lemma_none(key: Seq<char>)
    ensures
        first_value(Seq::empty(), key) is None,
        !present(Seq::empty(), key),
        values(Seq::empty(), key) == Seq::<Seq<char>>::empty(),
{
}

/// What a row says under a name.
proof fn lemma_row(id: Seq<char>, name: Seq<char>, key: Seq<char>)
    ensures
        ({
            let row = seq![("office_id"@, id), ("office_name"@, name)];
            &&& key != "office_id"@ && key != "office_name"@ ==> first_value(row, key) is None
                && !present(row, key)
            &&& values(row, "office_id"@) == seq![id]
            &&& values(row, "office_name"@) == seq![name]
        }),
{
    lemma_field_names_differ();
    let row = seq![("office_id"@, id), ("office_name"@, name)];
    let (first, second) = (seq![("office_id"@, id)], seq![("office_name"@, name)]);
    assert(row =~= first + second);
    lemma_both(first, second, key);
    lemma_one("office_id"@, id, key);
    lemma_one("office_name"@, name, key);
    lemma_both(first, second, "office_id"@);
    lemma_one("office_id"@, id, "office_id"@);
    lemma_one("office_name"@, name, "office_id"@);
    assert(seq![id] + Seq::<Seq<char>>::empty() =~= seq![id]);
    lemma_both(first, second, "office_name"@);
    lemma_one("office_id"@, id, "office_name"@);
    lemma_one("office_name"@, name, "office_name"@);
    assert(Seq::<Seq<char>>::empty() + seq![name] =~= seq![name]);
}

/// No two fields of the form share a name.
proof fn lemma_field_names_differ()
    ensures
        ({
            let names = seq![
                "socks_upstream"@,
                "http_upstream"@,
                "bridge_port"@,
                "office_id"@,
                "office_name"@,
                "automate_tunnel"@,
                "no_proxy"@,
                "manage_system_proxy"@,
                "autostart"@,
                "action"@,
            ];
            forall|i: int, j: int|
                0 <= i < j < names.len() ==> #[trigger] names[i] != #[trigger] names[j]
        }),
        "office_id"@ != "office_name"@,
{
    reveal_strlit("socks_upstream");
    reveal_strlit("http_upstream");
    reveal_strlit("bridge_port");
    reveal_strlit("office_id");
    reveal_strlit("office_name");
    reveal_strlit("automate_tunnel");
    reveal_strlit("no_proxy");
    reveal_strlit("manage_system_proxy");
    reveal_strlit("autostart");
    reveal_strlit("action");
    assert("socks_upstream"@.len() == 14);
    assert("http_upstream"@.len() == 13);
    assert("bridge_port"@.len() == 11);
    assert("office_id"@.len() == 9);
    assert("office_name"@.len() == 11);
    assert("automate_tunnel"@.len() == 15);
    assert("no_proxy"@.len() == 8);
    assert("manage_system_proxy"@.len() == 19);
    assert("autostart"@.len() == 9);
    assert("action"@.len() == 6);
    assert("office_id"@[0] == 'o' && "autostart"@[0] == 'a');
    assert("bridge_port"@[0] == 'b' && "office_name"@[0] == 'o');
}

proof fn lemma_rows_sent(list: Seq<OfficeNetworkView>, key: Seq<char>)
    ensures
        key != "office_id"@ && key != "office_name"@ ==> first_value(rows_sent(list), key) is None
            && !present(rows_sent(list), key),
        values(rows_sent(list), "office_id"@) == list.map_values(|row: OfficeNetworkView| row.id),
        values(rows_sent(list), "office_name"@) == list.map_values(
            |row: OfficeNetworkView| row.name,
        ),
    decreases list.len(),
{
    let ids = list.map_values(|row: OfficeNetworkView| row.id);
    let names = list.map_values(|row: OfficeNetworkView| row.name);
    if list.len() == 0 {
        assert(values(rows_sent(list), "office_id"@) =~= ids);
        assert(values(rows_sent(list), "office_name"@) =~= names);
    } else {
        let before = rows_sent(list.drop_last());
        let last = list.last();
        let row = seq![("office_id"@, last.id), ("office_name"@, last.name)];
        lemma_rows_sent(list.drop_last(), key);
        lemma_row(last.id, last.name, key);
        lemma_both(before, row, key);
        lemma_both(before, row, "office_id"@);
        lemma_both(before, row, "office_name"@);
        assert(values(before, "office_id"@) + seq![last.id] =~= ids);
        assert(values(before, "office_name"@) + seq![last.name] =~= names);
    }
}

proof fn lemma_rows_read(
    list: Seq<OfficeNetworkView>,
    ids: Seq<Seq<char>>,
    names: Seq<Seq<char>>,
    n: nat,
)
    requires
        n <= list.len() <= ids.len(),
        ids.len() == names.len(),
        forall|i: int|
            0 <= i < list.len() ==> {
                let row = #[trigger] list[i];
                &&& row.id.len() > 0 && trimmed(row.id) == row.id && trimmed(row.name) == row.name
                &&& ids[i] == row.id
                &&& names[i] == row.name
            },
    ensures
        office_rows(ids, names, n) == list.take(n as int),
    decreases n,
{
    if n > 0 {
        lemma_rows_read(list, ids, names, (n - 1) as nat);
        let row = list[n - 1];
        assert(ids[n - 1] == row.id);
        assert(office_rows(ids, names, n) =~= list.take(n - 1).push(row));
        assert(list.take(n as int) =~= list.take(n - 1).push(row));
    } else {
        assert(office_rows(ids, names, n) =~= list.take(0));
    }
}

/// What the untouched form says under each name that is read.
proof fn lemma_untouched(cfg: ConfigView, autostart: bool, key: Seq<char>)
    ensures
        ({
            let fields = sent_untouched(cfg, autostart);
            &&& key == "socks_upstream"@ ==> first_value(fields, key) == Some(
                or_empty(cfg.socks_upstream),
            )
            &&& key == "http_upstream"@ ==> first_value(fields, key) == Some(
                or_empty(cfg.http_upstream),
            )
            &&& key == "bridge_port"@ ==> first_value(fields, key) == Some(
                decimal(cfg.bridge_port as nat),
            )
            &&& key == "no_proxy"@ ==> first_value(fields, key) == Some(cfg.no_proxy)
            &&& key == "automate_tunnel"@ ==> present(fields, key) == cfg.automate_tunnel
            &&& key == "manage_system_proxy"@ ==> present(fields, key) == cfg.manage_system_proxy
            &&& key == "office_id"@ ==> values(fields, key) == cfg.office_networks.map_values(
                |row: OfficeNetworkView| row.id,
            ).push(Seq::empty())
            &&& key == "office_name"@ ==> values(fields, key) == cfg.office_networks.map_values(
                |row: OfficeNetworkView| row.name,
            ).push(Seq::empty())
        }),
{
    let names = seq![
        "socks_upstream"@,
        "http_upstream"@,
        "bridge_port"@,
        "office_id"@,
        "office_name"@,
        "automate_tunnel"@,
        "no_proxy"@,
        "manage_system_proxy"@,
        "autostart"@,
        "action"@,
    ];
    lemma_field_names_differ();
    assert(names[0] == "socks_upstream"@ && names[1] == "http_upstream"@ && names[2]
        == "bridge_port"@ && names[3] == "office_id"@ && names[4] == "office_name"@ && names[5]
        == "automate_tunnel"@ && names[6] == "no_proxy"@ && names[7] == "manage_system_proxy"@
        && names[8] == "autostart"@ && names[9] == "action"@);
    let (socks, http) = (or_empty(cfg.socks_upstream), or_empty(cfg.http_upstream));
    let port = decimal(cfg.bridge_port as nat);
    let first = seq![("socks_upstream"@, socks)];
    let second = seq![("http_upstream"@, http)];
    let third = seq![("bridge_port"@, port)];
    let head = seq![("socks_upstream"@, socks), ("http_upstream"@, http), ("bridge_port"@, port)];
    assert(head =~= first + second + third);
    let rows = rows_sent(cfg.office_networks);
    let empty_row = seq![
        ("office_id"@, Seq::<char>::empty()),
        ("office_name"@, Seq::<char>::empty()),
    ];
    let automate = box_sent("automate_tunnel"@, cfg.automate_tunnel);
    let bypass = seq![("no_proxy"@, cfg.no_proxy)];
    let manage = box_sent("manage_system_proxy"@, cfg.manage_system_proxy);
    lemma_one("socks_upstream"@, socks, key);
    lemma_one("http_upstream"@, http, key);
    lemma_one("bridge_port"@, port, key);
    lemma_both(first, second, key);
    lemma_both(first + second, third, key);
    lemma_rows_sent(cfg.office_networks, key);
    lemma_both(head, rows, key);
    lemma_row(Seq::empty(), Seq::empty(), key);
    lemma_both(head + rows, empty_row, key);
    lemma_one("automate_tunnel"@, "on"@, key);
    lemma_none(key);
    lemma_both(head + rows + empty_row, automate, key);
    lemma_one("no_proxy"@, cfg.no_proxy, key);
    lemma_both(head + rows + empty_row + automate, bypass, key);
    lemma_one("manage_system_proxy"@, "on"@, key);
    lemma_both(head + rows + empty_row + automate + bypass, manage, key);
    let start = box_sent("autostart"@, autostart);
    lemma_one("autostart"@, "on"@, key);
    lemma_both(head + rows + empty_row + automate + bypass + manage, start, key);
    lemma_one("action"@, "save"@, key);
    lemma_both(
        head + rows + empty_row + automate + bypass + manage + start,
        seq![("action"@, "save"@)],
        key,
    );
    if key == "office_id"@ {
        assert(values(sent_untouched(cfg, autostart), key) =~= cfg.office_networks.map_values(
            |row: OfficeNetworkView| row.id,
        ).push(Seq::empty()));
    }
    if key == "office_name"@ {
        assert(values(sent_untouched(cfg, autostart), key) =~= cfg.office_networks.map_values(
            |row: OfficeNetworkView| row.name,
        ).push(Seq::empty()));
    }
}

/// Saving a page that nobody has touched changes nothing: where the texts of a
/// configuration are as a form leaves them, what comes back is that
/// configuration.
pub proof fn saving_an_untouched_page_changes_nothing(cfg: ConfigView, autostart: bool)
    requires
        is_tidy(cfg),
    ensures
        form_config(cfg, sent_untouched(cfg, autostart)) == Ok::<ConfigView, Seq<char>>(cfg),
{
    let fields = sent_untouched(cfg, autostart);
    lemma_untouched(cfg, autostart, "socks_upstream"@);
    lemma_untouched(cfg, autostart, "http_upstream"@);
    lemma_untouched(cfg, autostart, "bridge_port"@);
    lemma_untouched(cfg, autostart, "no_proxy"@);
    lemma_untouched(cfg, autostart, "automate_tunnel"@);
    lemma_untouched(cfg, autostart, "manage_system_proxy"@);
    lemma_untouched(cfg, autostart, "office_id"@);
    lemma_untouched(cfg, autostart, "office_name"@);
    let port = decimal(cfg.bridge_port as nat);
    lemma_decimal_reads_back(cfg.bridge_port as nat);
    decimal_is_read_back(cfg.bridge_port as nat, 65535);
    assert(trimmed(port) == port);
    let ids = values(fields, "office_id"@);
    let names = values(fields, "office_name"@);
    let n = cfg.office_networks.len();
    assert(ids.len() == n + 1 && names.len() == n + 1);
    lemma_rows_read(cfg.office_networks, ids, names, n);
    assert(cfg.office_networks.take(n as int) =~= cfg.office_networks);
    assert(ids[n as int] == Seq::<char>::empty());
    assert(trimmed(Seq::<char>::empty()) =~= Seq::<char>::empty());
    assert(office_rows(ids, names, (n + 1) as nat) == cfg.office_networks);
    assert(optional_text(Some(or_empty(cfg.socks_upstream))) == cfg.socks_upstream);
    assert(optional_text(Some(or_empty(cfg.http_upstream))) == cfg.http_upstream);
}

/// The hexadecimal digit of a number below 16.
pub open spec fn hex_letter(n: u8, upper: bool) -> u8 {
    if n < 10 {
        (48 + n) as u8
    } else if upper {
        (55 + n) as u8
    } else {
        (87 + n) as u8
    }
}

/// The bytes, each written as `%` and two hexadecimal digits.
pub open spec fn percent_encoded(bytes: Seq<u8>, upper: bool) -> Seq<u8>
    decreases bytes.len(),
{
    if bytes.len() == 0 {
        Seq::empty()
    } else {
        seq![0x25u8, hex_letter(bytes[0] / 16, upper), hex_letter(bytes[0] % 16, upper)]
            + percent_encoded(bytes.skip(1), upper)
    }
}

proof fn lemma_percent_read_back(bytes: Seq<u8>, upper: bool)
    ensures
        percent_decoded(percent_encoded(bytes, upper)) == bytes,
    decreases bytes.len(),
{
    let raw = percent_encoded(bytes, upper);
    if bytes.len() > 0 {
        let rest = percent_encoded(bytes.skip(1), upper);
        lemma_percent_read_back(bytes.skip(1), upper);
        assert(raw.skip(3) =~= rest);
        let (high, low) = (bytes[0] / 16, bytes[0] % 16);
        assert(raw[1] == hex_letter(high, upper) && raw[2] == hex_letter(low, upper));
        assert(hex_digit(raw[1]) == Some(high) && hex_digit(raw[2]) == Some(low));
        assert(percent_decoded(raw) =~= seq![bytes[0]] + bytes.skip(1));
        assert(seq![bytes[0]] + bytes.skip(1) =~= bytes);
    } else {
        assert(percent_decoded(raw) =~= bytes);
    }
}

/// A text whose every byte is written as `%` and two hexadecimal digits, in
/// either case, is read back as it is.
pub proof fn an_encoded_text_is_read_back(text: Seq<char>, upper: bool)
    ensures
        decoded(percent_encoded(encode_utf8(text), upper)) == text,
{
    lemma_percent_read_back(encode_utf8(text), upper);
    encode_utf8_valid_utf8(text);
    encode_utf8_decode_utf8(text);
}

// ---------------------------------------------------------------------------
// Laws of the bypass list
// ---------------------------------------------------------------------------

/// The characters that part the entries of a bypass list.
pub open spec fn between_entries() -> Seq<char> {
    seq![',', '\n', '\r', ' ', '\t']
}

proof fn lemma_between_entries()
    ensures
        forall|c: char| #[trigger] parts_bypass(c) <==> between_entries().contains(c),
{
    let all = between_entries();
    assert(all[0] == ',' && all[1] == '\n' && all[2] == '\r' && all[3] == ' ' && all[4] == '\t');
    assert forall|c: char| #[trigger] parts_bypass(c) <==> all.contains(c) by {
        if all.contains(c) {
            let i = choose|i: int| 0 <= i < all.len() && all[i] == c;
            assert(0 <= i < 5);
        }
    }
}

proof fn lemma_entries_of_both(a: Seq<Seq<char>>, b: Seq<Seq<char>>)
    ensures
        entries(a + b) == entries(a) + entries(b),
    decreases b.len(),
{
    if b.len() == 0 {
        assert(a + b =~= a);
        assert(entries(a) + entries(b) =~= entries(a));
    } else {
        assert((a + b).drop_last() =~= a + b.drop_last());
        assert((a + b).last() == b.last());
        lemma_entries_of_both(a, b.drop_last());
        assert(entries(a + b) =~= entries(a) + entries(b));
    }
}

proof fn lemma_joined_of_both(a: Seq<Seq<char>>, b: Seq<Seq<char>>, between: Seq<char>)
    requires
        a.len() > 0,
        b.len() > 0,
    ensures
        joined(a + b, between) == joined(a, between) + between + joined(b, between),
    decreases b.len(),
{
    let rest = b.drop_last();
    let ab = a + rest;
    assert((a + b) =~= ab.push(b.last()));
    assert(b =~= rest.push(b.last()));
    texts_are_joined_in_their_order(ab, b.last(), between);
    texts_are_joined_in_their_order(rest, b.last(), between);
    if rest.len() == 0 {
        assert(ab =~= a);
        assert(b =~= seq![b.last()]);
    } else {
        lemma_joined_of_both(a, rest, between);
        assert(joined(a + b, between) =~= joined(a, between) + between + joined(b, between));
    }
}

/// Every character of a trimmed text stands in the text.
proof fn lemma_trimmed_is_within(s: Seq<char>, i: int)
    requires
        0 <= i < trimmed(s).len(),
    ensures
        s.contains(trimmed(s)[i]),
{
    let (a, b) = nothing_but_white_space_is_taken_off(s);
    assert(trimmed(s)[i] == s[a.len() + i]);
}

proof fn lemma_entries_are_clean(parts: Seq<Seq<char>>)
    requires
        forall|i: int, j: int|
            0 <= i < parts.len() && 0 <= j < parts[i].len() ==> !parts_bypass(
                #[trigger] parts[i][j],
            ),
    ensures
        forall|i: int| 0 <= i < entries(parts).len() ==> (#[trigger] entries(parts)[i]).len() > 0,
        forall|i: int, j: int|
            0 <= i < entries(parts).len() && 0 <= j < entries(parts)[i].len() ==> !parts_bypass(
                #[trigger] entries(parts)[i][j],
            ),
    decreases parts.len(),
{
    if parts.len() > 0 {
        let before = parts.drop_last();
        assert forall|i: int, j: int| 0 <= i < before.len() && 0 <= j < before[i].len() implies !parts_bypass(
            #[trigger] before[i][j],
        ) by {
            assert(before[i][j] == parts[i][j]);
        }
        lemma_entries_are_clean(before);
        let (had, now) = (entries(before), entries(parts));
        let entry = trimmed(parts.last());
        assert forall|i: int| 0 <= i < now.len() implies (#[trigger] now[i]).len() > 0 by {
            if i < had.len() {
                assert(now[i] == had[i]);
            }
        }
        assert forall|i: int, j: int| 0 <= i < now.len() && 0 <= j < now[i].len() implies !parts_bypass(
            #[trigger] now[i][j],
        ) by {
            if i < had.len() {
                assert(now[i][j] == had[i][j]);
            } else {
                lemma_trimmed_is_within(parts.last(), j);
                let k = choose|k: int|
                    0 <= k < parts.last().len() && parts.last()[k] == entry[j];
                assert(parts[parts.len() - 1][k] == entry[j]);
            }
        }
    }
}

/// Nothing parts two texts but commas, and no comma stands beside another one or
/// at an end.
pub open spec fn is_listed_with_commas(s: Seq<char>) -> bool {
    &&& !s.contains('\n') && !s.contains('\r') && !s.contains(' ') && !s.contains('\t')
    &&& s.len() > 0 ==> s[0] != ',' && s[s.len() - 1] != ','
    &&& forall|i: int| 0 < i < s.len() && #[trigger] s[i] == ',' ==> s[i - 1] != ','
}

proof fn lemma_joined_is_listed(list: Seq<Seq<char>>)
    requires
        forall|i: int| 0 <= i < list.len() ==> (#[trigger] list[i]).len() > 0,
        forall|i: int, j: int|
            0 <= i < list.len() && 0 <= j < list[i].len() ==> !parts_bypass(#[trigger] list[i][j]),
    ensures
        is_listed_with_commas(joined(list, ","@)),
        list.len() > 0 ==> joined(list, ","@).len() > 0,
    decreases list.len(),
{
    reveal_strlit(",");
    assert(","@ =~= seq![',']);
    let s = joined(list, ","@);
    if list.len() > 0 {
        let (rest, last) = (list.drop_last(), list.last());
        assert(list =~= rest.push(last));
        assert forall|i: int, j: int| 0 <= i < rest.len() && 0 <= j < rest[i].len() implies !parts_bypass(
            #[trigger] rest[i][j],
        ) by {
            assert(rest[i][j] == list[i][j]);
        }
        lemma_joined_is_listed(rest);
        texts_are_joined_in_their_order(rest, last, ","@);
        assert forall|j: int| 0 <= j < last.len() implies !parts_bypass(#[trigger] last[j]) by {
            assert(last[j] == list[list.len() - 1][j]);
        }
        assert(list[list.len() - 1].len() > 0);
        if rest.len() == 0 {
            assert(list =~= seq![last]);
            assert(s == last);
        } else {
            let head = joined(rest, ","@);
            assert(s == head + ","@ + last);
            let n = head.len() as int;
            assert(s[n] == ',');
            assert forall|i: int| 0 <= i < s.len() implies (i < n && s[i] == head[i]) || i == n || (i
                > n && s[i] == last[i - n - 1]) by {}
            assert(s[s.len() - 1] == last[last.len() - 1]);
            assert(s[n - 1] == head[n - 1]);
            assert(s[n + 1] == last[0]);
            assert forall|i: int| 0 < i < s.len() && #[trigger] s[i] == ',' implies s[i - 1] != ',' by {
                if i < n {
                    assert(s[i - 1] == head[i - 1] && s[i] == head[i]);
                } else if i > n {
                    assert(!parts_bypass(last[i - n - 1]));
                }
            }
            assert forall|c: char| parts_bypass(c) && c != ',' implies !s.contains(c) by {
                if s.contains(c) {
                    let i = choose|i: int| 0 <= i < s.len() && s[i] == c;
                    if i < n {
                        assert(head[i] == c);
                        assert(head.contains(c));
                    } else if i > n {
                        assert(!parts_bypass(last[i - n - 1]));
                    }
                }
            }
        }
    }
    assert(parts_bypass('\n') && parts_bypass('\r') && parts_bypass(' ') && parts_bypass('\t'));
}

/// The list that is saved holds no line break, no space, no tab, and no comma
/// but those that part two entries.
pub proof fn a_saved_bypass_list_has_nothing_but_commas_between_its_entries(
    base: &Config,
    form: &Form,
    out: Result<Config, String>,
)
    requires
        call_ensures(config_from_form, (base, form), out),
    ensures
        out matches Ok(config) ==> is_listed_with_commas(config.no_proxy@),
{
    let raw = or_empty(first_value(form@, "no_proxy"@));
    let parts = |c: char| parts_bypass(c);
    let split = split_by(raw, parts);
    no_part_holds_a_separator(raw, parts);
    assert forall|i: int, j: int| 0 <= i < split.len() && 0 <= j < split[i].len() implies !parts_bypass(
        #[trigger] split[i][j],
    ) by {
        assert(!parts(split[i][j]));
    }
    lemma_entries_are_clean(split);
    lemma_joined_is_listed(entries(split));
}

proof fn lemma_bypass_of_both(x: Seq<char>, c: char, y: Seq<char>)
    requires
        between_entries().contains(c),
    ensures
        bypass_list(x + seq![c] + y) == (if bypass_list(x).len() == 0 {
            bypass_list(y)
        } else if bypass_list(y).len() == 0 {
            bypass_list(x)
        } else {
            bypass_list(x) + ","@ + bypass_list(y)
        }),
{
    lemma_between_entries();
    assert(parts_bypass(c));
    let parts = |c: char| parts_bypass(c);
    let (px, py) = (split_by(x, parts), split_by(y, parts));
    a_separator_parts_a_text(x, c, y, parts);
    lemma_entries_of_both(px, py);
    let (ex, ey) = (entries(px), entries(py));
    no_part_holds_a_separator(x, parts);
    no_part_holds_a_separator(y, parts);
    assert forall|i: int, j: int| 0 <= i < px.len() && 0 <= j < px[i].len() implies !parts_bypass(
        #[trigger] px[i][j],
    ) by {
        assert(!parts(px[i][j]));
    }
    assert forall|i: int, j: int| 0 <= i < py.len() && 0 <= j < py[i].len() implies !parts_bypass(
        #[trigger] py[i][j],
    ) by {
        assert(!parts(py[i][j]));
    }
    lemma_entries_are_clean(px);
    lemma_entries_are_clean(py);
    lemma_joined_is_listed(ex);
    lemma_joined_is_listed(ey);
    texts_are_joined_in_their_order(ex, Seq::empty(), ","@);
    if ex.len() == 0 {
        assert(ex =~= Seq::empty());
        assert(ex + ey =~= ey);
    } else if ey.len() == 0 {
        assert(ey =~= Seq::empty());
        assert(ex + ey =~= ex);
    } else {
        lemma_joined_of_both(ex, ey, ","@);
    }
}

proof fn lemma_bypass_of_one(s: Seq<char>)
    requires
        forall|i: int| 0 <= i < s.len() ==> !between_entries().contains(#[trigger] s[i]),
    ensures
        bypass_list(s) == trimmed(s),
{
    lemma_between_entries();
    let parts = |c: char| parts_bypass(c);
    assert forall|i: int| 0 <= i < s.len() implies !parts(#[trigger] s[i]) by {
        assert(!between_entries().contains(s[i]));
    }
    without_separators_a_text_is_one_part(s, parts);
    let one = seq![s];
    assert(one.drop_last() =~= Seq::empty());
    assert(one.last() == s);
    let found = entries(one);
    assert(entries(one.drop_last()) =~= Seq::empty());
    texts_are_joined_in_their_order(Seq::empty(), trimmed(s), ","@);
    if trimmed(s).len() == 0 {
        assert(found =~= Seq::empty());
        assert(trimmed(s) =~= Seq::empty());
    } else {
        assert(found =~= seq![trimmed(s)]);
    }
}

/// A saved list is that of a first text and then that of a second one, with a
/// comma between them, where a comma, a line break, a space or a tab stood between
/// the two texts; nothing is added where one of the two lists no entry.
pub proof fn entries_one_per_line_come_out_with_commas(
    base: &Config,
    forms: (&Form, &Form, &Form),
    x: &str,
    c: char,
    y: &str,
    both: &str,
    outs: (Config, Config, Config),
)
    requires
        between_entries().contains(c),
        both@ == x@ + seq![c] + y@,
        call_ensures(Form::get, (forms.0, "no_proxy"), Some(x)),
        call_ensures(Form::get, (forms.1, "no_proxy"), Some(y)),
        call_ensures(Form::get, (forms.2, "no_proxy"), Some(both)),
        call_ensures(config_from_form, (base, forms.0), Ok::<Config, String>(outs.0)),
        call_ensures(config_from_form, (base, forms.1), Ok::<Config, String>(outs.1)),
        call_ensures(config_from_form, (base, forms.2), Ok::<Config, String>(outs.2)),
    ensures
        ({
            let (first, second, all) = (outs.0.no_proxy@, outs.1.no_proxy@, outs.2.no_proxy@);
            &&& first.len() == 0 ==> all == second
            &&& second.len() == 0 ==> all == first
            &&& first.len() > 0 && second.len() > 0 ==> all == first + ","@ + second
        }),
{
    lemma_bypass_of_both(x@, c, y@);
}

/// One entry is saved as it is, and nothing is saved where nothing was written.
pub proof fn one_entry_is_saved_as_it_is(
    base: &Config,
    form: &Form,
    raw: &str,
    entry: Seq<char>,
    a: Seq<char>,
    b: Seq<char>,
    out: Config,
)
    requires
        call_ensures(Form::get, (form, "no_proxy"), Some(raw)),
        call_ensures(config_from_form, (base, form), Ok::<Config, String>(out)),
        raw@ == a + entry + b,
        forall|i: int| 0 <= i < raw@.len() ==> !between_entries().contains(#[trigger] raw@[i]),
        forall|i: int| 0 <= i < a.len() ==> is_blank(#[trigger] a[i]),
        forall|i: int| 0 <= i < b.len() ==> is_blank(#[trigger] b[i]),
        entry.len() > 0 ==> !is_blank(entry[0]) && !is_blank(entry.last()),
    ensures
        out.no_proxy@ == entry,
{
    lemma_bypass_of_one(raw@);
    white_space_is_taken_off_the_ends(a, entry, b);
}

/// Two entries on two lines are saved with a comma between them.
pub proof fn two_lines_are_two_entries(a: Seq<char>, c: char, b: Seq<char>)
    requires
        between_entries().contains(c),
        a.len() > 0,
        b.len() > 0,
        forall|i: int|
            0 <= i < a.len() ==> !is_blank(#[trigger] a[i]) && !between_entries().contains(a[i]),
        forall|i: int|
            0 <= i < b.len() ==> !is_blank(#[trigger] b[i]) && !between_entries().contains(b[i]),
    ensures
        bypass_list(a + seq![c] + b) == a + ","@ + b,
        bypass_list(a + seq!['\r'] + seq!['\n'] + b) == a + ","@ + b,
{
    let none = Seq::<char>::empty();
    lemma_bypass_of_one(a);
    lemma_bypass_of_one(b);
    lemma_bypass_of_one(none);
    white_space_is_taken_off_the_ends(none, a, none);
    white_space_is_taken_off_the_ends(none, b, none);
    white_space_is_taken_off_the_ends(none, none, none);
    assert(none + a + none =~= a && none + b + none =~= b && none + none + none =~= none);
    lemma_bypass_of_both(a, c, b);
    let both = between_entries();
    assert(both[1] == '\n' && both[2] == '\r');
    lemma_bypass_of_both(none, '\n', b);
    lemma_bypass_of_both(a, '\r', none + seq!['\n'] + b);
    assert(a + seq!['\r'] + (none + seq!['\n'] + b) =~= a + seq!['\r'] + seq!['\n'] + b);
}

// ---------------------------------------------------------------------------
// Laws of the fields
// ---------------------------------------------------------------------------

proof fn lemma_first_value(fields: Seq<(Seq<char>, Seq<char>)>, key: Seq<char>)
    ensures
        first_value(fields, key) is None <==> !present(fields, key),
        first_value(fields, key) matches Some(value) ==> exists|i: int|
            0 <= i < fields.len() && #[trigger] fields[i] == (key, value) && forall|j: int|
                0 <= j < i ==> (#[trigger] fields[j]).0 != key,
    decreases fields.len(),
{
    if fields.len() > 0 {
        let rest = fields.drop_first();
        lemma_first_value(rest, key);
        if fields[0].0 == key {
            assert(fields[0] == (key, fields[0].1));
        } else {
            if present(rest, key) {
                let i = choose|i: int| 0 <= i < rest.len() && (#[trigger] rest[i]).0 == key;
                assert(fields[i + 1].0 == key);
            }
            if present(fields, key) {
                let i = choose|i: int| 0 <= i < fields.len() && (#[trigger] fields[i]).0 == key;
                assert(rest[i - 1].0 == key);
            }
            if let Some(value) = first_value(rest, key) {
                let i = choose|i: int|
                    0 <= i < rest.len() && #[trigger] rest[i] == (key, value) && forall|j: int|
                        0 <= j < i ==> (#[trigger] rest[j]).0 != key;
                assert(fields[i + 1] == (key, value));
                assert forall|j: int| 0 <= j < i + 1 implies (#[trigger] fields[j]).0 != key by {
                    if j > 0 {
                        assert(rest[j - 1] == fields[j]);
                    }
                }
            }
        }
    }
}

proof fn lemma_fields_of_both(a: Seq<Seq<u8>>, b: Seq<Seq<u8>>)
    ensures
        fields_in(a + b) == fields_in(a) + fields_in(b),
    decreases b.len(),
{
    if b.len() == 0 {
        assert(a + b =~= a);
        assert(fields_in(a) + fields_in(b) =~= fields_in(a));
    } else {
        assert((a + b).drop_last() =~= a + b.drop_last());
        assert((a + b).last() == b.last());
        lemma_fields_of_both(a, b.drop_last());
        assert(fields_in(a + b) =~= fields_in(a) + fields_in(b));
    }
}

/// The fields of two bodies with `&` between them are those of the first and then
/// those of the second.
pub proof fn an_ampersand_parts_the_fields(
    a: &[u8],
    b: &[u8],
    both: &[u8],
    outs: (Form, Form, Form),
)
    requires
        both@ == a@ + seq![0x26u8] + b@,
        call_ensures(Form::parse, (a,), outs.0),
        call_ensures(Form::parse, (b,), outs.1),
        call_ensures(Form::parse, (both,), outs.2),
    ensures
        outs.2@ == outs.0@ + outs.1@,
{
    let and = |b: u8| b == 0x26;
    a_separator_parts_a_text(a@, 0x26u8, b@, and);
    lemma_fields_of_both(split_by(a@, and), split_by(b@, and));
}

proof fn lemma_encoded_bytes(bytes: Seq<u8>, upper: bool)
    ensures
        forall|i: int|
            0 <= i < percent_encoded(bytes, upper).len() ==> {
                let b = #[trigger] percent_encoded(bytes, upper)[i];
                b != 0x26 && b != 0x3D
            },
        bytes.len() > 0 ==> percent_encoded(bytes, upper).len() > 0,
    decreases bytes.len(),
{
    if bytes.len() > 0 {
        lemma_encoded_bytes(bytes.skip(1), upper);
        let rest = percent_encoded(bytes.skip(1), upper);
        let raw = percent_encoded(bytes, upper);
        assert forall|i: int| 0 <= i < raw.len() implies (#[trigger] raw[i]) != 0x26 && raw[i]
            != 0x3D by {
            if i >= 3 {
                assert(raw[i] == rest[i - 3]);
            }
        }
    }
}

proof fn lemma_one_chunk(chunk: Seq<u8>)
    requires
        forall|i: int| 0 <= i < chunk.len() ==> #[trigger] chunk[i] != 0x26,
    ensures
        form_fields(chunk) == (if chunk.len() == 0 {
            Seq::empty()
        } else {
            seq![field_of(chunk)]
        }),
{
    let and = |b: u8| b == 0x26;
    without_separators_a_text_is_one_part(chunk, and);
    let one = seq![chunk];
    assert(one.drop_last() =~= Seq::empty());
    assert(fields_in(one.drop_last()) =~= Seq::empty());
    assert(one.last() == chunk);
    assert(form_fields(chunk) =~= if chunk.len() == 0 {
        Seq::empty()
    } else {
        seq![field_of(chunk)]
    });
}

/// What a browser sends as one field, its name and its value written with `%`, is
/// found under its name and under no other one.
pub proof fn a_field_is_found_under_its_name(
    name: Seq<char>,
    value: Seq<char>,
    upper: bool,
    body: &[u8],
    form: Form,
    key: &str,
    got: Option<&str>,
    all: Vec<&str>,
    ticked: bool,
)
    requires
        body@ == percent_encoded(encode_utf8(name), upper) + seq![0x3Du8] + percent_encoded(
            encode_utf8(value),
            upper,
        ),
        call_ensures(Form::parse, (body,), form),
        call_ensures(Form::get, (&form, key), got),
        call_ensures(Form::all, (&form, key), all),
        call_ensures(Form::checked, (&form, key), ticked),
    ensures
        ticked <==> key@ == name,
        key@ == name ==> got is Some && got->0@ == value && all@.len() == 1 && all@[0]@ == value,
        key@ != name ==> got is None && all@.len() == 0,
{
    let (k, v) = (
        percent_encoded(encode_utf8(name), upper),
        percent_encoded(encode_utf8(value), upper),
    );
    lemma_encoded_bytes(encode_utf8(name), upper);
    lemma_encoded_bytes(encode_utf8(value), upper);
    assert forall|i: int| 0 <= i < body@.len() implies #[trigger] body@[i] != 0x26 by {
        if i < k.len() {
            assert(body@[i] == k[i]);
        } else if i > k.len() {
            assert(body@[i] == v[i - k.len() - 1]);
        }
    }
    lemma_one_chunk(body@);
    body@.index_of_first_ensures(0x3D);
    assert(body@[k.len() as int] == 0x3D);
    assert(body@.contains(0x3D));
    let at = body@.index_of_first(0x3D)->0;
    if at < k.len() {
        assert(body@[at] == k[at]);
    }
    assert(at == k.len());
    assert(body@.take(at) =~= k);
    assert(body@.skip(at + 1) =~= v);
    an_encoded_text_is_read_back(name, upper);
    an_encoded_text_is_read_back(value, upper);
    let one = seq![(name, value)];
    assert(form@ == one);
    lemma_one(name, value, key@);
    assert(texts_at(all@).len() == all@.len());
    if key@ == name {
        assert(texts_at(all@)[0] == all@[0]@);
    }
}

/// A field without `=` has its name and an empty value, and an empty body has no
/// field.
pub proof fn a_field_may_have_no_value(name: Seq<char>, upper: bool, body: &[u8], form: Form)
    requires
        body@ == percent_encoded(encode_utf8(name), upper),
        call_ensures(Form::parse, (body,), form),
    ensures
        body@.len() > 0 ==> form@ == seq![(name, Seq::<char>::empty())],
        body@.len() == 0 ==> form@.len() == 0,
{
    lemma_encoded_bytes(encode_utf8(name), upper);
    lemma_one_chunk(body@);
    body@.index_of_first_ensures(0x3D);
    an_encoded_text_is_read_back(name, upper);
    let none = Seq::<char>::empty();
    assert(encode_utf8(none) =~= Seq::<u8>::empty());
    an_encoded_text_is_read_back(none, upper);
}

/// Of the fields with a name, the first is read, all are listed in their order,
/// and a box is ticked where there is one.
pub proof fn the_first_of_the_fields_is_read(
    form: &Form,
    key: &str,
    got: Option<&str>,
    ticked: bool,
)
    requires
        call_ensures(Form::get, (form, key), got),
        call_ensures(Form::checked, (form, key), ticked),
    ensures
        ticked <==> exists|i: int| 0 <= i < form@.len() && (#[trigger] form@[i]).0 == key@,
        got is Some <==> ticked,
        got matches Some(value) ==> exists|i: int|
            0 <= i < form@.len() && #[trigger] form@[i] == (key@, value@) && forall|j: int|
                0 <= j < i ==> (#[trigger] form@[j]).0 != key@,
{
    lemma_first_value(form@, key@);
}

/// A plus is a space, a percent sign with two hexadecimal digits is one byte, and
/// everything else, a percent sign without them too, stands for itself.
pub proof fn what_bytes_stand_for(b: u8, rest: Seq<u8>, n: u8, upper: bool)
    ensures
        percent_decoded(Seq::empty()) == Seq::<u8>::empty(),
        b != '+' as u8 && b != '%' as u8 ==> percent_decoded(seq![b] + rest) == seq![b]
            + percent_decoded(rest),
        percent_decoded(seq!['+' as u8] + rest) == seq![' ' as u8] + percent_decoded(rest),
        percent_decoded(
            seq!['%' as u8, hex_letter(n / 16, upper), hex_letter(n % 16, upper)] + rest,
        ) == seq![n] + percent_decoded(rest),
        percent_decoded(seq!['%' as u8]) == seq!['%' as u8],
        percent_decoded(seq!['%' as u8, '%' as u8] + rest) == seq!['%' as u8] + percent_decoded(
            seq!['%' as u8] + rest,
        ),
{
    let one = seq![b] + rest;
    assert(one[0] == b && one.skip(1) =~= rest);
    let plus = seq!['+' as u8] + rest;
    assert(plus[0] == 0x2B && plus.skip(1) =~= rest);
    let (high, low) = (n / 16, n % 16);
    let coded = seq!['%' as u8, hex_letter(high, upper), hex_letter(low, upper)] + rest;
    assert(coded[0] == 0x25 && coded[1] == hex_letter(high, upper) && coded[2] == hex_letter(
        low,
        upper,
    ));
    assert(coded.skip(3) =~= rest);
    assert(hex_digit(coded[1]) == Some(high) && hex_digit(coded[2]) == Some(low));
    let alone = seq!['%' as u8];
    assert(alone[0] == 0x25 && alone.skip(1) =~= Seq::<u8>::empty());
    assert(percent_decoded(alone.skip(1)) =~= Seq::<u8>::empty());
    assert(percent_decoded(alone) == seq![alone[0]] + percent_decoded(alone.skip(1)));
    assert(percent_decoded(alone) =~= seq!['%' as u8]);
    let two = seq!['%' as u8, '%' as u8] + rest;
    assert(two[0] == 0x25 && two[1] == 0x25 && two.skip(1) =~= seq!['%' as u8] + rest);
}

// ---------------------------------------------------------------------------
// Laws of the configuration in the form
// ---------------------------------------------------------------------------

/// Every field of the form goes into the setting of its own name, and what is not
/// in the form stays as it was.
pub proof fn each_field_goes_to_its_own_setting(
    base: &Config,
    form: &Form,
    out: Config,
    socks: Option<&str>,
    http: Option<&str>,
    manage: bool,
    automate: bool,
)
    requires
        call_ensures(config_from_form, (base, form), Ok::<Config, String>(out)),
        call_ensures(Form::get, (form, "socks_upstream"), socks),
        call_ensures(Form::get, (form, "http_upstream"), http),
        call_ensures(Form::checked, (form, "manage_system_proxy"), manage),
        call_ensures(Form::checked, (form, "automate_tunnel"), automate),
    ensures
        out.manage_system_proxy == manage,
        out.automate_tunnel == automate,
        out.socks_upstream is Some <==> socks is Some && trimmed(socks->0@).len() > 0,
        out.socks_upstream matches Some(address) ==> address@ == trimmed(socks->0@),
        out.http_upstream is Some <==> http is Some && trimmed(http->0@).len() > 0,
        out.http_upstream matches Some(address) ==> address@ == trimmed(http->0@),
        same_beside_the_form(*base, out),
{
    white_space_is_taken_off_the_ends(Seq::empty(), Seq::empty(), Seq::empty());
    let none = Seq::<char>::empty();
    assert(none + none + none =~= none);
    let kept = Config {
        bridge_port: out.bridge_port,
        socks_upstream: out.socks_upstream,
        http_upstream: out.http_upstream,
        no_proxy: out.no_proxy,
        manage_system_proxy: out.manage_system_proxy,
        office_networks: out.office_networks,
        automate_tunnel: out.automate_tunnel,
        ..*base
    };
    assert(kept@ == out@);
    the_view_tells_configurations_apart(kept, out);
}

/// A port is read from its decimal digits, with white space around them or
/// without, where it fits; the form is refused where it does not, and where the
/// field is missing or holds no number, with the text that was found there.
pub proof fn a_port_is_read_from_its_digits(
    base: &Config,
    form: &Form,
    out: Result<Config, String>,
    raw: Option<&str>,
    a: Seq<char>,
    n: nat,
    b: Seq<char>,
)
    requires
        call_ensures(config_from_form, (base, form), out),
        call_ensures(Form::get, (form, "bridge_port"), raw),
        forall|i: int| 0 <= i < a.len() ==> is_blank(#[trigger] a[i]),
        forall|i: int| 0 <= i < b.len() ==> is_blank(#[trigger] b[i]),
    ensures
        raw is None ==> out is Err,
        raw is Some && raw->0@ == a + decimal(n) + b && n <= 65535 ==> out is Ok
            && out->Ok_0.bridge_port == n,
        raw is Some && raw->0@ == a + decimal(n) + b && n > 65535 ==> out is Err,
        raw is Some && unsigned(trimmed(raw->0@), 65535) is None ==> out is Err,
        out matches Err(why) ==> raw matches Some(text) ==> why@ == "порт моста «"@ + trimmed(text@)
            + "»: нужно целое число от 1 до 65535"@,
{
    lemma_decimal_reads_back(n);
    let digits = decimal(n);
    assert(crate::text::is_digit(digits[0]));
    assert(crate::text::is_digit(digits[digits.len() - 1]));
    white_space_is_taken_off_the_ends(a, digits, b);
    if n <= 65535 {
        decimal_is_read_back(n, 65535);
    }
    let none = Seq::<char>::empty();
    white_space_is_taken_off_the_ends(none, none, none);
    assert(none + none + none =~= none);
}

/// The rows that are kept, each with its place among those that were sent.
pub open spec fn kept_rows(
    ids: Seq<&str>,
    names: Seq<&str>,
    rows: Seq<OfficeNetwork>,
    at: Seq<int>,
) -> bool {
    &&& at.len() == rows.len()
    &&& forall|i: int, j: int| 0 <= i < j < at.len() ==> #[trigger] at[i] < #[trigger] at[j]
    &&& forall|k: int|
        0 <= k < rows.len() ==> {
            let i = #[trigger] at[k];
            &&& 0 <= i < ids.len()
            &&& trimmed(ids[i]@).len() > 0
            &&& rows[k].id@ == trimmed(ids[i]@)
            &&& rows[k].name@ == (if i < names.len() {
                trimmed(names[i]@)
            } else {
                Seq::<char>::empty()
            })
        }
    &&& forall|i: int|
        0 <= i < ids.len() && trimmed((#[trigger] ids[i])@).len() > 0 ==> at.contains(i)
}

proof fn lemma_rows_at(ids: Seq<Seq<char>>, names: Seq<Seq<char>>, n: nat) -> (at: Seq<int>)
    requires
        n <= ids.len(),
    ensures
        at.len() == office_rows(ids, names, n).len(),
        forall|i: int, j: int| 0 <= i < j < at.len() ==> #[trigger] at[i] < #[trigger] at[j],
        forall|k: int|
            0 <= k < at.len() ==> {
                let i = #[trigger] at[k];
                let row = office_rows(ids, names, n)[k];
                &&& 0 <= i < n
                &&& trimmed(ids[i]).len() > 0
                &&& row.id == trimmed(ids[i])
                &&& row.name == (if i < names.len() {
                    trimmed(names[i])
                } else {
                    Seq::<char>::empty()
                })
            },
        forall|i: int| 0 <= i < n && trimmed(#[trigger] ids[i]).len() > 0 ==> at.contains(i),
    decreases n,
{
    if n == 0 {
        Seq::empty()
    } else {
        let before = lemma_rows_at(ids, names, (n - 1) as nat);
        let had = office_rows(ids, names, (n - 1) as nat);
        let now = office_rows(ids, names, n);
        let id = trimmed(ids[n - 1]);
        let at = if id.len() == 0 {
            before
        } else {
            before.push(n - 1)
        };
        assert forall|k: int| 0 <= k < at.len() implies {
            let i = #[trigger] at[k];
            let row = now[k];
            &&& 0 <= i < n
            &&& trimmed(ids[i]).len() > 0
            &&& row.id == trimmed(ids[i])
            &&& row.name == (if i < names.len() {
                trimmed(names[i])
            } else {
                Seq::<char>::empty()
            })
        } by {
            if k < before.len() {
                assert(at[k] == before[k]);
                assert(now[k] == had[k]);
            }
        }
        assert forall|i: int| 0 <= i < n && trimmed(#[trigger] ids[i]).len() > 0 implies at.contains(
            i,
        ) by {
            if i < n - 1 {
                assert(before.contains(i));
                let k = choose|k: int| 0 <= k < before.len() && before[k] == i;
                assert(at[k] == i);
            } else {
                assert(at[before.len() as int] == i);
            }
        }
        at
    }
}

/// Every row with an identifier is kept, in the order in which it was sent, with
/// the name that stands at its own place, and no other row is.
pub proof fn an_office_network_keeps_its_own_name(
    base: &Config,
    form: &Form,
    out: Config,
    ids: Vec<&str>,
    names: Vec<&str>,
)
    requires
        call_ensures(config_from_form, (base, form), Ok::<Config, String>(out)),
        call_ensures(Form::all, (form, "office_id"), ids),
        call_ensures(Form::all, (form, "office_name"), names),
    ensures
        exists|at: Seq<int>| kept_rows(ids@, names@, out.office_networks@, at),
{
    let (i, n) = (values(form@, "office_id"@), values(form@, "office_name"@));
    assert(i == texts_at(ids@) && n == texts_at(names@));
    let at = lemma_rows_at(i, n, i.len());
    let rows = networks(out.office_networks@);
    assert(rows.len() == out.office_networks@.len());
    assert forall|k: int| 0 <= k < rows.len() implies {
        let place = #[trigger] at[k];
        &&& 0 <= place < ids@.len()
        &&& trimmed(ids@[place]@).len() > 0
        &&& out.office_networks@[k].id@ == trimmed(ids@[place]@)
        &&& out.office_networks@[k].name@ == (if place < names@.len() {
            trimmed(names@[place]@)
        } else {
            Seq::<char>::empty()
        })
    } by {
        let place = at[k];
        assert(rows[k] == out.office_networks@[k]@);
        assert(i[place] == ids@[place]@);
        if place < names@.len() {
            assert(n[place] == names@[place]@);
        }
    }
    assert forall|k: int| 0 <= k < ids@.len() && trimmed((#[trigger] ids@[k])@).len() > 0 implies at.contains(
        k,
    ) by {
        assert(i[k] == ids@[k]@);
    }
    assert(kept_rows(ids@, names@, out.office_networks@, at));
}

/// What is read of one name or value is the text whose bytes it stands for.
pub proof fn what_is_read_is_the_text_of_its_bytes(raw: &[u8], text: Seq<char>, out: String)
    requires
        call_ensures(decode, (raw,), out),
        percent_decoded(raw@) == encode_utf8(text),
    ensures
        out@ == text,
{
    encode_utf8_valid_utf8(text);
    encode_utf8_decode_utf8(text);
}

/// A form without fields has no value under any name.
pub proof fn an_empty_form_has_no_value(form: Form, key: &str, out: Option<&str>)
    requires
        call_ensures(Form::default, (), form),
        call_ensures(Form::get, (&form, key), out),
    ensures
        out is None,
{
}

} // verus!
