//! Versions: reading them out of tags and comparing them.
//!
//! A tag is `vMAJOR.MINOR.PATCH`, with a suffix behind a hyphen for a
//! prerelease.

use std::cmp::Ordering;
use vstd::prelude::*;
use vstd::string::*;
use crate::model::{text_in, texts};
use crate::text::{before, decimal, decimal_text, is_before, parse_unsigned, split_at_first};
use crate::text::{lemma_before_irreflexive, lemma_before_total, lemma_before_transitive};
use crate::text::{all_digits, decimal_is_read_back, is_digit, lemma_decimal_reads_back};
use crate::text::{lemma_last_part, lemma_no_separator};
use crate::text::{chars_of, split_by, split_first, split_on, text_of, unsigned};

verus! {

/// A version.
#[derive(Debug, Clone, PartialEq, Eq)]
pub struct Version {
    pub major: u64,
    pub minor: u64,
    pub patch: u64,
    /// The suffix of a prerelease, without the hyphen.
    pub pre: Option<String>,
}

#[verifier::ext_equal]
pub ghost struct VersionView {
    pub major: nat,
    pub minor: nat,
    pub patch: nat,
    pub pre: Option<Seq<char>>,
}

impl View for Version {
    type V = VersionView;

    open spec fn view(&self) -> VersionView {
        VersionView {
            major: self.major as nat,
            minor: self.minor as nat,
            patch: self.patch as nat,
            pre: text_in(self.pre),
        }
    }
}

/// `a` is newer than `b`. The numbers decide from the left; with the same
/// numbers a full release is newer than a prerelease, and of two prereleases
/// the one whose suffix comes later.
pub open spec fn newer(a: VersionView, b: VersionView) -> bool {
    if a.major != b.major {
        a.major > b.major
    } else if a.minor != b.minor {
        a.minor > b.minor
    } else if a.patch != b.patch {
        a.patch > b.patch
    } else {
        match (a.pre, b.pre) {
            (None, Some(_)) => true,
            (Some(x), Some(y)) => before(y, x),
            _ => false,
        }
    }
}

impl Version {
    /// Tells whether this is a prerelease.
    pub fn is_prerelease(&self) -> (out: bool)
        ensures
            out == (self@.pre is Some),
    {
        self.pre.is_some()
    }

    /// Compares two versions.
    pub fn cmp(&self, other: &Version) -> (out: Ordering)
        ensures
            match out {
                Ordering::Less => newer(other@, self@),
                Ordering::Equal => self@ == other@,
                Ordering::Greater => newer(self@, other@),
            },
    {
        if self.major != other.major {
            return if self.major < other.major {
                Ordering::Less
            } else {
                Ordering::Greater
            };
        }
        if self.minor != other.minor {
            return if self.minor < other.minor {
                Ordering::Less
            } else {
                Ordering::Greater
            };
        }
        if self.patch != other.patch {
            return if self.patch < other.patch {
                Ordering::Less
            } else {
                Ordering::Greater
            };
        }
        match (&self.pre, &other.pre) {
            (None, None) => Ordering::Equal,
            (None, Some(_)) => Ordering::Greater,
            (Some(_), None) => Ordering::Less,
            (Some(a), Some(b)) => {
                proof {
                    lemma_before_total(a@, b@);
                }
                if is_before(a.as_str(), b.as_str()) {
                    Ordering::Less
                } else if is_before(b.as_str(), a.as_str()) {
                    Ordering::Greater
                } else {
                    Ordering::Equal
                }
            },
        }
    }
}

/// How two versions compare.
pub open spec fn comparison(a: VersionView, b: VersionView) -> Ordering {
    if newer(a, b) {
        Ordering::Greater
    } else if newer(b, a) {
        Ordering::Less
    } else {
        Ordering::Equal
    }
}

impl vstd::std_specs::cmp::PartialOrdSpecImpl for Version {
    open spec fn obeys_partial_cmp_spec() -> bool {
        true
    }

    open spec fn partial_cmp_spec(&self, other: &Version) -> Option<Ordering> {
        Some(comparison(self@, other@))
    }
}

impl PartialOrd for Version {
    fn partial_cmp(&self, other: &Version) -> (out: Option<Ordering>) {
        let out = self.cmp(other);
        proof {
            newer_is_one_way(self@, other@);
            newer_is_one_way(other@, self@);
        }
        Some(out)
    }
}

// ---------------------------------------------------------------------------
// Tags
// ---------------------------------------------------------------------------

/// The version in a tag: an optional `v`, three numbers with points between
/// them, and an optional suffix behind a hyphen, which must not be empty.
/// Anything else is no version.
pub open spec fn tag_version(tag: Seq<char>) -> Option<VersionView> {
    let body = if tag.len() > 0 && tag[0] == 'v' {
        tag.drop_first()
    } else {
        tag
    };
    let (numbers, pre) = match split_first(body, '-') {
        Some((numbers, suffix)) => (numbers, Some(suffix)),
        None => (body, None),
    };
    let parts = split_by(numbers, |c: char| c == '.');
    if parts.len() != 3 || (pre matches Some(suffix) && suffix.len() == 0) {
        None
    } else {
        match (
            unsigned(parts[0], u64::MAX as nat),
            unsigned(parts[1], u64::MAX as nat),
            unsigned(parts[2], u64::MAX as nat),
        ) {
            (Some(major), Some(minor), Some(patch)) => Some(
                VersionView { major, minor, patch, pre },
            ),
            _ => None,
        }
    }
}

/// Reads the version out of a tag. `None` means that the tag is no version at
/// all, which is not the same as a low version.
pub fn parse_tag(tag: &str) -> (out: Option<Version>)
    ensures
        match out {
            Some(v) => tag_version(tag@) == Some(v@),
            None => tag_version(tag@) is None,
        },
{
    let chars = chars_of(tag);
    let start: usize = if chars.len() > 0 && chars[0] == 'v' { 1 } else { 0 };
    let body = text_of(&chars, start, chars.len());
    assert(start == 1 ==> body@ =~= tag@.drop_first());
    assert(start == 0 ==> body@ =~= tag@);
    let (numbers, pre) = match split_at_first(body.as_str(), '-') {
        Some((numbers, suffix)) => (numbers, Some(suffix)),
        None => (body, None),
    };
    if let Some(suffix) = &pre {
        if suffix.as_str().is_empty() {
            return None;
        }
    }
    let parts = split_on(numbers.as_str(), '.');
    let ghost all = split_by(numbers@, |c: char| c == '.');
    assert(all == texts(parts@));
    if parts.len() != 3 {
        return None;
    }
    assert(all[0] == parts@[0]@ && all[1] == parts@[1]@ && all[2] == parts@[2]@);
    match (
        parse_unsigned(parts[0].as_str(), u64::MAX),
        parse_unsigned(parts[1].as_str(), u64::MAX),
        parse_unsigned(parts[2].as_str(), u64::MAX),
    ) {
        (Some(major), Some(minor), Some(patch)) => Some(Version { major, minor, patch, pre }),
        _ => None,
    }
}

/// A version as a tag.
pub open spec fn version_tag(v: VersionView) -> Seq<char> {
    let numbers = "v"@ + decimal(v.major) + "."@ + decimal(v.minor) + "."@ + decimal(v.patch);
    match v.pre {
        Some(suffix) => numbers + "-"@ + suffix,
        None => numbers,
    }
}

/// Writes a version as a tag.
pub fn format_version(v: &Version) -> (out: String)
    ensures
        out@ == version_tag(v@),
{
    let mut out = "v".to_owned();
    out.append(decimal_text(v.major).as_str());
    out.append(".");
    out.append(decimal_text(v.minor).as_str());
    out.append(".");
    out.append(decimal_text(v.patch).as_str());
    if let Some(suffix) = &v.pre {
        out.append("-");
        out.append(suffix.as_str());
    }
    out
}

// ---------------------------------------------------------------------------
// What to offer
// ---------------------------------------------------------------------------

/// What comes of comparing the running version with the published tag.
#[derive(Debug, Clone, PartialEq, Eq)]
pub enum Decision {
    /// The published version is newer and no prerelease.
    Available(Version),
    UpToDate,
    /// The running version is newer than the published one.
    CurrentIsNewer,
    /// A prerelease is published. It is never offered, whatever its numbers.
    PublishedIsPrerelease(Version),
    /// One of the tags is no version.
    Unrecognized,
}

pub ghost enum DecisionView {
    Available(VersionView),
    UpToDate,
    CurrentIsNewer,
    PublishedIsPrerelease(VersionView),
    Unrecognized,
}

impl View for Decision {
    type V = DecisionView;

    open spec fn view(&self) -> DecisionView {
        match self {
            Decision::Available(v) => DecisionView::Available(v@),
            Decision::UpToDate => DecisionView::UpToDate,
            Decision::CurrentIsNewer => DecisionView::CurrentIsNewer,
            Decision::PublishedIsPrerelease(v) => DecisionView::PublishedIsPrerelease(v@),
            Decision::Unrecognized => DecisionView::Unrecognized,
        }
    }
}

/// What to make of a published tag.
pub open spec fn decision(current: Seq<char>, published: Seq<char>) -> DecisionView {
    match (tag_version(current), tag_version(published)) {
        (Some(cur), Some(new)) => if new.pre is Some {
            DecisionView::PublishedIsPrerelease(new)
        } else if newer(new, cur) {
            DecisionView::Available(new)
        } else if newer(cur, new) {
            DecisionView::CurrentIsNewer
        } else {
            DecisionView::UpToDate
        },
        _ => DecisionView::Unrecognized,
    }
}

/// Compares the running version with the published tag.
pub fn decide(current: &str, published_tag: &str) -> (out: Decision)
    ensures
        out@ == decision(current@, published_tag@),
{
    let cur = match parse_tag(current) {
        Some(v) => v,
        None => {
            return Decision::Unrecognized;
        },
    };
    let published = match parse_tag(published_tag) {
        Some(v) => v,
        None => {
            return Decision::Unrecognized;
        },
    };
    if published.is_prerelease() {
        return Decision::PublishedIsPrerelease(published);
    }
    proof {
        newer_is_one_way(published@, cur@);
        newer_is_one_way(cur@, published@);
    }
    match published.cmp(&cur) {
        Ordering::Greater => Decision::Available(published),
        Ordering::Equal => Decision::UpToDate,
        Ordering::Less => Decision::CurrentIsNewer,
    }
}

// ---------------------------------------------------------------------------
// Laws
// ---------------------------------------------------------------------------

/// No version is newer than itself, and of two versions not each is newer than
/// the other.
pub proof fn newer_is_one_way(a: VersionView, b: VersionView)
    ensures
        !newer(a, a),
        newer(a, b) ==> !newer(b, a),
{
    if let Some(x) = a.pre {
        lemma_before_irreflexive(x);
        if let Some(y) = b.pre {
            if before(y, x) && before(x, y) {
                lemma_before_transitive(x, y, x);
            }
        }
    }
}

/// Of two different versions one is newer.
pub proof fn versions_are_totally_ordered(a: VersionView, b: VersionView)
    ensures
        a == b || newer(a, b) || newer(b, a),
{
    if let (Some(x), Some(y)) = (a.pre, b.pre) {
        lemma_before_total(x, y);
    }
}

/// What is newer than a newer version is newer.
pub proof fn newer_is_transitive(a: VersionView, b: VersionView, c: VersionView)
    requires
        newer(a, b),
        newer(b, c),
    ensures
        newer(a, c),
{
    if let (Some(x), Some(y)) = (a.pre, b.pre) {
        if let Some(z) = c.pre {
            if before(y, x) && before(z, y) {
                lemma_before_transitive(z, y, x);
            }
        }
    }
}

/// A full release is newer than its own prereleases.
pub proof fn a_release_is_newer_than_its_prerelease(v: VersionView, suffix: Seq<char>)
    requires
        v.pre is None,
    ensures
        newer(v, (VersionView { pre: Some(suffix), ..v })),
{
}

/// What is offered is newer than what runs, and it is no prerelease.
pub proof fn only_newer_releases_are_offered(current: Seq<char>, published: Seq<char>)
    ensures
        decision(current, published) matches DecisionView::Available(v) ==> {
            &&& v.pre is None
            &&& tag_version(published) == Some(v)
            &&& tag_version(current) matches Some(cur) && newer(v, cur)
        },
{
}

/// A prerelease is reported as one, whatever runs.
pub proof fn a_prerelease_is_never_offered(current: Seq<char>, published: Seq<char>)
    requires
        tag_version(published) matches Some(v) && v.pre is Some,
    ensures
        !(decision(current, published) is Available),
        tag_version(current) is Some ==> decision(current, published) is PublishedIsPrerelease,
{
}

/// The leading `v` makes no difference.
pub proof fn the_leading_v_makes_no_difference(body: Seq<char>)
    requires
        body.len() > 0 ==> body[0] != 'v',
    ensures
        tag_version(seq!['v'] + body) == tag_version(body),
{
    assert((seq!['v'] + body).drop_first() =~= body);
}

proof fn lemma_digits_hold_no(s: Seq<char>, c: char)
    requires
        all_digits(s),
        !is_digit(c),
    ensures
        !s.contains(c),
{
    if s.contains(c) {
        let i = choose|i: int| 0 <= i < s.len() && s[i] == c;
        assert(is_digit(s[i]));
    }
}

/// A version that is written as a tag is read back as the same version.
pub proof fn a_written_version_is_read_back(v: VersionView)
    requires
        v.major <= u64::MAX,
        v.minor <= u64::MAX,
        v.patch <= u64::MAX,
        v.pre matches Some(suffix) ==> suffix.len() > 0,
    ensures
        tag_version(version_tag(v)) == Some(v),
{
    let (a, b, c) = (decimal(v.major), decimal(v.minor), decimal(v.patch));
    lemma_decimal_reads_back(v.major);
    lemma_decimal_reads_back(v.minor);
    lemma_decimal_reads_back(v.patch);
    decimal_is_read_back(v.major, u64::MAX as nat);
    decimal_is_read_back(v.minor, u64::MAX as nat);
    decimal_is_read_back(v.patch, u64::MAX as nat);
    reveal_strlit("v");
    reveal_strlit(".");
    reveal_strlit("-");
    let numbers = a + seq!['.'] + b + seq!['.'] + c;
    lemma_digits_hold_no(a, '.');
    lemma_digits_hold_no(b, '.');
    lemma_digits_hold_no(c, '.');
    lemma_no_separator(a, '.');
    lemma_last_part(a, '.', b);
    lemma_last_part(a + seq!['.'] + b, '.', c);
    let parts = split_by(numbers, |x: char| x == '.');
    assert(parts =~= seq![a, b, c]);
    lemma_digits_hold_no(a, '-');
    lemma_digits_hold_no(b, '-');
    lemma_digits_hold_no(c, '-');
    assert forall|i: int| 0 <= i < numbers.len() implies #[trigger] numbers[i] != '-' by {
        let head = a + seq!['.'] + b + seq!['.'];
        if i < a.len() {
            assert(numbers[i] == a[i]);
            assert(a.contains(a[i]));
        } else if a.len() < i < a.len() + 1 + b.len() {
            assert(numbers[i] == b[i - a.len() - 1]);
            assert(b.contains(b[i - a.len() - 1]));
        } else if i >= head.len() {
            assert(numbers[i] == c[i - head.len()]);
            assert(c.contains(c[i - head.len()]));
        }
    }
    let tag = version_tag(v);
    let body = tag.drop_first();
    assert(tag[0] == 'v');
    match v.pre {
        None => {
            assert(body =~= numbers);
            body.index_of_first_ensures('-');
            assert(!body.contains('-'));
        },
        Some(suffix) => {
            assert(body =~= numbers + seq!['-'] + suffix);
            body.index_of_first_ensures('-');
            assert(body[numbers.len() as int] == '-');
            assert(body.contains('-'));
            let k = body.index_of_first('-')->0;
            assert(k == numbers.len()) by {
                if k < numbers.len() {
                    assert(body[k] == numbers[k]);
                }
            }
            assert(body.take(k) =~= numbers);
            assert(body.skip(k + 1) =~= suffix);
        },
    }
}

/// Three numbers with points between them, behind a `v` where one is written.
pub open spec fn numbered(v: bool, major: nat, minor: nat, patch: nat) -> Seq<char> {
    (if v {
        "v"@
    } else {
        ""@
    }) + decimal(major) + "."@ + decimal(minor) + "."@ + decimal(patch)
}

/// The first of the three numbers in which two versions differ is higher.
pub open spec fn is_above(a: (nat, nat, nat), b: (nat, nat, nat)) -> bool {
    ||| a.0 > b.0
    ||| a.0 == b.0 && a.1 > b.1
    ||| a.0 == b.0 && a.1 == b.1 && a.2 > b.2
}

proof fn lemma_numbered(v: bool, a: (nat, nat, nat), suffix: Option<Seq<char>>)
    requires
        a.0 <= u64::MAX && a.1 <= u64::MAX && a.2 <= u64::MAX,
        suffix matches Some(s) ==> s.len() > 0,
    ensures
        ({
            let text = numbered(v, a.0, a.1, a.2);
            let tag = match suffix {
                Some(s) => text + "-"@ + s,
                None => text,
            };
            tag_version(tag) == Some(
                VersionView { major: a.0, minor: a.1, patch: a.2, pre: suffix },
            )
        }),
{
    let view = VersionView { major: a.0, minor: a.1, patch: a.2, pre: suffix };
    a_written_version_is_read_back(view);
    let with_v = numbered(true, a.0, a.1, a.2);
    let without = numbered(false, a.0, a.1, a.2);
    reveal_strlit("v");
    reveal_strlit("");
    assert("v"@ =~= seq!['v']);
    lemma_decimal_reads_back(a.0);
    assert(is_digit(decimal(a.0)[0]));
    assert(without[0] == decimal(a.0)[0]);
    match suffix {
        Some(s) => {
            let body = without + "-"@ + s;
            assert(with_v + "-"@ + s =~= version_tag(view));
            assert(with_v + "-"@ + s =~= seq!['v'] + body);
            assert(body[0] == without[0]);
            the_leading_v_makes_no_difference(body);
        },
        None => {
            assert(with_v =~= version_tag(view));
            assert(with_v =~= seq!['v'] + without);
            the_leading_v_makes_no_difference(without);
        },
    }
}

/// Of two releases the published one is offered if and only if its numbers are
/// above those of the running one. Where they are below, what runs is newer, and
/// where they are the same, it is up to date.
pub proof fn a_release_is_offered_where_its_numbers_are_above(
    cur_v: bool,
    cur: (nat, nat, nat),
    new_v: bool,
    new: (nat, nat, nat),
    current: &str,
    published: &str,
    out: Decision,
)
    requires
        cur.0 <= u64::MAX && cur.1 <= u64::MAX && cur.2 <= u64::MAX,
        new.0 <= u64::MAX && new.1 <= u64::MAX && new.2 <= u64::MAX,
        current@ == numbered(cur_v, cur.0, cur.1, cur.2),
        published@ == numbered(new_v, new.0, new.1, new.2),
        call_ensures(decide, (current, published), out),
    ensures
        out is Available <==> is_above(new, cur),
        out is CurrentIsNewer <==> is_above(cur, new),
        out is UpToDate <==> cur == new,
        out matches Decision::Available(v) ==> v.major == new.0 && v.minor == new.1 && v.patch
            == new.2 && v.pre is None,
{
    lemma_numbered(cur_v, cur, None);
    lemma_numbered(new_v, new, None);
}

/// To whoever runs a prerelease, a release is offered if and only if its numbers
/// are not below those of the prerelease: the release of the same numbers is
/// what the prerelease led to.
pub proof fn a_prerelease_is_followed_by_its_release(
    cur_v: bool,
    cur: (nat, nat, nat),
    suffix: Seq<char>,
    new_v: bool,
    new: (nat, nat, nat),
    current: &str,
    published: &str,
    out: Decision,
)
    requires
        cur.0 <= u64::MAX && cur.1 <= u64::MAX && cur.2 <= u64::MAX,
        new.0 <= u64::MAX && new.1 <= u64::MAX && new.2 <= u64::MAX,
        suffix.len() > 0,
        current@ == numbered(cur_v, cur.0, cur.1, cur.2) + "-"@ + suffix,
        published@ == numbered(new_v, new.0, new.1, new.2),
        call_ensures(decide, (current, published), out),
    ensures
        out is Available <==> !is_above(cur, new),
        out is CurrentIsNewer <==> is_above(cur, new),
        out matches Decision::Available(v) ==> v.major == new.0 && v.minor == new.1 && v.patch
            == new.2 && v.pre is None,
{
    lemma_numbered(cur_v, cur, Some(suffix));
    lemma_numbered(new_v, new, None);
}

/// A published prerelease is named as one and never offered, however high its
/// numbers are.
pub proof fn a_published_prerelease_is_named_as_one(
    cur_v: bool,
    cur: (nat, nat, nat),
    cur_suffix: Option<Seq<char>>,
    new_v: bool,
    new: (nat, nat, nat),
    suffix: Seq<char>,
    current: &str,
    published: &str,
    out: Decision,
)
    requires
        cur.0 <= u64::MAX && cur.1 <= u64::MAX && cur.2 <= u64::MAX,
        new.0 <= u64::MAX && new.1 <= u64::MAX && new.2 <= u64::MAX,
        suffix.len() > 0,
        cur_suffix matches Some(s) ==> s.len() > 0,
        current@ == (match cur_suffix {
            Some(s) => numbered(cur_v, cur.0, cur.1, cur.2) + "-"@ + s,
            None => numbered(cur_v, cur.0, cur.1, cur.2),
        }),
        published@ == numbered(new_v, new.0, new.1, new.2) + "-"@ + suffix,
        call_ensures(decide, (current, published), out),
    ensures
        out matches Decision::PublishedIsPrerelease(v) && v.major == new.0 && v.minor == new.1
            && v.patch == new.2 && (v.pre matches Some(s) && s@ == suffix),
{
    lemma_numbered(cur_v, cur, cur_suffix);
    lemma_numbered(new_v, new, Some(suffix));
}

/// The numbers of a version.
pub open spec fn numbers_of(v: Version) -> (nat, nat, nat) {
    (v.major as nat, v.minor as nat, v.patch as nat)
}

/// Two versions compare by their numbers from the left; with the same numbers a
/// release is above its prereleases, and two prereleases compare as texts.
pub proof fn versions_compare_by_their_numbers(a: &Version, b: &Version, out: Ordering)
    requires
        call_ensures(Version::cmp, (a, b), out),
    ensures
        ({
            let (x, y) = (numbers_of(*a), numbers_of(*b));
            &&& is_above(x, y) ==> out is Greater
            &&& is_above(y, x) ==> out is Less
            &&& x == y ==> match (a.pre, b.pre) {
                (None, None) => out is Equal,
                (None, Some(_)) => out is Greater,
                (Some(_), None) => out is Less,
                (Some(p), Some(q)) => {
                    &&& out is Less <==> before(p@, q@)
                    &&& out is Greater <==> before(q@, p@)
                    &&& out is Equal <==> p@ == q@
                },
            }
        }),
{
    if let (Some(p), Some(q)) = (a.pre, b.pre) {
        lemma_before_irreflexive(p@);
        lemma_before_total(p@, q@);
        if before(p@, q@) && before(q@, p@) {
            lemma_before_transitive(p@, q@, p@);
        }
    }
}

/// What is read as a version is written as one: three numbers with points
/// between them, a `v` before them or none, and behind a hyphen the suffix.
pub proof fn what_is_read_as_a_version_is_written_as_one(tag: &str, out: Option<Version>)
    requires
        call_ensures(parse_tag, (tag,), out),
    ensures
        out matches Some(v) ==> exists|start: Seq<char>, a: Seq<char>, b: Seq<char>, c: Seq<char>|
            {
                &&& start == "v"@ || start == ""@
                &&& unsigned(a, u64::MAX as nat) == Some(v.major as nat)
                &&& unsigned(b, u64::MAX as nat) == Some(v.minor as nat)
                &&& unsigned(c, u64::MAX as nat) == Some(v.patch as nat)
                &&& tag@ == #[trigger] (start + a + "."@ + b + "."@ + c) + (match v.pre {
                    Some(s) => "-"@ + s@,
                    None => ""@,
                })
                &&& v.pre matches Some(s) ==> s@.len() > 0
            },
{
    if let Some(v) = out {
        let t = tag@;
        let has_v = t.len() > 0 && t[0] == 'v';
        let body = if has_v {
            t.drop_first()
        } else {
            t
        };
        reveal_strlit("v");
        reveal_strlit("");
        reveal_strlit(".");
        reveal_strlit("-");
        let start = if has_v {
            "v"@
        } else {
            ""@
        };
        assert(t =~= start + body);
        body.index_of_first_ensures('-');
        let (numbers, pre) = match split_first(body, '-') {
            Some((numbers, suffix)) => (numbers, Some(suffix)),
            None => (body, None),
        };
        if let Some(s) = pre {
            assert(body =~= numbers + seq!['-'] + s);
        }
        let parts = split_by(numbers, |c: char| c == '.');
        lemma_three_parts(numbers);
        let (a, b, c) = (parts[0], parts[1], parts[2]);
        let written = start + a + "."@ + b + "."@ + c;
        assert("."@ =~= seq!['.'] && "-"@ =~= seq!['-']);
        assert(written =~= start + numbers);
        assert(t =~= written + (match v.pre {
            Some(s) => "-"@ + s@,
            None => ""@,
        }));
    }
}

proof fn lemma_parts_of(s: Seq<char>)
    ensures
        ({
            let parts = split_by(s, |c: char| c == '.');
            &&& parts.len() >= 1
            &&& parts.len() == 1 ==> s == parts[0]
            &&& parts.len() == 2 ==> s == parts[0] + seq!['.'] + parts[1]
            &&& parts.len() == 3 ==> s == parts[0] + seq!['.'] + parts[1] + seq!['.'] + parts[2]
        }),
    decreases s.len(),
{
    let parts = split_by(s, |c: char| c == '.');
    if s.len() == 0 {
        assert(s =~= Seq::empty());
    } else {
        lemma_parts_of(s.drop_last());
        let before = split_by(s.drop_last(), |c: char| c == '.');
        assert(s =~= s.drop_last().push(s.last()));
        if s.last() == '.' {
            if before.len() == 1 {
                assert(s =~= before[0] + seq!['.'] + Seq::<char>::empty());
            } else if before.len() == 2 {
                assert(s =~= before[0] + seq!['.'] + before[1] + seq!['.'] + Seq::<char>::empty());
            }
        } else {
            let last = before.last().push(s.last());
            if before.len() == 1 {
                assert(s =~= last);
            } else if before.len() == 2 {
                assert(s =~= before[0] + seq!['.'] + last);
            } else if before.len() == 3 {
                assert(s =~= before[0] + seq!['.'] + before[1] + seq!['.'] + last);
            }
        }
    }
}

proof fn lemma_three_parts(s: Seq<char>)
    requires
        split_by(s, |c: char| c == '.').len() == 3,
    ensures
        ({
            let parts = split_by(s, |c: char| c == '.');
            s == parts[0] + seq!['.'] + parts[1] + seq!['.'] + parts[2]
        }),
{
    lemma_parts_of(s);
}

/// A version is written with its numbers in their order, and with its suffix
/// behind a hyphen.
pub proof fn a_version_is_written_with_its_numbers(v: &Version, out: String)
    requires
        call_ensures(format_version, (v,), out),
    ensures
        v.pre is None ==> out@ == numbered(true, v.major as nat, v.minor as nat, v.patch as nat),
        v.pre matches Some(s) ==> out@ == numbered(
            true,
            v.major as nat,
            v.minor as nat,
            v.patch as nat,
        ) + "-"@ + s@,
{
}

/// Nothing is decided exactly where one of the two tags is no version.
pub proof fn only_versions_are_decided_on(
    current: &str,
    published: &str,
    cur: Option<Version>,
    new: Option<Version>,
    out: Decision,
)
    requires
        call_ensures(parse_tag, (current,), cur),
        call_ensures(parse_tag, (published,), new),
        call_ensures(decide, (current, published), out),
    ensures
        out is Unrecognized <==> cur is None || new is None,
{
}

/// Of two tags that are versions, the published one no prerelease: it is offered
/// exactly where its numbers are above those of the running version, or are the same
/// and the running version is a prerelease; the running version is the newer one
/// exactly where its numbers are above; and it is up to date where neither holds. A
/// published prerelease is never offered.
pub proof fn a_release_is_offered_exactly_where_it_is_newer(
    current: &str,
    published: &str,
    cur: Version,
    new: Version,
    out: Decision,
)
    requires
        call_ensures(parse_tag, (current,), Some(cur)),
        call_ensures(parse_tag, (published,), Some(new)),
        call_ensures(decide, (current, published), out),
    ensures
        ({
            let (c, n) = (numbers_of(cur), numbers_of(new));
            &&& new.pre is None ==> {
                &&& out is Available <==> is_above(n, c) || (n == c && cur.pre is Some)
                &&& out is CurrentIsNewer <==> is_above(c, n)
                &&& out is UpToDate <==> n == c && cur.pre is None
            }
            &&& new.pre is Some ==> out is PublishedIsPrerelease
            &&& out matches Decision::Available(v) ==> numbers_of(v) == n && v.pre is None
            &&& out matches Decision::PublishedIsPrerelease(v) ==> numbers_of(v) == n && v.pre
                is Some && v.pre->0@ == new.pre->0@
        }),
{
}

/// A version is a prerelease where something stands behind its numbers.
pub proof fn a_prerelease_has_something_behind_its_numbers(v: &Version, out: bool)
    requires
        call_ensures(Version::is_prerelease, (v,), out),
    ensures
        out <==> v.pre is Some,
{
}

} // verus!
