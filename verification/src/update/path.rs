//! Paths of Windows, taken as text: which file a path leads to and how a name is
//! put into a directory.
//!
//! A path may begin with a prefix: a drive, a server and its share, or a device.
//! A verbatim path begins with `\\?\` and is taken more literally: in it only the
//! backslash separates, and a dot is a component like any other.

use vstd::prelude::*;
use vstd::string::*;
use crate::model::texts;
use crate::text::{a_separator_parts_a_text, texts_are_joined_in_their_order};
use crate::text::{chars_of, join, joined, same, split_by, text_of};
use crate::text::without_separators_a_text_is_one_part;

verus! {

// ---------------------------------------------------------------------------
// What a path begins with
// ---------------------------------------------------------------------------

/// The character stands between the components of an ordinary path.
pub open spec fn separates(c: char) -> bool {
    c == '\\' || c == '/'
}

/// The character stands between the components of a path.
pub open spec fn parts(c: char, verbatim: bool) -> bool {
    c == '\\' || (!verbatim && c == '/')
}

/// The path begins with `\\?\`.
pub open spec fn is_verbatim(path: Seq<char>) -> bool {
    path.len() >= 4 && path[0] == '\\' && path[1] == '\\' && path[2] == '?' && path[3] == '\\'
}

/// The letter of a drive and a colon stand at `at`.
pub open spec fn drive_at(path: Seq<char>, at: int) -> bool {
    &&& 0 <= at && at + 1 < path.len()
    &&& path[at + 1] == ':'
    &&& 'a' <= path[at] <= 'z' || 'A' <= path[at] <= 'Z'
}

/// Where the component that starts at `from` ends.
pub open spec fn component_end(path: Seq<char>, from: int, verbatim: bool) -> int
    decreases path.len() - from,
{
    if 0 <= from < path.len() && !parts(path[from], verbatim) {
        component_end(path, from + 1, verbatim)
    } else {
        from
    }
}

/// How long the prefix of a verbatim path is: `\\?\UNC\server\share`, `\\?\C:`, or
/// `\\?\` and one component.
pub open spec fn verbatim_prefix_len(path: Seq<char>) -> int {
    if path.len() >= 8 && path[4] == 'U' && path[5] == 'N' && path[6] == 'C' && path[7] == '\\' {
        let server_end = component_end(path, 8, true);
        let share_end = component_end(path, server_end + 1, true);
        if server_end + 1 < share_end {
            share_end
        } else {
            server_end
        }
    } else if drive_at(path, 4) && (path.len() == 6 || separates(path[6])) {
        6
    } else {
        component_end(path, 4, true)
    }
}

/// How long the prefix of a path is. Besides those of verbatim paths there are
/// `\\.\device`, `\\server\share` and `C:`.
pub open spec fn prefix_len(path: Seq<char>) -> int {
    let server_end = component_end(path, 2, false);
    let share_end = component_end(path, server_end + 1, false);
    if is_verbatim(path) {
        verbatim_prefix_len(path)
    } else if path.len() >= 2 && separates(path[0]) && separates(path[1]) {
        if path.len() >= 4 && path[2] == '.' && separates(path[3]) {
            component_end(path, 4, false)
        } else if 2 < server_end && server_end + 1 < share_end {
            share_end
        } else {
            0
        }
    } else if drive_at(path, 0) {
        2
    } else {
        0
    }
}

/// How long the root of a path is: the prefix and the separator behind it.
pub open spec fn root_len(path: Seq<char>) -> int {
    let prefix = prefix_len(path);
    if prefix < path.len() && separates(path[prefix]) {
        prefix + 1
    } else {
        prefix
    }
}

// ---------------------------------------------------------------------------
// The file that a path leads to
// ---------------------------------------------------------------------------

/// The path behind whose root nothing stands at the end but names: separators
/// there mean nothing, nor do single dots behind a separator in an ordinary path.
pub open spec fn without_tail(path: Seq<char>, root: int, verbatim: bool) -> Seq<char>
    decreases path.len(),
{
    if path.len() > root && path.len() > 0 && (parts(path.last(), verbatim) || (!verbatim
        && path.last() == '.' && path.len() > 1 && separates(path[path.len() - 2]))) {
        without_tail(path.drop_last(), root, verbatim)
    } else {
        path
    }
}

/// Where the last component behind the root begins.
pub open spec fn name_start(path: Seq<char>, root: int, verbatim: bool) -> int
    decreases path.len(),
{
    if path.len() > root && path.len() > 0 && !parts(path.last(), verbatim) {
        name_start(path.drop_last(), root, verbatim)
    } else {
        path.len() as int
    }
}

/// The directory that the file is in which a path leads to, and the name of the
/// file. A root, and a path that ends in a dot or in two, names no file.
pub open spec fn file_in(path: Seq<char>) -> Option<(Seq<char>, Seq<char>)> {
    let verbatim = is_verbatim(path);
    let root = root_len(path);
    let whole = without_tail(path, root, verbatim);
    let start = name_start(whole, root, verbatim);
    let name = whole.skip(start);
    if name.len() == 0 || name == "."@ || name == ".."@ {
        None
    } else {
        Some((without_tail(whole.take(start), root, verbatim), name))
    }
}

// ---------------------------------------------------------------------------
// A name in a directory
// ---------------------------------------------------------------------------

/// The components among the pieces: empty ones are none, and dots only in a
/// verbatim path.
pub open spec fn components_of(pieces: Seq<Seq<char>>, verbatim: bool) -> Seq<Seq<char>>
    decreases pieces.len(),
{
    if pieces.len() == 0 {
        Seq::empty()
    } else {
        let before = components_of(pieces.drop_last(), verbatim);
        if pieces.last().len() == 0 || (!verbatim && pieces.last() == "."@) {
            before
        } else {
            before.push(pieces.last())
        }
    }
}

pub open spec fn components(path: Seq<char>, verbatim: bool) -> Seq<Seq<char>> {
    components_of(split_by(path, |c: char| parts(c, verbatim)), verbatim)
}

/// Where one gets from a directory by the steps, one after the other: two dots
/// take the last name back.
pub open spec fn walked(from: Seq<Seq<char>>, steps: Seq<Seq<char>>) -> Seq<Seq<char>>
    decreases steps.len(),
{
    if steps.len() == 0 {
        from
    } else {
        let before = walked(from, steps.drop_last());
        if steps.last() != ".."@ {
            before.push(steps.last())
        } else if before.len() > 0 && before.last() != "."@ && before.last() != ".."@ {
            before.drop_last()
        } else {
            before
        }
    }
}

/// The path of a name in a verbatim directory, put together anew from its
/// components. A name that begins with a separator starts behind the prefix.
pub open spec fn verbatim_path_in(directory: Seq<char>, name: Seq<char>) -> Seq<char> {
    let prefix = prefix_len(directory);
    let from = if name.len() > 0 && separates(name[0]) {
        Seq::empty()
    } else {
        components(directory.skip(root_len(directory)), true)
    };
    directory.take(prefix) + "\\"@ + joined(walked(from, components(name, false)), "\\"@)
}

/// The path of a name in a directory. A drive alone needs no separator, and a
/// name with a prefix is a path of its own.
pub open spec fn path_in(directory: Seq<char>, name: Seq<char>) -> Seq<char> {
    if prefix_len(name) > 0 {
        name
    } else if is_verbatim(directory) {
        verbatim_path_in(directory, name)
    } else if directory.len() == 0 || separates(directory.last()) || (drive_at(directory, 0)
        && directory.len() == 2) {
        directory + name
    } else {
        directory + "\\"@ + name
    }
}

// ---------------------------------------------------------------------------
// Reading paths
// ---------------------------------------------------------------------------

fn is_separator(c: char) -> (out: bool)
    ensures
        out == separates(c),
{
    c == '\\' || c == '/'
}

fn is_between(c: char, verbatim: bool) -> (out: bool)
    ensures
        out == parts(c, verbatim),
{
    c == '\\' || (!verbatim && c == '/')
}

fn has_verbatim_prefix(path: &Vec<char>) -> (out: bool)
    ensures
        out == is_verbatim(path@),
{
    path.len() >= 4 && path[0] == '\\' && path[1] == '\\' && path[2] == '?' && path[3] == '\\'
}

fn has_drive_at(path: &Vec<char>, at: usize) -> (out: bool)
    requires
        at <= 4,
    ensures
        out == drive_at(path@, at as int),
{
    path.len() >= 2 && at < path.len() - 1 && path[at + 1] == ':' && (('a' <= path[at] && path[at]
        <= 'z') || ('A' <= path[at] && path[at] <= 'Z'))
}

fn end_of_component(path: &Vec<char>, from: usize, verbatim: bool) -> (out: usize)
    requires
        from <= path@.len(),
    ensures
        out == component_end(path@, from as int, verbatim),
        from <= out <= path@.len(),
{
    let mut end: usize = from;
    while end < path.len() && !is_between(path[end], verbatim)
        invariant
            from <= end <= path@.len(),
            component_end(path@, from as int, verbatim) == component_end(
                path@,
                end as int,
                verbatim,
            ),
        decreases path.len() - end,
    {
        end += 1;
    }
    end
}

fn verbatim_prefix_length(path: &Vec<char>) -> (out: usize)
    requires
        is_verbatim(path@),
    ensures
        out == verbatim_prefix_len(path@),
        out <= path@.len(),
{
    if path.len() >= 8 && path[4] == 'U' && path[5] == 'N' && path[6] == 'C' && path[7] == '\\' {
        let server_end: usize = end_of_component(path, 8, true);
        if server_end < path.len() {
            let share_end: usize = end_of_component(path, server_end + 1, true);
            if server_end + 1 < share_end {
                return share_end;
            }
        }
        server_end
    } else if has_drive_at(path, 4) && (path.len() == 6 || is_separator(path[6])) {
        6
    } else {
        end_of_component(path, 4, true)
    }
}

fn prefix_length(path: &Vec<char>) -> (out: usize)
    ensures
        out == prefix_len(path@),
        out <= path@.len(),
{
    if has_verbatim_prefix(path) {
        return verbatim_prefix_length(path);
    }
    if path.len() >= 2 && is_separator(path[0]) && is_separator(path[1]) {
        if path.len() >= 4 && path[2] == '.' && is_separator(path[3]) {
            return end_of_component(path, 4, false);
        }
        let server_end: usize = end_of_component(path, 2, false);
        if 2 < server_end && server_end < path.len() {
            let share_end: usize = end_of_component(path, server_end + 1, false);
            if server_end + 1 < share_end {
                return share_end;
            }
        }
        return 0;
    }
    if has_drive_at(path, 0) {
        2
    } else {
        0
    }
}

fn root_length(path: &Vec<char>) -> (out: usize)
    ensures
        out == root_len(path@),
        out <= path@.len(),
{
    let prefix: usize = prefix_length(path);
    if prefix < path.len() && is_separator(path[prefix]) {
        prefix + 1
    } else {
        prefix
    }
}

/// How much of the first `len` characters is left without their tail.
fn length_without_tail(path: &Vec<char>, len: usize, root: usize, verbatim: bool) -> (out: usize)
    requires
        len <= path@.len(),
    ensures
        path@.take(out as int) == without_tail(path@.take(len as int), root as int, verbatim),
        out <= len,
{
    let mut end: usize = len;
    while end > root && end > 0 && (is_between(path[end - 1], verbatim) || (!verbatim && path[end
        - 1] == '.' && end > 1 && is_separator(path[end - 2])))
        invariant
            end <= len <= path@.len(),
            without_tail(path@.take(len as int), root as int, verbatim) == without_tail(
                path@.take(end as int),
                root as int,
                verbatim,
            ),
        decreases end,
    {
        assert(path@.take(end as int).drop_last() =~= path@.take(end - 1));
        end -= 1;
    }
    end
}

fn start_of_name(path: &Vec<char>, len: usize, root: usize, verbatim: bool) -> (out: usize)
    requires
        len <= path@.len(),
    ensures
        out == name_start(path@.take(len as int), root as int, verbatim),
        out <= len,
{
    let mut start: usize = len;
    while start > root && start > 0 && !is_between(path[start - 1], verbatim)
        invariant
            start <= len <= path@.len(),
            name_start(path@.take(len as int), root as int, verbatim) == name_start(
                path@.take(start as int),
                root as int,
                verbatim,
            ),
        decreases start,
    {
        assert(path@.take(start as int).drop_last() =~= path@.take(start - 1));
        start -= 1;
    }
    start
}

/// The directory and the name of the file that a path leads to.
pub fn split_file(path: &str) -> (out: Option<(String, String)>)
    ensures
        match (out, file_in(path@)) {
            (Some((directory, name)), Some((d, n))) => directory@ == d && name@ == n,
            (None, None) => true,
            _ => false,
        },
{
    let chars = chars_of(path);
    let verbatim: bool = has_verbatim_prefix(&chars);
    let root: usize = root_length(&chars);
    let end: usize = length_without_tail(&chars, chars.len(), root, verbatim);
    let start: usize = start_of_name(&chars, end, root, verbatim);
    let name = text_of(&chars, start, end);
    proof {
        let whole = without_tail(path@, root as int, verbatim);
        assert(path@.take(path@.len() as int) =~= path@);
        assert(name@ =~= whole.skip(start as int));
        assert(whole.take(start as int) =~= path@.take(start as int));
    }
    if name.as_str().is_empty() || same(name.as_str(), ".") || same(name.as_str(), "..") {
        return None;
    }
    let parent: usize = length_without_tail(&chars, start, root, verbatim);
    let directory = text_of(&chars, 0, parent);
    assert(directory@ =~= path@.take(parent as int));
    Some((directory, name))
}

/// Takes a piece of a path for a component, if it is one.
fn add_piece(found: &mut Vec<String>, piece: String, verbatim: bool)
    ensures
        texts(final(found)@) == (if piece@.len() == 0 || (!verbatim && piece@ == "."@) {
            texts(old(found)@)
        } else {
            texts(old(found)@).push(piece@)
        }),
{
    let ghost before = found@;
    if !piece.as_str().is_empty() && (verbatim || !same(piece.as_str(), ".")) {
        found.push(piece);
        assert(texts(found@) =~= texts(before).push(piece@));
    }
}

/// The components from `from` on.
fn split_components(path: &Vec<char>, from: usize, verbatim: bool) -> (out: Vec<String>)
    requires
        from <= path@.len(),
    ensures
        texts(out@) == components(path@.skip(from as int), verbatim),
{
    let ghost rest = path@.skip(from as int);
    let ghost between = |c: char| parts(c, verbatim);
    let mut found: Vec<String> = Vec::new();
    let mut piece = String::new();
    let mut i: usize = from;
    assert(rest.take(0) =~= Seq::empty());
    assert(split_by(rest.take(0), between).drop_last() =~= Seq::empty());
    assert(texts(found@) =~= Seq::empty());
    while i < path.len()
        invariant
            from <= i <= path@.len(),
            rest == path@.skip(from as int),
            between == (|c: char| parts(c, verbatim)),
            split_by(rest.take(i - from), between).len() > 0,
            piece@ == split_by(rest.take(i - from), between).last(),
            texts(found@) == components_of(
                split_by(rest.take(i - from), between).drop_last(),
                verbatim,
            ),
        decreases path.len() - i,
    {
        let c: char = path[i];
        let ghost pieces = split_by(rest.take(i - from), between);
        let ghost next = rest.take(i + 1 - from);
        assert(next.drop_last() =~= rest.take(i - from));
        assert(next.last() == c);
        if is_between(c, verbatim) {
            assert(split_by(next, between).drop_last() =~= pieces);
            add_piece(&mut found, piece, verbatim);
            piece = String::new();
        } else {
            assert(split_by(next, between).drop_last() =~= pieces.drop_last());
            piece.push(c);
        }
        i += 1;
    }
    assert(rest.take(i - from) =~= rest);
    add_piece(&mut found, piece, verbatim);
    found
}

/// Takes one step from a directory.
fn take_step(place: &mut Vec<String>, step: String)
    ensures
        texts(final(place)@) == walked(texts(old(place)@), seq![step@]),
{
    let ghost before = place@;
    proof {
        let steps = seq![step@];
        assert(steps.drop_last() =~= Seq::empty());
        assert(walked(texts(before), steps.drop_last()) == texts(before));
    }
    if !same(step.as_str(), "..") {
        place.push(step);
        assert(texts(place@) =~= texts(before).push(step@));
        return;
    }
    if place.len() > 0 {
        let last: usize = place.len() - 1;
        assert(texts(before).last() == before[last as int]@);
        if !same(place[last].as_str(), ".") && !same(place[last].as_str(), "..") {
            place.pop();
            assert(texts(place@) =~= texts(before).drop_last());
        }
    }
}

proof fn lemma_walked_on(from: Seq<Seq<char>>, steps: Seq<Seq<char>>, step: Seq<char>)
    ensures
        walked(from, steps.push(step)) == walked(walked(from, steps), seq![step]),
{
    assert(steps.push(step).drop_last() =~= steps);
    assert(seq![step].drop_last() =~= Seq::empty());
    assert(walked(walked(from, steps), seq![step].drop_last()) == walked(from, steps));
}

fn join_verbatim(directory: &Vec<char>, name: &Vec<char>) -> (out: String)
    requires
        is_verbatim(directory@),
    ensures
        out@ == verbatim_path_in(directory@, name@),
{
    let prefix: usize = prefix_length(directory);
    let mut place: Vec<String> = if name.len() > 0 && is_separator(name[0]) {
        Vec::new()
    } else {
        split_components(directory, root_length(directory), true)
    };
    let ghost from = texts(place@);
    assert(name.len() > 0 && separates(name@[0]) ==> from =~= Seq::empty());
    let steps = split_components(name, 0, false);
    let ghost all = texts(steps@);
    assert(name@.skip(0) =~= name@);
    let mut i: usize = 0;
    assert(all.take(0) =~= Seq::empty());
    while i < steps.len()
        invariant
            i <= steps@.len(),
            all == texts(steps@),
            texts(place@) == walked(from, all.take(i as int)),
        decreases steps.len() - i,
    {
        proof {
            lemma_walked_on(from, all.take(i as int), steps@[i as int]@);
            assert(all.take(i + 1) =~= all.take(i as int).push(steps@[i as int]@));
        }
        take_step(&mut place, steps[i].clone());
        i += 1;
    }
    assert(all.take(i as int) =~= all);
    let mut out = text_of(directory, 0, prefix);
    assert(out@ =~= directory@.take(prefix as int));
    out.append("\\");
    out.append(join(&place, "\\").as_str());
    out
}

/// The path of a name in a directory.
pub fn join_path(directory: &str, name: &str) -> (out: String)
    ensures
        out@ == path_in(directory@, name@),
{
    let names = chars_of(name);
    if prefix_length(&names) > 0 {
        return name.to_owned();
    }
    let chars = chars_of(directory);
    if has_verbatim_prefix(&chars) {
        return join_verbatim(&chars, &names);
    }
    let mut out = directory.to_owned();
    if chars.len() > 0 && !is_separator(chars[chars.len() - 1]) && !(has_drive_at(&chars, 0)
        && chars.len() == 2) {
        out.append("\\");
    }
    out.append(name);
    out
}

// ---------------------------------------------------------------------------
// Laws
// ---------------------------------------------------------------------------

/// The text is a name of a file: not empty, without a separator and without a colon,
/// and neither of the two names that only dots make.
pub open spec fn is_name(name: Seq<char>) -> bool {
    &&& name.len() > 0
    &&& forall|i: int|
        0 <= i < name.len() ==> #[trigger] name[i] != '\\' && name[i] != '/' && name[i] != ':'
    &&& name != seq!['.']
    &&& name != seq!['.', '.']
}

/// The path begins with a letter and a colon.
pub open spec fn is_on_a_drive(path: Seq<char>) -> bool {
    path.len() >= 2 && path[1] == ':' && ('a' <= path[0] <= 'z' || 'A' <= path[0] <= 'Z')
}

/// The directory does not end in a separator, nor in a dot behind one.
pub open spec fn has_no_tail(directory: Seq<char>) -> bool {
    let last = directory.len() - 1;
    directory.len() > 0 ==> {
        &&& directory[last] != '\\' && directory[last] != '/'
        &&& directory[last] == '.' ==> directory.len() == 1 || (directory[last - 1] != '\\'
            && directory[last - 1] != '/')
    }
}

proof fn lemma_name_start(x: Seq<char>, name: Seq<char>, root: int)
    requires
        0 <= root <= x.len(),
        x.len() == root || parts(x.last(), false),
        forall|i: int| 0 <= i < name.len() ==> !parts(#[trigger] name[i], false),
    ensures
        name_start(x + name, root, false) == x.len(),
    decreases name.len(),
{
    let path = x + name;
    if name.len() > 0 {
        let rest = name.drop_last();
        assert(path.last() == name[name.len() - 1]);
        assert(path.drop_last() =~= x + rest);
        assert forall|i: int| 0 <= i < rest.len() implies !parts(#[trigger] rest[i], false) by {
            assert(rest[i] == name[i]);
        }
        lemma_name_start(x, rest, root);
    } else {
        assert(path =~= x);
    }
}

proof fn lemma_drive_prefix(path: Seq<char>)
    requires
        is_on_a_drive(path),
    ensures
        !is_verbatim(path),
        prefix_len(path) == 2,
        root_len(path) == (if path.len() > 2 && (path[2] == '\\' || path[2] == '/') {
            3int
        } else {
            2
        }),
{
    assert(!separates(path[0]));
    assert(drive_at(path, 0));
}

proof fn lemma_dots()
    ensures
        "."@ == seq!['.'],
        ".."@ == seq!['.', '.'],
{
    reveal_strlit(".");
    reveal_strlit("..");
    assert("."@ =~= seq!['.']);
    assert(".."@ =~= seq!['.', '.']);
}

/// The last name of a path on a drive is the file, and what stands before it is the
/// directory.
pub proof fn the_last_name_is_the_file(
    directory: Seq<char>,
    separator: char,
    name: Seq<char>,
    path: &str,
    out: Option<(String, String)>,
)
    requires
        is_on_a_drive(directory),
        directory.len() > 2,
        has_no_tail(directory),
        separator == '\\' || separator == '/',
        is_name(name),
        path@ == directory + seq![separator] + name,
        call_ensures(split_file, (path,), out),
    ensures
        out is Some,
        (out->0).0@ == directory,
        (out->0).1@ == name,
{
    let whole = path@;
    let before = directory + seq![separator];
    lemma_dots();
    assert(whole[0] == directory[0] && whole[1] == directory[1] && whole[2] == directory[2]);
    lemma_drive_prefix(whole);
    let root = root_len(whole);
    assert(whole.last() == name[name.len() - 1]);
    if name.len() > 1 {
        assert(whole[whole.len() - 2] == name[name.len() - 2]);
    } else {
        assert(name =~= seq![name[0]]);
    }
    assert(without_tail(whole, root, false) == whole);
    assert(before.last() == separator);
    assert forall|i: int| 0 <= i < name.len() implies !parts(#[trigger] name[i], false) by {}
    lemma_name_start(before, name, root);
    assert(whole.skip(before.len() as int) =~= name);
    assert(whole.take(before.len() as int) =~= before);
    assert(before.drop_last() =~= directory);
    assert(without_tail(directory, root, false) == directory) by {
        if directory.len() > root {
            assert(!parts(directory.last(), false));
        }
    }
    assert(without_tail(before, root, false) == directory);
}

/// A name in a directory on a drive stands behind it and a backslash.
pub proof fn a_name_goes_behind_its_directory(
    directory: &str,
    name: &str,
    out: String,
)
    requires
        is_on_a_drive(directory@),
        directory@.len() > 2,
        has_no_tail(directory@),
        is_name(name@),
        call_ensures(join_path, (directory, name), out),
    ensures
        out@ == directory@ + seq!['\\'] + name@,
{
    lemma_no_prefix(name@);
    lemma_drive_prefix(directory@);
    reveal_strlit("\\");
    assert("\\"@ =~= seq!['\\']);
}

proof fn lemma_no_prefix(name: Seq<char>)
    requires
        is_name(name),
    ensures
        prefix_len(name) == 0,
{
    assert(!separates(name[0]));
    if name.len() > 1 {
        assert(name[1] != ':');
    }
    assert(!drive_at(name, 0));
}

/// A directory that ends in a separator, an empty one and a drive alone take the name
/// without a separator between.
pub proof fn no_separator_is_doubled(directory: &str, name: &str, out: String)
    requires
        is_name(name@),
        directory@.len() == 0 || (is_on_a_drive(directory@) && (directory@.len() == 2
            || directory@.last() == '\\' || directory@.last() == '/')),
        call_ensures(join_path, (directory, name), out),
    ensures
        out@ == directory@ + name@,
{
    lemma_no_prefix(name@);
    if directory@.len() > 0 {
        lemma_drive_prefix(directory@);
    }
}

/// A name alone is the file, in no directory.
pub proof fn a_name_alone_is_the_file(path: &str, out: Option<(String, String)>)
    requires
        is_name(path@),
        call_ensures(split_file, (path,), out),
    ensures
        out is Some,
        (out->0).0@.len() == 0,
        (out->0).1@ == path@,
{
    let whole = path@;
    let none = Seq::<char>::empty();
    lemma_dots();
    lemma_no_prefix(whole);
    assert(!separates(whole[0]));
    assert(root_len(whole) == 0);
    if whole.len() > 1 {
        assert(whole[whole.len() - 2] != '\\' && whole[whole.len() - 2] != '/');
    }
    assert(whole[whole.len() - 1] != '\\' && whole[whole.len() - 1] != '/');
    assert(without_tail(whole, 0, false) == whole);
    assert forall|i: int| 0 <= i < whole.len() implies !parts(#[trigger] whole[i], false) by {}
    lemma_name_start(none, whole, 0);
    assert(none + whole =~= whole);
    assert(whole.skip(0) =~= whole);
    assert(whole.take(0) =~= none);
    assert(without_tail(none, 0, false) == none);
}

proof fn lemma_component_end(path: Seq<char>, from: int, end: int, verbatim: bool)
    requires
        0 <= from <= end <= path.len(),
        forall|i: int| from <= i < end ==> !parts(#[trigger] path[i], verbatim),
        end == path.len() || parts(path[end], verbatim),
    ensures
        component_end(path, from, verbatim) == end,
    decreases end - from,
{
    if from < end {
        lemma_component_end(path, from + 1, end, verbatim);
    }
}

/// The text has no separator, and neither a question mark nor a dot comes first in it.
pub open spec fn is_server(name: Seq<char>) -> bool {
    &&& name.len() > 0 && name[0] != '?' && name[0] != '.'
    &&& forall|i: int| 0 <= i < name.len() ==> #[trigger] name[i] != '\\' && name[i] != '/'
}

/// A share of a server.
pub open spec fn share_of(server: Seq<char>, share: Seq<char>) -> Seq<char> {
    seq!['\\', '\\'] + server + seq!['\\'] + share
}

proof fn lemma_share_prefix(server: Seq<char>, share: Seq<char>, rest: Seq<char>)
    requires
        is_server(server),
        is_server(share),
        rest.len() > 0,
        rest[0] == '\\',
    ensures
        ({
            let path = share_of(server, share) + rest;
            &&& !is_verbatim(path)
            &&& prefix_len(path) == share_of(server, share).len()
            &&& root_len(path) == share_of(server, share).len() + 1
        }),
{
    let path = share_of(server, share) + rest;
    let (a, b) = (2 + server.len() as int, 3 + (server.len() + share.len()) as int);
    assert(path[0] == '\\' && path[1] == '\\');
    assert(path[2] == server[0]);
    assert forall|i: int| 2 <= i < a implies !parts(#[trigger] path[i], false) by {
        assert(path[i] == server[i - 2]);
    }
    assert(path[a] == '\\');
    lemma_component_end(path, 2, a, false);
    assert forall|i: int| a + 1 <= i < b implies !parts(#[trigger] path[i], false) by {
        assert(path[i] == share[i - a - 1]);
    }
    assert(path[b] == rest[0]);
    lemma_component_end(path, a + 1, b, false);
}

/// The last name of a path on a share is the file, and what stands before it is the
/// directory.
pub proof fn the_last_name_on_a_share_is_the_file(
    server: Seq<char>,
    share: Seq<char>,
    below: Seq<char>,
    name: Seq<char>,
    path: &str,
    out: Option<(String, String)>,
)
    requires
        is_server(server),
        is_server(share),
        below.len() > 1 && below[0] == '\\',
        has_no_tail(share_of(server, share) + below),
        is_name(name),
        path@ == share_of(server, share) + below + seq!['\\'] + name,
        call_ensures(split_file, (path,), out),
    ensures
        out is Some,
        (out->0).0@ == share_of(server, share) + below,
        (out->0).1@ == name,
{
    let directory = share_of(server, share) + below;
    let whole = path@;
    let before = directory + seq!['\\'];
    let rest = below + seq!['\\'] + name;
    assert(whole =~= share_of(server, share) + rest);
    assert(rest[0] == below[0]);
    lemma_share_prefix(server, share, rest);
    let root = root_len(whole);
    lemma_dots();
    assert(whole.last() == name[name.len() - 1]);
    if name.len() > 1 {
        assert(whole[whole.len() - 2] == name[name.len() - 2]);
    } else {
        assert(name =~= seq![name[0]]);
    }
    assert(without_tail(whole, root, false) == whole);
    assert(before.last() == '\\');
    assert forall|i: int| 0 <= i < name.len() implies !parts(#[trigger] name[i], false) by {}
    lemma_name_start(before, name, root);
    assert(whole.skip(before.len() as int) =~= name);
    assert(whole.take(before.len() as int) =~= before);
    assert(before.drop_last() =~= directory);
    assert(directory.last() == directory[directory.len() - 1]);
    assert(without_tail(directory, root, false) == directory);
    assert(without_tail(before, root, false) == directory);
}

/// A name in a directory on a share stands behind it and a backslash.
pub proof fn a_name_goes_behind_its_directory_on_a_share(
    server: Seq<char>,
    share: Seq<char>,
    below: Seq<char>,
    directory: &str,
    name: &str,
    out: String,
)
    requires
        is_server(server),
        is_server(share),
        below.len() > 1 && below[0] == '\\',
        directory@ == share_of(server, share) + below,
        has_no_tail(directory@),
        is_name(name@),
        call_ensures(join_path, (directory, name), out),
    ensures
        out@ == directory@ + seq!['\\'] + name@,
{
    lemma_no_prefix(name@);
    lemma_share_prefix(server, share, below);
    assert(directory@[0] == '\\');
    assert(directory@.last() == directory@[directory@.len() - 1]);
    reveal_strlit("\\");
    assert("\\"@ =~= seq!['\\']);
}

/// The names of directories in a verbatim path: not empty and without a backslash.
pub open spec fn are_steps(steps: Seq<Seq<char>>) -> bool {
    forall|i: int|
        0 <= i < steps.len() ==> (#[trigger] steps[i]).len() > 0 && !steps[i].contains('\\')
}

proof fn lemma_steps_read_back(steps: Seq<Seq<char>>)
    requires
        are_steps(steps),
    ensures
        components(joined(steps, "\\"@), true) == steps,
    decreases steps.len(),
{
    reveal_strlit("\\");
    assert("\\"@ =~= seq!['\\']);
    let between = |c: char| parts(c, true);
    texts_are_joined_in_their_order(steps, Seq::empty(), "\\"@);
    if steps.len() == 0 {
        assert(steps =~= Seq::empty());
        without_separators_a_text_is_one_part(Seq::<char>::empty(), between);
        let one = seq![Seq::<char>::empty()];
        assert(one.drop_last() =~= Seq::empty());
        assert(components_of(one.drop_last(), true) =~= Seq::empty());
        assert(components(joined(steps, "\\"@), true) =~= steps);
    } else {
        let (rest, last) = (steps.drop_last(), steps.last());
        assert(steps =~= rest.push(last));
        assert forall|i: int| 0 <= i < rest.len() implies (#[trigger] rest[i]).len() > 0
            && !rest[i].contains('\\') by {
            assert(rest[i] == steps[i]);
        }
        lemma_steps_read_back(rest);
        texts_are_joined_in_their_order(rest, last, "\\"@);
        assert(steps[steps.len() - 1].len() > 0 && !steps[steps.len() - 1].contains('\\'));
        assert forall|i: int| 0 <= i < last.len() implies !between(#[trigger] last[i]) by {
            assert(last.contains(last[i]));
        }
        without_separators_a_text_is_one_part(last, between);
        if rest.len() == 0 {
            assert(steps =~= seq![last]);
            let one = seq![last];
            assert(one.drop_last() =~= Seq::empty());
            assert(components_of(one.drop_last(), true) =~= Seq::empty());
            assert(components(joined(steps, "\\"@), true) =~= steps);
        } else {
            let head = joined(rest, "\\"@);
            a_separator_parts_a_text(head, '\\', last, between);
            let pieces = split_by(head, between);
            assert(pieces + seq![last] =~= pieces.push(last));
            assert(pieces.push(last).drop_last() =~= pieces);
            assert(components(joined(steps, "\\"@), true) =~= steps);
        }
    }
}

/// A verbatim path on a drive.
pub open spec fn verbatim_on(drive: char, steps: Seq<Seq<char>>) -> Seq<char> {
    seq!['\\', '\\', '?', '\\', drive, ':', '\\'] + joined(steps, "\\"@)
}

proof fn lemma_verbatim_prefix(drive: char, rest: Seq<char>)
    requires
        'a' <= drive <= 'z' || 'A' <= drive <= 'Z',
    ensures
        ({
            let path = seq!['\\', '\\', '?', '\\', drive, ':', '\\'] + rest;
            &&& is_verbatim(path)
            &&& prefix_len(path) == 6
            &&& root_len(path) == 7
        }),
{
    let path = seq!['\\', '\\', '?', '\\', drive, ':', '\\'] + rest;
    assert(path[0] == '\\' && path[1] == '\\' && path[2] == '?' && path[3] == '\\');
    assert(path[4] == drive && path[5] == ':' && path[6] == '\\');
}

/// A name in a verbatim directory becomes its last step.
pub proof fn a_name_becomes_the_last_step_of_a_verbatim_path(
    drive: char,
    steps: Seq<Seq<char>>,
    directory: &str,
    name: &str,
    out: String,
)
    requires
        'a' <= drive <= 'z' || 'A' <= drive <= 'Z',
        are_steps(steps),
        directory@ == verbatim_on(drive, steps),
        is_name(name@),
        call_ensures(join_path, (directory, name), out),
    ensures
        out@ == verbatim_on(drive, steps.push(name@)),
{
    let start = seq!['\\', '\\', '?', '\\', drive, ':', '\\'];
    let rest = joined(steps, "\\"@);
    lemma_no_prefix(name@);
    lemma_verbatim_prefix(drive, rest);
    lemma_steps_read_back(steps);
    lemma_dots();
    reveal_strlit("\\");
    assert("\\"@ =~= seq!['\\']);
    assert(directory@.skip(7) =~= rest);
    let between = |c: char| parts(c, false);
    assert forall|i: int| 0 <= i < name@.len() implies !between(#[trigger] name@[i]) by {}
    without_separators_a_text_is_one_part(name@, between);
    let one = seq![name@];
    assert(one.drop_last() =~= Seq::empty());
    assert(components_of(one.drop_last(), false) =~= Seq::empty());
    assert(components(name@, false) =~= one);
    assert(walked(steps, one.drop_last()) == steps);
    assert(walked(steps, one) == steps.push(name@));
    assert(!separates(name@[0]));
    let whole = joined(steps.push(name@), "\\"@);
    assert(directory@.take(6) + "\\"@ + whole =~= start + whole);
}

/// The last step of a verbatim path is the file, and the steps before it are the
/// directory.
pub proof fn the_last_step_of_a_verbatim_path_is_the_file(
    drive: char,
    steps: Seq<Seq<char>>,
    name: Seq<char>,
    path: &str,
    out: Option<(String, String)>,
)
    requires
        'a' <= drive <= 'z' || 'A' <= drive <= 'Z',
        steps.len() > 0,
        are_steps(steps),
        is_name(name),
        path@ == verbatim_on(drive, steps.push(name)),
        call_ensures(split_file, (path,), out),
    ensures
        out is Some,
        (out->0).0@ == verbatim_on(drive, steps),
        (out->0).1@ == name,
{
    let start = seq!['\\', '\\', '?', '\\', drive, ':', '\\'];
    let whole = path@;
    let directory = verbatim_on(drive, steps);
    let before = directory + seq!['\\'];
    reveal_strlit("\\");
    assert("\\"@ =~= seq!['\\']);
    texts_are_joined_in_their_order(steps, name, "\\"@);
    assert(whole =~= before + name);
    lemma_verbatim_prefix(drive, joined(steps.push(name), "\\"@));
    lemma_dots();
    assert(whole.last() == name[name.len() - 1]);
    assert(without_tail(whole, 7, true) == whole);
    assert(before.last() == '\\');
    lemma_verbatim_name_start(before, name, 7);
    assert(whole.skip(before.len() as int) =~= name);
    assert(whole.take(before.len() as int) =~= before);
    assert(before.drop_last() =~= directory);
    lemma_last_of_steps(steps);
    let text = joined(steps, "\\"@);
    assert(directory.last() == text.last());
    assert(without_tail(directory, 7, true) == directory);
    assert(without_tail(before, 7, true) == directory);
}

proof fn lemma_last_of_steps(steps: Seq<Seq<char>>)
    requires
        steps.len() > 0,
        are_steps(steps),
    ensures
        joined(steps, "\\"@).len() > 0,
        joined(steps, "\\"@).last() != '\\',
{
    let (rest, last) = (steps.drop_last(), steps.last());
    assert(steps =~= rest.push(last));
    texts_are_joined_in_their_order(rest, last, "\\"@);
    assert(steps[steps.len() - 1].len() > 0 && !steps[steps.len() - 1].contains('\\'));
    assert(last.contains(last[last.len() - 1]));
    if rest.len() == 0 {
        assert(steps =~= seq![last]);
    }
}

proof fn lemma_verbatim_name_start(x: Seq<char>, name: Seq<char>, root: int)
    requires
        0 <= root <= x.len(),
        x.len() > 0 && x.last() == '\\',
        forall|i: int| 0 <= i < name.len() ==> #[trigger] name[i] != '\\',
    ensures
        name_start(x + name, root, true) == x.len(),
    decreases name.len(),
{
    let path = x + name;
    if name.len() > 0 {
        let rest = name.drop_last();
        assert(path.last() == name[name.len() - 1]);
        assert(path.drop_last() =~= x + rest);
        assert forall|i: int| 0 <= i < rest.len() implies #[trigger] rest[i] != '\\' by {
            assert(rest[i] == name[i]);
        }
        lemma_verbatim_name_start(x, rest, root);
    } else {
        assert(path =~= x);
    }
}

/// A path that is a drive and its root, or that ends in two dots, names no file.
pub proof fn a_root_and_two_dots_name_no_file(
    directory: Seq<char>,
    root: &str,
    dots: &str,
    outs: (Option<(String, String)>, Option<(String, String)>),
)
    requires
        is_on_a_drive(directory),
        root@ == directory.take(2) + seq!['\\'],
        directory.len() > 2,
        dots@ == directory + seq!['\\', '.', '.'],
        call_ensures(split_file, (root,), outs.0),
        call_ensures(split_file, (dots,), outs.1),
    ensures
        outs.0 is None,
        outs.1 is None,
{
    lemma_dots();
    let r = root@;
    assert(r[0] == directory[0] && r[1] == directory[1] && r[2] == '\\');
    lemma_drive_prefix(r);
    assert(without_tail(r, 3, false) == r);
    assert(name_start(r, 3, false) == 3);
    assert(r.skip(3).len() == 0);
    let d = dots@;
    assert(d[0] == directory[0] && d[1] == directory[1] && d[2] == directory[2]);
    lemma_drive_prefix(d);
    let start = root_len(d);
    assert(d.last() == '.' && d[d.len() - 2] == '.');
    assert(without_tail(d, start, false) == d);
    let before = directory + seq!['\\'];
    assert(d =~= before + seq!['.', '.']);
    assert(before.last() == '\\');
    lemma_name_start(before, seq!['.', '.'], start);
    assert(d.skip(before.len() as int) =~= seq!['.', '.']);
}

} // verus!
