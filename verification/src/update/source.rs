//! Where updates come from: the releases of one repository.

use vstd::prelude::*;
use vstd::string::*;
use vstd::utf8::*;
use crate::text::{behind_prefix, chars_of, decimal, decimal_text, same, strip_prefix};
use crate::text::{a_prefix_is_taken_off, text_of, utf8_text};
use crate::update::json::{document, parse, Json, JsonValue};

verus! {

pub const OWNER: &'static str = "denislibs";

pub const REPO: &'static str = "proxy-pilot";

/// The file that is looked for among those of a release.
pub const ASSET_NAME: &'static str = "proxypilot.exe";

pub const API_HOST: &'static str = "api.github.com";

/// More than this a reply may not hold.
pub const MAX_BODY: usize = 67_108_864;

// ---------------------------------------------------------------------------
// Releases
// ---------------------------------------------------------------------------

/// What the last release holds.
#[derive(Debug, Clone, PartialEq, Eq)]
pub struct ReleaseInfo {
    pub tag: String,
    /// Where the file can be downloaded.
    pub asset_url: String,
}

/// The network side of looking for updates.
pub trait UpdateSource: Send + Sync {
    /// The last release. That there is none yet is an error as well.
    fn latest_release(&self) -> Result<ReleaseInfo, String>;

    /// Downloads the file at `url` to the path `dest`.
    fn download(&self, url: &str, dest: &str) -> Result<(), String>;
}

/// The member of an object, where there is one.
pub open spec fn member(value: JsonValue, key: Seq<char>) -> Option<JsonValue> {
    match value {
        JsonValue::Object(map) => if map.contains_key(key) {
            Some(map[key])
        } else {
            None
        },
        _ => None,
    }
}

/// The member of an object that is a string.
pub open spec fn text_member(value: JsonValue, key: Seq<char>) -> Option<Seq<char>> {
    match member(value, key) {
        Some(JsonValue::String(s)) => Some(s),
        _ => None,
    }
}

/// The first of `items` with this name.
pub open spec fn named(items: Seq<JsonValue>, name: Seq<char>) -> Option<JsonValue>
    decreases items.len(),
{
    if items.len() == 0 {
        None
    } else if text_member(items[0], "name"@) == Some(name) {
        Some(items[0])
    } else {
        named(items.drop_first(), name)
    }
}

/// The tag of a release and the address of the file, or what is missing.
pub open spec fn release_in(root: JsonValue, asset_name: Seq<char>) -> Result<
    (Seq<char>, Seq<char>),
    Seq<char>,
> {
    match text_member(root, "tag_name"@) {
        None => Err("в ответе нет поля tag_name"@),
        Some(tag) => match member(root, "assets"@) {
            Some(JsonValue::Array(assets)) => match named(assets, asset_name) {
                None => Err("в релизе "@ + tag + " нет файла "@ + asset_name),
                Some(asset) => match text_member(asset, "browser_download_url"@) {
                    None => Err("у найденного ассета нет browser_download_url"@),
                    Some(url) => Ok((tag, url)),
                },
            },
            _ => Err("в ответе нет списка assets"@),
        },
    }
}

/// What a reply of the service says of the last release.
pub open spec fn release_reply(body: Seq<char>, asset_name: Seq<char>) -> Result<
    (Seq<char>, Seq<char>),
    Seq<char>,
> {
    match document(encode_utf8(body)) {
        Err(why) => Err("ответ GitHub не разобрался: "@ + why),
        Ok(root) => release_in(root, asset_name),
    }
}

/// The string under a key.
fn text_under<'a>(value: &'a Json, key: &str) -> (out: Option<&'a str>)
    requires
        value.well_formed(),
    ensures
        match out {
            Some(s) => text_member(value@, key@) == Some(s@),
            None => text_member(value@, key@) is None,
        },
{
    match value.get(key) {
        Some(v) => v.as_str(),
        None => None,
    }
}

/// Finds the first of the items with this name.
fn find_named<'a>(items: &'a [Json], name: &str, Ghost(values): Ghost<Seq<JsonValue>>) -> (out: Option<
    &'a Json,
>)
    requires
        values.len() == items@.len(),
        forall|i: int| 0 <= i < items@.len() ==> values[i] == (#[trigger] items@[i])@,
        forall|i: int| 0 <= i < items@.len() ==> (#[trigger] items@[i]).well_formed(),
    ensures
        match out {
            Some(v) => named(values, name@) == Some(v@) && v.well_formed(),
            None => named(values, name@) is None,
        },
{
    let mut i: usize = 0;
    assert(values.skip(0) =~= values);
    while i < items.len()
        invariant
            i <= items@.len(),
            values.len() == items@.len(),
            forall|k: int| 0 <= k < items@.len() ==> values[k] == (#[trigger] items@[k])@,
            forall|k: int| 0 <= k < items@.len() ==> (#[trigger] items@[k]).well_formed(),
            named(values, name@) == named(values.skip(i as int), name@),
        decreases items.len() - i,
    {
        assert(values.skip(i as int)[0] == items@[i as int]@);
        assert(values.skip(i as int).drop_first() =~= values.skip(i + 1));
        if let Some(own) = text_under(&items[i], "name") {
            if same(own, name) {
                return Some(&items[i]);
            }
        }
        i += 1;
    }
    None
}

/// Reads the reply of the service and finds the file with the given name in it.
pub fn parse_release_response(body: &str, asset_name: &str) -> (out: Result<ReleaseInfo, String>)
    ensures
        match (out, release_reply(body@, asset_name@)) {
            (Ok(release), Ok((tag, url))) => release.tag@ == tag && release.asset_url@ == url,
            (Err(message), Err(m)) => message@ == m,
            _ => false,
        },
{
    let root = match parse(body) {
        Ok(root) => root,
        Err(why) => {
            let mut message = "ответ GitHub не разобрался: ".to_owned();
            message.append(why.as_str());
            return Err(message);
        },
    };
    let tag = match text_under(&root, "tag_name") {
        Some(tag) => tag.to_owned(),
        None => {
            return Err("в ответе нет поля tag_name".to_owned());
        },
    };
    let list = match root.get("assets") {
        Some(list) => list,
        None => {
            return Err("в ответе нет списка assets".to_owned());
        },
    };
    let assets = match list.as_array() {
        Some(assets) => assets,
        None => {
            return Err("в ответе нет списка assets".to_owned());
        },
    };
    let ghost values = list@->Array_0;
    match find_named(assets, asset_name, Ghost(values)) {
        None => {
            let mut message = "в релизе ".to_owned();
            message.append(tag.as_str());
            message.append(" нет файла ");
            message.append(asset_name);
            Err(message)
        },
        Some(asset) => match text_under(asset, "browser_download_url") {
            None => Err("у найденного ассета нет browser_download_url".to_owned()),
            Some(url) => Ok(ReleaseInfo { tag, asset_url: url.to_owned() }),
        },
    }
}

// ---------------------------------------------------------------------------
// Addresses and replies
// ---------------------------------------------------------------------------

/// The host and the path in an address: `https://host[:port]/path`. The port is
/// part of neither.
pub open spec fn https_parts(url: Seq<char>) -> Result<(Seq<char>, Seq<char>), Seq<char>> {
    match behind_prefix(url, "https://"@) {
        None => Err("ожидался https://: "@ + url),
        Some(rest) => {
            let (authority, path) = match rest.index_of_first('/') {
                Some(i) => (rest.take(i), rest.skip(i)),
                None => (rest, "/"@),
            };
            let host = match authority.index_of_first(':') {
                Some(i) => authority.take(i),
                None => authority,
            };
            if host.len() == 0 {
                Err("пустой хост в ссылке: "@ + url)
            } else {
                Ok((host, path))
            }
        },
    }
}

/// Splits an address into host and path. Nothing but `https` is taken, and a
/// port is left out.
pub fn split_https_url(url: &str) -> (out: Result<(String, String), String>)
    ensures
        match (out, https_parts(url@)) {
            (Ok((host, path)), Ok((h, p))) => host@ == h && path@ == p,
            (Err(message), Err(m)) => message@ == m,
            _ => false,
        },
{
    let rest = match strip_prefix(url, "https://") {
        Some(rest) => rest,
        None => {
            let mut message = "ожидался https://: ".to_owned();
            message.append(url);
            return Err(message);
        },
    };
    let chars = chars_of(rest.as_str());
    let mut slash: usize = 0;
    while slash < chars.len() && chars[slash] != '/'
        invariant
            slash <= chars@.len(),
            chars@ == rest@,
            forall|k: int| 0 <= k < slash ==> rest@[k] != '/',
        decreases chars.len() - slash,
    {
        slash += 1;
    }
    proof {
        rest@.index_of_first_ensures('/');
        if slash < chars@.len() {
            assert(rest@[slash as int] == '/');
            assert(rest@.contains('/'));
            let k = rest@.index_of_first('/')->0;
            assert(k == slash);
        } else {
            assert(!rest@.contains('/'));
            assert(rest@ =~= rest@.subrange(0, slash as int));
        }
    }
    let mut colon: usize = 0;
    while colon < slash && chars[colon] != ':'
        invariant
            colon <= slash <= chars@.len(),
            chars@ == rest@,
            forall|k: int| 0 <= k < colon ==> rest@[k] != ':',
        decreases slash - colon,
    {
        colon += 1;
    }
    proof {
        let authority = rest@.take(slash as int);
        authority.index_of_first_ensures(':');
        if colon < slash {
            assert(authority[colon as int] == ':');
            assert(authority.contains(':'));
            assert(authority.index_of_first(':') == Some(colon as int));
            assert(authority.take(colon as int) =~= rest@.subrange(0, colon as int));
        } else {
            assert(!authority.contains(':'));
            assert(authority =~= rest@.subrange(0, colon as int));
        }
    }
    if colon == 0 {
        let mut message = "пустой хост в ссылке: ".to_owned();
        message.append(url);
        return Err(message);
    }
    let host = text_of(&chars, 0, colon);
    let path = if slash < chars.len() {
        text_of(&chars, slash, chars.len())
    } else {
        "/".to_owned()
    };
    Ok((host, path))
}

/// Which request it was.
pub open spec fn request_line(host: Seq<char>, path: Seq<char>) -> Seq<char> {
    " на GET https://"@ + host + path
}

fn refused(what: &str, status: u16, host: &str, path: &str) -> (out: String)
    ensures
        out@ == what@ + decimal(status as nat) + request_line(host@, path@),
{
    let mut request = " на GET https://".to_owned();
    request.append(host);
    request.append(path);
    let mut out = what.to_owned();
    out.append(decimal_text(status as u64).as_str());
    out.append(request.as_str());
    out
}

/// The calls that one request is made of, in their order.
#[derive(Debug, Clone, Copy, PartialEq, Eq, Structural)]
pub enum Phase {
    Open,
    Connect,
    OpenRequest,
    Send,
    Receive,
    Status,
    /// Ask how much of the body has come.
    Available,
    /// Read what has come.
    Read,
}

/// The name of the call in messages.
pub open spec fn call_name(phase: Phase) -> Seq<char> {
    match phase {
        Phase::Open => "WinHttpOpen"@,
        Phase::Connect => "WinHttpConnect"@,
        Phase::OpenRequest => "WinHttpOpenRequest"@,
        Phase::Send => "WinHttpSendRequest"@,
        Phase::Receive => "WinHttpReceiveResponse"@,
        Phase::Status => "WinHttpQueryHeaders(status)"@,
        Phase::Available => "WinHttpQueryDataAvailable"@,
        Phase::Read => "WinHttpReadData"@,
    }
}

/// The call behind this one. The last two take turns.
pub open spec fn following(phase: Phase) -> Phase {
    match phase {
        Phase::Open => Phase::Connect,
        Phase::Connect => Phase::OpenRequest,
        Phase::OpenRequest => Phase::Send,
        Phase::Send => Phase::Receive,
        Phase::Receive => Phase::Status,
        Phase::Status => Phase::Available,
        Phase::Available => Phase::Read,
        Phase::Read => Phase::Available,
    }
}

/// What is behind a call of a request: the next call, or the text of the
/// failure. `result` is the code of the error, if the call failed.
pub fn request(phase: Phase, result: Result<(), u32>) -> (out: Result<Phase, String>)
    ensures
        match result {
            Ok(_) => out == Ok::<Phase, String>(following(phase)),
            Err(code) => out matches Err(message) && message@ == call_name(phase)
                + ": WinHTTP код ошибки "@ + decimal(code as nat),
        },
{
    match result {
        Ok(_) => Ok(
            match phase {
                Phase::Open => Phase::Connect,
                Phase::Connect => Phase::OpenRequest,
                Phase::OpenRequest => Phase::Send,
                Phase::Send => Phase::Receive,
                Phase::Receive => Phase::Status,
                Phase::Status => Phase::Available,
                Phase::Available => Phase::Read,
                Phase::Read => Phase::Available,
            },
        ),
        Err(code) => {
            let name = match phase {
                Phase::Open => "WinHttpOpen",
                Phase::Connect => "WinHttpConnect",
                Phase::OpenRequest => "WinHttpOpenRequest",
                Phase::Send => "WinHttpSendRequest",
                Phase::Receive => "WinHttpReceiveResponse",
                Phase::Status => "WinHttpQueryHeaders(status)",
                Phase::Available => "WinHttpQueryDataAvailable",
                Phase::Read => "WinHttpReadData",
            };
            let mut message = name.to_owned();
            message.append(": WinHTTP код ошибки ");
            message.append(decimal_text(code as u64).as_str());
            Err(message)
        },
    }
}

/// What came of writing a downloaded file.
pub fn written_to(dest: &str, result: Result<(), String>) -> (out: Result<(), String>)
    ensures
        match result {
            Ok(_) => out is Ok,
            Err(why) => out matches Err(message) && message@ == "не записать "@ + dest@ + ": "@
                + why@,
        },
{
    match result {
        Ok(_) => Ok(()),
        Err(why) => {
            let mut message = "не записать ".to_owned();
            message.append(dest);
            message.append(": ");
            message.append(why.as_str());
            Err(message)
        },
    }
}

/// Reads the reply to a request: only the status 200 is success, and the body
/// must be UTF-8. `reply` is the status and the body, or why there is none.
pub fn get_https(host: &str, path: &str, reply: Result<(u16, Vec<u8>), String>) -> (out: Result<
    String,
    String,
>)
    ensures
        match reply {
            Err(why) => out matches Err(message) && message@ == why@,
            Ok((status, body)) => if status != 200 {
                out matches Err(message) && message@ == "GitHub API ответил "@ + decimal(
                    status as nat,
                ) + request_line(host@, path@)
            } else if valid_utf8(body@) {
                out matches Ok(text) && text@ == decode_utf8(body@)
            } else {
                out matches Err(message) && message@ == "ответ GitHub не UTF-8"@
            },
        },
{
    match reply {
        Err(why) => Err(why),
        Ok((status, body)) => {
            if status != 200 {
                return Err(refused("GitHub API ответил ", status, host, path));
            }
            match utf8_text(body.as_slice()) {
                Some(text) => Ok(text.to_owned()),
                None => Err("ответ GitHub не UTF-8".to_owned()),
            }
        },
    }
}

/// Reads the reply to a download: the bytes of the file, if the status is 200.
pub fn download_https(host: &str, path: &str, reply: Result<(u16, Vec<u8>), String>) -> (out:
    Result<Vec<u8>, String>)
    ensures
        match reply {
            Err(why) => out matches Err(message) && message@ == why@,
            Ok((status, body)) => if status != 200 {
                out matches Err(message) && message@ == "скачивание ответило "@ + decimal(
                    status as nat,
                ) + request_line(host@, path@)
            } else {
                out == Ok::<Vec<u8>, String>(body)
            },
        },
{
    match reply {
        Err(why) => Err(why),
        Ok((status, body)) => {
            if status != 200 {
                Err(refused("скачивание ответило ", status, host, path))
            } else {
                Ok(body)
            }
        },
    }
}

/// What to do behind a piece of a reply.
#[derive(Debug, PartialEq, Eq)]
pub enum BodyStep {
    More,
    /// The reply is complete.
    End,
    /// The reply is longer than it may be.
    TooLong(String),
}

/// Adds a piece to the body of a reply. An empty piece ends it, and a body over
/// the limit is given up.
pub fn read_body(body: &mut Vec<u8>, piece: Vec<u8>) -> (out: BodyStep)
    ensures
        final(body)@ == old(body)@ + piece@,
        piece@.len() == 0 <==> out is End,
        piece@.len() > 0 && final(body)@.len() > MAX_BODY ==> (out matches BodyStep::TooLong(why)
            && why@ == "ответ длиннее ожидаемого — прервано"@),
        piece@.len() > 0 && final(body)@.len() <= MAX_BODY ==> out is More,
{
    let ghost before = body@;
    if piece.len() == 0 {
        assert(before + piece@ =~= before);
        return BodyStep::End;
    }
    let mut rest = piece;
    body.append(&mut rest);
    if body.len() > MAX_BODY {
        BodyStep::TooLong("ответ длиннее ожидаемого — прервано".to_owned())
    } else {
        BodyStep::More
    }
}

/// The releases of a repository.
#[derive(Debug, PartialEq, Eq)]
pub struct GithubSource {
    pub owner: String,
    pub repo: String,
}

impl Default for GithubSource {
    fn default() -> (out: Self)
        ensures
            out.owner@ == OWNER@,
            out.repo@ == REPO@,
    {
        GithubSource { owner: OWNER.to_owned(), repo: REPO.to_owned() }
    }
}

impl GithubSource {
    /// The path of the last release.
    pub open spec fn release_address(&self) -> Seq<char> {
        "/repos/"@ + self.owner@ + "/"@ + self.repo@ + "/releases/latest"@
    }

    /// The path that the service answers with the last release.
    pub fn release_path(&self) -> (out: String)
        ensures
            out@ == self.release_address(),
    {
        let mut out = "/repos/".to_owned();
        out.append(self.owner.as_str());
        out.append("/");
        out.append(self.repo.as_str());
        out.append("/releases/latest");
        out
    }

    /// The last release, given the reply to the request for it.
    pub fn latest_release(&self, reply: Result<(u16, Vec<u8>), String>) -> (out: Result<
        ReleaseInfo,
        String,
    >)
        ensures
            match reply {
                Err(why) => out matches Err(message) && message@ == why@,
                Ok((status, body)) => if status != 200 {
                    out matches Err(message) && message@ == "GitHub API ответил "@ + decimal(
                        status as nat,
                    ) + request_line(API_HOST@, self.release_address())
                } else if !valid_utf8(body@) {
                    out matches Err(message) && message@ == "ответ GitHub не UTF-8"@
                } else {
                    match (out, release_reply(decode_utf8(body@), ASSET_NAME@)) {
                        (Ok(release), Ok((tag, url))) => release.tag@ == tag
                            && release.asset_url@ == url,
                        (Err(message), Err(m)) => message@ == m,
                        _ => false,
                    }
                },
            },
    {
        match get_https(API_HOST, self.release_path().as_str(), reply) {
            Ok(text) => parse_release_response(text.as_str(), ASSET_NAME),
            Err(why) => Err(why),
        }
    }
}

// ---------------------------------------------------------------------------
// Laws
// ---------------------------------------------------------------------------

/// The object has this text under this key.
pub open spec fn has_text(value: JsonValue, key: Seq<char>, text: Seq<char>) -> bool {
    value matches JsonValue::Object(map) && map.contains_key(key) && map[key] == JsonValue::String(
        text,
    )
}

/// The first of the items that bears this name.
pub open spec fn is_first_named(items: Seq<JsonValue>, i: int, name: Seq<char>) -> bool {
    &&& 0 <= i < items.len()
    &&& has_text(items[i], "name"@, name)
    &&& forall|j: int| 0 <= j < i ==> !has_text(#[trigger] items[j], "name"@, name)
}

proof fn lemma_first_named(items: Seq<JsonValue>, i: int, name: Seq<char>)
    requires
        is_first_named(items, i, name),
    ensures
        named(items, name) == Some(items[i]),
    decreases i,
{
    if i > 0 {
        let rest = items.drop_first();
        assert(!has_text(items[0], "name"@, name));
        assert forall|j: int| 0 <= j < i - 1 implies !has_text(#[trigger] rest[j], "name"@, name) by {
            assert(rest[j] == items[j + 1]);
        }
        assert(rest[i - 1] == items[i]);
        lemma_first_named(rest, i - 1, name);
    }
}

proof fn lemma_none_named(items: Seq<JsonValue>, name: Seq<char>)
    requires
        forall|j: int| 0 <= j < items.len() ==> !has_text(#[trigger] items[j], "name"@, name),
    ensures
        named(items, name) is None,
    decreases items.len(),
{
    if items.len() > 0 {
        let rest = items.drop_first();
        assert(!has_text(items[0], "name"@, name));
        assert forall|j: int| 0 <= j < rest.len() implies !has_text(#[trigger] rest[j], "name"@, name) by {
            assert(rest[j] == items[j + 1]);
        }
        lemma_none_named(rest, name);
    }
}

/// A reply gives the tag that it names and the address of the first of its files
/// that bears the name that is looked for.
pub proof fn a_release_is_found_by_the_name_of_its_file(
    body: &str,
    name: &str,
    root: Json,
    tag: Seq<char>,
    assets: Seq<JsonValue>,
    i: int,
    url: Seq<char>,
    out: Result<ReleaseInfo, String>,
)
    requires
        call_ensures(parse, (body,), Ok::<Json, String>(root)),
        call_ensures(parse_release_response, (body, name), out),
        has_text(root@, "tag_name"@, tag),
        root@->Object_0.contains_key("assets"@) && root@->Object_0["assets"@] == JsonValue::Array(
            assets,
        ),
    ensures
        is_first_named(assets, i, name@) && has_text(assets[i], "browser_download_url"@, url)
            ==> out is Ok && out->Ok_0.tag@ == tag && out->Ok_0.asset_url@ == url,
        is_first_named(assets, i, name@) && !(exists|u: Seq<char>|
            has_text(assets[i], "browser_download_url"@, u)) ==> out is Err && out->Err_0@
            == "у найденного ассета нет browser_download_url"@,
        (forall|j: int|
            0 <= j < assets.len() ==> !has_text(#[trigger] assets[j], "name"@, name@)) ==> out is Err
            && out->Err_0@ == "в релизе "@ + tag + " нет файла "@ + name@,
{
    if is_first_named(assets, i, name@) {
        lemma_first_named(assets, i, name@);
        if let Some(u) = text_member(assets[i], "browser_download_url"@) {
            assert(has_text(assets[i], "browser_download_url"@, u));
        }
    }
    if forall|j: int| 0 <= j < assets.len() ==> !has_text(#[trigger] assets[j], "name"@, name@) {
        lemma_none_named(assets, name@);
    }
}

/// A reply without a tag, without files or that is no JSON is refused, and the
/// refusal says which.
pub proof fn an_unfit_reply_is_refused(
    body: &str,
    name: &str,
    root: Result<Json, String>,
    out: Result<ReleaseInfo, String>,
)
    requires
        call_ensures(parse, (body,), root),
        call_ensures(parse_release_response, (body, name), out),
    ensures
        root matches Err(why) ==> out is Err && out->Err_0@ == "ответ GitHub не разобрался: "@ + why@,
        root matches Ok(r) ==> !(exists|tag: Seq<char>| has_text(r@, "tag_name"@, tag)) ==> out is Err
            && out->Err_0@ == "в ответе нет поля tag_name"@,
        root matches Ok(r) ==> (exists|tag: Seq<char>| has_text(r@, "tag_name"@, tag)) && !(
        r@->Object_0.contains_key("assets"@) && r@->Object_0["assets"@] is Array) ==> out is Err
            && out->Err_0@ == "в ответе нет списка assets"@,
{
    if let Ok(r) = root {
        if let Some(t) = text_member(r@, "tag_name"@) {
            assert(has_text(r@, "tag_name"@, t));
        }
    }
}

/// The host of an address goes up to the first colon or slash behind `https://`, the
/// path begins at the first slash; without one it is a slash, and a port is left out.
pub proof fn an_address_is_taken_apart(
    host: Seq<char>,
    port: Seq<char>,
    path: Seq<char>,
    url: &str,
    out: Result<(String, String), String>,
)
    requires
        call_ensures(split_https_url, (url,), out),
        url@ == "https://"@ + (host + port + path),
        !host.contains(':') && !host.contains('/'),
        port.len() > 0 ==> port[0] == ':',
        !port.contains('/'),
        path.len() > 0 ==> path[0] == '/',
    ensures
        host.len() == 0 ==> out is Err && out->Err_0@ == "пустой хост в ссылке: "@ + url@,
        host.len() > 0 ==> out is Ok && (out->Ok_0).0@ == host,
        host.len() > 0 && path.len() > 0 ==> (out->Ok_0).1@ == path,
        host.len() > 0 && path.len() == 0 ==> (out->Ok_0).1@ == seq!['/'],
{
    let rest = host + port + path;
    a_prefix_is_taken_off("https://"@, rest, url@);
    let authority = host + port;
    reveal_strlit("/");
    assert("/"@ =~= seq!['/']);
    rest.index_of_first_ensures('/');
    assert forall|i: int| 0 <= i < authority.len() implies rest[i] == authority[i] && #[trigger] authority[i]
        != '/' by {
        if i < host.len() {
            assert(host.contains(host[i]));
        } else {
            assert(port.contains(port[i - host.len()]));
        }
    }
    if path.len() > 0 {
        assert(rest[authority.len() as int] == '/');
        assert(rest.contains('/'));
        let i = rest.index_of_first('/')->0;
        if i < authority.len() {
            assert(rest[i] == authority[i]);
        }
        assert(i == authority.len());
        assert(rest.take(i) =~= authority);
        assert(rest.skip(i) =~= path);
    } else {
        assert(rest =~= authority);
        assert(!rest.contains('/'));
    }
    authority.index_of_first_ensures(':');
    if port.len() > 0 {
        assert(authority[host.len() as int] == ':');
        assert(authority.contains(':'));
        let i = authority.index_of_first(':')->0;
        if i < host.len() {
            assert(host[i] == authority[i]);
            assert(host.contains(':'));
        }
        assert(authority.take(i) =~= host);
    } else {
        assert(authority =~= host);
    }
}

/// An address of any other kind is refused.
pub proof fn only_https_is_taken(url: &str, out: Result<(String, String), String>)
    requires
        call_ensures(split_https_url, (url,), out),
        !"https://"@.is_prefix_of(url@),
    ensures
        out is Err && out->Err_0@ == "ожидался https://: "@ + url@,
{
}

/// The calls of a request follow each other, and the last two take turns. A failed one
/// is told by its name and its code.
pub proof fn the_calls_of_a_request_follow_each_other(
    phase: Phase,
    result: Result<(), u32>,
    out: Result<Phase, String>,
)
    requires
        call_ensures(request, (phase, result), out),
    ensures
        result is Err ==> out is Err,
        result is Ok ==> out is Ok && match phase {
            Phase::Open => out->Ok_0 == Phase::Connect,
            Phase::Connect => out->Ok_0 == Phase::OpenRequest,
            Phase::OpenRequest => out->Ok_0 == Phase::Send,
            Phase::Send => out->Ok_0 == Phase::Receive,
            Phase::Receive => out->Ok_0 == Phase::Status,
            Phase::Status => out->Ok_0 == Phase::Available,
            Phase::Available => out->Ok_0 == Phase::Read,
            Phase::Read => out->Ok_0 == Phase::Available,
        },
        result matches Err(code) ==> {
            let end = ": WinHTTP код ошибки "@ + decimal(code as nat);
            let why = out->Err_0@;
            match phase {
                Phase::Open => why == "WinHttpOpen"@ + end,
                Phase::Connect => why == "WinHttpConnect"@ + end,
                Phase::OpenRequest => why == "WinHttpOpenRequest"@ + end,
                Phase::Send => why == "WinHttpSendRequest"@ + end,
                Phase::Receive => why == "WinHttpReceiveResponse"@ + end,
                Phase::Status => why == "WinHttpQueryHeaders(status)"@ + end,
                Phase::Available => why == "WinHttpQueryDataAvailable"@ + end,
                Phase::Read => why == "WinHttpReadData"@ + end,
            }
        },
{
    if let Err(code) = result {
        let number = decimal(code as nat);
        assert(call_name(phase) + ": WinHTTP код ошибки "@ + number =~= call_name(phase) + (
        ": WinHTTP код ошибки "@ + number));
    }
}

/// Only the status 200 is success: then the text of the body comes out, or its bytes.
/// Anything else is told with the status and the address.
pub proof fn only_one_status_is_success(
    host: &str,
    path: &str,
    reply: Result<(u16, Vec<u8>), String>,
    text: Result<String, String>,
    bytes: Result<Vec<u8>, String>,
)
    requires
        call_ensures(get_https, (host, path, reply), text),
        call_ensures(download_https, (host, path, reply), bytes),
    ensures
        bytes is Ok <==> reply is Ok && (reply->Ok_0).0 == 200,
        bytes is Ok ==> bytes->Ok_0@ == (reply->Ok_0).1@,
        text is Ok <==> reply is Ok && (reply->Ok_0).0 == 200 && valid_utf8((reply->Ok_0).1@),
        text is Ok ==> encode_utf8(text->Ok_0@) == (reply->Ok_0).1@,
        reply matches Err(why) ==> text->Err_0@ == why@ && bytes->Err_0@ == why@,
        reply is Ok && (reply->Ok_0).0 == 200 && !valid_utf8((reply->Ok_0).1@) ==> text->Err_0@
            == "ответ GitHub не UTF-8"@,
        reply is Ok && (reply->Ok_0).0 != 200 ==> {
            let end = decimal((reply->Ok_0).0 as nat) + (" на GET https://"@ + host@ + path@);
            &&& text->Err_0@ == "GitHub API ответил "@ + end
            &&& bytes->Err_0@ == "скачивание ответило "@ + end
        },
{
    if let Ok((status, body)) = reply {
        let number = decimal(status as nat);
        let end = " на GET https://"@ + host@ + path@;
        assert("GitHub API ответил "@ + number + end =~= "GitHub API ответил "@ + (number + end));
        assert("скачивание ответило "@ + number + end =~= "скачивание ответило "@ + (number + end));
        if valid_utf8(body@) {
            decode_utf8_encode_utf8(body@);
        }
    }
}

/// Pieces go behind each other. An empty one ends the reply, and one that brings it
/// over 64 MiB gives it up.
pub proof fn a_reply_grows_piece_by_piece(body: &mut Vec<u8>, piece: Vec<u8>, out: BodyStep)
    requires
        call_ensures(read_body, (body, piece), out),
    ensures
        final(body)@ == old(body)@ + piece@,
        out is End <==> piece@.len() == 0,
        out is TooLong <==> piece@.len() > 0 && old(body)@.len() + piece@.len() > 64 * 1024 * 1024,
        out matches BodyStep::TooLong(why) ==> why@ == "ответ длиннее ожидаемого — прервано"@,
{
}

/// The last release is asked for under the owner and the repository.
pub proof fn the_last_release_is_asked_for(source: &GithubSource, out: String)
    requires
        call_ensures(GithubSource::release_path, (source,), out),
    ensures
        out@ == "/repos/"@ + source.owner@ + "/"@ + source.repo@ + "/releases/latest"@,
{
}

/// The last release is what the reply holds under the name of the program's file.
pub proof fn the_last_release_is_that_of_the_program(
    source: &GithubSource,
    reply: Result<(u16, Vec<u8>), String>,
    path: &str,
    text: Result<String, String>,
    body: &str,
    found: Result<ReleaseInfo, String>,
    out: Result<ReleaseInfo, String>,
)
    requires
        call_ensures(GithubSource::latest_release, (source, reply), out),
        path@ == "/repos/"@ + source.owner@ + "/"@ + source.repo@ + "/releases/latest"@,
        call_ensures(get_https, ("api.github.com", path, reply), text),
        text is Ok ==> body@ == text->Ok_0@,
        call_ensures(parse_release_response, (body, "proxypilot.exe"), found),
    ensures
        text matches Err(why) ==> out is Err && out->Err_0@ == why@,
        text is Ok && found is Err ==> out is Err && out->Err_0@ == found->Err_0@,
        text is Ok && found is Ok ==> out is Ok && out->Ok_0.tag@ == found->Ok_0.tag@
            && out->Ok_0.asset_url@ == found->Ok_0.asset_url@,
{
}

/// What could not be written is told with the path.
pub proof fn a_failed_write_names_the_path(
    dest: &str,
    result: Result<(), String>,
    out: Result<(), String>,
)
    requires
        call_ensures(written_to, (dest, result), out),
    ensures
        out is Ok <==> result is Ok,
        result matches Err(why) ==> out->Err_0@ == "не записать "@ + dest@ + ": "@ + why@,
{
}

/// The releases of this program are asked for, unless it is said otherwise.
pub proof fn the_releases_of_this_program_are_asked_for(source: GithubSource, path: String)
    requires
        call_ensures(GithubSource::default, (), source),
        call_ensures(GithubSource::release_path, (&source,), path),
    ensures
        path@ == "/repos/"@ + "denislibs"@ + "/"@ + "proxy-pilot"@ + "/releases/latest"@,
{
}

} // verus!
