//! The server of the settings page: who is answered, and with what.
//!
//! Every process of the user can reach the server, and so can a page in the
//! user's browser. What keeps them out is a token in the path. Whoever does not
//! present it gets the answer of any server that knows nothing: 404. Whoever
//! presents it and wants to change something must also come from the page
//! itself.

use vstd::prelude::*;
use vstd::string::*;
use vstd::utf8::*;
use crate::model::text_in;
use crate::text::{behind_prefix, chars_of, decimal, decimal_text, equal_but_case, parse_unsigned};
use crate::text::{same, same_but_case, split_at_first, split_first, strip_prefix, text_of};
use crate::text::{a_prefix_is_taken_off, a_text_is_parted_where_it_is_said};
use crate::text::{decimal_is_read_back, is_blank, lemma_decimal_reads_back};
use crate::text::{trim, trimmed, unsigned, white_space_is_taken_off_the_ends};

verus! {

/// How long the server lives without requests, in seconds.
pub const IDLE_TIMEOUT_SECS: u64 = 900;

/// How many random bytes the token has.
pub const TOKEN_BYTES: usize = 32;

/// The longest head of a request.
pub const MAX_HEAD: usize = 8192;

/// The longest body of a form.
pub const MAX_BODY: usize = 65536;

/// How long one connection may take, in seconds.
pub const REQUEST_TIMEOUT_SECS: u64 = 15;

/// How many connections are served at once.
pub const MAX_CONNECTIONS: usize = 32;

/// How many failures to accept in a row close the server.
pub const MAX_CONSECUTIVE_ACCEPT_ERRORS: u32 = 64;

// ---------------------------------------------------------------------------
// The token
// ---------------------------------------------------------------------------

/// `std::hint::black_box` hands its argument back; it only keeps the compiler
/// from looking through it.
pub assume_specification<T>[ std::hint::black_box::<T> ](dummy: T) -> (out: T)
    ensures
        out == dummy,
;

proof fn lemma_difference(diff: u8, a: u8, b: u8)
    by (bit_vector)
    ensures
        (diff | (a ^ b)) == 0 <==> diff == 0 && a == b,
{
}

/// Compares two texts in a time that does not tell where they differ: an early
/// way out would let a stranger guess the token byte by byte.
pub fn constant_time_eq(expected: &[u8], given: &[u8]) -> (out: bool)
    ensures
        out == (expected@ == given@),
{
    if expected.len() != given.len() {
        return false;
    }
    let mut diff: u8 = 0;
    let mut i: usize = 0;
    while i < expected.len()
        invariant
            i <= expected@.len(),
            expected@.len() == given@.len(),
            diff == 0 <==> forall|k: int| 0 <= k < i ==> expected@[k] == given@[k],
        decreases expected.len() - i,
    {
        proof {
            lemma_difference(diff, expected@[i as int], given@[i as int]);
        }
        let ghost before = diff;
        diff = diff | (expected[i] ^ given[i]);
        proof {
            if diff == 0 {
                assert forall|k: int| 0 <= k < i + 1 implies expected@[k] == given@[k] by {}
            } else if before == 0 {
                assert(expected@[i as int] != given@[i as int]);
            }
        }
        i += 1;
    }
    let out: bool = std::hint::black_box(diff) == 0;
    proof {
        if diff == 0 {
            assert(expected@ =~= given@);
        }
    }
    out
}

/// The character of a hexadecimal digit.
pub open spec fn hex_char(d: int) -> char {
    if d < 10 {
        (48 + d) as char
    } else {
        (87 + d) as char
    }
}

/// Bytes in hexadecimal, two digits each.
pub open spec fn hex_text(bytes: Seq<u8>) -> Seq<char>
    decreases bytes.len(),
{
    if bytes.len() == 0 {
        Seq::empty()
    } else {
        hex_text(bytes.drop_last()).push(hex_char(bytes.last() as int / 16)).push(
            hex_char(bytes.last() as int % 16),
        )
    }
}

fn hex_digit(d: u8) -> (out: char)
    requires
        d < 16,
    ensures
        out == hex_char(d as int),
{
    if d < 10 {
        (48 + d) as char
    } else {
        (87 + d) as char
    }
}

/// Why the server could not start.
#[derive(Debug, PartialEq, Eq)]
pub enum SettingsError {
    /// No port could be had, for this reason.
    Bind(String),
    /// The system's source of randomness failed with this status.
    Random(i32),
}

/// A status as it is written: eight hexadecimal digits behind `0x`.
pub open spec fn status_word(status: i32) -> Seq<char> {
    let n = if status < 0 {
        status + 0x1_0000_0000
    } else {
        status as int
    };
    "0x"@.push(hex_char(n / 0x1000_0000 % 16)).push(hex_char(n / 0x100_0000 % 16)).push(
        hex_char(n / 0x10_0000 % 16),
    ).push(hex_char(n / 0x1_0000 % 16)).push(hex_char(n / 0x1000 % 16)).push(
        hex_char(n / 0x100 % 16),
    ).push(hex_char(n / 0x10 % 16)).push(hex_char(n % 16))
}

pub open spec fn settings_error_text(e: SettingsError) -> Seq<char> {
    match e {
        SettingsError::Bind(why) => "не занять loopback-порт для страницы настроек: "@ + why@,
        SettingsError::Random(status) => "системный источник случайности отказал: NTSTATUS "@
            + status_word(status),
    }
}

fn status_text_of(status: i32) -> (out: String)
    ensures
        out@ == status_word(status),
{
    let n: u64 = if status < 0 {
        (status as i64 + 0x1_0000_0000) as u64
    } else {
        status as u64
    };
    let mut out = "0x".to_owned();
    out.push(hex_digit((n / 0x1000_0000 % 16) as u8));
    out.push(hex_digit((n / 0x100_0000 % 16) as u8));
    out.push(hex_digit((n / 0x10_0000 % 16) as u8));
    out.push(hex_digit((n / 0x1_0000 % 16) as u8));
    out.push(hex_digit((n / 0x1000 % 16) as u8));
    out.push(hex_digit((n / 0x100 % 16) as u8));
    out.push(hex_digit((n / 0x10 % 16) as u8));
    out.push(hex_digit((n % 16) as u8));
    out
}

impl SettingsError {
    /// The error in words.
    pub fn text(&self) -> (out: String)
        ensures
            out@ == settings_error_text(*self),
    {
        match self {
            SettingsError::Bind(why) => {
                let mut out = "не занять loopback-порт для страницы настроек: ".to_owned();
                out.append(why.as_str());
                out
            },
            SettingsError::Random(status) => {
                let mut out = "системный источник случайности отказал: NTSTATUS ".to_owned();
                out.append(status_text_of(*status).as_str());
                out
            },
        }
    }
}

/// The token, given what the system's source of randomness returned. Without
/// randomness there is no token, and without a token there is no server.
pub fn random_token(status: i32, bytes: &[u8]) -> (out: Result<String, SettingsError>)
    ensures
        match out {
            Ok(token) => status == 0 && token@ == hex_text(bytes@),
            Err(e) => status != 0 && e == SettingsError::Random(status),
        },
{
    if status != 0 {
        return Err(SettingsError::Random(status));
    }
    let mut token = String::new();
    let mut i: usize = 0;
    assert(bytes@.take(0) =~= Seq::<u8>::empty());
    while i < bytes.len()
        invariant
            i <= bytes@.len(),
            token@ == hex_text(bytes@.take(i as int)),
        decreases bytes.len() - i,
    {
        assert(bytes@.take(i + 1).drop_last() =~= bytes@.take(i as int));
        assert(bytes@.take(i + 1).last() == bytes@[i as int]);
        token.push(hex_digit(bytes[i] / 16));
        token.push(hex_digit(bytes[i] % 16));
        i += 1;
    }
    assert(bytes@.take(i as int) =~= bytes@);
    Ok(token)
}

/// The address to open in the browser. The token is part of it: it is a key, and
/// it does not go to the log.
#[derive(Debug, Clone, PartialEq, Eq)]
pub struct SettingsUrl {
    pub url: String,
}

/// Our own address.
pub open spec fn own_origin(port: u16) -> Seq<char> {
    "http://127.0.0.1:"@ + decimal(port as nat)
}

fn origin_text(port: u16) -> (out: String)
    ensures
        out@ == own_origin(port),
{
    let mut out = "http://127.0.0.1:".to_owned();
    out.append(decimal_text(port as u64).as_str());
    out
}

impl SettingsUrl {
    /// The address of the page for this port and token.
    pub fn new(port: u16, token: &str) -> (out: SettingsUrl)
        ensures
            out.url@ == own_origin(port) + "/"@ + token@,
    {
        let mut url = origin_text(port);
        url.append("/");
        url.append(token);
        SettingsUrl { url }
    }
}

// ---------------------------------------------------------------------------
// Requests
// ---------------------------------------------------------------------------

/// The head of a request, as far as it is looked at.
#[derive(Debug, PartialEq, Eq)]
pub struct Head {
    pub method: String,
    pub target: String,
    pub host: Option<String>,
    pub origin: Option<String>,
    pub referer: Option<String>,
    pub content_length: Option<String>,
    /// What came behind the head already.
    pub leftover: Vec<u8>,
}

/// Where the path ends: at the first `?` or `#`, or with the target.
pub open spec fn path_end(target: Seq<char>, from: int) -> int
    decreases target.len() - from,
{
    if 0 <= from < target.len() && target[from] != '?' && target[from] != '#' {
        path_end(target, from + 1)
    } else {
        from
    }
}

/// The path of a target without the leading slash, the query and the fragment.
pub open spec fn path_of(target: Seq<char>) -> Option<Seq<char>> {
    behind_prefix(target.take(path_end(target, 0)), "/"@)
}

/// The first segment of a path, and the rest.
pub open spec fn first_segment(path: Seq<char>) -> (Seq<char>, Seq<char>) {
    match split_first(path, '/') {
        Some((first, rest)) => (first, rest),
        None => (path, Seq::empty()),
    }
}

fn request_path(target: &str) -> (out: Option<String>)
    ensures
        text_in(out) == path_of(target@),
{
    let chars = chars_of(target);
    let mut end: usize = 0;
    while end < chars.len() && chars[end] != '?' && chars[end] != '#'
        invariant
            end <= chars@.len(),
            chars@ == target@,
            path_end(target@, 0) == path_end(target@, end as int),
        decreases chars.len() - end,
    {
        end += 1;
    }
    let path = text_of(&chars, 0, end);
    assert(path@ =~= target@.take(path_end(target@, 0)));
    strip_prefix(path.as_str(), "/")
}

fn split_first_segment(path: &str) -> (out: (String, String))
    ensures
        (out.0@, out.1@) == first_segment(path@),
{
    match split_at_first(path, '/') {
        Some((first, rest)) => (first, rest),
        None => (path.to_owned(), String::new()),
    }
}

/// The request names our own host. A page that has its own name resolved to
/// this machine names another one.
pub open spec fn own_host(head: Head, port: u16) -> bool {
    text_in(head.host) == Some("127.0.0.1:"@ + decimal(port as nat))
}

/// The request comes from our own page. `Origin` decides where it is there;
/// `Referer` stands in for it. With neither the request is not from our page.
pub open spec fn own_page(head: Head, port: u16) -> bool {
    let ours = own_origin(port);
    match (text_in(head.origin), text_in(head.referer)) {
        (Some(origin), _) => origin == ours,
        (None, Some(referer)) => referer == ours || (ours + "/"@).is_prefix_of(referer),
        (None, None) => false,
    }
}

fn host_is_ours(head: &Head, port: u16) -> (out: bool)
    ensures
        out == own_host(*head, port),
{
    match &head.host {
        Some(host) => {
            let mut ours = "127.0.0.1:".to_owned();
            ours.append(decimal_text(port as u64).as_str());
            same(host.as_str(), ours.as_str())
        },
        None => false,
    }
}

fn origin_is_ours(head: &Head, port: u16) -> (out: bool)
    ensures
        out == own_page(*head, port),
{
    let ours = origin_text(port);
    if let Some(origin) = &head.origin {
        return same(origin.as_str(), ours.as_str());
    }
    if let Some(referer) = &head.referer {
        if same(referer.as_str(), ours.as_str()) {
            return true;
        }
        let mut page = ours;
        page.append("/");
        return strip_prefix(referer.as_str(), page.as_str()).is_some();
    }
    false
}

/// What reading the head of a request came to.
#[derive(Debug, PartialEq, Eq)]
pub enum HeadRead {
    Head(Head),
    /// The connection was opened and closed.
    Truncated,
    /// It is no head.
    Bad,
}

/// How a request is answered.
#[derive(Debug, Clone, Copy, PartialEq, Eq, Structural)]
pub enum Answer {
    /// Not at all.
    Silence,
    BadRequest,
    NotFound,
    /// The page.
    Page,
    NotAllowed,
    Forbidden,
    /// The form in the body is read and handled, then the page is shown.
    Form,
}

/// The request presents the token and nothing behind it.
pub open spec fn presents_token(head: Head, token: Seq<char>) -> bool {
    match path_of(head.target@) {
        Some(path) => first_segment(path) == (token, Seq::<char>::empty()),
        None => false,
    }
}

/// How a request is answered.
pub open spec fn answer(head: Head, token: Seq<char>, port: u16) -> Answer {
    if !own_host(head, port) || !presents_token(head, token) {
        Answer::NotFound
    } else if same_but_case(head.method@, "GET"@) {
        Answer::Page
    } else if !same_but_case(head.method@, "POST"@) {
        Answer::NotAllowed
    } else if !own_page(head, port) {
        Answer::Forbidden
    } else {
        Answer::Form
    }
}

/// How a connection is answered, whatever was read from it.
pub open spec fn answer_to(read: HeadRead, token: Seq<char>, port: u16) -> Answer {
    match read {
        HeadRead::Head(head) => answer(head, token, port),
        HeadRead::Truncated => Answer::Silence,
        HeadRead::Bad => Answer::BadRequest,
    }
}

/// The request counts as use of the server: it presented the token.
pub open spec fn counts_as_use(a: Answer) -> bool {
    a == Answer::Page || a == Answer::NotAllowed || a == Answer::Forbidden || a == Answer::Form
}

/// Decides how a connection is answered, and whether it puts off the moment at
/// which the server closes for want of use.
pub fn serve_one(read: &HeadRead, token: &str, port: u16) -> (out: (Answer, bool))
    ensures
        out.0 == answer_to(*read, token@, port),
        out.1 == counts_as_use(out.0),
{
    let head = match read {
        HeadRead::Head(head) => head,
        HeadRead::Truncated => {
            return (Answer::Silence, false);
        },
        HeadRead::Bad => {
            return (Answer::BadRequest, false);
        },
    };
    if !host_is_ours(head, port) {
        return (Answer::NotFound, false);
    }
    let path = match request_path(head.target.as_str()) {
        Some(path) => path,
        None => {
            return (Answer::NotFound, false);
        },
    };
    let (given, tail) = split_first_segment(path.as_str());
    proof {
        encode_utf8_decode_utf8(token@);
        encode_utf8_decode_utf8(given@);
    }
    if !constant_time_eq(token.as_bytes(), given.as_str().as_bytes()) {
        return (Answer::NotFound, false);
    }
    if !tail.as_str().is_empty() {
        return (Answer::NotFound, false);
    }
    assert(tail@ =~= Seq::<char>::empty());
    if equal_but_case(head.method.as_str(), "GET") {
        return (Answer::Page, true);
    }
    if !equal_but_case(head.method.as_str(), "POST") {
        return (Answer::NotAllowed, true);
    }
    if !origin_is_ours(head, port) {
        return (Answer::Forbidden, true);
    }
    (Answer::Form, true)
}

// ---------------------------------------------------------------------------
// Bodies
// ---------------------------------------------------------------------------

/// How long the body of a form is, or why it is not read. Without a length
/// there is no body.
pub open spec fn form_length(content_length: Option<Seq<char>>) -> Result<nat, Seq<char>> {
    match content_length {
        None => Ok(0),
        Some(text) => match unsigned(trimmed(text), usize::MAX as nat) {
            None => Err("нечитаемый Content-Length"@),
            Some(n) => if n > MAX_BODY {
                Err("тело формы больше допустимого"@)
            } else {
                Ok(n)
            },
        },
    }
}

/// Reads how long the body of a form is.
pub fn body_length(head: &Head) -> (out: Result<usize, String>)
    ensures
        match (out, form_length(text_in(head.content_length))) {
            (Ok(len), Ok(n)) => len == n && len <= MAX_BODY,
            (Err(message), Err(m)) => message@ == m,
            _ => false,
        },
{
    match &head.content_length {
        None => Ok(0),
        Some(text) => match parse_unsigned(trim(text.as_str()).as_str(), usize::MAX as u64) {
            None => Err("нечитаемый Content-Length".to_owned()),
            Some(n) => if n > MAX_BODY as u64 {
                Err("тело формы больше допустимого".to_owned())
            } else {
                Ok(n as usize)
            },
        },
    }
}

/// The part of a body that came with the head.
pub fn body_start(head: &Head, len: usize) -> (out: Vec<u8>)
    ensures
        out@ == (if head.leftover@.len() <= len {
            head.leftover@
        } else {
            head.leftover@.take(len as int)
        }),
{
    let mut out: Vec<u8> = Vec::new();
    let mut i: usize = 0;
    while i < head.leftover.len() && i < len
        invariant
            i <= head.leftover@.len(),
            i <= len,
            out@ == head.leftover@.take(i as int),
        decreases head.leftover.len() - i,
    {
        out.push(head.leftover[i]);
        i += 1;
    }
    assert(head.leftover@.len() <= len ==> out@ =~= head.leftover@);
    out
}

/// Adds what was read to a body that is `len` long. Tells whether the body is
/// complete; a connection that ends before that is an error.
pub fn read_body(body: &mut Vec<u8>, piece: Vec<u8>, len: usize) -> (out: Result<bool, String>)
    requires
        old(body)@.len() + piece@.len() <= len,
    ensures
        final(body)@ == old(body)@ + piece@,
        match out {
            Ok(complete) => piece@.len() > 0 && complete == (final(body)@.len() == len),
            Err(message) => piece@.len() == 0 && message@ == "тело формы оборвалось"@,
        },
{
    let ghost before = body@;
    if piece.len() == 0 {
        assert(before + piece@ =~= before);
        return Err("тело формы оборвалось".to_owned());
    }
    let mut rest = piece;
    body.append(&mut rest);
    Ok(body.len() == len)
}

/// What becomes of a form whose body was read, or was not: the body is handled,
/// or the request is answered with this status and text.
pub fn after_body(body: Result<Vec<u8>, String>) -> (out: Result<Vec<u8>, (u16, &'static str)>)
    ensures
        match body {
            Ok(bytes) => out == Ok::<Vec<u8>, (u16, &'static str)>(bytes),
            Err(_) => out matches Err((code, text)) && code == 400 && text@ == "Bad Request\n"@,
        },
{
    match body {
        Ok(bytes) => Ok(bytes),
        Err(_) => Err((400, "Bad Request\n")),
    }
}

// ---------------------------------------------------------------------------
// Responses
// ---------------------------------------------------------------------------

pub const TEXT: &'static str = "text/plain; charset=utf-8";

pub const HTML: &'static str = "text/html; charset=utf-8";

/// What the status is called.
pub open spec fn reason(code: u16) -> Seq<char> {
    if code == 200 {
        "OK"@
    } else if code == 400 {
        "Bad Request"@
    } else if code == 403 {
        "Forbidden"@
    } else if code == 404 {
        "Not Found"@
    } else if code == 405 {
        "Method Not Allowed"@
    } else {
        "Error"@
    }
}

fn status_text(code: u16) -> (out: &'static str)
    ensures
        out@ == reason(code),
{
    if code == 200 {
        "OK"
    } else if code == 400 {
        "Bad Request"
    } else if code == 403 {
        "Forbidden"
    } else if code == 404 {
        "Not Found"
    } else if code == 405 {
        "Method Not Allowed"
    } else {
        "Error"
    }
}

/// What every response says: nothing is kept, the address with the token goes
/// to nobody else, nothing from elsewhere is loaded and nobody puts the page
/// into a frame.
pub const RESPONSE_POLICY: &'static str = "\r\n\
         Connection: close\r\n\
         Cache-Control: no-store\r\n\
         Referrer-Policy: same-origin\r\n\
         X-Content-Type-Options: nosniff\r\n\
         Content-Security-Policy: default-src 'self'; style-src 'self' 'unsafe-inline'; form-action 'self'; frame-ancestors 'none'\r\n\
         \r\n";

/// The head of a response. The length is that of the body in bytes.
pub open spec fn response_head(code: u16, content_type: Seq<char>, body: Seq<char>) -> Seq<char> {
    "HTTP/1.1 "@ + decimal(code as nat) + " "@ + reason(code) + "\r\nContent-Type: "@ + content_type
        + "\r\nContent-Length: "@ + decimal(encode_utf8(body).len()) + RESPONSE_POLICY@
}

/// Writes the head of a response.
pub fn reply(code: u16, content_type: &str, body: &str) -> (out: String)
    ensures
        out@ == response_head(code, content_type@, body@),
{
    let bytes = body.as_bytes();
    let len: usize = bytes.len();
    let mut out = "HTTP/1.1 ".to_owned();
    out.append(decimal_text(code as u64).as_str());
    out.append(" ");
    out.append(status_text(code));
    out.append("\r\nContent-Type: ");
    out.append(content_type);
    out.append("\r\nContent-Length: ");
    out.append(decimal_text(len as u64).as_str());
    out.append(RESPONSE_POLICY);
    out
}

/// The status and the body of an answer that is no page.
pub open spec fn plain_answer(a: Answer) -> Option<(u16, Seq<char>)> {
    match a {
        Answer::BadRequest => Some((400u16, "Bad Request\n"@)),
        Answer::NotFound => Some((404u16, "Not Found\n"@)),
        Answer::NotAllowed => Some((405u16, "Method Not Allowed\n"@)),
        Answer::Forbidden => Some((403u16, "Forbidden\n"@)),
        _ => None,
    }
}

/// The status and the body of an answer that is no page. They say nothing of
/// what this server is.
pub fn plain_reply(a: Answer) -> (out: Option<(u16, &'static str)>)
    ensures
        match out {
            Some((code, body)) => plain_answer(a) == Some((code, body@)),
            None => plain_answer(a) is None,
        },
{
    match a {
        Answer::BadRequest => Some((400, "Bad Request\n")),
        Answer::NotFound => Some((404, "Not Found\n")),
        Answer::NotAllowed => Some((405, "Method Not Allowed\n")),
        Answer::Forbidden => Some((403, "Forbidden\n")),
        _ => None,
    }
}

// ---------------------------------------------------------------------------
// Accepting connections
// ---------------------------------------------------------------------------

/// What happened while the server waited.
#[derive(Debug, Clone, Copy, PartialEq, Eq, Structural)]
pub enum AcceptEvent {
    /// The owner asked to stop, or is gone.
    Stop,
    /// The moment to close for want of use has come; so long ago was the last
    /// use, in milliseconds.
    Deadline { unused_ms: u64 },
    /// A connection came; whether there is room to serve it.
    Accepted { room: bool },
    Failed,
}

/// What the server does.
#[derive(Debug, Clone, Copy, PartialEq, Eq, Structural)]
pub enum AcceptAction {
    Close,
    /// Wait for the next event.
    Wait,
    /// Pause for a moment, then wait for the next event.
    Pause,
    /// Serve the connection apart, then wait for the next event.
    Serve,
    /// Close the connection without a word, then wait for the next event.
    Drop,
}

/// What the server does, and how many failures there were in a row.
pub open spec fn accept_step(errors: u32, event: AcceptEvent, idle_ms: u64) -> (u32, AcceptAction) {
    match event {
        AcceptEvent::Stop => (errors, AcceptAction::Close),
        AcceptEvent::Deadline { unused_ms } => (
            errors,
            if unused_ms < idle_ms {
                AcceptAction::Wait
            } else {
                AcceptAction::Close
            },
        ),
        AcceptEvent::Accepted { room } => (
            0,
            if room {
                AcceptAction::Serve
            } else {
                AcceptAction::Drop
            },
        ),
        AcceptEvent::Failed => (
            (errors + 1) as u32,
            if errors + 1 >= MAX_CONSECUTIVE_ACCEPT_ERRORS {
                AcceptAction::Close
            } else {
                AcceptAction::Pause
            },
        ),
    }
}

/// Decides what the server does. `errors` counts the failures in a row; the
/// server has closed before there are too many.
pub fn accept_loop(errors: u32, event: AcceptEvent, idle_ms: u64) -> (out: (u32, AcceptAction))
    requires
        errors < MAX_CONSECUTIVE_ACCEPT_ERRORS,
    ensures
        out == accept_step(errors, event, idle_ms),
        out.1 != AcceptAction::Close ==> out.0 < MAX_CONSECUTIVE_ACCEPT_ERRORS,
{
    match event {
        AcceptEvent::Stop => (errors, AcceptAction::Close),
        AcceptEvent::Deadline { unused_ms } => if unused_ms < idle_ms {
            (errors, AcceptAction::Wait)
        } else {
            (errors, AcceptAction::Close)
        },
        AcceptEvent::Accepted { room } => if room {
            (0, AcceptAction::Serve)
        } else {
            (0, AcceptAction::Drop)
        },
        AcceptEvent::Failed => if errors + 1 >= MAX_CONSECUTIVE_ACCEPT_ERRORS {
            (errors + 1, AcceptAction::Close)
        } else {
            (errors + 1, AcceptAction::Pause)
        },
    }
}

// ---------------------------------------------------------------------------
// Laws
// ---------------------------------------------------------------------------

/// A request that does not present the token is answered as by a server that
/// knows nothing, and it does not keep the server open.
pub proof fn without_the_token_nothing_is_found(head: Head, token: Seq<char>, port: u16)
    requires
        !presents_token(head, token),
    ensures
        answer(head, token, port) == Answer::NotFound,
        !counts_as_use(answer(head, token, port)),
        plain_answer(answer(head, token, port)) == Some((404u16, "Not Found\n"@)),
{
}

/// A request that names another host finds nothing, with the token or without.
pub proof fn another_host_finds_nothing(head: Head, token: Seq<char>, port: u16)
    requires
        !own_host(head, port),
    ensures
        answer(head, token, port) == Answer::NotFound,
{
}

/// A form is taken only from our own page, with the token.
pub proof fn only_our_own_page_changes_anything(head: Head, token: Seq<char>, port: u16)
    requires
        answer(head, token, port) == Answer::Form,
    ensures
        own_host(head, port),
        presents_token(head, token),
        own_page(head, port),
        same_but_case(head.method@, "POST"@),
{
}

/// A request that says nothing of where it comes from changes nothing, and
/// neither does one whose `Origin` is not ours, whatever its `Referer`.
pub proof fn a_foreign_origin_changes_nothing(head: Head, token: Seq<char>, port: u16)
    requires
        match head.origin {
            Some(origin) => origin@ != own_origin(port),
            None => head.referer is None,
        },
    ensures
        answer(head, token, port) != Answer::Form,
{
}

/// A request that presents one token does not present another.
pub proof fn a_request_presents_one_token(head: Head, first: Seq<char>, second: Seq<char>)
    requires
        presents_token(head, first),
        presents_token(head, second),
    ensures
        first == second,
{
}

/// A hexadecimal digit is a small letter or a figure.
pub open spec fn is_hex_char(c: char) -> bool {
    '0' <= c <= '9' || 'a' <= c <= 'f'
}

proof fn lemma_hex_text(bytes: Seq<u8>)
    ensures
        hex_text(bytes).len() == 2 * bytes.len(),
        forall|i: int| 0 <= i < hex_text(bytes).len() ==> is_hex_char(#[trigger] hex_text(bytes)[i]),
    decreases bytes.len(),
{
    if bytes.len() > 0 {
        let before = hex_text(bytes.drop_last());
        lemma_hex_text(bytes.drop_last());
        assert forall|i: int| 0 <= i < hex_text(bytes).len() implies is_hex_char(
            #[trigger] hex_text(bytes)[i],
        ) by {
            if i < before.len() {
                assert(hex_text(bytes)[i] == before[i]);
            }
        }
    }
}

/// Different bytes give different tokens: the token of another session opens
/// nothing.
pub proof fn tokens_differ_with_their_bytes(a: Seq<u8>, b: Seq<u8>)
    requires
        hex_text(a) == hex_text(b),
    ensures
        a == b,
    decreases a.len(),
{
    lemma_hex_text(a);
    lemma_hex_text(b);
    if a.len() > 0 {
        let (x, y) = (hex_text(a), hex_text(b));
        let (p, q) = (hex_text(a.drop_last()), hex_text(b.drop_last()));
        assert(x[x.len() - 1] == hex_char(a.last() as int % 16));
        assert(y[y.len() - 1] == hex_char(b.last() as int % 16));
        assert(x[x.len() - 2] == hex_char(a.last() as int / 16));
        assert(y[y.len() - 2] == hex_char(b.last() as int / 16));
        assert(a.last() as int % 16 == b.last() as int % 16);
        assert(a.last() as int / 16 == b.last() as int / 16);
        assert(a.last() == b.last());
        assert(p =~= x.take(x.len() - 2));
        assert(q =~= y.take(y.len() - 2));
        tokens_differ_with_their_bytes(a.drop_last(), b.drop_last());
        assert(a =~= a.drop_last().push(a.last()));
        assert(b =~= b.drop_last().push(b.last()));
    } else {
        assert(a =~= b);
    }
}

proof fn lemma_path_end(target: Seq<char>, from: int)
    requires
        0 <= from <= target.len(),
        forall|i: int| from <= i < target.len() ==> target[i] != '?' && target[i] != '#',
    ensures
        path_end(target, from) == target.len(),
    decreases target.len() - from,
{
    if from < target.len() {
        lemma_path_end(target, from + 1);
    }
}

/// The address that is handed out leads to the page: a request for its path, to
/// its host, presents the token of any bytes.
pub proof fn the_address_leads_to_the_page(head: Head, bytes: Seq<u8>, port: u16)
    requires
        head.target@ == "/"@ + hex_text(bytes),
        own_host(head, port),
        same_but_case(head.method@, "GET"@),
    ensures
        answer(head, hex_text(bytes), port) == Answer::Page,
{
    let token = hex_text(bytes);
    let target = head.target@;
    reveal_strlit("/");
    lemma_hex_text(bytes);
    assert forall|i: int| 0 <= i < target.len() implies target[i] != '?' && target[i] != '#' by {
        if i > 0 {
            assert(target[i] == token[i - 1]);
            assert(is_hex_char(token[i - 1]));
        } else {
            assert(target[0] == "/"@[0]);
        }
    }
    lemma_path_end(target, 0);
    assert(target.take(path_end(target, 0)) =~= target);
    assert("/"@ =~= target.subrange(0, 1));
    assert(target.skip(1) =~= token);
    token.index_of_first_ensures('/');
    assert(!token.contains('/')) by {
        if token.contains('/') {
            let i = choose|i: int| 0 <= i < token.len() && token[i] == '/';
            assert(is_hex_char(token[i]));
        }
    }
}

/// So many failures in a row close the server, and any connection starts the
/// count anew.
pub proof fn failures_in_a_row_close_the_server(errors: u32, idle_ms: u64, room: bool)
    requires
        errors < MAX_CONSECUTIVE_ACCEPT_ERRORS,
    ensures
        accept_step(errors, AcceptEvent::Failed, idle_ms).1 == AcceptAction::Close <==> errors
            == MAX_CONSECUTIVE_ACCEPT_ERRORS - 1,
        accept_step(errors, AcceptEvent::Failed, idle_ms).0 == errors + 1,
        accept_step(errors, AcceptEvent::Accepted { room }, idle_ms).0 == 0,
{
}

/// Something other than the path begins.
pub open spec fn ends_path(s: Seq<char>) -> bool {
    s.len() == 0 || s[0] == '?' || s[0] == '#'
}

/// The target is the token behind a slash, with a slash behind it or none, and
/// then nothing but a query or a fragment.
pub open spec fn leads_to(target: Seq<char>, token: Seq<char>) -> bool {
    exists|tail: Seq<char>|
        #![trigger "/"@ + token + tail]
        target == "/"@ + token + tail && (ends_path(tail) || (tail[0] == '/' && ends_path(
            tail.skip(1),
        )))
}

/// The token has no character that means something in an address.
pub open spec fn is_plain(token: Seq<char>) -> bool {
    !token.contains('/') && !token.contains('?') && !token.contains('#')
}

proof fn lemma_path_end_at(target: Seq<char>, from: int, end: int)
    requires
        0 <= from <= end <= target.len(),
        forall|i: int| from <= i < end ==> target[i] != '?' && target[i] != '#',
        end == target.len() || target[end] == '?' || target[end] == '#',
    ensures
        path_end(target, from) == end,
    decreases end - from,
{
    if from < end {
        lemma_path_end_at(target, from + 1, end);
    }
}

proof fn lemma_where_the_path_ends(target: Seq<char>, from: int)
    requires
        0 <= from <= target.len(),
    ensures
        ({
            let end = path_end(target, from);
            &&& from <= end <= target.len()
            &&& end == target.len() || target[end] == '?' || target[end] == '#'
        }),
    decreases target.len() - from,
{
    if from < target.len() && target[from] != '?' && target[from] != '#' {
        lemma_where_the_path_ends(target, from + 1);
    }
}

proof fn lemma_presents(head: Head, token: Seq<char>)
    requires
        is_plain(token),
    ensures
        presents_token(head, token) <==> leads_to(head.target@, token),
{
    let target = head.target@;
    reveal_strlit("/");
    assert("/"@ =~= seq!['/']);
    if presents_token(head, token) {
        let end = path_end(target, 0);
        lemma_where_the_path_ends(target, 0);
        let path = target.take(end);
        let rest = path_of(target)->0;
        a_prefix_is_taken_off("/"@, rest, path);
        let tail = target.skip(1 + token.len() as int);
        rest.index_of_first_ensures('/');
        match split_first(rest, '/') {
            Some((first, behind)) => {
                assert(rest =~= token + seq!['/']);
                assert(path =~= seq!['/'] + token + seq!['/']);
                assert(end == token.len() + 2);
                assert(target =~= "/"@ + token + tail);
                assert(tail[0] == path[token.len() as int + 1]);
                assert(tail.skip(1) =~= target.skip(end));
            },
            None => {
                assert(path =~= seq!['/'] + token);
                assert(end == token.len() + 1);
                assert(target =~= "/"@ + token + tail);
                assert(tail =~= target.skip(end));
            },
        }
    }
    if leads_to(target, token) {
        let tail = choose|tail: Seq<char>|
            #![trigger "/"@ + token + tail]
            target == "/"@ + token + tail && (ends_path(tail) || (tail[0] == '/' && ends_path(
                tail.skip(1),
            )));
        let slash = !ends_path(tail);
        let path = if slash {
            "/"@ + token + seq!['/']
        } else {
            "/"@ + token
        };
        let end = path.len() as int;
        assert(slash ==> tail.len() >= 1);
        assert(path =~= target.take(end));
        assert forall|i: int| 0 <= i < end implies target[i] != '?' && target[i] != '#' by {
            assert(target[i] == path[i]);
            if 1 <= i <= token.len() {
                assert(path[i] == token[i - 1]);
                assert(token.contains(token[i - 1]));
            }
        }
        if end < target.len() {
            if slash {
                assert(target[end] == tail.skip(1)[0]);
            } else {
                assert(target[end] == tail[0]);
            }
        }
        lemma_path_end_at(target, 0, end);
        let rest = path.skip(1);
        a_prefix_is_taken_off("/"@, rest, path);
        assert(path =~= "/"@ + rest);
        if slash {
            assert(rest =~= token + seq!['/'] + Seq::<char>::empty());
            a_text_is_parted_where_it_is_said(token, '/', Seq::empty());
        } else {
            assert(rest =~= token);
            a_text_is_parted_where_it_is_said(token, '/', Seq::empty());
        }
    }
}

/// A request is let in if and only if it names our own address as its host and
/// asks for the token. Everybody else is answered 404, whatever the method, and
/// does not keep the server open.
pub proof fn only_the_token_lets_in(read: &HeadRead, token: &str, port: u16, out: (Answer, bool))
    requires
        is_plain(token@),
        call_ensures(serve_one, (read, token, port), out),
    ensures
        read is Truncated <==> out.0 == Answer::Silence,
        read is Bad <==> out.0 == Answer::BadRequest,
        out.1 <==> (read matches HeadRead::Head(head) && (head.host matches Some(host) && host@
            == "127.0.0.1:"@ + decimal(port as nat)) && leads_to(head.target@, token@)),
        read is Head && !out.1 <==> out.0 == Answer::NotFound,
{
    if let HeadRead::Head(head) = read {
        lemma_presents(*head, token@);
    }
}

/// Whoever was let in gets the page for a `GET`, and has a form taken for a
/// `POST` if and only if the request says that it comes from our own page. Any
/// other method is refused.
pub proof fn the_page_is_shown_and_its_form_is_taken(
    read: &HeadRead,
    token: &str,
    port: u16,
    get: bool,
    post: bool,
    method: &str,
    out: (Answer, bool),
)
    requires
        call_ensures(serve_one, (read, token, port), out),
        read matches HeadRead::Head(head) && head.method@ == method@,
        call_ensures(equal_but_case, (method, "GET"), get),
        call_ensures(equal_but_case, (method, "POST"), post),
        out.1,
    ensures
        ({
            let head = read->Head_0;
            let ours = "http://127.0.0.1:"@ + decimal(port as nat);
            let from_us = match (head.origin, head.referer) {
                (Some(origin), _) => origin@ == ours,
                (None, Some(referer)) => referer@ == ours || exists|rest: Seq<char>|
                    referer@ == #[trigger] (ours + "/"@ + rest),
                (None, None) => false,
            };
            out.0 == (if get {
                Answer::Page
            } else if !post {
                Answer::NotAllowed
            } else if from_us {
                Answer::Form
            } else {
                Answer::Forbidden
            })
        }),
{
    let head = read->Head_0;
    let ours = "http://127.0.0.1:"@ + decimal(port as nat);
    if let (None, Some(referer)) = (head.origin, head.referer) {
        let start = ours + "/"@;
        if start.is_prefix_of(referer@) {
            let rest = referer@.skip(start.len() as int);
            assert(referer@ =~= ours + "/"@ + rest);
        }
        if exists|rest: Seq<char>| referer@ == #[trigger] (ours + "/"@ + rest) {
            let rest = choose|rest: Seq<char>| referer@ == #[trigger] (ours + "/"@ + rest);
            assert(start =~= referer@.subrange(0, start.len() as int));
        }
    }
}

/// A form of any length up to 64 KiB is read at the length that its head names,
/// with white space around it or without. A longer one is refused.
pub proof fn a_form_of_any_allowed_length_is_read(
    head: &Head,
    a: Seq<char>,
    n: nat,
    b: Seq<char>,
    out: Result<usize, String>,
)
    requires
        call_ensures(body_length, (head,), out),
        head.content_length matches Some(text) && text@ == a + decimal(n) + b,
        forall|i: int| 0 <= i < a.len() ==> is_blank(#[trigger] a[i]),
        forall|i: int| 0 <= i < b.len() ==> is_blank(#[trigger] b[i]),
    ensures
        n <= 0x10000 ==> out == Ok::<usize, String>(n as usize),
        n > 0x10000 ==> out is Err,
        0x10000 < n <= usize::MAX ==> out->Err_0@ == "тело формы больше допустимого"@,
{
    lemma_decimal_reads_back(n);
    let digits = decimal(n);
    assert(crate::text::is_digit(digits[0]));
    assert(crate::text::is_digit(digits[digits.len() - 1]));
    white_space_is_taken_off_the_ends(a, digits, b);
    if n <= usize::MAX {
        decimal_is_read_back(n, usize::MAX as nat);
    }
}

/// Without a length there is no body, and a length that is no number is refused.
pub proof fn a_form_without_a_length_is_empty(head: &Head, out: Result<usize, String>)
    requires
        call_ensures(body_length, (head,), out),
    ensures
        head.content_length is None ==> out == Ok::<usize, String>(0),
        out matches Ok(n) ==> n <= 0x10000,
        head.content_length matches Some(text) && unsigned(trimmed(text@), usize::MAX as nat) is None
            ==> out is Err && out->Err_0@ == "нечитаемый Content-Length"@,
{
}

/// What came behind the head is the beginning of the body, as far as the body
/// goes.
pub proof fn the_body_begins_behind_the_head(head: &Head, len: usize, out: Vec<u8>)
    requires
        call_ensures(body_start, (head, len), out),
    ensures
        out@.len() <= len,
        out@.len() == head.leftover@.len() || out@.len() == len,
        out@.is_prefix_of(head.leftover@),
{
    assert(out@ =~= head.leftover@.subrange(0, out@.len() as int));
}

/// Each piece goes behind what was read before. The body is complete exactly when
/// it is as long as was said, and a connection that ends before that breaks it
/// off.
pub proof fn a_body_grows_until_it_is_complete(
    body: &mut Vec<u8>,
    piece: Vec<u8>,
    len: usize,
    out: Result<bool, String>,
)
    requires
        call_ensures(read_body, (body, piece, len), out),
    ensures
        final(body)@ == old(body)@ + piece@,
        out is Err <==> piece@.len() == 0,
        piece@.len() > 0 ==> (out == Ok::<bool, String>(true) <==> old(body)@.len() + piece@.len()
            == len),
{
}

/// A body that was read is handled as it is; one that was not is answered 400.
pub proof fn an_unread_body_is_a_bad_request(
    body: Result<Vec<u8>, String>,
    out: Result<Vec<u8>, (u16, &'static str)>,
)
    requires
        call_ensures(after_body, (body,), out),
    ensures
        body matches Ok(bytes) ==> out matches Ok(handled) && handled@ == bytes@,
        body is Err ==> out is Err && (out->Err_0).0 == 400,
{
}

/// Every answer that is no page has its own status, and no other answer has one.
pub proof fn each_refusal_has_its_status(a: Answer, out: Option<(u16, &'static str)>)
    requires
        call_ensures(plain_reply, (a,), out),
    ensures
        out is None <==> a == Answer::Page || a == Answer::Form || a == Answer::Silence,
        out matches Some((code, _)) ==> {
            &&& code == 400 <==> a == Answer::BadRequest
            &&& code == 403 <==> a == Answer::Forbidden
            &&& code == 404 <==> a == Answer::NotFound
            &&& code == 405 <==> a == Answer::NotAllowed
        },
{
}

/// A response begins with its status, names its kind, and says how many bytes its
/// body has, then nothing that could be kept or shown elsewhere.
pub proof fn a_response_says_how_long_it_is(code: u16, kind: &str, body: &str, out: String)
    requires
        call_ensures(reply, (code, kind, body), out),
    ensures
        ("HTTP/1.1 "@ + decimal(code as nat) + " "@).is_prefix_of(out@),
        exists|start: Seq<char>|
            out@ == #[trigger] (start + "\r\nContent-Type: "@ + kind@ + "\r\nContent-Length: "@
                + decimal(encode_utf8(body@).len()) + "\r\n\
         Connection: close\r\n\
         Cache-Control: no-store\r\n\
         Referrer-Policy: same-origin\r\n\
         X-Content-Type-Options: nosniff\r\n\
         Content-Security-Policy: default-src 'self'; style-src 'self' 'unsafe-inline'; form-action 'self'; frame-ancestors 'none'\r\n\
         \r\n"@),
{
    let first = "HTTP/1.1 "@ + decimal(code as nat) + " "@;
    assert(first =~= out@.subrange(0, first.len() as int));
    let start = first + reason(code);
    assert(out@ =~= start + "\r\nContent-Type: "@ + kind@ + "\r\nContent-Length: "@ + decimal(
        encode_utf8(body@).len(),
    ) + RESPONSE_POLICY@);
}

/// The number that a small hexadecimal digit stands for.
pub open spec fn hex_number(c: char) -> int {
    if '0' <= c <= '9' {
        c as int - '0' as int
    } else {
        c as int - 'a' as int + 10
    }
}

proof fn lemma_hex_pairs(bytes: Seq<u8>, i: int)
    requires
        0 <= i < bytes.len(),
    ensures
        hex_text(bytes).len() == 2 * bytes.len(),
        hex_number(hex_text(bytes)[2 * i]) * 16 + hex_number(hex_text(bytes)[2 * i + 1])
            == bytes[i],
    decreases bytes.len(),
{
    lemma_hex_text(bytes);
    lemma_hex_text(bytes.drop_last());
    if i < bytes.len() - 1 {
        lemma_hex_pairs(bytes.drop_last(), i);
        assert(hex_text(bytes)[2 * i] == hex_text(bytes.drop_last())[2 * i]);
        assert(hex_text(bytes)[2 * i + 1] == hex_text(bytes.drop_last())[2 * i + 1]);
    } else {
        assert(hex_text(bytes)[2 * i] == hex_char(bytes[i] as int / 16));
        assert(hex_text(bytes)[2 * i + 1] == hex_char(bytes[i] as int % 16));
    }
}

/// A token holds every byte of the randomness, each as two hexadecimal digits, and
/// there is one exactly where the source of randomness did not fail.
pub proof fn a_token_holds_all_its_bytes(
    status: i32,
    bytes: &[u8],
    out: Result<String, SettingsError>,
    i: int,
)
    requires
        call_ensures(random_token, (status, bytes), out),
    ensures
        out is Ok <==> status == 0,
        out matches Ok(token) ==> token@.len() == 2 * bytes@.len() && is_plain(token@),
        out matches Ok(token) ==> (0 <= i < bytes@.len() ==> is_hex_char(token@[2 * i])
            && is_hex_char(token@[2 * i + 1]) && hex_number(token@[2 * i]) * 16 + hex_number(
            token@[2 * i + 1],
        ) == bytes@[i]),
{
    lemma_hex_text(bytes@);
    if let Ok(token) = out {
        assert forall|c: char| token@.contains(c) implies is_hex_char(c) by {
            let k = choose|k: int| 0 <= k < token@.len() && token@[k] == c;
            assert(is_hex_char(token@[k]));
        }
    }
    if 0 <= i < bytes@.len() {
        lemma_hex_pairs(bytes@, i);
    }
}

/// The address of the page is our own address with the token behind a slash: a
/// request for it leads to the page.
pub proof fn the_address_holds_port_and_token(port: u16, token: &str, out: SettingsUrl)
    requires
        call_ensures(SettingsUrl::new, (port, token), out),
    ensures
        out.url@ == "http://127.0.0.1:"@ + decimal(port as nat) + "/"@ + token@,
        leads_to("/"@ + token@, token@),
{
    let tail = Seq::<char>::empty();
    assert("/"@ + token@ =~= "/"@ + token@ + tail);
}

/// The server stays open through failures, idle moments that are not long enough
/// and connections, and closes when it is told to, when nobody has used it for the
/// time it was given, and at the sixty-fourth failure in a row.
pub proof fn the_server_closes_when_it_should(
    errors: u32,
    event: AcceptEvent,
    idle_ms: u64,
    out: (u32, AcceptAction),
)
    requires
        errors < 64,
        call_ensures(accept_loop, (errors, event, idle_ms), out),
    ensures
        out.1 == AcceptAction::Close <==> match event {
            AcceptEvent::Stop => true,
            AcceptEvent::Deadline { unused_ms } => unused_ms >= idle_ms,
            AcceptEvent::Accepted { .. } => false,
            AcceptEvent::Failed => errors == 63,
        },
        out.1 == AcceptAction::Serve <==> event == (AcceptEvent::Accepted { room: true }),
        out.1 == AcceptAction::Drop <==> event == (AcceptEvent::Accepted { room: false }),
        out.1 == AcceptAction::Pause <==> event == AcceptEvent::Failed && errors < 63,
        event is Accepted ==> out.0 == 0,
        event is Failed ==> out.0 == errors + 1,
        event is Deadline ==> out.0 == errors,
{
}

/// How much the server takes and how long it waits.
pub proof fn the_limits_of_the_server()
    ensures
        IDLE_TIMEOUT_SECS == 15 * 60,
        TOKEN_BYTES * 8 == 256,
        MAX_HEAD == 8 * 1024,
        MAX_BODY == 64 * 1024,
        REQUEST_TIMEOUT_SECS == 15,
        MAX_CONNECTIONS == 32,
        MAX_CONSECUTIVE_ACCEPT_ERRORS == 2 * MAX_CONNECTIONS,
{
}

/// Two runs of bytes compare equal where they are.
pub proof fn equal_bytes_compare_equal(expected: &[u8], given: &[u8], out: bool)
    requires
        call_ensures(constant_time_eq, (expected, given), out),
    ensures
        out <==> expected@.len() == given@.len() && forall|i: int|
            0 <= i < expected@.len() ==> #[trigger] expected@[i] == given@[i],
{
    if expected@.len() == given@.len() && forall|i: int|
        0 <= i < expected@.len() ==> #[trigger] expected@[i] == given@[i] {
        assert(expected@ =~= given@);
    }
}

/// The number that eight hexadecimal digits stand for.
pub open spec fn eight_digits(s: Seq<char>) -> int {
    ((((((hex_number(s[0]) * 16 + hex_number(s[1])) * 16 + hex_number(s[2])) * 16 + hex_number(s[3]))
        * 16 + hex_number(s[4])) * 16 + hex_number(s[5])) * 16 + hex_number(s[6])) * 16 + hex_number(
        s[7],
    )
}

/// An error says what failed: the port and why, or the status in eight hexadecimal
/// digits, a negative one in two's complement.
pub proof fn an_error_says_what_failed(e: &SettingsError, out: String) -> (digits: Seq<char>)
    requires
        call_ensures(SettingsError::text, (e,), out),
    ensures
        e matches SettingsError::Bind(why) ==> out@
            == "не занять loopback-порт для страницы настроек: "@ + why@,
        e matches SettingsError::Random(status) ==> {
            &&& out@ == "системный источник случайности отказал: NTSTATUS "@ + ("0x"@ + digits)
            &&& digits.len() == 8
            &&& eight_digits(digits) == (if status < 0 {
                status + 0x1_0000_0000
            } else {
                status as int
            })
        },
{
    if let SettingsError::Random(status) = e {
        lemma_status_digits(*status)
    } else {
        Seq::empty()
    }
}

proof fn lemma_status_digits(status: i32) -> (digits: Seq<char>)
    ensures
        status_word(status) == "0x"@ + digits,
        digits.len() == 8,
        eight_digits(digits) == (if status < 0 {
            status + 0x1_0000_0000
        } else {
            status as int
        }),
{
    let n = if status < 0 {
        status + 0x1_0000_0000
    } else {
        status as int
    };
    let digits = seq![
        hex_char(n / 0x1000_0000 % 16),
        hex_char(n / 0x100_0000 % 16),
        hex_char(n / 0x10_0000 % 16),
        hex_char(n / 0x1_0000 % 16),
        hex_char(n / 0x1000 % 16),
        hex_char(n / 0x100 % 16),
        hex_char(n / 0x10 % 16),
        hex_char(n % 16),
    ];
    assert(status_word(status) =~= "0x"@ + digits);
    assert forall|d: int| 0 <= d < 16 implies hex_number(#[trigger] hex_char(d)) == d by {}
    lemma_base_16(n);
    digits
}

proof fn lemma_base_16(n: int)
    requires
        0 <= n < 0x1_0000_0000,
    ensures
        ((((((n / 0x1000_0000 % 16 * 16 + n / 0x100_0000 % 16) * 16 + n / 0x10_0000 % 16) * 16 + n
            / 0x1_0000 % 16) * 16 + n / 0x1000 % 16) * 16 + n / 0x100 % 16) * 16 + n / 0x10 % 16) * 16
            + n % 16 == n,
{
    let a = n / 0x10;
    let b = n / 0x100;
    let c = n / 0x1000;
    let d = n / 0x1_0000;
    let e = n / 0x10_0000;
    let f = n / 0x100_0000;
    let g = n / 0x1000_0000;
    assert(b == a / 16 && c == b / 16 && d == c / 16 && e == d / 16 && f == e / 16 && g == f / 16);
    assert(g < 16 && g % 16 == g);
    assert(g * 16 + f % 16 == f);
    assert(f * 16 + e % 16 == e);
    assert(e * 16 + d % 16 == d);
    assert(d * 16 + c % 16 == c);
    assert(c * 16 + b % 16 == b);
    assert(b * 16 + a % 16 == a);
    assert(a * 16 + n % 16 == n);
}

} // verus!
