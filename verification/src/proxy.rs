//! The proxy settings of the system: taking them over and giving them back.
//!
//! Once the settings point at the bridge, every program that reads them depends
//! on it. So three things hold here. The settings of the user go to the disk
//! before the system's are touched. They are given back on every way out, and
//! only once. And an address of ours that an earlier run left behind is never
//! taken for a setting of the user.

use vstd::prelude::*;
use vstd::string::*;
use crate::model::{settings_in, texts, SysProxy, SysProxyView};
use crate::text::{decimal, decimal_text, equal_but_case, parse_unsigned, same, same_but_case};
use crate::text::{split_at_first, split_at_last, split_by, split_first, split_last, split_on};
use crate::text::{trim, trim_end_of, trim_start_of, trimmed, unsigned};
use crate::text::{without_leading, without_trailing};
use crate::text::{a_separator_parts_a_text, a_text_is_parted_where_it_is_said, is_blank};
use crate::text::{decimal_is_read_back, lemma_decimal_reads_back, lemma_without_leading};
use crate::text::{lemma_without_trailing, white_space_is_taken_off_the_ends};
use crate::text::without_separators_a_text_is_one_part;

verus! {

// ---------------------------------------------------------------------------
// Whose address it is
// ---------------------------------------------------------------------------

/// A name or an address of this machine.
pub open spec fn loopback_host(host: Seq<char>) -> bool {
    let bare = without_trailing(
        without_leading(trimmed(host), |c: char| c == '['),
        |c: char| c == ']',
    );
    same_but_case(bare, "localhost"@) || bare == "127.0.0.1"@ || bare == "::1"@
}

/// One entry names this machine and the port: `host:port`, or `protocol=host:port`.
pub open spec fn entry_points_at(entry: Seq<char>, port: u16) -> bool {
    let address = match split_first(entry, '=') {
        Some((_, behind)) => behind,
        None => entry,
    };
    match split_last(address, ':') {
        Some((host, number)) => unsigned(number, 65535) == Some(port as nat) && loopback_host(host),
        None => false,
    }
}

/// One of the entries, which semicolons part, names this machine and the port.
pub open spec fn server_points_at(server: Seq<char>, port: u16) -> bool {
    let parts = split_by(server, |c: char| c == ';');
    exists|i: int| 0 <= i < parts.len() && entry_points_at(trimmed(#[trigger] parts[i]), port)
}

/// The settings send traffic to our port.
pub open spec fn stale_pointer(current: SysProxyView, port: u16) -> bool {
    current.enabled && server_points_at(current.server, port)
}

fn is_loopback_host(host: &str) -> (out: bool)
    ensures
        out == loopback_host(host@),
{
    let inner = trim_start_of(trim(host).as_str(), '[');
    let bare = trim_end_of(inner.as_str(), ']');
    equal_but_case(bare.as_str(), "localhost") || same(bare.as_str(), "127.0.0.1") || same(
        bare.as_str(),
        "::1",
    )
}

fn points_at_us(part: &str, our_port: u16) -> (out: bool)
    ensures
        out == entry_points_at(part@, our_port),
{
    let address = match split_at_first(part, '=') {
        Some((_, behind)) => behind,
        None => part.to_owned(),
    };
    match split_at_last(address.as_str(), ':') {
        Some((host, number)) => match parse_unsigned(number.as_str(), 65535) {
            Some(port) => port == our_port as u64 && is_loopback_host(host.as_str()),
            None => false,
        },
        None => false,
    }
}

/// Tells whether the server setting names our port, whether or not the proxy is
/// switched on: on the way out the address is ours to remove either way.
pub fn server_points_at_port(server: &str, our_port: u16) -> (out: bool)
    ensures
        out == server_points_at(server@, our_port),
{
    let parts = split_on(server, ';');
    let ghost all = split_by(server@, |c: char| c == ';');
    let mut i: usize = 0;
    while i < parts.len()
        invariant
            i <= parts@.len(),
            all == texts(parts@),
            all == split_by(server@, |c: char| c == ';'),
            forall|k: int| 0 <= k < i ==> !entry_points_at(trimmed(#[trigger] all[k]), our_port),
        decreases parts.len() - i,
    {
        assert(all[i as int] == parts@[i as int]@);
        if points_at_us(trim(parts[i].as_str()).as_str(), our_port) {
            return true;
        }
        i += 1;
    }
    false
}

/// Tells whether the settings send traffic to our port. That nobody listens
/// there is for the caller to know: the caller has just taken the port.
pub fn is_stale_pointer(current: &SysProxy, our_port: u16) -> (out: bool)
    ensures
        out == stale_pointer(current@, our_port),
{
    // A proxy that is switched off breaks nothing for anybody.
    current.enabled && server_points_at_port(current.server.as_str(), our_port)
}

// ---------------------------------------------------------------------------
// Taking over
// ---------------------------------------------------------------------------

/// Why the settings could not be taken over.
#[derive(Debug, PartialEq, Eq)]
pub enum ProxyError {
    Read(String),
    Save(String),
    Apply(String),
}

pub open spec fn proxy_error_text(e: ProxyError) -> Seq<char> {
    match e {
        ProxyError::Read(why) => "не прочитать системные настройки прокси: "@ + why@,
        ProxyError::Save(why) => "не сохранить исходные настройки в конфиг: "@ + why@,
        ProxyError::Apply(why) => "не записать системные настройки прокси: "@ + why@,
    }
}

impl ProxyError {
    /// The error in words.
    pub fn text(&self) -> (out: String)
        ensures
            out@ == proxy_error_text(*self),
    {
        let (what, why) = match self {
            ProxyError::Read(why) => ("не прочитать системные настройки прокси: ", why),
            ProxyError::Save(why) => ("не сохранить исходные настройки в конфиг: ", why),
            ProxyError::Apply(why) => ("не записать системные настройки прокси: ", why),
        };
        let mut out = what.to_owned();
        out.append(why.as_str());
        out
    }
}

/// What was written over and has to be given back.
#[derive(Debug, PartialEq, Eq)]
pub struct Taken {
    /// The settings of the user.
    pub original: SysProxy,
    /// The port that the settings were pointed at. It tells our address from
    /// one that somebody else has written since.
    pub our_port: u16,
}

/// The settings of the user, given the settings of the system and those in the
/// configuration.
///
/// Where the system points at us, an earlier run was killed: what is there is
/// ours. Then the configuration knows the user's settings, and if it does not,
/// a proxy that is switched off is the best there is.
pub open spec fn users_settings(
    current: SysProxyView,
    saved: Option<SysProxyView>,
    port: u16,
) -> SysProxyView {
    if !stale_pointer(current, port) {
        current
    } else if let Some(settings) = saved {
        settings
    } else {
        SysProxyView { enabled: false, server: Seq::empty(), bypass: Seq::empty() }
    }
}

/// The settings that send traffic to the bridge.
pub open spec fn our_settings(port: u16, bypass: Seq<char>) -> SysProxyView {
    SysProxyView { enabled: true, server: "127.0.0.1:"@ + decimal(port as nat), bypass }
}

/// How far the takeover has come.
#[derive(Debug, PartialEq, Eq)]
pub enum TakeOver {
    /// The settings of the system are being read.
    Reading,
    /// The user's settings are being written to the disk.
    Saving { before: SysProxy, original: SysProxy },
    /// The settings of the system are being written.
    Applying { before: SysProxy },
    Finished,
}

/// What happened.
#[derive(Debug, PartialEq, Eq)]
pub enum TakeOverEvent {
    Read(Result<SysProxy, String>),
    Saved(Result<(), String>),
    Applied(Result<(), String>),
}

/// What to do next.
#[derive(Debug, PartialEq, Eq)]
pub enum TakeOverAction {
    /// Put these settings into the configuration as the saved ones and write
    /// the configuration to the disk.
    Save(SysProxy),
    /// Remember what has to be given back, then write `ours` to the system.
    Apply { remember: Taken, ours: SysProxy },
    /// The takeover is over. On success this is what the system said before.
    Return(Result<SysProxy, ProxyError>),
    /// The event does not belong to this state.
    Ignore,
}

/// The next state and the action, as values.
pub open spec fn take_over_step(
    state: TakeOver,
    event: TakeOverEvent,
    saved: Option<SysProxyView>,
    port: u16,
    bypass: Seq<char>,
    next: TakeOver,
    action: TakeOverAction,
) -> bool {
    match (state, event) {
        (TakeOver::Reading, TakeOverEvent::Read(Ok(current))) => {
            let original = users_settings(current@, saved, port);
            &&& next matches TakeOver::Saving { before: b, original: o }
            &&& b@ == current@
            &&& o@ == original
            &&& action matches TakeOverAction::Save(settings)
            &&& settings@ == original
        },
        (TakeOver::Reading, TakeOverEvent::Read(Err(why))) => {
            &&& next is Finished
            &&& action matches TakeOverAction::Return(Err(ProxyError::Read(w)))
            &&& w@ == why@
        },
        (TakeOver::Saving { before, original }, TakeOverEvent::Saved(Ok(_))) => {
            &&& next matches TakeOver::Applying { before: b }
            &&& b@ == before@
            &&& action matches TakeOverAction::Apply { remember, ours }
            &&& remember.original@ == original@
            &&& remember.our_port == port
            &&& ours@ == our_settings(port, bypass)
        },
        (TakeOver::Saving { .. }, TakeOverEvent::Saved(Err(why))) => {
            &&& next is Finished
            &&& action matches TakeOverAction::Return(Err(ProxyError::Save(w)))
            &&& w@ == why@
        },
        (TakeOver::Applying { before }, TakeOverEvent::Applied(Ok(_))) => {
            &&& next is Finished
            &&& action matches TakeOverAction::Return(Ok(b))
            &&& b@ == before@
        },
        (TakeOver::Applying { .. }, TakeOverEvent::Applied(Err(why))) => {
            &&& next is Finished
            &&& action matches TakeOverAction::Return(Err(ProxyError::Apply(w)))
            &&& w@ == why@
        },
        _ => next == state && action is Ignore,
    }
}

/// Picks the settings of the user.
fn original_settings(current: &SysProxy, saved: &Option<SysProxy>, port: u16) -> (out: SysProxy)
    ensures
        out@ == users_settings(current@, settings_in(*saved), port),
{
    if !is_stale_pointer(current, port) {
        return current.clone();
    }
    match saved {
        Some(settings) => settings.clone(),
        None => SysProxy::default(),
    }
}

/// One step of the takeover: read the settings, put the user's on the disk, and
/// only then touch the system.
///
/// `saved` are the settings in the configuration, `bypass` is the bypass list
/// in the form in which the system takes it.
pub fn take_over(
    state: TakeOver,
    event: TakeOverEvent,
    saved: &Option<SysProxy>,
    port: u16,
    bypass: String,
) -> (out: (TakeOver, TakeOverAction))
    ensures
        take_over_step(state, event, settings_in(*saved), port, bypass@, out.0, out.1),
{
    match (state, event) {
        (TakeOver::Reading, TakeOverEvent::Read(Ok(current))) => {
            let original = original_settings(&current, saved, port);
            let to_disk = original.clone();
            (TakeOver::Saving { before: current, original }, TakeOverAction::Save(to_disk))
        },
        (TakeOver::Reading, TakeOverEvent::Read(Err(why))) => (
            TakeOver::Finished,
            TakeOverAction::Return(Err(ProxyError::Read(why))),
        ),
        (TakeOver::Saving { before, original }, TakeOverEvent::Saved(Ok(_))) => {
            let mut server = "127.0.0.1:".to_owned();
            server.append(decimal_text(port as u64).as_str());
            (
                TakeOver::Applying { before },
                TakeOverAction::Apply {
                    remember: Taken { original, our_port: port },
                    ours: SysProxy { enabled: true, server, bypass },
                },
            )
        },
        (TakeOver::Saving { .. }, TakeOverEvent::Saved(Err(why))) => (
            TakeOver::Finished,
            TakeOverAction::Return(Err(ProxyError::Save(why))),
        ),
        (TakeOver::Applying { before }, TakeOverEvent::Applied(Ok(_))) => (
            TakeOver::Finished,
            TakeOverAction::Return(Ok(before)),
        ),
        (TakeOver::Applying { .. }, TakeOverEvent::Applied(Err(why))) => (
            TakeOver::Finished,
            TakeOverAction::Return(Err(ProxyError::Apply(why))),
        ),
        (state, _) => (state, TakeOverAction::Ignore),
    }
}

// ---------------------------------------------------------------------------
// Giving back
// ---------------------------------------------------------------------------

/// What has to be given back, if anything.
#[derive(Debug, PartialEq, Eq)]
pub struct Original(pub Option<Taken>);

impl Original {
    /// Remembers what has to be given back.
    pub fn remember(&mut self, taken: Taken)
        ensures
            final(self).0 == Some(taken),
    {
        self.0 = Some(taken);
    }

    /// Hands out what has to be given back, and forgets it: however many ways
    /// out run at once, the settings are given back once.
    pub fn take(&mut self) -> (out: Option<Taken>)
        ensures
            out == old(self).0,
            final(self).0 is None,
    {
        let mut taken: Option<Taken> = None;
        std::mem::swap(&mut taken, &mut self.0);
        taken
    }
}

/// What to do with the settings on the way out.
#[derive(Debug, PartialEq, Eq)]
pub enum RestoreAction {
    /// They were never taken.
    Nothing,
    /// The system does not point at us any more: somebody has changed the
    /// settings, and that change stays.
    Leave,
    /// Write these settings to the system.
    Apply(SysProxy),
}

/// The settings of the user go back to the system: it still points at us, or
/// what it says could not be read.
pub open spec fn gives_back(our_port: u16, current: Result<SysProxy, String>) -> bool {
    match current {
        Ok(settings) => server_points_at(settings.server@, our_port),
        Err(_) => true,
    }
}

/// Decides what to give back. `current` is what the system says now. Where it
/// cannot be read, the settings are given back all the same: losing somebody's
/// change is a smaller harm than a machine without a network.
pub fn restore(taken: Option<Taken>, current: &Result<SysProxy, String>) -> (out: RestoreAction)
    ensures
        match taken {
            None => out is Nothing,
            Some(t) => if gives_back(t.our_port, *current) {
                out matches RestoreAction::Apply(settings) && settings@ == t.original@
            } else {
                out is Leave
            },
        },
{
    match taken {
        None => RestoreAction::Nothing,
        Some(t) => match current {
            Ok(c) => if server_points_at_port(c.server.as_str(), t.our_port) {
                RestoreAction::Apply(t.original)
            } else {
                RestoreAction::Leave
            },
            Err(_) => RestoreAction::Apply(t.original),
        },
    }
}

// ---------------------------------------------------------------------------
// Laws
// ---------------------------------------------------------------------------

/// The system is written to only behind a successful write of the user's
/// settings to the disk.
pub proof fn the_disk_comes_before_the_system(
    state: TakeOver,
    event: TakeOverEvent,
    saved: Option<SysProxyView>,
    port: u16,
    bypass: Seq<char>,
    next: TakeOver,
    action: TakeOverAction,
)
    requires
        take_over_step(state, event, saved, port, bypass, next, action),
        action is Apply,
    ensures
        state is Saving,
        event matches TakeOverEvent::Saved(Ok(_)),
        action->remember.original@ == state->original@,
{
}

/// What is saved as the settings of the user never points at us, unless the
/// configuration itself said so.
pub proof fn our_own_address_is_never_saved_as_the_users(
    current: SysProxyView,
    saved: Option<SysProxyView>,
    port: u16,
)
    requires
        saved matches Some(settings) ==> !stale_pointer(settings, port),
    ensures
        !stale_pointer(users_settings(current, saved, port), port),
{
}

/// The address that the program writes is one that it recognises as its own,
/// whatever the port.
pub proof fn what_is_written_is_recognised(port: u16, bypass: Seq<char>)
    ensures
        stale_pointer(our_settings(port, bypass), port),
{
    let number = decimal(port as nat);
    let server = "127.0.0.1:"@ + number;
    reveal_strlit("127.0.0.1:");
    reveal_strlit("127.0.0.1");
    crate::text::lemma_decimal_reads_back(port as nat);
    crate::text::decimal_is_read_back(port as nat, 65535);
    let host = "127.0.0.1"@;
    assert(host.len() == 9 && "127.0.0.1:"@.len() == 10);
    assert forall|i: int| 10 <= i < server.len() implies crate::text::is_digit(
        #[trigger] server[i],
    ) by {
        assert(server[i] == number[i - 10]);
    }
    assert forall|i: int| 0 <= i < server.len() implies #[trigger] server[i] != ';' && server[i]
        != '=' && (server[i] == ':' <==> i == 9) by {
        if i < 10 {
            assert(server[i] == "127.0.0.1:"@[i]);
        }
    }
    crate::text::lemma_no_separator(server, ';');
    let parts = split_by(server, |c: char| c == ';');
    assert(parts[0] == server);
    assert(!crate::text::is_white_space(server[0])) by {
        assert(server[0] == "127.0.0.1:"@[0]);
    }
    assert(!crate::text::is_white_space(server.last())) by {
        assert(crate::text::is_digit(server[server.len() - 1]));
    }
    assert(trimmed(server) == server);
    server.index_of_first_ensures('=');
    server.index_of_last_ensures(':');
    assert(server[9] == "127.0.0.1:"@[9]);
    assert(server.contains(':'));
    let colon = server.index_of_last(':')->0;
    assert(colon == 9);
    assert(server.take(9) =~= host);
    assert(server.skip(10) =~= number);
    assert(trimmed(host) == host);
    assert(without_leading(host, |c: char| c == '[') == host);
    assert(without_trailing(host, |c: char| c == ']') == host);
    assert(loopback_host(host));
    assert(entry_points_at(trimmed(parts[0]), port));
}

/// While the system holds what the takeover wrote, the settings of the user are
/// given back on the way out.
pub proof fn our_address_is_taken_back(
    port: u16,
    bypass: Seq<char>,
    current: Result<SysProxy, String>,
)
    requires
        current matches Ok(settings) && settings@ == our_settings(port, bypass),
    ensures
        gives_back(port, current),
{
    what_is_written_is_recognised(port, bypass);
}

/// A takeover is undone: what it remembers, and what the way out gives back, is
/// what the system said before; where that was our own address, left behind by
/// a run that was killed, it is what the configuration knows of the user. The
/// configuration may have changed in between.
pub proof fn a_takeover_is_undone(
    found: SysProxy,
    saved: Option<SysProxyView>,
    saved_later: Option<SysProxyView>,
    port: u16,
    bypass: Seq<char>,
    saving: TakeOver,
    save: TakeOverAction,
    applying: TakeOver,
    apply: TakeOverAction,
    at_exit: Result<SysProxy, String>,
)
    requires
        take_over_step(
            TakeOver::Reading,
            TakeOverEvent::Read(Ok(found)),
            saved,
            port,
            bypass,
            saving,
            save,
        ),
        take_over_step(
            saving,
            TakeOverEvent::Saved(Ok(())),
            saved_later,
            port,
            bypass,
            applying,
            apply,
        ),
        at_exit matches Ok(settings) && settings@ == our_settings(port, bypass),
    ensures
        save is Save,
        save->Save_0@ == users_settings(found@, saved, port),
        apply is Apply,
        apply->ours@ == our_settings(port, bypass),
        apply->remember.original@ == users_settings(found@, saved, port),
        !stale_pointer(found@, port) ==> apply->remember.original@ == found@,
        gives_back(apply->remember.our_port, at_exit),
{
    our_address_is_taken_back(port, bypass, at_exit);
}

// ---------------------------------------------------------------------------
// Laws of the server setting
// ---------------------------------------------------------------------------

/// Among entries with semicolons between them it is enough that one names us.
pub proof fn one_entry_is_enough(
    a: &str,
    b: &str,
    both: &str,
    port: u16,
    outs: (bool, bool, bool),
)
    requires
        both@ == a@ + seq![';'] + b@,
        call_ensures(server_points_at_port, (a, port), outs.0),
        call_ensures(server_points_at_port, (b, port), outs.1),
        call_ensures(server_points_at_port, (both, port), outs.2),
    ensures
        outs.2 <==> outs.0 || outs.1,
{
    let parts = |c: char| c == ';';
    a_separator_parts_a_text(a@, ';', b@, parts);
    let (x, y) = (split_by(a@, parts), split_by(b@, parts));
    let all = x + y;
    assert(split_by(both@, parts) == all);
    if server_points_at(a@, port) {
        let i = choose|i: int| 0 <= i < x.len() && entry_points_at(trimmed(#[trigger] x[i]), port);
        assert(all[i] == x[i]);
    }
    if server_points_at(b@, port) {
        let i = choose|i: int| 0 <= i < y.len() && entry_points_at(trimmed(#[trigger] y[i]), port);
        assert(all[x.len() + i] == y[i]);
    }
    if server_points_at(both@, port) {
        let i = choose|i: int|
            0 <= i < all.len() && entry_points_at(trimmed(#[trigger] all[i]), port);
        if i < x.len() {
            assert(x[i] == all[i]);
        } else {
            assert(y[i - x.len()] == all[i]);
        }
    }
}

proof fn lemma_one_entry(a: Seq<char>, entry: Seq<char>, b: Seq<char>, port: u16)
    requires
        !(a + entry + b).contains(';'),
        forall|i: int| 0 <= i < a.len() ==> is_blank(#[trigger] a[i]),
        forall|i: int| 0 <= i < b.len() ==> is_blank(#[trigger] b[i]),
        entry.len() > 0 ==> !is_blank(entry[0]) && !is_blank(entry.last()),
    ensures
        server_points_at(a + entry + b, port) == entry_points_at(entry, port),
{
    let server = a + entry + b;
    let parts = |c: char| c == ';';
    assert forall|i: int| 0 <= i < server.len() implies !parts(#[trigger] server[i]) by {
        assert(server.contains(server[i]));
    }
    without_separators_a_text_is_one_part(server, parts);
    white_space_is_taken_off_the_ends(a, entry, b);
    let all = split_by(server, parts);
    assert(all =~= seq![server]);
    assert(all[0] == server);
}

/// An entry `host:port` names us exactly where the number is our port and the host
/// is this machine, in square brackets or without: `localhost` in any case, or one of
/// the two addresses that lead back to it. White space around the entry makes no
/// difference.
pub proof fn an_address_names_us_by_host_and_port(
    a: Seq<char>,
    open: Seq<char>,
    bare: Seq<char>,
    close: Seq<char>,
    n: nat,
    b: Seq<char>,
    server: &str,
    port: u16,
    out: bool,
)
    requires
        call_ensures(server_points_at_port, (server, port), out),
        server@ == a + (open + bare + close + seq![':'] + decimal(n)) + b,
        !server@.contains(';'),
        !server@.contains('='),
        forall|i: int| 0 <= i < a.len() ==> is_blank(#[trigger] a[i]),
        forall|i: int| 0 <= i < b.len() ==> is_blank(#[trigger] b[i]),
        forall|i: int| 0 <= i < open.len() ==> #[trigger] open[i] == '[',
        forall|i: int| 0 <= i < close.len() ==> #[trigger] close[i] == ']',
        bare.len() > 0,
        bare[0] != '[' && bare.last() != ']' && !is_blank(bare[0]) && !is_blank(bare.last()),
    ensures
        out <==> n == port && (same_but_case(bare, "localhost"@) || bare == "127.0.0.1"@ || bare
            == "::1"@),
{
    let host = open + bare + close;
    let number = decimal(n);
    let entry = host + seq![':'] + number;
    lemma_decimal_reads_back(n);
    assert(crate::text::is_digit(number[number.len() - 1]));
    assert(entry.last() == number[number.len() - 1]);
    assert(entry[0] == host[0]);
    assert(host[0] == '[' || host[0] == bare[0]) by {
        if open.len() > 0 {
            assert(host[0] == open[0]);
        }
    }
    lemma_one_entry(a, entry, b, port);
    assert(!entry.contains('=')) by {
        if entry.contains('=') {
            let i = choose|i: int| 0 <= i < entry.len() && entry[i] == '=';
            assert(server@[a.len() + i] == '=');
        }
    }
    a_text_is_parted_where_it_is_said(entry, '=', Seq::empty());
    assert(!number.contains(':')) by {
        if number.contains(':') {
            let i = choose|i: int| 0 <= i < number.len() && number[i] == ':';
            assert(crate::text::is_digit(number[i]));
        }
    }
    a_text_is_parted_where_it_is_said(host, ':', number);
    lemma_loopback(open, bare, close);
    if n <= 65535 {
        decimal_is_read_back(n, 65535);
    }
}

proof fn lemma_loopback(open: Seq<char>, bare: Seq<char>, close: Seq<char>)
    requires
        forall|i: int| 0 <= i < open.len() ==> #[trigger] open[i] == '[',
        forall|i: int| 0 <= i < close.len() ==> #[trigger] close[i] == ']',
        bare.len() > 0,
        bare[0] != '[' && bare.last() != ']' && !is_blank(bare[0]) && !is_blank(bare.last()),
    ensures
        loopback_host(open + bare + close) <==> same_but_case(bare, "localhost"@) || bare
            == "127.0.0.1"@ || bare == "::1"@,
{
    let host = open + bare + close;
    let none = Seq::<char>::empty();
    assert(host[0] == '[' || host[0] == bare[0]) by {
        if open.len() > 0 {
            assert(host[0] == open[0]);
        }
    }
    assert(host.last() == ']' || host.last() == bare.last()) by {
        if close.len() > 0 {
            assert(host.last() == close[close.len() - 1]);
        }
    }
    white_space_is_taken_off_the_ends(none, host, none);
    assert(none + host + none =~= host);
    let (left, right) = (|c: char| c == '[', |c: char| c == ']');
    assert(host =~= open + (bare + close));
    assert((bare + close)[0] == bare[0]);
    lemma_without_leading(open, bare + close, left);
    lemma_without_trailing(bare, close, right);
}

/// A protocol before an address makes no difference.
pub proof fn a_protocol_makes_no_difference(
    protocol: Seq<char>,
    address: &str,
    server: &str,
    port: u16,
    outs: (bool, bool),
)
    requires
        server@ == protocol + seq!['='] + address@,
        !server@.contains(';'),
        !protocol.contains('='),
        !address@.contains('='),
        protocol.len() > 0 ==> !is_blank(protocol[0]),
        address@.len() > 0,
        !is_blank(address@[0]) && !is_blank(address@.last()),
        call_ensures(server_points_at_port, (address, port), outs.0),
        call_ensures(server_points_at_port, (server, port), outs.1),
    ensures
        outs.0 == outs.1,
{
    let none = Seq::<char>::empty();
    assert(none + server@ + none =~= server@ && none + address@ + none =~= address@);
    assert(!address@.contains(';')) by {
        if address@.contains(';') {
            let i = choose|i: int| 0 <= i < address@.len() && address@[i] == ';';
            assert(server@[protocol.len() + 1 + i] == ';');
        }
    }
    assert(server@.last() == address@.last());
    assert(server@[0] == '=' || server@[0] == protocol[0]);
    lemma_one_entry(none, server@, none, port);
    lemma_one_entry(none, address@, none, port);
    a_text_is_parted_where_it_is_said(protocol, '=', address@);
    a_text_is_parted_where_it_is_said(address@, '=', none);
}

/// An entry without a port names nobody.
pub proof fn an_address_without_a_port_names_nobody(server: &str, port: u16, out: bool)
    requires
        call_ensures(server_points_at_port, (server, port), out),
        !server@.contains(':'),
        !server@.contains(';'),
    ensures
        !out,
{
    let (a, b) = crate::text::nothing_but_white_space_is_taken_off(server@);
    let entry = trimmed(server@);
    lemma_one_entry(a, entry, b, port);
    let address = match split_first(entry, '=') {
        Some((_, behind)) => behind,
        None => entry,
    };
    entry.index_of_first_ensures('=');
    assert(!address.contains(':')) by {
        if address.contains(':') {
            let i = choose|i: int| 0 <= i < address.len() && address[i] == ':';
            let skipped = entry.len() - address.len();
            assert(entry[skipped + i] == ':');
            assert(server@[a.len() + skipped + i] == ':');
        }
    }
    a_text_is_parted_where_it_is_said(address, ':', Seq::empty());
}

/// The settings are ours where they are switched on and name our port.
pub proof fn settings_are_ours_where_they_are_on_and_name_us(
    current: &SysProxy,
    server: &str,
    port: u16,
    names_us: bool,
    out: bool,
)
    requires
        server@ == current.server@,
        call_ensures(server_points_at_port, (server, port), names_us),
        call_ensures(is_stale_pointer, (current, port), out),
    ensures
        out <==> current.enabled && names_us,
{
}

// ---------------------------------------------------------------------------
// Laws of the takeover
// ---------------------------------------------------------------------------

/// The two settings are the same.
pub open spec fn same_settings(a: SysProxy, b: SysProxy) -> bool {
    a.enabled == b.enabled && a.server@ == b.server@ && a.bypass@ == b.bypass@
}

/// What was read goes to the disk as the settings of the user, unless it is our own
/// address: then what the configuration knows does, or a proxy that is off. What
/// could not be read ends the takeover.
pub proof fn what_was_read_is_saved_first(
    read: Result<SysProxy, String>,
    saved: &Option<SysProxy>,
    port: u16,
    bypass: String,
    stale: bool,
    out: (TakeOver, TakeOverAction),
)
    requires
        call_ensures(
            take_over,
            (TakeOver::Reading, TakeOverEvent::Read(read), saved, port, bypass),
            out,
        ),
        read is Ok ==> call_ensures(is_stale_pointer, (&read->Ok_0, port), stale),
    ensures
        read matches Err(why) ==> out.0 is Finished && {
            &&& out.1 matches TakeOverAction::Return(Err(ProxyError::Read(w)))
            &&& w@ == why@
        },
        read matches Ok(current) ==> {
            &&& out.1 matches TakeOverAction::Save(user)
            &&& out.0 matches TakeOver::Saving { before, original }
            &&& same_settings(before, current)
            &&& same_settings(original, user)
            &&& !stale ==> same_settings(user, current)
            &&& stale && saved is Some ==> same_settings(user, saved->0)
            &&& stale && saved is None ==> !user.enabled && user.server@.len() == 0
                && user.bypass@.len() == 0
        },
{
}

/// Only what was saved lets the system be pointed at the bridge, with the bypass list
/// and on our port; what was saved is remembered. A failure ends the takeover, and a
/// takeover that went well ends with what was there before.
pub proof fn the_system_is_pointed_at_the_bridge(
    before: SysProxy,
    original: SysProxy,
    result: Result<(), String>,
    saved: &Option<SysProxy>,
    port: u16,
    bypass: String,
    outs: ((TakeOver, TakeOverAction), (TakeOver, TakeOverAction)),
)
    requires
        call_ensures(
            take_over,
            (
                TakeOver::Saving { before, original },
                TakeOverEvent::Saved(result),
                saved,
                port,
                bypass,
            ),
            outs.0,
        ),
        call_ensures(
            take_over,
            (TakeOver::Applying { before }, TakeOverEvent::Applied(result), saved, port, bypass),
            outs.1,
        ),
    ensures
        ({
            let ((next, action), (end, last)) = outs;
            &&& result is Ok ==> {
                &&& next matches TakeOver::Applying { before: b }
                &&& same_settings(b, before)
                &&& action matches TakeOverAction::Apply { remember, ours }
                &&& same_settings(remember.original, original)
                &&& remember.our_port == port
                &&& ours.enabled
                &&& ours.server@ == "127.0.0.1:"@ + decimal(port as nat)
                &&& ours.bypass@ == bypass@
                &&& end is Finished
                &&& last matches TakeOverAction::Return(Ok(b))
                &&& same_settings(b, before)
            }
            &&& result matches Err(why) ==> {
                &&& next is Finished && end is Finished
                &&& action matches TakeOverAction::Return(Err(ProxyError::Save(w)))
                &&& w@ == why@
                &&& last matches TakeOverAction::Return(Err(ProxyError::Apply(w)))
                &&& w@ == why@
            }
        }),
{
}

/// An event that does not belong to the state changes nothing.
pub proof fn an_event_out_of_turn_changes_nothing(
    state: TakeOver,
    event: TakeOverEvent,
    saved: &Option<SysProxy>,
    port: u16,
    bypass: String,
    out: (TakeOver, TakeOverAction),
)
    requires
        call_ensures(take_over, (state, event, saved, port, bypass), out),
        state is Reading ==> !(event is Read),
        state is Saving ==> !(event is Saved),
        state is Applying ==> !(event is Applied),
    ensures
        out.0 == state,
        out.1 is Ignore,
{
}

/// On the way out the settings of the user go back to a system that still names our
/// port, switched on or not, and to one that could not be read; a change of somebody
/// else stays; and where nothing was taken nothing is done.
pub proof fn settings_go_back_where_they_are_ours(
    taken: Option<Taken>,
    current: &Result<SysProxy, String>,
    server: &str,
    names_us: bool,
    out: RestoreAction,
)
    requires
        call_ensures(restore, (taken, current), out),
        current matches Ok(settings) ==> server@ == settings.server@,
        taken matches Some(t) ==> call_ensures(
            server_points_at_port,
            (server, t.our_port),
            names_us,
        ),
    ensures
        taken is None <==> out is Nothing,
        taken is Some && (current is Err || names_us) ==> out is Apply && same_settings(
            out->Apply_0,
            taken->0.original,
        ),
        taken is Some && current is Ok && !names_us ==> out is Leave,
{
}

/// What was remembered is handed out once.
pub proof fn what_is_remembered_is_handed_out_once(
    keeper: &mut Original,
    taken: Taken,
    other: &mut Original,
    out: Option<Taken>,
)
    requires
        call_ensures(Original::remember, (keeper, taken), ()),
        call_ensures(Original::take, (other,), out),
    ensures
        final(keeper).0 == Some(taken),
        out == old(other).0,
        final(other).0 is None,
{
}

/// An error says what could not be done, and why.
pub proof fn an_error_says_what_could_not_be_done(e: &ProxyError, out: String)
    requires
        call_ensures(ProxyError::text, (e,), out),
    ensures
        e matches ProxyError::Read(why) ==> out@ == "не прочитать системные настройки прокси: "@
            + why@,
        e matches ProxyError::Save(why) ==> out@ == "не сохранить исходные настройки в конфиг: "@
            + why@,
        e matches ProxyError::Apply(why) ==> out@ == "не записать системные настройки прокси: "@
            + why@,
{
}

} // verus!
