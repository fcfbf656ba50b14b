//! What the page shows, and of what.

use vstd::prelude::*;
use crate::doctor::Check;
use crate::model::{networks, text_in, texts, AppState, Config, Health, OfficeNetwork, Place};
use crate::model::{Mode, Reachability};
use crate::settings_page::buttons::shows;
use crate::settings_page::page::{actions_html, autostart_html, automation_html, bypass_html};
use crate::settings_page::page::{form_html, networks_html, note_html, notes_html, notes_in, now_html};
use crate::settings_page::page::{office_button_html, outcome_bench_html, outcome_doctor_html};
use crate::settings_page::page::{outcome_notes_html, page, page_html, port_html, port_note_html};
use crate::settings_page::page::{system_html, upstreams_html, Note, Outcome, STYLE};
use crate::settings_page::page::{AUTOMATION_HINT, BENCH_BUTTON, BYPASS_HINT, BYPASS_LABEL};
use crate::settings_page::page::{DOCTOR_BUTTON, PORT_HINT};
use crate::settings_page::page::{PORT_PENDING, SYSTEM_HINT, UPSTREAMS_HINT};
use crate::settings_page::parts::{checkbox_html, entity, escape_html, escaped, field_html};
use crate::settings_page::parts::{health_html, lemma_escaped_from_the_left, network_words};
use crate::settings_page::parts::{office_row_html, office_rows_html, route_words};
use crate::settings_page::parts::{bench_table, doctor_table, tunnel_html, tunnel_section};
use crate::text::decimal;
use crate::tray::{a_mode_tells_of_its_own_upstream, mode_label, said_of};
use crate::settings_page::actions::{render, Autostart, SettingsState};
use crate::tunnel::{Tunnel, TunnelSnapshot, TUNNEL_PROFILE_NAME};

verus! {

// ---------------------------------------------------------------------------
// Parts of a text
// ---------------------------------------------------------------------------

broadcast proof fn lemma_shown_in_both(a: Seq<char>, b: Seq<char>, part: Seq<char>)
    ensures
        shows(a, part) || shows(b, part) ==> #[trigger] shows(a + b, part),
{
    if shows(a, part) {
        let i = choose|i: int|
            0 <= i && i + part.len() <= a.len() && #[trigger] a.subrange(i, i + part.len()) == part;
        assert((a + b).subrange(i, i + part.len()) =~= a.subrange(i, i + part.len()));
    }
    if shows(b, part) {
        let i = choose|i: int|
            0 <= i && i + part.len() <= b.len() && #[trigger] b.subrange(i, i + part.len()) == part;
        let n = a.len() as int;
        assert((a + b).subrange(n + i, n + i + part.len()) =~= b.subrange(i, i + part.len()));
    }
}

proof fn lemma_shows_itself(s: Seq<char>)
    ensures
        shows(s, s),
{
    let i: int = 0;
    assert(s.subrange(i, i + s.len()) =~= s);
}

proof fn lemma_shown_between(a: Seq<char>, part: Seq<char>, b: Seq<char>)
    ensures
        shows(a + part + b, part),
{
    let n = a.len() as int;
    assert((a + part + b).subrange(n, n + part.len()) =~= part);
}

/// What is shown by a part is shown by the whole.
proof fn lemma_shown_through(whole: Seq<char>, middle: Seq<char>, part: Seq<char>)
    requires
        shows(whole, middle),
        shows(middle, part),
    ensures
        shows(whole, part),
{
    let i = choose|i: int|
        0 <= i && i + middle.len() <= whole.len() && #[trigger] whole.subrange(i, i + middle.len())
            == middle;
    let j = choose|j: int|
        0 <= j && j + part.len() <= middle.len() && #[trigger] middle.subrange(j, j + part.len())
            == part;
    assert(whole.subrange(i + j, i + j + part.len()) =~= middle.subrange(j, j + part.len()));
}

/// Every section of the form stands on the page.
proof fn lemma_sections(
    app: AppState,
    cfg: Config,
    bound_port: u16,
    autostart: Result<bool, String>,
    tunnel: TunnelSnapshot,
    outcome: Option<&Outcome>,
)
    ensures
        ({
            let whole = page_html(app, cfg@, bound_port, autostart, tunnel, outcome);
            &&& shows(whole, now_html(app, outcome))
            &&& shows(whole, upstreams_html(app, cfg@))
            &&& shows(whole, port_html(cfg.bridge_port, bound_port))
            &&& shows(whole, networks_html(cfg@))
            &&& shows(whole, automation_html(cfg@))
            &&& shows(whole, bypass_html(cfg@))
            &&& shows(whole, system_html(cfg@, autostart))
            &&& shows(whole, office_button_html(app.place))
            &&& shows(whole, actions_html(cfg@, tunnel, outcome))
        }),
{
    broadcast use lemma_shown_in_both;

    let whole = page_html(app, cfg@, bound_port, autostart, tunnel, outcome);
    let form = form_html(app, cfg@, bound_port, autostart);
    lemma_shows_itself(form);
    lemma_shows_itself(now_html(app, outcome));
    lemma_shows_itself(actions_html(cfg@, tunnel, outcome));
    assert(shows(whole, now_html(app, outcome)));
    assert(shows(whole, form));
    assert(shows(whole, actions_html(cfg@, tunnel, outcome)));
    let (up, port, nets) = (
        upstreams_html(app, cfg@),
        port_html(cfg.bridge_port, bound_port),
        networks_html(cfg@),
    );
    let (auto, bypass, system, office) = (
        automation_html(cfg@),
        bypass_html(cfg@),
        system_html(cfg@, autostart),
        office_button_html(app.place),
    );
    lemma_shows_itself(up);
    lemma_shows_itself(port);
    lemma_shows_itself(nets);
    lemma_shows_itself(auto);
    lemma_shows_itself(bypass);
    lemma_shows_itself(system);
    lemma_shows_itself(office);
    assert(shows(form, up) && shows(form, port) && shows(form, nets) && shows(form, auto) && shows(
        form,
        bypass,
    ) && shows(form, system) && shows(form, office));
    lemma_shown_through(whole, form, up);
    lemma_shown_through(whole, form, port);
    lemma_shown_through(whole, form, nets);
    lemma_shown_through(whole, form, auto);
    lemma_shown_through(whole, form, bypass);
    lemma_shown_through(whole, form, system);
    lemma_shown_through(whole, form, office);
}

// ---------------------------------------------------------------------------
// Escaping
// ---------------------------------------------------------------------------

proof fn lemma_escaped_of_both(a: Seq<char>, b: Seq<char>)
    ensures
        escaped(a + b) == escaped(a) + escaped(b),
    decreases b.len(),
{
    if b.len() == 0 {
        assert(a + b =~= a);
        assert(escaped(a) + escaped(b) =~= escaped(a));
    } else {
        assert((a + b).drop_last() =~= a + b.drop_last());
        lemma_escaped_of_both(a, b.drop_last());
        assert(escaped(a + b) =~= escaped(a) + escaped(b));
    }
}

/// The characters that are not written as they are.
pub open spec fn is_special(c: char) -> bool {
    c == '&' || c == '<' || c == '>' || c == '"' || c == '\''
}

proof fn lemma_plain(s: Seq<char>)
    requires
        forall|i: int| 0 <= i < s.len() ==> !is_special(#[trigger] s[i]),
    ensures
        escaped(s) == s,
    decreases s.len(),
{
    if s.len() > 0 {
        let rest = s.drop_last();
        assert forall|i: int| 0 <= i < rest.len() implies !is_special(#[trigger] rest[i]) by {
            assert(rest[i] == s[i]);
        }
        lemma_plain(rest);
        assert(!is_special(s[s.len() - 1]));
        assert(escaped(s) =~= s);
    } else {
        assert(escaped(s) =~= s);
    }
}

/// A text is escaped character by character: each of the five that mean something
/// in the markup is written as its entity, and every other one as it is.
pub proof fn a_text_is_escaped_by_its_characters(
    a: &str,
    b: &str,
    both: &str,
    outs: (String, String, String),
)
    requires
        both@ == a@ + b@,
        call_ensures(escape_html, (a,), outs.0),
        call_ensures(escape_html, (b,), outs.1),
        call_ensures(escape_html, (both,), outs.2),
    ensures
        outs.2@ == outs.0@ + outs.1@,
        a@ == seq!['&'] ==> outs.0@ == "&amp;"@,
        a@ == seq!['<'] ==> outs.0@ == "&lt;"@,
        a@ == seq!['>'] ==> outs.0@ == "&gt;"@,
        a@ == seq!['"'] ==> outs.0@ == "&quot;"@,
        a@ == seq!['\''] ==> outs.0@ == "&#39;"@,
        (forall|i: int| 0 <= i < a@.len() ==> !is_special(#[trigger] a@[i])) ==> outs.0@ == a@,
{
    lemma_escaped_of_both(a@, b@);
    if a@.len() == 1 {
        assert(a@.drop_last() =~= Seq::<char>::empty());
        assert(escaped(a@.drop_last()) =~= Seq::<char>::empty());
        assert(escaped(a@) =~= entity(a@[0]));
    }
    if forall|i: int| 0 <= i < a@.len() ==> !is_special(#[trigger] a@[i]) {
        lemma_plain(a@);
    }
}

// ---------------------------------------------------------------------------
// The upstreams
// ---------------------------------------------------------------------------

/// An upstream has an address.
pub open spec fn has_address(address: Option<String>) -> bool {
    address is Some && address->0@.len() > 0
}

/// What is said beside an upstream.
pub open spec fn badge(address: Option<String>, health: Reachability) -> Seq<char> {
    if !has_address(address) {
        "<span class=\"chip "@ + "status-unset"@ + "\">"@ + "не задан"@ + "</span>"@
    } else if health == Reachability::Up {
        "<span class=\"chip "@ + "status-up"@ + "\">"@ + "доступен"@ + "</span>"@
    } else if health == Reachability::Down {
        "<span class=\"chip "@ + "status-down"@ + "\">"@ + "недоступен"@ + "</span>"@
    } else {
        "<span class=\"chip "@ + "status-unknown"@ + "\">"@ + "ещё не проверен"@ + "</span>"@
    }
}

proof fn lemma_badge_words()
    ensures
        escaped("не задан"@) == "не задан"@,
        escaped("доступен"@) == "доступен"@,
        escaped("недоступен"@) == "недоступен"@,
        escaped("ещё не проверен"@) == "ещё не проверен"@,
{
    reveal_strlit("не задан");
    reveal_strlit("доступен");
    reveal_strlit("недоступен");
    reveal_strlit("ещё не проверен");
    lemma_plain("не задан"@);
    lemma_plain("доступен"@);
    lemma_plain("недоступен"@);
    lemma_plain("ещё не проверен"@);
}

proof fn lemma_badge(address: Option<String>, health: Reachability)
    ensures
        health_html(text_in(address), health) == badge(address, health),
{
    lemma_badge_words();
}

proof fn lemma_field_names()
    ensures
        escaped("socks_upstream"@) == "socks_upstream"@,
        escaped("http_upstream"@) == "http_upstream"@,
        escaped("bridge_port"@) == "bridge_port"@,
        escaped("SOCKS5"@) == "SOCKS5"@,
        escaped("HTTP-прокси"@) == "HTTP-прокси"@,
        escaped("Порт"@) == "Порт"@,
        ""@.len() == 0,
{
    reveal_strlit("socks_upstream");
    reveal_strlit("http_upstream");
    reveal_strlit("bridge_port");
    reveal_strlit("SOCKS5");
    reveal_strlit("HTTP-прокси");
    reveal_strlit("Порт");
    reveal_strlit("");
    lemma_plain("socks_upstream"@);
    lemma_plain("http_upstream"@);
    lemma_plain("bridge_port"@);
    lemma_plain("SOCKS5"@);
    lemma_plain("HTTP-прокси"@);
    lemma_plain("Порт"@);
}

/// The address in the settings, or nothing.
pub open spec fn address_shown(address: Option<String>) -> Seq<char> {
    match address {
        Some(a) => escaped(a@),
        None => Seq::empty(),
    }
}

/// The line of an upstream: its name, its own badge, its own address.
pub open spec fn upstream_line(
    name: Seq<char>,
    label: Seq<char>,
    address: Option<String>,
    health: Reachability,
) -> Seq<char> {
    "<label for=\""@ + name + "\">"@ + label + " "@ + badge(address, health)
        + "</label>\n<input type=\"text\" id=\""@ + name + "\" name=\""@ + name + "\" value=\""@
        + address_shown(address) + "\">\n"@
}

proof fn lemma_badge_is_something(address: Option<String>, health: Reachability)
    ensures
        badge(address, health).len() > 0,
{
    reveal_strlit("</span>");
}

proof fn lemma_upstream_lines(app: AppState, cfg: Config)
    ensures
        upstreams_html(app, cfg@)
            == "<section class=\"card\" aria-labelledby=\"upstreams\">\n<h2 id=\"upstreams\">Апстримы</h2>\n"@
            + UPSTREAMS_HINT@ + upstream_line(
            "socks_upstream"@,
            "SOCKS5"@,
            cfg.socks_upstream,
            app.health.socks,
        ) + upstream_line("http_upstream"@, "HTTP-прокси"@, cfg.http_upstream, app.health.http)
            + "</section>\n"@,
{
    lemma_field_names();
    lemma_badge(cfg.socks_upstream, app.health.socks);
    lemma_badge(cfg.http_upstream, app.health.http);
    lemma_badge_is_something(cfg.socks_upstream, app.health.socks);
    lemma_badge_is_something(cfg.http_upstream, app.health.http);
    assert(escaped(Seq::empty()) =~= Seq::<char>::empty());
    assert(""@ =~= Seq::<char>::empty());
    let (socks, http) = (
        badge(cfg.socks_upstream, app.health.socks),
        badge(cfg.http_upstream, app.health.http),
    );
    let socks_line = upstream_line(
        "socks_upstream"@,
        "SOCKS5"@,
        cfg.socks_upstream,
        app.health.socks,
    );
    let http_line = upstream_line(
        "http_upstream"@,
        "HTTP-прокси"@,
        cfg.http_upstream,
        app.health.http,
    );
    let value = crate::settings_page::page::text_or_empty(text_in(cfg.socks_upstream));
    assert(escaped(value) =~= address_shown(cfg.socks_upstream));
    assert(field_html("socks_upstream"@, "SOCKS5"@, value, socks) =~= socks_line);
    let value = crate::settings_page::page::text_or_empty(text_in(cfg.http_upstream));
    assert(escaped(value) =~= address_shown(cfg.http_upstream));
    assert(field_html("http_upstream"@, "HTTP-прокси"@, value, http) =~= http_line);
}

/// Beside the address of the SOCKS upstream stands what is known of the SOCKS
/// upstream, and beside that of the HTTP one what is known of that: that it has no
/// address, or else whether it answered.
pub proof fn each_upstream_shows_its_own_health(
    app: &AppState,
    cfg: &Config,
    bound_port: u16,
    autostart: &Result<bool, String>,
    tunnel: &TunnelSnapshot,
    outcome: Option<&Outcome>,
    out: String,
)
    requires
        call_ensures(page, (app, cfg, bound_port, autostart, tunnel, outcome), out),
    ensures
        shows(
            out@,
            upstream_line("socks_upstream"@, "SOCKS5"@, cfg.socks_upstream, app.health.socks),
        ),
        shows(
            out@,
            upstream_line("http_upstream"@, "HTTP-прокси"@, cfg.http_upstream, app.health.http),
        ),
{
    lemma_sections(*app, *cfg, bound_port, *autostart, *tunnel, outcome);
    lemma_upstream_lines(*app, *cfg);
    let section = upstreams_html(*app, cfg@);
    let socks = upstream_line("socks_upstream"@, "SOCKS5"@, cfg.socks_upstream, app.health.socks);
    let http = upstream_line("http_upstream"@, "HTTP-прокси"@, cfg.http_upstream, app.health.http);
    assert(shows(section, socks) && shows(section, http)) by {
        broadcast use lemma_shown_in_both;

        lemma_shows_itself(socks);
        lemma_shows_itself(http);
    }
    lemma_shown_through(out@, section, socks);
    lemma_shown_through(out@, section, http);
}

proof fn lemma_grouped(a: Seq<char>, b: Seq<char>, c: Seq<char>)
    ensures
        a + b + c == a + (b + c),
{
    assert(a + b + c =~= a + (b + c));
}

/// The two texts are the same but for what stands behind the label.
pub open spec fn differ_beside(
    label: Seq<char>,
    one: Seq<char>,
    first: Seq<char>,
    two: Seq<char>,
    second: Seq<char>,
) -> bool {
    exists|x: Seq<char>, y: Seq<char>|
        #![trigger x + label + one + y]
        first == x + label + one + y && second == x + label + two + y
}

/// The part `m` of a text, and what stands around it.
proof fn lemma_nested(
    before: Seq<char>,
    start: Seq<char>,
    label: Seq<char>,
    m: Seq<char>,
    end: Seq<char>,
    rest: Seq<char>,
    behind: Seq<char>,
)
    ensures
        before + (start + (label + m + end) + rest) + behind == (before + start) + label + m + (end
            + rest + behind),
{
    let x = before + start;
    lemma_grouped(start, label + m, end);
    lemma_grouped(start, label, m);
    let inner = start + label + m;
    assert(start + (label + m + end) == inner + end);
    lemma_grouped(inner, end, rest);
    lemma_grouped(before, inner, end + rest);
    lemma_grouped(before + inner, end + rest, behind);
    lemma_grouped(before, start + label, m);
    lemma_grouped(before, start, label);
}

/// The line of an upstream behind its badge.
spec fn line_end(name: Seq<char>, address: Option<String>) -> Seq<char> {
    "</label>\n<input type=\"text\" id=\""@ + name + "\" name=\""@ + name + "\" value=\""@
        + address_shown(address) + "\">\n"@
}

proof fn lemma_line_end(
    name: Seq<char>,
    label: Seq<char>,
    address: Option<String>,
    health: Reachability,
)
    ensures
        upstream_line(name, label, address, health) == ("<label for=\""@ + name + "\">"@ + label
            + " "@) + badge(address, health) + line_end(name, address),
{
    let x = "<label for=\""@ + name + "\">"@ + label + " "@ + badge(address, health);
    let a = "</label>\n<input type=\"text\" id=\""@;
    lemma_grouped(x, a, name);
    lemma_grouped(x, a + name, "\" name=\""@);
    lemma_grouped(x, a + name + "\" name=\""@, name);
    lemma_grouped(x, a + name + "\" name=\""@ + name, "\" value=\""@);
    lemma_grouped(x, a + name + "\" name=\""@ + name + "\" value=\""@, address_shown(address));
    lemma_grouped(
        x,
        a + name + "\" name=\""@ + name + "\" value=\""@ + address_shown(address),
        "\">\n"@,
    );
}

/// The form around its first section.
proof fn lemma_form_around(
    start: Seq<char>,
    up: Seq<char>,
    port: Seq<char>,
    nets: Seq<char>,
    auto: Seq<char>,
    bypass: Seq<char>,
    system: Seq<char>,
    save: Seq<char>,
    office: Seq<char>,
    end: Seq<char>,
)
    ensures
        start + up + port + nets + auto + bypass + system + save + office + end == start + up + (port
            + nets + auto + bypass + system + save + office + end),
{
    let x = start + up;
    lemma_grouped(x, port, nets);
    lemma_grouped(x, port + nets, auto);
    lemma_grouped(x, port + nets + auto, bypass);
    lemma_grouped(x, port + nets + auto + bypass, system);
    lemma_grouped(x, port + nets + auto + bypass + system, save);
    lemma_grouped(x, port + nets + auto + bypass + system + save, office);
    lemma_grouped(x, port + nets + auto + bypass + system + save + office, end);
}

/// The page around the first section of its form.
proof fn lemma_page_around(
    head: Seq<char>,
    start: Seq<char>,
    up: Seq<char>,
    rest: Seq<char>,
    actions: Seq<char>,
    end: Seq<char>,
)
    ensures
        head + (start + up + rest) + actions + end == (head + start) + up + (rest + actions + end),
{
    lemma_grouped(head, start + up, rest);
    lemma_grouped(head, start, up);
    lemma_grouped(head + start + up, rest, actions);
    lemma_grouped(head + start + up, rest + actions, end);
}

/// What stands around the upstreams does not depend on their health.
proof fn lemma_around_upstreams(
    app: AppState,
    cfg: Config,
    bound_port: u16,
    autostart: Result<bool, String>,
    tunnel: TunnelSnapshot,
    outcome: Option<&Outcome>,
    health: Health,
) -> (around: (Seq<char>, Seq<char>))
    ensures
        ({
            let other = AppState { health, ..app };
            &&& page_html(app, cfg@, bound_port, autostart, tunnel, outcome) == around.0
                + upstreams_html(app, cfg@) + around.1
            &&& page_html(other, cfg@, bound_port, autostart, tunnel, outcome) == around.0
                + upstreams_html(other, cfg@) + around.1
        }),
{
    let other = AppState { health, ..app };
    let now = now_html(app, outcome);
    assert(now_html(other, outcome) == now) by {
        assert(route_words(other) == route_words(app));
        assert(network_words(other) == network_words(app));
    }
    let (up, up2) = (upstreams_html(app, cfg@), upstreams_html(other, cfg@));
    let start = "<form method=\"post\" action=\"\">\n"@;
    let (port, nets) = (port_html(cfg.bridge_port, bound_port), networks_html(cfg@));
    let (auto, bypass) = (automation_html(cfg@), bypass_html(cfg@));
    let (system, office) = (system_html(cfg@, autostart), office_button_html(app.place));
    let save =
        "<div class=\"actions\"><button type=\"submit\" name=\"action\" value=\"save\">Сохранить</button>"@;
    let end = "</div>\n</form>\n"@;
    lemma_form_around(start, up, port, nets, auto, bypass, system, save, office, end);
    lemma_form_around(start, up2, port, nets, auto, bypass, system, save, office, end);
    let rest = port + nets + auto + bypass + system + save + office + end;
    let head =
        "<!doctype html>\n<html lang=\"ru\"><head><meta charset=\"utf-8\">\n<meta name=\"viewport\" content=\"width=device-width, initial-scale=1\">\n<title>ProxyPilot — настройки</title>\n<style>"@
        + STYLE@ + "</style></head>\n<body>\n"@ + now;
    let actions = actions_html(cfg@, tunnel, outcome);
    lemma_page_around(head, start, up, rest, actions, "</body></html>\n"@);
    lemma_page_around(head, start, up2, rest, actions, "</body></html>\n"@);
    (head + start, rest + actions + "</body></html>\n"@)
}

/// Where two states differ in what is known of the SOCKS upstream alone, the two
/// pages differ in the badge of that upstream alone.
pub proof fn only_the_badge_of_the_socks_upstream_follows_its_health(
    app: &AppState,
    other: &AppState,
    cfg: &Config,
    bound_port: u16,
    autostart: &Result<bool, String>,
    tunnel: &TunnelSnapshot,
    outcome: Option<&Outcome>,
    outs: (String, String),
)
    requires
        *other == (AppState {
            health: Health { socks: other.health.socks, http: app.health.http },
            ..*app
        }),
        call_ensures(page, (app, cfg, bound_port, autostart, tunnel, outcome), outs.0),
        call_ensures(page, (other, cfg, bound_port, autostart, tunnel, outcome), outs.1),
    ensures
        differ_beside(
            "<label for=\"socks_upstream\">SOCKS5 "@,
            badge(cfg.socks_upstream, app.health.socks),
            outs.0@,
            badge(cfg.socks_upstream, other.health.socks),
            outs.1@,
        ),
{
    let label = "<label for=\"socks_upstream\">SOCKS5 "@;
    let (one, two) = (
        badge(cfg.socks_upstream, app.health.socks),
        badge(cfg.socks_upstream, other.health.socks),
    );
    let end = line_end("socks_upstream"@, cfg.socks_upstream);
    let (start, rest) = lemma_socks_in_its_section(*app, *cfg, *other);
    let (before, behind) = lemma_around_upstreams(
        *app,
        *cfg,
        bound_port,
        *autostart,
        *tunnel,
        outcome,
        other.health,
    );
    lemma_differ(outs.0@, outs.1@, before, start, label, one, two, end, rest, behind);
}

/// Where two states differ in what is known of the HTTP upstream alone, the two
/// pages differ in the badge of that upstream alone.
pub proof fn only_the_badge_of_the_http_upstream_follows_its_health(
    app: &AppState,
    other: &AppState,
    cfg: &Config,
    bound_port: u16,
    autostart: &Result<bool, String>,
    tunnel: &TunnelSnapshot,
    outcome: Option<&Outcome>,
    outs: (String, String),
)
    requires
        *other == (AppState {
            health: Health { socks: app.health.socks, http: other.health.http },
            ..*app
        }),
        call_ensures(page, (app, cfg, bound_port, autostart, tunnel, outcome), outs.0),
        call_ensures(page, (other, cfg, bound_port, autostart, tunnel, outcome), outs.1),
    ensures
        differ_beside(
            "<label for=\"http_upstream\">HTTP-прокси "@,
            badge(cfg.http_upstream, app.health.http),
            outs.0@,
            badge(cfg.http_upstream, other.health.http),
            outs.1@,
        ),
{
    let label = "<label for=\"http_upstream\">HTTP-прокси "@;
    let (one, two) = (
        badge(cfg.http_upstream, app.health.http),
        badge(cfg.http_upstream, other.health.http),
    );
    let end = line_end("http_upstream"@, cfg.http_upstream);
    let (start, rest) = lemma_http_in_its_section(*app, *cfg, *other);
    let (before, behind) = lemma_around_upstreams(
        *app,
        *cfg,
        bound_port,
        *autostart,
        *tunnel,
        outcome,
        other.health,
    );
    lemma_differ(outs.0@, outs.1@, before, start, label, one, two, end, rest, behind);
}

proof fn lemma_differ(
    first: Seq<char>,
    second: Seq<char>,
    before: Seq<char>,
    start: Seq<char>,
    label: Seq<char>,
    one: Seq<char>,
    two: Seq<char>,
    end: Seq<char>,
    rest: Seq<char>,
    behind: Seq<char>,
)
    requires
        first == before + (start + (label + one + end) + rest) + behind,
        second == before + (start + (label + two + end) + rest) + behind,
    ensures
        differ_beside(label, one, first, two, second),
{
    lemma_nested(before, start, label, one, end, rest, behind);
    lemma_nested(before, start, label, two, end, rest, behind);
    let (x, y) = (before + start, end + rest + behind);
    assert(first == x + label + one + y);
}

proof fn lemma_socks_in_its_section(app: AppState, cfg: Config, other: AppState) -> (around: (
    Seq<char>,
    Seq<char>,
))
    requires
        app.health.http == other.health.http,
    ensures
        ({
            let label = "<label for=\"socks_upstream\">SOCKS5 "@;
            let end = line_end("socks_upstream"@, cfg.socks_upstream);
            &&& upstreams_html(app, cfg@) == around.0 + (label + badge(
                cfg.socks_upstream,
                app.health.socks,
            ) + end) + around.1
            &&& upstreams_html(other, cfg@) == around.0 + (label + badge(
                cfg.socks_upstream,
                other.health.socks,
            ) + end) + around.1
        }),
{
    let label = "<label for=\"socks_upstream\">SOCKS5 "@;
    assert("<label for=\""@ + "socks_upstream"@ + "\">"@ + "SOCKS5"@ + " "@ =~= label) by {
        reveal_strlit("<label for=\"");
        reveal_strlit("socks_upstream");
        reveal_strlit("\">");
        reveal_strlit("SOCKS5");
        reveal_strlit(" ");
        reveal_strlit("<label for=\"socks_upstream\">SOCKS5 ");
    }
    lemma_line_end("socks_upstream"@, "SOCKS5"@, cfg.socks_upstream, app.health.socks);
    lemma_line_end("socks_upstream"@, "SOCKS5"@, cfg.socks_upstream, other.health.socks);
    lemma_upstream_lines(app, cfg);
    lemma_upstream_lines(other, cfg);
    let start =
        "<section class=\"card\" aria-labelledby=\"upstreams\">\n<h2 id=\"upstreams\">Апстримы</h2>\n"@
        + UPSTREAMS_HINT@;
    let http = upstream_line("http_upstream"@, "HTTP-прокси"@, cfg.http_upstream, app.health.http);
    let (one, two) = (
        upstream_line("socks_upstream"@, "SOCKS5"@, cfg.socks_upstream, app.health.socks),
        upstream_line("socks_upstream"@, "SOCKS5"@, cfg.socks_upstream, other.health.socks),
    );
    lemma_grouped(start + one, http, "</section>\n"@);
    lemma_grouped(start + two, http, "</section>\n"@);
    (start, http + "</section>\n"@)
}

proof fn lemma_http_in_its_section(app: AppState, cfg: Config, other: AppState) -> (around: (
    Seq<char>,
    Seq<char>,
))
    requires
        app.health.socks == other.health.socks,
    ensures
        ({
            let label = "<label for=\"http_upstream\">HTTP-прокси "@;
            let end = line_end("http_upstream"@, cfg.http_upstream);
            &&& upstreams_html(app, cfg@) == around.0 + (label + badge(
                cfg.http_upstream,
                app.health.http,
            ) + end) + around.1
            &&& upstreams_html(other, cfg@) == around.0 + (label + badge(
                cfg.http_upstream,
                other.health.http,
            ) + end) + around.1
        }),
{
    let label = "<label for=\"http_upstream\">HTTP-прокси "@;
    assert("<label for=\""@ + "http_upstream"@ + "\">"@ + "HTTP-прокси"@ + " "@ =~= label) by {
        reveal_strlit("<label for=\"");
        reveal_strlit("http_upstream");
        reveal_strlit("\">");
        reveal_strlit("HTTP-прокси");
        reveal_strlit(" ");
        reveal_strlit("<label for=\"http_upstream\">HTTP-прокси ");
    }
    lemma_line_end("http_upstream"@, "HTTP-прокси"@, cfg.http_upstream, app.health.http);
    lemma_line_end("http_upstream"@, "HTTP-прокси"@, cfg.http_upstream, other.health.http);
    lemma_upstream_lines(app, cfg);
    lemma_upstream_lines(other, cfg);
    let start =
        "<section class=\"card\" aria-labelledby=\"upstreams\">\n<h2 id=\"upstreams\">Апстримы</h2>\n"@
        + UPSTREAMS_HINT@;
    let socks = upstream_line("socks_upstream"@, "SOCKS5"@, cfg.socks_upstream, app.health.socks);
    (start + socks, "</section>\n"@)
}

// ---------------------------------------------------------------------------
// The other fields
// ---------------------------------------------------------------------------

proof fn lemma_digits_are_plain(n: nat)
    ensures
        escaped(decimal(n)) == decimal(n),
{
    crate::text::lemma_decimal_reads_back(n);
    assert forall|i: int| 0 <= i < decimal(n).len() implies !is_special(#[trigger] decimal(n)[i]) by {
        assert(crate::text::is_digit(decimal(n)[i]));
    }
    lemma_plain(decimal(n));
}

/// The field of the port holds the port that is saved, and where the bridge
/// listens on another one the page says so with both.
pub proof fn the_saved_port_is_shown(
    app: &AppState,
    cfg: &Config,
    bound_port: u16,
    autostart: &Result<bool, String>,
    tunnel: &TunnelSnapshot,
    outcome: Option<&Outcome>,
    out: String,
)
    requires
        call_ensures(page, (app, cfg, bound_port, autostart, tunnel, outcome), out),
    ensures
        shows(
            out@,
            "<input type=\"text\" id=\"bridge_port\" name=\"bridge_port\" value=\""@ + decimal(
                cfg.bridge_port as nat,
            ) + "\">\n"@,
        ),
        cfg.bridge_port != bound_port ==> shows(
            out@,
            "<p class=\"warn\">Сохранено "@ + decimal(cfg.bridge_port as nat)
                + ", но мост слушает "@ + decimal(bound_port as nat) + " — "@,
        ),
        cfg.bridge_port == bound_port ==> shows(
            out@,
            "<p class=\"warn\">Порт применяется только при запуске: "@,
        ),
{
    lemma_sections(*app, *cfg, bound_port, *autostart, *tunnel, outcome);
    let section = port_html(cfg.bridge_port, bound_port);
    let saved = decimal(cfg.bridge_port as nat);
    lemma_port_section(cfg.bridge_port, bound_port);
    lemma_shown_through(
        out@,
        section,
        "<input type=\"text\" id=\"bridge_port\" name=\"bridge_port\" value=\""@ + saved
            + "\">\n"@,
    );
    if cfg.bridge_port != bound_port {
        lemma_shown_through(
            out@,
            section,
            "<p class=\"warn\">Сохранено "@ + saved + ", но мост слушает "@ + decimal(
                bound_port as nat,
            ) + " — "@,
        );
    } else {
        lemma_shown_through(
            out@,
            section,
            "<p class=\"warn\">Порт применяется только при запуске: "@,
        );
    }
}

proof fn lemma_port_field(saved: Seq<char>)
    requires
        escaped(saved) == saved,
    ensures
        shows(
            field_html("bridge_port"@, "Порт"@, saved, ""@),
            "<input type=\"text\" id=\"bridge_port\" name=\"bridge_port\" value=\""@ + saved
                + "\">\n"@,
        ),
{
    lemma_field_names();
    let a = "<input type=\"text\" id=\"bridge_port\" name=\"bridge_port\" value=\""@;
    let line = a + saved + "\">\n"@;
    let label = "<label for=\""@ + "bridge_port"@ + "\">"@ + "Порт"@;
    assert(label + Seq::<char>::empty() =~= label);
    let field = field_html("bridge_port"@, "Порт"@, saved, ""@);
    let x = label + "</label>\n"@;
    assert(label + "</label>\n<input type=\"text\" id=\""@ + "bridge_port"@ + "\" name=\""@
        + "bridge_port"@ + "\" value=\""@ =~= x + a) by {
        reveal_strlit("<input type=\"text\" id=\"bridge_port\" name=\"bridge_port\" value=\"");
        reveal_strlit("</label>\n<input type=\"text\" id=\"");
        reveal_strlit("</label>\n");
        reveal_strlit("bridge_port");
        reveal_strlit("\" name=\"");
        reveal_strlit("\" value=\"");
    }
    lemma_grouped(x, a, saved);
    lemma_grouped(x, a + saved, "\">\n"@);
    lemma_shows_itself(line);
    lemma_shown_in_both(x, line, line);
}

proof fn lemma_port_section(saved: u16, bound: u16)
    ensures
        shows(
            port_html(saved, bound),
            "<input type=\"text\" id=\"bridge_port\" name=\"bridge_port\" value=\""@ + decimal(
                saved as nat,
            ) + "\">\n"@,
        ),
        saved != bound ==> shows(
            port_html(saved, bound),
            "<p class=\"warn\">Сохранено "@ + decimal(saved as nat) + ", но мост слушает "@
                + decimal(bound as nat) + " — "@,
        ),
        saved == bound ==> shows(
            port_html(saved, bound),
            "<p class=\"warn\">Порт применяется только при запуске: "@,
        ),
{
    lemma_digits_are_plain(saved as nat);
    lemma_port_field(decimal(saved as nat));
    lemma_port_notes(saved, bound);
    broadcast use lemma_shown_in_both;

}

proof fn lemma_port_notes(saved: u16, bound: u16)
    ensures
        saved != bound ==> shows(
            port_note_html(saved, bound),
            "<p class=\"warn\">Сохранено "@ + decimal(saved as nat) + ", но мост слушает "@
                + decimal(bound as nat) + " — "@,
        ),
        saved == bound ==> shows(
            port_note_html(saved, bound),
            "<p class=\"warn\">Порт применяется только при запуске: "@,
        ),
{
    let note = port_note_html(saved, bound);
    if saved != bound {
        let start = "<p class=\"warn\">Сохранено "@ + decimal(saved as nat)
            + ", но мост слушает "@ + decimal(bound as nat);
        assert(PORT_PENDING@ =~= " — "@ + PORT_PENDING@.skip(3)) by {
            reveal_strlit(
                " — \
             перезапустите ProxyPilot, чтобы новый порт вступил в силу. \
             Перепривязать слушатель на лету значило бы оборвать все \
             установленные соединения.</p>\n",
            );
            reveal_strlit(" — ");
        }
        lemma_grouped(start, " — "@, PORT_PENDING@.skip(3));
        let part = start + " — "@;
        lemma_shows_itself(part);
        lemma_shown_in_both(part, PORT_PENDING@.skip(3), part);
    } else {
        let part = "<p class=\"warn\">Порт применяется только при запуске: "@;
        let n = part.len() as int;
        assert(PORT_HINT@ =~= part + PORT_HINT@.skip(n)) by {
            reveal_strlit(
                "<p class=\"warn\">Порт применяется только при запуске: после \
             изменения перезапустите ProxyPilot. На лету он не меняется \
             намеренно — перепривязка оборвала бы все установленные \
             соединения.</p>\n",
            );
            reveal_strlit("<p class=\"warn\">Порт применяется только при запуске: ");
        }
        lemma_shows_itself(part);
        lemma_shown_in_both(part, PORT_HINT@.skip(n), part);
    }
}

/// A switch in the form: ticked or not, to be used or not.
pub open spec fn switch(name: Seq<char>, on: bool, disabled: bool) -> Seq<char> {
    "<label><input type=\"checkbox\" name=\""@ + name + "\""@ + (if on {
        " checked"@
    } else {
        Seq::empty()
    }) + (if disabled {
        " disabled"@
    } else {
        Seq::empty()
    }) + "> "@
}

proof fn lemma_switch(name: Seq<char>, label: Seq<char>, on: bool, disabled: bool, note: Seq<char>)
    requires
        escaped(name) == name,
    ensures
        shows(checkbox_html(name, label, on, disabled, note), switch(name, on, disabled)),
{
    broadcast use lemma_shown_in_both;

    assert(""@ =~= Seq::<char>::empty()) by {
        reveal_strlit("");
    }
    lemma_shows_itself(switch(name, on, disabled));
}

/// Every switch is ticked exactly where the setting of its own name is on. The
/// autostart is ticked where it is known to be on, and cannot be used where it is
/// not known, which the page then says.
pub proof fn each_switch_shows_its_own_setting(
    app: &AppState,
    cfg: &Config,
    bound_port: u16,
    autostart: &Result<bool, String>,
    tunnel: &TunnelSnapshot,
    outcome: Option<&Outcome>,
    out: String,
)
    requires
        call_ensures(page, (app, cfg, bound_port, autostart, tunnel, outcome), out),
    ensures
        shows(out@, switch("automate_tunnel"@, cfg.automate_tunnel, false)),
        shows(out@, switch("manage_system_proxy"@, cfg.manage_system_proxy, false)),
        shows(
            out@,
            switch(
                "autostart"@,
                *autostart == Ok::<bool, String>(true),
                autostart matches Err(why) && why@.len() > 0,
            ),
        ),
        autostart matches Err(why) ==> why@.len() > 0 ==> shows(
            out@,
            "<p class=\"hint\">"@ + escaped(why@) + "</p>\n"@,
        ),
{
    lemma_sections(*app, *cfg, bound_port, *autostart, *tunnel, outcome);
    lemma_switches(*cfg, *autostart);
    let (auto, system) = (automation_html(cfg@), system_html(cfg@, *autostart));
    lemma_shown_through(out@, auto, switch("automate_tunnel"@, cfg.automate_tunnel, false));
    lemma_shown_through(out@, system, switch("manage_system_proxy"@, cfg.manage_system_proxy, false));
    lemma_shown_through(
        out@,
        system,
        switch(
            "autostart"@,
            *autostart == Ok::<bool, String>(true),
            autostart matches Err(why) && why@.len() > 0,
        ),
    );
    if let Err(why) = autostart {
        if why@.len() > 0 {
            lemma_shown_through(
                out@,
                system,
                "<p class=\"hint\">"@ + escaped(why@) + "</p>\n"@,
            );
        }
    }
}

proof fn lemma_switches(cfg: Config, autostart: Result<bool, String>)
    ensures
        shows(automation_html(cfg@), switch("automate_tunnel"@, cfg.automate_tunnel, false)),
        shows(
            system_html(cfg@, autostart),
            switch("manage_system_proxy"@, cfg.manage_system_proxy, false),
        ),
        shows(
            system_html(cfg@, autostart),
            switch(
                "autostart"@,
                autostart == Ok::<bool, String>(true),
                autostart matches Err(why) && why@.len() > 0,
            ),
        ),
        autostart matches Err(why) ==> why@.len() > 0 ==> shows(
            system_html(cfg@, autostart),
            "<p class=\"hint\">"@ + escaped(why@) + "</p>\n"@,
        ),
{
    lemma_switch_names();
    lemma_switch(
        "automate_tunnel"@,
        "Поднимать туннель автоматически вне офиса"@,
        cfg.automate_tunnel,
        false,
        AUTOMATION_HINT@,
    );
    lemma_switch(
        "manage_system_proxy"@,
        "Управлять системными настройками прокси Windows"@,
        cfg.manage_system_proxy,
        false,
        SYSTEM_HINT@,
    );
    lemma_autostart(autostart);
    broadcast use lemma_shown_in_both;

}

proof fn lemma_switch_names()
    ensures
        escaped("automate_tunnel"@) == "automate_tunnel"@,
        escaped("manage_system_proxy"@) == "manage_system_proxy"@,
        escaped("autostart"@) == "autostart"@,
{
    reveal_strlit("automate_tunnel");
    reveal_strlit("manage_system_proxy");
    reveal_strlit("autostart");
    lemma_plain("automate_tunnel"@);
    lemma_plain("manage_system_proxy"@);
    lemma_plain("autostart"@);
}

proof fn lemma_autostart(autostart: Result<bool, String>)
    requires
        escaped("autostart"@) == "autostart"@,
    ensures
        shows(
            autostart_html(autostart),
            switch(
                "autostart"@,
                autostart == Ok::<bool, String>(true),
                autostart matches Err(why) && why@.len() > 0,
            ),
        ),
        autostart matches Err(why) ==> why@.len() > 0 ==> shows(
            autostart_html(autostart),
            "<p class=\"hint\">"@ + escaped(why@) + "</p>\n"@,
        ),
{
    let label = "Запускать вместе с Windows"@;
    match autostart {
        Ok(on) => lemma_switch("autostart"@, label, on, false, Seq::empty()),
        Err(why) => {
            lemma_switch("autostart"@, label, false, why@.len() > 0, why@);
            if why@.len() > 0 {
                let remark = "<p class=\"hint\">"@ + escaped(why@) + "</p>\n"@;
                lemma_shows_itself(remark);
                broadcast use lemma_shown_in_both;

            }
        },
    }
}

/// The bypass list stands in its field.
pub proof fn the_bypass_list_is_shown(
    app: &AppState,
    cfg: &Config,
    bound_port: u16,
    autostart: &Result<bool, String>,
    tunnel: &TunnelSnapshot,
    outcome: Option<&Outcome>,
    out: String,
)
    requires
        call_ensures(page, (app, cfg, bound_port, autostart, tunnel, outcome), out),
    ensures
        shows(
            out@,
            "<textarea id=\"no_proxy\" name=\"no_proxy\" rows=\"4\">"@ + escaped(cfg.no_proxy@)
                + "</textarea>\n"@,
        ),
{
    lemma_sections(*app, *cfg, bound_port, *autostart, *tunnel, outcome);
    lemma_bypass_section(*cfg);
    lemma_shown_through(
        out@,
        bypass_html(cfg@),
        "<textarea id=\"no_proxy\" name=\"no_proxy\" rows=\"4\">"@ + escaped(cfg.no_proxy@)
            + "</textarea>\n"@,
    );
}

proof fn lemma_bypass_label() -> (start: Seq<char>)
    ensures
        BYPASS_LABEL@ == start + "<textarea id=\"no_proxy\" name=\"no_proxy\" rows=\"4\">"@,
{
    let open = "<textarea id=\"no_proxy\" name=\"no_proxy\" rows=\"4\">"@;
    let n = BYPASS_LABEL@.len() - open.len();
    let start = BYPASS_LABEL@.take(n);
    assert(BYPASS_LABEL@ =~= start + open) by {
        reveal_strlit(
            "<label for=\"no_proxy\">Адреса и подсети, по одному в строке или через \
         запятую</label>\n<textarea id=\"no_proxy\" name=\"no_proxy\" rows=\"4\">",
        );
        reveal_strlit("<textarea id=\"no_proxy\" name=\"no_proxy\" rows=\"4\">");
    }
    start
}

proof fn lemma_bypass_section(cfg: Config)
    ensures
        shows(
            bypass_html(cfg@),
            "<textarea id=\"no_proxy\" name=\"no_proxy\" rows=\"4\">"@ + escaped(cfg.no_proxy@)
                + "</textarea>\n"@,
        ),
{
    let open = "<textarea id=\"no_proxy\" name=\"no_proxy\" rows=\"4\">"@;
    let list = escaped(cfg.no_proxy@);
    let part = open + list + "</textarea>\n"@;
    let start = lemma_bypass_label();
    let title =
        "<section class=\"card\" aria-labelledby=\"bypass\">\n<h2 id=\"bypass\">Мимо прокси</h2>\n"@;
    lemma_grouped(title, start, open);
    let x = title + start;
    lemma_grouped(x, open, list);
    lemma_grouped(x, open + list, "</textarea>\n"@);
    lemma_shows_itself(part);
    lemma_shown_in_both(x, part, part);
    lemma_shown_in_both(x + part, BYPASS_HINT@, part);
    lemma_shown_in_both(x + part + BYPASS_HINT@, "</section>\n"@, part);
}

// ---------------------------------------------------------------------------
// Rows
// ---------------------------------------------------------------------------

/// The row of an office network.
pub open spec fn network_row(id: Seq<char>, name: Seq<char>) -> Seq<char> {
    "<tr><td><input type=\"text\" name=\"office_id\" value=\""@ + escaped(id)
        + "\"></td><td><input type=\"text\" name=\"office_name\" value=\""@ + escaped(name)
        + "\"></td></tr>\n"@
}

proof fn lemma_network_rows(list: Seq<OfficeNetwork>, i: int)
    requires
        0 <= i < list.len(),
    ensures
        shows(office_rows_html(networks(list)), network_row(list[i].id@, list[i].name@)),
    decreases list.len(),
{
    let all = networks(list);
    let rest = list.drop_last();
    assert(all.drop_last() =~= networks(rest));
    assert(all.last() == list.last()@);
    let row = network_row(list[i].id@, list[i].name@);
    let (before, last) = (
        office_rows_html(networks(rest)),
        office_row_html(all.last().id, all.last().name),
    );
    if i < rest.len() {
        assert(rest[i] == list[i]);
        lemma_network_rows(rest, i);
    } else {
        lemma_shows_itself(row);
    }
    lemma_shown_in_both(before, last, row);
}

/// Every office network has a row of its own, with its name beside its identifier,
/// and below them stands an empty row.
pub proof fn every_office_network_is_shown(
    app: &AppState,
    cfg: &Config,
    bound_port: u16,
    autostart: &Result<bool, String>,
    tunnel: &TunnelSnapshot,
    outcome: Option<&Outcome>,
    out: String,
    i: int,
)
    requires
        call_ensures(page, (app, cfg, bound_port, autostart, tunnel, outcome), out),
    ensures
        0 <= i < cfg.office_networks@.len() ==> shows(
            out@,
            network_row(cfg.office_networks@[i].id@, cfg.office_networks@[i].name@),
        ),
        shows(out@, network_row(Seq::empty(), Seq::empty())),
{
    lemma_sections(*app, *cfg, bound_port, *autostart, *tunnel, outcome);
    lemma_networks_section(*cfg, i);
    let section = networks_html(cfg@);
    lemma_shown_through(out@, section, network_row(Seq::empty(), Seq::empty()));
    if 0 <= i < cfg.office_networks@.len() {
        lemma_shown_through(
            out@,
            section,
            network_row(cfg.office_networks@[i].id@, cfg.office_networks@[i].name@),
        );
    }
}

proof fn lemma_networks_section(cfg: Config, i: int)
    ensures
        0 <= i < cfg.office_networks@.len() ==> shows(
            networks_html(cfg@),
            network_row(cfg.office_networks@[i].id@, cfg.office_networks@[i].name@),
        ),
        shows(networks_html(cfg@), network_row(Seq::empty(), Seq::empty())),
{
    assert(""@ =~= Seq::<char>::empty()) by {
        reveal_strlit("");
    }
    let empty = network_row(Seq::empty(), Seq::empty());
    lemma_shows_itself(empty);
    assert(office_row_html(""@, ""@) == empty);
    if 0 <= i < cfg.office_networks@.len() {
        lemma_network_rows(cfg.office_networks@, i);
    }
    broadcast use lemma_shown_in_both;

}

/// A note above the form.
pub open spec fn note_shown(note: Note) -> Seq<char> {
    if note.bad {
        "<p class=\"note bad\">"@ + escaped(note.text@) + "</p>\n"@
    } else {
        "<p class=\"note good\">"@ + escaped(note.text@) + "</p>\n"@
    }
}

proof fn lemma_note(note: Note)
    ensures
        note_html(note@) == note_shown(note),
{
    assert("<p class=\"note "@ + "bad"@ + "\">"@ =~= "<p class=\"note bad\">"@ && "<p class=\"note "@
        + "good"@ + "\">"@ =~= "<p class=\"note good\">"@) by {
        reveal_strlit("<p class=\"note ");
        reveal_strlit("bad");
        reveal_strlit("good");
        reveal_strlit("\">");
        reveal_strlit("<p class=\"note bad\">");
        reveal_strlit("<p class=\"note good\">");
    }
}

proof fn lemma_notes(list: Seq<Note>, i: int)
    requires
        0 <= i < list.len(),
    ensures
        shows(notes_html(notes_in(list)), note_shown(list[i])),
    decreases list.len(),
{
    let all = notes_in(list);
    let rest = list.drop_last();
    assert(all.drop_last() =~= notes_in(rest));
    assert(all.last() == list.last()@);
    if i < rest.len() {
        assert(rest[i] == list[i]);
        lemma_notes(rest, i);
    } else {
        lemma_note(list[i]);
        lemma_shows_itself(note_shown(list[i]));
    }
    lemma_shown_in_both(notes_html(notes_in(rest)), note_html(all.last()), note_shown(list[i]));
}

/// Above the form stand the port that the bridge listens on, the route and the
/// network of the state, and every note of what was done last, bad ones marked as
/// bad and the others as good.
pub proof fn what_was_done_is_shown_above_the_form(
    app: &AppState,
    cfg: &Config,
    bound_port: u16,
    autostart: &Result<bool, String>,
    tunnel: &TunnelSnapshot,
    outcome: Option<&Outcome>,
    out: String,
    i: int,
    words: String,
    place: String,
)
    requires
        call_ensures(page, (app, cfg, bound_port, autostart, tunnel, outcome), out),
        call_ensures(crate::settings_page::parts::route_text, (app,), words),
        call_ensures(crate::settings_page::parts::network_text, (app,), place),
    ensures
        shows(
            out@,
            "<p class=\"now\">Мост слушает <b>127.0.0.1:"@ + decimal(app.port as nat)
                + "</b> · "@ + escaped(words@) + "<br>"@ + escaped(place@) + "</p>\n"@,
        ),
        outcome matches Some(o) ==> 0 <= i < o.notes@.len() ==> shows(
            out@,
            note_shown(o.notes@[i]),
        ),
{
    lemma_sections(*app, *cfg, bound_port, *autostart, *tunnel, outcome);
    lemma_now(*app, outcome, i);
    lemma_shown_through(
        out@,
        now_html(*app, outcome),
        "<p class=\"now\">Мост слушает <b>127.0.0.1:"@ + decimal(app.port as nat) + "</b> · "@
            + escaped(words@) + "<br>"@ + escaped(place@) + "</p>\n"@,
    );
    if let Some(o) = outcome {
        if 0 <= i < o.notes@.len() {
            lemma_shown_through(out@, now_html(*app, outcome), note_shown(o.notes@[i]));
        }
    }
}

proof fn lemma_now(app: AppState, outcome: Option<&Outcome>, i: int)
    ensures
        shows(
            now_html(app, outcome),
            "<p class=\"now\">Мост слушает <b>127.0.0.1:"@ + decimal(app.port as nat)
                + "</b> · "@ + escaped(route_words(app)) + "<br>"@ + escaped(network_words(app))
                + "</p>\n"@,
        ),
        outcome matches Some(o) ==> 0 <= i < o.notes@.len() ==> shows(
            now_html(app, outcome),
            note_shown(o.notes@[i]),
        ),
{
    let a = "<p class=\"now\">Мост слушает <b>127.0.0.1:"@;
    let x = "<h1>ProxyPilot</h1>\n<section class=\"card\">\n"@;
    assert("<h1>ProxyPilot</h1>\n<section class=\"card\">\n<p class=\"now\">Мост слушает <b>127.0.0.1:"@
        =~= x + a) by {
        reveal_strlit("<p class=\"now\">Мост слушает <b>127.0.0.1:");
        reveal_strlit("<h1>ProxyPilot</h1>\n<section class=\"card\">\n");
        reveal_strlit(
            "<h1>ProxyPilot</h1>\n<section class=\"card\">\n<p class=\"now\">Мост слушает <b>127.0.0.1:",
        );
    }
    let (port, route, net) = (
        decimal(app.port as nat),
        escaped(route_words(app)),
        escaped(network_words(app)),
    );
    let part = a + port + "</b> · "@ + route + "<br>"@ + net + "</p>\n"@;
    lemma_grouped(x, a, port);
    lemma_grouped(x, a + port, "</b> · "@);
    lemma_grouped(x, a + port + "</b> · "@, route);
    lemma_grouped(x, a + port + "</b> · "@ + route, "<br>"@);
    lemma_grouped(x, a + port + "</b> · "@ + route + "<br>"@, net);
    lemma_grouped(x, a + port + "</b> · "@ + route + "<br>"@ + net, "</p>\n"@);
    let notes = outcome_notes_html(outcome);
    lemma_shows_itself(part);
    lemma_shown_in_both(x, part, part);
    lemma_shown_in_both(x + part, notes, part);
    lemma_shown_in_both(x + part + notes, "</section>\n"@, part);
    if let Some(o) = outcome {
        if 0 <= i < o.notes@.len() {
            lemma_notes(o.notes@, i);
            lemma_shown_in_both(x + part, notes, note_shown(o.notes@[i]));
            lemma_shown_in_both(x + part + notes, "</section>\n"@, note_shown(o.notes@[i]));
        }
    }
}

/// The button that makes the network an office network carries its name, and
/// stands there where the network is known.
pub proof fn the_office_button_names_the_network(
    app: &AppState,
    cfg: &Config,
    bound_port: u16,
    autostart: &Result<bool, String>,
    tunnel: &TunnelSnapshot,
    outcome: Option<&Outcome>,
    out: String,
    name: Option<&str>,
)
    requires
        call_ensures(page, (app, cfg, bound_port, autostart, tunnel, outcome), out),
        call_ensures(Place::shown_network, (&app.place,), name),
    ensures
        app.place.network is Some ==> name is Some && shows(
            out@,
            "<button type=\"submit\" name=\"action\" value=\"office\">Эта сеть — офис: "@
                + escaped(name->0@) + "</button>"@,
        ),
{
    lemma_sections(*app, *cfg, bound_port, *autostart, *tunnel, outcome);
}

/// Below the form stand the section on the tunnel, what was measured, and what the
/// diagnostics found, where there is any.
pub proof fn what_was_found_is_shown_below_the_form(
    app: &AppState,
    cfg: &Config,
    bound_port: u16,
    autostart: &Result<bool, String>,
    tunnel: &TunnelSnapshot,
    outcome: Option<&Outcome>,
    out: String,
    section: String,
    measured: Option<String>,
    found: Option<String>,
)
    requires
        call_ensures(page, (app, cfg, bound_port, autostart, tunnel, outcome), out),
        call_ensures(tunnel_section, (&cfg.office_subnets, tunnel), section),
        outcome matches Some(o) ==> {
            &&& o.bench is Some == measured is Some
            &&& o.doctor is Some == found is Some
            &&& o.bench matches Some(report) ==> call_ensures(
                bench_table,
                (&report,),
                measured->0,
            )
            &&& o.doctor matches Some(checks) ==> call_ensures(doctor_table, (&checks,), found->0)
        },
    ensures
        shows(out@, section@),
        outcome is Some && measured is Some ==> shows(out@, measured->0@),
        outcome is Some && found is Some ==> shows(out@, found->0@),
{
    lemma_sections(*app, *cfg, bound_port, *autostart, *tunnel, outcome);
    lemma_below(*cfg, *tunnel, outcome);
    let below = actions_html(cfg@, *tunnel, outcome);
    lemma_shown_through(out@, below, section@);
    lemma_shown_through(out@, below, outcome_bench_html(outcome));
    lemma_shown_through(out@, below, outcome_doctor_html(outcome));
}

proof fn lemma_below(cfg: Config, tunnel: TunnelSnapshot, outcome: Option<&Outcome>)
    ensures
        ({
            let below = actions_html(cfg@, tunnel, outcome);
            &&& shows(below, tunnel_html(texts(cfg.office_subnets@), tunnel))
            &&& shows(below, outcome_bench_html(outcome))
            &&& shows(below, outcome_doctor_html(outcome))
            &&& shows(below, BENCH_BUTTON@)
            &&& shows(below, DOCTOR_BUTTON@)
        }),
{
    lemma_shows_itself(tunnel_html(texts(cfg.office_subnets@), tunnel));
    lemma_shows_itself(outcome_bench_html(outcome));
    lemma_shows_itself(outcome_doctor_html(outcome));
    lemma_shows_itself(BENCH_BUTTON@);
    lemma_shows_itself(DOCTOR_BUTTON@);
    broadcast use lemma_shown_in_both;

}

/// The page and the menu of the tray say the same of an upstream that has an
/// address and was probed: that it answers, or that it does not.
pub proof fn the_page_and_the_tray_agree_on_the_upstreams(
    app: &AppState,
    cfg: &Config,
    bound_port: u16,
    autostart: &Result<bool, String>,
    tunnel: &TunnelSnapshot,
    outcome: Option<&Outcome>,
    out: String,
    captions: (String, String),
)
    requires
        call_ensures(page, (app, cfg, bound_port, autostart, tunnel, outcome), out),
        call_ensures(mode_label, (Mode::Socks, app), captions.0),
        call_ensures(mode_label, (Mode::Http, app), captions.1),
    ensures
        has_address(cfg.socks_upstream) && captions.0@ == "SOCKS5"@ + " · доступен"@ ==> shows(
            out@,
            upstream_line("socks_upstream"@, "SOCKS5"@, cfg.socks_upstream, Reachability::Up),
        ),
        has_address(cfg.socks_upstream) && captions.0@ == "SOCKS5"@ + " · недоступен"@ ==> shows(
            out@,
            upstream_line("socks_upstream"@, "SOCKS5"@, cfg.socks_upstream, Reachability::Down),
        ),
        has_address(cfg.http_upstream) && captions.1@ == "HTTP"@ + " · доступен"@ ==> shows(
            out@,
            upstream_line("http_upstream"@, "HTTP-прокси"@, cfg.http_upstream, Reachability::Up),
        ),
        has_address(cfg.http_upstream) && captions.1@ == "HTTP"@ + " · недоступен"@ ==> shows(
            out@,
            upstream_line("http_upstream"@, "HTTP-прокси"@, cfg.http_upstream, Reachability::Down),
        ),
{
    each_upstream_shows_its_own_health(app, cfg, bound_port, autostart, tunnel, outcome, out);
    a_mode_tells_of_its_own_upstream(app, Mode::Socks, captions.0);
    a_mode_tells_of_its_own_upstream(app, Mode::Http, captions.1);
    lemma_captions_differ("SOCKS5"@, app.health.socks, captions.0@);
    lemma_captions_differ("HTTP"@, app.health.http, captions.1@);
}

proof fn lemma_captions_differ(name: Seq<char>, health: Reachability, caption: Seq<char>)
    requires
        caption == name + said_of(health),
    ensures
        caption == name + " · доступен"@ <==> health == Reachability::Up,
        caption == name + " · недоступен"@ <==> health == Reachability::Down,
{
    reveal_strlit(" · доступен");
    reveal_strlit(" · недоступен");
    reveal_strlit(" · не задан");
    let (up, down, unknown) = (" · доступен"@, " · недоступен"@, " · не задан"@);
    assert(up.len() == 11 && down.len() == 13 && unknown.len() == 11);
    let n = name.len() as int;
    assert((name + up)[n + 3] == up[3] && (name + unknown)[n + 3] == unknown[3]);
    assert(up[3] == 'д' && unknown[3] == 'н');
    assert((name + down).len() == n + 13 && (name + up).len() == n + 11);
    assert((name + unknown).len() == n + 11);
}

/// The page has the button that saves, those for the measurement and the diagnostics,
/// and the places that the menu of the tray leads to.
pub proof fn the_page_has_its_buttons_and_places(
    app: &AppState,
    cfg: &Config,
    bound_port: u16,
    autostart: &Result<bool, String>,
    tunnel: &TunnelSnapshot,
    outcome: Option<&Outcome>,
    out: String,
)
    requires
        call_ensures(page, (app, cfg, bound_port, autostart, tunnel, outcome), out),
    ensures
        shows(out@, "name=\"action\" value=\"save\">Сохранить</button>"@),
        shows(out@, "name=\"action\" value=\"bench\">Замерить</button>"@),
        shows(out@, "name=\"action\" value=\"doctor\">Проверить</button>"@),
        shows(out@, "<h2 id=\"bench\">"@),
        shows(out@, "<h2 id=\"doctor\">"@),
        shows(out@, "<h2 id=\"tunnel\">"@),
        app.place.network is None ==> shows(
            out@,
            "value=\"save\">Сохранить</button>"@ + "</div>\n</form>\n"@,
        ),
{
    lemma_sections(*app, *cfg, bound_port, *autostart, *tunnel, outcome);
    lemma_form_end(*app, *cfg, bound_port, *autostart);
    let form = form_html(*app, cfg@, bound_port, *autostart);
    assert(shows(out@, form)) by {
        broadcast use lemma_shown_in_both;

        lemma_shows_itself(form);
    }
    lemma_shown_through(out@, form, "name=\"action\" value=\"save\">Сохранить</button>"@);
    if app.place.network is None {
        lemma_shown_through(
            out@,
            form,
            "value=\"save\">Сохранить</button>"@ + "</div>\n</form>\n"@,
        );
    }
    let below = actions_html(cfg@, *tunnel, outcome);
    lemma_below_the_form(*cfg, *tunnel, outcome);
    lemma_shown_through(out@, below, "name=\"action\" value=\"bench\">Замерить</button>"@);
    lemma_shown_through(out@, below, "name=\"action\" value=\"doctor\">Проверить</button>"@);
    lemma_shown_through(out@, below, "<h2 id=\"bench\">"@);
    lemma_shown_through(out@, below, "<h2 id=\"doctor\">"@);
    lemma_shown_through(out@, below, "<h2 id=\"tunnel\">"@);
}

/// The part stands in the text from `at` on.
proof fn lemma_shown_at(text: Seq<char>, part: Seq<char>, at: int)
    requires
        0 <= at,
        at + part.len() <= text.len(),
        forall|i: int| 0 <= i < part.len() ==> text[at + i] == #[trigger] part[i],
    ensures
        shows(text, part),
{
    assert(text.subrange(at, at + part.len()) =~= part);
}

proof fn lemma_button_texts()
    ensures
        shows(
            "<div class=\"actions\"><button type=\"submit\" name=\"action\" value=\"save\">Сохранить</button>"@,
            "name=\"action\" value=\"save\">Сохранить</button>"@,
        ),
        exists|x: Seq<char>|
            "<div class=\"actions\"><button type=\"submit\" name=\"action\" value=\"save\">Сохранить</button>"@
                == #[trigger] (x + "value=\"save\">Сохранить</button>"@),
        shows(BENCH_BUTTON@, "name=\"action\" value=\"bench\">Замерить</button>"@),
        shows(DOCTOR_BUTTON@, "name=\"action\" value=\"doctor\">Проверить</button>"@),
{
    let save =
        "<div class=\"actions\"><button type=\"submit\" name=\"action\" value=\"save\">Сохранить</button>"@;
    let (a, b) = (
        "name=\"action\" value=\"save\">Сохранить</button>"@,
        "value=\"save\">Сохранить</button>"@,
    );
    reveal_strlit(
        "<div class=\"actions\"><button type=\"submit\" name=\"action\" value=\"save\">Сохранить</button>",
    );
    reveal_strlit("name=\"action\" value=\"save\">Сохранить</button>");
    reveal_strlit("value=\"save\">Сохранить</button>");
    lemma_shown_at(save, a, save.len() - a.len());
    let n = save.len() - b.len();
    let x = save.take(n);
    assert(save =~= x + b);
    assert(shows(BENCH_BUTTON@, "name=\"action\" value=\"bench\">Замерить</button>"@)) by {
        reveal_strlit(
            "<form method=\"post\" action=\"\" class=\"action\"><button type=\"submit\" \
         name=\"action\" value=\"bench\">Замерить</button></form>\n",
        );
        reveal_strlit("name=\"action\" value=\"bench\">Замерить</button>");
        let part = "name=\"action\" value=\"bench\">Замерить</button>"@;
        lemma_shown_at(BENCH_BUTTON@, part, BENCH_BUTTON@.len() - part.len() - 8);
    }
    assert(shows(DOCTOR_BUTTON@, "name=\"action\" value=\"doctor\">Проверить</button>"@)) by {
        reveal_strlit(
            "<form method=\"post\" action=\"\" class=\"action\"><button type=\"submit\" \
         name=\"action\" value=\"doctor\">Проверить</button></form>\n",
        );
        reveal_strlit("name=\"action\" value=\"doctor\">Проверить</button>");
        let part = "name=\"action\" value=\"doctor\">Проверить</button>"@;
        lemma_shown_at(DOCTOR_BUTTON@, part, DOCTOR_BUTTON@.len() - part.len() - 8);
    }
}

proof fn lemma_form_end(app: AppState, cfg: Config, bound_port: u16, autostart: Result<bool, String>)
    ensures
        shows(
            form_html(app, cfg@, bound_port, autostart),
            "name=\"action\" value=\"save\">Сохранить</button>"@,
        ),
        app.place.network is None ==> shows(
            form_html(app, cfg@, bound_port, autostart),
            "value=\"save\">Сохранить</button>"@ + "</div>\n</form>\n"@,
        ),
{
    lemma_button_texts();
    let save =
        "<div class=\"actions\"><button type=\"submit\" name=\"action\" value=\"save\">Сохранить</button>"@;
    let part = "name=\"action\" value=\"save\">Сохранить</button>"@;
    let sections = "<form method=\"post\" action=\"\">\n"@ + upstreams_html(app, cfg@) + port_html(
        cfg.bridge_port,
        bound_port,
    ) + networks_html(cfg@) + automation_html(cfg@) + bypass_html(cfg@) + system_html(
        cfg@,
        autostart,
    );
    let office = office_button_html(app.place);
    let end = "</div>\n</form>\n"@;
    lemma_shown_in_both(sections, save, part);
    lemma_shown_in_both(sections + save, office, part);
    lemma_shown_in_both(sections + save + office, end, part);
    if app.place.network is None {
        let b = "value=\"save\">Сохранить</button>"@;
        let x = choose|x: Seq<char>| save == #[trigger] (x + b);
        assert(sections + save + office =~= sections + save);
        lemma_last_parts(sections, x, b, end);
    }
}

proof fn lemma_last_parts(a: Seq<char>, x: Seq<char>, b: Seq<char>, end: Seq<char>)
    ensures
        shows(a + (x + b) + end, b + end),
{
    assert(a + (x + b) + end =~= (a + x) + (b + end));
    lemma_shows_itself(b + end);
    lemma_shown_in_both(a + x, b + end, b + end);
}

proof fn lemma_below_the_form(cfg: Config, tunnel: TunnelSnapshot, outcome: Option<&Outcome>)
    ensures
        ({
            let below = actions_html(cfg@, tunnel, outcome);
            &&& shows(below, "name=\"action\" value=\"bench\">Замерить</button>"@)
            &&& shows(below, "name=\"action\" value=\"doctor\">Проверить</button>"@)
            &&& shows(below, "<h2 id=\"bench\">"@)
            &&& shows(below, "<h2 id=\"doctor\">"@)
            &&& shows(below, "<h2 id=\"tunnel\">"@)
        }),
{
    let below = actions_html(cfg@, tunnel, outcome);
    lemma_button_texts();
    lemma_below(cfg, tunnel, outcome);
    lemma_shown_through(
        below,
        BENCH_BUTTON@,
        "name=\"action\" value=\"bench\">Замерить</button>"@,
    );
    lemma_shown_through(
        below,
        DOCTOR_BUTTON@,
        "name=\"action\" value=\"doctor\">Проверить</button>"@,
    );
    lemma_title_texts();
    let section = tunnel_html(texts(cfg.office_subnets@), tunnel);
    assert(shows(section, "<h2 id=\"tunnel\">"@)) by {
        broadcast use lemma_shown_in_both;

    }
    lemma_shown_through(below, section, "<h2 id=\"tunnel\">"@);
    assert(shows(below, "<h2 id=\"bench\">"@) && shows(below, "<h2 id=\"doctor\">"@)) by {
        broadcast use lemma_shown_in_both;

    }
}

proof fn lemma_title_texts()
    ensures
        shows("<h2 id=\"tunnel\">Туннель (OpenVPN)</h2>\n"@, "<h2 id=\"tunnel\">"@),
        shows(
            "</section>\n<section class=\"card\" aria-labelledby=\"bench\">\n<h2 id=\"bench\">Замер скорости</h2>\n"@,
            "<h2 id=\"bench\">"@,
        ),
        shows(
            "</section>\n<section class=\"card\" aria-labelledby=\"doctor\">\n<h2 id=\"doctor\">Диагностика</h2>\n"@,
            "<h2 id=\"doctor\">"@,
        ),
{
    assert(shows("<h2 id=\"tunnel\">Туннель (OpenVPN)</h2>\n"@, "<h2 id=\"tunnel\">"@)) by {
        reveal_strlit("<h2 id=\"tunnel\">Туннель (OpenVPN)</h2>\n");
        reveal_strlit("<h2 id=\"tunnel\">");
        lemma_shown_at("<h2 id=\"tunnel\">Туннель (OpenVPN)</h2>\n"@, "<h2 id=\"tunnel\">"@, 0);
    }
    let bench =
        "</section>\n<section class=\"card\" aria-labelledby=\"bench\">\n<h2 id=\"bench\">Замер скорости</h2>\n"@;
    assert(shows(bench, "<h2 id=\"bench\">"@)) by {
        reveal_strlit(
            "</section>\n<section class=\"card\" aria-labelledby=\"bench\">\n<h2 id=\"bench\">Замер скорости</h2>\n",
        );
        reveal_strlit("<h2 id=\"bench\">");
        lemma_shown_at(bench, "<h2 id=\"bench\">"@, bench.len() - "<h2 id=\"bench\">"@.len() - 20);
    }
    let doctor =
        "</section>\n<section class=\"card\" aria-labelledby=\"doctor\">\n<h2 id=\"doctor\">Диагностика</h2>\n"@;
    assert(shows(doctor, "<h2 id=\"doctor\">"@)) by {
        reveal_strlit(
            "</section>\n<section class=\"card\" aria-labelledby=\"doctor\">\n<h2 id=\"doctor\">Диагностика</h2>\n",
        );
        reveal_strlit("<h2 id=\"doctor\">");
        lemma_shown_at(doctor, "<h2 id=\"doctor\">"@, doctor.len() - "<h2 id=\"doctor\">"@.len() - 17);
    }
}

/// The page that is rendered is the page of the program as it is: the configuration
/// that is saved, the state, the port that the bridge listens on, and what the
/// autostart and the tunnel say at that moment.
pub proof fn the_rendered_page_shows_the_program_as_it_is<A: Autostart, T: Tunnel>(
    state: &SettingsState<A, T>,
    outcome: Option<&Outcome>,
    out: String,
)
    requires
        call_ensures(render::<A, T>, (state, outcome), out),
    ensures
        shows(
            out@,
            upstream_line(
                "socks_upstream"@,
                "SOCKS5"@,
                state.config.socks_upstream,
                state.app.health.socks,
            ),
        ),
        shows(
            out@,
            upstream_line(
                "http_upstream"@,
                "HTTP-прокси"@,
                state.config.http_upstream,
                state.app.health.http,
            ),
        ),
        shows(out@, switch("automate_tunnel"@, state.config.automate_tunnel, false)),
        exists|enabled: Result<bool, String>|
            {
                &&& #[trigger] call_ensures(A::is_enabled, (&state.autostart,), enabled)
                &&& shows(
                    out@,
                    switch(
                        "autostart"@,
                        enabled == Ok::<bool, String>(true),
                        enabled matches Err(why) && why@.len() > 0,
                    ),
                )
            },
        exists|snap: TunnelSnapshot|
            {
                &&& #[trigger] call_ensures(
                    T::snapshot,
                    (&state.tunnel, &state.config.office_subnets, TUNNEL_PROFILE_NAME),
                    snap,
                )
                &&& shows(out@, tunnel_html(texts(state.config.office_subnets@), snap))
            },
{
    let (enabled, snap) = choose|enabled: Result<bool, String>, snap: TunnelSnapshot|
        {
            &&& #[trigger] call_ensures(A::is_enabled, (&state.autostart,), enabled)
            &&& #[trigger] call_ensures(
                T::snapshot,
                (&state.tunnel, &state.config.office_subnets, TUNNEL_PROFILE_NAME),
                snap,
            )
            &&& out@ == page_html(
                state.app,
                state.config@,
                state.bound_port,
                enabled,
                snap,
                outcome,
            )
        };
    let cfg = state.config;
    lemma_sections(state.app, cfg, state.bound_port, enabled, snap, outcome);
    lemma_upstream_section(state.app, cfg);
    let section = upstreams_html(state.app, cfg@);
    lemma_shown_through(
        out@,
        section,
        upstream_line("socks_upstream"@, "SOCKS5"@, cfg.socks_upstream, state.app.health.socks),
    );
    lemma_shown_through(
        out@,
        section,
        upstream_line("http_upstream"@, "HTTP-прокси"@, cfg.http_upstream, state.app.health.http),
    );
    lemma_switches(cfg, enabled);
    lemma_shown_through(
        out@,
        automation_html(cfg@),
        switch("automate_tunnel"@, cfg.automate_tunnel, false),
    );
    lemma_shown_through(
        out@,
        system_html(cfg@, enabled),
        switch(
            "autostart"@,
            enabled == Ok::<bool, String>(true),
            enabled matches Err(why) && why@.len() > 0,
        ),
    );
    lemma_below(cfg, snap, outcome);
    lemma_shown_through(
        out@,
        actions_html(cfg@, snap, outcome),
        tunnel_html(texts(cfg.office_subnets@), snap),
    );
}

proof fn lemma_upstream_section(app: AppState, cfg: Config)
    ensures
        shows(
            upstreams_html(app, cfg@),
            upstream_line("socks_upstream"@, "SOCKS5"@, cfg.socks_upstream, app.health.socks),
        ),
        shows(
            upstreams_html(app, cfg@),
            upstream_line("http_upstream"@, "HTTP-прокси"@, cfg.http_upstream, app.health.http),
        ),
{
    lemma_upstream_lines(app, cfg);
    let socks = upstream_line("socks_upstream"@, "SOCKS5"@, cfg.socks_upstream, app.health.socks);
    let http = upstream_line("http_upstream"@, "HTTP-прокси"@, cfg.http_upstream, app.health.http);
    lemma_shows_itself(socks);
    lemma_shows_itself(http);
    broadcast use lemma_shown_in_both;

}

} // verus!
