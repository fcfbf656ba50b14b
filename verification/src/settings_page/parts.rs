//! The parts of the settings page.
//!
//! The page has no script, and everything that is put into it goes through
//! [`escape_html`]: the name of a network was chosen by whoever set up the
//! network, addresses and lists come from a file that people edit.

use vstd::prelude::*;
use vstd::string::*;
use crate::doctor::{checks_in, Check, CheckStatus, CheckView};
use crate::model::{networks, shown_network, text_in, texts};
use crate::model::{AppState, Mode, OfficeNetwork, OfficeNetworkView, Reachability, Route};
use crate::number::{is_nearest, lemma_is_nearest, nearest, rounded, spacing_of};
use crate::text::{chars_of, decimal, decimal_text, join, joined, same};
use crate::tunnel::{tunnel_status, TunnelSnapshot, TunnelStatus, TUNNEL_PROFILE_NAME};

verus! {

/// What is downloaded to measure the speed.
pub const BENCH_URL: &'static str = "http://cachefly.cachefly.net/1mb.test";

// ---------------------------------------------------------------------------
// Escaping
// ---------------------------------------------------------------------------

/// What stands for a character in the markup.
pub open spec fn entity(c: char) -> Seq<char> {
    if c == '&' {
        "&amp;"@
    } else if c == '<' {
        "&lt;"@
    } else if c == '>' {
        "&gt;"@
    } else if c == '"' {
        "&quot;"@
    } else if c == '\'' {
        "&#39;"@
    } else {
        seq![c]
    }
}

/// A text as it stands in the markup, between tags and in attributes alike.
pub open spec fn escaped(s: Seq<char>) -> Seq<char>
    decreases s.len(),
{
    if s.len() == 0 {
        Seq::empty()
    } else {
        escaped(s.drop_last()) + entity(s.last())
    }
}

/// Makes a text safe to put into the markup.
pub fn escape_html(s: &str) -> (out: String)
    ensures
        out@ == escaped(s@),
{
    let chars = chars_of(s);
    let mut out = String::new();
    let mut i: usize = 0;
    assert(s@.take(0) =~= Seq::<char>::empty());
    while i < chars.len()
        invariant
            i <= chars@.len(),
            chars@ == s@,
            out@ == escaped(s@.take(i as int)),
        decreases chars.len() - i,
    {
        assert(s@.take(i + 1).drop_last() =~= s@.take(i as int));
        assert(s@.take(i + 1).last() == s@[i as int]);
        let ghost before = out@;
        match chars[i] {
            '&' => {
                out.append("&amp;");
            },
            '<' => {
                out.append("&lt;");
            },
            '>' => {
                out.append("&gt;");
            },
            '"' => {
                out.append("&quot;");
            },
            '\'' => {
                out.append("&#39;");
            },
            c => {
                out.push(c);
                assert(out@ =~= before + seq![c]);
            },
        }
        i += 1;
    }
    assert(s@.take(i as int) =~= s@);
    out
}

// ---------------------------------------------------------------------------
// Parts of the page
// ---------------------------------------------------------------------------

/// A line of text input. `note` is markup.
pub open spec fn field_html(
    name: Seq<char>,
    label: Seq<char>,
    value: Seq<char>,
    note: Seq<char>,
) -> Seq<char> {
    let remark = if note.len() == 0 {
        Seq::empty()
    } else {
        " "@ + note
    };
    "<label for=\""@ + escaped(name) + "\">"@ + escaped(label) + remark
        + "</label>\n<input type=\"text\" id=\""@ + escaped(name) + "\" name=\""@ + escaped(name)
        + "\" value=\""@ + escaped(value) + "\">\n"@
}

pub fn field(name: &str, label: &str, value: &str, note_html: &str) -> (out: String)
    ensures
        out@ == field_html(name@, label@, value@, note_html@),
{
    let mut remark = String::new();
    if !note_html.is_empty() {
        remark = " ".to_owned();
        remark.append(note_html);
    }
    let escaped_name = escape_html(name);
    let mut out = "<label for=\"".to_owned();
    out.append(escaped_name.as_str());
    out.append("\">");
    out.append(escape_html(label).as_str());
    out.append(remark.as_str());
    out.append("</label>\n<input type=\"text\" id=\"");
    out.append(escaped_name.as_str());
    out.append("\" name=\"");
    out.append(escaped_name.as_str());
    out.append("\" value=\"");
    out.append(escape_html(value).as_str());
    out.append("\">\n");
    out
}

/// A switch, with a remark below it where there is one.
pub open spec fn checkbox_html(
    name: Seq<char>,
    label: Seq<char>,
    on: bool,
    disabled: bool,
    note: Seq<char>,
) -> Seq<char> {
    let remark = if note.len() == 0 {
        Seq::empty()
    } else {
        "<p class=\"hint\">"@ + escaped(note) + "</p>\n"@
    };
    "<label><input type=\"checkbox\" name=\""@ + escaped(name) + "\""@ + (if on {
        " checked"@
    } else {
        ""@
    }) + (if disabled {
        " disabled"@
    } else {
        ""@
    }) + "> "@ + escaped(label) + "</label>\n"@ + remark
}

pub fn checkbox(name: &str, label: &str, on: bool, disabled: bool, note: &str) -> (out: String)
    ensures
        out@ == checkbox_html(name@, label@, on, disabled, note@),
{
    let mut remark = String::new();
    if !note.is_empty() {
        remark = "<p class=\"hint\">".to_owned();
        remark.append(escape_html(note).as_str());
        remark.append("</p>\n");
    }
    let mut out = "<label><input type=\"checkbox\" name=\"".to_owned();
    out.append(escape_html(name).as_str());
    out.append("\"");
    out.append(if on { " checked" } else { "" });
    out.append(if disabled { " disabled" } else { "" });
    out.append("> ");
    out.append(escape_html(label).as_str());
    out.append("</label>\n");
    out.append(remark.as_str());
    out
}

/// A row of the table of office networks.
pub open spec fn office_row_html(id: Seq<char>, name: Seq<char>) -> Seq<char> {
    "<tr><td><input type=\"text\" name=\"office_id\" value=\""@ + escaped(id)
        + "\"></td><td><input type=\"text\" name=\"office_name\" value=\""@ + escaped(name)
        + "\"></td></tr>\n"@
}

pub fn office_row(id: &str, name: &str) -> (out: String)
    ensures
        out@ == office_row_html(id@, name@),
{
    let mut out = "<tr><td><input type=\"text\" name=\"office_id\" value=\"".to_owned();
    out.append(escape_html(id).as_str());
    out.append("\"></td><td><input type=\"text\" name=\"office_name\" value=\"");
    out.append(escape_html(name).as_str());
    out.append("\"></td></tr>\n");
    out
}

/// The rows of the office networks.
pub open spec fn office_rows_html(list: Seq<OfficeNetworkView>) -> Seq<char>
    decreases list.len(),
{
    if list.len() == 0 {
        Seq::empty()
    } else {
        office_rows_html(list.drop_last()) + office_row_html(list.last().id, list.last().name)
    }
}

pub fn office_rows(list: &Vec<OfficeNetwork>) -> (out: String)
    ensures
        out@ == office_rows_html(networks(list@)),
{
    let ghost all = networks(list@);
    let mut out = String::new();
    let mut i: usize = 0;
    assert(all.take(0) =~= Seq::empty());
    while i < list.len()
        invariant
            i <= list@.len(),
            all == networks(list@),
            out@ == office_rows_html(all.take(i as int)),
        decreases list.len() - i,
    {
        assert(all.take(i + 1).drop_last() =~= all.take(i as int));
        assert(all.take(i + 1).last() == list@[i as int]@);
        out.append(office_row(list[i].id.as_str(), list[i].name.as_str()).as_str());
        i += 1;
    }
    assert(all.take(i as int) =~= all);
    out
}

/// A button in a form of its own: it must not send fields that a person is
/// still editing.
pub open spec fn action_form_html(action: Seq<char>, label: Seq<char>) -> Seq<char> {
    "<form method=\"post\" action=\"\" class=\"action\"><button type=\"submit\" name=\"action\" value=\""@
        + escaped(action) + "\">"@ + escaped(label) + "</button></form>\n"@
}

fn tunnel_action_form(action: &str, label: &str) -> (out: String)
    ensures
        out@ == action_form_html(action@, label@),
{
    let mut out =
        "<form method=\"post\" action=\"\" class=\"action\"><button type=\"submit\" name=\"action\" value=\"".to_owned();
    out.append(escape_html(action).as_str());
    out.append("\">");
    out.append(escape_html(label).as_str());
    out.append("</button></form>\n");
    out
}

/// The upstream has an address.
pub open spec fn is_set(address: Option<Seq<char>>) -> bool {
    match address {
        Some(a) => a.len() > 0,
        None => false,
    }
}

/// What is said of an upstream. "Not set" is told from "not reachable": the one
/// is mended in the settings, the other in the network.
pub open spec fn health_words(address: Option<Seq<char>>, health: Reachability) -> Seq<char> {
    if !is_set(address) {
        "не задан"@
    } else {
        match health {
            Reachability::Up => "доступен"@,
            Reachability::Down => "недоступен"@,
            Reachability::Unknown => "ещё не проверен"@,
        }
    }
}

pub open spec fn health_class_name(address: Option<Seq<char>>, health: Reachability) -> Seq<char> {
    if !is_set(address) {
        "status-unset"@
    } else {
        match health {
            Reachability::Up => "status-up"@,
            Reachability::Down => "status-down"@,
            Reachability::Unknown => "status-unknown"@,
        }
    }
}

/// The badge of an upstream.
pub open spec fn health_html(address: Option<Seq<char>>, health: Reachability) -> Seq<char> {
    "<span class=\"chip "@ + health_class_name(address, health) + "\">"@ + escaped(
        health_words(address, health),
    ) + "</span>"@
}

fn has_address(address: &Option<String>) -> (out: bool)
    ensures
        out == is_set(text_in(*address)),
{
    match address {
        Some(a) => !a.as_str().is_empty(),
        None => false,
    }
}

fn health_text(address: &Option<String>, health: Reachability) -> (out: &'static str)
    ensures
        out@ == health_words(text_in(*address), health),
{
    if !has_address(address) {
        return "не задан";
    }
    match health {
        Reachability::Up => "доступен",
        Reachability::Down => "недоступен",
        Reachability::Unknown => "ещё не проверен",
    }
}

fn health_class(address: &Option<String>, health: Reachability) -> (out: &'static str)
    ensures
        out@ == health_class_name(text_in(*address), health),
{
    if !has_address(address) {
        return "status-unset";
    }
    match health {
        Reachability::Up => "status-up",
        Reachability::Down => "status-down",
        Reachability::Unknown => "status-unknown",
    }
}

pub fn health_chip(address: &Option<String>, health: Reachability) -> (out: String)
    ensures
        out@ == health_html(text_in(*address), health),
{
    let mut out = "<span class=\"chip ".to_owned();
    out.append(health_class(address, health));
    out.append("\">");
    out.append(escape_html(health_text(address, health)).as_str());
    out.append("</span>");
    out
}

/// The name of a mode on the page and in the menu.
pub open spec fn mode_title(mode: Mode) -> Seq<char> {
    match mode {
        Mode::Auto => "Авто"@,
        Mode::Socks => "SOCKS5"@,
        Mode::Http => "HTTP"@,
        Mode::Direct => "Напрямую"@,
    }
}

/// The name of a mode.
pub fn mode_name(mode: Mode) -> (out: &'static str)
    ensures
        out@ == mode_title(mode),
{
    match mode {
        Mode::Auto => "Авто",
        Mode::Socks => "SOCKS5",
        Mode::Http => "HTTP",
        Mode::Direct => "Напрямую",
    }
}

/// What happens to traffic, not what was chosen: that an upstream was given up
/// is shown.
pub open spec fn route_words(app: AppState) -> Seq<char> {
    let mode = "режим "@ + mode_title(app.mode);
    if app.demoted {
        mode + ": апстрим недоступен → работаем напрямую"@
    } else {
        match app.route {
            Route::Socks(address) => mode + ": SOCKS5 → "@ + address@,
            Route::Http(address) => mode + ": HTTP → "@ + address@,
            Route::Direct => mode + ": напрямую"@,
        }
    }
}

pub fn route_text(app: &AppState) -> (out: String)
    ensures
        out@ == route_words(*app),
{
    let mut out = "режим ".to_owned();
    out.append(mode_name(app.mode));
    if app.demoted {
        out.append(": апстрим недоступен → работаем напрямую");
        return out;
    }
    match &app.route {
        Route::Socks(address) => {
            out.append(": SOCKS5 → ");
            out.append(address.as_str());
        },
        Route::Http(address) => {
            out.append(": HTTP → ");
            out.append(address.as_str());
        },
        Route::Direct => {
            out.append(": напрямую");
        },
    }
    out
}

pub open spec fn network_words(app: AppState) -> Seq<char> {
    match shown_network(app.place) {
        Some(name) => "Сеть: "@ + name + (if app.place.in_office {
            " — офисная"@
        } else {
            " — не в списке офисных"@
        }),
        None => "Сеть: не определена"@,
    }
}

pub fn network_text(app: &AppState) -> (out: String)
    ensures
        out@ == network_words(*app),
{
    match app.place.shown_network() {
        Some(name) => {
            let mut out = "Сеть: ".to_owned();
            out.append(name);
            out.append(
                if app.place.in_office {
                    " — офисная"
                } else {
                    " — не в списке офисных"
                },
            );
            out
        },
        None => "Сеть: не определена".to_owned(),
    }
}

// ---------------------------------------------------------------------------
// The tunnel
// ---------------------------------------------------------------------------

pub const TUNNEL_MISSING: &'static str = "<p class=\"hint\">OpenVPN не найден на этой машине — раздел \
             недоступен. Установите OpenVPN (openvpn.net/community-downloads) \
             и откройте эту страницу снова.</p>\n";

pub const TUNNEL_NO_SUBNETS: &'static str = "<p class=\"hint\">Офисные подсети не заданы — маршруты в профиль \
             не добавятся (раздел «Апстримы» их не хранит; правится файлом \
             конфига).</p>\n";

pub const TUNNEL_NAME_NOTE: &'static str = "»; поднят ли \
         туннель — определяется по логу OpenVPN GUI для этого же имени, а \
         не по имени адаптера).</p>\n";

pub const TUNNEL_DNS: &'static str = "<p class=\"warn\">Пока туннель поднят, все DNS-запросы уходят в офис \
         — так резолвятся внутренние имена (git, dev-серверы), и это \
         осознанная плата (спека 8.2). Вне туннеля резолвинг снова \
         обычный.</p>\n";

pub const TUNNEL_UNKNOWN: &'static str = "<p class=\"note bad\">Не удалось определить, поднят ли туннель \
             (лог OpenVPN GUI): ";

pub const TUNNEL_UNKNOWN_END: &'static str = " — состояние неизвестно. Обе кнопки ниже \
             показаны: лишний повторный подъём или опускание для OpenVPN \
             GUI обычно безвреден, но после нажатия стоит свериться с \
             иконкой ProxyPilot в трее.</p>\n";

pub const TUNNEL_UNCHECKED: &'static str = "<p class=\"note bad\">Туннель опущен. Не удалось прочитать \
             таблицу маршрутов, чтобы проверить, не занят ли он уже другим \
             VPN: ";

pub const TUNNEL_UNCHECKED_END: &'static str = " — подъём временно недоступен, пока это не \
             исправится.</p>\n";

pub const TUNNEL_OCCUPIED: &'static str = "<p class=\"note bad\">Туннель опущен, но какой-то туннельный \
             адаптер уже несёт офисные подсети (другой VPN, Tailscale, \
             WireGuard... или наша же не до конца закрытая прошлая сессия — \
             отличить по имени адаптера нельзя). Поднимать свой нельзя — \
             два туннеля будут спорить за маршруты. Закройте тот, что уже \
             поднят, и вернитесь сюда.</p>\n";

pub const TUNNEL_PRIVILEGES: &'static str = "<p class=\"hint\">Кнопки ниже выходят за рамки обычной работы \
         приложения. «Собрать профиль» пишет .ovpn-файл в каталог \
         конфигураций OpenVPN — прав администратора не нужно, окна UAC не \
         будет. «Установить службу статического IP» — да, нужны права \
         администратора: Windows покажет запрос UAC, единственный во всём \
         приложении.</p>\n";

/// The list of subnets.
pub open spec fn subnets_html(subnets: Seq<Seq<char>>) -> Seq<char> {
    if subnets.len() == 0 {
        TUNNEL_NO_SUBNETS@
    } else {
        "<p class=\"hint\">Через туннель маршрутизируются подсети: "@ + escaped(
            joined(subnets, ", "@),
        ) + ".</p>\n"@
    }
}

fn subnets_list(subnets: &Vec<String>) -> (out: String)
    ensures
        out@ == subnets_html(texts(subnets@)),
{
    if subnets.len() == 0 {
        return TUNNEL_NO_SUBNETS.to_owned();
    }
    let mut out = "<p class=\"hint\">Через туннель маршрутизируются подсети: ".to_owned();
    out.append(escape_html(join(subnets, ", ").as_str()).as_str());
    out.append(".</p>\n");
    out
}

/// What is said of the state of the tunnel.
pub open spec fn tunnel_words_html(status: TunnelStatus) -> Seq<char> {
    match status {
        TunnelStatus::NotInstalled => TUNNEL_MISSING@,
        TunnelStatus::Unknown(why) => TUNNEL_UNKNOWN@ + escaped(why) + TUNNEL_UNKNOWN_END@,
        TunnelStatus::Up => "<p class=\"note good\">Туннель поднят.</p>\n"@,
        TunnelStatus::Rising => "<p class=\"note good\">Туннель поднимается…</p>\n"@,
        TunnelStatus::Unchecked(why) => TUNNEL_UNCHECKED@ + escaped(why) + TUNNEL_UNCHECKED_END@,
        TunnelStatus::Occupied => TUNNEL_OCCUPIED@,
        TunnelStatus::Down => "<p>Туннель опущен.</p>\n"@,
    }
}

/// The page offers to raise the tunnel: it is down and has a profile, or its
/// state is not known. Where another tunnel carries the subnets, raising is not
/// offered.
pub open spec fn offers_raise(status: TunnelStatus, profile_installed: bool) -> bool {
    status is Unknown || (status is Down && profile_installed)
}

/// The page offers to lower the tunnel: it is up, or on its way, or its state
/// is not known. An honest "not known" is better than a section that cannot be
/// used any more.
pub open spec fn offers_lower(status: TunnelStatus) -> bool {
    status is Unknown || status is Up || status is Rising
}

/// The state of the tunnel and the buttons that fit it.
pub open spec fn tunnel_state_html(status: TunnelStatus, profile_installed: bool) -> Seq<char> {
    tunnel_words_html(status) + (if offers_raise(status, profile_installed) {
        action_form_html("raise_tunnel"@, "Поднять туннель"@)
    } else if status is Down {
        "<p class=\"hint\">Сначала соберите профиль — кнопка ниже.</p>\n"@
    } else {
        Seq::empty()
    }) + (if offers_lower(status) {
        action_form_html(
            "lower_tunnel"@,
            if status is Rising {
                "Отменить / опустить туннель"@
            } else {
                "Опустить туннель"@
            },
        )
    } else {
        Seq::empty()
    })
}

fn tunnel_words(snap: &TunnelSnapshot) -> (out: String)
    requires
        snap.installed,
    ensures
        out@ == tunnel_words_html(tunnel_status(*snap)),
{
    if let Some(why) = &snap.liveness_error {
        let mut out = TUNNEL_UNKNOWN.to_owned();
        out.append(escape_html(why.as_str()).as_str());
        out.append(TUNNEL_UNKNOWN_END);
        return out;
    }
    if snap.our_tunnel_up {
        return "<p class=\"note good\">Туннель поднят.</p>\n".to_owned();
    }
    if snap.rising {
        return "<p class=\"note good\">Туннель поднимается…</p>\n".to_owned();
    }
    if let Some(why) = &snap.routes_error {
        let mut out = TUNNEL_UNCHECKED.to_owned();
        out.append(escape_html(why.as_str()).as_str());
        out.append(TUNNEL_UNCHECKED_END);
        return out;
    }
    if snap.foreign_tunnel_up {
        return TUNNEL_OCCUPIED.to_owned();
    }
    "<p>Туннель опущен.</p>\n".to_owned()
}

fn tunnel_state(snap: &TunnelSnapshot) -> (out: String)
    requires
        snap.installed,
    ensures
        out@ == tunnel_state_html(tunnel_status(*snap), snap.profile_installed),
{
    let unknown: bool = snap.liveness_error.is_some();
    let down: bool = !unknown && !snap.our_tunnel_up && !snap.rising && snap.routes_error.is_none()
        && !snap.foreign_tunnel_up;
    let mut first = String::new();
    if unknown || (down && snap.profile_installed) {
        first = tunnel_action_form("raise_tunnel", "Поднять туннель");
    } else if down {
        first = "<p class=\"hint\">Сначала соберите профиль — кнопка ниже.</p>\n".to_owned();
    }
    let mut second = String::new();
    if unknown || snap.our_tunnel_up {
        second = tunnel_action_form("lower_tunnel", "Опустить туннель");
    } else if snap.rising {
        second = tunnel_action_form("lower_tunnel", "Отменить / опустить туннель");
    }
    let mut out = tunnel_words(snap);
    out.append(first.as_str());
    out.append(second.as_str());
    out
}

/// The section on the tunnel. What raising it means for DNS is said before the
/// buttons, and that a button asks for rights is said before that button.
pub open spec fn tunnel_html(subnets: Seq<Seq<char>>, snap: TunnelSnapshot) -> Seq<char> {
    let title = "<h2 id=\"tunnel\">Туннель (OpenVPN)</h2>\n"@;
    if !snap.installed {
        title + TUNNEL_MISSING@
    } else {
        title + subnets_html(subnets) + "<p>Профиль в OpenVPN: <b>"@ + (if snap.profile_installed {
            "установлен"@
        } else {
            "не собран"@
        }) + "</b> (имя «"@ + escaped(TUNNEL_PROFILE_NAME@) + TUNNEL_NAME_NOTE@ + TUNNEL_DNS@
            + tunnel_state_html(tunnel_status(snap), snap.profile_installed) + TUNNEL_PRIVILEGES@
            + action_form_html("build_tunnel_profile"@, "Собрать профиль"@) + action_form_html(
            "install_service"@,
            "Установить службу статического IP…"@,
        )
    }
}

/// The section on the tunnel.
pub fn tunnel_section(office_subnets: &Vec<String>, snap: &TunnelSnapshot) -> (out: String)
    ensures
        out@ == tunnel_html(texts(office_subnets@), *snap),
{
    let mut out = "<h2 id=\"tunnel\">Туннель (OpenVPN)</h2>\n".to_owned();
    if !snap.installed {
        out.append(TUNNEL_MISSING);
        return out;
    }
    out.append(subnets_list(office_subnets).as_str());
    out.append("<p>Профиль в OpenVPN: <b>");
    out.append(if snap.profile_installed { "установлен" } else { "не собран" });
    out.append("</b> (имя «");
    out.append(escape_html(TUNNEL_PROFILE_NAME).as_str());
    out.append(TUNNEL_NAME_NOTE);
    out.append(TUNNEL_DNS);
    out.append(tunnel_state(snap).as_str());
    out.append(TUNNEL_PRIVILEGES);
    out.append(tunnel_action_form("build_tunnel_profile", "Собрать профиль").as_str());
    out.append(
        tunnel_action_form("install_service", "Установить службу статического IP…").as_str(),
    );
    out
}

// ---------------------------------------------------------------------------
// The measurement and the diagnostics
// ---------------------------------------------------------------------------

/// The distance of the numbers of 53 bits around `n`, if it is at least `unit`.
pub open spec fn spacing(n: nat, unit: nat) -> nat
    decreases n - unit,
{
    if unit == 0 || n < 0x20_0000_0000_0000 * unit {
        unit
    } else {
        spacing(n, 2 * unit)
    }
}

/// The number of 53 bits that is nearest to `n`: what a floating point number
/// keeps of it.
pub open spec fn kept(n: nat) -> nat {
    nearest(n, spacing(n, 1)) * spacing(n, 1)
}

/// Bytes in megabytes, with two digits behind the point.
pub open spec fn megabytes(bytes: nat) -> Seq<char> {
    let hundredths = nearest(kept(bytes) * 100, 0x10_0000);
    decimal(hundredths / 100) + "."@ + decimal((hundredths / 10) % 10) + decimal(hundredths % 10)
}

fn nearest_units(n: u128, unit: u128) -> (out: u128)
    requires
        0 < unit < 0x1_0000_0000,
        n < 0x1_0000_0000_0000_0000_0000,
    ensures
        out == nearest(n as nat, unit as nat),
        out * unit <= n + unit,
        out <= n + 1,
{
    let rest: u128 = n % unit;
    let whole: u128 = n / unit;
    proof {
        vstd::arithmetic::div_mod::lemma_fundamental_div_mod(n as int, unit as int);
        vstd::arithmetic::mul::lemma_mul_is_commutative(unit as int, whole as int);
        vstd::arithmetic::mul::lemma_mul_is_distributive_add_other_way(
            unit as int,
            whole as int,
            1,
        );
        vstd::arithmetic::div_mod::lemma_div_is_ordered_by_denominator(n as int, 1, unit as int);
    }
    if 2 * rest < unit || (2 * rest == unit && whole % 2 == 0) {
        whole
    } else {
        whole + 1
    }
}

/// Writes bytes in megabytes, with two digits behind the point.
fn megabytes_text(bytes: u64) -> (out: String)
    ensures
        out@ == megabytes(bytes as nat),
{
    let n: u128 = bytes as u128;
    let mut unit: u128 = 1;
    while n >= 0x20_0000_0000_0000 * unit
        invariant
            0 < unit < 4096,
            n == bytes,
            spacing(n as nat, 1) == spacing(n as nat, unit as nat),
        decreases n - unit,
    {
        unit = 2 * unit;
    }
    let kept: u128 = nearest_units(n, unit) * unit;
    let hundredths: u128 = nearest_units(kept * 100, 0x10_0000);
    let mut out = decimal_text((hundredths / 100) as u64);
    out.append(".");
    out.append(decimal_text(((hundredths / 10) % 10) as u64).as_str());
    out.append(decimal_text((hundredths % 10) as u64).as_str());
    out
}

/// How one route did in the measurement.
#[derive(Debug, PartialEq, Eq)]
pub struct BenchResult {
    pub label: String,
    pub bytes: u64,
    /// Bytes per second, where there is a speed.
    pub speed_bps: Option<u64>,
    pub error: Option<String>,
}

/// What a measurement found, and the label of the fastest route.
#[derive(Debug, PartialEq, Eq)]
pub struct BenchReport {
    pub results: Vec<BenchResult>,
    pub best: Option<String>,
}

/// One route. A route that failed is shown as failed, not left out.
pub open spec fn bench_row_html(r: BenchResult, best: Option<Seq<char>>) -> Seq<char> {
    let winner = best == Some(r.label@);
    "<li class=\"bench-row "@ + (if r.error is Some {
        "failed"@
    } else if winner {
        "winner"@
    } else {
        ""@
    }) + "\"><span class=\"bench-label\">"@ + escaped(r.label@)
        + "</span><span class=\"bench-speed\">"@ + escaped(
        match r.speed_bps {
            Some(bps) => megabytes(bps as nat) + " МБ/с"@,
            None => "—"@,
        },
    ) + "</span><span class=\"bench-note\">"@ + (match r.error {
        Some(why) => "<span class=\"fail\">"@ + escaped(why@) + "</span>"@,
        None => if winner {
            "<span class=\"ok\">быстрее прочих</span>"@
        } else {
            decimal(r.bytes as nat) + " байт"@
        },
    }) + "</span></li>\n"@
}

pub open spec fn bench_rows_html(results: Seq<BenchResult>, best: Option<Seq<char>>) -> Seq<char>
    decreases results.len(),
{
    if results.len() == 0 {
        "<ul class=\"bench-results\">\n"@
    } else {
        bench_rows_html(results.drop_last(), best) + bench_row_html(results.last(), best)
    }
}

/// What the measurement found.
pub open spec fn bench_html(report: BenchReport) -> Seq<char> {
    bench_rows_html(report.results@, text_in(report.best)) + "</ul>\n"@
}

fn bench_row(r: &BenchResult, best: &Option<String>) -> (out: String)
    ensures
        out@ == bench_row_html(*r, text_in(*best)),
{
    let winner: bool = match best {
        Some(label) => same(label.as_str(), r.label.as_str()),
        None => false,
    };
    let mut out = "<li class=\"bench-row ".to_owned();
    out.append(
        if r.error.is_some() {
            "failed"
        } else if winner {
            "winner"
        } else {
            ""
        },
    );
    out.append("\"><span class=\"bench-label\">");
    out.append(escape_html(r.label.as_str()).as_str());
    out.append("</span><span class=\"bench-speed\">");
    let speed: String = match r.speed_bps {
        Some(bps) => {
            let mut text = megabytes_text(bps);
            text.append(" МБ/с");
            text
        },
        None => "—".to_owned(),
    };
    out.append(escape_html(speed.as_str()).as_str());
    out.append("</span><span class=\"bench-note\">");
    let note: String = match &r.error {
        Some(why) => {
            let mut text = "<span class=\"fail\">".to_owned();
            text.append(escape_html(why.as_str()).as_str());
            text.append("</span>");
            text
        },
        None => if winner {
            "<span class=\"ok\">быстрее прочих</span>".to_owned()
        } else {
            let mut text = decimal_text(r.bytes);
            text.append(" байт");
            text
        },
    };
    out.append(note.as_str());
    out.append("</span></li>\n");
    out
}

pub fn bench_table(report: &BenchReport) -> (out: String)
    ensures
        out@ == bench_html(*report),
{
    let ghost all = report.results@;
    let ghost best = text_in(report.best);
    let mut out = "<ul class=\"bench-results\">\n".to_owned();
    let mut i: usize = 0;
    assert(all.take(0) =~= Seq::empty());
    while i < report.results.len()
        invariant
            i <= report.results@.len(),
            all == report.results@,
            best == text_in(report.best),
            out@ == bench_rows_html(all.take(i as int), best),
        decreases report.results.len() - i,
    {
        assert(all.take(i + 1).drop_last() =~= all.take(i as int));
        assert(all.take(i + 1).last() == all[i as int]);
        out.append(bench_row(&report.results[i], &report.best).as_str());
        i += 1;
    }
    assert(all.take(i as int) =~= all);
    out.append("</ul>\n");
    out
}

/// One line of the diagnostics.
pub open spec fn check_html(c: CheckView) -> Seq<char> {
    "<li class=\"check "@ + (match c.status {
        CheckStatus::Good => "ok"@,
        CheckStatus::Warn => "warn"@,
        CheckStatus::Fail => "fail"@,
    })
        + "\"><div class=\"check-body\"><div class=\"check-head\"><span class=\"check-title\">"@
        + escaped(c.title) + "</span><span class=\"check-status\">"@ + (match c.status {
        CheckStatus::Good => "ок"@,
        CheckStatus::Warn => "внимание"@,
        CheckStatus::Fail => "отказ"@,
    }) + "</span></div><div class=\"check-detail\">"@ + escaped(c.detail) + "</div></div></li>\n"@
}

pub open spec fn check_rows_html(checks: Seq<CheckView>) -> Seq<char>
    decreases checks.len(),
{
    if checks.len() == 0 {
        "<ul class=\"checks\">\n"@
    } else {
        check_rows_html(checks.drop_last()) + check_html(checks.last())
    }
}

/// The diagnostics.
pub open spec fn doctor_html(checks: Seq<CheckView>) -> Seq<char> {
    check_rows_html(checks) + "</ul>\n"@
}

fn check_row(c: &Check) -> (out: String)
    ensures
        out@ == check_html(c@),
{
    let (class, mark) = match c.status {
        CheckStatus::Good => ("ok", "ок"),
        CheckStatus::Warn => ("warn", "внимание"),
        CheckStatus::Fail => ("fail", "отказ"),
    };
    let mut out = "<li class=\"check ".to_owned();
    out.append(class);
    out.append(
        "\"><div class=\"check-body\"><div class=\"check-head\"><span class=\"check-title\">",
    );
    out.append(escape_html(c.title.as_str()).as_str());
    out.append("</span><span class=\"check-status\">");
    out.append(mark);
    out.append("</span></div><div class=\"check-detail\">");
    out.append(escape_html(c.detail.as_str()).as_str());
    out.append("</div></div></li>\n");
    out
}

pub fn doctor_table(checks: &Vec<Check>) -> (out: String)
    ensures
        out@ == doctor_html(checks_in(checks@)),
{
    let ghost all = checks_in(checks@);
    let mut out = "<ul class=\"checks\">\n".to_owned();
    let mut i: usize = 0;
    assert(all.take(0) =~= Seq::empty());
    while i < checks.len()
        invariant
            i <= checks@.len(),
            all == checks_in(checks@),
            out@ == check_rows_html(all.take(i as int)),
        decreases checks.len() - i,
    {
        assert(all.take(i + 1).drop_last() =~= all.take(i as int));
        assert(all.take(i + 1).last() == checks@[i as int]@);
        out.append(check_row(&checks[i]).as_str());
        i += 1;
    }
    assert(all.take(i as int) =~= all);
    out.append("</ul>\n");
    out
}

// ---------------------------------------------------------------------------
// Laws
// ---------------------------------------------------------------------------

/// A character that could open or close a tag or an attribute.
pub open spec fn is_markup(c: char) -> bool {
    c == '<' || c == '>' || c == '"' || c == '\''
}

proof fn lemma_entities()
    ensures
        "&amp;"@ == seq!['&', 'a', 'm', 'p', ';'],
        "&lt;"@ == seq!['&', 'l', 't', ';'],
        "&gt;"@ == seq!['&', 'g', 't', ';'],
        "&quot;"@ == seq!['&', 'q', 'u', 'o', 't', ';'],
        "&#39;"@ == seq!['&', '#', '3', '9', ';'],
{
    reveal_strlit("&amp;");
    reveal_strlit("&lt;");
    reveal_strlit("&gt;");
    reveal_strlit("&quot;");
    reveal_strlit("&#39;");
    assert("&amp;"@ =~= seq!['&', 'a', 'm', 'p', ';']);
    assert("&lt;"@ =~= seq!['&', 'l', 't', ';']);
    assert("&gt;"@ =~= seq!['&', 'g', 't', ';']);
    assert("&quot;"@ =~= seq!['&', 'q', 'u', 'o', 't', ';']);
    assert("&#39;"@ =~= seq!['&', '#', '3', '9', ';']);
}

/// Whatever the text, nothing in its escaped form opens or closes a tag or an
/// attribute.
pub proof fn escaped_text_is_inert(s: Seq<char>)
    ensures
        forall|i: int| 0 <= i < escaped(s).len() ==> !is_markup(#[trigger] escaped(s)[i]),
    decreases s.len(),
{
    if s.len() > 0 {
        escaped_text_is_inert(s.drop_last());
        lemma_entities();
        let before = escaped(s.drop_last());
        let last = entity(s.last());
        assert forall|i: int| 0 <= i < escaped(s).len() implies !is_markup(
            #[trigger] escaped(s)[i],
        ) by {
            if i < before.len() {
                assert(escaped(s)[i] == before[i]);
            } else {
                assert(escaped(s)[i] == last[i - before.len()]);
            }
        }
    }
}

pub proof fn lemma_escaped_from_the_left(s: Seq<char>)
    requires
        s.len() > 0,
    ensures
        escaped(s) == entity(s[0]) + escaped(s.drop_first()),
    decreases s.len(),
{
    if s.len() == 1 {
        assert(s.drop_last() =~= Seq::<char>::empty());
        assert(s.drop_first() =~= Seq::<char>::empty());
        assert(escaped(s) =~= entity(s[0]) + escaped(s.drop_first()));
    } else {
        lemma_escaped_from_the_left(s.drop_last());
        assert(s.drop_last().drop_first() =~= s.drop_first().drop_last());
        assert(s.drop_first().last() == s.last());
        assert(escaped(s) =~= entity(s[0]) + escaped(s.drop_first()));
    }
}

/// Escaping loses nothing: two texts with the same escaped form are the same.
pub proof fn escaping_loses_nothing(a: Seq<char>, b: Seq<char>)
    requires
        escaped(a) == escaped(b),
    ensures
        a == b,
    decreases a.len(),
{
    lemma_entities();
    if a.len() == 0 {
        if b.len() > 0 {
            lemma_escaped_from_the_left(b);
            assert(escaped(b).len() > 0);
        }
        assert(a =~= b);
    } else {
        lemma_escaped_from_the_left(a);
        if b.len() == 0 {
            assert(escaped(a).len() > 0);
        } else {
            lemma_escaped_from_the_left(b);
            let (ea, eb) = (entity(a[0]), entity(b[0]));
            let (ra, rb) = (escaped(a.drop_first()), escaped(b.drop_first()));
            assert((ea + ra)[0] == ea[0] && (eb + rb)[0] == eb[0]);
            if a[0] != b[0] {
                assert(ea[0] == '&' && eb[0] == '&');
                assert((ea + ra)[1] == ea[1] && (eb + rb)[1] == eb[1]);
            }
            assert(a[0] == b[0]);
            assert(ra =~= (ea + ra).skip(ea.len() as int));
            assert(rb =~= (eb + rb).skip(eb.len() as int));
            escaping_loses_nothing(a.drop_first(), b.drop_first());
            assert(a =~= seq![a[0]] + a.drop_first());
            assert(b =~= seq![b[0]] + b.drop_first());
        }
    }
}

/// Every mode has its own name.
pub proof fn every_mode_has_its_name(mode: Mode, out: &'static str)
    requires
        call_ensures(mode_name, (mode,), out),
    ensures
        mode == Mode::Auto ==> out@ == "Авто"@,
        mode == Mode::Socks ==> out@ == "SOCKS5"@,
        mode == Mode::Http ==> out@ == "HTTP"@,
        mode == Mode::Direct ==> out@ == "Напрямую"@,
{
}

/// What is said of the route is what happens to traffic: behind the chosen mode,
/// that an upstream was given up, or else the kind and the address of the route.
pub proof fn the_route_is_told_as_it_is(app: &AppState, name: &'static str, out: String)
    requires
        call_ensures(route_text, (app,), out),
        call_ensures(mode_name, (app.mode,), name),
    ensures
        app.demoted ==> out@ == "режим "@ + name@ + ": апстрим недоступен → работаем напрямую"@,
        !app.demoted ==> (app.route matches Route::Socks(address) ==> out@ == "режим "@ + name@
            + ": SOCKS5 → "@ + address@),
        !app.demoted ==> (app.route matches Route::Http(address) ==> out@ == "режим "@ + name@
            + ": HTTP → "@ + address@),
        !app.demoted && app.route is Direct ==> out@ == "режим "@ + name@ + ": напрямую"@,
{
}

/// What is said of the network is its shown name and whether it is an office
/// network.
pub proof fn the_network_is_told_as_it_is(app: &AppState, name: Option<&str>, out: String)
    requires
        call_ensures(network_text, (app,), out),
        call_ensures(crate::model::Place::shown_network, (&app.place,), name),
    ensures
        name is None ==> out@ == "Сеть: не определена"@,
        name is Some && app.place.in_office ==> out@ == "Сеть: "@ + name->0@ + " — офисная"@,
        name is Some && !app.place.in_office ==> out@ == "Сеть: "@ + name->0@
            + " — не в списке офисных"@,
{
}

proof fn lemma_nearest(n: nat, unit: nat)
    requires
        unit > 0,
    ensures
        -(unit as int) <= 2 * (nearest(n, unit) * unit - n) <= unit,
{
    let (q, r) = (n / unit, n % unit);
    vstd::arithmetic::div_mod::lemma_fundamental_div_mod(n as int, unit as int);
    vstd::arithmetic::mul::lemma_mul_is_commutative(unit as int, q as int);
    vstd::arithmetic::mul::lemma_mul_is_distributive_add_other_way(unit as int, q as int, 1);
}

/// A speed is written with two digits behind the point, and they are the nearest
/// ones: what is written is off by no more than half a hundredth of a megabyte.
pub proof fn a_speed_is_written_to_the_nearest_hundredth(bytes: nat) -> (hundredths: nat)
    requires
        bytes < 0x20_0000_0000_0000,
    ensures
        megabytes(bytes) == decimal(hundredths / 100) + "."@ + decimal((hundredths / 10) % 10)
            + decimal(hundredths % 10),
        -0x10_0000 <= 2 * (hundredths * 0x10_0000 - 100 * bytes) <= 0x10_0000,
{
    lemma_small_numbers_are_kept(bytes);
    let hundredths = nearest(bytes * 100, 0x10_0000);
    lemma_nearest(bytes * 100, 0x10_0000);
    assert(bytes * 100 == 100 * bytes);
    hundredths
}

proof fn lemma_small_numbers_are_kept(n: nat)
    requires
        n < 0x20_0000_0000_0000,
    ensures
        kept(n) == n,
{
    assert(spacing(n, 1) == 1);
    vstd::arithmetic::div_mod::lemma_fundamental_div_mod_converse(n as int, 1, n as int, 0);
    assert(nearest(n, 1) == n);
}

/// The row of a measured route.
pub open spec fn measured(r: BenchResult, best: Option<String>) -> Seq<char> {
    let wins = best is Some && best->0@ == r.label@;
    let class = if r.error is Some {
        "failed"@
    } else if wins {
        "winner"@
    } else {
        Seq::empty()
    };
    let speed = match r.speed_bps {
        Some(bps) => escaped(megabytes(bps as nat) + " МБ/с"@),
        None => escaped("—"@),
    };
    let note = if r.error is Some {
        "<span class=\"fail\">"@ + escaped(r.error->0@) + "</span>"@
    } else if wins {
        "<span class=\"ok\">быстрее прочих</span>"@
    } else {
        decimal(r.bytes as nat) + " байт"@
    };
    "<li class=\"bench-row "@ + class + "\"><span class=\"bench-label\">"@ + escaped(r.label@)
        + "</span><span class=\"bench-speed\">"@ + speed + "</span><span class=\"bench-note\">"@
        + note + "</span></li>\n"@
}

/// All the routes, one behind the other.
pub open spec fn measured_in_order(results: Seq<BenchResult>, best: Option<String>) -> Seq<char>
    decreases results.len(),
{
    if results.len() == 0 {
        Seq::empty()
    } else {
        measured(results[0], best) + measured_in_order(results.drop_first(), best)
    }
}

proof fn lemma_measured(results: Seq<BenchResult>, best: Option<String>)
    ensures
        bench_rows_html(results, text_in(best)) == "<ul class=\"bench-results\">\n"@
            + measured_in_order(results, best),
    decreases results.len(),
{
    let open = "<ul class=\"bench-results\">\n"@;
    if results.len() == 0 {
        assert(open + Seq::<char>::empty() =~= open);
    } else {
        let (rest, last) = (results.drop_last(), results.last());
        lemma_measured(rest, best);
        assert(""@ =~= Seq::<char>::empty()) by {
            reveal_strlit("");
        }
        assert(bench_row_html(last, text_in(best)) == measured(last, best));
        lemma_measured_last(results, best);
        let (a, b) = (measured_in_order(rest, best), measured(last, best));
        assert(open + a + b =~= open + (a + b));
    }
}

proof fn lemma_measured_last(results: Seq<BenchResult>, best: Option<String>)
    requires
        results.len() > 0,
    ensures
        measured_in_order(results, best) == measured_in_order(results.drop_last(), best) + measured(
            results.last(),
            best,
        ),
    decreases results.len(),
{
    let (rest, last) = (results.drop_last(), measured(results.last(), best));
    if results.len() == 1 {
        let none = results.drop_first();
        assert(none =~= Seq::empty() && rest =~= Seq::empty());
        assert(measured_in_order(none, best) =~= Seq::<char>::empty());
        assert(measured_in_order(rest, best) =~= Seq::<char>::empty());
        assert(last + Seq::<char>::empty() =~= Seq::<char>::empty() + last);
    } else {
        let tail = results.drop_first();
        lemma_measured_last(tail, best);
        assert(tail.drop_last() =~= rest.drop_first());
        assert(rest[0] == results[0]);
        let (a, b) = (measured(results[0], best), measured_in_order(rest.drop_first(), best));
        assert(a + (b + last) =~= a + b + last);
    }
}

/// Every measured route has a row, in the order of the report: a failed one with
/// its reason, the fastest marked as such, the others with the bytes that came.
pub proof fn every_measured_route_is_shown(report: &BenchReport, out: String)
    requires
        call_ensures(bench_table, (report,), out),
    ensures
        out@ == "<ul class=\"bench-results\">\n"@ + measured_in_order(
            report.results@,
            report.best,
        ) + "</ul>\n"@,
{
    lemma_measured(report.results@, report.best);
}

/// The row of a check.
pub open spec fn checked(c: Check) -> Seq<char> {
    let (class, mark) = if c.status == CheckStatus::Good {
        ("ok"@, "ок"@)
    } else if c.status == CheckStatus::Warn {
        ("warn"@, "внимание"@)
    } else {
        ("fail"@, "отказ"@)
    };
    "<li class=\"check "@ + class
        + "\"><div class=\"check-body\"><div class=\"check-head\"><span class=\"check-title\">"@
        + escaped(c.title@) + "</span><span class=\"check-status\">"@ + mark
        + "</span></div><div class=\"check-detail\">"@ + escaped(c.detail@)
        + "</div></div></li>\n"@
}

/// All the checks, one behind the other.
pub open spec fn checked_in_order(checks: Seq<Check>) -> Seq<char>
    decreases checks.len(),
{
    if checks.len() == 0 {
        Seq::empty()
    } else {
        checked(checks[0]) + checked_in_order(checks.drop_first())
    }
}

proof fn lemma_checked_last(checks: Seq<Check>)
    requires
        checks.len() > 0,
    ensures
        checked_in_order(checks) == checked_in_order(checks.drop_last()) + checked(checks.last()),
    decreases checks.len(),
{
    let (rest, last) = (checks.drop_last(), checked(checks.last()));
    if checks.len() == 1 {
        let none = checks.drop_first();
        assert(none =~= Seq::empty() && rest =~= Seq::empty());
        assert(checked_in_order(none) =~= Seq::<char>::empty());
        assert(checked_in_order(rest) =~= Seq::<char>::empty());
        assert(last + Seq::<char>::empty() =~= Seq::<char>::empty() + last);
    } else {
        let tail = checks.drop_first();
        lemma_checked_last(tail);
        assert(tail.drop_last() =~= rest.drop_first());
        assert(rest[0] == checks[0]);
        let (a, b) = (checked(checks[0]), checked_in_order(rest.drop_first()));
        assert(a + (b + last) =~= a + b + last);
    }
}

proof fn lemma_checked(checks: Seq<Check>)
    ensures
        check_rows_html(checks_in(checks)) == "<ul class=\"checks\">\n"@ + checked_in_order(checks),
    decreases checks.len(),
{
    let open = "<ul class=\"checks\">\n"@;
    let all = checks_in(checks);
    if checks.len() == 0 {
        assert(open + Seq::<char>::empty() =~= open);
    } else {
        let (rest, last) = (checks.drop_last(), checks.last());
        lemma_checked(rest);
        assert(all.drop_last() =~= checks_in(rest));
        assert(all.last() == last@);
        assert(check_html(last@) == checked(last));
        lemma_checked_last(checks);
        let (a, b) = (checked_in_order(rest), checked(last));
        assert(open + a + b =~= open + (a + b));
    }
}

/// Every check has a row, in the order in which it was made, marked with its own
/// status.
pub proof fn every_check_is_shown(checks: &Vec<Check>, out: String)
    requires
        call_ensures(doctor_table, (checks,), out),
    ensures
        out@ == "<ul class=\"checks\">\n"@ + checked_in_order(checks@) + "</ul>\n"@,
{
    lemma_checked(checks@);
}

/// What is said of a tunnel, by the first of these that holds: nobody knows, it is
/// up, it is on its way, the routes could not be read, something else has them, it
/// is down.
pub open spec fn told_of(snap: TunnelSnapshot) -> Seq<char> {
    if snap.liveness_error is Some {
        TUNNEL_UNKNOWN@ + escaped(snap.liveness_error->0@) + TUNNEL_UNKNOWN_END@
    } else if snap.our_tunnel_up {
        "<p class=\"note good\">Туннель поднят.</p>\n"@
    } else if snap.rising {
        "<p class=\"note good\">Туннель поднимается…</p>\n"@
    } else if snap.routes_error is Some {
        TUNNEL_UNCHECKED@ + escaped(snap.routes_error->0@) + TUNNEL_UNCHECKED_END@
    } else if snap.foreign_tunnel_up {
        TUNNEL_OCCUPIED@
    } else {
        "<p>Туннель опущен.</p>\n"@
    }
}

/// The section on the tunnel says what the snapshot says, the subnets in their
/// order, and whether there is a profile.
pub proof fn the_tunnel_is_told_as_it_is(
    subnets: &Vec<String>,
    snap: &TunnelSnapshot,
    list: String,
    out: String,
)
    requires
        call_ensures(tunnel_section, (subnets, snap), out),
        call_ensures(join, (subnets, ", "), list),
    ensures
        ({
            let title = "<h2 id=\"tunnel\">Туннель (OpenVPN)</h2>\n"@;
            let routed = if subnets@.len() == 0 {
                TUNNEL_NO_SUBNETS@
            } else {
                "<p class=\"hint\">Через туннель маршрутизируются подсети: "@ + escaped(list@)
                    + ".</p>\n"@
            };
            let profile = "<p>Профиль в OpenVPN: <b>"@ + if snap.profile_installed {
                "установлен"@
            } else {
                "не собран"@
            };
            let name = "</b> (имя «"@ + escaped(TUNNEL_PROFILE_NAME@) + TUNNEL_NAME_NOTE@;
            &&& !snap.installed ==> out@ == title + TUNNEL_MISSING@
            &&& snap.installed ==> (title + routed + profile + name + TUNNEL_DNS@ + told_of(
                *snap,
            )).is_prefix_of(out@)
        }),
{
    if snap.installed {
        let title = "<h2 id=\"tunnel\">Туннель (OpenVPN)</h2>\n"@;
        let routed = subnets_html(texts(subnets@));
        assert(texts(subnets@).len() == subnets@.len());
        let status = tunnel_status(*snap);
        let (start, word) = (
            "<p>Профиль в OpenVPN: <b>"@,
            if snap.profile_installed {
                "установлен"@
            } else {
                "не собран"@
            },
        );
        let name = "</b> (имя «"@ + escaped(TUNNEL_PROFILE_NAME@) + TUNNEL_NAME_NOTE@;
        let words = tunnel_words_html(status);
        let first = if offers_raise(status, snap.profile_installed) {
            action_form_html("raise_tunnel"@, "Поднять туннель"@)
        } else if status is Down {
            "<p class=\"hint\">Сначала соберите профиль — кнопка ниже.</p>\n"@
        } else {
            Seq::empty()
        };
        let second = if offers_lower(status) {
            action_form_html(
                "lower_tunnel"@,
                if status is Rising {
                    "Отменить / опустить туннель"@
                } else {
                    "Опустить туннель"@
                },
            )
        } else {
            Seq::empty()
        };
        let build = action_form_html("build_tunnel_profile"@, "Собрать профиль"@);
        let install = action_form_html("install_service"@, "Установить службу статического IP…"@);
        lemma_section_parts(
            title + routed,
            start,
            word,
            "</b> (имя «"@,
            escaped(TUNNEL_PROFILE_NAME@),
            TUNNEL_NAME_NOTE@,
            TUNNEL_DNS@,
            words,
            first,
            second,
            TUNNEL_PRIVILEGES@,
            build,
            install,
        );
        assert(words == told_of(*snap));
        let rest = first + second + TUNNEL_PRIVILEGES@ + build + install;
        let profile = start + word;
        assert(tunnel_state_html(status, snap.profile_installed) == words + first + second);
        let told = title + routed + profile + name + TUNNEL_DNS@ + told_of(*snap);
        assert(out@ == told + rest);
        assert(told =~= (told + rest).subrange(0, told.len() as int));
    }
}

proof fn lemma_section_parts(
    x: Seq<char>,
    start: Seq<char>,
    word: Seq<char>,
    a: Seq<char>,
    b: Seq<char>,
    c: Seq<char>,
    dns: Seq<char>,
    words: Seq<char>,
    first: Seq<char>,
    second: Seq<char>,
    p: Seq<char>,
    build: Seq<char>,
    install: Seq<char>,
)
    ensures
        x + start + word + a + b + c + dns + (words + first + second) + p + build + install == x + (
        start + word) + (a + b + c) + dns + words + (first + second + p + build + install),
{
    assert(x + start + word + a + b + c + dns + (words + first + second) + p + build + install =~= x
        + (start + word) + (a + b + c) + dns + words + (first + second + p + build + install));
}

/// A field shows its own value under its own name, with the note behind its label.
pub proof fn a_field_shows_its_value(
    name: &str,
    label: &str,
    value: &str,
    note: &str,
    texts: (String, String, String),
    out: String,
)
    requires
        call_ensures(field, (name, label, value, note), out),
        call_ensures(escape_html, (name,), texts.0),
        call_ensures(escape_html, (label,), texts.1),
        call_ensures(escape_html, (value,), texts.2),
    ensures
        ({
            let (n, l, v) = (texts.0@, texts.1@, texts.2@);
            let remark = if note@.len() == 0 {
                Seq::<char>::empty()
            } else {
                " "@ + note@
            };
            out@ == "<label for=\""@ + n + "\">"@ + l + remark
                + "</label>\n<input type=\"text\" id=\""@ + n + "\" name=\""@ + n
                + "\" value=\""@ + v + "\">\n"@
        }),
{
}

/// A switch is ticked where it is on, cannot be used where it is disabled, and has a
/// remark below it where there is one.
pub proof fn a_switch_is_ticked_where_it_is_on(
    name: &str,
    label: &str,
    on: bool,
    disabled: bool,
    note: &str,
    texts: (String, String, String),
    out: String,
)
    requires
        call_ensures(checkbox, (name, label, on, disabled, note), out),
        call_ensures(escape_html, (name,), texts.0),
        call_ensures(escape_html, (label,), texts.1),
        call_ensures(escape_html, (note,), texts.2),
    ensures
        ({
            let ticked = if on {
                " checked"@
            } else {
                Seq::<char>::empty()
            };
            let idle = if disabled {
                " disabled"@
            } else {
                Seq::<char>::empty()
            };
            let remark = if note@.len() == 0 {
                Seq::<char>::empty()
            } else {
                "<p class=\"hint\">"@ + texts.2@ + "</p>\n"@
            };
            out@ == "<label><input type=\"checkbox\" name=\""@ + texts.0@ + "\""@ + ticked + idle
                + "> "@ + texts.1@ + "</label>\n"@ + remark
        }),
{
    reveal_strlit("");
    assert(""@ =~= Seq::<char>::empty());
}

/// A badge tells an upstream without an address from one that does not answer.
pub proof fn a_badge_tells_of_its_upstream(
    address: &Option<String>,
    health: Reachability,
    words: &str,
    text: String,
    out: String,
)
    requires
        call_ensures(health_chip, (address, health), out),
        call_ensures(escape_html, (words,), text),
    ensures
        ({
            let set = address is Some && address->0@.len() > 0;
            let chip = |class: Seq<char>| "<span class=\"chip "@ + class + "\">"@ + text@ + "</span>"@;
            &&& !set && words@ == "не задан"@ ==> out@ == chip("status-unset"@)
            &&& set && health == Reachability::Up && words@ == "доступен"@ ==> out@ == chip(
                "status-up"@,
            )
            &&& set && health == Reachability::Down && words@ == "недоступен"@ ==> out@ == chip(
                "status-down"@,
            )
            &&& set && health == Reachability::Unknown && words@ == "ещё не проверен"@ ==> out@
                == chip("status-unknown"@)
        }),
{
}

/// The rows of two lists, one behind the other, are the rows of both.
pub proof fn the_rows_of_two_lists_are_the_rows_of_both(
    a: &Vec<OfficeNetwork>,
    b: &Vec<OfficeNetwork>,
    both: &Vec<OfficeNetwork>,
    outs: (String, String, String),
)
    requires
        both@ == a@ + b@,
        call_ensures(office_rows, (a,), outs.0),
        call_ensures(office_rows, (b,), outs.1),
        call_ensures(office_rows, (both,), outs.2),
    ensures
        outs.2@ == outs.0@ + outs.1@,
{
    assert(networks(both@) =~= networks(a@) + networks(b@));
    lemma_rows_of_both(networks(a@), networks(b@));
}

proof fn lemma_rows_of_both(a: Seq<OfficeNetworkView>, b: Seq<OfficeNetworkView>)
    ensures
        office_rows_html(a + b) == office_rows_html(a) + office_rows_html(b),
    decreases b.len(),
{
    if b.len() == 0 {
        assert(a + b =~= a);
        assert(office_rows_html(a) + office_rows_html(b) =~= office_rows_html(a));
    } else {
        assert((a + b).drop_last() =~= a + b.drop_last());
        assert((a + b).last() == b.last());
        lemma_rows_of_both(a, b.drop_last());
        let (x, y) = (office_rows_html(a), office_rows_html(b.drop_last()));
        let z = office_row_html(b.last().id, b.last().name);
        assert(x + y + z =~= x + (y + z));
    }
}

/// The row of one network has its identifier and its name, each in its own field.
pub proof fn a_row_has_identifier_and_name(
    id: &str,
    name: &str,
    texts: (String, String),
    one: &Vec<OfficeNetwork>,
    outs: (String, String),
)
    requires
        call_ensures(office_row, (id, name), outs.0),
        call_ensures(escape_html, (id,), texts.0),
        call_ensures(escape_html, (name,), texts.1),
        one@.len() == 1 && one@[0].id@ == id@ && one@[0].name@ == name@,
        call_ensures(office_rows, (one,), outs.1),
    ensures
        outs.0@ == "<tr><td><input type=\"text\" name=\"office_id\" value=\""@ + texts.0@
            + "\"></td><td><input type=\"text\" name=\"office_name\" value=\""@ + texts.1@
            + "\"></td></tr>\n"@,
        outs.1@ == outs.0@,
{
    let list = networks(one@);
    assert(list.len() == 1);
    assert(list.drop_last() =~= Seq::empty());
    assert(list.last() == one@[0]@);
    assert(office_rows_html(list.drop_last()) =~= Seq::<char>::empty());
    assert(Seq::<char>::empty() + outs.0@ =~= outs.0@);
}

/// Any speed is first taken as the nearest number of 53 bits, and then written with
/// the two nearest digits behind the point; of two that are equally near with the even
/// ones.
pub proof fn any_speed_is_written_to_the_nearest_hundredth(bytes: nat) -> (taken: (nat, nat))
    ensures
        ({
            let (size, hundredths) = taken;
            &&& exists|count: nat, exponent: nat|
                #[trigger] is_nearest(bytes, 1, size, count, exponent)
            &&& megabytes(bytes) == decimal(hundredths / 100) + "."@ + decimal(
                (hundredths / 10) % 10,
            ) + decimal(hundredths % 10)
            &&& -0x10_0000 <= 2 * (hundredths * 0x10_0000 - 100 * size) <= 0x10_0000
            &&& 2 * (hundredths * 0x10_0000 - 100 * size) == 0x10_0000 || 2 * (hundredths * 0x10_0000
                - 100 * size) == -0x10_0000 ==> hundredths % 2 == 0
        }),
{
    let size = kept(bytes);
    lemma_kept_is_nearest(bytes);
    let hundredths = nearest(size * 100, 0x10_0000);
    lemma_hundredths(size * 100);
    assert(size * 100 == 100 * size);
    (size, hundredths)
}

proof fn lemma_kept_is_nearest(n: nat)
    ensures
        exists|count: nat, exponent: nat| #[trigger] is_nearest(n, 1, kept(n), count, exponent),
{
    lemma_same_spacing(n, 1);
    lemma_is_nearest(n, 1);
    let unit = spacing(n, 1);
    assert(unit * 1 == unit);
    assert(kept(n) == rounded(n, 1));
}

proof fn lemma_hundredths(n: nat)
    ensures
        ({
            let off = 2 * (nearest(n, 0x10_0000) * 0x10_0000 - n);
            &&& -0x10_0000 <= off <= 0x10_0000
            &&& off == 0x10_0000 || off == -0x10_0000 ==> nearest(n, 0x10_0000) % 2 == 0
        }),
{
    let (q, r) = (n / 0x10_0000, n % 0x10_0000);
    assert(n == q * 0x10_0000 + r);
}

proof fn lemma_same_spacing(n: nat, unit: nat)
    requires
        unit > 0,
    ensures
        spacing(n, unit) == spacing_of(n, 1, unit),
    decreases n - unit,
{
    assert(unit * 1 == unit);
    if n >= 0x20_0000_0000_0000 * unit {
        lemma_same_spacing(n, 2 * unit);
    }
}

} // verus!
