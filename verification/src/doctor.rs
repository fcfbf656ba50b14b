//! Diagnostics: facts that are already known, put together into a list of
//! checks that answer what people complain about.
//!
//! Nothing here looks at the system. The caller has done that and hands over
//! what came of it, a failure too.

use vstd::prelude::*;
use vstd::string::*;
use crate::model::{AppState, Config, ConfigView, Mode, Reachability, SysProxy, SysProxyView};
use crate::model::{text_in, texts};
use crate::proxy::{is_stale_pointer, stale_pointer};
use crate::text::{decimal, decimal_text, join, joined};

verus! {

/// How bad it is.
#[derive(Debug, Clone, Copy, PartialEq, Eq, Structural)]
pub enum CheckStatus {
    Good,
    Warn,
    Fail,
}

/// One line of the diagnostics. The detail says what to do about it.
#[derive(Debug, Clone, PartialEq, Eq)]
pub struct Check {
    pub title: String,
    pub status: CheckStatus,
    pub detail: String,
}

#[verifier::ext_equal]
pub ghost struct CheckView {
    pub title: Seq<char>,
    pub status: CheckStatus,
    pub detail: Seq<char>,
}

impl View for Check {
    type V = CheckView;

    open spec fn view(&self) -> CheckView {
        CheckView { title: self.title@, status: self.status, detail: self.detail@ }
    }
}

/// The checks in a list.
pub open spec fn checks_in(v: Seq<Check>) -> Seq<CheckView> {
    v.map_values(|c: Check| c@)
}

pub const TITLE_BRIDGE_LISTENING: &'static str = "Мост слушает свой порт";

pub const TITLE_SYSPROXY_POINTS_AT_US: &'static str = "Системный прокси указывает на нас";

pub const TITLE_STALE_POINTER: &'static str = "В реестре наш адрес, но моста нет";

pub const TITLE_UPSTREAMS: &'static str = "Апстримы отвечают";

pub const TITLE_NETWORK_RECOGNISED: &'static str = "Текущая сеть опознана";

pub const TITLE_OFFICE_NETWORKS: &'static str = "Настроены офисные сети";

pub const TITLE_COVERAGE_GAP: &'static str = "Что не входит в наше управление";

pub const COVERAGE_GAP: &'static str = "ProxyPilot управляет только системными настройками WinINET (Панель \
         управления → Свойства обозревателя). Он НЕ управляет: WinHTTP \
         (используют службы и часть приложений — правится только `netsh winhttp` \
         от администратора), Firefox (свои настройки прокси, WinINET не читает) и \
         приложениями, которые сами берут адрес из переменных окружения \
         HTTP_PROXY/HTTPS_PROXY. Если что-то из перечисленного ведёт себя не так, \
         как ожидалось, — дело не в ProxyPilot, проверяйте настройки именно этой \
         программы.";

pub open spec fn check_of(title: Seq<char>, status: CheckStatus, detail: Seq<char>) -> CheckView {
    CheckView { title, status, detail }
}

fn check(title: &str, status: CheckStatus, detail: String) -> (out: Check)
    ensures
        out@ == check_of(title@, status, detail@),
{
    Check { title: title.to_owned(), status, detail }
}

// ---------------------------------------------------------------------------
// The checks, one by one
// ---------------------------------------------------------------------------

/// The bridge answers on its port now.
pub open spec fn bridge_check(port: u16, listening: bool) -> CheckView {
    if listening {
        check_of(
            TITLE_BRIDGE_LISTENING@,
            CheckStatus::Good,
            "мост принимает соединения на 127.0.0.1:"@ + decimal(port as nat),
        )
    } else {
        check_of(
            TITLE_BRIDGE_LISTENING@,
            CheckStatus::Fail,
            "не удалось подключиться к 127.0.0.1:"@ + decimal(port as nat)
                + ": мост не отвечает. \
                 Перезапустите ProxyPilot — до перезапуска ни одно приложение, \
                 использующее этот прокси, не выйдет в сеть."@,
        )
    }
}

fn check_bridge_listening(state: &AppState, listening: bool) -> (out: Check)
    ensures
        out@ == bridge_check(state.port, listening),
{
    let port = decimal_text(state.port as u64);
    if listening {
        let mut detail = "мост принимает соединения на 127.0.0.1:".to_owned();
        detail.append(port.as_str());
        check(TITLE_BRIDGE_LISTENING, CheckStatus::Good, detail)
    } else {
        let mut detail = "не удалось подключиться к 127.0.0.1:".to_owned();
        detail.append(port.as_str());
        detail.append(
            ": мост не отвечает. \
                 Перезапустите ProxyPilot — до перезапуска ни одно приложение, \
                 использующее этот прокси, не выйдет в сеть.",
        );
        check(TITLE_BRIDGE_LISTENING, CheckStatus::Fail, detail)
    }
}

pub open spec fn yes_no(b: bool) -> Seq<char> {
    if b {
        "true"@
    } else {
        "false"@
    }
}

/// What the system said of its proxy settings, or why it could not be read.
pub open spec fn reading(r: Result<SysProxy, String>) -> Result<SysProxyView, Seq<char>> {
    match r {
        Ok(settings) => Ok(settings@),
        Err(why) => Err(why@),
    }
}

/// The settings of the system point at the bridge, where it manages them.
pub open spec fn sysproxy_check(
    managed: bool,
    port: u16,
    sysproxy: Result<SysProxyView, Seq<char>>,
) -> CheckView {
    let title = TITLE_SYSPROXY_POINTS_AT_US@;
    if !managed {
        check_of(
            title,
            CheckStatus::Good,
            "управление системным прокси выключено (manage_system_proxy = false) — \
             проверка не применяется, настройки — дело пользователя"@,
        )
    } else {
        match sysproxy {
            Err(why) => check_of(
                title,
                CheckStatus::Fail,
                "не удалось прочитать системные настройки прокси: "@ + why,
            ),
            Ok(current) => if stale_pointer(current, port) {
                check_of(
                    title,
                    CheckStatus::Good,
                    "указывает на 127.0.0.1:"@ + decimal(port as nat) + ", как и ожидалось"@,
                )
            } else {
                check_of(
                    title,
                    CheckStatus::Warn,
                    "сейчас в системе: включён="@ + yes_no(current.enabled) + ", адрес=«"@
                        + current.server + "»; ожидали 127.0.0.1:"@ + decimal(port as nat)
                        + ". \
                         Похоже, настройки поправили вручную или их сбросила групповая \
                         политика — переключите режим в трее, чтобы ProxyPilot \
                         восстановил свой адрес."@,
                )
            },
        }
    }
}

fn check_sysproxy_points_at_us(
    cfg: &Config,
    state: &AppState,
    sysproxy: &Result<SysProxy, String>,
) -> (out: Check)
    ensures
        out@ == sysproxy_check(cfg.manage_system_proxy, state.port, reading(*sysproxy)),
{
    let title = TITLE_SYSPROXY_POINTS_AT_US;
    if !cfg.manage_system_proxy {
        return check(
            title,
            CheckStatus::Good,
            "управление системным прокси выключено (manage_system_proxy = false) — \
             проверка не применяется, настройки — дело пользователя".to_owned(),
        );
    }
    match sysproxy {
        Err(why) => {
            let mut detail = "не удалось прочитать системные настройки прокси: ".to_owned();
            detail.append(why.as_str());
            check(title, CheckStatus::Fail, detail)
        },
        Ok(current) => {
            let port = decimal_text(state.port as u64);
            if is_stale_pointer(current, state.port) {
                let mut detail = "указывает на 127.0.0.1:".to_owned();
                detail.append(port.as_str());
                detail.append(", как и ожидалось");
                check(title, CheckStatus::Good, detail)
            } else {
                let mut detail = "сейчас в системе: включён=".to_owned();
                detail.append(if current.enabled { "true" } else { "false" });
                detail.append(", адрес=«");
                detail.append(current.server.as_str());
                detail.append("»; ожидали 127.0.0.1:");
                detail.append(port.as_str());
                detail.append(
                    ". \
                         Похоже, настройки поправили вручную или их сбросила групповая \
                         политика — переключите режим в трее, чтобы ProxyPilot \
                         восстановил свой адрес.",
                );
                check(title, CheckStatus::Warn, detail)
            }
        },
    }
}

/// The system points at us although nobody listened there: an earlier run was
/// killed, and the machine is without a network.
///
/// A failed reading is no second failure: the check above reports it.
pub open spec fn stale_check(
    port: u16,
    port_was_free: bool,
    sysproxy: Result<SysProxyView, Seq<char>>,
) -> CheckView {
    let title = TITLE_STALE_POINTER@;
    match sysproxy {
        Err(_) => check_of(
            title,
            CheckStatus::Warn,
            "не выполнена: не удалось прочитать системные настройки прокси — причина та \
             же, что и у проверки «Системный прокси указывает на нас» выше."@,
        ),
        Ok(current) => if stale_pointer(current, port) && port_was_free {
            check_of(
                title,
                CheckStatus::Fail,
                "в реестре указан наш адрес (127.0.0.1:"@ + decimal(port as nat)
                    + "), но мост не отвечает — \
                         похоже, предыдущий процесс ProxyPilot был завершён аварийно и не \
                         успел вернуть настройки. Сеть, скорее всего, не работает у всех \
                         приложений, читающих системные настройки прокси. Запустите \
                         ProxyPilot заново; если он уже показывает иконку в трее — \
                         перезапустите его."@,
            )
        } else {
            check_of(title, CheckStatus::Good, "мёртвого указателя на нас в реестре нет"@)
        },
    }
}

fn check_stale_pointer_without_bridge(
    state: &AppState,
    port_was_free_before_bind: bool,
    sysproxy: &Result<SysProxy, String>,
) -> (out: Check)
    ensures
        out@ == stale_check(state.port, port_was_free_before_bind, reading(*sysproxy)),
{
    let title = TITLE_STALE_POINTER;
    match sysproxy {
        Err(_) => check(
            title,
            CheckStatus::Warn,
            "не выполнена: не удалось прочитать системные настройки прокси — причина та \
             же, что и у проверки «Системный прокси указывает на нас» выше.".to_owned(),
        ),
        Ok(current) => {
            if is_stale_pointer(current, state.port) && port_was_free_before_bind {
                let mut detail = "в реестре указан наш адрес (127.0.0.1:".to_owned();
                detail.append(decimal_text(state.port as u64).as_str());
                detail.append(
                    "), но мост не отвечает — \
                         похоже, предыдущий процесс ProxyPilot был завершён аварийно и не \
                         успел вернуть настройки. Сеть, скорее всего, не работает у всех \
                         приложений, читающих системные настройки прокси. Запустите \
                         ProxyPilot заново; если он уже показывает иконку в трее — \
                         перезапустите его.",
                );
                check(title, CheckStatus::Fail, detail)
            } else {
                check(title, CheckStatus::Good, "мёртвого указателя на нас в реестре нет".to_owned())
            }
        },
    }
}

/// What is to be said of one upstream with this reachability, if it is set.
pub open spec fn upstream_lines(
    label: Seq<char>,
    address: Option<Seq<char>>,
    health: Reachability,
    wanted: Reachability,
    remark: Seq<char>,
) -> Seq<Seq<char>> {
    match address {
        Some(a) => if health == wanted {
            seq![label + " "@ + a + remark]
        } else {
            Seq::empty()
        },
        None => Seq::empty(),
    }
}

/// The upstreams answer.
pub open spec fn upstreams_check(cfg: ConfigView, state: AppState) -> CheckView {
    let title = TITLE_UPSTREAMS@;
    let (socks, http) = (state.health.socks, state.health.http);
    let dead = upstream_lines(
        "SOCKS"@,
        cfg.socks_upstream,
        socks,
        Reachability::Down,
        " не отвечает"@,
    ) + upstream_lines("HTTP"@, cfg.http_upstream, http, Reachability::Down, " не отвечает"@);
    let unchecked = upstream_lines(
        "SOCKS"@,
        cfg.socks_upstream,
        socks,
        Reachability::Unknown,
        " ещё не проверен"@,
    ) + upstream_lines(
        "HTTP"@,
        cfg.http_upstream,
        http,
        Reachability::Unknown,
        " ещё не проверен"@,
    );
    if cfg.socks_upstream is None && cfg.http_upstream is None {
        check_of(title, CheckStatus::Good, "апстримы не настроены — проверка не применяется"@)
    } else if dead.len() > 0 {
        check_of(
            title,
            CheckStatus::Fail,
            joined(dead, "; "@) + ". Проверьте сеть до апстрима и не блокирует ли его файрвол — \
                 жалобы «медленно» и «не грузится» почти всегда об этом."@,
        )
    } else if unchecked.len() > 0 {
        check_of(
            title,
            CheckStatus::Warn,
            joined(unchecked, "; "@) + " — подождите ближайшего пересчёта."@,
        )
    } else {
        check_of(title, CheckStatus::Good, "все настроенные апстримы отвечают"@)
    }
}

/// Adds the line on one upstream, if there is something to say.
fn add_upstream(
    lines: &mut Vec<String>,
    label: &str,
    address: &Option<String>,
    health: Reachability,
    wanted: Reachability,
    remark: &str,
)
    ensures
        texts(final(lines)@) == texts(old(lines)@) + upstream_lines(
            label@,
            text_in(*address),
            health,
            wanted,
            remark@,
        ),
{
    let ghost before = lines@;
    if let Some(a) = address {
        if health == wanted {
            let mut line = label.to_owned();
            line.append(" ");
            line.append(a.as_str());
            line.append(remark);
            lines.push(line);
            assert(texts(lines@) =~= texts(before) + seq![line@]);
            return;
        }
    }
    assert(texts(lines@) =~= texts(before) + Seq::<Seq<char>>::empty());
}

fn check_upstreams(cfg: &Config, state: &AppState) -> (out: Check)
    ensures
        out@ == upstreams_check(cfg@, *state),
{
    let title = TITLE_UPSTREAMS;
    if cfg.socks_upstream.is_none() && cfg.http_upstream.is_none() {
        return check(
            title,
            CheckStatus::Good,
            "апстримы не настроены — проверка не применяется".to_owned(),
        );
    }
    let (socks, http) = (state.health.socks, state.health.http);
    let mut dead: Vec<String> = Vec::new();
    let mut unchecked: Vec<String> = Vec::new();
    let (down, unknown) = (Reachability::Down, Reachability::Unknown);
    add_upstream(&mut dead, "SOCKS", &cfg.socks_upstream, socks, down, " не отвечает");
    add_upstream(&mut dead, "HTTP", &cfg.http_upstream, http, down, " не отвечает");
    add_upstream(&mut unchecked, "SOCKS", &cfg.socks_upstream, socks, unknown, " ещё не проверен");
    add_upstream(&mut unchecked, "HTTP", &cfg.http_upstream, http, unknown, " ещё не проверен");
    let ghost dead_lines = upstream_lines(
        "SOCKS"@,
        cfg@.socks_upstream,
        socks,
        down,
        " не отвечает"@,
    ) + upstream_lines("HTTP"@, cfg@.http_upstream, http, down, " не отвечает"@);
    let ghost unchecked_lines = upstream_lines(
        "SOCKS"@,
        cfg@.socks_upstream,
        socks,
        unknown,
        " ещё не проверен"@,
    ) + upstream_lines("HTTP"@, cfg@.http_upstream, http, unknown, " ещё не проверен"@);
    assert(texts(dead@) =~= dead_lines);
    assert(texts(unchecked@) =~= unchecked_lines);
    if dead.len() > 0 {
        let mut detail = join(&dead, "; ");
        detail.append(
            ". Проверьте сеть до апстрима и не блокирует ли его файрвол — \
                 жалобы «медленно» и «не грузится» почти всегда об этом.",
        );
        return check(title, CheckStatus::Fail, detail);
    }
    if unchecked.len() > 0 {
        let mut detail = join(&unchecked, "; ");
        detail.append(" — подождите ближайшего пересчёта.");
        return check(title, CheckStatus::Warn, detail);
    }
    check(title, CheckStatus::Good, "все настроенные апстримы отвечают".to_owned())
}

/// The name of a mode as the log writes it.
pub open spec fn mode_word(mode: Mode) -> Seq<char> {
    match mode {
        Mode::Auto => "Auto"@,
        Mode::Socks => "Socks"@,
        Mode::Http => "Http"@,
        Mode::Direct => "Direct"@,
    }
}

fn mode_text(mode: Mode) -> (out: &'static str)
    ensures
        out@ == mode_word(mode),
{
    match mode {
        Mode::Auto => "Auto",
        Mode::Socks => "Socks",
        Mode::Http => "Http",
        Mode::Direct => "Direct",
    }
}

pub open spec fn name_or_question(name: Option<String>) -> Seq<char> {
    match name {
        Some(n) => n@,
        None => "?"@,
    }
}

/// The network is known, where the mode depends on it.
pub open spec fn network_check(mode: Mode, state: AppState) -> CheckView {
    let title = TITLE_NETWORK_RECOGNISED@;
    let name = name_or_question(state.place.network_name);
    if mode != Mode::Auto {
        check_of(
            title,
            CheckStatus::Good,
            "режим закреплён вручную ("@ + mode_word(mode)
                + ") — место сети на маршрут не влияет"@,
        )
    } else if state.place.network is None {
        check_of(
            title,
            CheckStatus::Warn,
            "сейчас не опознано ни одной подключённой сети (либо сеть не подключена, \
             либо список получить не удалось — подробности в логе выше); режим auto в \
             этом случае считает, что мы не в офисе, и уходит напрямую."@,
        )
    } else if state.place.in_office {
        check_of(title, CheckStatus::Good, "опознана как офисная: "@ + name)
    } else {
        check_of(
            title,
            CheckStatus::Warn,
            "текущая сеть «"@ + name + "» не входит в список офисных — режим auto уходит \
                 напрямую, минуя прокси. Если это офисная сеть, добавьте её в \
                 настройках."@,
        )
    }
}

fn check_network_recognised(cfg: &Config, state: &AppState) -> (out: Check)
    ensures
        out@ == network_check(cfg.mode, *state),
{
    let title = TITLE_NETWORK_RECOGNISED;
    if cfg.mode != Mode::Auto {
        let mut detail = "режим закреплён вручную (".to_owned();
        detail.append(mode_text(cfg.mode));
        detail.append(") — место сети на маршрут не влияет");
        return check(title, CheckStatus::Good, detail);
    }
    if state.place.network.is_none() {
        return check(
            title,
            CheckStatus::Warn,
            "сейчас не опознано ни одной подключённой сети (либо сеть не подключена, \
             либо список получить не удалось — подробности в логе выше); режим auto в \
             этом случае считает, что мы не в офисе, и уходит напрямую.".to_owned(),
        );
    }
    let name: &str = match &state.place.network_name {
        Some(n) => n.as_str(),
        None => "?",
    };
    if state.place.in_office {
        let mut detail = "опознана как офисная: ".to_owned();
        detail.append(name);
        check(title, CheckStatus::Good, detail)
    } else {
        let mut detail = "текущая сеть «".to_owned();
        detail.append(name);
        detail.append(
            "» не входит в список офисных — режим auto уходит \
                 напрямую, минуя прокси. Если это офисная сеть, добавьте её в \
                 настройках.",
        );
        check(title, CheckStatus::Warn, detail)
    }
}

/// Office networks are configured, where the mode depends on them.
pub open spec fn offices_check(mode: Mode, count: nat) -> CheckView {
    let title = TITLE_OFFICE_NETWORKS@;
    if mode != Mode::Auto {
        check_of(
            title,
            CheckStatus::Good,
            "режим закреплён вручную ("@ + mode_word(mode)
                + ") — список офисных сетей сейчас не используется"@,
        )
    } else if count == 0 {
        check_of(
            title,
            CheckStatus::Warn,
            "офисных сетей не настроено ни одной — режим auto всегда будет считать, \
             что мы вне офиса, и трафик пойдёт напрямую, минуя прокси. Добавьте хотя \
             бы одну сеть в настройках."@,
        )
    } else {
        check_of(title, CheckStatus::Good, "настроено офисных сетей: "@ + decimal(count))
    }
}

fn check_office_networks_configured(cfg: &Config) -> (out: Check)
    ensures
        out@ == offices_check(cfg.mode, cfg.office_networks@.len()),
{
    let title = TITLE_OFFICE_NETWORKS;
    if cfg.mode != Mode::Auto {
        let mut detail = "режим закреплён вручную (".to_owned();
        detail.append(mode_text(cfg.mode));
        detail.append(") — список офисных сетей сейчас не используется");
        return check(title, CheckStatus::Good, detail);
    }
    if cfg.office_networks.len() == 0 {
        check(
            title,
            CheckStatus::Warn,
            "офисных сетей не настроено ни одной — режим auto всегда будет считать, \
             что мы вне офиса, и трафик пойдёт напрямую, минуя прокси. Добавьте хотя \
             бы одну сеть в настройках.".to_owned(),
        )
    } else {
        let mut detail = "настроено офисных сетей: ".to_owned();
        detail.append(decimal_text(cfg.office_networks.len() as u64).as_str());
        check(title, CheckStatus::Good, detail)
    }
}

/// What the program does not manage. Said always, not only when something looks
/// broken.
pub open spec fn coverage_gap() -> CheckView {
    check_of(TITLE_COVERAGE_GAP@, CheckStatus::Warn, COVERAGE_GAP@)
}

fn coverage_gap_warning() -> (out: Check)
    ensures
        out@ == coverage_gap(),
{
    check(TITLE_COVERAGE_GAP, CheckStatus::Warn, COVERAGE_GAP.to_owned())
}

// ---------------------------------------------------------------------------
// The list
// ---------------------------------------------------------------------------

/// The diagnostics, from the most frequent complaint to the quietest.
pub open spec fn diagnostics(
    cfg: ConfigView,
    state: AppState,
    listening_now: bool,
    port_was_free: bool,
    sysproxy: Result<SysProxyView, Seq<char>>,
) -> Seq<CheckView> {
    seq![
        bridge_check(state.port, listening_now),
        sysproxy_check(cfg.manage_system_proxy, state.port, sysproxy),
        stale_check(state.port, port_was_free, sysproxy),
        upstreams_check(cfg, state),
        network_check(cfg.mode, state),
        offices_check(cfg.mode, cfg.office_networks.len()),
        coverage_gap(),
    ]
}

/// Puts the facts together into the list of checks.
///
/// `bridge_listening_now` is about this moment; `port_was_free_before_bind` is
/// about the moment before the port was taken. `sysproxy` is what the system
/// said before its settings were taken over.
pub fn run_checks(
    cfg: &Config,
    state: &AppState,
    bridge_listening_now: bool,
    port_was_free_before_bind: bool,
    sysproxy: &Result<SysProxy, String>,
) -> (out: Vec<Check>)
    ensures
        checks_in(out@) == diagnostics(
            cfg@,
            *state,
            bridge_listening_now,
            port_was_free_before_bind,
            reading(*sysproxy),
        ),
{
    let mut out: Vec<Check> = Vec::new();
    out.push(check_bridge_listening(state, bridge_listening_now));
    out.push(check_sysproxy_points_at_us(cfg, state, sysproxy));
    out.push(check_stale_pointer_without_bridge(state, port_was_free_before_bind, sysproxy));
    out.push(check_upstreams(cfg, state));
    out.push(check_network_recognised(cfg, state));
    out.push(check_office_networks_configured(cfg));
    out.push(coverage_gap_warning());
    assert(checks_in(out@) =~= diagnostics(
        cfg@,
        *state,
        bridge_listening_now,
        port_was_free_before_bind,
        reading(*sysproxy),
    ));
    out
}

// ---------------------------------------------------------------------------
// The log
// ---------------------------------------------------------------------------

/// How loud a line of the log is.
#[derive(Debug, Clone, Copy, PartialEq, Eq, Structural)]
pub enum Level {
    Debug,
    Warn,
    Error,
}

/// What goes to the log: how many checks there are and how many of them failed
/// or warn, then how loud each of them is, in order.
#[derive(Debug, PartialEq, Eq)]
pub struct DiagnosticsLog {
    pub total: usize,
    pub warnings: usize,
    pub failures: usize,
    pub levels: Vec<Level>,
}

/// How many checks have this status.
pub open spec fn count_of(checks: Seq<CheckView>, status: CheckStatus) -> nat
    decreases checks.len(),
{
    if checks.len() == 0 {
        0
    } else if checks.last().status == status {
        count_of(checks.drop_last(), status) + 1
    } else {
        count_of(checks.drop_last(), status)
    }
}

/// Quiet where all is well, loud where it is not.
pub open spec fn level_of(status: CheckStatus) -> Level {
    match status {
        CheckStatus::Good => Level::Debug,
        CheckStatus::Warn => Level::Warn,
        CheckStatus::Fail => Level::Error,
    }
}

/// Prepares what goes to the log.
pub fn log_diagnostics(checks: &Vec<Check>) -> (out: DiagnosticsLog)
    ensures
        out.total == checks@.len(),
        out.warnings == count_of(checks_in(checks@), CheckStatus::Warn),
        out.failures == count_of(checks_in(checks@), CheckStatus::Fail),
        out.levels@ == checks_in(checks@).map_values(|c: CheckView| level_of(c.status)),
{
    let ghost all = checks_in(checks@);
    let mut warnings: usize = 0;
    let mut failures: usize = 0;
    let mut levels: Vec<Level> = Vec::new();
    let mut i: usize = 0;
    while i < checks.len()
        invariant
            i <= checks@.len(),
            all == checks_in(checks@),
            warnings <= i,
            failures <= i,
            warnings == count_of(all.take(i as int), CheckStatus::Warn),
            failures == count_of(all.take(i as int), CheckStatus::Fail),
            levels@.len() == i,
            forall|k: int| 0 <= k < i ==> levels@[k] == level_of((#[trigger] all[k]).status),
        decreases checks.len() - i,
    {
        assert(all.take(i + 1).drop_last() =~= all.take(i as int));
        assert(all.take(i + 1).last() == checks@[i as int]@);
        match checks[i].status {
            CheckStatus::Good => {
                levels.push(Level::Debug);
            },
            CheckStatus::Warn => {
                warnings += 1;
                levels.push(Level::Warn);
            },
            CheckStatus::Fail => {
                failures += 1;
                levels.push(Level::Error);
            },
        }
        i += 1;
    }
    assert(all.take(i as int) =~= all);
    assert(levels@ =~= all.map_values(|c: CheckView| level_of(c.status)));
    DiagnosticsLog { total: checks.len(), warnings, failures, levels }
}

// ---------------------------------------------------------------------------
// Laws
// ---------------------------------------------------------------------------

/// Seven lines come back every time, and the last one is always the warning on
/// what the program does not manage.
pub proof fn seven_lines_come_back_every_time(
    cfg: ConfigView,
    state: AppState,
    listening_now: bool,
    port_was_free: bool,
    sysproxy: Result<SysProxyView, Seq<char>>,
)
    ensures
        ({
            let checks = diagnostics(cfg, state, listening_now, port_was_free, sysproxy);
            checks.len() == 7 && checks[6] == coverage_gap()
        }),
{
}

/// A reading that failed is reported as a failure at most once.
pub proof fn a_failed_reading_is_one_failure(
    cfg: ConfigView,
    state: AppState,
    listening_now: bool,
    port_was_free: bool,
    why: Seq<char>,
)
    ensures
        ({
            let checks = diagnostics(cfg, state, listening_now, port_was_free, Err(why));
            &&& checks[1].status == CheckStatus::Fail <==> cfg.manage_system_proxy
            &&& checks[2].status == CheckStatus::Warn
        }),
{
}

/// In a mode that is pinned the network matters neither to the route nor to the
/// checks.
pub proof fn a_pinned_mode_is_not_bothered_with_networks(
    cfg: ConfigView,
    state: AppState,
    listening_now: bool,
    port_was_free: bool,
    sysproxy: Result<SysProxyView, Seq<char>>,
)
    requires
        cfg.mode != Mode::Auto,
    ensures
        ({
            let checks = diagnostics(cfg, state, listening_now, port_was_free, sysproxy);
            checks[4].status == CheckStatus::Good && checks[5].status == CheckStatus::Good
        }),
{
}

proof fn lemma_views(v: Vec<Check>, seen: Seq<CheckView>)
    requires
        checks_in(v@) == seen,
    ensures
        v@.len() == seen.len(),
        forall|i: int|
            0 <= i < v@.len() ==> (#[trigger] v@[i]).title@ == seen[i].title && v@[i].status
                == seen[i].status && v@[i].detail@ == seen[i].detail,
{
    assert(v@.len() == checks_in(v@).len());
    assert forall|i: int| 0 <= i < v@.len() implies (#[trigger] v@[i]).title@ == seen[i].title
        && v@[i].status == seen[i].status && v@[i].detail@ == seen[i].detail by {
        assert(checks_in(v@)[i] == v@[i]@);
    }
}

/// An upstream that is set and does not answer is a failure, whichever of the
/// two it is, and only that is one. All is well only where every upstream that is
/// set answers. What is known of an upstream that is not set does not matter.
pub proof fn a_dead_upstream_is_a_failure(
    cfg: &Config,
    state: &AppState,
    listening: bool,
    port_was_free: bool,
    sysproxy: &Result<SysProxy, String>,
    out: Vec<Check>,
)
    requires
        call_ensures(run_checks, (cfg, state, listening, port_was_free, sysproxy), out),
    ensures
        ({
            let check = out@[3];
            let (socks, http) = (cfg.socks_upstream, cfg.http_upstream);
            let socks_dead = socks is Some && state.health.socks == Reachability::Down;
            let http_dead = http is Some && state.health.http == Reachability::Down;
            let socks_fine = socks is None || state.health.socks == Reachability::Up;
            let http_fine = http is None || state.health.http == Reachability::Up;
            &&& check.status == CheckStatus::Fail <==> socks_dead || http_dead
            &&& check.status == CheckStatus::Good <==> socks_fine && http_fine
        }),
{
    lemma_views(
        out,
        diagnostics(cfg@, *state, listening, port_was_free, reading(*sysproxy)),
    );
}

/// The check names each upstream that does not answer, with its address, and where
/// none is dead each one that was not probed yet.
pub proof fn a_dead_upstream_is_named(
    cfg: &Config,
    state: &AppState,
    listening: bool,
    port_was_free: bool,
    sysproxy: &Result<SysProxy, String>,
    out: Vec<Check>,
)
    requires
        call_ensures(run_checks, (cfg, state, listening, port_was_free, sysproxy), out),
    ensures
        ({
            let check = out@[3];
            let (socks, http) = (cfg.socks_upstream, cfg.http_upstream);
            let socks_dead = socks is Some && state.health.socks == Reachability::Down;
            let http_dead = http is Some && state.health.http == Reachability::Down;
            let socks_fine = socks is None || state.health.socks == Reachability::Up;
            let http_fine = http is None || state.health.http == Reachability::Up;
            &&& socks_dead && !http_dead ==> ("SOCKS "@ + socks->0@
                + " не отвечает."@).is_prefix_of(check.detail@)
            &&& http_dead && !socks_dead ==> ("HTTP "@ + http->0@
                + " не отвечает."@).is_prefix_of(check.detail@)
            &&& socks_dead && http_dead ==> ("SOCKS "@ + socks->0@ + " не отвечает; HTTP "@
                + http->0@ + " не отвечает."@).is_prefix_of(check.detail@)
            &&& check.status == CheckStatus::Warn && !socks_fine && http_fine ==> ("SOCKS "@
                + socks->0@ + " ещё не проверен"@).is_prefix_of(check.detail@)
            &&& check.status == CheckStatus::Warn && !http_fine && socks_fine ==> ("HTTP "@
                + http->0@ + " ещё не проверен"@).is_prefix_of(check.detail@)
            &&& check.status == CheckStatus::Warn && !http_fine && !socks_fine ==> ("SOCKS "@
                + socks->0@ + " ещё не проверен; HTTP "@ + http->0@
                + " ещё не проверен"@).is_prefix_of(check.detail@)
        }),
{
    let check = out@[3];
    let (socks, http) = (cfg.socks_upstream, cfg.http_upstream);
    lemma_views(
        out,
        diagnostics(cfg@, *state, listening, port_was_free, reading(*sysproxy)),
    );
    let dead = upstream_lines(
        "SOCKS"@,
        cfg@.socks_upstream,
        state.health.socks,
        Reachability::Down,
        " не отвечает"@,
    ) + upstream_lines(
        "HTTP"@,
        cfg@.http_upstream,
        state.health.http,
        Reachability::Down,
        " не отвечает"@,
    );
    let unchecked = upstream_lines(
        "SOCKS"@,
        cfg@.socks_upstream,
        state.health.socks,
        Reachability::Unknown,
        " ещё не проверен"@,
    ) + upstream_lines(
        "HTTP"@,
        cfg@.http_upstream,
        state.health.http,
        Reachability::Unknown,
        " ещё не проверен"@,
    );
    lemma_two_lines(dead);
    lemma_two_lines(unchecked);
    reveal_strlit("SOCKS");
    reveal_strlit("HTTP");
    reveal_strlit(" ");
    reveal_strlit("SOCKS ");
    reveal_strlit("HTTP ");
    reveal_strlit("; ");
    reveal_strlit(" не отвечает");
    reveal_strlit(" не отвечает.");
    reveal_strlit(" не отвечает; HTTP ");
    reveal_strlit(" ещё не проверен");
    reveal_strlit(" ещё не проверен; HTTP ");
    assert("SOCKS "@ =~= "SOCKS"@ + " "@);
    assert("HTTP "@ =~= "HTTP"@ + " "@);
    let advice = ". Проверьте сеть до апстрима и не блокирует ли его файрвол — \
                 жалобы «медленно» и «не грузится» почти всегда об этом."@;
    assert(advice.len() > 0 && advice[0] == '.') by {
        reveal_strlit(
            ". Проверьте сеть до апстрима и не блокирует ли его файрвол — \
                 жалобы «медленно» и «не грузится» почти всегда об этом.",
        );
    }
    assert(" не отвечает."@ =~= " не отвечает"@ + seq!['.']);
    assert(" не отвечает; HTTP "@ =~= " не отвечает"@ + "; "@ + "HTTP "@);
    assert(" ещё не проверен; HTTP "@ =~= " ещё не проверен"@ + "; "@ + "HTTP "@);
    if dead.len() > 0 {
        let head = joined(dead, "; "@) + seq!['.'];
        assert(head =~= check.detail@.subrange(0, head.len() as int));
        if dead.len() == 2 {
            assert(head =~= "SOCKS "@ + socks->0@ + " не отвечает; HTTP "@ + http->0@
                + " не отвечает."@);
        } else if socks is Some && state.health.socks == Reachability::Down {
            assert(head =~= "SOCKS "@ + socks->0@ + " не отвечает."@);
        } else {
            assert(head =~= "HTTP "@ + http->0@ + " не отвечает."@);
        }
    } else if unchecked.len() > 0 {
        let head = joined(unchecked, "; "@);
        assert(head =~= check.detail@.subrange(0, head.len() as int));
        if unchecked.len() == 2 {
            assert(head =~= "SOCKS "@ + socks->0@ + " ещё не проверен; HTTP "@ + http->0@
                + " ещё не проверен"@);
        } else if socks is Some && state.health.socks == Reachability::Unknown {
            assert(head =~= "SOCKS "@ + socks->0@ + " ещё не проверен"@);
        } else {
            assert(head =~= "HTTP "@ + http->0@ + " ещё не проверен"@);
        }
    }
}

proof fn lemma_two_lines(lines: Seq<Seq<char>>)
    requires
        lines.len() <= 2,
    ensures
        lines.len() == 1 ==> joined(lines, "; "@) == lines[0],
        lines.len() == 2 ==> joined(lines, "; "@) == lines[0] + "; "@ + lines[1],
{
    if lines.len() == 2 {
        assert(joined(lines.drop_last(), "; "@) == lines[0]);
    }
}

/// What each of the other checks comes to, in terms of what was seen: the bridge,
/// the settings of the system, the address that was left behind, the network and
/// the office networks. `ours` is whether the settings send traffic to our port.
pub proof fn each_check_judges_what_was_seen(
    cfg: &Config,
    state: &AppState,
    listening: bool,
    port_was_free: bool,
    sysproxy: &Result<SysProxy, String>,
    ours: bool,
    out: Vec<Check>,
)
    requires
        call_ensures(run_checks, (cfg, state, listening, port_was_free, sysproxy), out),
        sysproxy matches Ok(settings) ==> call_ensures(
            is_stale_pointer,
            (&settings, state.port),
            ours,
        ),
    ensures
        out@.len() == 7,
        out@[0].status == (if listening {
            CheckStatus::Good
        } else {
            CheckStatus::Fail
        }),
        out@[1].status == (if !cfg.manage_system_proxy {
            CheckStatus::Good
        } else if sysproxy is Err {
            CheckStatus::Fail
        } else if ours {
            CheckStatus::Good
        } else {
            CheckStatus::Warn
        }),
        out@[2].status == (if sysproxy is Err {
            CheckStatus::Warn
        } else if ours && port_was_free {
            CheckStatus::Fail
        } else {
            CheckStatus::Good
        }),
        out@[4].status == (if cfg.mode != Mode::Auto || (state.place.network is Some
            && state.place.in_office) {
            CheckStatus::Good
        } else {
            CheckStatus::Warn
        }),
        out@[5].status == (if cfg.mode != Mode::Auto || cfg.office_networks@.len() > 0 {
            CheckStatus::Good
        } else {
            CheckStatus::Warn
        }),
        out@[6].status == CheckStatus::Warn,
        cfg.mode == Mode::Auto && cfg.office_networks@.len() > 0 ==> out@[5].detail@
            == "настроено офисных сетей: "@ + decimal(cfg.office_networks@.len()),
        listening ==> out@[0].detail@ == "мост принимает соединения на 127.0.0.1:"@ + decimal(
            state.port as nat,
        ),
{
    lemma_views(
        out,
        diagnostics(cfg@, *state, listening, port_was_free, reading(*sysproxy)),
    );
}

/// The lines come in this order, whatever they say.
pub proof fn the_lines_come_in_one_order(
    cfg: &Config,
    state: &AppState,
    listening: bool,
    port_was_free: bool,
    sysproxy: &Result<SysProxy, String>,
    out: Vec<Check>,
)
    requires
        call_ensures(run_checks, (cfg, state, listening, port_was_free, sysproxy), out),
    ensures
        out@[0].title@ == "Мост слушает свой порт"@,
        out@[1].title@ == "Системный прокси указывает на нас"@,
        out@[2].title@ == "В реестре наш адрес, но моста нет"@,
        out@[3].title@ == "Апстримы отвечают"@,
        out@[4].title@ == "Текущая сеть опознана"@,
        out@[5].title@ == "Настроены офисные сети"@,
        out@[6].title@ == "Что не входит в наше управление"@,
{
    lemma_views(
        out,
        diagnostics(cfg@, *state, listening, port_was_free, reading(*sysproxy)),
    );
}

proof fn lemma_count(checks: Seq<Check>, status: CheckStatus)
    ensures
        count_of(checks_in(checks), status) == checks.filter(
            |c: Check| c.status == status,
        ).len(),
    decreases checks.len(),
{
    reveal(Seq::filter);
    if checks.len() > 0 {
        lemma_count(checks.drop_last(), status);
        assert(checks_in(checks).drop_last() =~= checks_in(checks.drop_last()));
        assert(checks_in(checks).last() == checks.last()@);
    } else {
        assert(checks.filter(|c: Check| c.status == status).len() == 0);
    }
}

/// The log counts every check, every warning and every failure, and it is the
/// louder the worse a check is.
pub proof fn the_log_counts_what_is_wrong(checks: &Vec<Check>, out: DiagnosticsLog)
    requires
        call_ensures(log_diagnostics, (checks,), out),
    ensures
        out.total == checks@.len(),
        out.warnings == checks@.filter(|c: Check| c.status == CheckStatus::Warn).len(),
        out.failures == checks@.filter(|c: Check| c.status == CheckStatus::Fail).len(),
        out.levels@.len() == checks@.len(),
        forall|i: int|
            0 <= i < checks@.len() ==> {
                &&& #[trigger] checks@[i].status == CheckStatus::Fail <==> out.levels@[i]
                    == Level::Error
                &&& checks@[i].status == CheckStatus::Warn <==> out.levels@[i] == Level::Warn
                &&& checks@[i].status == CheckStatus::Good <==> out.levels@[i] == Level::Debug
            },
{
    lemma_count(checks@, CheckStatus::Warn);
    lemma_count(checks@, CheckStatus::Fail);
    assert forall|i: int| 0 <= i < checks@.len() implies checks_in(checks@)[i] == #[trigger] checks@[i]@ by {}
}

/// What the checks say names what was seen: the port, the settings of the system, the
/// reason of a failed reading, the network, the mode that was chosen by hand.
pub proof fn each_check_names_what_was_seen(
    cfg: &Config,
    state: &AppState,
    listening: bool,
    port_was_free: bool,
    sysproxy: &Result<SysProxy, String>,
    out: Vec<Check>,
)
    requires
        call_ensures(run_checks, (cfg, state, listening, port_was_free, sysproxy), out),
    ensures
        ({
            let address = "127.0.0.1:"@ + decimal(state.port as nat);
            let pinned = if cfg.mode == Mode::Socks {
                "Socks"@
            } else if cfg.mode == Mode::Http {
                "Http"@
            } else {
                "Direct"@
            };
            let name = match state.place.network_name {
                Some(n) => n@,
                None => "?"@,
            };
            &&& !listening ==> begins(out@[0].detail@, "не удалось подключиться к "@ + address + ": "@)
            &&& cfg.manage_system_proxy && sysproxy is Err ==> out@[1].detail@
                == "не удалось прочитать системные настройки прокси: "@ + sysproxy->Err_0@
            &&& out@[1].status == CheckStatus::Warn ==> begins(
                out@[1].detail@,
                "сейчас в системе: включён="@ + (if sysproxy->Ok_0.enabled {
                    "true"@
                } else {
                    "false"@
                }) + ", адрес=«"@ + sysproxy->Ok_0.server@ + "»; ожидали "@ + address,
            )
            &&& out@[2].status == CheckStatus::Fail ==> begins(
                out@[2].detail@,
                "в реестре указан наш адрес ("@ + address + "), но мост не отвечает"@,
            )
            &&& cfg.mode != Mode::Auto ==> begins(
                out@[4].detail@,
                "режим закреплён вручную ("@ + pinned + ")"@,
            ) && begins(out@[5].detail@, "режим закреплён вручную ("@ + pinned + ")"@)
            &&& cfg.mode == Mode::Auto && state.place.network is Some && state.place.in_office
                ==> out@[4].detail@ == "опознана как офисная: "@ + name
            &&& cfg.mode == Mode::Auto && state.place.network is Some && !state.place.in_office
                ==> begins(out@[4].detail@, "текущая сеть «"@ + name + "»"@)
        }),
{
    lemma_views(
        out,
        diagnostics(cfg@, *state, listening, port_was_free, reading(*sysproxy)),
    );
    lemma_bridge_detail(state.port);
    if let Ok(settings) = sysproxy {
        lemma_settings_detail(state.port, settings.enabled, settings.server@);
    }
    lemma_stale_detail(state.port);
    lemma_pinned_detail(cfg.mode);
    lemma_network_detail(name_or_question(state.place.network_name));
}

/// The text begins so.
pub open spec fn begins(text: Seq<char>, start: Seq<char>) -> bool {
    start.is_prefix_of(text)
}

proof fn lemma_begins(start: Seq<char>, rest: Seq<char>)
    ensures
        begins(start + rest, start),
{
    assert(start =~= (start + rest).subrange(0, start.len() as int));
}

proof fn lemma_bridge_detail(port: u16)
    ensures
        begins(
            bridge_check(port, false).detail,
            "не удалось подключиться к "@ + ("127.0.0.1:"@ + decimal(port as nat)) + ": "@,
        ),
{
    let number = decimal(port as nat);
    let rest =
        ": мост не отвечает. \
                 Перезапустите ProxyPilot — до перезапуска ни одно приложение, \
                 использующее этот прокси, не выйдет в сеть."@;
    assert(rest =~= ": "@ + rest.skip(2)) by {
        reveal_strlit(
            ": мост не отвечает. \
                 Перезапустите ProxyPilot — до перезапуска ни одно приложение, \
                 использующее этот прокси, не выйдет в сеть.",
        );
        reveal_strlit(": ");
    }
    lemma_address("не удалось подключиться к "@, "не удалось подключиться к 127.0.0.1:"@, number);
    let start = "не удалось подключиться к "@ + ("127.0.0.1:"@ + number) + ": "@;
    lemma_begins(start, rest.skip(2));
    assert(bridge_check(port, false).detail =~= start + rest.skip(2));
}

/// The address of the bridge behind a text.
proof fn lemma_address(before: Seq<char>, whole: Seq<char>, number: Seq<char>)
    requires
        ({
            ||| before == "не удалось подключиться к "@ && whole
                == "не удалось подключиться к 127.0.0.1:"@
            ||| before == "»; ожидали "@ && whole == "»; ожидали 127.0.0.1:"@
            ||| before == "в реестре указан наш адрес ("@ && whole
                == "в реестре указан наш адрес (127.0.0.1:"@
        }),
    ensures
        whole == before + "127.0.0.1:"@,
        whole + number == before + ("127.0.0.1:"@ + number),
{
    reveal_strlit("127.0.0.1:");
    reveal_strlit("не удалось подключиться к ");
    reveal_strlit("не удалось подключиться к 127.0.0.1:");
    reveal_strlit("»; ожидали ");
    reveal_strlit("»; ожидали 127.0.0.1:");
    reveal_strlit("в реестре указан наш адрес (");
    reveal_strlit("в реестре указан наш адрес (127.0.0.1:");
    assert(whole =~= before + "127.0.0.1:"@);
    assert(before + "127.0.0.1:"@ + number =~= before + ("127.0.0.1:"@ + number));
}

proof fn lemma_settings_detail(port: u16, enabled: bool, server: Seq<char>)
    ensures
        begins(
            "сейчас в системе: включён="@ + yes_no(enabled) + ", адрес=«"@ + server
                + "»; ожидали 127.0.0.1:"@ + decimal(port as nat)
                + ". \
                         Похоже, настройки поправили вручную или их сбросила групповая \
                         политика — переключите режим в трее, чтобы ProxyPilot \
                         восстановил свой адрес."@,
            "сейчас в системе: включён="@ + yes_no(enabled) + ", адрес=«"@ + server
                + "»; ожидали "@ + ("127.0.0.1:"@ + decimal(port as nat)),
        ),
{
    let number = decimal(port as nat);
    lemma_address("»; ожидали "@, "»; ожидали 127.0.0.1:"@, number);
    let x = "сейчас в системе: включён="@ + yes_no(enabled) + ", адрес=«"@ + server;
    let rest =
        ". \
                         Похоже, настройки поправили вручную или их сбросила групповая \
                         политика — переключите режим в трее, чтобы ProxyPilot \
                         восстановил свой адрес."@;
    let start = x + "»; ожидали "@ + ("127.0.0.1:"@ + number);
    assert(x + "»; ожидали 127.0.0.1:"@ + number =~= start);
    lemma_begins(start, rest);
}

proof fn lemma_stale_detail(port: u16)
    ensures
        begins(
            "в реестре указан наш адрес (127.0.0.1:"@ + decimal(port as nat)
                + "), но мост не отвечает — \
                         похоже, предыдущий процесс ProxyPilot был завершён аварийно и не \
                         успел вернуть настройки. Сеть, скорее всего, не работает у всех \
                         приложений, читающих системные настройки прокси. Запустите \
                         ProxyPilot заново; если он уже показывает иконку в трее — \
                         перезапустите его."@,
            "в реестре указан наш адрес ("@ + ("127.0.0.1:"@ + decimal(port as nat))
                + "), но мост не отвечает"@,
        ),
{
    let number = decimal(port as nat);
    lemma_address(
        "в реестре указан наш адрес ("@,
        "в реестре указан наш адрес (127.0.0.1:"@,
        number,
    );
    let rest =
        "), но мост не отвечает — \
                         похоже, предыдущий процесс ProxyPilot был завершён аварийно и не \
                         успел вернуть настройки. Сеть, скорее всего, не работает у всех \
                         приложений, читающих системные настройки прокси. Запустите \
                         ProxyPilot заново; если он уже показывает иконку в трее — \
                         перезапустите его."@;
    let word = "), но мост не отвечает"@;
    let n = word.len() as int;
    assert(rest =~= word + rest.skip(n)) by {
        reveal_strlit(
            "), но мост не отвечает — \
                         похоже, предыдущий процесс ProxyPilot был завершён аварийно и не \
                         успел вернуть настройки. Сеть, скорее всего, не работает у всех \
                         приложений, читающих системные настройки прокси. Запустите \
                         ProxyPilot заново; если он уже показывает иконку в трее — \
                         перезапустите его.",
        );
        reveal_strlit("), но мост не отвечает");
    }
    let x = "в реестре указан наш адрес ("@ + ("127.0.0.1:"@ + number);
    lemma_begins(x + word, rest.skip(n));
    assert(x + rest =~= x + word + rest.skip(n));
}

proof fn lemma_pinned_detail(mode: Mode)
    ensures
        begins(
            "режим закреплён вручную ("@ + mode_word(mode)
                + ") — место сети на маршрут не влияет"@,
            "режим закреплён вручную ("@ + mode_word(mode) + ")"@,
        ),
        begins(
            "режим закреплён вручную ("@ + mode_word(mode)
                + ") — список офисных сетей сейчас не используется"@,
            "режим закреплён вручную ("@ + mode_word(mode) + ")"@,
        ),
{
    let x = "режим закреплён вручную ("@ + mode_word(mode);
    let (a, b) = (
        ") — место сети на маршрут не влияет"@,
        ") — список офисных сетей сейчас не используется"@,
    );
    assert(a =~= ")"@ + a.skip(1) && b =~= ")"@ + b.skip(1)) by {
        reveal_strlit(") — место сети на маршрут не влияет");
        reveal_strlit(") — список офисных сетей сейчас не используется");
        reveal_strlit(")");
    }
    lemma_begins(x + ")"@, a.skip(1));
    lemma_begins(x + ")"@, b.skip(1));
    assert(x + a =~= x + ")"@ + a.skip(1));
    assert(x + b =~= x + ")"@ + b.skip(1));
}

proof fn lemma_network_detail(name: Seq<char>)
    ensures
        begins(
            "текущая сеть «"@ + name + "» не входит в список офисных — режим auto уходит \
                 напрямую, минуя прокси. Если это офисная сеть, добавьте её в \
                 настройках."@,
            "текущая сеть «"@ + name + "»"@,
        ),
{
    let x = "текущая сеть «"@ + name;
    let rest =
        "» не входит в список офисных — режим auto уходит \
                 напрямую, минуя прокси. Если это офисная сеть, добавьте её в \
                 настройках."@;
    assert(rest =~= "»"@ + rest.skip(1)) by {
        reveal_strlit(
            "» не входит в список офисных — режим auto уходит \
                 напрямую, минуя прокси. Если это офисная сеть, добавьте её в \
                 настройках.",
        );
        reveal_strlit("»");
    }
    lemma_begins(x + "»"@, rest.skip(1));
    assert(x + rest =~= x + "»"@ + rest.skip(1));
}

} // verus!
