//! The settings page: escaping, the form, the page and its buttons.

use std::sync::Mutex;

use proxypilot::doctor::{Check, CheckStatus};
use proxypilot::model::{
    AppState, Config, Health, Mode, OfficeNetwork, Place, Reachability, Route, SysProxy,
};
use proxypilot::settings_page::actions::{
    after_call, after_validation, apply, apply_autostart, autostart_note, handle_post, live_checks,
    live_config, raise_tunnel, render, requested_config, ApplyReply, Autostart, AutostartPending,
    AutostartPlan, PostStep, RaisePlan, SaveStep, SettingsState, TunnelCall, TunnelPending,
};
use proxypilot::settings_page::form::{config_from_form, decode, Form};
use proxypilot::settings_page::page::{Note, Outcome};
use proxypilot::settings_page::parts::{
    bench_table, escape_html, tunnel_section, BenchReport, BenchResult,
};
use proxypilot::tray::tunnel_text;
use proxypilot::tunnel::{Tunnel, TunnelSnapshot};

fn default_config() -> Config {
    Config {
        bridge_port: 3129,
        mode: Mode::Auto,
        socks_upstream: None,
        http_upstream: None,
        no_proxy: String::new(),
        manage_system_proxy: true,
        office_networks: vec![],
        office_subnets: vec![],
        automate_tunnel: false,
        check_for_updates: true,
        saved_sysproxy: None,
        max_connections: 512,
        dial_timeout_ms: 5000,
        head_timeout_ms: 10000,
    }
}

fn base() -> Config {
    Config {
        bridge_port: 3129,
        mode: Mode::Socks,
        socks_upstream: Some("203.0.113.10:9999".into()),
        max_connections: 77,
        saved_sysproxy: Some(SysProxy {
            enabled: true,
            server: "было.example:3128".into(),
            bypass: "<local>".into(),
        }),
        ..default_config()
    }
}

struct FakeAutostart {
    enabled: Mutex<bool>,
    fail_set: bool,
}

impl FakeAutostart {
    fn new(enabled: bool) -> Self {
        Self {
            enabled: Mutex::new(enabled),
            fail_set: false,
        }
    }

    fn failing_to_set(enabled: bool) -> Self {
        Self {
            enabled: Mutex::new(enabled),
            fail_set: true,
        }
    }
}

impl Autostart for FakeAutostart {
    fn is_enabled(&self) -> Result<bool, String> {
        Ok(*self.enabled.lock().unwrap())
    }

    fn set(&self, on: bool) -> Result<(), String> {
        if self.fail_set {
            return Err("тестовый отказ записи в реестр".to_string());
        }
        *self.enabled.lock().unwrap() = on;
        Ok(())
    }
}

struct FakeTunnel {
    snapshot: TunnelSnapshot,
    build_result: Result<(), String>,
    raise_result: Result<(), String>,
    lower_result: Result<(), String>,
    install_result: Result<(), String>,
}

impl FakeTunnel {
    fn new(snapshot: TunnelSnapshot) -> Self {
        Self {
            snapshot,
            build_result: Ok(()),
            raise_result: Ok(()),
            lower_result: Ok(()),
            install_result: Ok(()),
        }
    }

    fn failing_to_build(snapshot: TunnelSnapshot, err: &str) -> Self {
        Self {
            build_result: Err(err.to_string()),
            ..Self::new(snapshot)
        }
    }
}

impl Tunnel for FakeTunnel {
    fn snapshot(&self, _office_subnets: &Vec<String>, _profile_name: &str) -> TunnelSnapshot {
        self.snapshot.clone()
    }
    fn build_profile(
        &self,
        _profile_name: &str,
        _office_subnets: &Vec<String>,
    ) -> Result<(), String> {
        self.build_result.clone()
    }
    fn raise(&self, _profile_name: &str) -> Result<(), String> {
        self.raise_result.clone()
    }
    fn lower(&self, _profile_name: &str) -> Result<(), String> {
        self.lower_result.clone()
    }
    fn install_service(&self) -> Result<(), String> {
        self.install_result.clone()
    }
}

fn state_with(app: AppState, cfg: Config) -> SettingsState<AutostartPending, FakeTunnel> {
    state_with_autostart(app, cfg, AutostartPending)
}

fn state_with_autostart<A: Autostart>(
    app: AppState,
    config: Config,
    autostart: A,
) -> SettingsState<A, FakeTunnel> {
    SettingsState {
        app,
        config,
        bound_port: 3129,
        autostart,
        tunnel: FakeTunnel::new(TunnelSnapshot::default()),
    }
}

fn state_with_tunnel(
    app: AppState,
    config: Config,
    tunnel: FakeTunnel,
) -> SettingsState<AutostartPending, FakeTunnel> {
    SettingsState {
        app,
        config,
        bound_port: 3129,
        autostart: AutostartPending,
        tunnel,
    }
}

fn post<A: Autostart, T: Tunnel>(state: &SettingsState<A, T>, body: &[u8]) -> String {
    let outcome = match handle_post(&state.config, &state.app.place, &Form::parse(body)) {
        PostStep::Show(outcome) => outcome,
        PostStep::Call(order) => after_call(&order, call(&state.tunnel, &order)),
        PostStep::Look {
            office_subnets,
            profile_name,
        } => match raise_tunnel(&state.tunnel.snapshot(&office_subnets, &profile_name)) {
            RaisePlan::Refuse(outcome) => outcome,
            RaisePlan::Raise(order) => after_call(&order, call(&state.tunnel, &order)),
        },
        other => panic!("{other:?}"),
    };
    render(state, Some(&outcome))
}

fn call<T: Tunnel>(tunnel: &T, order: &TunnelCall) -> Result<(), String> {
    match order {
        TunnelCall::BuildProfile {
            profile_name,
            office_subnets,
        } => tunnel.build_profile(profile_name, office_subnets),
        TunnelCall::Raise { profile_name } => tunnel.raise(profile_name),
        TunnelCall::Lower { profile_name } => tunnel.lower(profile_name),
        TunnelCall::InstallService => tunnel.install_service(),
    }
}

fn switch_autostart<A: Autostart>(autostart: &A, form: &Form) -> Option<Note> {
    match apply_autostart(&autostart.is_enabled(), form) {
        AutostartPlan::Nothing => None,
        AutostartPlan::Report(note) => Some(note),
        AutostartPlan::Switch(on) => Some(autostart_note(on, autostart.set(on))),
    }
}

fn form(body: &str) -> Form {
    Form::parse(body.as_bytes())
}

fn unchanged_body(port: u16) -> String {
    format!(
        "action=save&bridge_port={port}&socks_upstream=203.0.113.10%3A9999\
         &http_upstream=&no_proxy=localhost&manage_system_proxy=on"
    )
}

#[test]
fn html_metacharacters_are_escaped() {
    assert_eq!(
        escape_html("<script>alert(\"1\")</script>"),
        "&lt;script&gt;alert(&quot;1&quot;)&lt;/script&gt;"
    );
    assert_eq!(escape_html("a & b"), "a &amp; b");
    assert_eq!(escape_html("it's"), "it&#39;s");
    assert_eq!(escape_html("&lt;"), "&amp;lt;");
}

#[test]
fn a_form_is_parsed_with_percent_and_plus_decoding() {
    let f = form("a=1&b=%D0%9E%D1%84%D0%B8%D1%81&c=x+y&empty=&flag");
    assert_eq!(f.get("a"), Some("1"));
    assert_eq!(f.get("b"), Some("Офис"));
    assert_eq!(f.get("c"), Some("x y"));
    assert_eq!(f.get("empty"), Some(""));
    assert!(f.checked("flag"));
    assert!(!f.checked("missing"));
}

#[test]
fn repeated_fields_keep_their_order() {
    let f = form("office_id=A&office_name=Первая&office_id=B&office_name=Вторая");
    assert_eq!(f.all("office_id"), vec!["A", "B"]);
    assert_eq!(f.all("office_name"), vec!["Первая", "Вторая"]);
}

#[test]
fn the_form_does_not_touch_the_fields_it_does_not_own() {
    let b = base();
    let next = config_from_form(&b, &form(&unchanged_body(3129))).unwrap();
    assert_eq!(next.saved_sysproxy, b.saved_sysproxy);
    assert_eq!(next.mode, Mode::Socks);
    assert_eq!(next.max_connections, 77);
}

#[test]
fn saving_an_untouched_page_changes_nothing() {
    let b = Config {
        no_proxy: "localhost,*.local".into(),
        automate_tunnel: true,
        office_networks: vec![OfficeNetwork {
            id: "{A}".into(),
            name: "Офис на Ленина".into(),
        }],
        ..base()
    };
    let next = config_from_form(
        &b,
        &form(
            "socks_upstream=203.0.113.10%3A9999&http_upstream=&bridge_port=3129\
             &office_id=%7BA%7D&office_name=Офис+на+Ленина&office_id=&office_name=\
             &automate_tunnel=on&no_proxy=localhost%2C*.local\
             &manage_system_proxy=on&autostart=on&action=save",
        ),
    )
    .unwrap();
    assert_eq!(next.socks_upstream, b.socks_upstream);
    assert_eq!(next.http_upstream, b.http_upstream);
    assert_eq!(next.bridge_port, b.bridge_port);
    assert_eq!(next.office_networks, b.office_networks);
    assert_eq!(next.automate_tunnel, b.automate_tunnel);
    assert_eq!(next.no_proxy, b.no_proxy);
    assert_eq!(next.manage_system_proxy, b.manage_system_proxy);
    assert_eq!(next.mode, b.mode);
    assert_eq!(next.saved_sysproxy, b.saved_sysproxy);
}

#[test]
fn a_port_that_is_not_a_number_is_reported_not_swallowed() {
    let e = config_from_form(
        &base(),
        &form("action=save&bridge_port=abc&socks_upstream=&http_upstream=&no_proxy="),
    )
    .expect_err("«abc» — не порт");
    assert!(e.contains("abc"), "получили: {e}");
}

#[test]
fn the_live_config_keeps_the_port_the_bridge_is_bound_to() {
    let saved = Config {
        bridge_port: 3999,
        ..base()
    };
    let live = live_config(&saved, 3129);
    assert_eq!(live.bridge_port, 3129, "порт нельзя менять на лету");
    assert_eq!(
        live,
        Config {
            bridge_port: 3129,
            ..saved
        }
    );
}

#[test]
fn empty_office_rows_are_dropped() {
    let next = config_from_form(
        &base(),
        &form(
            "action=save&bridge_port=3129&socks_upstream=&http_upstream=&no_proxy=\
             &office_id=%7BA%7D&office_name=%D0%9E%D1%84%D0%B8%D1%81\
             &office_id=&office_name=",
        ),
    )
    .unwrap();
    assert_eq!(next.office_networks.len(), 1);
    assert_eq!(next.office_networks[0].id, "{A}");
    assert_eq!(next.office_networks[0].name, "Офис");
}

fn app_state(port: u16, network_name: Option<&str>) -> AppState {
    AppState {
        mode: Mode::Auto,
        route: Route::Direct,
        demoted: false,
        place: Place {
            in_office: false,
            network: Some("{NET-1}".into()),
            network_name: network_name.map(|s| s.to_string()),
        },
        health: Health {
            socks: Reachability::Up,
            http: Reachability::Down,
        },
        port,
    }
}

#[test]
fn the_page_shows_both_upstreams_with_their_availability() {
    let cfg = Config {
        socks_upstream: Some("203.0.113.10:9999".into()),
        http_upstream: Some("203.0.113.10:3128".into()),
        ..default_config()
    };
    let state = state_with(app_state(3129, Some("Офис")), cfg);
    let html = render(&state, None);
    assert!(html.contains("203.0.113.10:9999"), "нет адреса SOCKS5");
    assert!(html.contains("203.0.113.10:3128"), "нет адреса HTTP");
    assert!(html.contains("доступен"), "нет индикатора доступности");
    assert!(html.contains("недоступен"), "нет индикатора недоступности");
}

#[test]
fn everything_rendered_into_the_page_is_escaped() {
    let cfg = Config {
        no_proxy: "\"><script>alert(1)</script>".into(),
        socks_upstream: Some("<b>x</b>:1".into()),
        office_networks: vec![OfficeNetwork {
            id: "{<img src=x>}".into(),
            name: "Офис & Ко".into(),
        }],
        ..default_config()
    };
    let state = state_with(app_state(3129, Some("<script>alert('сеть')</script>")), cfg);
    let html = render(&state, None);
    assert!(
        !html.contains("<script>alert"),
        "неэкранированный скрипт в разметке"
    );
    assert!(!html.contains("<img src=x>"), "неэкранированный тег");
    assert!(html.contains("&lt;script&gt;"), "экранированного вида нет");
    assert!(html.contains("Офис &amp; Ко"), "амперсанд не экранирован");
}

#[test]
fn the_page_says_the_port_needs_a_restart() {
    let state = state_with(app_state(3129, None), default_config());
    let html = render(&state, None);
    assert!(
        html.contains("перезапуст"),
        "страница молчит о том, что порт применится только после перезапуска"
    );
}

#[test]
fn the_page_offers_the_office_button_only_when_a_network_is_known() {
    let with = state_with(app_state(3129, Some("Офис")), default_config());
    assert!(render(&with, None).contains("value=\"office\""));

    let mut unknown = app_state(3129, None);
    unknown.place.network = None;
    let without = state_with(unknown, default_config());
    assert!(
        !render(&without, None).contains("value=\"office\""),
        "нечего добавлять — кнопки быть не должно"
    );
}

#[test]
fn a_failed_route_is_shown_as_failed_not_omitted() {
    let outcome = Outcome {
        bench: Some(BenchReport {
            results: vec![
                BenchResult {
                    label: "Напрямую".into(),
                    bytes: 1_048_576,
                    speed_bps: Some(1_048_576),
                    error: None,
                },
                BenchResult {
                    label: "SOCKS5".into(),
                    bytes: 0,
                    speed_bps: None,
                    error: Some("<отказ набора>".into()),
                },
            ],
            best: Some("Напрямую".into()),
        }),
        ..Default::default()
    };
    let state = state_with(app_state(3129, None), default_config());
    let html = render(&state, Some(&outcome));
    assert!(html.contains("Напрямую"), "быстрый маршрут не показан");
    assert!(html.contains("SOCKS5"), "мёртвый маршрут пропущен");
    assert!(html.contains("быстрее прочих"), "победитель не отмечен");
    assert!(
        html.contains("&lt;отказ набора&gt;"),
        "ошибка не экранирована"
    );
    assert!(html.contains("1.00 МБ/с"), "скорость не показана: {html}");
}

#[test]
fn diagnostics_output_is_shown_in_place_and_escaped() {
    let outcome = Outcome {
        doctor: Some(vec![Check {
            title: "Мост слушает свой порт".into(),
            status: CheckStatus::Fail,
            detail: "не отвечает <b>вовсе</b>".into(),
        }]),
        ..Default::default()
    };
    let state = state_with(app_state(3129, None), default_config());
    let html = render(&state, Some(&outcome));
    assert!(html.contains("Мост слушает свой порт"));
    assert!(html.contains("не отвечает &lt;b&gt;вовсе&lt;/b&gt;"));
}

#[test]
fn the_autostart_toggle_says_it_is_not_wired_yet_instead_of_pretending() {
    let state = state_with(app_state(3129, None), default_config());
    let html = render(&state, None);
    assert!(html.contains("Запускать вместе с Windows"));
    assert!(html.contains("автозапуск ещё не подключён"), "тумблер врёт");
    assert!(html.contains("disabled"), "тумблер не заблокирован");
}

#[test]
fn the_autostart_toggle_reflects_a_working_enabled_state_without_being_disabled() {
    let state = state_with_autostart(
        app_state(3129, None),
        default_config(),
        FakeAutostart::new(true),
    );
    let html = render(&state, None);
    assert!(
        html.contains("<input type=\"checkbox\" name=\"autostart\" checked>"),
        "тумблер обязан быть отмечен и не задизейблен: {html}"
    );
    assert!(
        !html.contains("автозапуск ещё не подключён"),
        "рабочая реализация не должна показывать текст заглушки"
    );
}

#[test]
fn apply_autostart_does_nothing_when_the_checkbox_already_matches_reality() {
    let state = state_with_autostart(
        app_state(3129, None),
        default_config(),
        FakeAutostart::new(true),
    );
    let form = Form::parse(b"autostart=on");
    let note = switch_autostart(&state.autostart, &form);
    assert!(note.is_none(), "менять нечего — заметки быть не должно");
    assert!(
        state.autostart.is_enabled().unwrap(),
        "«менять нечего» не должно было ничего изменить"
    );
}

#[test]
fn apply_autostart_turns_it_on_and_reports_success() {
    let state = state_with_autostart(
        app_state(3129, None),
        default_config(),
        FakeAutostart::new(false),
    );
    let form = Form::parse(b"autostart=on");
    let note = switch_autostart(&state.autostart, &form).expect("изменение обязано дать заметку");
    assert!(!note.bad, "успешное изменение — не ошибка: {}", note.text);
    assert!(note.text.contains("включён"), "получили: {}", note.text);
    assert!(
        state.autostart.is_enabled().unwrap(),
        "set(true) обязан был реально сработать, а не только вернуть Ok"
    );
}

#[test]
fn apply_autostart_turns_it_off_and_reports_success() {
    let state = state_with_autostart(
        app_state(3129, None),
        default_config(),
        FakeAutostart::new(true),
    );
    let form = Form::parse(b""); // галочка снята
    let note = switch_autostart(&state.autostart, &form).expect("изменение обязано дать заметку");
    assert!(!note.bad, "успешное изменение — не ошибка: {}", note.text);
    assert!(note.text.contains("выключен"), "получили: {}", note.text);
    assert!(
        !state.autostart.is_enabled().unwrap(),
        "set(false) обязан был реально сработать, а не только вернуть Ok"
    );
}

#[test]
fn apply_autostart_reports_the_underlying_error_when_set_fails() {
    let state = state_with_autostart(
        app_state(3129, None),
        default_config(),
        FakeAutostart::failing_to_set(false),
    );
    let form = Form::parse(b"autostart=on");
    let note = switch_autostart(&state.autostart, &form).expect("отказ тоже обязан дать заметку");
    assert!(note.bad);
    assert!(
        note.text.contains("тестовый отказ записи"),
        "получили: {}",
        note.text
    );
}

#[test]
fn apply_autostart_says_nothing_when_state_is_unknown_and_the_box_stays_unchecked() {
    let state = state_with(app_state(3129, None), default_config());
    let form = Form::parse(b"");
    assert!(switch_autostart(&state.autostart, &form).is_none());
}

#[test]
fn apply_autostart_reports_when_state_is_unknown_and_the_box_is_checked() {
    let state = state_with(app_state(3129, None), default_config());
    let form = Form::parse(b"autostart=on");
    let note = switch_autostart(&state.autostart, &form).expect("человек ждёт результата");
    assert!(note.bad);
}

fn down_installed_snapshot() -> TunnelSnapshot {
    TunnelSnapshot {
        installed: true,
        profile_installed: true,
        our_tunnel_up: false,
        rising: false,
        liveness_error: None,
        foreign_tunnel_up: false,
        routes_error: None,
    }
}

#[test]
fn tunnel_section_explains_when_openvpn_is_not_installed() {
    let state = state_with_tunnel(
        app_state(3129, None),
        default_config(),
        FakeTunnel::new(TunnelSnapshot::default()),
    );
    let html = render(&state, None);
    assert!(html.contains("OpenVPN не найден"), "получили: {html}");
    assert!(!html.contains("value=\"raise_tunnel\""));
    assert!(!html.contains("value=\"build_tunnel_profile\""));
    assert!(!html.contains("value=\"install_service\""));
}

#[test]
fn tunnel_section_shows_a_down_tunnel_with_a_raise_button() {
    let state = state_with_tunnel(
        app_state(3129, None),
        default_config(),
        FakeTunnel::new(down_installed_snapshot()),
    );
    let html = render(&state, None);
    assert!(html.contains("Туннель опущен"), "получили: {html}");
    assert!(html.contains("value=\"raise_tunnel\""));
    assert!(!html.contains("value=\"lower_tunnel\""));
}

#[test]
fn tunnel_section_hides_the_raise_button_until_a_profile_is_built() {
    let snap = TunnelSnapshot {
        profile_installed: false,
        ..down_installed_snapshot()
    };
    let state = state_with_tunnel(
        app_state(3129, None),
        default_config(),
        FakeTunnel::new(snap),
    );
    let html = render(&state, None);
    assert!(!html.contains("value=\"raise_tunnel\""));
    assert!(
        html.contains("Сначала соберите профиль"),
        "получили: {html}"
    );
}

#[test]
fn tunnel_section_shows_our_tunnel_up_with_a_lower_button() {
    let snap = TunnelSnapshot {
        our_tunnel_up: true,
        ..down_installed_snapshot()
    };
    let state = state_with_tunnel(
        app_state(3129, None),
        default_config(),
        FakeTunnel::new(snap),
    );
    let html = render(&state, None);
    assert!(html.contains("Туннель поднят"), "получили: {html}");
    assert!(html.contains("value=\"lower_tunnel\""));
    assert!(!html.contains("value=\"raise_tunnel\""));
}

#[test]
fn tunnel_section_refuses_to_offer_raising_over_a_foreign_tunnel() {
    let snap = TunnelSnapshot {
        foreign_tunnel_up: true,
        ..down_installed_snapshot()
    };
    let state = state_with_tunnel(
        app_state(3129, None),
        default_config(),
        FakeTunnel::new(snap),
    );
    let html = render(&state, None);
    assert!(
        html.contains("уже несёт офисные подсети") || html.contains("занят"),
        "получили: {html}"
    );
    assert!(!html.contains("value=\"raise_tunnel\""));
    assert!(!html.contains("value=\"lower_tunnel\""));
}

#[test]
fn our_confirmed_up_tunnel_wins_over_a_misclassified_foreign_reading() {
    let snap = TunnelSnapshot {
        our_tunnel_up: true,
        foreign_tunnel_up: true,
        ..down_installed_snapshot()
    };
    let state = state_with_tunnel(
        app_state(3129, None),
        default_config(),
        FakeTunnel::new(snap),
    );
    let html = render(&state, None);
    assert!(html.contains("Туннель поднят"), "получили: {html}");
    assert!(
        html.contains("value=\"lower_tunnel\""),
        "кнопка опустить обязана быть доступна для своего же поднятого туннеля: {html}"
    );
    assert!(!html.contains("value=\"raise_tunnel\""));
}

#[test]
fn tunnel_section_names_the_rising_window_distinctly_from_down_or_up() {
    let snap = TunnelSnapshot {
        rising: true,
        ..down_installed_snapshot()
    };
    let state = state_with_tunnel(
        app_state(3129, None),
        default_config(),
        FakeTunnel::new(snap),
    );
    let html = render(&state, None);
    assert!(html.contains("поднимается"), "получили: {html}");
    assert!(!html.contains("Туннель опущен"), "получили: {html}");
    assert!(
        !html.contains("<p class=\"note good\">Туннель поднят.</p>"),
        "получили: {html}"
    );
    assert!(!html.contains("value=\"raise_tunnel\""));
    assert!(html.contains("value=\"lower_tunnel\""));
}

#[test]
fn rising_wins_over_a_misclassified_occupied_reading() {
    let snap = TunnelSnapshot {
        rising: true,
        foreign_tunnel_up: true,
        ..down_installed_snapshot()
    };
    let state = state_with_tunnel(
        app_state(3129, None),
        default_config(),
        FakeTunnel::new(snap),
    );
    let html = render(&state, None);
    assert!(html.contains("поднимается"), "получили: {html}");
    assert!(
        !html.contains("Туннель опущен, но какой-то"),
        "получили: {html}"
    );
}

#[test]
fn raising_the_tunnel_is_not_refused_server_side_while_rising() {
    let snap = TunnelSnapshot {
        rising: true,
        foreign_tunnel_up: true,
        ..down_installed_snapshot()
    };
    let state = state_with_tunnel(
        app_state(3129, None),
        default_config(),
        FakeTunnel::new(snap),
    );
    let html = post(&state, b"action=raise_tunnel");
    assert!(
        !html.contains("подъём отменён"),
        "«поднимается» не обязано отменять подъём: {html}"
    );
}

#[test]
fn an_unknown_liveness_shows_both_buttons_instead_of_locking_the_section() {
    let snap = TunnelSnapshot {
        liveness_error: Some("тестовый отказ чтения лога".to_string()),
        foreign_tunnel_up: true,
        ..down_installed_snapshot()
    };
    let state = state_with_tunnel(
        app_state(3129, None),
        default_config(),
        FakeTunnel::new(snap),
    );
    let html = render(&state, None);
    assert!(html.contains("состояние неизвестно"), "получили: {html}");
    assert!(html.contains("value=\"raise_tunnel\""), "получили: {html}");
    assert!(html.contains("value=\"lower_tunnel\""), "получили: {html}");
}

#[test]
fn the_dns_caveat_is_shown_before_the_tunnel_is_ever_raised() {
    let state = state_with_tunnel(
        app_state(3129, None),
        default_config(),
        FakeTunnel::new(down_installed_snapshot()),
    );
    let html = render(&state, None);
    let dns_pos = html
        .find("DNS-запрос")
        .expect("предупреждение про DNS обязано быть на странице");
    let raise_pos = html
        .find("value=\"raise_tunnel\"")
        .expect("кнопка подъёма обязана быть на странице");
    assert!(
        dns_pos < raise_pos,
        "предупреждение про DNS обязано стоять до кнопки подъёма"
    );
}

#[test]
fn a_uac_warning_appears_before_both_privileged_buttons() {
    let state = state_with_tunnel(
        app_state(3129, None),
        default_config(),
        FakeTunnel::new(down_installed_snapshot()),
    );
    let html = render(&state, None);
    let build_pos = html
        .find("value=\"build_tunnel_profile\"")
        .expect("кнопка сборки обязана быть на странице");
    let install_pos = html
        .find("value=\"install_service\"")
        .expect("кнопка установки службы обязана быть на странице");
    let uac_pos = html
        .find("UAC")
        .expect("предупреждение про UAC обязано быть на странице");
    assert!(
        uac_pos < build_pos && uac_pos < install_pos,
        "предупреждение обязано стоять до обеих кнопок"
    );
}

#[test]
fn the_routes_error_disables_both_tunnel_buttons_and_is_escaped() {
    let snap = TunnelSnapshot {
        routes_error: Some("<script>bad</script>".to_string()),
        ..down_installed_snapshot()
    };
    let state = state_with_tunnel(
        app_state(3129, None),
        default_config(),
        FakeTunnel::new(snap),
    );
    let html = render(&state, None);
    assert!(
        !html.contains("<script>bad"),
        "неэкранированный скрипт в разметке"
    );
    assert!(html.contains("&lt;script&gt;"), "экранированного вида нет");
    assert!(!html.contains("value=\"raise_tunnel\""));
    assert!(!html.contains("value=\"lower_tunnel\""));
}

#[test]
fn office_subnets_are_listed_and_escaped() {
    let cfg = Config {
        office_subnets: vec!["203.0.113.0/24".into()],
        ..default_config()
    };
    let state = state_with_tunnel(
        app_state(3129, None),
        cfg,
        FakeTunnel::new(down_installed_snapshot()),
    );
    let html = render(&state, None);
    assert!(html.contains("203.0.113.0/24"), "получили: {html}");
}

#[test]
fn the_automate_tunnel_toggle_is_off_by_default() {
    let state = state_with_tunnel(
        app_state(3129, None),
        default_config(),
        FakeTunnel::new(down_installed_snapshot()),
    );
    let html = render(&state, None);
    assert!(
        html.contains("name=\"automate_tunnel\""),
        "получили: {html}"
    );
    assert!(!html.contains("name=\"automate_tunnel\" checked"));
}

#[test]
fn the_automate_tunnel_toggle_can_be_turned_on_and_saved() {
    let cfg = Config {
        automate_tunnel: true,
        ..default_config()
    };
    let state = state_with_tunnel(
        app_state(3129, None),
        cfg,
        FakeTunnel::new(down_installed_snapshot()),
    );
    let html = render(&state, None);
    assert!(
        html.contains("name=\"automate_tunnel\" checked"),
        "получили: {html}"
    );
}

#[test]
fn automate_tunnel_survives_config_from_form() {
    let next = config_from_form(
        &base(),
        &form(&format!("{}&automate_tunnel=on", unchanged_body(3129))),
    )
    .unwrap();
    assert!(next.automate_tunnel);
}

#[test]
fn a_failed_profile_build_is_shown_not_swallowed() {
    let state = state_with_tunnel(
        app_state(3129, None),
        default_config(),
        FakeTunnel::failing_to_build(
            down_installed_snapshot(),
            "незакрытый inline-блок «<ca>» (строка 2)",
        ),
    );
    let html = post(&state, b"action=build_tunnel_profile");
    assert!(
        html.contains("незакрытый inline-блок"),
        "ошибка build_profile обязана быть показана дословно: {html}"
    );
}

#[test]
fn raising_the_tunnel_is_refused_server_side_when_a_foreign_tunnel_is_up() {
    let snap = TunnelSnapshot {
        foreign_tunnel_up: true,
        ..down_installed_snapshot()
    };
    let state = state_with_tunnel(
        app_state(3129, None),
        default_config(),
        FakeTunnel::new(snap),
    );
    let html = post(&state, b"action=raise_tunnel");
    assert!(
        html.contains("занят другим туннельным адаптером"),
        "получили: {html}"
    );
}

#[test]
fn raising_the_tunnel_is_not_refused_when_liveness_is_merely_unknown() {
    let snap = TunnelSnapshot {
        liveness_error: Some("тестовый отказ чтения лога".to_string()),
        foreign_tunnel_up: true,
        ..down_installed_snapshot()
    };
    let state = state_with_tunnel(
        app_state(3129, None),
        default_config(),
        FakeTunnel::new(snap),
    );
    let html = post(&state, b"action=raise_tunnel");
    assert!(
        !html.contains("подъём отменён"),
        "неизвестность не обязана отменять подъём: {html}"
    );
}

#[test]
fn raising_the_tunnel_succeeds_and_reports_so() {
    let state = state_with_tunnel(
        app_state(3129, None),
        default_config(),
        FakeTunnel::new(down_installed_snapshot()),
    );
    let html = post(&state, b"action=raise_tunnel");
    assert!(!html.contains("class=\"note bad\""), "получили: {html}");
}

#[test]
fn a_form_survives_broken_percent_signs_and_bytes() {
    let f = form("a=%zz&b=%4&c=100%&d=%e0%a4&=x");
    assert_eq!(f.get("a"), Some("%zz"));
    assert_eq!(f.get("b"), Some("%4"));
    assert_eq!(f.get("c"), Some("100%"));
    assert_eq!(f.get("d"), Some("\u{fffd}"));
    assert_eq!(f.get("missing"), None);
}

#[test]
fn an_encoded_text_is_read_back() {
    for text in ["", "a b", "Офис №1 & «100%» + 😀", "%41+=&"] {
        let upper: String = text.bytes().map(|b| format!("%{b:02X}")).collect();
        let lower: String = text.bytes().map(|b| format!("%{b:02x}")).collect();
        assert_eq!(decode(upper.as_bytes()), text);
        assert_eq!(decode(lower.as_bytes()), text);
        let f = form(&format!("u={upper}&l={lower}"));
        assert_eq!(f.get("u"), Some(text));
        assert_eq!(f.get("l"), Some(text));
    }
}

#[test]
fn a_form_without_fields_has_none() {
    let f = Form::default();
    assert_eq!(f.get("a"), None);
    assert!(!f.checked("a"));
}

#[test]
fn the_first_of_equal_fields_is_read() {
    let f = form("a=1&a=2");
    assert_eq!(f.get("a"), Some("1"));
    assert_eq!(f.all("a"), vec!["1", "2"]);
    assert_eq!(f.all("b"), Vec::<&str>::new());
}

#[test]
fn escaping_keeps_different_texts_apart_and_leaves_no_markup() {
    let texts = ["<", "&lt;", "\"", "&quot;", "'", "a", ""];
    for a in texts {
        for c in escape_html(a).chars() {
            assert!(!"<>\"'".contains(c), "{a}");
        }
        for b in texts {
            assert_eq!(escape_html(a) == escape_html(b), a == b);
        }
    }
}

#[test]
fn the_current_network_is_added_once_whatever_its_case() {
    let body = b"action=office&bridge_port=3129&socks_upstream=&http_upstream=&no_proxy=";
    let app = app_state(3129, Some("Офис"));
    let next = requested_config(&default_config(), &Form::parse(body), &app.place, true).unwrap();
    assert_eq!(next.office_networks.len(), 1);
    assert_eq!(next.office_networks[0].id, "{NET-1}");
    assert_eq!(next.office_networks[0].name, "Офис");
    let again = "action=office&bridge_port=3129&office_id=%7Bnet-1%7D&office_name=x";
    assert_eq!(
        requested_config(&default_config(), &form(again), &app.place, true),
        Err("эта сеть уже в списке офисных".to_string())
    );
    let mut nowhere = app_state(3129, None);
    nowhere.place.network = None;
    assert_eq!(
        requested_config(&default_config(), &Form::parse(body), &nowhere.place, true),
        Err("текущая сеть не определена — добавлять нечего".to_string())
    );
}

#[test]
fn each_answer_of_the_supervisor_has_its_note() {
    let last = |reply: ApplyReply, port: u16| apply(None, port, 3129, reply).notes.pop().unwrap();
    assert_eq!(
        last(ApplyReply::Applied, 3129),
        Note {
            bad: false,
            text: "Сохранено и применено.".into()
        }
    );
    let port = last(ApplyReply::Applied, 3130);
    assert!(!port.bad && port.text.contains("после перезапуска"), "{}", port.text);
    assert_eq!(
        last(ApplyReply::NotSaved("диск".into()), 3129),
        Note {
            bad: true,
            text: "Применено, но не сохранено в конфиг: диск".into()
        }
    );
    assert_eq!(
        last(ApplyReply::Stopping, 3129).text,
        "приложение завершается — изменения не применены"
    );
    assert_eq!(
        last(ApplyReply::Late, 3129).text,
        "супервизор не ответил вовремя; проверьте состояние в трее"
    );
    let both = apply(
        Some(Note {
            bad: false,
            text: "Автозапуск включён.".into(),
        }),
        3129,
        3129,
        ApplyReply::Applied,
    );
    assert_eq!(both.notes.len(), 2);
    assert_eq!(both.notes[0].text, "Автозапуск включён.");
}

#[test]
fn every_button_takes_its_own_way() {
    let cfg = Config {
        office_subnets: vec!["10.0.0.0/8".into()],
        ..default_config()
    };
    let place = app_state(3129, Some("Офис")).place;
    let step = |body: &str| handle_post(&cfg, &place, &form(body));
    assert_eq!(step("action=bench"), PostStep::Measure);
    assert_eq!(step("action=doctor"), PostStep::Diagnose);
    match step(&unchanged_body(3130)) {
        PostStep::Validate(next) => assert_eq!(next.bridge_port, 3130),
        other => panic!("{other:?}"),
    }
    match step("action=save&bridge_port=abc") {
        PostStep::Show(outcome) => assert!(outcome.notes[0].bad),
        other => panic!("{other:?}"),
    }
    match step("action=%3Cx%3E") {
        PostStep::Show(outcome) => {
            assert_eq!(outcome.notes[0].text, "неизвестное действие «<x>»")
        }
        other => panic!("{other:?}"),
    }
    assert_eq!(
        step("action=build_tunnel_profile"),
        PostStep::Call(TunnelCall::BuildProfile {
            profile_name: "proxypilot-office".into(),
            office_subnets: vec!["10.0.0.0/8".into()],
        })
    );
    assert_eq!(
        step("action=raise_tunnel"),
        PostStep::Look {
            office_subnets: vec!["10.0.0.0/8".into()],
            profile_name: "proxypilot-office".into(),
        }
    );
    assert_eq!(
        step("action=lower_tunnel"),
        PostStep::Call(TunnelCall::Lower {
            profile_name: "proxypilot-office".into()
        })
    );
    assert_eq!(
        step("action=install_service"),
        PostStep::Call(TunnelCall::InstallService)
    );
}

#[test]
fn each_call_to_the_tunnel_has_its_words() {
    let name = || "proxypilot-office".to_string();
    let words = |call: TunnelCall| after_call(&call, Ok(())).notes.pop().unwrap();
    for (call, text) in [
        (
            TunnelCall::Raise { profile_name: name() },
            "Команда на подъём туннеля отправлена OpenVPN GUI.",
        ),
        (
            TunnelCall::Lower { profile_name: name() },
            "Команда на опускание туннеля отправлена OpenVPN GUI.",
        ),
        (
            TunnelCall::BuildProfile {
                profile_name: name(),
                office_subnets: vec![],
            },
            "Профиль собран и записан в каталог конфигураций OpenVPN.",
        ),
        (
            TunnelCall::InstallService,
            "Запрос на установку службы отправлен — подтвердите запрос UAC, \
             если Windows его покажет.",
        ),
    ] {
        let note = words(call);
        assert!(!note.bad);
        assert_eq!(note.text, text);
    }
    let refused = after_call(&TunnelCall::InstallService, Err("отказ".into()));
    assert_eq!(
        refused.notes,
        vec![Note {
            bad: true,
            text: "отказ".into()
        }]
    );
}

#[test]
fn an_invalid_configuration_is_shown_and_not_sent() {
    match after_validation(Err("порт занят".into()), default_config()) {
        SaveStep::Show(outcome) => assert_eq!(
            outcome.notes,
            vec![Note {
                bad: true,
                text: "порт занят".into()
            }]
        ),
        other => panic!("{other:?}"),
    }
    assert_eq!(
        after_validation(Ok(()), base()),
        SaveStep::Send(base())
    );
}

#[test]
fn a_raise_is_called_for_unless_it_is_refused() {
    let raise = RaisePlan::Raise(TunnelCall::Raise {
        profile_name: "proxypilot-office".into(),
    });
    let down = down_installed_snapshot;
    assert_eq!(raise_tunnel(&down()), raise);
    let foreign = TunnelSnapshot {
        foreign_tunnel_up: true,
        ..down()
    };
    assert!(matches!(raise_tunnel(&foreign), RaisePlan::Refuse(_)));
    let rising = TunnelSnapshot {
        rising: true,
        foreign_tunnel_up: true,
        ..down()
    };
    assert_eq!(raise_tunnel(&rising), raise);
}

#[test]
fn the_autostart_is_switched_only_where_it_differs() {
    let ticked = form("autostart=on");
    assert_eq!(apply_autostart(&Ok(true), &ticked), AutostartPlan::Nothing);
    assert_eq!(apply_autostart(&Ok(false), &ticked), AutostartPlan::Switch(true));
    assert_eq!(apply_autostart(&Ok(true), &form("")), AutostartPlan::Switch(false));
    assert_eq!(apply_autostart(&Err("e".into()), &form("")), AutostartPlan::Nothing);
}

#[test]
fn what_is_not_there_refuses_everything() {
    assert!(AutostartPending.set(true).is_err());
    assert_eq!(
        AutostartPending.is_enabled(),
        Err("автозапуск ещё не подключён в этой сборке".to_string())
    );
    assert_eq!(
        TunnelPending.raise("p"),
        Err("туннель ещё не подключён в этой сборке".to_string())
    );
    assert!(TunnelPending.lower("p").is_err());
    assert!(TunnelPending.build_profile("p", &vec![]).is_err());
    assert!(TunnelPending.install_service().is_err());
    assert!(!TunnelPending.snapshot(&vec![], "p").installed);
}

#[test]
fn unreadable_routes_refuse_a_raise_that_comes_without_the_page() {
    let snap = TunnelSnapshot {
        routes_error: Some("код 5".into()),
        ..down_installed_snapshot()
    };
    let state = state_with_tunnel(app_state(3129, None), default_config(), FakeTunnel::new(snap));
    let html = post(&state, b"action=raise_tunnel");
    assert!(html.contains("не удалось прочитать таблицу маршрутов: код 5 — подъём отменён"));
}

#[test]
fn the_diagnostics_on_request_judge_the_port_that_is_bound() {
    let cfg = Config {
        bridge_port: 3999,
        ..default_config()
    };
    let ours = SysProxy {
        enabled: true,
        server: "127.0.0.1:3129".into(),
        bypass: String::new(),
    };
    let checks = live_checks(&app_state(3129, None), &cfg, true, &Ok(ours));
    assert_eq!(checks[0].status, CheckStatus::Good);
    assert_eq!(checks[1].status, CheckStatus::Good);
    assert_eq!(checks[2].status, CheckStatus::Good);
}

#[test]
fn the_page_is_a_whole_document() {
    let state = state_with(app_state(3129, None), default_config());
    let html = render(&state, None);
    assert!(html.starts_with("<!doctype html>\n<html lang=\"ru\">"));
    assert!(html.trim_end().ends_with("</html>"));
}

#[test]
fn a_speed_is_written_as_a_floating_point_number_would_be() {
    let written = |bps: u64| {
        let report = BenchReport {
            results: vec![BenchResult {
                label: "x".into(),
                bytes: 0,
                speed_bps: Some(bps),
                error: None,
            }],
            best: None,
        };
        bench_table(&report)
    };
    let mut speeds: Vec<u64> = vec![0, 1, 5242, 5243, 131_072, 393_216, 655_360, 1_048_576];
    for shift in 0..64 {
        for step in 0..9 {
            let power: u64 = 1 << shift;
            speeds.push(power.wrapping_mul(step).wrapping_sub(step % 3));
            speeds.push(power.wrapping_add(power / 7 * step));
        }
    }
    speeds.push(u64::MAX);
    for i in 0..2000 {
        speeds.push(i * 131_072);
    }
    for bps in speeds {
        let expected = format!(
            "<span class=\"bench-speed\">{:.2} МБ/с</span>",
            bps as f64 / 1_048_576.0
        );
        assert!(written(bps).contains(&expected), "{bps}: {expected}");
    }
}

#[test]
fn texts_add_no_markup_to_the_page() {
    let markup = |html: &str| {
        html.chars()
            .filter(|c| matches!(c, '<' | '>' | '"' | '\''))
            .collect::<String>()
    };
    let page = |text: &str| {
        let cfg = Config {
            socks_upstream: Some(text.into()),
            http_upstream: Some(text.into()),
            no_proxy: text.into(),
            office_networks: vec![OfficeNetwork {
                id: text.into(),
                name: text.into(),
            }],
            office_subnets: vec![text.into()],
            ..default_config()
        };
        let mut app = app_state(3129, Some(text));
        app.route = Route::Socks(text.into());
        let snap = TunnelSnapshot {
            liveness_error: Some(text.into()),
            ..down_installed_snapshot()
        };
        let outcome = Outcome {
            notes: vec![Note {
                bad: true,
                text: text.into(),
            }],
            bench: Some(BenchReport {
                results: vec![BenchResult {
                    label: text.into(),
                    bytes: 7,
                    speed_bps: None,
                    error: Some(text.into()),
                }],
                best: None,
            }),
            doctor: Some(vec![Check {
                title: text.into(),
                status: CheckStatus::Warn,
                detail: text.into(),
            }]),
        };
        render(&state_with_tunnel(app, cfg, FakeTunnel::new(snap)), Some(&outcome))
    };
    let plain = markup(&page("x"));
    for text in ["\"><script>alert(1)</script>", "' onload='x", "</textarea>", "&lt;b&gt;"] {
        assert_eq!(markup(&page(text)), plain, "{text}");
    }
}

#[test]
fn the_menu_and_the_page_agree_on_the_tunnel() {
    for bits in 0..128u32 {
        let on = |n: u32| bits & (1 << n) != 0;
        let snap = TunnelSnapshot {
            installed: on(0),
            profile_installed: on(1),
            our_tunnel_up: on(2),
            rising: on(3),
            liveness_error: on(4).then(|| "value=\"lower_tunnel\"".to_string()),
            foreign_tunnel_up: on(5),
            routes_error: on(6).then(|| "value=\"raise_tunnel\"".to_string()),
        };
        let html = tunnel_section(&vec!["value=\"lower_tunnel\"".into()], &snap);
        let line = tunnel_text(&snap);
        let lower = ["Туннель: поднят", "Туннель: поднимается…", "Туннель: состояние неизвестно"];
        let raise = ["Туннель: опущен", "Туннель: состояние неизвестно"];
        assert_eq!(
            html.contains("value=\"lower_tunnel\""),
            lower.contains(&line.as_str()),
            "{snap:?}"
        );
        assert_eq!(
            html.contains("value=\"raise_tunnel\""),
            raise.contains(&line.as_str()),
            "{snap:?}"
        );
    }
}
