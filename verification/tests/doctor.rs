//! The checks of the self-diagnosis.

use proxypilot::doctor::{log_diagnostics, run_checks, Check, CheckStatus, Level};
use proxypilot::model::{
    AppState, Config, Health, Mode, OfficeNetwork, Place, Reachability, Route, SysProxy,
};

fn base_config() -> Config {
    Config {
        bridge_port: 3129,
        mode: Mode::Auto,
        socks_upstream: None,
        http_upstream: None,
        no_proxy: String::new(),
        manage_system_proxy: true,
        office_networks: vec![],
        office_subnets: vec![],
        automate_tunnel: false,
        check_for_updates: true,
        saved_sysproxy: None,
        max_connections: 512,
        dial_timeout_ms: 5000,
        head_timeout_ms: 10000,
    }
}

fn base_state(port: u16) -> AppState {
    AppState {
        mode: Mode::Auto,
        route: Route::Direct,
        demoted: false,
        place: Place {
            in_office: false,
            network: None,
            network_name: None,
        },
        health: Health {
            socks: Reachability::Unknown,
            http: Reachability::Unknown,
        },
        port,
    }
}

fn sys(enabled: bool, server: &str) -> SysProxy {
    SysProxy {
        enabled,
        server: server.into(),
        bypass: String::new(),
    }
}

fn find<'a>(checks: &'a [Check], title_part: &str) -> &'a Check {
    checks
        .iter()
        .find(|c| c.title.contains(title_part))
        .unwrap_or_else(|| panic!("нет проверки с заголовком «{title_part}»: {checks:?}"))
}

#[test]
fn seven_rows_come_back_every_time() {
    let checks = run_checks(
        &base_config(),
        &base_state(3129),
        true,
        true,
        &Ok(sys(false, "")),
    );
    assert_eq!(checks.len(), 7, "получили: {checks:?}");
}

#[test]
fn an_ordinary_relaunch_trips_neither_bridge_check() {
    let checks = run_checks(
        &base_config(),
        &base_state(3129),
        true,
        true,
        &Ok(sys(false, "")),
    );
    assert_eq!(find(&checks, "слушает").status, CheckStatus::Good);
    assert_eq!(find(&checks, "но моста нет").status, CheckStatus::Good);
}

#[test]
fn bridge_listening_is_ok_when_the_port_answers() {
    let checks = run_checks(
        &base_config(),
        &base_state(3129),
        true,
        true,
        &Ok(sys(false, "")),
    );
    assert_eq!(find(&checks, "слушает").status, CheckStatus::Good);
}

#[test]
fn no_listener_on_the_port_is_the_loudest_failure() {
    let checks = run_checks(
        &base_config(),
        &base_state(3129),
        false,
        true,
        &Ok(sys(false, "")),
    );
    let c = find(&checks, "слушает");
    assert_eq!(c.status, CheckStatus::Fail);
    assert!(c.detail.contains("3129"));
}

#[test]
fn sysproxy_pointing_at_us_is_ok() {
    let checks = run_checks(
        &base_config(),
        &base_state(3129),
        true,
        true,
        &Ok(sys(true, "127.0.0.1:3129")),
    );
    assert_eq!(find(&checks, "Системный прокси").status, CheckStatus::Good);
}

#[test]
fn sysproxy_pointing_elsewhere_is_a_warning_when_we_manage_it() {
    let checks = run_checks(
        &base_config(),
        &base_state(3129),
        true,
        true,
        &Ok(sys(true, "10.0.0.2:3128")),
    );
    assert_eq!(find(&checks, "Системный прокси").status, CheckStatus::Warn);
}

#[test]
fn sysproxy_check_is_skipped_gracefully_when_management_is_off() {
    let cfg = Config {
        manage_system_proxy: false,
        ..base_config()
    };
    let checks = run_checks(
        &cfg,
        &base_state(3129),
        true,
        true,
        &Ok(sys(false, "10.0.0.2:3128")),
    );
    assert_eq!(find(&checks, "Системный прокси").status, CheckStatus::Good);
}

#[test]
fn a_sysproxy_read_failure_fails_that_check() {
    let checks = run_checks(
        &base_config(),
        &base_state(3129),
        true,
        true,
        &Err("отказ реестра".into()),
    );
    assert_eq!(find(&checks, "Системный прокси").status, CheckStatus::Fail);
}

#[test]
fn a_sysproxy_read_failure_is_reported_once_not_as_two_failures() {
    let checks = run_checks(
        &base_config(),
        &base_state(3129),
        true,
        true,
        &Err("отказ реестра".into()),
    );
    assert_eq!(find(&checks, "Системный прокси").status, CheckStatus::Fail);
    let c = find(&checks, "но моста нет");
    assert_eq!(c.status, CheckStatus::Warn);
    assert!(c.detail.contains("не выполнена"));
}

#[test]
fn a_stale_pointer_without_a_running_bridge_is_the_most_valuable_line() {
    let checks = run_checks(
        &base_config(),
        &base_state(3129),
        true,
        true,
        &Ok(sys(true, "127.0.0.1:3129")),
    );
    assert_eq!(
        find(&checks, "слушает").status,
        CheckStatus::Good,
        "мост, поднятый НАМИ только что, обязан отчитаться как рабочий"
    );
    let c = find(&checks, "но моста нет");
    assert_eq!(c.status, CheckStatus::Fail);
    assert!(c.detail.contains("3129"));
}

#[test]
fn a_stale_looking_pointer_is_fine_when_the_port_was_not_actually_free() {
    let checks = run_checks(
        &base_config(),
        &base_state(3129),
        true,
        false,
        &Ok(sys(true, "127.0.0.1:3129")),
    );
    assert_eq!(find(&checks, "но моста нет").status, CheckStatus::Good);
}

#[test]
fn no_stale_pointer_when_the_registry_points_elsewhere() {
    let checks = run_checks(
        &base_config(),
        &base_state(3129),
        false,
        true,
        &Ok(sys(true, "10.0.0.2:3128")),
    );
    assert_eq!(find(&checks, "но моста нет").status, CheckStatus::Good);
}

#[test]
fn upstreams_check_is_ok_when_nothing_is_configured() {
    let checks = run_checks(
        &base_config(),
        &base_state(3129),
        true,
        true,
        &Ok(sys(false, "")),
    );
    assert_eq!(find(&checks, "Апстрим").status, CheckStatus::Good);
}

#[test]
fn a_dead_configured_upstream_fails_the_check() {
    let cfg = Config {
        socks_upstream: Some("10.0.0.2:9999".into()),
        ..base_config()
    };
    let mut st = base_state(3129);
    st.health = Health {
        socks: Reachability::Down,
        http: Reachability::Unknown,
    };
    let checks = run_checks(&cfg, &st, true, true, &Ok(sys(false, "")));
    let c = find(&checks, "Апстрим");
    assert_eq!(c.status, CheckStatus::Fail);
    assert!(c.detail.contains("10.0.0.2:9999"));
}

#[test]
fn an_unprobed_upstream_is_only_a_warning() {
    let cfg = Config {
        http_upstream: Some("10.0.0.2:3128".into()),
        ..base_config()
    };
    let checks = run_checks(&cfg, &base_state(3129), true, true, &Ok(sys(false, "")));
    assert_eq!(find(&checks, "Апстрим").status, CheckStatus::Warn);
}

#[test]
fn a_live_configured_upstream_is_ok() {
    let cfg = Config {
        socks_upstream: Some("10.0.0.2:9999".into()),
        ..base_config()
    };
    let mut st = base_state(3129);
    st.health = Health {
        socks: Reachability::Up,
        http: Reachability::Unknown,
    };
    let checks = run_checks(&cfg, &st, true, true, &Ok(sys(false, "")));
    assert_eq!(find(&checks, "Апстрим").status, CheckStatus::Good);
}

#[test]
fn network_recognition_does_not_apply_to_a_pinned_mode() {
    let cfg = Config {
        mode: Mode::Socks,
        ..base_config()
    };
    let mut st = base_state(3129);
    st.mode = Mode::Socks;
    let checks = run_checks(&cfg, &st, true, true, &Ok(sys(false, "")));
    assert_eq!(find(&checks, "сеть опознана").status, CheckStatus::Good);
}

#[test]
fn an_unrecognised_network_in_auto_mode_is_a_warning() {
    let mut st = base_state(3129);
    st.place = Place {
        in_office: false,
        network: Some("{HOME}".into()),
        network_name: Some("Домашний Wi-Fi".into()),
    };
    let checks = run_checks(&base_config(), &st, true, true, &Ok(sys(false, "")));
    let c = find(&checks, "сеть опознана");
    assert_eq!(c.status, CheckStatus::Warn);
    assert!(c.detail.contains("Домашний Wi-Fi"));
}

#[test]
fn an_office_network_in_auto_mode_is_ok() {
    let mut st = base_state(3129);
    st.place = Place {
        in_office: true,
        network: Some("{OFFICE}".into()),
        network_name: Some("OFFICE-WIFI".into()),
    };
    let checks = run_checks(&base_config(), &st, true, true, &Ok(sys(false, "")));
    assert_eq!(find(&checks, "сеть опознана").status, CheckStatus::Good);
}

#[test]
fn no_recognised_network_at_all_is_a_warning_in_auto_mode() {
    let checks = run_checks(
        &base_config(),
        &base_state(3129),
        true,
        true,
        &Ok(sys(false, "")),
    );
    assert_eq!(find(&checks, "сеть опознана").status, CheckStatus::Warn);
}

#[test]
fn no_office_networks_configured_at_all_is_a_warning_in_auto_mode() {
    let checks = run_checks(
        &base_config(),
        &base_state(3129),
        true,
        true,
        &Ok(sys(false, "")),
    );
    assert_eq!(find(&checks, "офисные сети").status, CheckStatus::Warn);
}

#[test]
fn at_least_one_office_network_makes_that_check_pass() {
    let cfg = Config {
        office_networks: vec![OfficeNetwork {
            id: "{OFFICE}".into(),
            name: "Офис".into(),
        }],
        ..base_config()
    };
    let checks = run_checks(&cfg, &base_state(3129), true, true, &Ok(sys(false, "")));
    assert_eq!(find(&checks, "офисные сети").status, CheckStatus::Good);
}

#[test]
fn the_office_networks_check_does_not_apply_to_a_pinned_mode() {
    let cfg = Config {
        mode: Mode::Socks,
        office_networks: vec![],
        ..base_config()
    };
    let mut st = base_state(3129);
    st.mode = Mode::Socks;
    let checks = run_checks(&cfg, &st, true, true, &Ok(sys(false, "")));
    assert_eq!(find(&checks, "офисные сети").status, CheckStatus::Good);
}

#[test]
fn the_coverage_gap_warning_is_always_present_even_when_everything_else_is_fine() {
    let cfg = Config {
        office_networks: vec![OfficeNetwork {
            id: "{OFFICE}".into(),
            name: "Офис".into(),
        }],
        ..base_config()
    };
    let mut st = base_state(3129);
    st.place = Place {
        in_office: true,
        network: Some("{OFFICE}".into()),
        network_name: Some("Офис".into()),
    };
    let checks = run_checks(&cfg, &st, true, false, &Ok(sys(true, "127.0.0.1:3129")));
    let c = checks
        .iter()
        .find(|c| c.detail.contains("WinHTTP"))
        .expect("предупреждение о границах обязано присутствовать всегда");
    assert_eq!(c.status, CheckStatus::Warn);
    assert!(c.detail.contains("Firefox"));
    assert!(c.detail.contains("HTTP_PROXY"));
}

#[test]
fn the_log_counts_and_grades_the_checks() {
    let checks = run_checks(
        &base_config(),
        &base_state(3129),
        false,
        true,
        &Ok(sys(false, "")),
    );
    let log = log_diagnostics(&checks);
    assert_eq!(log.total, 7);
    assert_eq!(log.failures, 1);
    assert_eq!(log.warnings, 4);
    assert_eq!(log.levels[0], Level::Error);
    assert_eq!(log.levels[2], Level::Debug);
    assert_eq!(log.levels[6], Level::Warn);
}
