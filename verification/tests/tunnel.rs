//! What the log and the routes say of the tunnel together.

use proxypilot::tunnel::{combine_tunnel_facts, source_missing, TunnelSnapshot};

#[test]
fn both_sources_confirm_up() {
    assert_eq!(
        combine_tunnel_facts(Ok(true), Ok(true)),
        (true, false, false, None, None)
    );
}

#[test]
fn log_up_but_routes_not_installed_yet_is_rising_not_alarming() {
    let (our_tunnel_up, rising, foreign_tunnel_up, liveness_error, routes_error) =
        combine_tunnel_facts(Ok(true), Ok(false));
    assert!(!our_tunnel_up);
    assert!(rising);
    assert!(!foreign_tunnel_up);
    assert!(liveness_error.is_none());
    assert!(routes_error.is_none());
}

#[test]
fn routes_carried_but_log_says_not_up_is_foreign() {
    assert_eq!(
        combine_tunnel_facts(Ok(false), Ok(true)),
        (false, false, true, None, None)
    );
}

#[test]
fn neither_source_reports_anything_is_plain_down() {
    assert_eq!(
        combine_tunnel_facts(Ok(false), Ok(false)),
        (false, false, false, None, None)
    );
}

#[test]
fn a_hard_killed_process_stops_claiming_up_once_routes_disappear() {
    let (our_tunnel_up, ..) = combine_tunnel_facts(Ok(true), Ok(false));
    assert!(!our_tunnel_up, "лог в одиночку не должен решать «поднято»");
}

#[test]
fn routes_unreadable_while_log_says_down_blocks_only_the_raise_reason() {
    let (our_tunnel_up, rising, foreign_tunnel_up, liveness_error, routes_error) =
        combine_tunnel_facts(Ok(false), Err("тестовый отказ".to_string()));
    assert!(!our_tunnel_up);
    assert!(!rising);
    assert!(!foreign_tunnel_up);
    assert!(liveness_error.is_none());
    assert_eq!(routes_error.as_deref(), Some("тестовый отказ"));
}

#[test]
fn log_says_up_but_routes_cannot_confirm_it_is_reported_as_unknown() {
    let (our_tunnel_up, rising, foreign_tunnel_up, liveness_error, routes_error) =
        combine_tunnel_facts(Ok(true), Err("тестовый отказ".to_string()));
    assert!(!our_tunnel_up);
    assert!(!rising);
    assert!(!foreign_tunnel_up);
    assert!(liveness_error.is_some());
    assert!(routes_error.is_none());
}

#[test]
fn an_unreadable_log_does_not_call_our_own_tunnel_someone_elses() {
    let (our_tunnel_up, rising, foreign_tunnel_up, liveness_error, routes_error) =
        combine_tunnel_facts(Err("тестовый отказ чтения лога".to_string()), Ok(true));
    assert!(!our_tunnel_up);
    assert!(!rising);
    assert!(
        !foreign_tunnel_up,
        "неизвестность лога не обязана превращаться в «занято чужим»"
    );
    assert_eq!(
        liveness_error.as_deref(),
        Some("тестовый отказ чтения лога")
    );
    assert!(routes_error.is_none());
}

#[test]
fn an_unreadable_log_stays_unknown_even_when_routes_are_free() {
    let (our_tunnel_up, rising, foreign_tunnel_up, liveness_error, _) =
        combine_tunnel_facts(Err("тестовый отказ".to_string()), Ok(false));
    assert!(!our_tunnel_up);
    assert!(!rising);
    assert!(!foreign_tunnel_up);
    assert!(liveness_error.is_some());
}

#[test]
fn both_sources_failing_mentions_both_errors() {
    let (.., liveness_error, routes_error) = combine_tunnel_facts(
        Err("отказ лога".to_string()),
        Err("отказ маршрутов".to_string()),
    );
    let msg = liveness_error.expect("оба отказа обязаны быть сообщены");
    assert!(msg.contains("отказ лога"), "получили: {msg}");
    assert!(msg.contains("отказ маршрутов"), "получили: {msg}");
    assert!(routes_error.is_none());
}

#[test]
fn an_unconfirmed_tunnel_says_which_source_failed() {
    let (.., liveness_error, _) = combine_tunnel_facts(Ok(true), Err("отказ".to_string()));
    assert_eq!(
        liveness_error.as_deref(),
        Some(
            "лог утверждает, что туннель поднят, но подтвердить это таблицей маршрутов не \
             удалось: отказ"
        )
    );
    let (.., both, _) = combine_tunnel_facts(Err("лог".to_string()), Err("пути".to_string()));
    assert_eq!(
        both.as_deref(),
        Some("лог; и таблица маршрутов тоже не читается: пути")
    );
}

#[test]
fn an_empty_snapshot_says_nothing() {
    let snap = TunnelSnapshot::default();
    assert!(!snap.installed && !snap.profile_installed && !snap.our_tunnel_up);
    assert!(!snap.rising && !snap.foreign_tunnel_up);
    assert_eq!(snap.liveness_error, None);
    assert_eq!(snap.routes_error, None);
}

#[test]
fn a_missing_source_names_the_file_and_the_way_out() {
    assert_eq!(
        source_missing("C:\\x.ovpn", "нет файла"),
        "не найден файл источника C:\\x.ovpn: нет файла. Положите свой .ovpn \
         (сертификаты, адрес сервера — то, что выдал администратор) \
         туда под этим именем и нажмите «Собрать профиль» ещё раз."
    );
}
