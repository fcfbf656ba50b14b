//! The texts and the menu of the tray.

use proxypilot::icons::IconKind;
use proxypilot::model::{AppState, Health, Mode, Place, Reachability, Route};
use proxypilot::tray::{
    bridge_address, header_text, menu, mode_label, network_text, on_window_message,
    session_is_ending, tunnel_text, Action, MenuIds, MenuLine, Notice, Tray, WindowStep,
    WM_ENDSESSION, WM_QUERYENDSESSION,
};
use proxypilot::tunnel::TunnelSnapshot;

fn state(route: Route, demoted: bool) -> AppState {
    AppState {
        mode: Mode::Auto,
        route,
        demoted,
        place: Place {
            in_office: true,
            network: None,
            network_name: None,
        },
        health: Health {
            socks: Reachability::Up,
            http: Reachability::Up,
        },
        port: 3129,
    }
}

fn place(in_office: bool, id: Option<&str>, name: Option<&str>) -> Place {
    Place {
        in_office,
        network: id.map(str::to_string),
        network_name: name.map(str::to_string),
    }
}

fn no_tunnel() -> TunnelSnapshot {
    TunnelSnapshot::default()
}

fn ids() -> MenuIds {
    MenuIds {
        quit: "16".into(),
        copy: "14".into(),
        settings: "10".into(),
        bench: "11".into(),
        doctor: "12".into(),
        open_tunnel: "13".into(),
        modes: vec![
            (Mode::Auto, "5".into()),
            (Mode::Socks, "6".into()),
            (Mode::Http, "7".into()),
            (Mode::Direct, "8".into()),
        ],
    }
}

#[test]
fn the_network_line_shows_the_name_and_marks_the_office() {
    let mut s = state(Route::Direct, false);
    s.place = place(true, Some("{OFFICE}"), Some("OFFICE-WIFI"));
    let t = network_text(&s);
    assert!(t.contains("OFFICE-WIFI"), "получили: {t}");
    assert!(t.contains("офис"), "получили: {t}");
    assert!(!t.contains("{OFFICE}"), "GUID тут не нужен: {t}");
}

#[test]
fn a_network_outside_the_office_is_not_marked_as_one() {
    let mut s = state(Route::Direct, false);
    s.place = place(false, Some("{HOME}"), Some("Домашний Wi-Fi"));
    let t = network_text(&s);
    assert!(t.contains("Домашний Wi-Fi"), "получили: {t}");
    assert!(!t.contains("офис"), "получили: {t}");
}

#[test]
fn a_nameless_network_falls_back_to_its_guid() {
    let mut s = state(Route::Direct, false);
    s.place = place(false, Some("{NONAME}"), Some(""));
    assert!(
        network_text(&s).contains("{NONAME}"),
        "получили: {}",
        network_text(&s)
    );
}

#[test]
fn without_any_network_the_line_says_so() {
    let mut s = state(Route::Direct, false);
    s.place = place(false, None, None);
    let t = network_text(&s);
    assert!(t.contains("не определена"), "получили: {t}");
}

#[test]
fn header_names_the_bridge_and_the_route() {
    let h = header_text(&state(Route::Direct, false));
    assert!(h.contains("127.0.0.1:3129"), "получили: {h}");
}

#[test]
fn header_explains_a_demotion_rather_than_hiding_it() {
    let mut s = state(Route::Direct, true);
    s.mode = Mode::Socks;
    let h = header_text(&s);
    assert!(h.contains("недоступен"), "получили: {h}");
}

#[test]
fn header_names_the_upstream_it_actually_uses() {
    let h = header_text(&state(Route::Socks("203.0.113.10:9999".into()), false));
    assert!(h.contains("203.0.113.10:9999"), "получили: {h}");
}

#[test]
fn a_mode_that_is_merely_unconfigured_says_so() {
    let mut s = state(Route::Direct, false);
    s.health = Health {
        socks: Reachability::Unknown,
        http: Reachability::Down,
    };
    assert_eq!(mode_label(Mode::Socks, &s), "SOCKS5 · не задан");
    assert_eq!(mode_label(Mode::Http, &s), "HTTP · недоступен");
    assert_eq!(mode_label(Mode::Auto, &s), "Авто");
}

#[test]
fn the_bridge_address_is_always_loopback() {
    assert_eq!(bridge_address(3129), "127.0.0.1:3129");
}

#[test]
fn wm_endsession_only_means_the_session_is_ending_when_wparam_is_true() {
    assert!(session_is_ending(1));
    assert!(!session_is_ending(0));
}

#[test]
fn opening_the_speed_test_and_diagnostics_are_distinct_actions() {
    let t = Tray::new(&state(Route::Direct, false), ids());
    assert_eq!(
        t.action_for(&t.ids.bench),
        Some(Action::OpenBench),
        "пункт «Замерить скорость…» обязан вести на замер"
    );
    assert_eq!(
        t.action_for(&t.ids.doctor),
        Some(Action::OpenDoctor),
        "пункт «Диагностика…» обязан вести на диагностику"
    );
    assert_eq!(
        t.action_for(&t.ids.open_tunnel),
        Some(Action::OpenTunnel),
        "пункт «Туннель…» обязан вести на раздел туннеля"
    );
    assert_ne!(t.ids.bench, t.ids.doctor);
    assert_ne!(t.ids.bench, t.ids.open_tunnel);
    assert_ne!(t.ids.doctor, t.ids.open_tunnel);
}

#[test]
fn the_new_items_do_not_disturb_the_rest_of_the_menu() {
    let t = Tray::new(&state(Route::Direct, false), ids());
    assert_eq!(t.action_for(&t.ids.quit), Some(Action::Quit));
    assert_eq!(t.action_for(&t.ids.copy), Some(Action::CopyAddress));
    assert_eq!(t.action_for(&t.ids.settings), Some(Action::OpenSettings));
    for (mode, item) in &t.ids.modes {
        assert_eq!(t.action_for(item), Some(Action::SetMode(*mode)));
    }
    assert_eq!(t.action_for("несуществующий-пункт"), None);
}

#[test]
fn tunnel_text_explains_a_missing_openvpn() {
    assert!(tunnel_text(&no_tunnel()).contains("не установлен"));
}

#[test]
fn tunnel_text_names_a_down_tunnel() {
    let snap = TunnelSnapshot {
        installed: true,
        profile_installed: true,
        ..Default::default()
    };
    let t = tunnel_text(&snap);
    assert!(t.contains("опущен"), "получили: {t}");
}

#[test]
fn tunnel_text_names_our_tunnel_up() {
    let snap = TunnelSnapshot {
        installed: true,
        profile_installed: true,
        our_tunnel_up: true,
        ..Default::default()
    };
    assert_eq!(tunnel_text(&snap), "Туннель: поднят");
}

#[test]
fn tunnel_text_warns_about_routes_being_occupied() {
    let snap = TunnelSnapshot {
        installed: true,
        foreign_tunnel_up: true,
        ..Default::default()
    };
    let t = tunnel_text(&snap);
    assert!(t.contains("заняты"), "получили: {t}");
}

#[test]
fn tunnel_text_reports_an_unknown_liveness_honestly() {
    let snap = TunnelSnapshot {
        installed: true,
        liveness_error: Some("тестовый отказ".to_string()),
        ..Default::default()
    };
    let t = tunnel_text(&snap);
    assert!(t.contains("неизвестно"), "получили: {t}");
}

#[test]
fn tunnel_text_does_not_hide_an_unreadable_route_table_as_plain_down() {
    let snap = TunnelSnapshot {
        installed: true,
        profile_installed: true,
        routes_error: Some("тестовый отказ".to_string()),
        ..Default::default()
    };
    let t = tunnel_text(&snap);
    assert!(t.contains("не проверены"), "получили: {t}");
}

#[test]
fn tunnel_text_prefers_confirmed_liveness_over_a_misclassified_foreign_reading() {
    let snap = TunnelSnapshot {
        installed: true,
        profile_installed: true,
        our_tunnel_up: true,
        foreign_tunnel_up: true,
        ..Default::default()
    };
    assert_eq!(tunnel_text(&snap), "Туннель: поднят");
}

#[test]
fn tunnel_text_names_the_rising_window_distinctly_from_down() {
    let snap = TunnelSnapshot {
        installed: true,
        profile_installed: true,
        rising: true,
        ..Default::default()
    };
    assert_eq!(tunnel_text(&snap), "Туннель: поднимается…");
}

#[test]
fn tunnel_text_prefers_rising_over_a_misclassified_occupied_reading() {
    let snap = TunnelSnapshot {
        installed: true,
        profile_installed: true,
        rising: true,
        foreign_tunnel_up: true,
        ..Default::default()
    };
    assert_eq!(tunnel_text(&snap), "Туннель: поднимается…");
}

#[test]
fn the_header_is_written_out_in_full() {
    let mut s = state(Route::Socks("203.0.113.10:9999".into()), false);
    assert_eq!(header_text(&s), "Мост 127.0.0.1:3129 · SOCKS5 → 203.0.113.10:9999");
    s.route = Route::Http("10.0.0.2:3128".into());
    assert_eq!(header_text(&s), "Мост 127.0.0.1:3129 · HTTP → 10.0.0.2:3128");
    s.route = Route::Direct;
    assert_eq!(header_text(&s), "Мост 127.0.0.1:3129 · напрямую");
    s.demoted = true;
    s.mode = Mode::Http;
    assert_eq!(header_text(&s), "Мост 127.0.0.1:3129 · HTTP недоступен → работаем напрямую");
}

#[test]
fn the_address_covers_every_port() {
    assert_eq!(bridge_address(0), "127.0.0.1:0");
    assert_eq!(bridge_address(65535), "127.0.0.1:65535");
}

#[test]
fn the_menu_has_sixteen_lines_from_the_header_to_the_exit() {
    let lines = menu(&state(Route::Direct, false), &no_tunnel());
    assert_eq!(lines.len(), 16);
    assert_eq!(
        lines[0],
        MenuLine::Notice(Notice::Header, "Мост 127.0.0.1:3129 · напрямую".into())
    );
    assert_eq!(lines[1], MenuLine::Notice(Notice::Network, "Сеть: не определена".into()));
    assert_eq!(
        lines[2],
        MenuLine::Notice(Notice::Tunnel, "Туннель: OpenVPN не установлен".into())
    );
    assert_eq!(lines[3], MenuLine::Separator);
    assert_eq!(lines[4], MenuLine::Choice(Mode::Auto, "Авто".into(), true));
    assert_eq!(lines[5], MenuLine::Choice(Mode::Socks, "SOCKS5 · доступен".into(), false));
    assert_eq!(lines[6], MenuLine::Choice(Mode::Http, "HTTP · доступен".into(), false));
    assert_eq!(lines[7], MenuLine::Choice(Mode::Direct, "Напрямую".into(), false));
    assert_eq!(lines[8], MenuLine::Separator);
    assert_eq!(lines[9], MenuLine::Command(Action::OpenSettings, "Настройки…".into()));
    assert_eq!(lines[10], MenuLine::Command(Action::OpenBench, "Замерить скорость…".into()));
    assert_eq!(lines[11], MenuLine::Command(Action::OpenDoctor, "Диагностика…".into()));
    assert_eq!(lines[12], MenuLine::Command(Action::OpenTunnel, "Туннель…".into()));
    assert_eq!(
        lines[13],
        MenuLine::Command(Action::CopyAddress, "Копировать адрес моста".into())
    );
    assert_eq!(lines[14], MenuLine::Separator);
    assert_eq!(lines[15], MenuLine::Command(Action::Quit, "Выход".into()));
}

#[test]
fn the_icon_is_drawn_only_when_it_changes() {
    let mut s = state(Route::Direct, false);
    let mut t = Tray::new(&s, ids());
    assert_eq!(t.shown, Some(IconKind::Direct));
    assert_eq!(t.refresh(&s, &no_tunnel()).icon, None);
    s.route = Route::Socks("x:1".into());
    assert_eq!(t.refresh(&s, &no_tunnel()).icon, Some(IconKind::Socks));
    t.icon_drawn(IconKind::Socks, true);
    assert_eq!(t.refresh(&s, &no_tunnel()).icon, None);
}

#[test]
fn an_icon_that_could_not_be_drawn_is_drawn_again() {
    let mut s = state(Route::Direct, false);
    let mut t = Tray::new(&s, ids());
    s.route = Route::Http("x:1".into());
    assert_eq!(t.refresh(&s, &no_tunnel()).icon, Some(IconKind::Http));
    t.icon_drawn(IconKind::Http, false);
    assert_eq!(t.shown, None);
    assert_eq!(t.refresh(&s, &no_tunnel()).icon, Some(IconKind::Http));
}

#[test]
fn a_refresh_rewrites_every_text() {
    let mut s = state(Route::Direct, false);
    let mut t = Tray::new(&s, ids());
    s.port = 4000;
    s.mode = Mode::Http;
    s.place = place(true, Some("{OFFICE}"), Some("OFFICE-WIFI"));
    let snap = TunnelSnapshot {
        installed: true,
        ..Default::default()
    };
    let r = t.refresh(&s, &snap);
    assert_eq!(r.header, "Мост 127.0.0.1:4000 · напрямую");
    assert_eq!(r.network, "Сеть: OFFICE-WIFI · офис");
    assert_eq!(r.tunnel, "Туннель: опущен · профиль не собран");
    assert_eq!(r.modes.len(), 4);
    assert_eq!(r.modes[2], MenuLine::Choice(Mode::Http, "HTTP · доступен".into(), true));
    assert_eq!(r.modes[0], MenuLine::Choice(Mode::Auto, "Авто".into(), false));
    assert_eq!(t.copy_address(), "http://127.0.0.1:4000");
}

#[test]
fn the_end_of_the_session_gives_the_settings_back() {
    assert_eq!(on_window_message(WM_QUERYENDSESSION, 0), WindowStep::Agree);
    assert_eq!(on_window_message(WM_ENDSESSION, 1), WindowStep::RestoreAndPass);
    assert_eq!(on_window_message(WM_ENDSESSION, 0), WindowStep::Pass);
    assert_eq!(on_window_message(0x0010, 1), WindowStep::Pass);
}
