//! Which icon stands in the tray.

use proxypilot::icons::{icon_for, IconKind};
use proxypilot::model::{AppState, Health, Mode, Place, Reachability, Route};

fn state(route: Route, demoted: bool) -> AppState {
    AppState {
        mode: Mode::Auto,
        route,
        demoted,
        place: Place {
            in_office: true,
            network: None,
            network_name: None,
        },
        health: Health {
            socks: Reachability::Up,
            http: Reachability::Up,
        },
        port: 3129,
    }
}

#[test]
fn icon_reflects_the_active_route() {
    assert_eq!(
        icon_for(&state(Route::Socks("x:1".into()), false)),
        IconKind::Socks
    );
    assert_eq!(
        icon_for(&state(Route::Http("x:1".into()), false)),
        IconKind::Http
    );
    assert_eq!(icon_for(&state(Route::Direct, false)), IconKind::Direct);
}

#[test]
fn nothing_configured_gets_its_own_icon() {
    let mut s = state(Route::Direct, false);
    s.health = Health {
        socks: Reachability::Unknown,
        http: Reachability::Unknown,
    };
    assert_eq!(icon_for(&s), IconKind::Unconfigured);
}

#[test]
fn a_deliberate_direct_mode_is_not_unconfigured() {
    let mut s = state(Route::Direct, false);
    s.mode = Mode::Direct;
    s.health = Health {
        socks: Reachability::Unknown,
        http: Reachability::Unknown,
    };
    assert_eq!(icon_for(&s), IconKind::Direct);
}
