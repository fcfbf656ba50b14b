//! Which icon stands in the tray.

use vstd::prelude::*;
use crate::model::{AppState, Mode, Reachability, Route};

verus! {

/// The shape of the icon.
#[derive(Debug, Clone, Copy, PartialEq, Eq, Structural)]
pub enum IconKind {
    Socks,
    Http,
    Direct,
    /// No upstream is configured, and that calls for somebody to act.
    Unconfigured,
}

/// The icon for a state. It follows the route that traffic takes, not the mode
/// that was chosen. An upstream that was never probed has no address.
pub open spec fn icon(state: AppState) -> IconKind {
    match state.route {
        Route::Socks(_) => IconKind::Socks,
        Route::Http(_) => IconKind::Http,
        Route::Direct => if state.mode != Mode::Direct && state.health.socks
            == Reachability::Unknown && state.health.http == Reachability::Unknown {
            IconKind::Unconfigured
        } else {
            IconKind::Direct
        },
    }
}

/// The icon for a state.
pub fn icon_for(state: &AppState) -> (out: IconKind)
    ensures
        out == icon(*state),
{
    match &state.route {
        Route::Socks(_) => IconKind::Socks,
        Route::Http(_) => IconKind::Http,
        Route::Direct => {
            if state.mode != Mode::Direct && state.health.socks == Reachability::Unknown
                && state.health.http == Reachability::Unknown {
                IconKind::Unconfigured
            } else {
                IconKind::Direct
            }
        },
    }
}

/// The mode "direct", chosen by a person, is never shown as something left to
/// configure.
pub proof fn a_chosen_direct_mode_is_not_unconfigured(state: AppState)
    requires
        state.mode == Mode::Direct,
    ensures
        icon(state) != IconKind::Unconfigured,
{
}

/// The icon follows the route that traffic takes. Traffic that goes direct has the
/// icon of something left to configure exactly where that was not chosen and neither
/// upstream was ever probed.
pub proof fn the_icon_follows_the_route(state: &AppState, out: IconKind)
    requires
        call_ensures(icon_for, (state,), out),
    ensures
        out == IconKind::Socks <==> state.route is Socks,
        out == IconKind::Http <==> state.route is Http,
        out == IconKind::Unconfigured <==> state.route is Direct && state.mode != Mode::Direct
            && state.health.socks == Reachability::Unknown && state.health.http
            == Reachability::Unknown,
        out == IconKind::Direct <==> state.route is Direct && (state.mode == Mode::Direct
            || state.health.socks != Reachability::Unknown || state.health.http
            != Reachability::Unknown),
{
}

} // verus!
