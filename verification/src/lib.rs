//! The logic of ProxyPilot, a tray application that keeps a local proxy bridge
//! pointed at whichever upstream is reachable.

pub mod doctor;
pub mod icons;
pub mod lifecycle;
pub mod model;
pub mod number;
pub mod proxy;
pub mod settings_page;
pub mod text;
pub mod tray;
pub mod tunnel;
pub mod update;
pub mod websrv;
