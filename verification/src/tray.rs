//! The tray: what its menu says, what a click in it means, when the icon is
//! drawn again, and what the end of the session asks for.

use vstd::prelude::*;
use vstd::string::*;
use crate::icons::{icon, icon_for, IconKind};
use crate::model::{shown_network, AppState, Mode, Place, Reachability, Route};
use crate::settings_page::parts::{mode_name, mode_title};
use crate::text::{decimal, decimal_text, same};
use crate::tunnel::{tunnel_status, TunnelSnapshot, TunnelStatus};

verus! {

// ---------------------------------------------------------------------------
// Texts
// ---------------------------------------------------------------------------

/// The address of the bridge on a port. It never leaves the machine.
pub open spec fn bridge_at(port: u16) -> Seq<char> {
    "127.0.0.1:"@ + decimal(port as nat)
}

/// The address that clients are pointed at.
pub fn bridge_address(port: u16) -> (out: String)
    ensures
        out@ == bridge_at(port),
{
    let mut out = "127.0.0.1:".to_owned();
    out.append(decimal_text(port as u64).as_str());
    out
}

/// What happens to traffic. That an upstream was given up is shown, not hidden.
pub open spec fn situation(state: AppState) -> Seq<char> {
    if state.demoted {
        mode_title(state.mode) + " недоступен → работаем напрямую"@
    } else {
        match state.route {
            Route::Socks(address) => "SOCKS5 → "@ + address@,
            Route::Http(address) => "HTTP → "@ + address@,
            Route::Direct => "напрямую"@,
        }
    }
}

fn situation_text(state: &AppState) -> (out: String)
    ensures
        out@ == situation(*state),
{
    if state.demoted {
        let mut out = mode_name(state.mode).to_owned();
        out.append(" недоступен → работаем напрямую");
        return out;
    }
    match &state.route {
        Route::Socks(address) => {
            let mut out = "SOCKS5 → ".to_owned();
            out.append(address.as_str());
            out
        },
        Route::Http(address) => {
            let mut out = "HTTP → ".to_owned();
            out.append(address.as_str());
            out
        },
        Route::Direct => "напрямую".to_owned(),
    }
}

/// The first line of the menu, which is also the tooltip of the icon.
pub open spec fn header(state: AppState) -> Seq<char> {
    "Мост "@ + bridge_at(state.port) + " · "@ + situation(state)
}

/// The address of the bridge and what happens to traffic.
pub fn header_text(state: &AppState) -> (out: String)
    ensures
        out@ == header(*state),
{
    let mut out = "Мост ".to_owned();
    out.append(bridge_address(state.port).as_str());
    out.append(" · ");
    out.append(situation_text(state).as_str());
    out
}

/// The line about the network.
pub open spec fn network_line(state: AppState) -> Seq<char> {
    match shown_network(state.place) {
        Some(name) => if state.place.in_office {
            "Сеть: "@ + name + " · офис"@
        } else {
            "Сеть: "@ + name
        },
        None => "Сеть: не определена"@,
    }
}

/// The network that the decision rests on: its name, or its identifier where it
/// has no name.
pub fn network_text(state: &AppState) -> (out: String)
    ensures
        out@ == network_line(*state),
{
    match state.place.shown_network() {
        Some(name) => {
            let mut out = "Сеть: ".to_owned();
            out.append(name);
            if state.place.in_office {
                out.append(" · офис");
            }
            out
        },
        None => "Сеть: не определена".to_owned(),
    }
}

/// The line about the tunnel.
pub open spec fn tunnel_line(status: TunnelStatus, profile_installed: bool) -> Seq<char> {
    match status {
        TunnelStatus::NotInstalled => "Туннель: OpenVPN не установлен"@,
        TunnelStatus::Unknown(_) => "Туннель: состояние неизвестно"@,
        TunnelStatus::Up => "Туннель: поднят"@,
        TunnelStatus::Rising => "Туннель: поднимается…"@,
        TunnelStatus::Unchecked(_) => "Туннель: опущен · маршруты не проверены"@,
        TunnelStatus::Occupied => "Туннель: опущен · маршруты заняты другим адаптером"@,
        TunnelStatus::Down => if profile_installed {
            "Туннель: опущен"@
        } else {
            "Туннель: опущен · профиль не собран"@
        },
    }
}

/// The state of the tunnel in one line.
pub fn tunnel_text(snap: &TunnelSnapshot) -> (out: String)
    ensures
        out@ == tunnel_line(tunnel_status(*snap), snap.profile_installed),
{
    let line = if !snap.installed {
        "Туннель: OpenVPN не установлен"
    } else if snap.liveness_error.is_some() {
        "Туннель: состояние неизвестно"
    } else if snap.our_tunnel_up {
        "Туннель: поднят"
    } else if snap.rising {
        "Туннель: поднимается…"
    } else if snap.routes_error.is_some() {
        "Туннель: опущен · маршруты не проверены"
    } else if snap.foreign_tunnel_up {
        "Туннель: опущен · маршруты заняты другим адаптером"
    } else if snap.profile_installed {
        "Туннель: опущен"
    } else {
        "Туннель: опущен · профиль не собран"
    };
    line.to_owned()
}

/// The health of the upstream that a mode uses, for a mode that uses one.
pub open spec fn health_of(mode: Mode, state: AppState) -> Option<Reachability> {
    match mode {
        Mode::Socks => Some(state.health.socks),
        Mode::Http => Some(state.health.http),
        Mode::Auto | Mode::Direct => None,
    }
}

/// The caption of a mode. An upstream without an address is told from one that
/// does not answer: the first is mended in the settings, the second in the
/// network.
pub open spec fn mode_caption(mode: Mode, state: AppState) -> Seq<char> {
    match health_of(mode, state) {
        None => mode_title(mode),
        Some(Reachability::Up) => mode_title(mode) + " · доступен"@,
        Some(Reachability::Down) => mode_title(mode) + " · недоступен"@,
        Some(Reachability::Unknown) => mode_title(mode) + " · не задан"@,
    }
}

/// The caption of a mode, with the state of its upstream.
pub fn mode_label(mode: Mode, state: &AppState) -> (out: String)
    ensures
        out@ == mode_caption(mode, *state),
{
    let health: Option<Reachability> = match mode {
        Mode::Socks => Some(state.health.socks),
        Mode::Http => Some(state.health.http),
        Mode::Auto | Mode::Direct => None,
    };
    let mut out = mode_name(mode).to_owned();
    match health {
        None => {},
        Some(Reachability::Up) => out.append(" · доступен"),
        Some(Reachability::Down) => out.append(" · недоступен"),
        Some(Reachability::Unknown) => out.append(" · не задан"),
    }
    out
}

// ---------------------------------------------------------------------------
// The menu
// ---------------------------------------------------------------------------

/// What a person chose in the menu.
#[derive(Debug, Clone, Copy, PartialEq, Eq, Structural)]
pub enum Action {
    SetMode(Mode),
    CopyAddress,
    OpenSettings,
    /// Open the settings page at the speed test.
    OpenBench,
    /// Open the settings page at the diagnostics.
    OpenDoctor,
    /// Open the settings page at the tunnel.
    OpenTunnel,
    Quit,
}

/// A line that only says something.
#[derive(Debug, Clone, Copy, PartialEq, Eq, Structural)]
pub enum Notice {
    Header,
    Network,
    Tunnel,
}

/// A line of the menu.
#[derive(Debug, PartialEq, Eq)]
pub enum MenuLine {
    /// A text that cannot be clicked.
    Notice(Notice, String),
    /// A mode, its caption, and whether it is the chosen one.
    Choice(Mode, String, bool),
    Command(Action, String),
    Separator,
}

/// A line of the menu, as a value.
#[verifier::ext_equal]
pub ghost enum MenuLineView {
    Notice(Notice, Seq<char>),
    Choice(Mode, Seq<char>, bool),
    Command(Action, Seq<char>),
    Separator,
}

impl View for MenuLine {
    type V = MenuLineView;

    open spec fn view(&self) -> MenuLineView {
        match *self {
            MenuLine::Notice(notice, text) => MenuLineView::Notice(notice, text@),
            MenuLine::Choice(mode, text, chosen) => MenuLineView::Choice(mode, text@, chosen),
            MenuLine::Command(action, text) => MenuLineView::Command(action, text@),
            MenuLine::Separator => MenuLineView::Separator,
        }
    }
}

/// The lines in a list.
pub open spec fn lines(v: Seq<MenuLine>) -> Seq<MenuLineView> {
    v.map_values(|line: MenuLine| line@)
}

/// The line of a mode.
pub open spec fn choice(mode: Mode, state: AppState) -> MenuLineView {
    MenuLineView::Choice(mode, mode_caption(mode, state), state.mode == mode)
}

/// The lines that say something.
pub open spec fn notices(state: AppState, tunnel: TunnelSnapshot) -> Seq<MenuLineView> {
    seq![
        MenuLineView::Notice(Notice::Header, header(state)),
        MenuLineView::Notice(Notice::Network, network_line(state)),
        MenuLineView::Notice(
            Notice::Tunnel,
            tunnel_line(tunnel_status(tunnel), tunnel.profile_installed),
        ),
    ]
}

/// The lines of the modes.
pub open spec fn choices(state: AppState) -> Seq<MenuLineView> {
    seq![
        choice(Mode::Auto, state),
        choice(Mode::Socks, state),
        choice(Mode::Http, state),
        choice(Mode::Direct, state),
    ]
}

/// The lines that do something, without the last.
pub open spec fn commands() -> Seq<MenuLineView> {
    seq![
        MenuLineView::Command(Action::OpenSettings, "Настройки…"@),
        MenuLineView::Command(Action::OpenBench, "Замерить скорость…"@),
        MenuLineView::Command(Action::OpenDoctor, "Диагностика…"@),
        MenuLineView::Command(Action::OpenTunnel, "Туннель…"@),
        MenuLineView::Command(Action::CopyAddress, "Копировать адрес моста"@),
    ]
}

/// The whole menu, from the top down.
pub open spec fn menu_lines(state: AppState, tunnel: TunnelSnapshot) -> Seq<MenuLineView> {
    notices(state, tunnel).push(MenuLineView::Separator) + choices(state).push(
        MenuLineView::Separator,
    ) + commands().push(MenuLineView::Separator).push(
        MenuLineView::Command(Action::Quit, "Выход"@),
    )
}

fn mode_line(mode: Mode, state: &AppState) -> (out: MenuLine)
    ensures
        out@ == choice(mode, *state),
{
    MenuLine::Choice(mode, mode_label(mode, state), state.mode == mode)
}

/// The whole menu, from the top down.
pub fn menu(state: &AppState, tunnel: &TunnelSnapshot) -> (out: Vec<MenuLine>)
    ensures
        lines(out@) == menu_lines(*state, *tunnel),
{
    let out = vec![
        MenuLine::Notice(Notice::Header, header_text(state)),
        MenuLine::Notice(Notice::Network, network_text(state)),
        MenuLine::Notice(Notice::Tunnel, tunnel_text(tunnel)),
        MenuLine::Separator,
        mode_line(Mode::Auto, state),
        mode_line(Mode::Socks, state),
        mode_line(Mode::Http, state),
        mode_line(Mode::Direct, state),
        MenuLine::Separator,
        MenuLine::Command(Action::OpenSettings, "Настройки…".to_owned()),
        MenuLine::Command(Action::OpenBench, "Замерить скорость…".to_owned()),
        MenuLine::Command(Action::OpenDoctor, "Диагностика…".to_owned()),
        MenuLine::Command(Action::OpenTunnel, "Туннель…".to_owned()),
        MenuLine::Command(Action::CopyAddress, "Копировать адрес моста".to_owned()),
        MenuLine::Separator,
        MenuLine::Command(Action::Quit, "Выход".to_owned()),
    ];
    assert(lines(out@) =~= menu_lines(*state, *tunnel));
    out
}

/// The identifiers that the menu gave to its lines.
#[derive(Debug, PartialEq, Eq)]
pub struct MenuIds {
    pub quit: String,
    pub copy: String,
    pub settings: String,
    pub bench: String,
    pub doctor: String,
    pub open_tunnel: String,
    pub modes: Vec<(Mode, String)>,
}

/// The first mode in a list with this identifier.
pub open spec fn mode_with(modes: Seq<(Mode, String)>, id: Seq<char>) -> Option<Mode>
    decreases modes.len(),
{
    if modes.len() == 0 {
        None
    } else if modes[0].1@ == id {
        Some(modes[0].0)
    } else {
        mode_with(modes.skip(1), id)
    }
}

/// What the line with this identifier does.
pub open spec fn action_of(ids: MenuIds, id: Seq<char>) -> Option<Action> {
    if id == ids.quit@ {
        Some(Action::Quit)
    } else if id == ids.copy@ {
        Some(Action::CopyAddress)
    } else if id == ids.settings@ {
        Some(Action::OpenSettings)
    } else if id == ids.bench@ {
        Some(Action::OpenBench)
    } else if id == ids.doctor@ {
        Some(Action::OpenDoctor)
    } else if id == ids.open_tunnel@ {
        Some(Action::OpenTunnel)
    } else {
        match mode_with(ids.modes@, id) {
            Some(mode) => Some(Action::SetMode(mode)),
            None => None,
        }
    }
}

fn find_mode(modes: &Vec<(Mode, String)>, id: &str) -> (out: Option<Mode>)
    ensures
        out == mode_with(modes@, id@),
{
    assert(modes@.skip(0) =~= modes@);
    let mut i: usize = 0;
    while i < modes.len()
        invariant
            i <= modes.len(),
            mode_with(modes@, id@) == mode_with(modes@.skip(i as int), id@),
        decreases modes.len() - i,
    {
        assert(modes@.skip(i as int)[0] == modes@[i as int]);
        assert(modes@.skip(i as int).skip(1) =~= modes@.skip(i + 1));
        if same(id, modes[i].1.as_str()) {
            return Some(modes[i].0);
        }
        i += 1;
    }
    None
}

/// The tray: which lines its menu has, which icon is drawn and which port is
/// named.
#[derive(Debug, PartialEq, Eq)]
pub struct Tray {
    pub ids: MenuIds,
    /// The icon that is drawn, if it is known.
    pub shown: Option<IconKind>,
    pub port: u16,
}

/// What to show from now on.
#[derive(Debug, PartialEq, Eq)]
pub struct Refreshed {
    /// The first line of the menu, and the tooltip.
    pub header: String,
    pub network: String,
    pub tunnel: String,
    /// The lines of the modes, in the order of the menu.
    pub modes: Vec<MenuLine>,
    /// The icon to draw; none where the right one is drawn already.
    pub icon: Option<IconKind>,
}

/// The icon to draw, if the one that is drawn is not it.
pub open spec fn icon_to_draw(shown: Option<IconKind>, state: AppState) -> Option<IconKind> {
    if shown == Some(icon(state)) {
        None
    } else {
        Some(icon(state))
    }
}

impl Tray {
    /// A tray whose menu and icon were made for this state.
    pub fn new(state: &AppState, ids: MenuIds) -> (out: Self)
        ensures
            out.ids == ids,
            out.shown == Some(icon(*state)),
            out.port == state.port,
    {
        Tray { ids, shown: Some(icon_for(state)), port: state.port }
    }

    /// Takes in a new state and says what to show.
    pub fn refresh(&mut self, state: &AppState, tunnel: &TunnelSnapshot) -> (out: Refreshed)
        ensures
            final(self).ids == old(self).ids,
            final(self).shown == old(self).shown,
            final(self).port == state.port,
            out.header@ == header(*state),
            out.network@ == network_line(*state),
            out.tunnel@ == tunnel_line(tunnel_status(*tunnel), tunnel.profile_installed),
            lines(out.modes@) == choices(*state),
            out.icon == icon_to_draw(old(self).shown, *state),
    {
        self.port = state.port;
        let modes = vec![
            mode_line(Mode::Auto, state),
            mode_line(Mode::Socks, state),
            mode_line(Mode::Http, state),
            mode_line(Mode::Direct, state),
        ];
        assert(lines(modes@) =~= choices(*state));
        let kind = icon_for(state);
        let drawn = match self.shown {
            Some(shown) => shown == kind,
            None => false,
        };
        Refreshed {
            header: header_text(state),
            network: network_text(state),
            tunnel: tunnel_text(tunnel),
            modes,
            icon: if drawn {
                None
            } else {
                Some(kind)
            },
        }
    }

    /// Takes in whether an icon could be drawn. Where it could not, none is
    /// known to be drawn, and the next state draws it again.
    pub fn icon_drawn(&mut self, kind: IconKind, drawn: bool)
        ensures
            final(self).ids == old(self).ids,
            final(self).port == old(self).port,
            final(self).shown == (if drawn {
                Some(kind)
            } else {
                None::<IconKind>
            }),
    {
        self.shown = if drawn {
            Some(kind)
        } else {
            None
        };
    }

    /// What the line with this identifier does.
    pub fn action_for(&self, id: &str) -> (out: Option<Action>)
        ensures
            out == action_of(self.ids, id@),
    {
        let ids = &self.ids;
        if same(id, ids.quit.as_str()) {
            return Some(Action::Quit);
        }
        if same(id, ids.copy.as_str()) {
            return Some(Action::CopyAddress);
        }
        if same(id, ids.settings.as_str()) {
            return Some(Action::OpenSettings);
        }
        if same(id, ids.bench.as_str()) {
            return Some(Action::OpenBench);
        }
        if same(id, ids.doctor.as_str()) {
            return Some(Action::OpenDoctor);
        }
        if same(id, ids.open_tunnel.as_str()) {
            return Some(Action::OpenTunnel);
        }
        match find_mode(&ids.modes, id) {
            Some(mode) => Some(Action::SetMode(mode)),
            None => None,
        }
    }

    /// The address of the bridge, as it goes into the settings of a client.
    pub fn copy_address(&self) -> (out: String)
        ensures
            out@ == "http://"@ + bridge_at(self.port),
    {
        let mut out = "http://".to_owned();
        out.append(bridge_address(self.port).as_str());
        out
    }
}

// ---------------------------------------------------------------------------
// The end of the session
// ---------------------------------------------------------------------------

/// The system asks whether the session may end.
pub const WM_QUERYENDSESSION: u32 = 0x0011;

/// The system says whether the session ends.
pub const WM_ENDSESSION: u32 = 0x0016;

/// What the window of the tray does with a message.
#[derive(Debug, PartialEq, Eq)]
pub enum WindowStep {
    /// Answer "yes" at once.
    Agree,
    /// Give the settings of the system back, then hand the message on.
    RestoreAndPass,
    /// Hand the message on.
    Pass,
}

/// The session ends, and was not kept alive by somebody's veto.
pub fn session_is_ending(wparam: usize) -> (out: bool)
    ensures
        out == (wparam != 0),
{
    wparam != 0
}

/// What the window of the tray does with a message.
pub fn on_window_message(message: u32, wparam: usize) -> (out: WindowStep)
    ensures
        out == (if message == WM_QUERYENDSESSION {
            WindowStep::Agree
        } else if message == WM_ENDSESSION && wparam != 0 {
            WindowStep::RestoreAndPass
        } else {
            WindowStep::Pass
        }),
{
    if message == WM_QUERYENDSESSION {
        WindowStep::Agree
    } else if message == WM_ENDSESSION && session_is_ending(wparam) {
        WindowStep::RestoreAndPass
    } else {
        WindowStep::Pass
    }
}

// ---------------------------------------------------------------------------
// Laws
// ---------------------------------------------------------------------------

/// All the identifiers of a menu.
pub open spec fn all_ids(ids: MenuIds) -> Seq<Seq<char>> {
    seq![
        ids.quit@,
        ids.copy@,
        ids.settings@,
        ids.bench@,
        ids.doctor@,
        ids.open_tunnel@,
    ] + Seq::new(ids.modes@.len(), |i: int| ids.modes@[i].1@)
}

proof fn lemma_mode_found(modes: Seq<(Mode, String)>, i: int)
    requires
        0 <= i < modes.len(),
        forall|j: int| 0 <= j < i ==> (#[trigger] modes[j]).1@ != modes[i].1@,
    ensures
        mode_with(modes, modes[i].1@) == Some(modes[i].0),
    decreases modes.len(),
{
    if i > 0 {
        let rest = modes.skip(1);
        assert(modes[0].1@ != modes[i].1@);
        assert forall|j: int| 0 <= j < i - 1 implies (#[trigger] rest[j]).1@ != rest[i - 1].1@ by {
            assert(rest[j] == modes[j + 1]);
        }
        lemma_mode_found(rest, i - 1);
    }
}

proof fn lemma_mode_not_found(modes: Seq<(Mode, String)>, id: Seq<char>)
    requires
        forall|j: int| 0 <= j < modes.len() ==> (#[trigger] modes[j]).1@ != id,
    ensures
        mode_with(modes, id) is None,
    decreases modes.len(),
{
    if modes.len() > 0 {
        let rest = modes.skip(1);
        assert(modes[0].1@ != id);
        assert forall|j: int| 0 <= j < rest.len() implies (#[trigger] rest[j]).1@ != id by {
            assert(rest[j] == modes[j + 1]);
        }
        lemma_mode_not_found(rest, id);
    }
}

/// In a menu whose lines have different identifiers each line does what it
/// says.
pub proof fn every_line_does_what_it_says(ids: MenuIds)
    requires
        all_ids(ids).no_duplicates(),
    ensures
        action_of(ids, ids.quit@) == Some(Action::Quit),
        action_of(ids, ids.copy@) == Some(Action::CopyAddress),
        action_of(ids, ids.settings@) == Some(Action::OpenSettings),
        action_of(ids, ids.bench@) == Some(Action::OpenBench),
        action_of(ids, ids.doctor@) == Some(Action::OpenDoctor),
        action_of(ids, ids.open_tunnel@) == Some(Action::OpenTunnel),
        forall|i: int|
            0 <= i < ids.modes@.len() ==> action_of(ids, (#[trigger] ids.modes@[i]).1@) == Some(
                Action::SetMode(ids.modes@[i].0),
            ),
{
    let all = all_ids(ids);
    assert(all[0] == ids.quit@ && all[1] == ids.copy@ && all[2] == ids.settings@ && all[3]
        == ids.bench@ && all[4] == ids.doctor@ && all[5] == ids.open_tunnel@);
    assert forall|i: int| 0 <= i < ids.modes@.len() implies action_of(
        ids,
        (#[trigger] ids.modes@[i]).1@,
    ) == Some(Action::SetMode(ids.modes@[i].0)) by {
        assert(all[i + 6] == ids.modes@[i].1@);
        assert forall|j: int| 0 <= j < i implies (#[trigger] ids.modes@[j]).1@
            != ids.modes@[i].1@ by {
            assert(all[j + 6] == ids.modes@[j].1@);
        }
        lemma_mode_found(ids.modes@, i);
    }
}

/// A click that belongs to no line of the menu does nothing.
pub proof fn a_foreign_line_does_nothing(ids: MenuIds, id: Seq<char>)
    requires
        !all_ids(ids).contains(id),
    ensures
        action_of(ids, id) is None,
{
    let all = all_ids(ids);
    assert(all[0] == ids.quit@ && all[1] == ids.copy@ && all[2] == ids.settings@ && all[3]
        == ids.bench@ && all[4] == ids.doctor@ && all[5] == ids.open_tunnel@);
    assert forall|j: int| 0 <= j < ids.modes@.len() implies (#[trigger] ids.modes@[j]).1@
        != id by {
        assert(all[j + 6] == ids.modes@[j].1@);
    }
    lemma_mode_not_found(ids.modes@, id);
}

/// The menu marks exactly the chosen mode.
pub proof fn only_the_chosen_mode_is_marked(state: AppState)
    ensures
        forall|i: int|
            0 <= i < choices(state).len() ==> {
                &&& #[trigger] choices(state)[i] matches MenuLineView::Choice(mode, _, chosen)
                &&& chosen == (mode == state.mode)
            },
        exists|i: int|
            0 <= i < choices(state).len() && #[trigger] choices(state)[i] == choice(
                state.mode,
                state,
            ),
{
    let all = choices(state);
    let i: int = match state.mode {
        Mode::Auto => 0,
        Mode::Socks => 1,
        Mode::Http => 2,
        Mode::Direct => 3,
    };
    assert(all[i] == choice(state.mode, state));
}

/// Once the right icon is drawn, the same state draws nothing more; once
/// drawing has failed, every state draws again.
pub proof fn the_icon_is_drawn_once(state: AppState)
    ensures
        icon_to_draw(Some(icon(state)), state) is None,
        icon_to_draw(None, state) == Some(icon(state)),
{
}

/// The menu says "up" exactly where the tunnel is known to be up.
pub proof fn the_menu_says_up_where_the_tunnel_is_up(snap: TunnelSnapshot)
    ensures
        tunnel_line(tunnel_status(snap), snap.profile_installed) == "Туннель: поднят"@
            <==> tunnel_status(snap) is Up,
{
    reveal_strlit("Туннель: поднят");
    reveal_strlit("Туннель: OpenVPN не установлен");
    reveal_strlit("Туннель: состояние неизвестно");
    reveal_strlit("Туннель: поднимается…");
    reveal_strlit("Туннель: опущен · маршруты не проверены");
    reveal_strlit("Туннель: опущен · маршруты заняты другим адаптером");
    reveal_strlit("Туннель: опущен");
    reveal_strlit("Туннель: опущен · профиль не собран");
    assert("Туннель: поднят"@.len() == 15);
    assert("Туннель: опущен"@[9] == 'о' && "Туннель: поднят"@[9] == 'п');
}

/// The first line names the port that the bridge listens on and what happens to
/// traffic: that the upstream of the chosen mode was given up, or else the kind and
/// the address of the route.
pub proof fn the_header_tells_port_and_route(state: &AppState, name: &'static str, out: String)
    requires
        call_ensures(header_text, (state,), out),
        call_ensures(mode_name, (state.mode,), name),
    ensures
        ({
            let start = "Мост "@ + ("127.0.0.1:"@ + decimal(state.port as nat)) + " · "@;
            &&& state.demoted ==> out@ == start + (name@ + " недоступен → работаем напрямую"@)
            &&& !state.demoted ==> (state.route matches Route::Socks(address) ==> out@ == start + (
            "SOCKS5 → "@ + address@))
            &&& !state.demoted ==> (state.route matches Route::Http(address) ==> out@ == start + (
            "HTTP → "@ + address@))
            &&& !state.demoted && state.route is Direct ==> out@ == start + "напрямую"@
        }),
{
}

/// The line about the network has its shown name, and says "office" exactly where
/// it is one.
pub proof fn the_network_line_tells_the_network(
    state: &AppState,
    name: Option<&str>,
    out: String,
)
    requires
        call_ensures(network_text, (state,), out),
        call_ensures(Place::shown_network, (&state.place,), name),
    ensures
        name is None ==> out@ == "Сеть: не определена"@,
        name is Some && state.place.in_office ==> out@ == "Сеть: "@ + name->0@ + " · офис"@,
        name is Some && !state.place.in_office ==> out@ == "Сеть: "@ + name->0@,
{
}

/// The line about the tunnel is the first of these that holds.
pub proof fn the_tunnel_line_tells_the_tunnel(snap: &TunnelSnapshot, out: String)
    requires
        call_ensures(tunnel_text, (snap,), out),
    ensures
        out@ == (if !snap.installed {
            "Туннель: OpenVPN не установлен"@
        } else if snap.liveness_error is Some {
            "Туннель: состояние неизвестно"@
        } else if snap.our_tunnel_up {
            "Туннель: поднят"@
        } else if snap.rising {
            "Туннель: поднимается…"@
        } else if snap.routes_error is Some {
            "Туннель: опущен · маршруты не проверены"@
        } else if snap.foreign_tunnel_up {
            "Туннель: опущен · маршруты заняты другим адаптером"@
        } else if snap.profile_installed {
            "Туннель: опущен"@
        } else {
            "Туннель: опущен · профиль не собран"@
        }),
{
}

/// What is said of an upstream that was probed so.
pub open spec fn said_of(health: Reachability) -> Seq<char> {
    if health == Reachability::Up {
        " · доступен"@
    } else if health == Reachability::Down {
        " · недоступен"@
    } else {
        " · не задан"@
    }
}

/// Behind the name of a mode stands the health of its own upstream, and nothing
/// where it has none.
pub proof fn a_mode_tells_of_its_own_upstream(state: &AppState, mode: Mode, out: String)
    requires
        call_ensures(mode_label, (mode, state), out),
    ensures
        mode == Mode::Socks ==> out@ == "SOCKS5"@ + said_of(state.health.socks),
        mode == Mode::Http ==> out@ == "HTTP"@ + said_of(state.health.http),
        mode == Mode::Auto ==> out@ == "Авто"@,
        mode == Mode::Direct ==> out@ == "Напрямую"@,
{
}

/// The line offers this action under this caption.
pub open spec fn offers(line: MenuLine, action: Action, caption: Seq<char>) -> bool {
    line matches MenuLine::Command(a, text) && a == action && text@ == caption
}

/// The line offers this mode, with this caption and this mark.
pub open spec fn offers_mode(line: MenuLine, mode: Mode, caption: Seq<char>, marked: bool) -> bool {
    line matches MenuLine::Choice(m, text, chosen) && m == mode && text@ == caption && chosen
        == marked
}

/// The menu from the top down: what is, the modes with the chosen one marked, what
/// can be done, and the way out last.
pub proof fn the_menu_from_the_top_down(
    state: &AppState,
    tunnel: &TunnelSnapshot,
    texts: (String, String, String),
    captions: (String, String, String, String),
    out: Vec<MenuLine>,
)
    requires
        call_ensures(menu, (state, tunnel), out),
        call_ensures(header_text, (state,), texts.0),
        call_ensures(network_text, (state,), texts.1),
        call_ensures(tunnel_text, (tunnel,), texts.2),
        call_ensures(mode_label, (Mode::Auto, state), captions.0),
        call_ensures(mode_label, (Mode::Socks, state), captions.1),
        call_ensures(mode_label, (Mode::Http, state), captions.2),
        call_ensures(mode_label, (Mode::Direct, state), captions.3),
    ensures
        out@.len() == 16,
        out@[0] matches MenuLine::Notice(Notice::Header, text) && text@ == texts.0@,
        out@[1] matches MenuLine::Notice(Notice::Network, text) && text@ == texts.1@,
        out@[2] matches MenuLine::Notice(Notice::Tunnel, text) && text@ == texts.2@,
        out@[3] is Separator && out@[8] is Separator && out@[14] is Separator,
        offers_mode(out@[4], Mode::Auto, captions.0@, state.mode == Mode::Auto),
        offers_mode(out@[5], Mode::Socks, captions.1@, state.mode == Mode::Socks),
        offers_mode(out@[6], Mode::Http, captions.2@, state.mode == Mode::Http),
        offers_mode(out@[7], Mode::Direct, captions.3@, state.mode == Mode::Direct),
        offers(out@[9], Action::OpenSettings, "Настройки…"@),
        offers(out@[10], Action::OpenBench, "Замерить скорость…"@),
        offers(out@[11], Action::OpenDoctor, "Диагностика…"@),
        offers(out@[12], Action::OpenTunnel, "Туннель…"@),
        offers(out@[13], Action::CopyAddress, "Копировать адрес моста"@),
        offers(out@[15], Action::Quit, "Выход"@),
{
    let all = menu_lines(*state, *tunnel);
    assert(lines(out@).len() == out@.len());
    assert forall|i: int| 0 <= i < out@.len() implies (#[trigger] out@[i])@ == all[i] by {
        assert(lines(out@)[i] == out@[i]@);
    }
    assert(all.len() == 16);
    assert(all[0] is Notice && all[1] is Notice && all[2] is Notice && all[3] is Separator);
    assert(all[4] is Choice && all[5] is Choice && all[6] is Choice && all[7] is Choice);
    assert(all[8] is Separator && all[14] is Separator);
    assert(all[9] is Command && all[10] is Command && all[11] is Command && all[12] is Command);
    assert(all[13] is Command && all[15] is Command);
}

/// A click does what the line with its identifier says, and one with no
/// identifier of the menu does nothing.
pub proof fn a_click_does_what_its_line_says(tray: &Tray, id: &str, out: Option<Action>, i: int)
    requires
        call_ensures(Tray::action_for, (tray, id), out),
        all_ids(tray.ids).no_duplicates(),
    ensures
        out == Some(Action::Quit) <==> id@ == tray.ids.quit@,
        out == Some(Action::CopyAddress) <==> id@ == tray.ids.copy@,
        out == Some(Action::OpenSettings) <==> id@ == tray.ids.settings@,
        out == Some(Action::OpenBench) <==> id@ == tray.ids.bench@,
        out == Some(Action::OpenDoctor) <==> id@ == tray.ids.doctor@,
        out == Some(Action::OpenTunnel) <==> id@ == tray.ids.open_tunnel@,
        0 <= i < tray.ids.modes@.len() && id@ == tray.ids.modes@[i].1@ ==> out == Some(
            Action::SetMode(tray.ids.modes@[i].0),
        ),
        !all_ids(tray.ids).contains(id@) ==> out is None,
{
    every_line_does_what_it_says(tray.ids);
    let all = all_ids(tray.ids);
    assert(all[0] == tray.ids.quit@ && all[1] == tray.ids.copy@ && all[2] == tray.ids.settings@
        && all[3] == tray.ids.bench@ && all[4] == tray.ids.doctor@ && all[5]
        == tray.ids.open_tunnel@);
    if !all.contains(id@) {
        a_foreign_line_does_nothing(tray.ids, id@);
    }
}

/// What is copied is the address of the bridge with its scheme.
pub proof fn the_copied_address_is_that_of_the_bridge(tray: &Tray, out: String)
    requires
        call_ensures(Tray::copy_address, (tray,), out),
    ensures
        out@ == "http://"@ + ("127.0.0.1:"@ + decimal(tray.port as nat)),
{
}

/// A new state is shown as the menu shows it, on the port that it names. An icon
/// is drawn exactly where the one of the state is not known to stand there.
pub proof fn a_new_state_is_shown(
    tray: &mut Tray,
    state: &AppState,
    tunnel: &TunnelSnapshot,
    kind: IconKind,
    texts: (String, String, String),
    captions: (String, String, String, String),
    out: Refreshed,
)
    requires
        call_ensures(Tray::refresh, (tray, state, tunnel), out),
        call_ensures(icon_for, (state,), kind),
        call_ensures(header_text, (state,), texts.0),
        call_ensures(network_text, (state,), texts.1),
        call_ensures(tunnel_text, (tunnel,), texts.2),
        call_ensures(mode_label, (Mode::Auto, state), captions.0),
        call_ensures(mode_label, (Mode::Socks, state), captions.1),
        call_ensures(mode_label, (Mode::Http, state), captions.2),
        call_ensures(mode_label, (Mode::Direct, state), captions.3),
    ensures
        final(tray).port == state.port,
        final(tray).ids == old(tray).ids,
        final(tray).shown == old(tray).shown,
        out.header@ == texts.0@,
        out.network@ == texts.1@,
        out.tunnel@ == texts.2@,
        out.modes@.len() == 4,
        offers_mode(out.modes@[0], Mode::Auto, captions.0@, state.mode == Mode::Auto),
        offers_mode(out.modes@[1], Mode::Socks, captions.1@, state.mode == Mode::Socks),
        offers_mode(out.modes@[2], Mode::Http, captions.2@, state.mode == Mode::Http),
        offers_mode(out.modes@[3], Mode::Direct, captions.3@, state.mode == Mode::Direct),
        old(tray).shown == Some(kind) ==> out.icon is None,
        old(tray).shown != Some(kind) ==> out.icon == Some(kind),
{
    let all = choices(*state);
    assert(lines(out.modes@).len() == out.modes@.len());
    assert forall|i: int| 0 <= i < out.modes@.len() implies (#[trigger] out.modes@[i])@
        == all[i] by {
        assert(lines(out.modes@)[i] == out.modes@[i]@);
    }
    assert(all.len() == 4);
    assert(all[0] is Choice && all[1] is Choice && all[2] is Choice && all[3] is Choice);
}

/// An icon that was drawn is known to stand there, and one that was not is not.
pub proof fn an_icon_stands_where_it_was_drawn(tray: &mut Tray, kind: IconKind, drawn: bool)
    requires
        call_ensures(Tray::icon_drawn, (tray, kind, drawn), ()),
    ensures
        drawn ==> final(tray).shown == Some(kind),
        !drawn ==> final(tray).shown is None,
        final(tray).port == old(tray).port,
        final(tray).ids == old(tray).ids,
{
}

/// The tray starts with the icon and the port of the state that it was made for.
pub proof fn a_new_tray_shows_its_state(state: &AppState, ids: MenuIds, kind: IconKind, out: Tray)
    requires
        call_ensures(Tray::new, (state, ids), out),
        call_ensures(icon_for, (state,), kind),
    ensures
        out.shown == Some(kind),
        out.port == state.port,
        out.ids == ids,
{
}

/// The end of the session is agreed to, and the settings of the system are given
/// back exactly where the session really ends.
pub proof fn the_settings_are_given_back_when_the_session_ends(
    message: u32,
    wparam: usize,
    out: WindowStep,
)
    requires
        call_ensures(on_window_message, (message, wparam), out),
    ensures
        out is Agree <==> message == 0x11,
        out is RestoreAndPass <==> message == 0x16 && wparam != 0,
        out is Pass <==> message != 0x11 && (message != 0x16 || wparam == 0),
{
}

/// The bridge listens on this machine alone.
pub proof fn the_bridge_listens_on_this_machine(port: u16, out: String)
    requires
        call_ensures(bridge_address, (port,), out),
    ensures
        out@ == "127.0.0.1:"@ + decimal(port as nat),
{
}

/// The session ends where the system says so.
pub proof fn a_session_that_was_kept_alive_goes_on(wparam: usize, out: bool)
    requires
        call_ensures(session_is_ending, (wparam,), out),
    ensures
        out <==> wparam != 0,
{
}

} // verus!
