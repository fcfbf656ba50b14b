//! What the buttons of the settings page do.
//!
//! A new port of the bridge is saved but never takes effect while the program
//! runs: binding anew would break every connection. And what makes a
//! configuration valid is said in one place, which is not this page: the page
//! shows the error that it gets.

use vstd::prelude::*;
use vstd::string::*;
use crate::doctor::{diagnostics, reading, run_checks, checks_in, Check};
use crate::model::{copy_texts, networks, text_in, texts, AppState, Config, ConfigView, Mode};
use crate::model::{same_beside_the_form, same_in_the_form, the_view_tells_configurations_apart};
use crate::model::{OfficeNetwork, OfficeNetworkView, Place, SysProxy};
use crate::settings_page::form::{config_from_form, first_value, form_config, or_empty, present};
use crate::settings_page::form::Form;
use crate::settings_page::page::{notes_in, page, page_html, Note, NoteView, Outcome};
use crate::text::{equal_but_case, same, same_but_case};
use crate::tunnel::{tunnel_status, Tunnel, TunnelSnapshot, TUNNEL_PROFILE_NAME};

verus! {

// ---------------------------------------------------------------------------
// Outcomes
// ---------------------------------------------------------------------------

pub open spec fn note_of(bad: bool, text: Seq<char>) -> NoteView {
    NoteView { bad, text }
}

/// The outcome shows these notes and nothing else.
pub open spec fn shows_notes(outcome: Outcome, notes: Seq<NoteView>) -> bool {
    notes_in(outcome.notes@) == notes && outcome.bench is None && outcome.doctor is None
}

impl Default for Outcome {
    fn default() -> (out: Self)
        ensures
            shows_notes(out, Seq::empty()),
    {
        let out = Outcome { notes: Vec::new(), bench: None, doctor: None };
        assert(notes_in(out.notes@) =~= Seq::empty());
        out
    }
}

impl Outcome {
    /// One note and nothing else.
    fn one(bad: bool, text: String) -> (out: Outcome)
        ensures
            shows_notes(out, seq![note_of(bad, text@)]),
    {
        let mut notes: Vec<Note> = Vec::new();
        notes.push(Note { bad, text });
        assert(notes_in(notes@) =~= seq![note_of(bad, text@)]);
        Outcome { notes, bench: None, doctor: None }
    }

    /// A refusal and nothing else.
    pub fn bad(text: String) -> (out: Outcome)
        ensures
            shows_notes(out, seq![note_of(true, text@)]),
    {
        Outcome::one(true, text)
    }
}

// ---------------------------------------------------------------------------
// The live configuration
// ---------------------------------------------------------------------------

/// The configuration that the bridge runs with, given the one that was saved.
/// They differ in the port alone.
pub fn live_config(saved: &Config, bound_port: u16) -> (out: Config)
    ensures
        out@ == (ConfigView { bridge_port: bound_port, ..saved@ }),
{
    let mut live = saved.clone();
    live.bridge_port = bound_port;
    live
}

/// A change of the configuration.
#[derive(Debug, PartialEq, Eq)]
pub enum Change {
    Mode(Mode),
    Whole(Box<Config>),
}

/// The configuration behind a change.
pub open spec fn changed(saved: ConfigView, change: Change) -> ConfigView {
    match change {
        Change::Mode(mode) => ConfigView { mode, ..saved },
        Change::Whole(config) => config@,
    }
}

/// Applies a change to the saved configuration. Returns the configuration that
/// the bridge runs with from now on.
pub fn apply_change(saved: &mut Config, change: Change, bound_port: u16) -> (live: Config)
    ensures
        final(saved)@ == changed(old(saved)@, change),
        live@ == (ConfigView { bridge_port: bound_port, ..final(saved)@ }),
{
    match change {
        Change::Mode(mode) => {
            saved.mode = mode;
        },
        Change::Whole(config) => {
            *saved = *config;
        },
    }
    live_config(saved, bound_port)
}

// ---------------------------------------------------------------------------
// Which button it was
// ---------------------------------------------------------------------------

/// The button that sent the form.
#[derive(Debug, PartialEq, Eq)]
pub enum Button {
    Bench,
    Doctor,
    Save,
    /// Save, and make the current network an office network.
    Office,
    BuildTunnelProfile,
    RaiseTunnel,
    LowerTunnel,
    InstallService,
    Unknown(String),
}

/// What the form names as its action. A form without an action saves.
pub open spec fn action_name(fields: Seq<(Seq<char>, Seq<char>)>) -> Seq<char> {
    match first_value(fields, "action"@) {
        Some(name) => name,
        None => "save"@,
    }
}

/// The button has this name in the form.
pub open spec fn button_name(button: Button) -> Seq<char> {
    match button {
        Button::Bench => "bench"@,
        Button::Doctor => "doctor"@,
        Button::Save => "save"@,
        Button::Office => "office"@,
        Button::BuildTunnelProfile => "build_tunnel_profile"@,
        Button::RaiseTunnel => "raise_tunnel"@,
        Button::LowerTunnel => "lower_tunnel"@,
        Button::InstallService => "install_service"@,
        Button::Unknown(name) => name@,
    }
}

/// The name belongs to a button of the page.
pub open spec fn is_button_name(name: Seq<char>) -> bool {
    ||| name == "bench"@
    ||| name == "doctor"@
    ||| name == "save"@
    ||| name == "office"@
    ||| name == "build_tunnel_profile"@
    ||| name == "raise_tunnel"@
    ||| name == "lower_tunnel"@
    ||| name == "install_service"@
}

/// Tells which button sent the form.
pub fn button_of(form: &Form) -> (out: Button)
    ensures
        button_name(out) == action_name(form@),
        out is Unknown <==> !is_button_name(action_name(form@)),
{
    let name: &str = match form.get("action") {
        Some(name) => name,
        None => "save",
    };
    if same(name, "bench") {
        Button::Bench
    } else if same(name, "doctor") {
        Button::Doctor
    } else if same(name, "save") {
        Button::Save
    } else if same(name, "office") {
        Button::Office
    } else if same(name, "build_tunnel_profile") {
        Button::BuildTunnelProfile
    } else if same(name, "raise_tunnel") {
        Button::RaiseTunnel
    } else if same(name, "lower_tunnel") {
        Button::LowerTunnel
    } else if same(name, "install_service") {
        Button::InstallService
    } else {
        Button::Unknown(name.to_owned())
    }
}

/// Answers a button that the page does not have.
pub fn unknown_button(name: &str) -> (out: Outcome)
    ensures
        shows_notes(out, seq![note_of(true, "неизвестное действие «"@ + name@ + "»"@)]),
{
    let mut text = "неизвестное действие «".to_owned();
    text.append(name);
    text.append("»");
    Outcome::bad(text)
}

// ---------------------------------------------------------------------------
// Saving
// ---------------------------------------------------------------------------

/// The network is in the list, whatever the case of its letters.
pub open spec fn lists_network(list: Seq<OfficeNetworkView>, id: Seq<char>) -> bool {
    exists|i: int| 0 <= i < list.len() && same_but_case((#[trigger] list[i]).id, id)
}

/// The configuration that a form asks for, with the current network added to
/// the office networks where the button said so.
pub open spec fn requested(
    base: ConfigView,
    fields: Seq<(Seq<char>, Seq<char>)>,
    place: Place,
    add_current_network: bool,
) -> Result<ConfigView, Seq<char>> {
    match form_config(base, fields) {
        Err(e) => Err(e),
        Ok(next) => if !add_current_network {
            Ok(next)
        } else {
            match place.network {
                None => Err("текущая сеть не определена — добавлять нечего"@),
                Some(id) => if lists_network(next.office_networks, id@) {
                    Err("эта сеть уже в списке офисных"@)
                } else {
                    Ok(
                        ConfigView {
                            office_networks: next.office_networks.push(
                                OfficeNetworkView {
                                    id: id@,
                                    name: or_empty(text_in(place.network_name)),
                                },
                            ),
                            ..next
                        },
                    )
                },
            }
        },
    }
}

fn has_network(list: &Vec<OfficeNetwork>, id: &str) -> (out: bool)
    ensures
        out == lists_network(networks(list@), id@),
{
    let ghost all = networks(list@);
    let mut i: usize = 0;
    while i < list.len()
        invariant
            i <= list@.len(),
            all == networks(list@),
            forall|k: int| 0 <= k < i ==> !same_but_case((#[trigger] all[k]).id, id@),
        decreases list.len() - i,
    {
        assert(all[i as int] == list@[i as int]@);
        if equal_but_case(list[i].id.as_str(), id) {
            return true;
        }
        i += 1;
    }
    false
}

/// Reads the configuration out of the form. Whether it is valid has yet to be
/// asked: see [`after_validation`].
pub fn requested_config(
    base: &Config,
    form: &Form,
    place: &Place,
    add_current_network: bool,
) -> (out: Result<Config, String>)
    ensures
        match (out, requested(base@, form@, *place, add_current_network)) {
            (Ok(config), Ok(c)) => config@ == c,
            (Err(message), Err(m)) => message@ == m,
            _ => false,
        },
{
    let mut next = match config_from_form(base, form) {
        Ok(next) => next,
        Err(message) => {
            return Err(message);
        },
    };
    if !add_current_network {
        return Ok(next);
    }
    match &place.network {
        None => Err("текущая сеть не определена — добавлять нечего".to_owned()),
        Some(id) => {
            if has_network(&next.office_networks, id.as_str()) {
                return Err("эта сеть уже в списке офисных".to_owned());
            }
            let name = match &place.network_name {
                Some(name) => name.clone(),
                None => String::new(),
            };
            let ghost before = next.office_networks@;
            let added = OfficeNetwork { id: id.clone(), name };
            next.office_networks.push(added);
            assert(networks(next.office_networks@) =~= networks(before).push(added@));
            Ok(next)
        },
    }
}

/// What to do with a configuration once it was asked whether it is valid.
#[derive(Debug, PartialEq, Eq)]
pub enum SaveStep {
    /// Show the page with this outcome. Nothing is sent, and the autostart stays
    /// as it is.
    Show(Outcome),
    /// Bring the autostart to what the form asks for, as [`apply_autostart`]
    /// says, and send this configuration to the supervisor.
    Send(Config),
}

/// What follows from the answer: the error is shown word for word, a valid
/// configuration is sent as it is.
pub open spec fn save_decision(
    result: Result<(), String>,
    config: ConfigView,
    step: SaveStep,
) -> bool {
    match result {
        Err(why) => step matches SaveStep::Show(o) && shows_notes(o, seq![note_of(true, why@)]),
        Ok(_) => step matches SaveStep::Send(c) && c@ == config,
    }
}

/// Decides what to do with a configuration, given what was said of it.
pub fn after_validation(result: Result<(), String>, config: Config) -> (out: SaveStep)
    ensures
        save_decision(result, config@, out),
{
    match result {
        Err(why) => SaveStep::Show(Outcome::bad(why)),
        Ok(_) => SaveStep::Send(config),
    }
}

/// What became of a configuration that was sent to the supervisor.
#[derive(Debug, PartialEq, Eq)]
pub enum ApplyReply {
    /// It could not be sent, or its sender went away: the program is stopping.
    Stopping,
    Applied,
    /// It is applied, but the disk does not have it.
    NotSaved(String),
    /// No answer came in time.
    Late,
}

/// What is said of a configuration that was sent.
pub open spec fn reply_note(port_changed: bool, reply: ApplyReply) -> NoteView {
    match reply {
        ApplyReply::Stopping => note_of(true, "приложение завершается — изменения не применены"@),
        ApplyReply::Applied => note_of(
            false,
            if port_changed {
                "Сохранено и применено. Порт моста вступит в силу после \
                 перезапуска ProxyPilot — на лету он не меняется."@
            } else {
                "Сохранено и применено."@
            },
        ),
        ApplyReply::NotSaved(why) => note_of(true, "Применено, но не сохранено в конфиг: "@ + why@),
        ApplyReply::Late => note_of(
            true,
            "супервизор не ответил вовремя; проверьте состояние в трее"@,
        ),
    }
}

/// The note on the autostart, if there is one, before the note on the
/// configuration.
pub open spec fn save_notes(
    autostart: Option<Note>,
    port_changed: bool,
    reply: ApplyReply,
) -> Seq<NoteView> {
    let last = reply_note(port_changed, reply);
    match autostart {
        Some(note) => seq![note@, last],
        None => seq![last],
    }
}

/// What to show once the supervisor has answered, or has not.
pub fn apply(autostart: Option<Note>, next_port: u16, bound_port: u16, reply: ApplyReply) -> (out:
    Outcome)
    ensures
        shows_notes(out, save_notes(autostart, next_port != bound_port, reply)),
{
    let mut notes: Vec<Note> = Vec::new();
    let ghost expected = save_notes(autostart, next_port != bound_port, reply);
    if let Some(note) = autostart {
        notes.push(note);
    }
    let (bad, text) = match reply {
        ApplyReply::Stopping => (
            true,
            "приложение завершается — изменения не применены".to_owned(),
        ),
        ApplyReply::Applied => (
            false,
            if next_port != bound_port {
                "Сохранено и применено. Порт моста вступит в силу после \
                 перезапуска ProxyPilot — на лету он не меняется.".to_owned()
            } else {
                "Сохранено и применено.".to_owned()
            },
        ),
        ApplyReply::NotSaved(why) => {
            let mut text = "Применено, но не сохранено в конфиг: ".to_owned();
            text.append(why.as_str());
            (true, text)
        },
        ApplyReply::Late => (
            true,
            "супервизор не ответил вовремя; проверьте состояние в трее".to_owned(),
        ),
    };
    notes.push(Note { bad, text });
    assert(notes_in(notes@) =~= expected);
    Outcome { notes, bench: None, doctor: None }
}

// ---------------------------------------------------------------------------
// The autostart
// ---------------------------------------------------------------------------

/// Starting with the system.
pub trait Autostart: Send + Sync {
    fn is_enabled(&self) -> Result<bool, String>;

    fn set(&self, on: bool) -> Result<(), String>;
}

pub const AUTOSTART_PENDING: &'static str = "автозапуск ещё не подключён в этой сборке";

/// An autostart that is not there: it refuses everything and says so.
pub struct AutostartPending;

impl Autostart for AutostartPending {
    fn is_enabled(&self) -> (out: Result<bool, String>)
        ensures
            out matches Err(why) && why@ == AUTOSTART_PENDING@,
    {
        Err(AUTOSTART_PENDING.to_owned())
    }

    fn set(&self, on: bool) -> (out: Result<(), String>)
        ensures
            out matches Err(why) && why@ == AUTOSTART_PENDING@,
    {
        Err(AUTOSTART_PENDING.to_owned())
    }
}

/// What to do about the autostart.
#[derive(Debug, PartialEq, Eq)]
pub enum AutostartPlan {
    /// There is nothing to do and nothing to say.
    Nothing,
    Switch(bool),
    Report(Note),
}

pub open spec fn autostart_unchanged(why: Seq<char>) -> NoteView {
    note_of(true, "Автозапуск не изменён: "@ + why)
}

/// What to do, given what is wanted and what is. Where the state is not known
/// nothing is written, and something is said only if a change was wanted.
pub open spec fn autostart_decision(
    wanted: bool,
    enabled: Result<bool, String>,
    plan: AutostartPlan,
) -> bool {
    match enabled {
        Ok(current) => if current == wanted {
            plan is Nothing
        } else {
            plan == AutostartPlan::Switch(wanted)
        },
        Err(why) => if wanted {
            plan matches AutostartPlan::Report(note) && note@ == autostart_unchanged(why@)
        } else {
            plan is Nothing
        },
    }
}

/// Decides what to do about the autostart.
pub fn plan_autostart(wanted: bool, enabled: &Result<bool, String>) -> (out: AutostartPlan)
    ensures
        autostart_decision(wanted, *enabled, out),
{
    match enabled {
        Ok(current) => if *current == wanted {
            AutostartPlan::Nothing
        } else {
            AutostartPlan::Switch(wanted)
        },
        Err(why) => if wanted {
            let mut text = "Автозапуск не изменён: ".to_owned();
            text.append(why.as_str());
            AutostartPlan::Report(Note { bad: true, text })
        } else {
            AutostartPlan::Nothing
        },
    }
}

/// What is said of a change of the autostart.
pub open spec fn autostart_change_note(wanted: bool, result: Result<(), String>) -> NoteView {
    match result {
        Ok(_) => note_of(
            false,
            if wanted {
                "Автозапуск включён."@
            } else {
                "Автозапуск выключен."@
            },
        ),
        Err(why) => autostart_unchanged(why@),
    }
}

/// The note on a change of the autostart.
pub fn autostart_note(wanted: bool, result: Result<(), String>) -> (out: Note)
    ensures
        out@ == autostart_change_note(wanted, result),
{
    match result {
        Ok(_) => Note {
            bad: false,
            text: if wanted {
                "Автозапуск включён.".to_owned()
            } else {
                "Автозапуск выключен.".to_owned()
            },
        },
        Err(why) => {
            let mut text = "Автозапуск не изменён: ".to_owned();
            text.append(why.as_str());
            Note { bad: true, text }
        },
    }
}

/// Decides how to bring the autostart to what the form asks for, given what the
/// autostart says. A switch that was made is reported by [`autostart_note`].
pub fn apply_autostart(enabled: &Result<bool, String>, form: &Form) -> (out: AutostartPlan)
    ensures
        autostart_decision(present(form@, "autostart"@), *enabled, out),
{
    plan_autostart(form.checked("autostart"), enabled)
}

// ---------------------------------------------------------------------------
// The tunnel
// ---------------------------------------------------------------------------

pub const TUNNEL_PENDING: &'static str = "туннель ещё не подключён в этой сборке";

/// A tunnel that is not there: it shows nothing and refuses everything.
pub struct TunnelPending;

impl Tunnel for TunnelPending {
    fn snapshot(&self, office_subnets: &Vec<String>, profile_name: &str) -> (out: TunnelSnapshot)
        ensures
            !out.installed,
            !out.profile_installed,
            !out.our_tunnel_up,
            !out.rising,
            out.liveness_error is None,
            !out.foreign_tunnel_up,
            out.routes_error is None,
            tunnel_status(out) is NotInstalled,
    {
        TunnelSnapshot::default()
    }

    fn build_profile(&self, profile_name: &str, office_subnets: &Vec<String>) -> (out: Result<
        (),
        String,
    >)
        ensures
            out matches Err(why) && why@ == TUNNEL_PENDING@,
    {
        Err(TUNNEL_PENDING.to_owned())
    }

    fn raise(&self, profile_name: &str) -> (out: Result<(), String>)
        ensures
            out matches Err(why) && why@ == TUNNEL_PENDING@,
    {
        Err(TUNNEL_PENDING.to_owned())
    }

    fn lower(&self, profile_name: &str) -> (out: Result<(), String>)
        ensures
            out matches Err(why) && why@ == TUNNEL_PENDING@,
    {
        Err(TUNNEL_PENDING.to_owned())
    }

    fn install_service(&self) -> (out: Result<(), String>)
        ensures
            out matches Err(why) && why@ == TUNNEL_PENDING@,
    {
        Err(TUNNEL_PENDING.to_owned())
    }
}

/// What is said of a button of the tunnel: the error comes out word for word.
pub open spec fn tunnel_note(result: Result<(), String>, ok_text: Seq<char>) -> NoteView {
    match result {
        Ok(_) => note_of(false, ok_text),
        Err(why) => note_of(true, why@),
    }
}

/// The outcome of a button of the tunnel.
pub fn tunnel_outcome(result: Result<(), String>, ok_text: &str) -> (out: Outcome)
    ensures
        shows_notes(out, seq![tunnel_note(result, ok_text@)]),
{
    match result {
        Ok(_) => Outcome::one(false, ok_text.to_owned()),
        Err(why) => Outcome::bad(why),
    }
}

/// Why the tunnel must not be raised, if it must not. Only what is known to
/// stand in the way counts: where the state is not known, raising is allowed.
pub open spec fn raise_refusal(snap: TunnelSnapshot) -> Option<Seq<char>> {
    if snap.liveness_error is Some || snap.our_tunnel_up || snap.rising {
        None
    } else if let Some(why) = snap.routes_error {
        Some("не удалось прочитать таблицу маршрутов: "@ + why@ + " — подъём отменён"@)
    } else if snap.foreign_tunnel_up {
        Some(
            "туннель уже занят другим туннельным адаптером, несущим офисные подсети — подъём отменён"@,
        )
    } else {
        None
    }
}

/// Tells why the tunnel must not be raised, if it must not. The page does not
/// show the button then, but a request can come without the page.
pub fn refuse_raising(snap: &TunnelSnapshot) -> (out: Option<String>)
    ensures
        text_in(out) == raise_refusal(*snap),
{
    if snap.liveness_error.is_none() && !snap.our_tunnel_up && !snap.rising {
        if let Some(why) = &snap.routes_error {
            let mut text = "не удалось прочитать таблицу маршрутов: ".to_owned();
            text.append(why.as_str());
            text.append(" — подъём отменён");
            return Some(text);
        }
        if snap.foreign_tunnel_up {
            return Some(
                "туннель уже занят другим туннельным адаптером, несущим офисные подсети — подъём отменён".to_owned(),
            );
        }
    }
    None
}

pub const RAISED: &'static str = "Команда на подъём туннеля отправлена OpenVPN GUI.";

pub const LOWERED: &'static str = "Команда на опускание туннеля отправлена OpenVPN GUI.";

pub const PROFILE_BUILT: &'static str = "Профиль собран и записан в каталог конфигураций OpenVPN.";

pub const SERVICE_REQUESTED: &'static str = "Запрос на установку службы отправлен — подтвердите запрос UAC, \
             если Windows его покажет.";

/// A call to the tunnel.
#[derive(Debug, PartialEq, Eq)]
pub enum TunnelCall {
    BuildProfile { profile_name: String, office_subnets: Vec<String> },
    Raise { profile_name: String },
    Lower { profile_name: String },
    InstallService,
}

/// What is said where a call went well.
pub open spec fn success_words(call: TunnelCall) -> Seq<char> {
    match call {
        TunnelCall::BuildProfile { .. } => PROFILE_BUILT@,
        TunnelCall::Raise { .. } => RAISED@,
        TunnelCall::Lower { .. } => LOWERED@,
        TunnelCall::InstallService => SERVICE_REQUESTED@,
    }
}

/// What to show once a call was made.
pub fn after_call(call: &TunnelCall, result: Result<(), String>) -> (out: Outcome)
    ensures
        shows_notes(out, seq![tunnel_note(result, success_words(*call))]),
{
    let ok_text = match call {
        TunnelCall::BuildProfile { .. } => PROFILE_BUILT,
        TunnelCall::Raise { .. } => RAISED,
        TunnelCall::Lower { .. } => LOWERED,
        TunnelCall::InstallService => SERVICE_REQUESTED,
    };
    tunnel_outcome(result, ok_text)
}

/// What to do about a tunnel that is to be raised.
#[derive(Debug, PartialEq, Eq)]
pub enum RaisePlan {
    /// Show the page with this outcome; the tunnel is not called.
    Refuse(Outcome),
    /// Make this call once.
    Raise(TunnelCall),
}

/// What to do, given what was seen.
pub open spec fn raise_decision(snap: TunnelSnapshot, plan: RaisePlan) -> bool {
    match raise_refusal(snap) {
        Some(why) => plan matches RaisePlan::Refuse(o) && shows_notes(o, seq![note_of(true, why)]),
        None => {
            &&& plan matches RaisePlan::Raise(call)
            &&& call matches TunnelCall::Raise { profile_name }
            &&& profile_name@ == TUNNEL_PROFILE_NAME@
        },
    }
}

/// Decides whether the tunnel is raised, unless something stands in the way.
pub fn raise_tunnel(snap: &TunnelSnapshot) -> (out: RaisePlan)
    ensures
        raise_decision(*snap, out),
{
    match refuse_raising(snap) {
        Some(why) => RaisePlan::Refuse(Outcome::bad(why)),
        None => RaisePlan::Raise(
            TunnelCall::Raise { profile_name: TUNNEL_PROFILE_NAME.to_owned() },
        ),
    }
}

// ---------------------------------------------------------------------------
// The page and the diagnostics
// ---------------------------------------------------------------------------

/// Everything that the page needs to know of the program.
pub struct SettingsState<A: Autostart, T: Tunnel> {
    pub app: AppState,
    /// The configuration as a person has set it, not the one that the bridge
    /// runs with.
    pub config: Config,
    /// The port that the bridge listens on.
    pub bound_port: u16,
    pub autostart: A,
    pub tunnel: T,
}

/// The page, with what the autostart and the tunnel say at this moment.
pub fn render<A: Autostart, T: Tunnel>(
    state: &SettingsState<A, T>,
    outcome: Option<&Outcome>,
) -> (out: String)
    ensures
        exists|enabled: Result<bool, String>, snap: TunnelSnapshot|
            {
                &&& #[trigger] call_ensures(A::is_enabled, (&state.autostart,), enabled)
                &&& #[trigger] call_ensures(
                    T::snapshot,
                    (&state.tunnel, &state.config.office_subnets, TUNNEL_PROFILE_NAME),
                    snap,
                )
                &&& out@ == page_html(
                    state.app,
                    state.config@,
                    state.bound_port,
                    enabled,
                    snap,
                    outcome,
                )
            },
{
    let enabled = state.autostart.is_enabled();
    let snap = state.tunnel.snapshot(&state.config.office_subnets, TUNNEL_PROFILE_NAME);
    page(&state.app, &state.config, state.bound_port, &enabled, &snap, outcome)
}

/// What to do with a form that was sent.
#[derive(Debug, PartialEq, Eq)]
pub enum PostStep {
    /// Show the page with this outcome.
    Show(Outcome),
    /// Measure the speed of the routes, then show the page with the result.
    Measure,
    /// Run the diagnostics, then show the page with the result.
    Diagnose,
    /// Ask this configuration whether it is valid; [`after_validation`] takes
    /// the answer.
    Validate(Config),
    /// Take a snapshot of the tunnel; [`raise_tunnel`] decides on what was seen.
    Look { office_subnets: Vec<String>, profile_name: String },
    /// Make this call; [`after_call`] takes what came of it.
    Call(TunnelCall),
}

/// What to do for each button.
pub open spec fn posted(
    config: ConfigView,
    place: Place,
    fields: Seq<(Seq<char>, Seq<char>)>,
    step: PostStep,
) -> bool {
    let name = action_name(fields);
    if name == "bench"@ {
        step is Measure
    } else if name == "doctor"@ {
        step is Diagnose
    } else if name == "save"@ || name == "office"@ {
        match requested(config, fields, place, name == "office"@) {
            Ok(next) => step matches PostStep::Validate(c) && c@ == next,
            Err(why) => step matches PostStep::Show(o) && shows_notes(o, seq![note_of(true, why)]),
        }
    } else if name == "build_tunnel_profile"@ {
        &&& step matches PostStep::Call(call)
        &&& call matches TunnelCall::BuildProfile { profile_name, office_subnets }
        &&& profile_name@ == TUNNEL_PROFILE_NAME@
        &&& texts(office_subnets@) == config.office_subnets
    } else if name == "raise_tunnel"@ {
        &&& step matches PostStep::Look { office_subnets, profile_name }
        &&& texts(office_subnets@) == config.office_subnets
        &&& profile_name@ == TUNNEL_PROFILE_NAME@
    } else if name == "lower_tunnel"@ {
        &&& step matches PostStep::Call(call)
        &&& call matches TunnelCall::Lower { profile_name }
        &&& profile_name@ == TUNNEL_PROFILE_NAME@
    } else if name == "install_service"@ {
        step == PostStep::Call(TunnelCall::InstallService)
    } else {
        step matches PostStep::Show(o) && shows_notes(
            o,
            seq![note_of(true, "неизвестное действие «"@ + name + "»"@)],
        )
    }
}

/// Decides what a form that was sent asks for. `config` is the configuration as
/// a person has set it.
pub fn handle_post(config: &Config, place: &Place, form: &Form) -> (out: PostStep)
    ensures
        posted(config@, *place, form@, out),
{
    let button = button_of(form);
    proof {
        lemma_button_names_differ();
    }
    match button {
        Button::Bench => PostStep::Measure,
        Button::Doctor => PostStep::Diagnose,
        Button::Save => save_step(config, form, place, false),
        Button::Office => save_step(config, form, place, true),
        Button::BuildTunnelProfile => PostStep::Call(
            TunnelCall::BuildProfile {
                profile_name: TUNNEL_PROFILE_NAME.to_owned(),
                office_subnets: copy_texts(&config.office_subnets),
            },
        ),
        Button::RaiseTunnel => PostStep::Look {
            office_subnets: copy_texts(&config.office_subnets),
            profile_name: TUNNEL_PROFILE_NAME.to_owned(),
        },
        Button::LowerTunnel => PostStep::Call(
            TunnelCall::Lower { profile_name: TUNNEL_PROFILE_NAME.to_owned() },
        ),
        Button::InstallService => PostStep::Call(TunnelCall::InstallService),
        Button::Unknown(name) => PostStep::Show(unknown_button(name.as_str())),
    }
}

fn save_step(base: &Config, form: &Form, place: &Place, add_current_network: bool) -> (out: PostStep)
    ensures
        match requested(base@, form@, *place, add_current_network) {
            Ok(next) => out matches PostStep::Validate(config) && config@ == next,
            Err(why) => out matches PostStep::Show(o) && shows_notes(o, seq![note_of(true, why)]),
        },
{
    match requested_config(base, form, place, add_current_network) {
        Ok(next) => PostStep::Validate(next),
        Err(why) => PostStep::Show(Outcome::bad(why)),
    }
}

/// No two buttons share a name.
proof fn lemma_button_names_differ()
    ensures
        "bench"@ != "doctor"@,
        "bench"@ != "save"@,
        "bench"@ != "office"@,
        "bench"@ != "build_tunnel_profile"@,
        "bench"@ != "raise_tunnel"@,
        "bench"@ != "lower_tunnel"@,
        "bench"@ != "install_service"@,
        "doctor"@ != "save"@,
        "doctor"@ != "office"@,
        "doctor"@ != "build_tunnel_profile"@,
        "doctor"@ != "raise_tunnel"@,
        "doctor"@ != "lower_tunnel"@,
        "doctor"@ != "install_service"@,
        "save"@ != "office"@,
        "save"@ != "build_tunnel_profile"@,
        "save"@ != "raise_tunnel"@,
        "save"@ != "lower_tunnel"@,
        "save"@ != "install_service"@,
        "office"@ != "build_tunnel_profile"@,
        "office"@ != "raise_tunnel"@,
        "office"@ != "lower_tunnel"@,
        "office"@ != "install_service"@,
        "build_tunnel_profile"@ != "raise_tunnel"@,
        "build_tunnel_profile"@ != "lower_tunnel"@,
        "build_tunnel_profile"@ != "install_service"@,
        "raise_tunnel"@ != "lower_tunnel"@,
        "raise_tunnel"@ != "install_service"@,
        "lower_tunnel"@ != "install_service"@,
{
    reveal_strlit("bench");
    reveal_strlit("doctor");
    reveal_strlit("save");
    reveal_strlit("office");
    reveal_strlit("build_tunnel_profile");
    reveal_strlit("raise_tunnel");
    reveal_strlit("lower_tunnel");
    reveal_strlit("install_service");
    assert("bench"@[0] == 'b' && "doctor"@[0] == 'd' && "save"@[0] == 's' && "office"@[0] == 'o');
    assert("build_tunnel_profile"@[1] == 'u' && "bench"@[1] == 'e');
    assert("raise_tunnel"@[0] == 'r' && "lower_tunnel"@[0] == 'l' && "install_service"@[0] == 'i');
}

/// The diagnostics on request. They see what is now: the port was just tried,
/// the settings of the system were just read. The port counts as free where
/// nobody answers on it. The checks judge what runs, so that they get the
/// configuration with the port that the bridge listens on.
pub fn live_checks(
    app: &AppState,
    saved: &Config,
    listening: bool,
    sysproxy: &Result<SysProxy, String>,
) -> (out: Vec<Check>)
    ensures
        checks_in(out@) == diagnostics(
            (ConfigView { bridge_port: app.port, ..saved@ }),
            *app,
            listening,
            !listening,
            reading(*sysproxy),
        ),
{
    run_checks(&live_config(saved, app.port), app, listening, !listening, sysproxy)
}

// ---------------------------------------------------------------------------
// Laws
// ---------------------------------------------------------------------------

/// Whatever change is made, the bridge stays on the port that it is bound to,
/// and everything but the port reaches it.
pub proof fn the_port_alone_is_held_back(saved: ConfigView, change: Change, bound_port: u16)
    ensures
        ({
            let next = changed(saved, change);
            let live = ConfigView { bridge_port: bound_port, ..next };
            live.bridge_port == bound_port && (ConfigView {
                bridge_port: next.bridge_port,
                ..live
            }) == next
        }),
{
}

/// Switching the mode changes nothing else that is saved, the port least of
/// all.
pub proof fn switching_the_mode_keeps_the_rest(saved: ConfigView, mode: Mode)
    ensures
        changed(saved, Change::Mode(mode)) == (ConfigView { mode, ..saved }),
        changed(saved, Change::Mode(mode)).bridge_port == saved.bridge_port,
{
}

/// A configuration is sent exactly if the form asks for one and it is valid, and
/// it is the one that the form asks for. Otherwise one refusal is shown: what is
/// wrong with the form, or what the validation said.
pub proof fn only_a_valid_configuration_is_sent(
    config: ConfigView,
    place: Place,
    fields: Seq<(Seq<char>, Seq<char>)>,
    first: PostStep,
    answer: Result<(), String>,
    second: SaveStep,
)
    requires
        action_name(fields) == "save"@ || action_name(fields) == "office"@,
        posted(config, place, fields, first),
        first matches PostStep::Validate(c) ==> save_decision(answer, c@, second),
    ensures
        match requested(config, fields, place, action_name(fields) == "office"@) {
            Err(why) => first matches PostStep::Show(o) && shows_notes(o, seq![note_of(true, why)]),
            Ok(next) => first is Validate && match answer {
                Err(why) => second matches SaveStep::Show(o) && shows_notes(
                    o,
                    seq![note_of(true, why@)],
                ),
                Ok(_) => second matches SaveStep::Send(c) && c@ == next,
            },
        },
{
    lemma_button_names_differ();
}

/// The autostart is written to exactly where it is known and is not what the
/// form asks for, and then what the form asks for is written.
pub proof fn the_autostart_is_left_alone_unless_it_differs(
    wanted: bool,
    enabled: Result<bool, String>,
    plan: AutostartPlan,
)
    requires
        autostart_decision(wanted, enabled, plan),
    ensures
        plan is Switch <==> enabled == Ok::<bool, String>(!wanted),
        plan matches AutostartPlan::Switch(on) ==> on == wanted,
{
}

/// The tunnel is called to rise exactly where its state is not known, where it
/// is up or on its way, or where the routes were read and nothing else carries
/// the subnets. Otherwise one refusal is shown and nothing is called.
pub proof fn a_refused_raise_calls_nothing(snap: TunnelSnapshot, plan: RaisePlan)
    requires
        raise_decision(snap, plan),
    ensures
        plan is Raise <==> snap.liveness_error is Some || snap.our_tunnel_up || snap.rising || (
        snap.routes_error is None && !snap.foreign_tunnel_up),
        plan matches RaisePlan::Refuse(o) ==> exists|why: Seq<char>|
            shows_notes(o, #[trigger] seq![note_of(true, why)]),
{
    if let Some(why) = raise_refusal(snap) {
        let o = plan->Refuse_0;
        assert(shows_notes(o, seq![note_of(true, why)]));
    }
}

/// Raising is refused exactly where the page says that something stands in the
/// way.
pub proof fn raising_is_refused_where_the_page_says_so(snap: TunnelSnapshot)
    requires
        snap.installed,
    ensures
        raise_refusal(snap) is Some <==> (tunnel_status(snap) is Unchecked || tunnel_status(
            snap,
        ) is Occupied),
{
}

/// Where the page offers to raise the tunnel, raising is not refused.
pub proof fn an_offered_raise_is_not_refused(snap: TunnelSnapshot)
    requires
        snap.installed,
        crate::settings_page::parts::offers_raise(tunnel_status(snap), snap.profile_installed),
    ensures
        raise_refusal(snap) is None,
{
}

/// An office network is added once: asking again with the list that came of it
/// is refused.
pub proof fn a_network_is_added_once(list: Seq<OfficeNetworkView>, added: OfficeNetworkView)
    ensures
        lists_network(list.push(added), added.id),
{
    let grown = list.push(added);
    assert(grown[list.len() as int] == added);
    assert(same_but_case(grown[list.len() as int].id, added.id));
}

// ---------------------------------------------------------------------------
// Laws of single steps
// ---------------------------------------------------------------------------

/// One note and nothing else is shown.
pub open spec fn is_one_note(o: Outcome, bad: bool, text: Seq<char>) -> bool {
    &&& o.notes@.len() == 1
    &&& o.notes@[0].bad == bad
    &&& o.notes@[0].text@ == text
    &&& o.bench is None
    &&& o.doctor is None
}

proof fn lemma_one_note(o: Outcome, bad: bool, text: Seq<char>)
    requires
        shows_notes(o, seq![note_of(bad, text)]),
    ensures
        is_one_note(o, bad, text),
{
    let notes = notes_in(o.notes@);
    assert(notes.len() == o.notes@.len());
    assert(notes[0] == o.notes@[0]@);
}

/// The two configurations are the same.
pub open spec fn same_config(a: Config, b: Config) -> bool {
    same_beside_the_form(a, b) && same_in_the_form(a, b)
}

/// The bridge runs with what is saved, on the port that it is bound to.
pub proof fn the_bridge_runs_with_what_is_saved(saved: &Config, bound_port: u16, out: Config)
    requires
        call_ensures(live_config, (saved, bound_port), out),
    ensures
        same_config(Config { bridge_port: bound_port, ..*saved }, out),
{
    the_view_tells_configurations_apart(Config { bridge_port: bound_port, ..*saved }, out);
}

/// A new mode is saved and changes nothing else, a whole configuration is saved as
/// it is, and the bridge goes on with what is saved on the port that it is bound to.
pub proof fn a_change_is_saved_as_it_is(
    saved: &mut Config,
    change: Change,
    bound_port: u16,
    live: Config,
)
    requires
        call_ensures(apply_change, (saved, change, bound_port), live),
    ensures
        change matches Change::Mode(mode) ==> same_config(
            Config { mode, ..*old(saved) },
            *final(saved),
        ),
        change matches Change::Whole(config) ==> same_config(*config, *final(saved)),
        same_config(Config { bridge_port: bound_port, ..*final(saved) }, live),
{
    let next = *final(saved);
    let before = *old(saved);
    the_view_tells_configurations_apart(Config { bridge_port: bound_port, ..next }, live);
    match change {
        Change::Mode(mode) => the_view_tells_configurations_apart(Config { mode, ..before }, next),
        Change::Whole(config) => the_view_tells_configurations_apart(*config, next),
    }
}

/// What a form names as its action decides what is done. A form without an action
/// saves, and one with an action that no button has is refused with its name.
pub proof fn each_button_does_what_it_is_for(
    config: &Config,
    place: &Place,
    form: &Form,
    action: Option<&str>,
    out: PostStep,
)
    requires
        call_ensures(handle_post, (config, place, form), out),
        call_ensures(Form::get, (form, "action"), action),
    ensures
        ({
            let named = |name: Seq<char>| action is Some && action->0@ == name;
            let subnets = |v: Vec<String>|
                v@.len() == config.office_subnets@.len() && forall|i: int|
                    0 <= i < v@.len() ==> (#[trigger] v@[i])@ == config.office_subnets@[i]@;
            &&& named("bench"@) <==> out is Measure
            &&& named("doctor"@) <==> out is Diagnose
            &&& named("raise_tunnel"@) <==> out is Look
            &&& out matches PostStep::Look { office_subnets, profile_name } ==> subnets(
                office_subnets,
            ) && profile_name@ == "proxypilot-office"@
            &&& named("build_tunnel_profile"@) ==> {
                &&& out matches PostStep::Call(call)
                &&& call matches TunnelCall::BuildProfile { profile_name, office_subnets }
                &&& profile_name@ == "proxypilot-office"@
                &&& subnets(office_subnets)
            }
            &&& named("lower_tunnel"@) ==> {
                &&& out matches PostStep::Call(call)
                &&& call matches TunnelCall::Lower { profile_name }
                &&& profile_name@ == "proxypilot-office"@
            }
            &&& named("install_service"@) ==> out == PostStep::Call(TunnelCall::InstallService)
            &&& out is Call ==> named("build_tunnel_profile"@) || named("lower_tunnel"@) || named(
                "install_service"@,
            )
            &&& out is Validate ==> action is None || named("save"@) || named("office"@)
            &&& action is Some && !named("bench"@) && !named("doctor"@) && !named("save"@) && !named(
                "office"@,
            ) && !named("build_tunnel_profile"@) && !named("raise_tunnel"@) && !named(
                "lower_tunnel"@,
            ) && !named("install_service"@) ==> out is Show && is_one_note(
                out->Show_0,
                true,
                "неизвестное действие «"@ + action->0@ + "»"@,
            )
        }),
{
    lemma_button_names_differ();
    let name = action_name(form@);
    if out is Show && !is_button_name(name) {
        lemma_one_note(out->Show_0, true, "неизвестное действие «"@ + name + "»"@);
    }
    if name == "raise_tunnel"@ {
        let v = out->office_subnets;
        lemma_same_texts(v@, config.office_subnets@);
    }
    if name == "build_tunnel_profile"@ {
        let v = (out->Call_0)->office_subnets;
        lemma_same_texts(v@, config.office_subnets@);
    }
}

proof fn lemma_same_texts(a: Seq<String>, b: Seq<String>)
    requires
        texts(a) == texts(b),
    ensures
        a.len() == b.len(),
        forall|i: int| 0 <= i < a.len() ==> (#[trigger] a[i])@ == b[i]@,
{
    assert(texts(a).len() == a.len() && texts(b).len() == b.len());
    assert forall|i: int| 0 <= i < a.len() implies (#[trigger] a[i])@ == b[i]@ by {
        assert(texts(a)[i] == a[i]@ && texts(b)[i] == b[i]@);
    }
}

/// The button that saves asks for the configuration in the form, the one for the
/// office with the current network added, and what cannot be asked for is shown.
pub proof fn saving_asks_for_what_is_in_the_form(
    config: &Config,
    place: &Place,
    form: &Form,
    action: Option<&str>,
    out: PostStep,
    plain: Result<Config, String>,
    office: Result<Config, String>,
)
    requires
        call_ensures(handle_post, (config, place, form), out),
        call_ensures(Form::get, (form, "action"), action),
        call_ensures(requested_config, (config, form, place, false), plain),
        call_ensures(requested_config, (config, form, place, true), office),
    ensures
        ({
            let decided = |asked: Result<Config, String>|
                match asked {
                    Ok(next) => out is Validate && same_config(next, out->Validate_0),
                    Err(why) => out is Show && is_one_note(out->Show_0, true, why@),
                };
            &&& action is None || action->0@ == "save"@ ==> decided(plain)
            &&& action is Some && action->0@ == "office"@ ==> decided(office)
        }),
{
    lemma_button_names_differ();
    if let PostStep::Validate(c) = out {
        if let Ok(next) = plain {
            the_view_tells_configurations_apart(next, c);
        }
        if let Ok(next) = office {
            the_view_tells_configurations_apart(next, c);
        }
    }
    if let PostStep::Show(o) = out {
        if action_name(form@) == "save"@ {
            if let Err(why) = plain {
                lemma_one_note(o, true, why@);
            }
        }
        if action_name(form@) == "office"@ {
            if let Err(why) = office {
                lemma_one_note(o, true, why@);
            }
        }
    }
}

/// Two identifiers are the same but for the case of the letters of ASCII.
pub open spec fn same_letters(a: Seq<char>, b: Seq<char>) -> bool {
    a.len() == b.len() && forall|i: int|
        0 <= i < a.len() ==> {
            let (x, y) = (#[trigger] a[i] as int, b[i] as int);
            x == y || (65 <= x <= 90 && y == x + 32) || (65 <= y <= 90 && x == y + 32)
        }
}

proof fn lemma_same_letters(a: Seq<char>, b: Seq<char>)
    ensures
        same_but_case(a, b) <==> same_letters(a, b),
{
    assert forall|x: char, y: char|
        #![trigger crate::text::lower(x), crate::text::lower(y)]
        crate::text::lower(x) == crate::text::lower(y) <==> (x as int == y as int || (65 <= x as int
            <= 90 && y as int == x as int + 32) || (65 <= y as int <= 90 && x as int == y as int
            + 32)) by {}
    if a.len() == b.len() {
        assert forall|i: int| 0 <= i < a.len() implies (crate::text::lower(#[trigger] a[i])
            == crate::text::lower(b[i]) <==> {
            let (x, y) = (a[i] as int, b[i] as int);
            x == y || (65 <= x <= 90 && y == x + 32) || (65 <= y <= 90 && x == y + 32)
        }) by {}
    }
}

/// The network is in the list.
pub open spec fn is_listed(list: Seq<OfficeNetwork>, id: Seq<char>) -> bool {
    exists|i: int| 0 <= i < list.len() && same_letters((#[trigger] list[i]).id@, id)
}

/// One network stands behind those that were there before.
pub open spec fn is_grown(
    before: Seq<OfficeNetwork>,
    id: Seq<char>,
    name: Seq<char>,
    after: Seq<OfficeNetwork>,
) -> bool {
    &&& after.len() == before.len() + 1
    &&& after[before.len() as int].id@ == id
    &&& after[before.len() as int].name@ == name
    &&& forall|i: int|
        0 <= i < before.len() ==> (#[trigger] after[i]).id@ == before[i].id@ && after[i].name@
            == before[i].name@
}

/// The current network is added behind the others with its name, unless it is not
/// known or stands in the list already, in whatever case; and without the button for
/// it nothing is added.
pub proof fn the_current_network_is_added_behind_the_others(
    base: &Config,
    form: &Form,
    place: &Place,
    add: bool,
    read: Result<Config, String>,
    out: Result<Config, String>,
)
    requires
        call_ensures(config_from_form, (base, form), read),
        call_ensures(requested_config, (base, form, place, add), out),
    ensures
        read is Err ==> out is Err && out->Err_0@ == read->Err_0@,
        read is Ok && !add ==> out is Ok && same_config(read->Ok_0, out->Ok_0),
        read is Ok && add && place.network is None ==> out is Err && out->Err_0@
            == "текущая сеть не определена — добавлять нечего"@,
        read is Ok && add && place.network is Some && is_listed(
            read->Ok_0.office_networks@,
            place.network->0@,
        ) ==> out is Err && out->Err_0@ == "эта сеть уже в списке офисных"@,
        read is Ok && add && place.network is Some && !is_listed(
            read->Ok_0.office_networks@,
            place.network->0@,
        ) ==> out is Ok && is_grown(
            read->Ok_0.office_networks@,
            place.network->0@,
            match place.network_name {
                Some(name) => name@,
                None => Seq::empty(),
            },
            out->Ok_0.office_networks@,
        ) && same_config(
            Config { office_networks: out->Ok_0.office_networks, ..read->Ok_0 },
            out->Ok_0,
        ),
{
    if let (Ok(config), Ok(next)) = (read, out) {
        the_view_tells_configurations_apart(config, next);
        the_view_tells_configurations_apart(
            Config { office_networks: next.office_networks, ..config },
            next,
        );
    }
    if let Ok(config) = read {
        let before = config.office_networks@;
        let all = networks(before);
        assert(all.len() == before.len());
        assert forall|i: int| 0 <= i < before.len() implies all[i] == (#[trigger] before[i])@ by {}
        if add && place.network is Some {
            let id = place.network->0@;
            if lists_network(all, id) {
                let i = choose|i: int|
                    0 <= i < all.len() && same_but_case((#[trigger] all[i]).id, id);
                lemma_same_letters(all[i].id, id);
                assert(same_letters(before[i].id@, id));
                assert(is_listed(before, id));
            } else {
                assert forall|i: int| 0 <= i < before.len() implies !same_letters(
                    (#[trigger] before[i]).id@,
                    id,
                ) by {
                    lemma_same_letters(all[i].id, id);
                }
                let grown = networks((out->Ok_0).office_networks@);
                let after = (out->Ok_0).office_networks@;
                assert(grown.len() == after.len());
                assert forall|i: int| 0 <= i < after.len() implies grown[i]
                    == (#[trigger] after[i])@ by {}
                assert forall|i: int| 0 <= i < before.len() implies (#[trigger] after[i]).id@
                    == before[i].id@ && after[i].name@ == before[i].name@ by {
                    assert(grown[i] == all[i]);
                }
                assert(!is_listed(before, id));
                let last = before.len() as int;
                assert(grown[last] == after[last]@);
                assert(after[last].name@ == or_empty(text_in(place.network_name)));
                let kept = Config { office_networks: (out->Ok_0).office_networks, ..config };
                assert(kept@ =~= (out->Ok_0)@);
                the_view_tells_configurations_apart(kept, out->Ok_0);
                assert(same_config(kept, out->Ok_0));
            }
        }
    }
}

/// What the validation says is shown word for word; what it lets through is sent as
/// it is.
pub proof fn what_is_valid_is_sent_as_it_is(
    result: Result<(), String>,
    config: Config,
    out: SaveStep,
)
    requires
        call_ensures(after_validation, (result, config), out),
    ensures
        result matches Err(why) ==> out is Show && is_one_note(out->Show_0, true, why@),
        result is Ok ==> out is Send && same_config(config, out->Send_0),
{
    match out {
        SaveStep::Show(o) => {
            if let Err(why) = result {
                lemma_one_note(o, true, why@);
            }
        },
        SaveStep::Send(c) => the_view_tells_configurations_apart(config, c),
    }
}

/// What is said of a configuration that was sent: only one that was applied and
/// saved is good news, with a remark where the port has to wait. The note on the
/// autostart stands before it.
pub proof fn the_answer_of_the_supervisor_is_told(
    autostart: Option<Note>,
    next_port: u16,
    bound_port: u16,
    reply: ApplyReply,
    out: Outcome,
)
    requires
        call_ensures(apply, (autostart, next_port, bound_port, reply), out),
    ensures
        ({
            let last = out.notes@[out.notes@.len() - 1];
            &&& out.bench is None && out.doctor is None
            &&& out.notes@.len() == (if autostart is Some {
                2int
            } else {
                1
            })
            &&& autostart matches Some(note) ==> out.notes@[0].bad == note.bad
                && out.notes@[0].text@ == note.text@
            &&& last.bad <==> !(reply is Applied)
            &&& reply is Applied && next_port == bound_port ==> last.text@
                == "Сохранено и применено."@
            &&& reply is Applied && next_port != bound_port ==> last.text@
                == "Сохранено и применено. Порт моста вступит в силу после \
                 перезапуска ProxyPilot — на лету он не меняется."@
            &&& reply matches ApplyReply::NotSaved(why) ==> last.text@
                == "Применено, но не сохранено в конфиг: "@ + why@
            &&& reply is Stopping ==> last.text@
                == "приложение завершается — изменения не применены"@
            &&& reply is Late ==> last.text@
                == "супервизор не ответил вовремя; проверьте состояние в трее"@
        }),
{
    let notes = notes_in(out.notes@);
    assert(notes.len() == out.notes@.len());
    assert(notes[0] == out.notes@[0]@);
    assert(notes[notes.len() - 1] == out.notes@[out.notes@.len() - 1]@);
}

/// The autostart is switched exactly where it is known and differs from what the
/// form ticks, and then to what the form ticks. A wish that cannot be met is told.
pub proof fn the_autostart_follows_the_form(
    enabled: &Result<bool, String>,
    form: &Form,
    ticked: bool,
    out: AutostartPlan,
)
    requires
        call_ensures(apply_autostart, (enabled, form), out),
        call_ensures(Form::checked, (form, "autostart"), ticked),
    ensures
        out matches AutostartPlan::Switch(on) ==> on == ticked,
        out is Switch <==> enabled is Ok && enabled->Ok_0 != ticked,
        out is Report <==> enabled is Err && ticked,
        out is Nothing <==> (enabled is Ok && enabled->Ok_0 == ticked) || (enabled is Err && !ticked),
        out matches AutostartPlan::Report(note) ==> note.bad && note.text@
            == "Автозапуск не изменён: "@ + enabled->Err_0@,
{
}

/// The same, of a plan that is made without a form.
pub proof fn a_plan_for_the_autostart_brings_what_is_wanted(
    wanted: bool,
    enabled: &Result<bool, String>,
    out: AutostartPlan,
)
    requires
        call_ensures(plan_autostart, (wanted, enabled), out),
    ensures
        out matches AutostartPlan::Switch(on) ==> on == wanted,
        out is Switch <==> enabled is Ok && enabled->Ok_0 != wanted,
        out is Report <==> enabled is Err && wanted,
        out matches AutostartPlan::Report(note) ==> note.bad && note.text@
            == "Автозапуск не изменён: "@ + enabled->Err_0@,
{
}

/// What came of a switch of the autostart is told: what it is now, or why it is not.
pub proof fn a_switched_autostart_is_told(wanted: bool, result: Result<(), String>, out: Note)
    requires
        call_ensures(autostart_note, (wanted, result), out),
    ensures
        out.bad <==> result is Err,
        result is Ok && wanted ==> out.text@ == "Автозапуск включён."@,
        result is Ok && !wanted ==> out.text@ == "Автозапуск выключен."@,
        result matches Err(why) ==> out.text@ == "Автозапуск не изменён: "@ + why@,
{
}

/// What came of a call to the tunnel is told: a failure word for word, a success in
/// the words of its own call.
pub proof fn a_call_to_the_tunnel_is_told(
    call: &TunnelCall,
    result: Result<(), String>,
    out: Outcome,
)
    requires
        call_ensures(after_call, (call, result), out),
    ensures
        result matches Err(why) ==> is_one_note(out, true, why@),
        result is Ok && call is Raise ==> is_one_note(
            out,
            false,
            "Команда на подъём туннеля отправлена OpenVPN GUI."@,
        ),
        result is Ok && call is Lower ==> is_one_note(
            out,
            false,
            "Команда на опускание туннеля отправлена OpenVPN GUI."@,
        ),
        result is Ok && call is BuildProfile ==> is_one_note(
            out,
            false,
            "Профиль собран и записан в каталог конфигураций OpenVPN."@,
        ),
        result is Ok && call is InstallService ==> is_one_note(
            out,
            false,
            "Запрос на установку службы отправлен — подтвердите запрос UAC, \
             если Windows его покажет."@,
        ),
{
    match result {
        Err(why) => lemma_one_note(out, true, why@),
        Ok(_) => lemma_one_note(out, false, success_words(*call)),
    }
}

/// Raising is refused exactly where the tunnel is known to be down and the routes
/// could not be read or belong to something else, and the refusal says which. Else
/// our own profile is raised.
pub proof fn raising_is_refused_where_something_is_in_the_way(
    snap: &TunnelSnapshot,
    why: Option<String>,
    out: RaisePlan,
)
    requires
        call_ensures(raise_tunnel, (snap,), out),
        call_ensures(refuse_raising, (snap,), why),
    ensures
        ({
            let down = snap.liveness_error is None && !snap.our_tunnel_up && !snap.rising;
            &&& why is Some <==> down && (snap.routes_error is Some || snap.foreign_tunnel_up)
            &&& down && snap.routes_error is Some ==> why->0@
                == "не удалось прочитать таблицу маршрутов: "@ + snap.routes_error->0@
                + " — подъём отменён"@
            &&& down && snap.routes_error is None && snap.foreign_tunnel_up ==> why->0@
                == "туннель уже занят другим туннельным адаптером, несущим офисные подсети — подъём отменён"@
            &&& why is Some ==> out is Refuse && is_one_note(out->Refuse_0, true, why->0@)
            &&& why is None ==> {
                &&& out matches RaisePlan::Raise(call)
                &&& call matches TunnelCall::Raise { profile_name }
                &&& profile_name@ == "proxypilot-office"@
            }
        }),
{
    if let RaisePlan::Refuse(o) = out {
        if let Some(why) = raise_refusal(*snap) {
            lemma_one_note(o, true, why);
        }
    }
}

/// The diagnostics on request judge what is saved on the port that the bridge
/// listens on, and take the port as free exactly where nobody answers on it.
pub proof fn the_diagnostics_on_request_judge_what_runs(
    app: &AppState,
    saved: &Config,
    listening: bool,
    sysproxy: &Result<SysProxy, String>,
    live: Config,
    expected: Vec<Check>,
    out: Vec<Check>,
    i: int,
)
    requires
        call_ensures(live_checks, (app, saved, listening, sysproxy), out),
        same_config(Config { bridge_port: app.port, ..*saved }, live),
        call_ensures(run_checks, (&live, app, listening, !listening, sysproxy), expected),
    ensures
        out@.len() == expected@.len(),
        0 <= i < out@.len() ==> out@[i].title@ == expected@[i].title@ && out@[i].status
            == expected@[i].status && out@[i].detail@ == expected@[i].detail@,
{
    the_view_tells_configurations_apart(Config { bridge_port: app.port, ..*saved }, live);
    let (a, b) = (checks_in(out@), checks_in(expected@));
    assert(a == b);
    assert(a.len() == out@.len() && b.len() == expected@.len());
    if 0 <= i < out@.len() {
        assert(a[i] == out@[i]@ && b[i] == expected@[i]@);
    }
}

/// The button is the one that the form names; a form that names none saves.
pub proof fn the_button_is_the_one_that_the_form_names(
    form: &Form,
    action: Option<&str>,
    out: Button,
)
    requires
        call_ensures(button_of, (form,), out),
        call_ensures(Form::get, (form, "action"), action),
    ensures
        ({
            let name = if action is Some {
                action->0@
            } else {
                "save"@
            };
            &&& out is Bench <==> name == "bench"@
            &&& out is Doctor <==> name == "doctor"@
            &&& out is Save <==> name == "save"@
            &&& out is Office <==> name == "office"@
            &&& out is BuildTunnelProfile <==> name == "build_tunnel_profile"@
            &&& out is RaiseTunnel <==> name == "raise_tunnel"@
            &&& out is LowerTunnel <==> name == "lower_tunnel"@
            &&& out is InstallService <==> name == "install_service"@
            &&& out matches Button::Unknown(n) ==> n@ == name
        }),
{
    lemma_button_names_differ();
}

/// A refusal is one bad note, with the text that it was given.
pub proof fn a_refusal_is_one_bad_note(
    text: String,
    name: &str,
    refused: Outcome,
    unknown: Outcome,
)
    requires
        call_ensures(Outcome::bad, (text,), refused),
        call_ensures(unknown_button, (name,), unknown),
    ensures
        is_one_note(refused, true, text@),
        is_one_note(unknown, true, "неизвестное действие «"@ + name@ + "»"@),
{
    lemma_one_note(refused, true, text@);
    lemma_one_note(unknown, true, "неизвестное действие «"@ + name@ + "»"@);
}

/// What came of the tunnel is one note: the text for success, or the failure word for
/// word.
pub proof fn what_came_of_the_tunnel_is_one_note(
    result: Result<(), String>,
    ok_text: &str,
    out: Outcome,
)
    requires
        call_ensures(tunnel_outcome, (result, ok_text), out),
    ensures
        result is Ok ==> is_one_note(out, false, ok_text@),
        result matches Err(why) ==> is_one_note(out, true, why@),
{
    match result {
        Ok(_) => lemma_one_note(out, false, ok_text@),
        Err(why) => lemma_one_note(out, true, why@),
    }
}

/// An outcome of nothing shows nothing.
pub proof fn an_empty_outcome_shows_nothing(out: Outcome)
    requires
        call_ensures(Outcome::default, (), out),
    ensures
        out.notes@.len() == 0,
        out.bench is None,
        out.doctor is None,
{
    assert(notes_in(out.notes@).len() == out.notes@.len());
}

} // verus!
