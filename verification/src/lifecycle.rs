//! The life of the program: the command line, the order of the start, the
//! commands that change the configuration, the loop of window messages and the
//! way to the settings page.

use vstd::prelude::*;
use vstd::string::*;
use crate::doctor::{checks_in, diagnostics, reading, run_checks, Check};
use crate::model::{AppState, Config, ConfigView, Mode, SysProxy};
use crate::proxy::{is_stale_pointer, stale_pointer, ProxyError};
use crate::model::the_view_tells_configurations_apart;
use crate::settings_page::actions::{apply_change, changed, same_config, Change};
use crate::text::{decimal, same};
use crate::tray::{bridge_address, bridge_at, Action};

verus! {

// ---------------------------------------------------------------------------
// Numbers
// ---------------------------------------------------------------------------

/// From here on the system promises not to use a number for a message of its
/// own.
pub const WM_APP: u32 = 0x8000;

/// The state was evaluated anew.
pub const WM_STATE_CHANGED: u32 = 0x8002;

/// The bridge takes no connections any more. The message only wakes the loop:
/// the flag decides, for a menu that is open swallows messages.
pub const WM_BRIDGE_STOPPED: u32 = 0x8003;

/// Changes of the network within this time, in milliseconds, count as one.
pub const NETWORK_DEBOUNCE_MS: u64 = 1500;

/// How long the result of a probe is believed, in seconds.
pub const PROBE_TTL_SECS: u64 = 30;

/// How often the state is evaluated without any cause, in seconds. Longer than
/// a probe is believed, so that each time the upstreams are probed anew.
pub const REEVALUATE_PERIOD_SECS: u64 = 60;

/// How often updates are looked for, in seconds.
pub const UPDATE_CHECK_INTERVAL_SECS: u64 = 86_400;

/// How long after the start updates are looked for first, in seconds.
pub const UPDATE_CHECK_INITIAL_DELAY_SECS: u64 = 300;

// ---------------------------------------------------------------------------
// The command line
// ---------------------------------------------------------------------------

/// What the program was started for.
#[derive(Debug, Clone, Copy, PartialEq, Eq, Structural)]
pub enum Invocation {
    InstallService,
    UninstallService,
    Tray,
}

/// What the arguments ask for. Only the first one counts.
pub open spec fn invocation(arguments: Seq<String>) -> Invocation {
    if arguments.len() > 0 && arguments[0]@ == "install-service"@ {
        Invocation::InstallService
    } else if arguments.len() > 0 && arguments[0]@ == "uninstall-service"@ {
        Invocation::UninstallService
    } else {
        Invocation::Tray
    }
}

/// What the arguments ask for.
pub fn read_arguments(arguments: &Vec<String>) -> (out: Invocation)
    ensures
        out == invocation(arguments@),
{
    if arguments.len() == 0 {
        return Invocation::Tray;
    }
    if same(arguments[0].as_str(), "install-service") {
        Invocation::InstallService
    } else if same(arguments[0].as_str(), "uninstall-service") {
        Invocation::UninstallService
    } else {
        Invocation::Tray
    }
}

/// What a command tells the console.
#[derive(Debug, PartialEq, Eq)]
pub struct ConsoleReport {
    /// The code that the process ends with: it also says which of the two
    /// streams the text goes to.
    pub code: i32,
    pub text: String,
}

/// Tells of the service that was to be installed.
pub fn run_install_service(service: &str, result: Result<(), String>) -> (out: ConsoleReport)
    ensures
        match result {
            Ok(_) => out.code == 0 && out.text@ == "Служба "@ + service@
                + " зарегистрирована (автозапуск). Она ещё не запущена — \
                 первый пуск сделает Windows при следующей перезагрузке, или \
                 запустите её вручную: services.msc / Start-Service "@
                + service@ + "."@,
            Err(why) => out.code == 1 && out.text@ == "Не удалось установить службу "@ + service@
                + ": "@ + why@,
        },
{
    match result {
        Ok(_) => {
            let mut text = "Служба ".to_owned();
            text.append(service);
            text.append(
                " зарегистрирована (автозапуск). Она ещё не запущена — \
                 первый пуск сделает Windows при следующей перезагрузке, или \
                 запустите её вручную: services.msc / Start-Service ",
            );
            text.append(service);
            text.append(".");
            ConsoleReport { code: 0, text }
        },
        Err(why) => {
            let mut text = "Не удалось установить службу ".to_owned();
            text.append(service);
            text.append(": ");
            text.append(why.as_str());
            ConsoleReport { code: 1, text }
        },
    }
}

/// Tells of the service that was to be removed.
pub fn run_uninstall_service(service: &str, result: Result<(), String>) -> (out: ConsoleReport)
    ensures
        match result {
            Ok(_) => out.code == 0 && out.text@ == "Служба "@ + service@
                + " снята с регистрации."@,
            Err(why) => out.code == 1 && out.text@ == "Не удалось удалить службу "@ + service@
                + ": "@ + why@,
        },
{
    match result {
        Ok(_) => {
            let mut text = "Служба ".to_owned();
            text.append(service);
            text.append(" снята с регистрации.");
            ConsoleReport { code: 0, text }
        },
        Err(why) => {
            let mut text = "Не удалось удалить службу ".to_owned();
            text.append(service);
            text.append(": ");
            text.append(why.as_str());
            ConsoleReport { code: 1, text }
        },
    }
}

/// The text of a failed start: a line for the console, or a text for a window.
pub fn report_failure(why: &str, console: bool) -> (out: String)
    ensures
        out@ == (if console {
            "proxypilot: "@
        } else {
            "Не удалось запустить.\n\n"@
        }) + why@,
{
    let mut out = if console {
        "proxypilot: ".to_owned()
    } else {
        "Не удалось запустить.\n\n".to_owned()
    };
    out.append(why);
    out
}

// ---------------------------------------------------------------------------
// The way out
// ---------------------------------------------------------------------------

/// Why the loop of window messages ended.
#[derive(Debug, PartialEq, Eq)]
pub enum Exit {
    /// A person asked for it.
    User,
    /// The system asked for it.
    SessionEnd,
    /// The bridge takes no connections any more.
    BridgeStopped,
    /// No message could be had, for this reason.
    MessageLoopFailed(String),
}

/// Without the bridge the settings of the system would lead nowhere.
pub const BRIDGE_STOPPED: &'static str = "мост перестал принимать соединения; выходим, \
    чтобы не оставлять системный прокси направленным в пустоту";

/// The way out is a success, or a failure with this text.
pub open spec fn ended(exit: Exit) -> Result<(), Seq<char>> {
    match exit {
        Exit::User | Exit::SessionEnd => Ok(()),
        Exit::BridgeStopped => Err(BRIDGE_STOPPED@),
        Exit::MessageLoopFailed(why) => Err(why@),
    }
}

/// A result without the type of its text.
pub open spec fn said(result: Result<(), String>) -> Result<(), Seq<char>> {
    match result {
        Ok(_) => Ok(()),
        Err(why) => Err(why@),
    }
}

/// What the program ends with.
pub fn exit_result(exit: Exit) -> (out: Result<(), String>)
    ensures
        said(out) == ended(exit),
{
    match exit {
        Exit::User | Exit::SessionEnd => Ok(()),
        Exit::BridgeStopped => Err(BRIDGE_STOPPED.to_owned()),
        Exit::MessageLoopFailed(why) => Err(why),
    }
}

// ---------------------------------------------------------------------------
// The start
// ---------------------------------------------------------------------------

/// What the start takes from the configuration.
#[derive(Debug, Clone, Copy, PartialEq, Eq, Structural)]
pub struct Boot {
    pub port: u16,
    /// The settings of the system are ours to manage.
    pub manages: bool,
}

/// What came of looking for the directory of the program.
#[derive(Debug, PartialEq, Eq)]
pub enum Located {
    /// The directory is there, and so is the one for the log.
    Ready,
    /// The system knows no directory for settings.
    NoPath,
    /// The configuration has no directory.
    NoDirectory,
    /// The directory for the log could not be created.
    NotCreated { directory: String, why: String },
}

/// How far the start has come.
#[derive(Debug, PartialEq, Eq)]
pub enum Startup {
    Locating,
    /// The update that an earlier run has kept is being installed.
    Updating,
    /// The program that was installed is being started.
    Relaunching,
    /// The configuration is being read.
    Loading,
    JoiningApartment(Boot),
    StartingRuntime(Boot),
    /// The route is being chosen for the first time.
    Evaluating(Boot),
    /// The port is being taken.
    Binding(Boot),
    BuildingTray(Boot),
    /// The guards that give the settings of the system back are being set.
    Guarding(Boot),
    /// The settings of the system are being taken over.
    TakingOver(Boot),
    /// The settings of the system are only being read.
    Inspecting(Boot),
    Diagnosing(Boot),
    /// The window messages are being served.
    Serving(Boot),
    Finished,
}

/// What happened.
#[derive(Debug, PartialEq, Eq)]
pub enum StartupEvent {
    Located(Located),
    /// Whether an update was installed; nothing where the program does not know
    /// its own path.
    Updated(Option<Result<bool, String>>),
    Relaunched(Result<(), String>),
    Loaded(Result<Boot, String>),
    Joined(Result<(), String>),
    RuntimeStarted(Result<(), String>),
    Evaluated,
    Bound(Result<(), String>),
    TrayBuilt(Result<(), String>),
    Guarded,
    TakenOver(Result<SysProxy, ProxyError>),
    Inspected(Result<SysProxy, String>),
    Diagnosed,
    Left(Exit),
}

/// What to do next.
#[derive(Debug, PartialEq, Eq)]
pub enum StartupAction {
    ApplyUpdate,
    Relaunch,
    LoadConfig,
    JoinApartment,
    StartRuntime,
    Evaluate,
    /// Listen at this address.
    Bind(String),
    BuildTray,
    /// Catch the end of the session, and, if so said, every other way out.
    Guard { every_exit: bool },
    TakeOver,
    /// Read the settings of the system.
    Inspect,
    /// Run the checks; this is what the system said before it was written to.
    Diagnose(Result<SysProxy, String>),
    Serve,
    /// The program ends.
    Finish(Result<(), String>),
    /// The event does not belong to this state.
    Ignore,
}

/// The program ends with this failure.
pub open spec fn fails(next: Startup, action: StartupAction, why: Seq<char>) -> bool {
    &&& next is Finished
    &&& action matches StartupAction::Finish(Err(w))
    &&& w@ == why
}

/// The next state and the action.
pub open spec fn startup_step(
    state: Startup,
    event: StartupEvent,
    next: Startup,
    action: StartupAction,
) -> bool {
    match (state, event) {
        (Startup::Locating, StartupEvent::Located(located)) => match located {
            Located::Ready => next is Updating && action is ApplyUpdate,
            Located::NoPath => fails(next, action, "не нашёл каталог настроек пользователя"@),
            Located::NoDirectory => fails(next, action, "у пути конфига нет каталога"@),
            Located::NotCreated { directory, why } => fails(
                next,
                action,
                "не создать "@ + directory@ + ": "@ + why@,
            ),
        },
        (Startup::Updating, StartupEvent::Updated(result)) => if result == Some(
            Ok::<bool, String>(true),
        ) {
            next is Relaunching && action is Relaunch
        } else {
            next is Loading && action is LoadConfig
        },
        (Startup::Relaunching, StartupEvent::Relaunched(result)) => match result {
            Ok(_) => next is Finished && action == StartupAction::Finish(Ok(())),
            Err(_) => next is Loading && action is LoadConfig,
        },
        (Startup::Loading, StartupEvent::Loaded(result)) => match result {
            Ok(boot) => next == Startup::JoiningApartment(boot) && action is JoinApartment,
            Err(why) => fails(next, action, why@),
        },
        (Startup::JoiningApartment(boot), StartupEvent::Joined(result)) => match result {
            Ok(_) => next == Startup::StartingRuntime(boot) && action is StartRuntime,
            Err(why) => fails(next, action, "COM на главном потоке: "@ + why@),
        },
        (Startup::StartingRuntime(boot), StartupEvent::RuntimeStarted(result)) => match result {
            Ok(_) => next == Startup::Evaluating(boot) && action is Evaluate,
            Err(why) => fails(next, action, "tokio: "@ + why@),
        },
        (Startup::Evaluating(boot), StartupEvent::Evaluated) => {
            &&& next == Startup::Binding(boot)
            &&& action matches StartupAction::Bind(address)
            &&& address@ == bridge_at(boot.port)
        },
        (Startup::Binding(boot), StartupEvent::Bound(result)) => match result {
            Ok(_) => next == Startup::BuildingTray(boot) && action is BuildTray,
            Err(why) => fails(
                next,
                action,
                "не занять "@ + bridge_at(boot.port) + ": "@ + why@
                    + "; возможно, proxypilot уже запущен"@,
            ),
        },
        (Startup::BuildingTray(boot), StartupEvent::TrayBuilt(result)) => match result {
            Ok(_) => next == Startup::Guarding(boot) && action == (StartupAction::Guard {
                every_exit: boot.manages,
            }),
            Err(why) => fails(next, action, "трей: "@ + why@),
        },
        (Startup::Guarding(boot), StartupEvent::Guarded) => if boot.manages {
            next == Startup::TakingOver(boot) && action is TakeOver
        } else {
            next == Startup::Inspecting(boot) && action is Inspect
        },
        (Startup::TakingOver(boot), StartupEvent::TakenOver(result)) => match result {
            Ok(before) => next == Startup::Diagnosing(boot) && action == StartupAction::Diagnose(
                Ok(before),
            ),
            Err(e) => fails(next, action, crate::proxy::proxy_error_text(e)),
        },
        (Startup::Inspecting(boot), StartupEvent::Inspected(result)) => next
            == Startup::Diagnosing(boot) && action == StartupAction::Diagnose(result),
        (Startup::Diagnosing(boot), StartupEvent::Diagnosed) => next == Startup::Serving(boot)
            && action is Serve,
        (Startup::Serving(_), StartupEvent::Left(exit)) => {
            &&& next is Finished
            &&& action matches StartupAction::Finish(result)
            &&& said(result) == ended(exit)
        },
        _ => next == state && action is Ignore,
    }
}

fn failed(what: &str, why: &str) -> (out: (Startup, StartupAction))
    ensures
        fails(out.0, out.1, what@ + why@),
{
    let mut text = what.to_owned();
    text.append(why);
    (Startup::Finished, StartupAction::Finish(Err(text)))
}

/// What to do once it is known whether the directory is there.
fn located(result: Located) -> (out: (Startup, StartupAction))
    ensures
        startup_step(Startup::Locating, StartupEvent::Located(result), out.0, out.1),
{
    match result {
        Located::Ready => (Startup::Updating, StartupAction::ApplyUpdate),
        Located::NoPath => (
            Startup::Finished,
            StartupAction::Finish(Err("не нашёл каталог настроек пользователя".to_owned())),
        ),
        Located::NoDirectory => (
            Startup::Finished,
            StartupAction::Finish(Err("у пути конфига нет каталога".to_owned())),
        ),
        Located::NotCreated { directory, why } => {
            let mut what = "не создать ".to_owned();
            what.append(directory.as_str());
            what.append(": ");
            failed(what.as_str(), why.as_str())
        },
    }
}

/// One step of the start. The system is written to last of all: behind the port
/// that its settings will lead to, and behind the guards that give them back.
pub fn run(state: Startup, event: StartupEvent) -> (out: (Startup, StartupAction))
    ensures
        startup_step(state, event, out.0, out.1),
{
    match (state, event) {
        (Startup::Locating, StartupEvent::Located(result)) => located(result),
        (Startup::Updating, StartupEvent::Updated(Some(Ok(true)))) => (
            Startup::Relaunching,
            StartupAction::Relaunch,
        ),
        (Startup::Updating, StartupEvent::Updated(_)) => (
            Startup::Loading,
            StartupAction::LoadConfig,
        ),
        (Startup::Relaunching, StartupEvent::Relaunched(Ok(_))) => (
            Startup::Finished,
            StartupAction::Finish(Ok(())),
        ),
        (Startup::Relaunching, StartupEvent::Relaunched(Err(_))) => (
            Startup::Loading,
            StartupAction::LoadConfig,
        ),
        (Startup::Loading, StartupEvent::Loaded(Ok(boot))) => (
            Startup::JoiningApartment(boot),
            StartupAction::JoinApartment,
        ),
        (Startup::Loading, StartupEvent::Loaded(Err(why))) => (
            Startup::Finished,
            StartupAction::Finish(Err(why)),
        ),
        (state, event) => run_logged(state, event),
    }
}

/// One step of the start once the configuration is known.
fn run_logged(state: Startup, event: StartupEvent) -> (out: (Startup, StartupAction))
    requires
        !(state is Locating && event is Located),
        !(state is Updating && event is Updated),
        !(state is Relaunching && event is Relaunched),
        !(state is Loading && event is Loaded),
    ensures
        startup_step(state, event, out.0, out.1),
{
    match (state, event) {
        (Startup::JoiningApartment(boot), StartupEvent::Joined(result)) => match result {
            Ok(_) => (Startup::StartingRuntime(boot), StartupAction::StartRuntime),
            Err(why) => failed("COM на главном потоке: ", why.as_str()),
        },
        (Startup::StartingRuntime(boot), StartupEvent::RuntimeStarted(result)) => match result {
            Ok(_) => (Startup::Evaluating(boot), StartupAction::Evaluate),
            Err(why) => failed("tokio: ", why.as_str()),
        },
        (Startup::Evaluating(boot), StartupEvent::Evaluated) => (
            Startup::Binding(boot),
            StartupAction::Bind(bridge_address(boot.port)),
        ),
        (Startup::Binding(boot), StartupEvent::Bound(result)) => match result {
            Ok(_) => (Startup::BuildingTray(boot), StartupAction::BuildTray),
            Err(why) => {
                let mut what = "не занять ".to_owned();
                what.append(bridge_address(boot.port).as_str());
                what.append(": ");
                what.append(why.as_str());
                failed(what.as_str(), "; возможно, proxypilot уже запущен")
            },
        },
        (Startup::BuildingTray(boot), StartupEvent::TrayBuilt(result)) => match result {
            Ok(_) => (Startup::Guarding(boot), StartupAction::Guard { every_exit: boot.manages }),
            Err(why) => failed("трей: ", why.as_str()),
        },
        (Startup::Guarding(boot), StartupEvent::Guarded) => {
            if boot.manages {
                (Startup::TakingOver(boot), StartupAction::TakeOver)
            } else {
                (Startup::Inspecting(boot), StartupAction::Inspect)
            }
        },
        (Startup::TakingOver(boot), StartupEvent::TakenOver(result)) => match result {
            Ok(before) => (Startup::Diagnosing(boot), StartupAction::Diagnose(Ok(before))),
            Err(e) => (Startup::Finished, StartupAction::Finish(Err(e.text()))),
        },
        (Startup::Inspecting(boot), StartupEvent::Inspected(result)) => (
            Startup::Diagnosing(boot),
            StartupAction::Diagnose(result),
        ),
        (Startup::Diagnosing(boot), StartupEvent::Diagnosed) => (
            Startup::Serving(boot),
            StartupAction::Serve,
        ),
        (Startup::Serving(_), StartupEvent::Left(exit)) => (
            Startup::Finished,
            StartupAction::Finish(exit_result(exit)),
        ),
        (state, _) => (state, StartupAction::Ignore),
    }
}

/// The checks at the start. The port is bound by now, and that it could be
/// bound shows that it was free. `before` is what the system said before its
/// settings were taken over.
pub fn startup_checks(cfg: &Config, initial: &AppState, before: &Result<SysProxy, String>) -> (out:
    Vec<Check>)
    ensures
        checks_in(out@) == diagnostics(cfg@, *initial, true, true, reading(*before)),
{
    run_checks(cfg, initial, true, true, before)
}

/// What there is to say of the settings of the system where they are not ours
/// to manage.
#[derive(Debug, PartialEq, Eq)]
pub enum LeftBehind {
    Nothing,
    /// They could not be read.
    Unreadable,
    /// They lead to our port: an earlier run was killed while it managed them.
    OurAddress,
}

/// Looks for our address in settings that are not ours to manage. Nothing is
/// written.
pub fn warn_if_stale_pointer_left_behind(current: &Result<SysProxy, String>, port: u16) -> (out:
    LeftBehind)
    ensures
        out == (match *current {
            Err(_) => LeftBehind::Unreadable,
            Ok(settings) => if stale_pointer(settings@, port) {
                LeftBehind::OurAddress
            } else {
                LeftBehind::Nothing
            },
        }),
{
    match current {
        Err(_) => LeftBehind::Unreadable,
        Ok(settings) => {
            if is_stale_pointer(settings, port) {
                LeftBehind::OurAddress
            } else {
                LeftBehind::Nothing
            }
        },
    }
}

// ---------------------------------------------------------------------------
// Commands
// ---------------------------------------------------------------------------

/// What the supervisor is asked for.
#[derive(Debug, PartialEq, Eq)]
pub enum Cmd {
    Reevaluate,
    SetMode(Mode),
    /// A whole configuration, as the settings page has put it together. Whoever
    /// sent it waits for an answer.
    ApplyConfig(Box<Config>),
}

/// How far a command has come.
#[derive(Debug, PartialEq, Eq)]
pub enum Turn {
    /// The configuration is being written to the disk.
    Saving { live: Config, answers: bool },
    /// The state is being evaluated; this is the answer to give then.
    Evaluating { answer: Option<Result<(), String>> },
    Finished,
}

/// What happened.
#[derive(Debug, PartialEq, Eq)]
pub enum TurnEvent {
    Saved(Result<(), String>),
    Evaluated,
}

/// What to do next.
#[derive(Debug, PartialEq, Eq)]
pub enum TurnAction {
    /// Write the saved configuration to the disk.
    Save,
    /// Run with this configuration from now on, publish the saved one, and
    /// evaluate the state.
    Rebuild(Config),
    Evaluate,
    /// Publish the state, wake the loop of window messages, and give the
    /// answer.
    Publish(Option<Result<(), String>>),
    /// The event does not belong to this state.
    Ignore,
}

/// The change that a command asks for.
pub open spec fn change_of(cmd: Cmd) -> Option<Change> {
    match cmd {
        Cmd::Reevaluate => None,
        Cmd::SetMode(mode) => Some(Change::Mode(mode)),
        Cmd::ApplyConfig(config) => Some(Change::Whole(config)),
    }
}

/// Takes in a command. A change goes into the saved configuration at once, the
/// port included; what the bridge runs with keeps the port that it is bound to.
pub fn take_command(saved: &mut Config, cmd: Cmd, bound_port: u16) -> (out: (Turn, TurnAction))
    ensures
        match change_of(cmd) {
            None => {
                &&& *final(saved) == *old(saved)
                &&& out == (Turn::Evaluating { answer: None }, TurnAction::Evaluate)
            },
            Some(change) => {
                &&& final(saved)@ == changed(old(saved)@, change)
                &&& out.0 matches Turn::Saving { live, answers }
                &&& live@ == (ConfigView { bridge_port: bound_port, ..final(saved)@ })
                &&& answers == (cmd is ApplyConfig)
                &&& out.1 is Save
            },
        },
{
    let answers = matches!(cmd, Cmd::ApplyConfig(_));
    let change = match cmd {
        Cmd::Reevaluate => {
            return (Turn::Evaluating { answer: None }, TurnAction::Evaluate);
        },
        Cmd::SetMode(mode) => Change::Mode(mode),
        Cmd::ApplyConfig(config) => Change::Whole(config),
    };
    let live = apply_change(saved, change, bound_port);
    (Turn::Saving { live, answers }, TurnAction::Save)
}

/// The next state and the action.
pub open spec fn turn_step(
    state: Turn,
    event: TurnEvent,
    next: Turn,
    action: TurnAction,
) -> bool {
    match (state, event) {
        (Turn::Saving { live, answers }, TurnEvent::Saved(result)) => {
            &&& next == (Turn::Evaluating {
                answer: if answers {
                    Some(result)
                } else {
                    None
                },
            })
            &&& action == TurnAction::Rebuild(live)
        },
        (Turn::Evaluating { answer }, TurnEvent::Evaluated) => next is Finished && action
            == TurnAction::Publish(answer),
        _ => next == state && action is Ignore,
    }
}

/// One step of a command. A configuration that could not be written is used all
/// the same until the next start, and the answer says so.
pub fn turn(state: Turn, event: TurnEvent) -> (out: (Turn, TurnAction))
    ensures
        turn_step(state, event, out.0, out.1),
{
    match (state, event) {
        (Turn::Saving { live, answers }, TurnEvent::Saved(result)) => {
            let answer = if answers {
                Some(result)
            } else {
                None
            };
            (Turn::Evaluating { answer }, TurnAction::Rebuild(live))
        },
        (Turn::Evaluating { answer }, TurnEvent::Evaluated) => (
            Turn::Finished,
            TurnAction::Publish(answer),
        ),
        (state, _) => (state, TurnAction::Ignore),
    }
}

// ---------------------------------------------------------------------------
// The loop of window messages
// ---------------------------------------------------------------------------

/// A part of the settings page.
#[derive(Debug, Clone, Copy, PartialEq, Eq, Structural)]
pub enum Section {
    Top,
    Bench,
    Doctor,
    Tunnel,
}

/// Where the loop is.
#[derive(Debug, Clone, Copy, PartialEq, Eq, Structural)]
pub enum LoopStage {
    /// The flag of the bridge is being read before the wait.
    Checking,
    /// A message is being waited for.
    Waiting,
    /// A message is being handed to its window.
    Dispatching,
    /// The clicks in the menu are being taken in.
    Draining,
    Left,
}

/// What happened.
#[derive(Debug, PartialEq, Eq)]
pub enum LoopEvent {
    /// The flag of the bridge was read.
    Checked { stopped: bool },
    /// A message was waited for: what the system returned, the number of the
    /// message, what the system says of a failure, and the flag of the bridge
    /// behind it all.
    Got { code: i32, message: u32, why: String, stopped: bool },
    /// The message was handed to its window, and then the flag was read.
    Dispatched { stopped: bool },
    /// A click, and the line of the menu that it belongs to, if any.
    Clicked(Option<Action>),
    /// There are no more clicks.
    NoMoreClicks,
}

/// What to do next.
#[derive(Debug, PartialEq, Eq)]
pub enum LoopAction {
    CheckBridge,
    WaitForMessage,
    /// Hand the message to its window; refresh the tray first, if so said.
    Dispatch { refresh: bool },
    TakeClick,
    CopyAddress,
    OpenSettings(Section),
    /// Ask the supervisor for this mode, without waiting.
    SetMode(Mode),
    Leave(Exit),
    /// The event does not belong to this stage.
    Ignore,
}

/// What a click asks for.
pub open spec fn clicked(action: Option<Action>) -> LoopAction {
    match action {
        None => LoopAction::TakeClick,
        Some(Action::Quit) => LoopAction::Leave(Exit::User),
        Some(Action::CopyAddress) => LoopAction::CopyAddress,
        Some(Action::OpenSettings) => LoopAction::OpenSettings(Section::Top),
        Some(Action::OpenBench) => LoopAction::OpenSettings(Section::Bench),
        Some(Action::OpenDoctor) => LoopAction::OpenSettings(Section::Doctor),
        Some(Action::OpenTunnel) => LoopAction::OpenSettings(Section::Tunnel),
        Some(Action::SetMode(mode)) => LoopAction::SetMode(mode),
    }
}

/// The next stage and the action.
pub open spec fn loop_step(
    stage: LoopStage,
    event: LoopEvent,
    next: LoopStage,
    action: LoopAction,
) -> bool {
    match (stage, event) {
        (LoopStage::Checking, LoopEvent::Checked { stopped }) => if stopped {
            next is Left && action == LoopAction::Leave(Exit::BridgeStopped)
        } else {
            next is Waiting && action is WaitForMessage
        },
        (LoopStage::Waiting, LoopEvent::Got { code, message, why, stopped }) => if code == -1 {
            &&& next is Left
            &&& action matches LoopAction::Leave(Exit::MessageLoopFailed(w))
            &&& w@ == "цикл сообщений отказал: "@ + why@
        } else if code == 0 {
            next is Left && action == LoopAction::Leave(Exit::SessionEnd)
        } else if stopped {
            next is Left && action == LoopAction::Leave(Exit::BridgeStopped)
        } else {
            next is Dispatching && action == (LoopAction::Dispatch {
                refresh: message == WM_STATE_CHANGED,
            })
        },
        (LoopStage::Dispatching, LoopEvent::Dispatched { stopped }) => if stopped {
            next is Left && action == LoopAction::Leave(Exit::BridgeStopped)
        } else {
            next is Draining && action is TakeClick
        },
        (LoopStage::Draining, LoopEvent::Clicked(line)) => {
            &&& action == clicked(line)
            &&& next == (if action is Leave {
                LoopStage::Left
            } else {
                LoopStage::Draining
            })
        },
        (LoopStage::Draining, LoopEvent::NoMoreClicks) => next is Checking && action is CheckBridge,
        _ => next == stage && action is Ignore,
    }
}

fn on_click(line: Option<Action>) -> (out: LoopAction)
    ensures
        out == clicked(line),
{
    match line {
        None => LoopAction::TakeClick,
        Some(Action::Quit) => LoopAction::Leave(Exit::User),
        Some(Action::CopyAddress) => LoopAction::CopyAddress,
        Some(Action::OpenSettings) => LoopAction::OpenSettings(Section::Top),
        Some(Action::OpenBench) => LoopAction::OpenSettings(Section::Bench),
        Some(Action::OpenDoctor) => LoopAction::OpenSettings(Section::Doctor),
        Some(Action::OpenTunnel) => LoopAction::OpenSettings(Section::Tunnel),
        Some(Action::SetMode(mode)) => LoopAction::SetMode(mode),
    }
}

/// One step of the loop. The flag of the bridge is read before the wait, behind
/// it, and again once the message was handed on: a menu that was open all the
/// while has swallowed the message that would have told of it.
pub fn message_loop(stage: LoopStage, event: LoopEvent) -> (out: (LoopStage, LoopAction))
    ensures
        loop_step(stage, event, out.0, out.1),
{
    match (stage, event) {
        (LoopStage::Checking, LoopEvent::Checked { stopped }) => {
            if stopped {
                (LoopStage::Left, LoopAction::Leave(Exit::BridgeStopped))
            } else {
                (LoopStage::Waiting, LoopAction::WaitForMessage)
            }
        },
        (LoopStage::Waiting, LoopEvent::Got { code, message, why, stopped }) => {
            if code == -1 {
                let mut text = "цикл сообщений отказал: ".to_owned();
                text.append(why.as_str());
                (LoopStage::Left, LoopAction::Leave(Exit::MessageLoopFailed(text)))
            } else if code == 0 {
                (LoopStage::Left, LoopAction::Leave(Exit::SessionEnd))
            } else if stopped {
                (LoopStage::Left, LoopAction::Leave(Exit::BridgeStopped))
            } else {
                (
                    LoopStage::Dispatching,
                    LoopAction::Dispatch { refresh: message == WM_STATE_CHANGED },
                )
            }
        },
        (LoopStage::Dispatching, LoopEvent::Dispatched { stopped }) => {
            if stopped {
                (LoopStage::Left, LoopAction::Leave(Exit::BridgeStopped))
            } else {
                (LoopStage::Draining, LoopAction::TakeClick)
            }
        },
        (LoopStage::Draining, LoopEvent::Clicked(line)) => {
            let action = on_click(line);
            if let LoopAction::Leave(_) = &action {
                (LoopStage::Left, action)
            } else {
                (LoopStage::Draining, action)
            }
        },
        (LoopStage::Draining, LoopEvent::NoMoreClicks) => (
            LoopStage::Checking,
            LoopAction::CheckBridge,
        ),
        (stage, _) => (stage, LoopAction::Ignore),
    }
}

// ---------------------------------------------------------------------------
// Opening the settings page
// ---------------------------------------------------------------------------

/// How far the opening has come.
#[derive(Debug, PartialEq, Eq)]
pub enum Opening {
    /// The server is being started.
    Starting(Section),
    /// The browser is being called.
    Browsing,
    Finished,
}

/// What happened.
#[derive(Debug, PartialEq, Eq)]
pub enum OpeningEvent {
    /// The server was started at this address, or why it was not.
    Started(Result<String, String>),
    Browsed(Result<(), String>),
}

/// What to do next.
#[derive(Debug, PartialEq, Eq)]
pub enum OpeningAction {
    StartServer,
    /// Show this address in the browser.
    Browse(String),
    /// Show this text in a window; the program goes on.
    Complain(String),
    Done,
    /// The event does not belong to this state.
    Ignore,
}

/// The part of the address that leads to a section. The server never sees it.
pub open spec fn fragment(section: Section) -> Seq<char> {
    match section {
        Section::Top => Seq::empty(),
        Section::Bench => "#bench"@,
        Section::Doctor => "#doctor"@,
        Section::Tunnel => "#tunnel"@,
    }
}

/// The address of a section.
pub fn section_address(url: &str, section: Section) -> (out: String)
    ensures
        out@ == url@ + fragment(section),
{
    let mut out = url.to_owned();
    match section {
        Section::Top => {
            assert(url@ + Seq::<char>::empty() =~= url@);
        },
        Section::Bench => out.append("#bench"),
        Section::Doctor => out.append("#doctor"),
        Section::Tunnel => out.append("#tunnel"),
    }
    out
}

/// Begins to open the settings page. `running` is the address of the server, if
/// it runs: it stops by itself, so that this is asked each time.
pub fn open_settings(running: Option<&str>, section: Section) -> (out: (Opening, OpeningAction))
    ensures
        match running {
            Some(url) => {
                &&& out.0 is Browsing
                &&& out.1 matches OpeningAction::Browse(address)
                &&& address@ == url@ + fragment(section)
            },
            None => out == (Opening::Starting(section), OpeningAction::StartServer),
        },
{
    match running {
        Some(url) => (
            Opening::Browsing,
            OpeningAction::Browse(section_address(url, section)),
        ),
        None => (Opening::Starting(section), OpeningAction::StartServer),
    }
}

/// The next state and the action.
pub open spec fn opening_step(
    state: Opening,
    event: OpeningEvent,
    next: Opening,
    action: OpeningAction,
) -> bool {
    match (state, event) {
        (Opening::Starting(section), OpeningEvent::Started(Ok(url))) => {
            &&& next is Browsing
            &&& action matches OpeningAction::Browse(address)
            &&& address@ == url@ + fragment(section)
        },
        (Opening::Starting(_), OpeningEvent::Started(Err(why))) => {
            &&& next is Finished
            &&& action matches OpeningAction::Complain(text)
            &&& text@ == "Не удалось открыть настройки.\n\n"@ + why@
        },
        (Opening::Browsing, OpeningEvent::Browsed(Ok(_))) => next is Finished && action is Done,
        (Opening::Browsing, OpeningEvent::Browsed(Err(why))) => {
            &&& next is Finished
            &&& action matches OpeningAction::Complain(text)
            &&& text@ == "Не удалось открыть браузер со страницей настроек.\n\n"@ + why@
        },
        _ => next == state && action is Ignore,
    }
}

/// One step of the opening.
pub fn continue_opening(state: Opening, event: OpeningEvent) -> (out: (Opening, OpeningAction))
    ensures
        opening_step(state, event, out.0, out.1),
{
    match (state, event) {
        (Opening::Starting(section), OpeningEvent::Started(Ok(url))) => (
            Opening::Browsing,
            OpeningAction::Browse(section_address(url.as_str(), section)),
        ),
        (Opening::Starting(_), OpeningEvent::Started(Err(why))) => {
            let mut text = "Не удалось открыть настройки.\n\n".to_owned();
            text.append(why.as_str());
            (Opening::Finished, OpeningAction::Complain(text))
        },
        (Opening::Browsing, OpeningEvent::Browsed(Ok(_))) => (
            Opening::Finished,
            OpeningAction::Done,
        ),
        (Opening::Browsing, OpeningEvent::Browsed(Err(why))) => {
            let mut text = "Не удалось открыть браузер со страницей настроек.\n\n".to_owned();
            text.append(why.as_str());
            (Opening::Finished, OpeningAction::Complain(text))
        },
        (state, _) => (state, OpeningAction::Ignore),
    }
}

// ---------------------------------------------------------------------------
// Laws
// ---------------------------------------------------------------------------

/// One step of a start.
pub ghost struct StartupMove {
    pub state: Startup,
    pub event: StartupEvent,
    pub next: Startup,
    pub action: StartupAction,
}

/// The steps of one start, from its beginning on.
pub open spec fn is_startup(moves: Seq<StartupMove>) -> bool {
    &&& moves.len() > 0 ==> moves[0].state is Locating
    &&& forall|i: int|
        0 <= i < moves.len() ==> startup_step(
            (#[trigger] moves[i]).state,
            moves[i].event,
            moves[i].next,
            moves[i].action,
        )
    &&& forall|i: int, j: int|
        0 <= i && i + 1 == j && j < moves.len() ==> (#[trigger] moves[i]).next == (
        #[trigger] moves[j]).state
}

/// The route was chosen within the first steps.
pub open spec fn was_evaluated(moves: Seq<StartupMove>, until: int) -> bool {
    exists|i: int|
        0 <= i < until && (#[trigger] moves[i]).state is Evaluating && moves[i].event is Evaluated
}

/// The port was taken within the first steps.
pub open spec fn was_bound(moves: Seq<StartupMove>, until: int) -> bool {
    exists|i: int|
        0 <= i < until && (#[trigger] moves[i]).state is Binding && moves[i].event matches
            StartupEvent::Bound(Ok(_))
}

/// The tray was built within the first steps.
pub open spec fn was_built(moves: Seq<StartupMove>, until: int) -> bool {
    exists|i: int|
        0 <= i < until && (#[trigger] moves[i]).state is BuildingTray && moves[i].event matches
            StartupEvent::TrayBuilt(Ok(_))
}

proof fn lemma_reached(moves: Seq<StartupMove>, k: int)
    requires
        is_startup(moves),
        0 <= k < moves.len(),
    ensures
        moves[k].state is Binding || moves[k].state is BuildingTray || moves[k].state is Guarding
            ==> was_evaluated(moves, k),
        moves[k].state is BuildingTray || moves[k].state is Guarding ==> was_bound(moves, k),
        moves[k].state is Guarding ==> was_built(moves, k),
    decreases k,
{
    if k > 0 {
        lemma_reached(moves, k - 1);
        assert(moves[k - 1].next == moves[k].state);
        if was_evaluated(moves, k - 1) {
            assert(was_evaluated(moves, k));
        }
        if was_bound(moves, k - 1) {
            assert(was_bound(moves, k));
        }
        if was_built(moves, k - 1) {
            assert(was_built(moves, k));
        }
    }
}

/// Nothing is served before a route was chosen: the port is taken only behind
/// the first evaluation.
pub proof fn a_route_is_chosen_before_the_port_is_taken(moves: Seq<StartupMove>, k: int)
    requires
        is_startup(moves),
        0 <= k < moves.len(),
        moves[k].state is Binding,
    ensures
        was_evaluated(moves, k),
{
    lemma_reached(moves, k);
}

/// The settings of the system are taken over only if they are ours to manage,
/// and only once the port is bound, the tray is there and every way out is
/// guarded.
pub proof fn the_system_is_written_to_last(moves: Seq<StartupMove>, k: int)
    requires
        is_startup(moves),
        0 <= k < moves.len(),
        moves[k].action is TakeOver,
    ensures
        moves[k].state matches Startup::Guarding(boot) && boot.manages,
        moves[k].event is Guarded,
        was_evaluated(moves, k),
        was_bound(moves, k),
        was_built(moves, k),
{
    lemma_reached(moves, k);
}

/// How far a state is from the beginning.
pub open spec fn distance(state: Startup) -> int {
    match state {
        Startup::Locating => 0,
        Startup::Updating => 1,
        Startup::Relaunching => 2,
        Startup::Loading => 3,
        Startup::JoiningApartment(_) => 4,
        Startup::StartingRuntime(_) => 5,
        Startup::Evaluating(_) => 6,
        Startup::Binding(_) => 7,
        Startup::BuildingTray(_) => 8,
        Startup::Guarding(_) => 9,
        Startup::TakingOver(_) | Startup::Inspecting(_) => 10,
        Startup::Diagnosing(_) => 11,
        Startup::Serving(_) => 12,
        Startup::Finished => 13,
    }
}

/// The start never goes back: each step that is one leads further on.
pub proof fn the_start_never_goes_back(
    state: Startup,
    event: StartupEvent,
    next: Startup,
    action: StartupAction,
)
    requires
        startup_step(state, event, next, action),
    ensures
        action is Ignore ==> next == state,
        !(action is Ignore) ==> distance(next) > distance(state),
{
}

/// Whatever the loop is at, a bridge that has stopped ends it: before the wait,
/// behind it and behind an open menu.
pub proof fn a_stopped_bridge_ends_the_loop(
    stage: LoopStage,
    event: LoopEvent,
    next: LoopStage,
    action: LoopAction,
)
    requires
        loop_step(stage, event, next, action),
        match (stage, event) {
            (LoopStage::Checking, LoopEvent::Checked { stopped }) => stopped,
            (LoopStage::Waiting, LoopEvent::Got { code, stopped, .. }) => stopped && code != 0
                && code != -1,
            (LoopStage::Dispatching, LoopEvent::Dispatched { stopped }) => stopped,
            _ => false,
        },
    ensures
        next is Left,
        action == LoopAction::Leave(Exit::BridgeStopped),
        ended(Exit::BridgeStopped) is Err,
{
}

/// The program is left as if a person had asked for it only if one did.
pub proof fn only_a_person_quits(
    stage: LoopStage,
    event: LoopEvent,
    next: LoopStage,
    action: LoopAction,
)
    requires
        loop_step(stage, event, next, action),
        action == LoopAction::Leave(Exit::User),
    ensures
        stage is Draining,
        event == LoopEvent::Clicked(Some(Action::Quit)),
{
}

/// A configuration that could not be written to the disk is used all the same,
/// and whoever sent it is told, behind the evaluation that used it.
pub proof fn a_failed_write_is_used_and_told(
    live: Config,
    why: String,
    saving: Turn,
    rebuilt: TurnAction,
    last: Turn,
    told: TurnAction,
)
    requires
        turn_step(
            Turn::Saving { live, answers: true },
            TurnEvent::Saved(Err(why)),
            saving,
            rebuilt,
        ),
        turn_step(saving, TurnEvent::Evaluated, last, told),
    ensures
        rebuilt == TurnAction::Rebuild(live),
        told == TurnAction::Publish(Some(Err(why))),
        last is Finished,
{
}

/// An answer is given only behind an evaluation: the page that it wakes shows
/// the state that the change has led to.
pub proof fn an_answer_comes_behind_the_evaluation(
    state: Turn,
    event: TurnEvent,
    next: Turn,
    action: TurnAction,
)
    requires
        turn_step(state, event, next, action),
        action is Publish,
    ensures
        state is Evaluating,
        event is Evaluated,
{
}

// ---------------------------------------------------------------------------
// Laws of single steps
// ---------------------------------------------------------------------------

/// The first argument alone says what the program was started for.
pub proof fn the_first_argument_decides(arguments: &Vec<String>, out: Invocation)
    requires
        call_ensures(read_arguments, (arguments,), out),
    ensures
        out == Invocation::InstallService <==> arguments@.len() > 0 && arguments@[0]@
            == "install-service"@,
        out == Invocation::UninstallService <==> arguments@.len() > 0 && arguments@[0]@
            == "uninstall-service"@,
        out == Invocation::Tray <==> arguments@.len() == 0 || (arguments@[0]@ != "install-service"@
            && arguments@[0]@ != "uninstall-service"@),
{
    reveal_strlit("install-service");
    reveal_strlit("uninstall-service");
    assert("install-service"@.len() != "uninstall-service"@.len());
}

/// A command on the service ends with zero exactly where it went well, and else
/// says which one failed and why.
pub proof fn a_command_ends_with_zero_where_it_went_well(
    service: &str,
    result: Result<(), String>,
    installed: ConsoleReport,
    removed: ConsoleReport,
)
    requires
        call_ensures(run_install_service, (service, result), installed),
        call_ensures(run_uninstall_service, (service, result), removed),
    ensures
        installed.code == 0 <==> result is Ok,
        removed.code == 0 <==> result is Ok,
        result is Err ==> installed.code == 1 && removed.code == 1,
        result matches Err(why) ==> installed.text@ == "Не удалось установить службу "@ + service@
            + ": "@ + why@,
        result matches Err(why) ==> removed.text@ == "Не удалось удалить службу "@ + service@
            + ": "@ + why@,
        result is Ok ==> ("Служба "@ + service@ + " зарегистрирована"@).is_prefix_of(
            installed.text@,
        ),
        result is Ok ==> removed.text@ == "Служба "@ + service@ + " снята с регистрации."@,
{
    if result is Ok {
        let rest =
            " зарегистрирована (автозапуск). Она ещё не запущена — \
                 первый пуск сделает Windows при следующей перезагрузке, или \
                 запустите её вручную: services.msc / Start-Service "@;
        let word = " зарегистрирована"@;
        let n = word.len() as int;
        assert(rest =~= word + rest.skip(n)) by {
            reveal_strlit(
                " зарегистрирована (автозапуск). Она ещё не запущена — \
                 первый пуск сделает Windows при следующей перезагрузке, или \
                 запустите её вручную: services.msc / Start-Service ",
            );
            reveal_strlit(" зарегистрирована");
        }
        let start = "Служба "@ + service@ + word;
        assert(start =~= installed.text@.subrange(0, start.len() as int));
    }
}

/// A failed start is told to a console in one line and in a window below a title.
pub proof fn a_failed_start_is_told(why: &str, console: bool, out: String)
    requires
        call_ensures(report_failure, (why, console), out),
    ensures
        console ==> out@ == "proxypilot: "@ + why@,
        !console ==> out@ == "Не удалось запустить.\n\n"@ + why@,
{
}

/// The program ends well where a person or the system asked for it, and in no other
/// case.
pub proof fn an_end_that_was_asked_for_is_a_good_one(exit: Exit, out: Result<(), String>)
    requires
        call_ensures(exit_result, (exit,), out),
    ensures
        out is Ok <==> exit is User || exit is SessionEnd,
        exit is BridgeStopped ==> out->Err_0@ == "мост перестал принимать соединения; выходим, \
    чтобы не оставлять системный прокси направленным в пустоту"@,
        exit matches Exit::MessageLoopFailed(why) ==> out->Err_0@ == why@,
{
}

/// The start ends with this failure.
pub open spec fn fails_with(out: (Startup, StartupAction), why: Seq<char>) -> bool {
    &&& out.0 is Finished
    &&& out.1 is Finish
    &&& out.1->Finish_0 is Err
    &&& (out.1->Finish_0)->Err_0@ == why
}

/// Before the configuration is read: the directory has to be there, a pending update
/// is put in place, and only an update that was put in place starts the program anew.
pub proof fn an_update_is_put_in_place_first(
    located: Located,
    updated: Option<Result<bool, String>>,
    relaunched: Result<(), String>,
    loaded: Result<Boot, String>,
    outs: (
        (Startup, StartupAction),
        (Startup, StartupAction),
        (Startup, StartupAction),
        (Startup, StartupAction),
    ),
)
    requires
        call_ensures(run, (Startup::Locating, StartupEvent::Located(located)), outs.0),
        call_ensures(run, (Startup::Updating, StartupEvent::Updated(updated)), outs.1),
        call_ensures(run, (Startup::Relaunching, StartupEvent::Relaunched(relaunched)), outs.2),
        call_ensures(run, (Startup::Loading, StartupEvent::Loaded(loaded)), outs.3),
    ensures
        ({
            let (first, second, third, fourth) = outs;
            &&& located is Ready <==> first.1 is ApplyUpdate
            &&& located is Ready ==> first.0 is Updating
            &&& located is NoPath ==> fails_with(first, "не нашёл каталог настроек пользователя"@)
            &&& located is NoDirectory ==> fails_with(first, "у пути конфига нет каталога"@)
            &&& located matches Located::NotCreated { directory, why } ==> fails_with(
                first,
                "не создать "@ + directory@ + ": "@ + why@,
            )
            &&& second.1 is Relaunch <==> updated is Some && updated->0 is Ok && updated->0->Ok_0
            &&& second.1 is Relaunch ==> second.0 is Relaunching
            &&& !(second.1 is Relaunch) ==> second == (Startup::Loading, StartupAction::LoadConfig)
            &&& relaunched is Ok ==> third == (Startup::Finished, StartupAction::Finish(Ok(())))
            &&& relaunched is Err ==> third == (Startup::Loading, StartupAction::LoadConfig)
            &&& loaded matches Ok(boot) ==> fourth == (
                Startup::JoiningApartment(boot),
                StartupAction::JoinApartment,
            )
            &&& loaded matches Err(why) ==> fails_with(fourth, why@)
        }),
{
}

/// Every step of the start that went well is followed by the next one: the apartment,
/// the runtime, the first evaluation, the port of the configuration, the tray, the
/// guards. A step that failed ends the start and says which it was.
pub proof fn the_start_goes_on_step_by_step(
    boot: Boot,
    result: Result<(), String>,
    evaluated: (Startup, StartupAction),
    outs: (
        (Startup, StartupAction),
        (Startup, StartupAction),
        (Startup, StartupAction),
        (Startup, StartupAction),
    ),
)
    requires
        call_ensures(run, (Startup::JoiningApartment(boot), StartupEvent::Joined(result)), outs.0),
        call_ensures(
            run,
            (Startup::StartingRuntime(boot), StartupEvent::RuntimeStarted(result)),
            outs.1,
        ),
        call_ensures(run, (Startup::Evaluating(boot), StartupEvent::Evaluated), evaluated),
        call_ensures(run, (Startup::Binding(boot), StartupEvent::Bound(result)), outs.2),
        call_ensures(run, (Startup::BuildingTray(boot), StartupEvent::TrayBuilt(result)), outs.3),
    ensures
        ({
            let (joined, started, bound, built) = outs;
            let address = "127.0.0.1:"@ + decimal(boot.port as nat);
            &&& evaluated.0 == Startup::Binding(boot)
            &&& evaluated.1 is Bind && evaluated.1->Bind_0@ == address
            &&& result is Ok ==> {
                &&& joined == (Startup::StartingRuntime(boot), StartupAction::StartRuntime)
                &&& started == (Startup::Evaluating(boot), StartupAction::Evaluate)
                &&& bound == (Startup::BuildingTray(boot), StartupAction::BuildTray)
                &&& built == (
                    Startup::Guarding(boot),
                    StartupAction::Guard { every_exit: boot.manages },
                )
            }
            &&& result matches Err(why) ==> {
                &&& fails_with(joined, "COM на главном потоке: "@ + why@)
                &&& fails_with(started, "tokio: "@ + why@)
                &&& fails_with(
                    bound,
                    "не занять "@ + address + ": "@ + why@ + "; возможно, proxypilot уже запущен"@,
                )
                &&& fails_with(built, "трей: "@ + why@)
            }
        }),
{
}

/// Settings that are ours to manage are taken over, others only read; what the system
/// said before is what the checks get. Behind the checks the messages are served, and
/// the program ends as the loop has ended.
pub proof fn the_checks_get_what_the_system_said_before(
    boot: Boot,
    taken: Result<SysProxy, ProxyError>,
    why: String,
    read: Result<SysProxy, String>,
    exit: Exit,
    end: Result<(), String>,
    guarded: (Startup, StartupAction),
    outs: (
        (Startup, StartupAction),
        (Startup, StartupAction),
        (Startup, StartupAction),
        (Startup, StartupAction),
    ),
)
    requires
        call_ensures(run, (Startup::Guarding(boot), StartupEvent::Guarded), guarded),
        call_ensures(run, (Startup::TakingOver(boot), StartupEvent::TakenOver(taken)), outs.0),
        taken matches Err(e) ==> call_ensures(ProxyError::text, (&e,), why),
        call_ensures(run, (Startup::Inspecting(boot), StartupEvent::Inspected(read)), outs.1),
        call_ensures(run, (Startup::Diagnosing(boot), StartupEvent::Diagnosed), outs.2),
        call_ensures(exit_result, (exit,), end),
        call_ensures(run, (Startup::Serving(boot), StartupEvent::Left(exit)), outs.3),
    ensures
        ({
            let (taking, inspecting, diagnosed, left) = outs;
            &&& boot.manages ==> guarded == (Startup::TakingOver(boot), StartupAction::TakeOver)
            &&& !boot.manages ==> guarded == (Startup::Inspecting(boot), StartupAction::Inspect)
            &&& taken matches Ok(before) ==> taking == (
                Startup::Diagnosing(boot),
                StartupAction::Diagnose(Ok(before)),
            )
            &&& taken is Err ==> fails_with(taking, why@)
            &&& inspecting == (Startup::Diagnosing(boot), StartupAction::Diagnose(read))
            &&& diagnosed == (Startup::Serving(boot), StartupAction::Serve)
            &&& left.0 is Finished && left.1 is Finish
            &&& left.1->Finish_0 is Ok <==> end is Ok
            &&& end matches Err(text) ==> (left.1->Finish_0)->Err_0@ == text@
        }),
{
}

/// An address of ours is found in settings that are not ours to manage exactly where
/// they are on and name our port.
pub proof fn our_address_is_found_where_it_was_left(
    current: &Result<SysProxy, String>,
    port: u16,
    stale: bool,
    out: LeftBehind,
)
    requires
        call_ensures(warn_if_stale_pointer_left_behind, (current, port), out),
        current matches Ok(settings) ==> call_ensures(is_stale_pointer, (&settings, port), stale),
    ensures
        out is Unreadable <==> current is Err,
        out is OurAddress <==> current is Ok && stale,
        out is Nothing <==> current is Ok && !stale,
{
}

/// The checks of the start judge a port that is listened on and was free before.
pub proof fn the_first_checks_judge_the_port_that_was_taken(
    cfg: &Config,
    initial: &AppState,
    before: &Result<SysProxy, String>,
    expected: Vec<Check>,
    out: Vec<Check>,
    i: int,
)
    requires
        call_ensures(startup_checks, (cfg, initial, before), out),
        call_ensures(run_checks, (cfg, initial, true, true, before), expected),
    ensures
        out@.len() == expected@.len(),
        0 <= i < out@.len() ==> out@[i].title@ == expected@[i].title@ && out@[i].status
            == expected@[i].status && out@[i].detail@ == expected@[i].detail@,
{
    let (a, b) = (checks_in(out@), checks_in(expected@));
    assert(a == b);
    assert(a.len() == out@.len() && b.len() == expected@.len());
    if 0 <= i < out@.len() {
        assert(a[i] == out@[i]@ && b[i] == expected@[i]@);
    }
}

/// A command that changes something changes what is saved at once and has it written;
/// the bridge keeps its port. Only a whole configuration is answered, and a command
/// that changes nothing only has the state evaluated.
pub proof fn a_command_changes_what_is_saved(
    saved: &mut Config,
    cmd: Cmd,
    bound_port: u16,
    out: (Turn, TurnAction),
)
    requires
        call_ensures(take_command, (saved, cmd, bound_port), out),
    ensures
        cmd is Reevaluate ==> *final(saved) == *old(saved) && out == (
            Turn::Evaluating { answer: None },
            TurnAction::Evaluate,
        ),
        cmd matches Cmd::SetMode(mode) ==> same_config(
            Config { mode, ..*old(saved) },
            *final(saved),
        ),
        cmd matches Cmd::ApplyConfig(config) ==> same_config(*config, *final(saved)),
        !(cmd is Reevaluate) ==> out.1 is Save && {
            &&& out.0 matches Turn::Saving { live, answers }
            &&& answers == (cmd is ApplyConfig)
            &&& same_config(Config { bridge_port: bound_port, ..*final(saved) }, live)
        },
{
    let next = *final(saved);
    let before = *old(saved);
    match cmd {
        Cmd::Reevaluate => {},
        Cmd::SetMode(mode) => the_view_tells_configurations_apart(Config { mode, ..before }, next),
        Cmd::ApplyConfig(config) => the_view_tells_configurations_apart(*config, next),
    }
    if let Turn::Saving { live, answers } = out.0 {
        the_view_tells_configurations_apart(Config { bridge_port: bound_port, ..next }, live);
    }
}

/// What was to be saved is run with, whether it was written or not; whoever waits is
/// told which, once the state is evaluated.
pub proof fn what_was_changed_is_run_with(
    live: Config,
    answers: bool,
    result: Result<(), String>,
    answer: Option<Result<(), String>>,
    outs: ((Turn, TurnAction), (Turn, TurnAction)),
)
    requires
        call_ensures(turn, (Turn::Saving { live, answers }, TurnEvent::Saved(result)), outs.0),
        call_ensures(turn, (Turn::Evaluating { answer }, TurnEvent::Evaluated), outs.1),
    ensures
        outs.0.1 == TurnAction::Rebuild(live),
        answers ==> outs.0.0 == (Turn::Evaluating { answer: Some(result) }),
        !answers ==> outs.0.0 == (Turn::Evaluating { answer: None }),
        outs.1 == (Turn::Finished, TurnAction::Publish(answer)),
{
}

/// Every line of the menu leads where it says, and only the last one out.
pub proof fn a_click_leads_where_its_line_says(
    line: Option<Action>,
    out: (LoopStage, LoopAction),
)
    requires
        call_ensures(message_loop, (LoopStage::Draining, LoopEvent::Clicked(line)), out),
    ensures
        line == Some(Action::Quit) <==> out.0 is Left,
        line == Some(Action::Quit) ==> out.1 == LoopAction::Leave(Exit::User),
        line == Some(Action::CopyAddress) ==> out.1 is CopyAddress,
        line == Some(Action::OpenSettings) ==> out.1 == LoopAction::OpenSettings(Section::Top),
        line == Some(Action::OpenBench) ==> out.1 == LoopAction::OpenSettings(Section::Bench),
        line == Some(Action::OpenDoctor) ==> out.1 == LoopAction::OpenSettings(Section::Doctor),
        line == Some(Action::OpenTunnel) ==> out.1 == LoopAction::OpenSettings(Section::Tunnel),
        line matches Some(Action::SetMode(mode)) ==> out.1 == LoopAction::SetMode(mode),
        line is None ==> out.1 is TakeClick,
        line != Some(Action::Quit) ==> out.0 is Draining,
{
}

/// The loop ends where waiting failed, where the session ends and where the bridge
/// has stopped, in this order; a message goes to its window, and the one that tells of
/// a new state refreshes the tray first.
pub proof fn the_loop_goes_on_until_something_ends_it(
    code: i32,
    message: u32,
    why: String,
    stopped: bool,
    outs: (
        (LoopStage, LoopAction),
        (LoopStage, LoopAction),
        (LoopStage, LoopAction),
        (LoopStage, LoopAction),
    ),
)
    requires
        call_ensures(message_loop, (LoopStage::Checking, LoopEvent::Checked { stopped }), outs.0),
        call_ensures(
            message_loop,
            (LoopStage::Waiting, LoopEvent::Got { code, message, why, stopped }),
            outs.1,
        ),
        call_ensures(
            message_loop,
            (LoopStage::Dispatching, LoopEvent::Dispatched { stopped }),
            outs.2,
        ),
        call_ensures(message_loop, (LoopStage::Draining, LoopEvent::NoMoreClicks), outs.3),
    ensures
        ({
            let (checked, got, dispatched, drained) = outs;
            let leave = (LoopStage::Left, LoopAction::Leave(Exit::BridgeStopped));
            &&& stopped ==> checked == leave && dispatched == leave
            &&& !stopped ==> checked == (LoopStage::Waiting, LoopAction::WaitForMessage)
            &&& !stopped ==> dispatched == (LoopStage::Draining, LoopAction::TakeClick)
            &&& code == -1 ==> {
                &&& got.0 is Left
                &&& got.1 matches LoopAction::Leave(Exit::MessageLoopFailed(text))
                &&& text@ == "цикл сообщений отказал: "@ + why@
            }
            &&& code == 0 ==> got == (LoopStage::Left, LoopAction::Leave(Exit::SessionEnd))
            &&& code != -1 && code != 0 && stopped ==> got == leave
            &&& code != -1 && code != 0 && !stopped ==> got == (
                LoopStage::Dispatching,
                LoopAction::Dispatch { refresh: message == 0x8002 },
            )
            &&& drained == (LoopStage::Checking, LoopAction::CheckBridge)
        }),
{
}

/// The page is opened at the section that was asked for: at the address of the server
/// that runs, or of the one that is started first. What failed is told.
pub proof fn the_page_opens_at_its_section(
    running: Option<&str>,
    section: Section,
    started: Result<String, String>,
    browsed: Result<(), String>,
    outs: ((Opening, OpeningAction), (Opening, OpeningAction), (Opening, OpeningAction)),
)
    requires
        call_ensures(open_settings, (running, section), outs.0),
        call_ensures(
            continue_opening,
            (Opening::Starting(section), OpeningEvent::Started(started)),
            outs.1,
        ),
        call_ensures(continue_opening, (Opening::Browsing, OpeningEvent::Browsed(browsed)), outs.2),
    ensures
        ({
            let (asked, begun, shown) = outs;
            let mark = match section {
                Section::Top => Seq::<char>::empty(),
                Section::Bench => "#"@ + "bench"@,
                Section::Doctor => "#"@ + "doctor"@,
                Section::Tunnel => "#"@ + "tunnel"@,
            };
            &&& running is None ==> asked == (Opening::Starting(section), OpeningAction::StartServer)
            &&& running matches Some(url) ==> asked.0 is Browsing && asked.1 is Browse
                && asked.1->Browse_0@ == url@ + mark
            &&& started matches Ok(url) ==> begun.0 is Browsing && begun.1 is Browse
                && begun.1->Browse_0@ == url@ + mark
            &&& started matches Err(why) ==> begun.0 is Finished && begun.1 is Complain
                && begun.1->Complain_0@ == "Не удалось открыть настройки.\n\n"@ + why@
            &&& browsed is Ok ==> shown == (Opening::Finished, OpeningAction::Done)
            &&& browsed matches Err(why) ==> shown.0 is Finished && shown.1 is Complain
                && shown.1->Complain_0@
                == "Не удалось открыть браузер со страницей настроек.\n\n"@ + why@
        }),
{
    reveal_strlit("#");
    reveal_strlit("bench");
    reveal_strlit("#bench");
    reveal_strlit("doctor");
    reveal_strlit("#doctor");
    reveal_strlit("tunnel");
    reveal_strlit("#tunnel");
    assert("#bench"@ =~= "#"@ + "bench"@);
    assert("#doctor"@ =~= "#"@ + "doctor"@);
    assert("#tunnel"@ =~= "#"@ + "tunnel"@);
}

/// The numbers of messages and the times.
pub proof fn the_numbers_of_the_program()
    ensures
        WM_APP == 0x8000,
        WM_STATE_CHANGED == WM_APP + 2,
        WM_BRIDGE_STOPPED == WM_APP + 3,
        NETWORK_DEBOUNCE_MS == 1500,
        PROBE_TTL_SECS == 30,
        REEVALUATE_PERIOD_SECS == 2 * PROBE_TTL_SECS,
        UPDATE_CHECK_INTERVAL_SECS == 24 * 60 * 60,
        UPDATE_CHECK_INITIAL_DELAY_SECS == 5 * 60,
{
}

/// An event that does not belong to the state of the start changes nothing.
pub proof fn an_event_out_of_turn_does_not_start_anything(
    state: Startup,
    event: StartupEvent,
    out: (Startup, StartupAction),
)
    requires
        call_ensures(run, (state, event), out),
        state is Locating ==> !(event is Located),
        state is Updating ==> !(event is Updated),
        state is Relaunching ==> !(event is Relaunched),
        state is Loading ==> !(event is Loaded),
        state is JoiningApartment ==> !(event is Joined),
        state is StartingRuntime ==> !(event is RuntimeStarted),
        state is Evaluating ==> !(event is Evaluated),
        state is Binding ==> !(event is Bound),
        state is BuildingTray ==> !(event is TrayBuilt),
        state is Guarding ==> !(event is Guarded),
        state is TakingOver ==> !(event is TakenOver),
        state is Inspecting ==> !(event is Inspected),
        state is Diagnosing ==> !(event is Diagnosed),
        state is Serving ==> !(event is Left),
    ensures
        out == (state, StartupAction::Ignore),
{
}

/// Nor does one that does not belong to the state of a command, of the loop or of the
/// opening.
pub proof fn an_event_out_of_turn_changes_nothing(
    turns: (Turn, TurnEvent, (Turn, TurnAction)),
    loops: (LoopStage, LoopEvent, (LoopStage, LoopAction)),
    openings: (Opening, OpeningEvent, (Opening, OpeningAction)),
)
    requires
        call_ensures(turn, (turns.0, turns.1), turns.2),
        turns.0 is Saving ==> !(turns.1 is Saved),
        turns.0 is Evaluating ==> !(turns.1 is Evaluated),
        call_ensures(message_loop, (loops.0, loops.1), loops.2),
        loops.0 is Checking ==> !(loops.1 is Checked),
        loops.0 is Waiting ==> !(loops.1 is Got),
        loops.0 is Dispatching ==> !(loops.1 is Dispatched),
        loops.0 is Draining ==> !(loops.1 is Clicked) && !(loops.1 is NoMoreClicks),
        call_ensures(continue_opening, (openings.0, openings.1), openings.2),
        openings.0 is Starting ==> !(openings.1 is Started),
        openings.0 is Browsing ==> !(openings.1 is Browsed),
    ensures
        turns.2 == (turns.0, TurnAction::Ignore),
        loops.2 == (loops.0, LoopAction::Ignore),
        openings.2 == (openings.0, OpeningAction::Ignore),
{
}

/// The address of a section begins with that of the page, and goes on with its mark.
pub proof fn a_section_has_its_own_address(url: &str, section: Section, out: String)
    requires
        call_ensures(section_address, (url, section), out),
    ensures
        section is Top ==> out@ == url@,
        section is Bench ==> out@ == url@ + "#bench"@,
        section is Doctor ==> out@ == url@ + "#doctor"@,
        section is Tunnel ==> out@ == url@ + "#tunnel"@,
{
    assert(url@ + Seq::<char>::empty() =~= url@);
}

} // verus!
