//! The life of the program: arguments, start, commands, messages, way out.

use proxypilot::lifecycle::{
    continue_opening, exit_result, message_loop, open_settings, read_arguments, report_failure,
    run, run_install_service, run_uninstall_service, startup_checks, take_command, turn,
    warn_if_stale_pointer_left_behind, Boot, Cmd, Exit, Invocation, LeftBehind, Located,
    LoopAction, LoopEvent, LoopStage, Opening, OpeningAction, OpeningEvent, Section, Startup,
    StartupAction, StartupEvent, Turn, TurnAction, TurnEvent, NETWORK_DEBOUNCE_MS, PROBE_TTL_SECS,
    REEVALUATE_PERIOD_SECS, UPDATE_CHECK_INITIAL_DELAY_SECS, UPDATE_CHECK_INTERVAL_SECS, WM_APP,
    WM_BRIDGE_STOPPED, WM_STATE_CHANGED,
};
use proxypilot::doctor::CheckStatus;
use proxypilot::model::{
    AppState, Config, Health, Mode, OfficeNetwork, Place, Reachability, Route, SysProxy,
};
use proxypilot::proxy::ProxyError;
use proxypilot::settings_page::actions::{apply_change, Change};
use proxypilot::tray::Action;

fn base_config() -> Config {
    Config {
        bridge_port: 3129,
        mode: Mode::Auto,
        socks_upstream: None,
        http_upstream: None,
        no_proxy: String::new(),
        manage_system_proxy: true,
        office_networks: vec![],
        office_subnets: vec![],
        automate_tunnel: false,
        check_for_updates: true,
        saved_sysproxy: None,
        max_connections: 512,
        dial_timeout_ms: 5000,
        head_timeout_ms: 10000,
    }
}

const BOUND: u16 = 3129;
const REQUESTED: u16 = 3999;

#[test]
fn a_port_change_does_not_reach_the_config_the_supervisor_gets() {
    let mut saved = Config {
        bridge_port: BOUND,
        ..base_config()
    };
    let live = apply_change(
        &mut saved,
        Change::Whole(Box::new(Config {
            bridge_port: REQUESTED,
            ..base_config()
        })),
        BOUND,
    );
    assert_eq!(
        saved.bridge_port, REQUESTED,
        "на диск обязано лечь введённое значение"
    );
    assert_eq!(
        live.bridge_port, BOUND,
        "супервизор обязан остаться на привязанном порту"
    );
}

#[test]
fn everything_except_the_port_does_reach_the_supervisor() {
    let mut saved = Config {
        bridge_port: BOUND,
        ..base_config()
    };
    let live = apply_change(
        &mut saved,
        Change::Whole(Box::new(Config {
            bridge_port: REQUESTED,
            socks_upstream: Some("203.0.113.10:9999".into()),
            office_networks: vec![OfficeNetwork {
                id: "{A}".into(),
                name: "Офис".into(),
            }],
            ..base_config()
        })),
        BOUND,
    );
    assert_eq!(live.socks_upstream.as_deref(), Some("203.0.113.10:9999"));
    assert_eq!(live.office_networks.len(), 1);
    assert_eq!(live.bridge_port, BOUND);
}

#[test]
fn switching_the_mode_does_not_smuggle_a_pending_port_change_through() {
    let mut saved = Config {
        bridge_port: REQUESTED,
        mode: Mode::Auto,
        ..base_config()
    };
    let live = apply_change(&mut saved, Change::Mode(Mode::Socks), BOUND);
    assert_eq!(live.mode, Mode::Socks, "смена режима обязана доехать");
    assert_eq!(live.bridge_port, BOUND, "а порт — нет");
    assert_eq!(
        saved.bridge_port, REQUESTED,
        "и на диске он остаётся тем, что ввёл человек"
    );
}

#[test]
fn the_periodic_reevaluation_is_slower_than_the_probe_cache() {
    assert!(
        REEVALUATE_PERIOD_SECS > PROBE_TTL_SECS,
        "период пересчёта ({REEVALUATE_PERIOD_SECS}) обязан быть больше TTL проб ({PROBE_TTL_SECS})"
    );
}

#[test]
fn the_window_messages_do_not_collide() {
    assert_ne!(WM_STATE_CHANGED, WM_BRIDGE_STOPPED);
}

#[test]
fn the_numbers_are_those_of_the_system() {
    assert_eq!(WM_APP, 0x8000);
    assert_eq!(WM_STATE_CHANGED, WM_APP + 2);
    assert_eq!(WM_BRIDGE_STOPPED, WM_APP + 3);
    assert_eq!(NETWORK_DEBOUNCE_MS, 1500);
    assert_eq!(UPDATE_CHECK_INTERVAL_SECS, 24 * 60 * 60);
    assert_eq!(UPDATE_CHECK_INITIAL_DELAY_SECS, 5 * 60);
}

#[test]
fn only_the_first_argument_counts() {
    let args = |a: &[&str]| a.iter().map(|s| s.to_string()).collect::<Vec<String>>();
    assert_eq!(read_arguments(&args(&[])), Invocation::Tray);
    assert_eq!(read_arguments(&args(&["install-service"])), Invocation::InstallService);
    assert_eq!(read_arguments(&args(&["uninstall-service", "x"])), Invocation::UninstallService);
    assert_eq!(read_arguments(&args(&["x", "install-service"])), Invocation::Tray);
}

#[test]
fn the_service_commands_report_to_the_console() {
    let fine = run_install_service("Svc", Ok(()));
    assert_eq!(fine.code, 0);
    assert_eq!(
        fine.text,
        "Служба Svc зарегистрирована (автозапуск). Она ещё не запущена — первый пуск сделает \
         Windows при следующей перезагрузке, или запустите её вручную: services.msc / \
         Start-Service Svc."
    );
    let bad = run_install_service("Svc", Err("отказ".into()));
    assert_eq!(bad.code, 1);
    assert_eq!(bad.text, "Не удалось установить службу Svc: отказ");
    let gone = run_uninstall_service("Svc", Ok(()));
    assert_eq!((gone.code, gone.text.as_str()), (0, "Служба Svc снята с регистрации."));
    let kept = run_uninstall_service("Svc", Err("отказ".into()));
    assert_eq!(
        (kept.code, kept.text.as_str()),
        (1, "Не удалось удалить службу Svc: отказ")
    );
}

#[test]
fn a_failed_start_is_told_to_the_console_or_to_a_window() {
    assert_eq!(report_failure("порт занят", true), "proxypilot: порт занят");
    assert_eq!(report_failure("порт занят", false), "Не удалось запустить.\n\nпорт занят");
}

#[test]
fn leaving_on_request_is_a_success_and_losing_the_bridge_is_not() {
    assert_eq!(exit_result(Exit::User), Ok(()));
    assert_eq!(exit_result(Exit::SessionEnd), Ok(()));
    assert_eq!(
        exit_result(Exit::BridgeStopped),
        Err("мост перестал принимать соединения; выходим, чтобы не оставлять системный прокси \
             направленным в пустоту"
            .to_string())
    );
    assert_eq!(exit_result(Exit::MessageLoopFailed("x".into())), Err("x".to_string()));
}

fn boot(manages: bool) -> Boot {
    Boot { port: 3129, manages }
}

fn user_settings() -> SysProxy {
    SysProxy {
        enabled: true,
        server: "10.0.0.2:3128".into(),
        bypass: String::new(),
    }
}

#[test]
fn a_start_runs_from_the_directory_to_the_loop() {
    let steps = vec![
        (StartupEvent::Located(Located::Ready), StartupAction::ApplyUpdate),
        (StartupEvent::Updated(Some(Ok(false))), StartupAction::LoadConfig),
        (StartupEvent::Loaded(Ok(boot(true))), StartupAction::JoinApartment),
        (StartupEvent::Joined(Ok(())), StartupAction::StartRuntime),
        (StartupEvent::RuntimeStarted(Ok(())), StartupAction::Evaluate),
        (StartupEvent::Evaluated, StartupAction::Bind("127.0.0.1:3129".into())),
        (StartupEvent::Bound(Ok(())), StartupAction::BuildTray),
        (StartupEvent::TrayBuilt(Ok(())), StartupAction::Guard { every_exit: true }),
        (StartupEvent::Guarded, StartupAction::TakeOver),
        (
            StartupEvent::TakenOver(Ok(user_settings())),
            StartupAction::Diagnose(Ok(user_settings())),
        ),
        (StartupEvent::Diagnosed, StartupAction::Serve),
        (StartupEvent::Left(Exit::User), StartupAction::Finish(Ok(()))),
    ];
    let mut state = Startup::Locating;
    for (event, expected) in steps {
        let (next, action) = run(state, event);
        assert_eq!(action, expected);
        state = next;
    }
    assert_eq!(state, Startup::Finished);
}

#[test]
fn without_the_right_to_manage_the_system_is_only_read() {
    let (state, action) = run(Startup::BuildingTray(boot(false)), StartupEvent::TrayBuilt(Ok(())));
    assert_eq!(action, StartupAction::Guard { every_exit: false });
    let (state, action) = run(state, StartupEvent::Guarded);
    assert_eq!(action, StartupAction::Inspect);
    let (state, action) = run(state, StartupEvent::Inspected(Err("нет".into())));
    assert_eq!(action, StartupAction::Diagnose(Err("нет".into())));
    assert_eq!(state, Startup::Diagnosing(boot(false)));
}

#[test]
fn an_installed_update_starts_the_new_program() {
    let (state, action) = run(Startup::Updating, StartupEvent::Updated(Some(Ok(true))));
    assert_eq!((&state, &action), (&Startup::Relaunching, &StartupAction::Relaunch));
    let (_, done) = run(state, StartupEvent::Relaunched(Ok(())));
    assert_eq!(done, StartupAction::Finish(Ok(())));
    let (_, on) = run(Startup::Relaunching, StartupEvent::Relaunched(Err("x".into())));
    assert_eq!(on, StartupAction::LoadConfig);
    let (_, failed) = run(Startup::Updating, StartupEvent::Updated(Some(Err("x".into()))));
    assert_eq!(failed, StartupAction::LoadConfig);
    let (_, unknown) = run(Startup::Updating, StartupEvent::Updated(None));
    assert_eq!(unknown, StartupAction::LoadConfig);
}

#[test]
fn every_failure_of_the_start_has_its_text() {
    let text = |state: Startup, event: StartupEvent| match run(state, event) {
        (Startup::Finished, StartupAction::Finish(Err(e))) => e,
        other => panic!("{other:?}"),
    };
    assert_eq!(
        text(Startup::Locating, StartupEvent::Located(Located::NoPath)),
        "не нашёл каталог настроек пользователя"
    );
    assert_eq!(
        text(Startup::Locating, StartupEvent::Located(Located::NoDirectory)),
        "у пути конфига нет каталога"
    );
    assert_eq!(
        text(
            Startup::Locating,
            StartupEvent::Located(Located::NotCreated {
                directory: "D".into(),
                why: "нет прав".into()
            })
        ),
        "не создать D: нет прав"
    );
    assert_eq!(text(Startup::Loading, StartupEvent::Loaded(Err("плохой файл".into()))), "плохой файл");
    assert_eq!(
        text(Startup::JoiningApartment(boot(true)), StartupEvent::Joined(Err("e".into()))),
        "COM на главном потоке: e"
    );
    assert_eq!(
        text(Startup::StartingRuntime(boot(true)), StartupEvent::RuntimeStarted(Err("e".into()))),
        "tokio: e"
    );
    assert_eq!(
        text(Startup::Binding(boot(true)), StartupEvent::Bound(Err("занят".into()))),
        "не занять 127.0.0.1:3129: занят; возможно, proxypilot уже запущен"
    );
    assert_eq!(
        text(Startup::BuildingTray(boot(true)), StartupEvent::TrayBuilt(Err("e".into()))),
        "трей: e"
    );
    assert_eq!(
        text(
            Startup::TakingOver(boot(true)),
            StartupEvent::TakenOver(Err(ProxyError::Save("диск".into())))
        ),
        "не сохранить исходные настройки в конфиг: диск"
    );
}

#[test]
fn an_event_out_of_turn_changes_nothing() {
    let (state, action) = run(Startup::Loading, StartupEvent::Guarded);
    assert_eq!((state, action), (Startup::Loading, StartupAction::Ignore));
}

#[test]
fn our_address_left_behind_is_noticed() {
    let ours = SysProxy {
        enabled: true,
        server: "127.0.0.1:3129".into(),
        bypass: String::new(),
    };
    assert_eq!(
        warn_if_stale_pointer_left_behind(&Ok(ours), 3129),
        LeftBehind::OurAddress
    );
    assert_eq!(
        warn_if_stale_pointer_left_behind(&Ok(user_settings()), 3129),
        LeftBehind::Nothing
    );
    assert_eq!(
        warn_if_stale_pointer_left_behind(&Err("x".into()), 3129),
        LeftBehind::Unreadable
    );
}

#[test]
fn the_checks_of_the_start_know_that_the_port_is_bound() {
    let state = AppState {
        mode: Mode::Auto,
        route: Route::Direct,
        demoted: false,
        place: Place {
            in_office: false,
            network: None,
            network_name: None,
        },
        health: Health {
            socks: Reachability::Unknown,
            http: Reachability::Unknown,
        },
        port: 3129,
    };
    let ours = SysProxy {
        enabled: true,
        server: "127.0.0.1:3129".into(),
        bypass: String::new(),
    };
    let checks = startup_checks(&base_config(), &state, &Ok(ours));
    assert_eq!(checks.len(), 7);
    assert_eq!(checks[0].status, CheckStatus::Good);
    assert_eq!(checks[2].status, CheckStatus::Fail);
}

#[test]
fn a_mode_is_saved_used_and_published_without_an_answer() {
    let mut saved = Config {
        bridge_port: REQUESTED,
        ..base_config()
    };
    let (state, action) = take_command(&mut saved, Cmd::SetMode(Mode::Http), BOUND);
    assert_eq!(action, TurnAction::Save);
    assert_eq!(saved.mode, Mode::Http);
    let (state, action) = turn(state, TurnEvent::Saved(Ok(())));
    match action {
        TurnAction::Rebuild(live) => {
            assert_eq!(live.bridge_port, BOUND);
            assert_eq!(live.mode, Mode::Http);
        }
        other => panic!("{other:?}"),
    }
    let (state, action) = turn(state, TurnEvent::Evaluated);
    assert_eq!(action, TurnAction::Publish(None));
    assert_eq!(state, Turn::Finished);
}

#[test]
fn a_configuration_that_could_not_be_written_is_used_and_the_page_is_told() {
    let mut saved = base_config();
    let next = Config {
        socks_upstream: Some("203.0.113.10:9999".into()),
        ..base_config()
    };
    let (state, action) = take_command(&mut saved, Cmd::ApplyConfig(Box::new(next)), BOUND);
    assert_eq!(action, TurnAction::Save);
    let (state, action) = turn(state, TurnEvent::Saved(Err("диск полон".into())));
    match action {
        TurnAction::Rebuild(live) => {
            assert_eq!(live.socks_upstream.as_deref(), Some("203.0.113.10:9999"));
        }
        other => panic!("{other:?}"),
    }
    let (_, action) = turn(state, TurnEvent::Evaluated);
    assert_eq!(action, TurnAction::Publish(Some(Err("диск полон".into()))));
}

#[test]
fn a_new_evaluation_changes_no_configuration() {
    let mut saved = base_config();
    let (state, action) = take_command(&mut saved, Cmd::Reevaluate, BOUND);
    assert_eq!(action, TurnAction::Evaluate);
    assert_eq!(saved, base_config());
    let (_, action) = turn(state, TurnEvent::Saved(Ok(())));
    assert_eq!(action, TurnAction::Ignore);
}

fn got(code: i32, message: u32, stopped: bool) -> LoopEvent {
    LoopEvent::Got {
        code,
        message,
        why: "код 5".into(),
        stopped,
    }
}

#[test]
fn a_stopped_bridge_is_noticed_at_every_turn_of_the_loop() {
    let left = (LoopStage::Left, LoopAction::Leave(Exit::BridgeStopped));
    assert_eq!(
        message_loop(LoopStage::Checking, LoopEvent::Checked { stopped: true }),
        left
    );
    assert_eq!(message_loop(LoopStage::Waiting, got(1, WM_STATE_CHANGED, true)), left);
    assert_eq!(
        message_loop(LoopStage::Dispatching, LoopEvent::Dispatched { stopped: true }),
        left
    );
}

#[test]
fn the_loop_waits_dispatches_and_takes_clicks() {
    assert_eq!(
        message_loop(LoopStage::Checking, LoopEvent::Checked { stopped: false }),
        (LoopStage::Waiting, LoopAction::WaitForMessage)
    );
    assert_eq!(
        message_loop(LoopStage::Waiting, got(1, WM_STATE_CHANGED, false)),
        (LoopStage::Dispatching, LoopAction::Dispatch { refresh: true })
    );
    assert_eq!(
        message_loop(LoopStage::Waiting, got(1, WM_BRIDGE_STOPPED, false)),
        (LoopStage::Dispatching, LoopAction::Dispatch { refresh: false })
    );
    assert_eq!(
        message_loop(LoopStage::Dispatching, LoopEvent::Dispatched { stopped: false }),
        (LoopStage::Draining, LoopAction::TakeClick)
    );
    assert_eq!(
        message_loop(LoopStage::Draining, LoopEvent::NoMoreClicks),
        (LoopStage::Checking, LoopAction::CheckBridge)
    );
}

#[test]
fn the_system_ends_the_loop_by_a_quit_or_by_a_failure() {
    assert_eq!(
        message_loop(LoopStage::Waiting, got(0, 0, true)),
        (LoopStage::Left, LoopAction::Leave(Exit::SessionEnd))
    );
    assert_eq!(
        message_loop(LoopStage::Waiting, got(-1, 0, true)),
        (
            LoopStage::Left,
            LoopAction::Leave(Exit::MessageLoopFailed("цикл сообщений отказал: код 5".into()))
        )
    );
}

#[test]
fn every_click_does_its_own_thing() {
    let click = |a: Option<Action>| message_loop(LoopStage::Draining, LoopEvent::Clicked(a));
    assert_eq!(
        click(Some(Action::Quit)),
        (LoopStage::Left, LoopAction::Leave(Exit::User))
    );
    let stays = |action: LoopAction| (LoopStage::Draining, action);
    assert_eq!(click(None), stays(LoopAction::TakeClick));
    assert_eq!(click(Some(Action::CopyAddress)), stays(LoopAction::CopyAddress));
    assert_eq!(
        click(Some(Action::OpenSettings)),
        stays(LoopAction::OpenSettings(Section::Top))
    );
    assert_eq!(
        click(Some(Action::OpenBench)),
        stays(LoopAction::OpenSettings(Section::Bench))
    );
    assert_eq!(
        click(Some(Action::OpenDoctor)),
        stays(LoopAction::OpenSettings(Section::Doctor))
    );
    assert_eq!(
        click(Some(Action::OpenTunnel)),
        stays(LoopAction::OpenSettings(Section::Tunnel))
    );
    assert_eq!(
        click(Some(Action::SetMode(Mode::Direct))),
        stays(LoopAction::SetMode(Mode::Direct))
    );
}

#[test]
fn a_running_server_is_shown_at_once() {
    assert_eq!(
        open_settings(Some("http://127.0.0.1:5/t/"), Section::Doctor),
        (
            Opening::Browsing,
            OpeningAction::Browse("http://127.0.0.1:5/t/#doctor".into())
        )
    );
    assert_eq!(
        open_settings(None, Section::Top),
        (Opening::Starting(Section::Top), OpeningAction::StartServer)
    );
}

#[test]
fn opening_the_page_tells_of_each_failure() {
    assert_eq!(
        continue_opening(
            Opening::Starting(Section::Bench),
            OpeningEvent::Started(Ok("http://127.0.0.1:5/t/".into()))
        ),
        (
            Opening::Browsing,
            OpeningAction::Browse("http://127.0.0.1:5/t/#bench".into())
        )
    );
    assert_eq!(
        continue_opening(
            Opening::Starting(Section::Tunnel),
            OpeningEvent::Started(Err("порт".into()))
        ),
        (
            Opening::Finished,
            OpeningAction::Complain("Не удалось открыть настройки.\n\nпорт".into())
        )
    );
    assert_eq!(
        continue_opening(Opening::Browsing, OpeningEvent::Browsed(Ok(()))),
        (Opening::Finished, OpeningAction::Done)
    );
    assert_eq!(
        continue_opening(Opening::Browsing, OpeningEvent::Browsed(Err("нет".into()))),
        (
            Opening::Finished,
            OpeningAction::Complain(
                "Не удалось открыть браузер со страницей настроек.\n\nнет".into()
            )
        )
    );
}
