//! Taking over the proxy settings of the system and giving them back.

use proxypilot::model::SysProxy;
use proxypilot::proxy::{
    is_stale_pointer, restore, server_points_at_port, take_over, Original, ProxyError,
    RestoreAction, TakeOver, TakeOverAction, TakeOverEvent, Taken,
};

#[test]
fn stale_registry_pointing_at_us_without_a_bridge_is_detected() {
    assert!(is_stale_pointer(
        &SysProxy {
            enabled: true,
            server: "127.0.0.1:3129".into(),
            bypass: String::new(),
        },
        3129
    ));
    assert!(!is_stale_pointer(
        &SysProxy {
            enabled: true,
            server: "10.0.0.2:3128".into(),
            bypass: String::new(),
        },
        3129
    ));
}

#[test]
fn a_disabled_pointer_at_our_address_is_not_stale() {
    assert!(!is_stale_pointer(
        &SysProxy {
            enabled: false,
            server: "127.0.0.1:3129".into(),
            bypass: String::new(),
        },
        3129
    ));
}

#[test]
fn our_address_on_another_port_is_not_ours() {
    assert!(!is_stale_pointer(
        &SysProxy {
            enabled: true,
            server: "127.0.0.1:8080".into(),
            bypass: String::new(),
        },
        3129
    ));
}

#[test]
fn the_per_protocol_form_is_recognised_too() {
    assert!(is_stale_pointer(
        &SysProxy {
            enabled: true,
            server: "http=127.0.0.1:3129;https=127.0.0.1:3129".into(),
            bypass: String::new(),
        },
        3129
    ));
}

#[test]
fn localhost_by_name_is_ours_as_well() {
    assert!(is_stale_pointer(
        &SysProxy {
            enabled: true,
            server: "localhost:3129".into(),
            bypass: String::new(),
        },
        3129
    ));
}

#[test]
fn a_pointer_at_us_is_recognised_even_with_the_switch_off() {
    assert!(server_points_at_port("127.0.0.1:3129", 3129));
    assert!(server_points_at_port(
        "http=localhost:3129;https=[::1]:3129",
        3129
    ));
    assert!(!server_points_at_port("203.0.113.10:3128", 3129));
    assert!(!server_points_at_port("", 3129));
}

#[test]
fn the_real_corporate_setting_of_this_machine_is_left_alone() {
    assert!(!is_stale_pointer(
        &SysProxy {
            enabled: false,
            server: "203.0.113.10:3128".into(),
            bypass: "192.168.*;lo.example.internal;<local>".into(),
        },
        3129
    ));
}

fn settings(enabled: bool, server: &str) -> SysProxy {
    SysProxy {
        enabled,
        server: server.into(),
        bypass: "<local>".into(),
    }
}

#[test]
fn the_user_is_on_the_disk_before_the_system_is_written_to() {
    let users = settings(true, "10.0.0.2:3128");
    let (state, action) = take_over(
        TakeOver::Reading,
        TakeOverEvent::Read(Ok(settings(true, "10.0.0.2:3128"))),
        &None,
        3129,
        "*.local".into(),
    );
    assert_eq!(action, TakeOverAction::Save(settings(true, "10.0.0.2:3128")));
    let (state, action) = take_over(
        state,
        TakeOverEvent::Saved(Ok(())),
        &None,
        3129,
        "*.local".into(),
    );
    assert_eq!(
        action,
        TakeOverAction::Apply {
            remember: Taken {
                original: settings(true, "10.0.0.2:3128"),
                our_port: 3129,
            },
            ours: SysProxy {
                enabled: true,
                server: "127.0.0.1:3129".into(),
                bypass: "*.local".into(),
            },
        }
    );
    let (state, action) = take_over(
        state,
        TakeOverEvent::Applied(Ok(())),
        &None,
        3129,
        "*.local".into(),
    );
    assert_eq!(action, TakeOverAction::Return(Ok(users)));
    assert_eq!(state, TakeOver::Finished);
}

#[test]
fn a_killed_run_does_not_cost_the_user_the_settings() {
    let saved = Some(settings(true, "corp:3128"));
    let read = |saved: &Option<SysProxy>| {
        take_over(
            TakeOver::Reading,
            TakeOverEvent::Read(Ok(settings(true, "127.0.0.1:3129"))),
            saved,
            3129,
            String::new(),
        )
        .1
    };
    assert_eq!(read(&saved), TakeOverAction::Save(settings(true, "corp:3128")));
    assert_eq!(read(&None), TakeOverAction::Save(SysProxy::default()));
}

#[test]
fn each_step_of_a_takeover_can_fail() {
    let fails = |state: TakeOver, event: TakeOverEvent| match take_over(
        state,
        event,
        &None,
        3129,
        String::new(),
    ) {
        (TakeOver::Finished, TakeOverAction::Return(Err(e))) => e,
        other => panic!("{other:?}"),
    };
    let e = fails(TakeOver::Reading, TakeOverEvent::Read(Err("a".into())));
    assert_eq!(e, ProxyError::Read("a".into()));
    assert_eq!(e.text(), "не прочитать системные настройки прокси: a");
    let e = fails(
        TakeOver::Saving {
            before: SysProxy::default(),
            original: SysProxy::default(),
        },
        TakeOverEvent::Saved(Err("b".into())),
    );
    assert_eq!(e, ProxyError::Save("b".into()));
    assert_eq!(e.text(), "не сохранить исходные настройки в конфиг: b");
    let e = fails(
        TakeOver::Applying {
            before: SysProxy::default(),
        },
        TakeOverEvent::Applied(Err("c".into())),
    );
    assert_eq!(e, ProxyError::Apply("c".into()));
    assert_eq!(e.text(), "не записать системные настройки прокси: c");
}

#[test]
fn the_settings_are_given_back_once() {
    let mut original = Original(None);
    assert_eq!(original.take(), None);
    original.remember(Taken {
        original: settings(false, "corp:3128"),
        our_port: 3129,
    });
    let taken = original.take();
    assert!(taken.is_some());
    assert_eq!(original.take(), None);
    assert_eq!(
        restore(taken, &Ok(settings(true, "127.0.0.1:3129"))),
        RestoreAction::Apply(settings(false, "corp:3128"))
    );
    assert_eq!(
        restore(None, &Ok(settings(true, "127.0.0.1:3129"))),
        RestoreAction::Nothing
    );
}

#[test]
fn a_change_by_somebody_else_stays() {
    let taken = || {
        Some(Taken {
            original: settings(false, "corp:3128"),
            our_port: 3129,
        })
    };
    assert_eq!(
        restore(taken(), &Ok(settings(true, "10.0.0.9:8080"))),
        RestoreAction::Leave
    );
    assert_eq!(
        restore(taken(), &Err("не читается".into())),
        RestoreAction::Apply(settings(false, "corp:3128"))
    );
}

#[test]
fn white_space_case_and_brackets_do_not_hide_our_address() {
    assert!(server_points_at_port(" LOCALHOST:3129 ", 3129));
    assert!(server_points_at_port("ftp=10.0.0.2:21; http=127.0.0.1:3129", 3129));
    assert!(!server_points_at_port("127.0.0.1", 3129));
    assert!(!server_points_at_port("127.0.0.1:031290", 3129));
}
