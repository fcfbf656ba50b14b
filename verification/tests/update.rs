//! Looking for an update and installing it.

use proxypilot::update::check::{run, start, waited, CheckOutcome, Search, SearchAction};
use proxypilot::update::check::{SearchEvent, Waited};
use proxypilot::update::install::{apply_pending_update, backup_path, begin};
use proxypilot::update::install::real_verifier;
use proxypilot::update::install::{Install, InstallAction, InstallEvent};
use proxypilot::update::source::ReleaseInfo;
use proxypilot::update::verify::{verify_authenticode, VerifyError};

fn release(tag: &str) -> ReleaseInfo {
    ReleaseInfo {
        tag: tag.into(),
        asset_url: "https://example.internal/app.exe".into(),
    }
}

fn search(state: Search, event: SearchEvent) -> (Search, SearchAction) {
    run(state, event, "0.1.0", "D")
}

fn finished(outcome: CheckOutcome, remove_download: bool) -> (Search, SearchAction) {
    (
        Search::Finished,
        SearchAction::Finish {
            outcome,
            remove_download,
        },
    )
}

#[test]
fn disabled_check_never_touches_the_source() {
    assert_eq!(start(false), finished(CheckOutcome::Disabled, false));
    assert_eq!(start(true), (Search::Asking, SearchAction::AskRelease));
}

#[test]
fn a_network_failure_is_reported_as_failed_not_up_to_date() {
    assert_eq!(
        search(Search::Asking, SearchEvent::Release(Err("сеть недоступна".into()))),
        finished(CheckOutcome::Failed("сеть недоступна".into()), false)
    );
}

#[test]
fn an_up_to_date_current_version_is_reported_as_such() {
    assert_eq!(
        search(Search::Asking, SearchEvent::Release(Ok(release("v0.1.0")))),
        finished(CheckOutcome::UpToDate, false)
    );
    assert_eq!(
        search(Search::Asking, SearchEvent::Release(Ok(release("v0.0.9")))),
        finished(CheckOutcome::CurrentIsNewer, false)
    );
    assert_eq!(
        search(Search::Asking, SearchEvent::Release(Ok(release("latest")))),
        finished(CheckOutcome::Unrecognized, false)
    );
}

#[test]
fn a_prerelease_is_reported_and_never_downloaded() {
    assert_eq!(
        search(Search::Asking, SearchEvent::Release(Ok(release("v0.2.0-rc.1")))),
        finished(CheckOutcome::PublishedIsPrerelease("v0.2.0-rc.1".into()), false)
    );
}

#[test]
fn a_valid_signature_stages_the_update_for_the_next_launch() {
    let (state, action) = search(Search::Asking, SearchEvent::Release(Ok(release("v0.2.0"))));
    assert_eq!(action, SearchAction::CreateDirectory);
    let (state, action) = search(state, SearchEvent::Created(Ok(())));
    assert_eq!(
        action,
        SearchAction::Download("https://example.internal/app.exe".into())
    );
    let (state, action) = search(state, SearchEvent::Downloaded(Ok(())));
    assert_eq!(action, SearchAction::Verify);
    let (state, action) = search(state, SearchEvent::Verified(Ok(())));
    assert_eq!(action, SearchAction::Store);
    assert_eq!(
        search(state, SearchEvent::Stored(Ok(()))),
        finished(
            CheckOutcome::StagedForNextLaunch {
                tag: "v0.2.0".into()
            },
            false
        )
    );
}

#[test]
fn an_invalid_signature_refuses_the_update_and_leaves_nothing_staged() {
    assert_eq!(
        search(
            Search::Verifying(release("v0.2.0")),
            SearchEvent::Verified(Err("подпись неверна".into()))
        ),
        finished(
            CheckOutcome::RefusedUnsigned {
                tag: "v0.2.0".into(),
                reason: "подпись неверна".into()
            },
            true
        )
    );
}

#[test]
fn a_download_failure_stages_nothing() {
    assert_eq!(
        search(
            Search::Downloading(release("v0.2.0")),
            SearchEvent::Downloaded(Err("обрыв".into()))
        ),
        finished(
            CheckOutcome::Failed("скачивание обновления не удалось: обрыв".into()),
            true
        )
    );
}

#[test]
fn a_directory_or_a_name_that_cannot_be_had_ends_the_search() {
    assert_eq!(
        search(
            Search::Creating(release("v0.2.0")),
            SearchEvent::Created(Err("нет прав".into()))
        ),
        finished(CheckOutcome::Failed("не создать D: нет прав".into()), false)
    );
    assert_eq!(
        search(
            Search::Storing(release("v0.2.0")),
            SearchEvent::Stored(Err("занят".into()))
        ),
        finished(
            CheckOutcome::Failed(
                "скачанный файл прошёл проверку подписи, но не отложился: занят".into()
            ),
            true
        )
    );
}

#[test]
fn an_event_of_another_state_is_ignored() {
    assert_eq!(
        search(Search::Asking, SearchEvent::Stored(Ok(()))),
        (Search::Asking, SearchAction::Ignore)
    );
}

#[test]
fn a_search_that_hangs_or_panics_is_a_failure() {
    assert_eq!(
        waited(Waited::Outcome(CheckOutcome::UpToDate)),
        CheckOutcome::UpToDate
    );
    assert_eq!(
        waited(Waited::Panicked),
        CheckOutcome::Failed("проверка обновлений завершилась паникой".into())
    );
    assert_eq!(
        waited(Waited::TimedOut("30s".into())),
        CheckOutcome::Failed(
            "проверка обновлений не уложилась в 30s — сеть недоступна или медленная".into()
        )
    );
}

const EXE: &str = "C:\\pp\\proxypilot.exe";

fn install(state: Install, event: InstallEvent) -> (Install, InstallAction) {
    apply_pending_update(state, event, EXE)
}

fn ended(result: Result<bool, String>, remove_staged: bool) -> (Install, InstallAction) {
    (
        Install::Finished,
        InstallAction::Finish {
            result,
            remove_staged,
        },
    )
}

#[test]
fn the_backup_file_name_is_derived_from_the_current_exe_name() {
    let exe = r"C:\Program Files\ProxyPilot\proxypilot.exe";
    assert_eq!(
        backup_path(exe),
        r"C:\Program Files\ProxyPilot\proxypilot.exe.old"
    );
}

#[test]
fn nothing_pending_changes_nothing() {
    let (state, action) = begin();
    assert_eq!(action, InstallAction::ClearBackup);
    let (state, action) = install(state, InstallEvent::Cleared);
    assert_eq!(action, InstallAction::Look);
    assert_eq!(install(state, InstallEvent::Looked(false)), ended(Ok(false), false));
}

#[test]
fn a_signed_file_takes_the_place_of_the_program() {
    let (state, action) = install(Install::Looking, InstallEvent::Looked(true));
    assert_eq!(action, InstallAction::Verify);
    let (state, action) = install(state, InstallEvent::Verified(Ok(())));
    assert_eq!(action, InstallAction::BackUp);
    let (state, action) = install(state, InstallEvent::Renamed(Ok(())));
    assert_eq!(action, InstallAction::Replace);
    assert_eq!(install(state, InstallEvent::Renamed(Ok(()))), ended(Ok(true), false));
}

#[test]
fn an_unsigned_file_is_refused_and_removed() {
    assert_eq!(
        install(
            Install::Verifying,
            InstallEvent::Verified(Err("нет подписи".into()))
        ),
        ended(
            Err(
                "отложенное обновление отклонено при повторной проверке подписи: нет подписи"
                    .into()
            ),
            true
        )
    );
}

#[test]
fn a_replacement_that_fails_is_rolled_back() {
    assert_eq!(
        install(Install::BackingUp, InstallEvent::Renamed(Err("занят".into()))),
        ended(
            Err("не переименовать C:\\pp\\proxypilot.exe в C:\\pp\\proxypilot.exe.old: занят".into()),
            false
        )
    );
    let (state, action) = install(Install::Replacing, InstallEvent::Renamed(Err("диск".into())));
    assert_eq!(action, InstallAction::RollBack);
    assert_eq!(
        install(state, InstallEvent::Renamed(Ok(()))),
        ended(Err("не установить новую версию: диск".into()), false)
    );
    assert_eq!(
        install(
            Install::RollingBack("диск".into()),
            InstallEvent::Renamed(Err("тоже".into()))
        ),
        ended(
            Err("не установить новую версию (диск), И откат не удался (тоже) — по пути \
                 C:\\pp\\proxypilot.exe сейчас может не быть исполняемого файла"
                .into()),
            false
        )
    );
}

#[test]
fn only_a_verdict_of_zero_is_a_signature() {
    assert_eq!(verify_authenticode(0, "успех"), Ok(()));
    let refusal = verify_authenticode(-2146762496, "нет подписи");
    assert_eq!(
        refusal,
        Err(VerifyError(
            "подпись не подтверждена (WinVerifyTrust: нет подписи)".into()
        ))
    );
    assert_eq!(
        real_verifier(refusal),
        Err("подпись не подтверждена (WinVerifyTrust: нет подписи)".to_string())
    );
    assert_eq!(real_verifier(Ok(())), Ok(()));
}

#[test]
fn the_backup_stands_in_the_directory_of_the_program() {
    for (exe, backup) in [
        ("proxypilot.exe", "proxypilot.exe.old"),
        (".\\a.exe", ".\\a.exe.old"),
        ("C:/a/b.exe", "C:/a\\b.exe.old"),
        ("C:\\a\\\\b.exe", "C:\\a\\b.exe.old"),
        ("C:\\a\\.\\b.exe", "C:\\a\\b.exe.old"),
        ("C:\\a\\b.exe\\", "C:\\a\\b.exe.old"),
        ("C:\\b.exe", "C:\\b.exe.old"),
        ("C:/b.exe", "C:/b.exe.old"),
        ("C:b.exe", "C:b.exe.old"),
        ("\\\\server\\share\\b.exe", "\\\\server\\share\\b.exe.old"),
        ("\\\\server\\share/b.exe", "\\\\server\\share/b.exe.old"),
        ("\\\\?\\C:\\a\\b.exe", "\\\\?\\C:\\a\\b.exe.old"),
        ("\\\\.\\COM1\\b", "\\\\.\\COM1\\b.old"),
        ("\\\\.\\\\x", "\\\\.\\\\x.old"),
        ("/b.exe", "/b.exe.old"),
        ("a/.", "a.old"),
    ] {
        assert_eq!(backup_path(exe), backup, "{exe}");
    }
}

#[test]
fn a_verbatim_path_is_taken_literally() {
    for (exe, backup) in [
        (r"\\?\C:\b.exe", r"\\?\C:\b.exe.old"),
        (r"\\?\C:\a\\b.exe", r"\\?\C:\a\b.exe.old"),
        (r"\\?\C:\a\\c\b.exe", r"\\?\C:\a\c\b.exe.old"),
        (r"\\?\C:\a\.\b.exe", r"\\?\C:\a\.\b.exe.old"),
        (r"\\?\C:\a\..\b.exe", r"\\?\C:\a\..\b.exe.old"),
        (r"\\?\C:\a/b.exe", r"\\?\C:\a\b.exe.old"),
        (r"\\?\C:\c\a/../b.exe", r"\\?\C:\c\b.exe.old"),
        (r"\\?\C:/b.exe", r"\\?\C:\b.exe.old"),
        (r"\\?\pictures\b.exe", r"\\?\pictures\b.exe.old"),
        (r"\\?\UNC\server\share\b.exe", r"\\?\UNC\server\share\b.exe.old"),
        (r"\\?\UNC\server\share", r"\\?\UNC\server\share\.old"),
        (r"\\?\C:", r"\\?\C:\.old"),
        (r"\\?\C:\", r"\\?\C:\.old"),
        (r"\\?\C:\a\.", r"\\?\C:\a\.\.old"),
        (r"\\?\C:\a\..", r"\\?\C:\a\..\.old"),
        (r"//?/C:/b.exe", r"//?/C:/b.exe.old"),
    ] {
        assert_eq!(backup_path(exe), backup, "{exe}");
    }
}

#[test]
fn where_no_file_is_named_the_suffix_is_the_name() {
    for (exe, backup) in [
        ("", ".old"),
        (".", ".\\.old"),
        ("..", "..\\.old"),
        ("a\\..", "a\\..\\.old"),
        ("C:", "C:.old"),
        ("C:\\", "C:\\.old"),
        ("/", "/.old"),
        ("\\\\server\\share", "\\\\server\\share\\.old"),
    ] {
        assert_eq!(backup_path(exe), backup, "{exe}");
    }
}
