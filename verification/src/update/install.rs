//! Putting a pending update in place, at the start of the program and before it
//! has taken anything upon itself.

use vstd::prelude::*;
use vstd::string::*;
use crate::update::path::{a_name_goes_behind_its_directory, the_last_name_is_the_file};
use crate::update::path::{file_in, join_path, path_in, split_file};
use crate::update::path::{has_no_tail, is_name, is_on_a_drive};
use crate::update::verify::{verify_authenticode, VerifyError};

verus! {

/// What the name of the backup ends in. It is predictable, so that the next
/// start can clear it away.
pub const BACKUP_SUFFIX: &'static str = ".old";

/// The backup stands beside the program, under the program's name with the
/// suffix behind it. Where the path names no file, the suffix alone is the name.
pub open spec fn backup_of(exe: Seq<char>) -> Seq<char> {
    match file_in(exe) {
        Some((directory, name)) => path_in(directory, name + BACKUP_SUFFIX@),
        None => path_in(exe, BACKUP_SUFFIX@),
    }
}

/// The path of the backup of a program.
pub fn backup_path(exe: &str) -> (out: String)
    ensures
        out@ == backup_of(exe@),
{
    match split_file(exe) {
        Some((directory, name)) => {
            let mut backup = name;
            backup.append(BACKUP_SUFFIX);
            join_path(directory.as_str(), backup.as_str())
        },
        None => join_path(exe, BACKUP_SUFFIX),
    }
}

/// How far the installation has come.
#[derive(Debug, PartialEq, Eq)]
pub enum Install {
    /// The backup of an earlier installation is being removed.
    Clearing,
    /// The pending file is being looked for.
    Looking,
    /// The signature of the pending file is being checked.
    Verifying,
    /// The program is being renamed to the backup.
    BackingUp,
    /// The pending file is being renamed to the program.
    Replacing,
    /// The backup is being renamed back, for this reason.
    RollingBack(String),
    Finished,
}

/// What happened.
#[derive(Debug, PartialEq, Eq)]
pub enum InstallEvent {
    /// The backup is gone, or it never was there.
    Cleared,
    /// Whether a pending file is there.
    Looked(bool),
    Verified(Result<(), String>),
    Renamed(Result<(), String>),
}

/// What to do next.
#[derive(Debug, PartialEq, Eq)]
pub enum InstallAction {
    /// Remove the backup if it is there; a failure does not matter.
    ClearBackup,
    Look,
    Verify,
    /// Rename the program to the backup.
    BackUp,
    /// Rename the pending file to the program.
    Replace,
    /// Rename the backup to the program.
    RollBack,
    /// The installation is over; the pending file is removed first, if so said.
    /// `Ok(true)` means that the program was replaced and must be started anew,
    /// `Ok(false)` that nothing was pending. After an error the old program
    /// goes on.
    Finish { result: Result<bool, String>, remove_staged: bool },
    /// The event does not belong to this state.
    Ignore,
}

/// Begins the installation.
pub fn begin() -> (out: (Install, InstallAction))
    ensures
        out == (Install::Clearing, InstallAction::ClearBackup),
{
    (Install::Clearing, InstallAction::ClearBackup)
}

pub open spec fn ends(
    next: Install,
    action: InstallAction,
    result: Result<bool, Seq<char>>,
    remove: bool,
) -> bool {
    &&& next is Finished
    &&& action matches InstallAction::Finish { result: r, remove_staged }
    &&& remove_staged == remove
    &&& match (r, result) {
        (Ok(a), Ok(b)) => a == b,
        (Err(a), Err(b)) => a@ == b,
        _ => false,
    }
}

/// The next state and the action.
pub open spec fn install_step(
    state: Install,
    event: InstallEvent,
    exe: Seq<char>,
    next: Install,
    action: InstallAction,
) -> bool {
    match (state, event) {
        (Install::Clearing, InstallEvent::Cleared) => next is Looking && action is Look,
        (Install::Looking, InstallEvent::Looked(there)) => if there {
            next is Verifying && action is Verify
        } else {
            ends(next, action, Ok(false), false)
        },
        (Install::Verifying, InstallEvent::Verified(Ok(_))) => next is BackingUp && action is BackUp,
        (Install::Verifying, InstallEvent::Verified(Err(why))) => ends(
            next,
            action,
            Err(
                "отложенное обновление отклонено при повторной проверке подписи: "@ + why@,
            ),
            true,
        ),
        (Install::BackingUp, InstallEvent::Renamed(Ok(_))) => next is Replacing && action
            is Replace,
        (Install::BackingUp, InstallEvent::Renamed(Err(why))) => ends(
            next,
            action,
            Err("не переименовать "@ + exe + " в "@ + backup_of(exe) + ": "@ + why@),
            false,
        ),
        (Install::Replacing, InstallEvent::Renamed(Ok(_))) => ends(next, action, Ok(true), false),
        (Install::Replacing, InstallEvent::Renamed(Err(why))) => {
            &&& next matches Install::RollingBack(w)
            &&& w@ == why@
            &&& action is RollBack
        },
        (Install::RollingBack(why), InstallEvent::Renamed(Ok(_))) => ends(
            next,
            action,
            Err("не установить новую версию: "@ + why@),
            false,
        ),
        (Install::RollingBack(why), InstallEvent::Renamed(Err(second))) => ends(
            next,
            action,
            Err(
                "не установить новую версию ("@ + why@ + "), И откат не удался ("@ + second@
                    + ") — \
                 по пути "@ + exe + " сейчас может не быть исполняемого файла"@,
            ),
            false,
        ),
        _ => next == state && action is Ignore,
    }
}

fn ended(result: Result<bool, String>, remove_staged: bool) -> (out: (Install, InstallAction))
    ensures
        out == (Install::Finished, InstallAction::Finish { result, remove_staged }),
{
    (Install::Finished, InstallAction::Finish { result, remove_staged })
}

/// One step of the installation: check the signature once more, move the
/// program out of the way, move the new one in, and move the old one back if
/// that failed.
pub fn apply_pending_update(state: Install, event: InstallEvent, exe: &str) -> (out: (
    Install,
    InstallAction,
))
    ensures
        install_step(state, event, exe@, out.0, out.1),
{
    match (state, event) {
        (Install::Clearing, InstallEvent::Cleared) => (Install::Looking, InstallAction::Look),
        (Install::Looking, InstallEvent::Looked(there)) => if there {
            (Install::Verifying, InstallAction::Verify)
        } else {
            ended(Ok(false), false)
        },
        (Install::Verifying, InstallEvent::Verified(Ok(_))) => (
            Install::BackingUp,
            InstallAction::BackUp,
        ),
        (Install::Verifying, InstallEvent::Verified(Err(why))) => {
            let mut text =
                "отложенное обновление отклонено при повторной проверке подписи: ".to_owned();
            text.append(why.as_str());
            ended(Err(text), true)
        },
        (Install::BackingUp, InstallEvent::Renamed(Ok(_))) => (
            Install::Replacing,
            InstallAction::Replace,
        ),
        (Install::BackingUp, InstallEvent::Renamed(Err(why))) => {
            let mut text = "не переименовать ".to_owned();
            text.append(exe);
            text.append(" в ");
            text.append(backup_path(exe).as_str());
            text.append(": ");
            text.append(why.as_str());
            ended(Err(text), false)
        },
        (Install::Replacing, InstallEvent::Renamed(Ok(_))) => ended(Ok(true), false),
        (Install::Replacing, InstallEvent::Renamed(Err(why))) => (
            Install::RollingBack(why),
            InstallAction::RollBack,
        ),
        (Install::RollingBack(why), InstallEvent::Renamed(Ok(_))) => {
            let mut text = "не установить новую версию: ".to_owned();
            text.append(why.as_str());
            ended(Err(text), false)
        },
        (Install::RollingBack(why), InstallEvent::Renamed(Err(second))) => {
            let mut text = "не установить новую версию (".to_owned();
            text.append(why.as_str());
            text.append("), И откат не удался (");
            text.append(second.as_str());
            text.append(
                ") — \
                 по пути ",
            );
            text.append(exe);
            text.append(" сейчас может не быть исполняемого файла");
            ended(Err(text), false)
        },
        (state, _) => (state, InstallAction::Ignore),
    }
}

/// The verdict on a signature in the form that the search and the installation
/// take.
pub fn real_verifier(verdict: Result<(), VerifyError>) -> (out: Result<(), String>)
    ensures
        match verdict {
            Ok(_) => out is Ok,
            Err(e) => out == Err::<(), String>(e.0),
        },
{
    match verdict {
        Ok(_) => Ok(()),
        Err(e) => Err(e.0),
    }
}

// ---------------------------------------------------------------------------
// Laws
// ---------------------------------------------------------------------------

/// The program is moved only behind a confirmed signature.
pub proof fn only_a_signed_file_is_installed(
    state: Install,
    event: InstallEvent,
    exe: Seq<char>,
    next: Install,
    action: InstallAction,
)
    requires
        install_step(state, event, exe, next, action),
        action is BackUp,
    ensures
        state is Verifying,
        event matches InstallEvent::Verified(Ok(_)),
{
}

/// A pending file that is refused is removed, and the program stays where it
/// is.
pub proof fn a_refused_file_is_removed(
    exe: Seq<char>,
    why: String,
    next: Install,
    action: InstallAction,
)
    requires
        install_step(Install::Verifying, InstallEvent::Verified(Err(why)), exe, next, action),
    ensures
        action matches InstallAction::Finish { result: Err(_), remove_staged: true },
{
}

/// Once the program was moved out of the way, the installation ends with the
/// new one in its place or tries to bring the old one back.
pub proof fn a_failed_replacement_is_rolled_back(
    event: InstallEvent,
    exe: Seq<char>,
    next: Install,
    action: InstallAction,
)
    requires
        install_step(Install::Replacing, event, exe, next, action),
        event is Renamed,
    ensures
        action is RollBack || (action matches InstallAction::Finish {
            result: Ok(true),
            remove_staged: false,
        }),
{
}

/// One step of an installation.
pub ghost struct InstallMove {
    pub state: Install,
    pub event: InstallEvent,
    pub next: Install,
    pub action: InstallAction,
}

/// The steps of one installation, from its beginning on.
pub open spec fn is_installation(moves: Seq<InstallMove>, exe: Seq<char>) -> bool {
    &&& moves.len() > 0 ==> moves[0].state is Clearing
    &&& forall|i: int|
        0 <= i < moves.len() ==> install_step(
            (#[trigger] moves[i]).state,
            moves[i].event,
            exe,
            moves[i].next,
            moves[i].action,
        )
    &&& forall|i: int, j: int|
        0 <= i && i + 1 == j && j < moves.len() ==> (#[trigger] moves[i]).next == (
        #[trigger] moves[j]).state
}

/// The signature was confirmed within the first steps.
pub open spec fn was_confirmed(moves: Seq<InstallMove>, until: int) -> bool {
    exists|i: int|
        0 <= i < until && (#[trigger] moves[i]).state is Verifying && moves[i].event matches
            InstallEvent::Verified(Ok(_))
}

proof fn lemma_confirmed(moves: Seq<InstallMove>, exe: Seq<char>, k: int)
    requires
        is_installation(moves, exe),
        0 <= k < moves.len(),
    ensures
        moves[k].state is BackingUp || moves[k].state is Replacing || moves[k].state is RollingBack
            ==> was_confirmed(moves, k),
    decreases k,
{
    if k > 0 {
        lemma_confirmed(moves, exe, k - 1);
        assert(moves[k - 1].next == moves[k].state);
        if was_confirmed(moves, k - 1) {
            assert(was_confirmed(moves, k));
        }
    }
}

/// In every installation: no file is moved before the signature of the pending
/// one was confirmed, and the program counts as replaced only after that.
pub proof fn nothing_moves_without_a_signature(moves: Seq<InstallMove>, exe: Seq<char>, k: int)
    requires
        is_installation(moves, exe),
        0 <= k < moves.len(),
        match moves[k].action {
            InstallAction::Replace | InstallAction::RollBack => true,
            InstallAction::Finish { result, .. } => result == Ok::<bool, String>(true),
            _ => false,
        },
    ensures
        was_confirmed(moves, k),
{
    lemma_confirmed(moves, exe, k);
}

// ---------------------------------------------------------------------------
// Laws of single steps
// ---------------------------------------------------------------------------

/// The installation fails for this reason, and the pending file is removed or not.
pub open spec fn fails_with(out: (Install, InstallAction), why: Seq<char>, remove: bool) -> bool {
    &&& out.0 is Finished
    &&& out.1 is Finish
    &&& out.1->result is Err
    &&& (out.1->result)->Err_0@ == why
    &&& out.1->remove_staged == remove
}

/// Every step that went well is followed by the next one: clear the old backup, look
/// for a pending file, check its signature, move the program away, move the new one in.
pub proof fn every_step_is_followed_by_the_next(
    exe: &str,
    there: bool,
    begun: (Install, InstallAction),
    outs: (
        (Install, InstallAction),
        (Install, InstallAction),
        (Install, InstallAction),
        (Install, InstallAction),
        (Install, InstallAction),
    ),
)
    requires
        call_ensures(begin, (), begun),
        call_ensures(
            apply_pending_update,
            (Install::Clearing, InstallEvent::Cleared, exe),
            outs.0,
        ),
        call_ensures(
            apply_pending_update,
            (Install::Looking, InstallEvent::Looked(there), exe),
            outs.1,
        ),
        call_ensures(
            apply_pending_update,
            (Install::Verifying, InstallEvent::Verified(Ok(())), exe),
            outs.2,
        ),
        call_ensures(
            apply_pending_update,
            (Install::BackingUp, InstallEvent::Renamed(Ok(())), exe),
            outs.3,
        ),
        call_ensures(
            apply_pending_update,
            (Install::Replacing, InstallEvent::Renamed(Ok(())), exe),
            outs.4,
        ),
    ensures
        ({
            let (cleared, looked, verified, moved, replaced) = outs;
            &&& begun == (Install::Clearing, InstallAction::ClearBackup)
            &&& cleared == (Install::Looking, InstallAction::Look)
            &&& there ==> looked == (Install::Verifying, InstallAction::Verify)
            &&& !there ==> looked == (
                Install::Finished,
                InstallAction::Finish { result: Ok(false), remove_staged: false },
            )
            &&& verified == (Install::BackingUp, InstallAction::BackUp)
            &&& moved == (Install::Replacing, InstallAction::Replace)
            &&& replaced == (
                Install::Finished,
                InstallAction::Finish { result: Ok(true), remove_staged: false },
            )
        }),
{
}

/// Every step that failed says what failed and why. A file that is not signed is
/// removed; a program that was moved away is moved back.
pub proof fn every_failed_step_is_told(
    exe: &str,
    backup: String,
    why: String,
    second: String,
    outs: (
        (Install, InstallAction),
        (Install, InstallAction),
        (Install, InstallAction),
        (Install, InstallAction),
        (Install, InstallAction),
    ),
)
    requires
        call_ensures(backup_path, (exe,), backup),
        call_ensures(
            apply_pending_update,
            (Install::Verifying, InstallEvent::Verified(Err(why)), exe),
            outs.0,
        ),
        call_ensures(
            apply_pending_update,
            (Install::BackingUp, InstallEvent::Renamed(Err(why)), exe),
            outs.1,
        ),
        call_ensures(
            apply_pending_update,
            (Install::Replacing, InstallEvent::Renamed(Err(why)), exe),
            outs.2,
        ),
        call_ensures(
            apply_pending_update,
            (Install::RollingBack(why), InstallEvent::Renamed(Ok(())), exe),
            outs.3,
        ),
        call_ensures(
            apply_pending_update,
            (Install::RollingBack(why), InstallEvent::Renamed(Err(second)), exe),
            outs.4,
        ),
    ensures
        ({
            let (unsigned, stuck, not_moved, back, lost) = outs;
            &&& fails_with(
                unsigned,
                "отложенное обновление отклонено при повторной проверке подписи: "@ + why@,
                true,
            )
            &&& fails_with(
                stuck,
                "не переименовать "@ + exe@ + " в "@ + backup@ + ": "@ + why@,
                false,
            )
            &&& not_moved.0 is RollingBack && not_moved.0->RollingBack_0@ == why@
            &&& not_moved.1 is RollBack
            &&& fails_with(back, "не установить новую версию: "@ + why@, false)
            &&& fails_with(
                lost,
                "не установить новую версию ("@ + why@ + "), И откат не удался ("@ + second@
                    + ") — \
                 по пути "@ + exe@ + " сейчас может не быть исполняемого файла"@,
                false,
            )
        }),
{
}

/// An event that does not belong to the state changes nothing.
pub proof fn an_event_out_of_turn_is_ignored(
    state: Install,
    event: InstallEvent,
    exe: &str,
    out: (Install, InstallAction),
)
    requires
        call_ensures(apply_pending_update, (state, event, exe), out),
        state is Clearing ==> !(event is Cleared),
        state is Looking ==> !(event is Looked),
        state is Verifying ==> !(event is Verified),
        state is BackingUp || state is Replacing || state is RollingBack ==> !(event is Renamed),
    ensures
        out == (state, InstallAction::Ignore),
{
}

/// Only a signature that the system confirmed counts as one, and a refusal comes out
/// word for word.
pub proof fn only_a_confirmed_signature_counts(
    status: i32,
    message: &str,
    verdict: Result<(), VerifyError>,
    out: Result<(), String>,
)
    requires
        call_ensures(verify_authenticode, (status, message), verdict),
        call_ensures(real_verifier, (verdict,), out),
    ensures
        out is Ok <==> status == 0,
        out matches Err(why) ==> why@ == "подпись не подтверждена (WinVerifyTrust: "@ + message@
            + ")"@,
{
}

/// The backup of a program on a drive stands beside it, under its name with `.old`
/// behind it.
pub proof fn the_backup_stands_beside_the_program(
    directory: &str,
    separator: char,
    name: Seq<char>,
    exe: &str,
    backup: &str,
    found: Option<(String, String)>,
    joined: String,
    out: String,
)
    requires
        is_on_a_drive(directory@),
        directory@.len() > 2,
        has_no_tail(directory@),
        separator == '\\' || separator == '/',
        is_name(name),
        exe@ == directory@ + seq![separator] + name,
        backup@ == name + seq!['.', 'o', 'l', 'd'],
        call_ensures(split_file, (exe,), found),
        call_ensures(join_path, (directory, backup), joined),
        call_ensures(backup_path, (exe,), out),
    ensures
        out@ == directory@ + seq!['\\'] + name + seq!['.', 'o', 'l', 'd'],
{
    reveal_strlit(".old");
    assert(BACKUP_SUFFIX@ =~= seq!['.', 'o', 'l', 'd']);
    assert forall|i: int| 0 <= i < backup@.len() implies #[trigger] backup@[i] != '\\' && backup@[i]
        != '/' && backup@[i] != ':' by {
        if i < name.len() {
            assert(backup@[i] == name[i]);
        }
    }
    assert(is_name(backup@));
    the_last_name_is_the_file(directory@, separator, name, exe, found);
    a_name_goes_behind_its_directory(directory, backup, joined);
    assert(directory@ + seq!['\\'] + backup@ =~= directory@ + seq!['\\'] + name + seq![
        '.',
        'o',
        'l',
        'd',
    ]);
}

} // verus!
