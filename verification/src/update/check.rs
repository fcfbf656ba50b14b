//! Looking for an update: ask for the last release, compare the versions,
//! download the file, check its signature and keep it for the next start.
//!
//! A file is kept only if its signature was confirmed. In every other case it
//! is removed and the reason is told.

use vstd::prelude::*;
use vstd::string::*;
use crate::update::source::ReleaseInfo;
use crate::update::version::{decide, decision, format_version, version_tag, Decision};
use crate::update::version::{a_release_is_offered_where_its_numbers_are_above, is_above, numbered};
use crate::update::version::DecisionView;

verus! {

/// The file while it is being downloaded and checked.
pub const PARTIAL_NAME: &'static str = "staged.exe.partial";

/// The file that waits for the next start. That it is there is the only mark of
/// a pending update.
pub const STAGED_NAME: &'static str = "staged.exe";

/// How long the network may take, in seconds.
pub const DEFAULT_TIMEOUT_SECS: u64 = 30;

/// What came of looking for an update.
#[derive(Debug, Clone, PartialEq, Eq)]
pub enum CheckOutcome {
    /// Looking for updates is switched off.
    Disabled,
    UpToDate,
    CurrentIsNewer,
    Unrecognized,
    /// Only a prerelease is published.
    PublishedIsPrerelease(String),
    /// The network or the service failed, or the time ran out. Not the same as
    /// "up to date".
    Failed(String),
    /// The file was downloaded, its signature confirmed; it waits for the next
    /// start.
    StagedForNextLaunch { tag: String },
    /// The signature is missing or wrong. Nothing was kept.
    RefusedUnsigned { tag: String, reason: String },
}

/// How far the search has come.
#[derive(Debug, PartialEq, Eq)]
pub enum Search {
    /// The last release is being asked for.
    Asking,
    /// The directory is being created.
    Creating(ReleaseInfo),
    /// The file is being downloaded.
    Downloading(ReleaseInfo),
    /// The signature is being checked.
    Verifying(ReleaseInfo),
    /// The file is being given its final name.
    Storing(ReleaseInfo),
    Finished,
}

/// What happened.
#[derive(Debug, PartialEq, Eq)]
pub enum SearchEvent {
    Release(Result<ReleaseInfo, String>),
    Created(Result<(), String>),
    Downloaded(Result<(), String>),
    Verified(Result<(), String>),
    Stored(Result<(), String>),
}

/// What to do next.
#[derive(Debug, PartialEq, Eq)]
pub enum SearchAction {
    AskRelease,
    CreateDirectory,
    /// Download the file at this address under the name [`PARTIAL_NAME`].
    Download(String),
    /// Check the signature of the downloaded file.
    Verify,
    /// Rename the downloaded file to [`STAGED_NAME`].
    Store,
    /// The search is over. The downloaded file is removed first, if so said.
    Finish { outcome: CheckOutcome, remove_download: bool },
    /// The event does not belong to this state.
    Ignore,
}

/// Starts the search. Where it is switched off, nothing is asked of anybody.
pub fn start(enabled: bool) -> (out: (Search, SearchAction))
    ensures
        if enabled {
            out == (Search::Asking, SearchAction::AskRelease)
        } else {
            out == (
                Search::Finished,
                SearchAction::Finish { outcome: CheckOutcome::Disabled, remove_download: false },
            )
        },
{
    if enabled {
        (Search::Asking, SearchAction::AskRelease)
    } else {
        (
            Search::Finished,
            SearchAction::Finish { outcome: CheckOutcome::Disabled, remove_download: false },
        )
    }
}

pub open spec fn finishes(
    next: Search,
    action: SearchAction,
    outcome: CheckOutcome,
    remove: bool,
) -> bool {
    &&& next is Finished
    &&& action matches SearchAction::Finish { outcome: o, remove_download: r }
    &&& o == outcome
    &&& r == remove
}

pub open spec fn fails(next: Search, action: SearchAction, why: Seq<char>, remove: bool) -> bool {
    &&& next is Finished
    &&& action matches SearchAction::Finish { outcome: CheckOutcome::Failed(w), remove_download: r }
    &&& w@ == why
    &&& r == remove
}

/// What to do once the last release is known.
pub open spec fn released(
    current: Seq<char>,
    release: ReleaseInfo,
    next: Search,
    action: SearchAction,
) -> bool {
    match decision(current, release.tag@) {
        DecisionView::Available(_) => next == Search::Creating(release) && action
            is CreateDirectory,
        DecisionView::UpToDate => finishes(next, action, CheckOutcome::UpToDate, false),
        DecisionView::CurrentIsNewer => finishes(next, action, CheckOutcome::CurrentIsNewer, false),
        DecisionView::Unrecognized => finishes(next, action, CheckOutcome::Unrecognized, false),
        DecisionView::PublishedIsPrerelease(v) => {
            &&& next is Finished
            &&& action matches SearchAction::Finish {
                outcome: CheckOutcome::PublishedIsPrerelease(tag),
                remove_download: false,
            }
            &&& tag@ == version_tag(v)
        },
    }
}

/// The next state and the action.
pub open spec fn search_step(
    state: Search,
    event: SearchEvent,
    current: Seq<char>,
    directory: Seq<char>,
    next: Search,
    action: SearchAction,
) -> bool {
    match (state, event) {
        (Search::Asking, SearchEvent::Release(Err(why))) => fails(next, action, why@, false),
        (Search::Asking, SearchEvent::Release(Ok(release))) => released(
            current,
            release,
            next,
            action,
        ),
        (Search::Creating(_), SearchEvent::Created(Err(why))) => fails(
            next,
            action,
            "не создать "@ + directory + ": "@ + why@,
            false,
        ),
        (Search::Creating(release), SearchEvent::Created(Ok(_))) => {
            &&& next == Search::Downloading(release)
            &&& action matches SearchAction::Download(url)
            &&& url@ == release.asset_url@
        },
        (Search::Downloading(_), SearchEvent::Downloaded(Err(why))) => fails(
            next,
            action,
            "скачивание обновления не удалось: "@ + why@,
            true,
        ),
        (Search::Downloading(release), SearchEvent::Downloaded(Ok(_))) => next
            == Search::Verifying(release) && action is Verify,
        (Search::Verifying(release), SearchEvent::Verified(Err(why))) => {
            &&& next is Finished
            &&& action matches SearchAction::Finish {
                outcome: CheckOutcome::RefusedUnsigned { tag, reason },
                remove_download: true,
            }
            &&& tag@ == release.tag@
            &&& reason@ == why@
        },
        (Search::Verifying(release), SearchEvent::Verified(Ok(_))) => next == Search::Storing(
            release,
        ) && action is Store,
        (Search::Storing(_), SearchEvent::Stored(Err(why))) => fails(
            next,
            action,
            "скачанный файл прошёл проверку подписи, но не отложился: "@ + why@,
            true,
        ),
        (Search::Storing(release), SearchEvent::Stored(Ok(_))) => {
            &&& next is Finished
            &&& action matches SearchAction::Finish {
                outcome: CheckOutcome::StagedForNextLaunch { tag },
                remove_download: false,
            }
            &&& tag@ == release.tag@
        },
        _ => next == state && action is Ignore,
    }
}

fn failed(what: &str, why: String, remove_download: bool) -> (out: (Search, SearchAction))
    ensures
        fails(out.0, out.1, what@ + why@, remove_download),
{
    let mut text = what.to_owned();
    text.append(why.as_str());
    (
        Search::Finished,
        SearchAction::Finish { outcome: CheckOutcome::Failed(text), remove_download },
    )
}

/// Decides what to do with the last release.
fn after_release(current: &str, release: ReleaseInfo) -> (out: (Search, SearchAction))
    ensures
        released(current@, release, out.0, out.1),
{
    let outcome = match decide(current, release.tag.as_str()) {
        Decision::Available(_) => {
            return (Search::Creating(release), SearchAction::CreateDirectory);
        },
        Decision::UpToDate => CheckOutcome::UpToDate,
        Decision::CurrentIsNewer => CheckOutcome::CurrentIsNewer,
        Decision::Unrecognized => CheckOutcome::Unrecognized,
        Decision::PublishedIsPrerelease(v) => CheckOutcome::PublishedIsPrerelease(
            format_version(&v),
        ),
    };
    (Search::Finished, SearchAction::Finish { outcome, remove_download: false })
}

/// One step of the search. `current` is the running version, `directory` is
/// where updates are kept.
pub fn run(state: Search, event: SearchEvent, current: &str, directory: &str) -> (out: (
    Search,
    SearchAction,
))
    ensures
        search_step(state, event, current@, directory@, out.0, out.1),
{
    match (state, event) {
        (Search::Asking, SearchEvent::Release(Err(why))) => (
            Search::Finished,
            SearchAction::Finish { outcome: CheckOutcome::Failed(why), remove_download: false },
        ),
        (Search::Asking, SearchEvent::Release(Ok(release))) => after_release(current, release),
        (Search::Creating(_), SearchEvent::Created(Err(why))) => {
            let mut what = "не создать ".to_owned();
            what.append(directory);
            what.append(": ");
            failed(what.as_str(), why, false)
        },
        (Search::Creating(release), SearchEvent::Created(Ok(_))) => {
            let url = release.asset_url.clone();
            (Search::Downloading(release), SearchAction::Download(url))
        },
        (Search::Downloading(_), SearchEvent::Downloaded(Err(why))) => failed(
            "скачивание обновления не удалось: ",
            why,
            true,
        ),
        (Search::Downloading(release), SearchEvent::Downloaded(Ok(_))) => (
            Search::Verifying(release),
            SearchAction::Verify,
        ),
        (Search::Verifying(release), SearchEvent::Verified(Err(reason))) => (
            Search::Finished,
            SearchAction::Finish {
                outcome: CheckOutcome::RefusedUnsigned { tag: release.tag, reason },
                remove_download: true,
            },
        ),
        (Search::Verifying(release), SearchEvent::Verified(Ok(_))) => (
            Search::Storing(release),
            SearchAction::Store,
        ),
        (Search::Storing(_), SearchEvent::Stored(Err(why))) => failed(
            "скачанный файл прошёл проверку подписи, но не отложился: ",
            why,
            true,
        ),
        (Search::Storing(release), SearchEvent::Stored(Ok(_))) => (
            Search::Finished,
            SearchAction::Finish {
                outcome: CheckOutcome::StagedForNextLaunch { tag: release.tag },
                remove_download: false,
            },
        ),
        (state, _) => (state, SearchAction::Ignore),
    }
}

/// What became of a search that ran apart.
#[derive(Debug, PartialEq, Eq)]
pub enum Waited {
    Outcome(CheckOutcome),
    Panicked,
    /// The time ran out; this is the time, written out.
    TimedOut(String),
}

/// The outcome of a search that ran apart.
pub fn waited(result: Waited) -> (out: CheckOutcome)
    ensures
        match result {
            Waited::Outcome(o) => out == o,
            Waited::Panicked => out matches CheckOutcome::Failed(why) && why@
                == "проверка обновлений завершилась паникой"@,
            Waited::TimedOut(time) => out matches CheckOutcome::Failed(why) && why@
                == "проверка обновлений не уложилась в "@ + time@
                + " — сеть недоступна или медленная"@,
        },
{
    match result {
        Waited::Outcome(o) => o,
        Waited::Panicked => CheckOutcome::Failed(
            "проверка обновлений завершилась паникой".to_owned(),
        ),
        Waited::TimedOut(time) => {
            let mut why = "проверка обновлений не уложилась в ".to_owned();
            why.append(time.as_str());
            why.append(" — сеть недоступна или медленная");
            CheckOutcome::Failed(why)
        },
    }
}

// ---------------------------------------------------------------------------
// Laws
// ---------------------------------------------------------------------------

/// The file gets its final name only behind a confirmed signature.
pub proof fn only_a_signed_file_is_kept(
    state: Search,
    event: SearchEvent,
    current: Seq<char>,
    directory: Seq<char>,
    next: Search,
    action: SearchAction,
)
    requires
        search_step(state, event, current, directory, next, action),
        action is Store,
    ensures
        state is Verifying,
        event matches SearchEvent::Verified(Ok(_)),
{
}

/// A search that ends without keeping the file, once the download has begun,
/// removes it.
pub proof fn what_is_not_kept_is_removed(
    state: Search,
    event: SearchEvent,
    current: Seq<char>,
    directory: Seq<char>,
    next: Search,
    action: SearchAction,
)
    requires
        search_step(state, event, current, directory, next, action),
        state is Downloading || state is Verifying || state is Storing,
        action is Finish,
    ensures
        action->remove_download <==> !(action->outcome is StagedForNextLaunch),
{
}

/// One step of a search.
pub ghost struct SearchMove {
    pub state: Search,
    pub event: SearchEvent,
    pub next: Search,
    pub action: SearchAction,
}

/// The steps of one search, from its beginning on.
pub open spec fn is_search(
    moves: Seq<SearchMove>,
    current: Seq<char>,
    directory: Seq<char>,
) -> bool {
    &&& moves.len() > 0 ==> moves[0].state is Asking
    &&& forall|i: int|
        0 <= i < moves.len() ==> search_step(
            (#[trigger] moves[i]).state,
            moves[i].event,
            current,
            directory,
            moves[i].next,
            moves[i].action,
        )
    &&& forall|i: int, j: int|
        0 <= i && i + 1 == j && j < moves.len() ==> (#[trigger] moves[i]).next == (
        #[trigger] moves[j]).state
}

/// This release was published, and it is newer than the running version and no
/// prerelease.
pub open spec fn was_offered(
    moves: Seq<SearchMove>,
    until: int,
    current: Seq<char>,
    release: ReleaseInfo,
) -> bool {
    exists|i: int|
        0 <= i < until && (#[trigger] moves[i]).state is Asking && moves[i].event
            == SearchEvent::Release(Ok(release)) && decision(current, release.tag@) is Available
}

/// The file of this release was downloaded.
pub open spec fn was_downloaded(moves: Seq<SearchMove>, until: int, release: ReleaseInfo) -> bool {
    exists|i: int|
        0 <= i < until && (#[trigger] moves[i]).state == Search::Downloading(release)
            && moves[i].event matches SearchEvent::Downloaded(Ok(_))
}

/// The signature of the file of this release was confirmed.
pub open spec fn was_confirmed(moves: Seq<SearchMove>, until: int, release: ReleaseInfo) -> bool {
    exists|i: int|
        0 <= i < until && (#[trigger] moves[i]).state == Search::Verifying(release)
            && moves[i].event matches SearchEvent::Verified(Ok(_))
}

/// The release that a state is about.
pub open spec fn release_of(state: Search) -> Option<ReleaseInfo> {
    match state {
        Search::Creating(r) | Search::Downloading(r) | Search::Verifying(r) | Search::Storing(
            r,
        ) => Some(r),
        Search::Asking | Search::Finished => None,
    }
}

proof fn lemma_history(
    moves: Seq<SearchMove>,
    k: int,
    current: Seq<char>,
    directory: Seq<char>,
)
    requires
        is_search(moves, current, directory),
        0 <= k < moves.len(),
    ensures
        release_of(moves[k].state) matches Some(release) ==> {
            &&& was_offered(moves, k, current, release)
            &&& moves[k].state is Verifying || moves[k].state is Storing ==> was_downloaded(
                moves,
                k,
                release,
            )
            &&& moves[k].state is Storing ==> was_confirmed(moves, k, release)
        },
    decreases k,
{
    if k > 0 {
        lemma_history(moves, k - 1, current, directory);
        let last = moves[k - 1];
        assert(last.next == moves[k].state);
        if let Some(release) = release_of(last.state) {
            if was_offered(moves, k - 1, current, release) {
                assert(was_offered(moves, k, current, release));
            }
            if was_downloaded(moves, k - 1, release) {
                assert(was_downloaded(moves, k, release));
            }
            if was_confirmed(moves, k - 1, release) {
                assert(was_confirmed(moves, k, release));
            }
        }
    }
}

/// In every search: a file is downloaded only if its release is newer than the
/// running version and no prerelease, and only from the address that the
/// release names.
pub proof fn only_a_newer_release_is_downloaded(
    moves: Seq<SearchMove>,
    k: int,
    current: Seq<char>,
    directory: Seq<char>,
)
    requires
        is_search(moves, current, directory),
        0 <= k < moves.len(),
        moves[k].action is Download,
    ensures
        moves[k].state matches Search::Creating(release) && was_offered(moves, k, current, release)
            && moves[k].action->Download_0@ == release.asset_url@,
{
    lemma_history(moves, k, current, directory);
}

/// In every search: what waits for the next start was offered, downloaded and
/// confirmed, in this search and under this tag.
pub proof fn what_waits_was_confirmed(
    moves: Seq<SearchMove>,
    k: int,
    current: Seq<char>,
    directory: Seq<char>,
)
    requires
        is_search(moves, current, directory),
        0 <= k < moves.len(),
        moves[k].action matches SearchAction::Finish {
            outcome: CheckOutcome::StagedForNextLaunch { .. },
            ..
        },
    ensures
        moves[k].state matches Search::Storing(release) && {
            &&& was_offered(moves, k, current, release)
            &&& was_downloaded(moves, k, release)
            &&& was_confirmed(moves, k, release)
            &&& moves[k].action->outcome->StagedForNextLaunch_tag@ == release.tag@
        },
{
    lemma_history(moves, k, current, directory);
}

// ---------------------------------------------------------------------------
// Laws of single steps
// ---------------------------------------------------------------------------

/// The search ends so, and the downloaded file is removed or not.
pub open spec fn ends_with(
    out: (Search, SearchAction),
    outcome: CheckOutcome,
    remove: bool,
) -> bool {
    &&& out.0 is Finished
    &&& out.1 is Finish
    &&& out.1->outcome == outcome
    &&& out.1->remove_download == remove
}

/// The search fails for this reason, and the downloaded file is removed or not.
pub open spec fn fails_with(out: (Search, SearchAction), why: Seq<char>, remove: bool) -> bool {
    &&& out.0 is Finished
    &&& out.1 is Finish
    &&& out.1->outcome is Failed
    &&& (out.1->outcome)->Failed_0@ == why
    &&& out.1->remove_download == remove
}

/// A search that is switched off asks nobody anything; any other one asks for the
/// last release.
pub proof fn a_search_that_is_off_asks_nobody(enabled: bool, out: (Search, SearchAction))
    requires
        call_ensures(start, (enabled,), out),
    ensures
        enabled <==> out.1 is AskRelease,
        enabled ==> out.0 is Asking,
        !enabled ==> ends_with(out, CheckOutcome::Disabled, false),
{
}

/// What is decided on the published tag is what the search does: it goes on with a
/// release that is offered and ends with any other decision.
pub proof fn the_search_goes_on_with_what_is_offered(
    current: &str,
    directory: &str,
    tag: &str,
    release: ReleaseInfo,
    decided: Decision,
    written: String,
    out: (Search, SearchAction),
)
    requires
        tag@ == release.tag@,
        call_ensures(decide, (current, tag), decided),
        decided matches Decision::PublishedIsPrerelease(v) ==> call_ensures(
            format_version,
            (&v,),
            written,
        ),
        call_ensures(
            run,
            (Search::Asking, SearchEvent::Release(Ok(release)), current, directory),
            out,
        ),
    ensures
        decided is Available <==> out.1 is CreateDirectory,
        decided is Available ==> out.0 == Search::Creating(release),
        decided is UpToDate ==> ends_with(out, CheckOutcome::UpToDate, false),
        decided is CurrentIsNewer ==> ends_with(out, CheckOutcome::CurrentIsNewer, false),
        decided is Unrecognized ==> ends_with(out, CheckOutcome::Unrecognized, false),
        decided is PublishedIsPrerelease ==> out.0 is Finished && out.1 is Finish
            && out.1->outcome is PublishedIsPrerelease && !out.1->remove_download && (
        out.1->outcome)->PublishedIsPrerelease_0@ == written@,
{
}

/// Where the running and the published version are written by their numbers, the
/// search goes on exactly where the published numbers are above.
pub proof fn the_search_goes_on_with_higher_numbers(
    cur: (nat, nat, nat),
    new: (nat, nat, nat),
    current: &str,
    directory: &str,
    tag: &str,
    release: ReleaseInfo,
    decided: Decision,
    out: (Search, SearchAction),
)
    requires
        cur.0 <= u64::MAX && cur.1 <= u64::MAX && cur.2 <= u64::MAX,
        new.0 <= u64::MAX && new.1 <= u64::MAX && new.2 <= u64::MAX,
        current@ == numbered(false, cur.0, cur.1, cur.2),
        tag@ == numbered(true, new.0, new.1, new.2),
        tag@ == release.tag@,
        call_ensures(decide, (current, tag), decided),
        call_ensures(
            run,
            (Search::Asking, SearchEvent::Release(Ok(release)), current, directory),
            out,
        ),
    ensures
        out.1 is CreateDirectory <==> is_above(new, cur),
        cur == new ==> ends_with(out, CheckOutcome::UpToDate, false),
        is_above(cur, new) ==> ends_with(out, CheckOutcome::CurrentIsNewer, false),
{
    a_release_is_offered_where_its_numbers_are_above(false, cur, true, new, current, tag, decided);
}

/// Every step that went well is followed by the next one, on the same release: the
/// directory, the download from the address of the release, the signature, the final
/// name, the end.
pub proof fn every_step_is_followed_by_the_next(
    release: ReleaseInfo,
    current: &str,
    directory: &str,
    outs: (
        (Search, SearchAction),
        (Search, SearchAction),
        (Search, SearchAction),
        (Search, SearchAction),
    ),
)
    requires
        call_ensures(
            run,
            (Search::Creating(release), SearchEvent::Created(Ok(())), current, directory),
            outs.0,
        ),
        call_ensures(
            run,
            (Search::Downloading(release), SearchEvent::Downloaded(Ok(())), current, directory),
            outs.1,
        ),
        call_ensures(
            run,
            (Search::Verifying(release), SearchEvent::Verified(Ok(())), current, directory),
            outs.2,
        ),
        call_ensures(
            run,
            (Search::Storing(release), SearchEvent::Stored(Ok(())), current, directory),
            outs.3,
        ),
    ensures
        ({
            let (created, downloaded, verified, stored) = outs;
            &&& created.0 == Search::Downloading(release)
            &&& created.1 is Download && created.1->Download_0@ == release.asset_url@
            &&& downloaded == (Search::Verifying(release), SearchAction::Verify)
            &&& verified == (Search::Storing(release), SearchAction::Store)
            &&& stored.0 is Finished && stored.1 is Finish && !stored.1->remove_download
            &&& stored.1->outcome is StagedForNextLaunch
            &&& (stored.1->outcome)->StagedForNextLaunch_tag@ == release.tag@
        }),
{
}

/// Every step that failed ends the search, tells why, and removes the file once the
/// download has begun.
pub proof fn every_failed_step_ends_the_search(
    release: ReleaseInfo,
    why: String,
    current: &str,
    directory: &str,
    asked: (Search, SearchAction),
    outs: (
        (Search, SearchAction),
        (Search, SearchAction),
        (Search, SearchAction),
        (Search, SearchAction),
    ),
)
    requires
        call_ensures(
            run,
            (Search::Asking, SearchEvent::Release(Err(why)), current, directory),
            asked,
        ),
        call_ensures(
            run,
            (Search::Creating(release), SearchEvent::Created(Err(why)), current, directory),
            outs.0,
        ),
        call_ensures(
            run,
            (Search::Downloading(release), SearchEvent::Downloaded(Err(why)), current, directory),
            outs.1,
        ),
        call_ensures(
            run,
            (Search::Verifying(release), SearchEvent::Verified(Err(why)), current, directory),
            outs.2,
        ),
        call_ensures(
            run,
            (Search::Storing(release), SearchEvent::Stored(Err(why)), current, directory),
            outs.3,
        ),
    ensures
        ({
            let (created, downloaded, verified, stored) = outs;
            &&& fails_with(asked, why@, false)
            &&& fails_with(created, "не создать "@ + directory@ + ": "@ + why@, false)
            &&& fails_with(downloaded, "скачивание обновления не удалось: "@ + why@, true)
            &&& fails_with(
                stored,
                "скачанный файл прошёл проверку подписи, но не отложился: "@ + why@,
                true,
            )
            &&& verified.0 is Finished && verified.1 is Finish && verified.1->remove_download
            &&& verified.1->outcome matches CheckOutcome::RefusedUnsigned { tag, reason }
            &&& tag@ == release.tag@ && reason@ == why@
        }),
{
}

/// An event that does not belong to the state changes nothing.
pub proof fn an_event_out_of_turn_is_ignored(
    state: Search,
    event: SearchEvent,
    current: &str,
    directory: &str,
    out: (Search, SearchAction),
)
    requires
        call_ensures(run, (state, event, current, directory), out),
        state is Asking ==> !(event is Release),
        state is Creating ==> !(event is Created),
        state is Downloading ==> !(event is Downloaded),
        state is Verifying ==> !(event is Verified),
        state is Storing ==> !(event is Stored),
    ensures
        out == (state, SearchAction::Ignore),
{
}

/// A search that panicked or took too long has failed, and says so.
pub proof fn a_search_that_did_not_end_has_failed(result: Waited, out: CheckOutcome)
    requires
        call_ensures(waited, (result,), out),
    ensures
        result matches Waited::Outcome(o) ==> out == o,
        result is Panicked ==> out is Failed && out->Failed_0@
            == "проверка обновлений завершилась паникой"@,
        result matches Waited::TimedOut(time) ==> out is Failed && out->Failed_0@
            == "проверка обновлений не уложилась в "@ + time@ + " — сеть недоступна или медленная"@,
{
}

/// The names under which a file is kept, and how long the network may take.
pub proof fn the_names_of_the_files()
    ensures
        PARTIAL_NAME@ == "staged.exe.partial"@,
        STAGED_NAME@ == "staged.exe"@,
        PARTIAL_NAME@ == STAGED_NAME@ + ".partial"@,
        DEFAULT_TIMEOUT_SECS == 30,
{
    reveal_strlit("staged.exe.partial");
    reveal_strlit("staged.exe");
    reveal_strlit(".partial");
    assert(PARTIAL_NAME@ =~= STAGED_NAME@ + ".partial"@);
}

} // verus!
