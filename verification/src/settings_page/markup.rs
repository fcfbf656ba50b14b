//! What people write changes no markup: the tags and the attributes of the page
//! are the same whatever stands in the texts that are put into it.

use vstd::prelude::*;
use crate::doctor::{checks_in, CheckView};
use crate::model::{text_in, AppState, ConfigView, OfficeNetworkView};
use crate::settings_page::page::{actions_html, autostart_html, bypass_html, form_html};
use crate::settings_page::page::{networks_html, notes_html, notes_in, now_html, office_button_html};
use crate::settings_page::page::{outcome_bench_html, outcome_doctor_html, outcome_notes_html};
use crate::settings_page::page::{page_html, system_html, upstreams_html, NoteView, Outcome};
use crate::settings_page::parts::{bench_row_html, bench_rows_html, check_rows_html, escaped};
use crate::settings_page::parts::{escaped_text_is_inert, is_markup, is_set, office_rows_html};
use crate::settings_page::parts::{subnets_html, tunnel_html, tunnel_state_html, tunnel_words_html};
use crate::settings_page::parts::BenchResult;
use crate::tunnel::{tunnel_status, TunnelSnapshot, TunnelStatus};

verus! {

/// The characters of a text that open or close a tag or an attribute, in order.
pub open spec fn markup(s: Seq<char>) -> Seq<char>
    decreases s.len(),
{
    if s.len() == 0 {
        Seq::empty()
    } else if is_markup(s.last()) {
        markup(s.drop_last()).push(s.last())
    } else {
        markup(s.drop_last())
    }
}

broadcast proof fn lemma_markup_of_both(a: Seq<char>, b: Seq<char>)
    ensures
        #[trigger] markup(a + b) == markup(a) + markup(b),
    decreases b.len(),
{
    if b.len() == 0 {
        assert(a + b =~= a);
        assert(markup(a) + markup(b) =~= markup(a));
    } else {
        assert((a + b).drop_last() =~= a + b.drop_last());
        lemma_markup_of_both(a, b.drop_last());
        assert(markup(a) + markup(b.drop_last()).push(b.last()) =~= (markup(a) + markup(
            b.drop_last(),
        )).push(b.last()));
    }
}

proof fn lemma_no_markup(s: Seq<char>)
    requires
        forall|i: int| 0 <= i < s.len() ==> !is_markup(#[trigger] s[i]),
    ensures
        markup(s) == Seq::<char>::empty(),
    decreases s.len(),
{
    if s.len() > 0 {
        let rest = s.drop_last();
        assert forall|i: int| 0 <= i < rest.len() implies !is_markup(#[trigger] rest[i]) by {
            assert(rest[i] == s[i]);
        }
        lemma_no_markup(rest);
        assert(!is_markup(s[s.len() - 1]));
    }
}

broadcast proof fn lemma_escaped_has_no_markup(s: Seq<char>)
    ensures
        #[trigger] markup(escaped(s)) == Seq::<char>::empty(),
{
    escaped_text_is_inert(s);
    lemma_no_markup(escaped(s));
}

broadcast group group_markup {
    lemma_markup_of_both,
    lemma_escaped_has_no_markup,
}

/// The two differ in texts alone: an upstream that is set stays set, and there
/// are as many office networks, and subnets or none.
pub open spec fn same_config(a: ConfigView, b: ConfigView) -> bool {
    &&& a.bridge_port == b.bridge_port
    &&& is_set(a.socks_upstream) == is_set(b.socks_upstream)
    &&& is_set(a.http_upstream) == is_set(b.http_upstream)
    &&& a.manage_system_proxy == b.manage_system_proxy
    &&& a.automate_tunnel == b.automate_tunnel
    &&& a.office_networks.len() == b.office_networks.len()
    &&& (a.office_subnets.len() == 0) == (b.office_subnets.len() == 0)
}

/// The two differ in the mode, the route and the names of the network alone.
pub open spec fn same_state(a: AppState, b: AppState) -> bool {
    &&& a.port == b.port
    &&& a.health == b.health
    &&& (a.place.network is Some) == (b.place.network is Some)
}

/// The two differ in the reason alone.
pub open spec fn same_autostart(a: Result<bool, String>, b: Result<bool, String>) -> bool {
    match (a, b) {
        (Ok(x), Ok(y)) => x == y,
        (Err(x), Err(y)) => (x@.len() == 0) == (y@.len() == 0),
        _ => false,
    }
}

/// The two differ in the reason alone.
pub open spec fn same_tunnel(a: TunnelSnapshot, b: TunnelSnapshot) -> bool {
    &&& a.profile_installed == b.profile_installed
    &&& a.installed == b.installed
    &&& match (tunnel_status(a), tunnel_status(b)) {
        (TunnelStatus::Unknown(_), TunnelStatus::Unknown(_)) => true,
        (TunnelStatus::Unchecked(_), TunnelStatus::Unchecked(_)) => true,
        (x, y) => x == y,
    }
}

pub open spec fn same_notes(a: Seq<NoteView>, b: Seq<NoteView>) -> bool {
    &&& a.len() == b.len()
    &&& forall|i: int| 0 <= i < a.len() ==> (#[trigger] a[i]).bad == b[i].bad
}

pub open spec fn same_checks(a: Seq<CheckView>, b: Seq<CheckView>) -> bool {
    &&& a.len() == b.len()
    &&& forall|i: int| 0 <= i < a.len() ==> (#[trigger] a[i]).status == b[i].status
}

/// The two measured routes differ in texts alone, and both or neither is the
/// fastest of its report.
pub open spec fn same_result(
    a: BenchResult,
    best_of_a: Option<Seq<char>>,
    b: BenchResult,
    best_of_b: Option<Seq<char>>,
) -> bool {
    &&& a.bytes == b.bytes
    &&& (a.error is Some) == (b.error is Some)
    &&& (best_of_a == Some(a.label@)) == (best_of_b == Some(b.label@))
}

pub open spec fn same_results(
    a: Seq<BenchResult>,
    best_of_a: Option<Seq<char>>,
    b: Seq<BenchResult>,
    best_of_b: Option<Seq<char>>,
) -> bool {
    &&& a.len() == b.len()
    &&& forall|i: int|
        0 <= i < a.len() ==> same_result(#[trigger] a[i], best_of_a, b[i], best_of_b)
}

/// The two show as many notes, results and checks, of the same kind.
pub open spec fn same_outcome(a: Option<&Outcome>, b: Option<&Outcome>) -> bool {
    match (a, b) {
        (None, None) => true,
        (Some(x), Some(y)) => {
            &&& same_notes(notes_in(x.notes@), notes_in(y.notes@))
            &&& match (x.bench, y.bench) {
                (None, None) => true,
                (Some(r), Some(s)) => same_results(
                    r.results@,
                    text_in(r.best),
                    s.results@,
                    text_in(s.best),
                ),
                _ => false,
            }
            &&& match (x.doctor, y.doctor) {
                (None, None) => true,
                (Some(r), Some(s)) => same_checks(checks_in(r@), checks_in(s@)),
                _ => false,
            }
        },
        _ => false,
    }
}

proof fn lemma_rows(a: Seq<OfficeNetworkView>, b: Seq<OfficeNetworkView>)
    requires
        a.len() == b.len(),
    ensures
        markup(office_rows_html(a)) == markup(office_rows_html(b)),
    decreases a.len(),
{
    broadcast use group_markup;

    if a.len() > 0 {
        lemma_rows(a.drop_last(), b.drop_last());
    }
}

proof fn lemma_notes(a: Seq<NoteView>, b: Seq<NoteView>)
    requires
        same_notes(a, b),
    ensures
        markup(notes_html(a)) == markup(notes_html(b)),
    decreases a.len(),
{
    broadcast use group_markup;

    if a.len() > 0 {
        assert(same_notes(a.drop_last(), b.drop_last())) by {
            assert forall|i: int| 0 <= i < a.len() - 1 implies (#[trigger] a.drop_last()[i]).bad
                == b.drop_last()[i].bad by {
                assert(a[i].bad == b[i].bad);
            }
        }
        lemma_notes(a.drop_last(), b.drop_last());
        assert(a[a.len() - 1].bad == b[b.len() - 1].bad);
    }
}

proof fn lemma_checks(a: Seq<CheckView>, b: Seq<CheckView>)
    requires
        same_checks(a, b),
    ensures
        markup(check_rows_html(a)) == markup(check_rows_html(b)),
    decreases a.len(),
{
    broadcast use group_markup;

    if a.len() > 0 {
        assert(same_checks(a.drop_last(), b.drop_last())) by {
            assert forall|i: int| 0 <= i < a.len() - 1 implies (#[trigger] a.drop_last()[i]).status
                == b.drop_last()[i].status by {
                assert(a[i].status == b[i].status);
            }
        }
        lemma_checks(a.drop_last(), b.drop_last());
        assert(a[a.len() - 1].status == b[b.len() - 1].status);
    }
}

proof fn lemma_results(
    a: Seq<BenchResult>,
    best_of_a: Option<Seq<char>>,
    b: Seq<BenchResult>,
    best_of_b: Option<Seq<char>>,
)
    requires
        same_results(a, best_of_a, b, best_of_b),
    ensures
        markup(bench_rows_html(a, best_of_a)) == markup(bench_rows_html(b, best_of_b)),
    decreases a.len(),
{
    broadcast use group_markup;

    if a.len() > 0 {
        let (before_a, before_b) = (a.drop_last(), b.drop_last());
        assert(same_results(before_a, best_of_a, before_b, best_of_b)) by {
            assert forall|i: int| 0 <= i < before_a.len() implies same_result(
                #[trigger] before_a[i],
                best_of_a,
                before_b[i],
                best_of_b,
            ) by {
                assert(same_result(a[i], best_of_a, b[i], best_of_b));
            }
        }
        lemma_results(before_a, best_of_a, before_b, best_of_b);
        assert(same_result(a[a.len() - 1], best_of_a, b[b.len() - 1], best_of_b));
        assert(markup(bench_row_html(a.last(), best_of_a)) == markup(
            bench_row_html(b.last(), best_of_b),
        ));
    }
}

proof fn lemma_outcome(a: Option<&Outcome>, b: Option<&Outcome>)
    requires
        same_outcome(a, b),
    ensures
        markup(outcome_notes_html(a)) == markup(outcome_notes_html(b)),
        markup(outcome_bench_html(a)) == markup(outcome_bench_html(b)),
        markup(outcome_doctor_html(a)) == markup(outcome_doctor_html(b)),
{
    broadcast use group_markup;

    if let (Some(x), Some(y)) = (a, b) {
        lemma_notes(notes_in(x.notes@), notes_in(y.notes@));
        if let (Some(r), Some(s)) = (x.bench, y.bench) {
            lemma_results(r.results@, text_in(r.best), s.results@, text_in(s.best));
        }
        if let (Some(r), Some(s)) = (x.doctor, y.doctor) {
            lemma_checks(checks_in(r@), checks_in(s@));
        }
    }
}

proof fn lemma_tunnel(subnets_a: Seq<Seq<char>>, a: TunnelSnapshot, subnets_b: Seq<Seq<char>>, b:
    TunnelSnapshot)
    requires
        same_tunnel(a, b),
        (subnets_a.len() == 0) == (subnets_b.len() == 0),
    ensures
        markup(tunnel_html(subnets_a, a)) == markup(tunnel_html(subnets_b, b)),
{
    broadcast use group_markup;

    let (s, t) = (tunnel_status(a), tunnel_status(b));
    assert(markup(tunnel_words_html(s)) == markup(tunnel_words_html(t)));
    assert(markup(tunnel_state_html(s, a.profile_installed)) == markup(
        tunnel_state_html(t, b.profile_installed),
    ));
    assert(markup(subnets_html(subnets_a)) == markup(subnets_html(subnets_b)));
}

proof fn lemma_form(
    state_a: AppState,
    config_a: ConfigView,
    autostart_a: Result<bool, String>,
    state_b: AppState,
    config_b: ConfigView,
    autostart_b: Result<bool, String>,
    bound_port: u16,
)
    requires
        same_state(state_a, state_b),
        same_config(config_a, config_b),
        same_autostart(autostart_a, autostart_b),
    ensures
        markup(form_html(state_a, config_a, bound_port, autostart_a)) == markup(
            form_html(state_b, config_b, bound_port, autostart_b),
        ),
{
    broadcast use group_markup;

    assert(markup(upstreams_html(state_a, config_a)) == markup(upstreams_html(state_b, config_b)));
    lemma_rows(config_a.office_networks, config_b.office_networks);
    assert(markup(networks_html(config_a)) == markup(networks_html(config_b)));
    assert(markup(bypass_html(config_a)) == markup(bypass_html(config_b)));
    assert(markup(autostart_html(autostart_a)) == markup(autostart_html(autostart_b)));
    assert(markup(system_html(config_a, autostart_a)) == markup(
        system_html(config_b, autostart_b),
    ));
    assert(markup(office_button_html(state_a.place)) == markup(office_button_html(state_b.place)));
}

/// Two pages that differ in nothing but texts — addresses, lists, the names of
/// networks, reasons, notes — have the same tags and attributes, character by
/// character.
pub proof fn what_people_write_changes_no_markup(
    state_a: AppState,
    config_a: ConfigView,
    autostart_a: Result<bool, String>,
    tunnel_a: TunnelSnapshot,
    outcome_a: Option<&Outcome>,
    state_b: AppState,
    config_b: ConfigView,
    autostart_b: Result<bool, String>,
    tunnel_b: TunnelSnapshot,
    outcome_b: Option<&Outcome>,
    bound_port: u16,
)
    requires
        same_state(state_a, state_b),
        same_config(config_a, config_b),
        same_autostart(autostart_a, autostart_b),
        same_tunnel(tunnel_a, tunnel_b),
        same_outcome(outcome_a, outcome_b),
    ensures
        markup(page_html(state_a, config_a, bound_port, autostart_a, tunnel_a, outcome_a))
            == markup(page_html(state_b, config_b, bound_port, autostart_b, tunnel_b, outcome_b)),
{
    broadcast use group_markup;

    lemma_outcome(outcome_a, outcome_b);
    lemma_form(
        state_a,
        config_a,
        autostart_a,
        state_b,
        config_b,
        autostart_b,
        bound_port,
    );
    lemma_tunnel(config_a.office_subnets, tunnel_a, config_b.office_subnets, tunnel_b);
    assert(markup(now_html(state_a, outcome_a)) == markup(now_html(state_b, outcome_b)));
    assert(markup(actions_html(config_a, tunnel_a, outcome_a)) == markup(
        actions_html(config_b, tunnel_b, outcome_b),
    ));
}

} // verus!
