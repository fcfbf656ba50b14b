//! The OpenVPN tunnel to the office: what is known of it and what that means.

use vstd::prelude::*;
use vstd::string::*;
use crate::model::text_in;

verus! {

/// The name of the profile in OpenVPN. It is the name of the profile's file, of
/// its log and of the connection.
pub const TUNNEL_PROFILE_NAME: &'static str = "proxypilot-office";

/// Access to the tunnel and to the service that keeps the address static.
pub trait Tunnel: Send + Sync {
    /// Looks at the system without changing it.
    fn snapshot(&self, office_subnets: &Vec<String>, profile_name: &str) -> TunnelSnapshot;

    /// Writes the profile into OpenVPN's own directory.
    fn build_profile(&self, profile_name: &str, office_subnets: &Vec<String>) -> Result<
        (),
        String,
    >;

    /// Success means that the command was handed over, not that the tunnel is
    /// up.
    fn raise(&self, profile_name: &str) -> Result<(), String>;

    fn lower(&self, profile_name: &str) -> Result<(), String>;

    /// Success means that the request went to the system, not that the service
    /// is installed.
    fn install_service(&self) -> Result<(), String>;
}

/// What is known of the tunnel.
///
/// Two sources answer independently and can fail independently: the log of the
/// connection and the table of routes.
#[derive(Debug, Clone, PartialEq, Eq)]
pub struct TunnelSnapshot {
    /// OpenVPN is on this machine. Without it the other fields mean nothing.
    pub installed: bool,
    /// The file of the profile is there.
    pub profile_installed: bool,
    /// The log and the routes both say that the tunnel is up.
    pub our_tunnel_up: bool,
    /// The log says that the tunnel is up, the routes are not there yet.
    pub rising: bool,
    /// Why it is not known whether the tunnel is up.
    pub liveness_error: Option<String>,
    /// Some tunnel carries the office subnets, and the log says it is not ours.
    pub foreign_tunnel_up: bool,
    /// Why the routes could not be read, while the log says "down".
    pub routes_error: Option<String>,
}

impl Default for TunnelSnapshot {
    fn default() -> (out: Self)
        ensures
            !out.installed,
            !out.profile_installed,
            !out.our_tunnel_up,
            !out.rising,
            out.liveness_error is None,
            !out.foreign_tunnel_up,
            out.routes_error is None,
    {
        TunnelSnapshot {
            installed: false,
            profile_installed: false,
            our_tunnel_up: false,
            rising: false,
            liveness_error: None,
            foreign_tunnel_up: false,
            routes_error: None,
        }
    }
}

/// What a snapshot says, in one word.
pub ghost enum TunnelStatus {
    NotInstalled,
    /// It is not known whether the tunnel is up, for this reason.
    Unknown(Seq<char>),
    Up,
    Rising,
    /// The tunnel is down, and the routes could not be read for this reason.
    Unchecked(Seq<char>),
    /// The tunnel is down, and something else carries the office subnets.
    Occupied,
    Down,
}

/// What a snapshot says. What the log confirmed outweighs any guess from the
/// routes: else our own tunnel could be taken for somebody else's and could not
/// be lowered any more.
pub open spec fn tunnel_status(snap: TunnelSnapshot) -> TunnelStatus {
    if !snap.installed {
        TunnelStatus::NotInstalled
    } else if let Some(e) = snap.liveness_error {
        TunnelStatus::Unknown(e@)
    } else if snap.our_tunnel_up {
        TunnelStatus::Up
    } else if snap.rising {
        TunnelStatus::Rising
    } else if let Some(e) = snap.routes_error {
        TunnelStatus::Unchecked(e@)
    } else if snap.foreign_tunnel_up {
        TunnelStatus::Occupied
    } else {
        TunnelStatus::Down
    }
}

/// What a source of facts said: yes, no, or why it could not answer.
pub open spec fn answer(r: Result<bool, String>) -> Result<bool, Seq<char>> {
    match r {
        Ok(b) => Ok(b),
        Err(e) => Err(e@),
    }
}

/// What the log and the routes say together.
#[verifier::ext_equal]
pub ghost struct TunnelFacts {
    pub our_tunnel_up: bool,
    pub rising: bool,
    pub foreign_tunnel_up: bool,
    pub liveness_error: Option<Seq<char>>,
    pub routes_error: Option<Seq<char>>,
}

/// The two sources put together. The log alone is not believed when it says
/// "up": a process that was killed leaves such a log behind.
pub open spec fn tunnel_facts(
    log_up: Result<bool, Seq<char>>,
    carries: Result<bool, Seq<char>>,
) -> TunnelFacts {
    TunnelFacts {
        our_tunnel_up: log_up == Ok::<bool, Seq<char>>(true) && carries == Ok::<bool, Seq<char>>(
            true,
        ),
        rising: log_up == Ok::<bool, Seq<char>>(true) && carries == Ok::<bool, Seq<char>>(false),
        foreign_tunnel_up: log_up == Ok::<bool, Seq<char>>(false) && carries == Ok::<
            bool,
            Seq<char>,
        >(true),
        liveness_error: match (log_up, carries) {
            (Err(e), Ok(_)) => Some(e),
            (Err(e), Err(r)) => Some(e + "; и таблица маршрутов тоже не читается: "@ + r),
            (Ok(true), Err(r)) => Some(
                "лог утверждает, что туннель поднят, но подтвердить это таблицей маршрутов не удалось: "@
                    + r,
            ),
            _ => None,
        },
        routes_error: match (log_up, carries) {
            (Ok(false), Err(r)) => Some(r),
            _ => None,
        },
    }
}

/// Puts together what the log and the routes say. Returns whether our tunnel is
/// up, whether it is rising, whether another one is up, why the first is not
/// known and why the routes are not known.
pub fn combine_tunnel_facts(log_up: Result<bool, String>, carries: Result<bool, String>) -> (out: (
    bool,
    bool,
    bool,
    Option<String>,
    Option<String>,
))
    ensures
        tunnel_facts(answer(log_up), answer(carries)) == (TunnelFacts {
            our_tunnel_up: out.0,
            rising: out.1,
            foreign_tunnel_up: out.2,
            liveness_error: text_in(out.3),
            routes_error: text_in(out.4),
        }),
{
    match (log_up, carries) {
        (Ok(true), Ok(true)) => (true, false, false, None, None),
        (Ok(true), Ok(false)) => (false, true, false, None, None),
        (Ok(false), Ok(true)) => (false, false, true, None, None),
        (Ok(false), Ok(false)) => (false, false, false, None, None),
        (Ok(false), Err(e)) => (false, false, false, None, Some(e)),
        (Ok(true), Err(e)) => {
            let mut message =
                "лог утверждает, что туннель поднят, но подтвердить это таблицей маршрутов не удалось: ".to_owned();
            message.append(e.as_str());
            (false, false, false, Some(message), None)
        },
        (Err(e), Ok(_)) => (false, false, false, Some(e), None),
        (Err(e1), Err(e2)) => {
            let mut message = e1;
            message.append("; и таблица маршрутов тоже не читается: ");
            message.append(e2.as_str());
            (false, false, false, Some(message), None)
        },
    }
}

// ---------------------------------------------------------------------------
// Messages
// ---------------------------------------------------------------------------

/// The file that a profile is built from. A person puts it next to the profiles.
pub const TUNNEL_SOURCE_FILE: &'static str = "proxypilot-source.ovpn";

/// OpenVPN is not on this machine.
pub const OPENVPN_MISSING: &'static str = "OpenVPN не найден";

/// The file that a profile is built from could not be read.
pub fn source_missing(path: &str, why: &str) -> (out: String)
    ensures
        out@ == "не найден файл источника "@ + path@ + ": "@ + why@
            + ". Положите свой .ovpn (сертификаты, адрес сервера — то, что выдал администратор) \
                 туда под этим именем и нажмите «Собрать профиль» ещё раз."@,
{
    let mut out = "не найден файл источника ".to_owned();
    out.append(path);
    out.append(": ");
    out.append(why);
    out.append(
        ". Положите свой .ovpn (сертификаты, адрес сервера — то, что выдал администратор) \
                 туда под этим именем и нажмите «Собрать профиль» ещё раз.",
    );
    out
}

/// The tunnel is called ours only if both sources confirm it.
pub proof fn up_needs_both_sources(log_up: Result<bool, Seq<char>>, carries: Result<bool, Seq<char>>)
    ensures
        tunnel_facts(log_up, carries).our_tunnel_up <==> (log_up == Ok::<bool, Seq<char>>(true)
            && carries == Ok::<bool, Seq<char>>(true)),
{
}

/// A tunnel is called somebody else's only if the log was read and denies that
/// it is ours.
pub proof fn an_unreadable_log_blames_nobody(
    log_up: Result<bool, Seq<char>>,
    carries: Result<bool, Seq<char>>,
)
    requires
        log_up is Err,
    ensures
        !tunnel_facts(log_up, carries).foreign_tunnel_up,
        tunnel_facts(log_up, carries).liveness_error is Some,
{
}

/// Of "up", "rising", "somebody else's", "not known" and "routes not known" at
/// most one is said.
pub proof fn the_facts_exclude_each_other(
    log_up: Result<bool, Seq<char>>,
    carries: Result<bool, Seq<char>>,
)
    ensures
        ({
            let facts = tunnel_facts(log_up, carries);
            let unknown = facts.liveness_error is Some;
            let unchecked = facts.routes_error is Some;
            &&& facts.our_tunnel_up ==> !facts.rising && !facts.foreign_tunnel_up && !unknown
                && !unchecked
            &&& facts.rising ==> !facts.foreign_tunnel_up && !unknown && !unchecked
            &&& facts.foreign_tunnel_up ==> !unknown && !unchecked
            &&& unknown ==> !unchecked
        }),
{
}

/// What the two sources say together: the tunnel is ours where both say yes, on
/// its way where the log alone does, somebody else's where the routes alone do,
/// and where a source could not answer, its reason is told.
pub proof fn the_two_sources_are_put_together(
    log_up: Result<bool, String>,
    carries: Result<bool, String>,
    out: (bool, bool, bool, Option<String>, Option<String>),
)
    requires
        call_ensures(combine_tunnel_facts, (log_up, carries), out),
    ensures
        ({
            let (ours, rising, foreign, unknown, unchecked) = out;
            let yes = Ok::<bool, String>(true);
            let no = Ok::<bool, String>(false);
            &&& ours <==> log_up == yes && carries == yes
            &&& rising <==> log_up == yes && carries == no
            &&& foreign <==> log_up == no && carries == yes
            &&& unknown is Some <==> log_up is Err || (log_up == yes && carries is Err)
            &&& unchecked is Some <==> log_up == no && carries is Err
            &&& unchecked is Some ==> unchecked->0@ == carries->Err_0@
            &&& log_up is Err && carries is Ok ==> unknown->0@ == log_up->Err_0@
            &&& log_up is Err && carries is Err ==> unknown->0@ == log_up->Err_0@
                + "; и таблица маршрутов тоже не читается: "@ + carries->Err_0@
            &&& log_up == yes && carries is Err ==> unknown->0@
                == "лог утверждает, что туннель поднят, но подтвердить это таблицей маршрутов не удалось: "@
                + carries->Err_0@
        }),
{
}

/// A missing source is told with its path and what to do about it.
pub proof fn a_missing_source_is_told_with_its_path(path: &str, why: &str, out: String)
    requires
        call_ensures(source_missing, (path, why), out),
    ensures
        ("не найден файл источника "@ + path@ + ": "@ + why@).is_prefix_of(out@),
{
    let start = "не найден файл источника "@ + path@ + ": "@ + why@;
    assert(start =~= out@.subrange(0, start.len() as int));
}

/// The names of the profile and of the file that it is built from.
pub proof fn the_names_of_the_profile()
    ensures
        TUNNEL_PROFILE_NAME@ == "proxypilot-office"@,
        TUNNEL_SOURCE_FILE@ == "proxypilot-source.ovpn"@,
        OPENVPN_MISSING@ == "OpenVPN не найден"@,
{
}

/// Where nothing was seen, nothing is there and nothing failed.
pub proof fn nothing_seen_is_nothing_there(out: TunnelSnapshot)
    requires
        call_ensures(TunnelSnapshot::default, (), out),
    ensures
        !out.installed && !out.profile_installed,
        !out.our_tunnel_up && !out.rising && !out.foreign_tunnel_up,
        out.liveness_error is None && out.routes_error is None,
{
}

} // verus!
