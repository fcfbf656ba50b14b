//! What the program knows about the world: its configuration, the chosen mode,
//! the route that traffic takes, the network around it and the state of the
//! tunnel.

use vstd::prelude::*;
use vstd::string::*;

verus! {

// ---------------------------------------------------------------------------
// The state of the bridge
// ---------------------------------------------------------------------------

/// How the route is chosen.
#[derive(Debug, Clone, Copy, PartialEq, Eq, Structural)]
pub enum Mode {
    Auto,
    Socks,
    Http,
    Direct,
}

/// Whether an upstream answered the last probe.
#[derive(Debug, Clone, Copy, PartialEq, Eq, Structural)]
pub enum Reachability {
    Up,
    Down,
    Unknown,
}

/// Where the bridge sends traffic.
#[derive(Debug, Clone, PartialEq, Eq)]
pub enum Route {
    Direct,
    Socks(String),
    Http(String),
}

#[derive(Debug, Clone, Copy, PartialEq, Eq, Structural)]
pub struct Health {
    pub socks: Reachability,
    pub http: Reachability,
}

/// The network that the machine is in.
#[derive(Debug, Clone, PartialEq, Eq)]
pub struct Place {
    pub in_office: bool,
    pub network: Option<String>,
    pub network_name: Option<String>,
}

/// What the supervisor decided last.
#[derive(Debug, Clone, PartialEq, Eq)]
pub struct AppState {
    pub mode: Mode,
    pub route: Route,
    /// The mode asks for an upstream that does not answer, so that traffic goes
    /// direct.
    pub demoted: bool,
    pub place: Place,
    pub health: Health,
    /// The port that the bridge listens on.
    pub port: u16,
}

/// The name of the network to show: its own name where it has one, else its
/// identifier.
pub open spec fn shown_network(place: Place) -> Option<Seq<char>> {
    match (place.network_name, place.network) {
        (Some(name), _) if name@.len() > 0 => Some(name@),
        (_, Some(id)) => Some(id@),
        (_, None) => None,
    }
}

impl Place {
    /// The name of the network to show.
    pub fn shown_network(&self) -> (out: Option<&str>)
        ensures
            match out {
                Some(name) => shown_network(*self) == Some(name@),
                None => shown_network(*self) is None,
            },
    {
        if let Some(name) = &self.network_name {
            if !name.as_str().is_empty() {
                return Some(name.as_str());
            }
        }
        match &self.network {
            Some(id) => Some(id.as_str()),
            None => None,
        }
    }
}

// ---------------------------------------------------------------------------
// The configuration
// ---------------------------------------------------------------------------

/// A network that counts as the office.
#[derive(Debug, PartialEq, Eq)]
pub struct OfficeNetwork {
    pub id: String,
    pub name: String,
}

/// The proxy settings of the system.
#[derive(Debug, PartialEq, Eq)]
pub struct SysProxy {
    pub enabled: bool,
    pub server: String,
    pub bypass: String,
}

/// What a person has configured.
#[derive(Debug, PartialEq, Eq)]
pub struct Config {
    pub bridge_port: u16,
    pub mode: Mode,
    pub socks_upstream: Option<String>,
    pub http_upstream: Option<String>,
    pub no_proxy: String,
    pub manage_system_proxy: bool,
    pub office_networks: Vec<OfficeNetwork>,
    /// The subnets of the office, each in CIDR notation.
    pub office_subnets: Vec<String>,
    pub automate_tunnel: bool,
    pub check_for_updates: bool,
    /// The proxy settings of the system from before the program touched them.
    pub saved_sysproxy: Option<SysProxy>,
    pub max_connections: usize,
    pub dial_timeout_ms: u64,
    pub head_timeout_ms: u64,
}

#[verifier::ext_equal]
pub ghost struct OfficeNetworkView {
    pub id: Seq<char>,
    pub name: Seq<char>,
}

#[verifier::ext_equal]
pub ghost struct SysProxyView {
    pub enabled: bool,
    pub server: Seq<char>,
    pub bypass: Seq<char>,
}

#[verifier::ext_equal]
pub ghost struct ConfigView {
    pub bridge_port: u16,
    pub mode: Mode,
    pub socks_upstream: Option<Seq<char>>,
    pub http_upstream: Option<Seq<char>>,
    pub no_proxy: Seq<char>,
    pub manage_system_proxy: bool,
    pub office_networks: Seq<OfficeNetworkView>,
    pub office_subnets: Seq<Seq<char>>,
    pub automate_tunnel: bool,
    pub check_for_updates: bool,
    pub saved_sysproxy: Option<SysProxyView>,
    pub max_connections: usize,
    pub dial_timeout_ms: u64,
    pub head_timeout_ms: u64,
}

/// The text in an option.
pub open spec fn text_in(o: Option<String>) -> Option<Seq<char>> {
    match o {
        Some(s) => Some(s@),
        None => None,
    }
}

/// The texts in a list.
pub open spec fn texts(v: Seq<String>) -> Seq<Seq<char>> {
    v.map_values(|s: String| s@)
}

/// The networks in a list.
pub open spec fn networks(v: Seq<OfficeNetwork>) -> Seq<OfficeNetworkView> {
    v.map_values(|n: OfficeNetwork| n@)
}

impl View for OfficeNetwork {
    type V = OfficeNetworkView;

    open spec fn view(&self) -> OfficeNetworkView {
        OfficeNetworkView { id: self.id@, name: self.name@ }
    }
}

impl View for SysProxy {
    type V = SysProxyView;

    open spec fn view(&self) -> SysProxyView {
        SysProxyView { enabled: self.enabled, server: self.server@, bypass: self.bypass@ }
    }
}

/// The settings in an option.
pub open spec fn settings_in(o: Option<SysProxy>) -> Option<SysProxyView> {
    match o {
        Some(s) => Some(s@),
        None => None,
    }
}

impl View for Config {
    type V = ConfigView;

    open spec fn view(&self) -> ConfigView {
        ConfigView {
            bridge_port: self.bridge_port,
            mode: self.mode,
            socks_upstream: text_in(self.socks_upstream),
            http_upstream: text_in(self.http_upstream),
            no_proxy: self.no_proxy@,
            manage_system_proxy: self.manage_system_proxy,
            office_networks: networks(self.office_networks@),
            office_subnets: texts(self.office_subnets@),
            automate_tunnel: self.automate_tunnel,
            check_for_updates: self.check_for_updates,
            saved_sysproxy: settings_in(self.saved_sysproxy),
            max_connections: self.max_connections,
            dial_timeout_ms: self.dial_timeout_ms,
            head_timeout_ms: self.head_timeout_ms,
        }
    }
}

/// A copy of a text in an option.
pub fn copy_text(o: &Option<String>) -> (out: Option<String>)
    ensures
        text_in(out) == text_in(*o),
{
    match o {
        Some(s) => Some(s.clone()),
        None => None,
    }
}

/// A copy of a list of texts.
pub fn copy_texts(v: &Vec<String>) -> (out: Vec<String>)
    ensures
        texts(out@) == texts(v@),
{
    let mut out: Vec<String> = Vec::new();
    let mut i: usize = 0;
    while i < v.len()
        invariant
            i <= v@.len(),
            out@.len() == i,
            forall|k: int| 0 <= k < i ==> (#[trigger] out@[k])@ == v@[k]@,
        decreases v.len() - i,
    {
        out.push(v[i].clone());
        i += 1;
    }
    assert(texts(out@) =~= texts(v@));
    out
}

impl Clone for OfficeNetwork {
    fn clone(&self) -> (out: Self)
        ensures
            out@ == self@,
    {
        OfficeNetwork { id: self.id.clone(), name: self.name.clone() }
    }
}

impl Clone for SysProxy {
    fn clone(&self) -> (out: Self)
        ensures
            out@ == self@,
    {
        SysProxy {
            enabled: self.enabled,
            server: self.server.clone(),
            bypass: self.bypass.clone(),
        }
    }
}

impl Default for SysProxy {
    /// A proxy that is switched off and points nowhere.
    fn default() -> (out: Self)
        ensures
            out@ == (SysProxyView { enabled: false, server: Seq::empty(), bypass: Seq::empty() }),
    {
        SysProxy { enabled: false, server: String::new(), bypass: String::new() }
    }
}

impl Clone for Config {
    fn clone(&self) -> (out: Self)
        ensures
            out@ == self@,
    {
        let mut office_networks: Vec<OfficeNetwork> = Vec::new();
        let mut i: usize = 0;
        while i < self.office_networks.len()
            invariant
                i <= self.office_networks@.len(),
                office_networks@.len() == i,
                forall|k: int|
                    0 <= k < i ==> (#[trigger] office_networks@[k])@ == self.office_networks@[k]@,
            decreases self.office_networks.len() - i,
        {
            office_networks.push(self.office_networks[i].clone());
            i += 1;
        }
        assert(networks(office_networks@) =~= networks(self.office_networks@));
        let saved_sysproxy = match &self.saved_sysproxy {
            Some(saved) => Some(saved.clone()),
            None => None,
        };
        Config {
            bridge_port: self.bridge_port,
            mode: self.mode,
            socks_upstream: copy_text(&self.socks_upstream),
            http_upstream: copy_text(&self.http_upstream),
            no_proxy: self.no_proxy.clone(),
            manage_system_proxy: self.manage_system_proxy,
            office_networks,
            office_subnets: copy_texts(&self.office_subnets),
            automate_tunnel: self.automate_tunnel,
            check_for_updates: self.check_for_updates,
            saved_sysproxy,
            max_connections: self.max_connections,
            dial_timeout_ms: self.dial_timeout_ms,
            head_timeout_ms: self.head_timeout_ms,
        }
    }
}

// ---------------------------------------------------------------------------
// Laws
// ---------------------------------------------------------------------------

/// Two optional texts are the same.
pub open spec fn same_optional(a: Option<String>, b: Option<String>) -> bool {
    match (a, b) {
        (Some(x), Some(y)) => x@ == y@,
        (None, None) => true,
        _ => false,
    }
}

/// What no form of the page owns is the same in two configurations.
pub open spec fn same_beside_the_form(a: Config, b: Config) -> bool {
    &&& a.mode == b.mode
    &&& a.office_subnets@.len() == b.office_subnets@.len()
    &&& forall|i: int|
        0 <= i < a.office_subnets@.len() ==> (#[trigger] a.office_subnets@[i])@
            == b.office_subnets@[i]@
    &&& a.check_for_updates == b.check_for_updates
    &&& a.max_connections == b.max_connections
    &&& a.dial_timeout_ms == b.dial_timeout_ms
    &&& a.head_timeout_ms == b.head_timeout_ms
    &&& match (a.saved_sysproxy, b.saved_sysproxy) {
        (Some(x), Some(y)) => x.enabled == y.enabled && x.server@ == y.server@ && x.bypass@
            == y.bypass@,
        (None, None) => true,
        _ => false,
    }
}

/// What a form of the page owns is the same in two configurations.
pub open spec fn same_in_the_form(a: Config, b: Config) -> bool {
    &&& a.bridge_port == b.bridge_port
    &&& same_optional(a.socks_upstream, b.socks_upstream)
    &&& same_optional(a.http_upstream, b.http_upstream)
    &&& a.no_proxy@ == b.no_proxy@
    &&& a.manage_system_proxy == b.manage_system_proxy
    &&& a.automate_tunnel == b.automate_tunnel
    &&& a.office_networks@.len() == b.office_networks@.len()
    &&& forall|i: int|
        0 <= i < a.office_networks@.len() ==> (#[trigger] a.office_networks@[i]).id@
            == b.office_networks@[i].id@ && a.office_networks@[i].name@ == b.office_networks@[i].name@
}

/// Two configurations are told apart by their views exactly where they differ in
/// a field.
pub proof fn the_view_tells_configurations_apart(a: Config, b: Config)
    ensures
        a@ == b@ <==> same_beside_the_form(a, b) && same_in_the_form(a, b),
{
    let (x, y) = (texts(a.office_subnets@), texts(b.office_subnets@));
    let (v, w) = (networks(a.office_networks@), networks(b.office_networks@));
    assert(x.len() == a.office_subnets@.len() && y.len() == b.office_subnets@.len());
    assert(v.len() == a.office_networks@.len() && w.len() == b.office_networks@.len());
    assert forall|i: int| 0 <= i < x.len() implies (#[trigger] a.office_subnets@[i])@ == x[i] by {}
    assert forall|i: int| 0 <= i < v.len() implies (#[trigger] a.office_networks@[i])@
        == v[i] by {}
    if a@ == b@ {
        assert(x == y && v == w);
        assert forall|i: int| 0 <= i < x.len() implies (#[trigger] a.office_subnets@[i])@
            == b.office_subnets@[i]@ by {
            assert(y[i] == b.office_subnets@[i]@);
        }
        assert forall|i: int| 0 <= i < v.len() implies (#[trigger] a.office_networks@[i]).id@
            == b.office_networks@[i].id@ && a.office_networks@[i].name@
            == b.office_networks@[i].name@ by {
            assert(w[i] == b.office_networks@[i]@);
            assert(v[i] == a.office_networks@[i]@);
        }
    }
    if same_beside_the_form(a, b) && same_in_the_form(a, b) {
        assert(x =~= y);
        assert(v =~= w);
        assert(a@ =~= b@);
    }
}

/// A copy of a configuration is the configuration.
pub proof fn a_copied_configuration_is_the_same(a: &Config, b: Config)
    requires
        call_ensures(Config::clone, (a,), b),
    ensures
        same_beside_the_form(*a, b),
        same_in_the_form(*a, b),
{
    the_view_tells_configurations_apart(*a, b);
}

/// A network is shown by its name, and by its identifier where it has no name or
/// an empty one.
pub proof fn a_network_is_shown_by_its_name(place: &Place, out: Option<&str>)
    requires
        call_ensures(Place::shown_network, (place,), out),
    ensures
        place.network_name matches Some(name) && name@.len() > 0 ==> out is Some && out->0@
            == place.network_name->0@,
        (place.network_name is None || place.network_name->0@.len() == 0) && place.network is Some
            ==> out is Some && out->0@ == place.network->0@,
        out is None <==> place.network is None && (place.network_name is None
            || place.network_name->0@.len() == 0),
{
}

/// A copy of texts has the same texts.
pub proof fn copied_texts_are_the_same(
    o: &Option<String>,
    v: &Vec<String>,
    outs: (Option<String>, Vec<String>),
    i: int,
)
    requires
        call_ensures(copy_text, (o,), outs.0),
        call_ensures(copy_texts, (v,), outs.1),
    ensures
        same_optional(*o, outs.0),
        outs.1@.len() == v@.len(),
        0 <= i < v@.len() ==> outs.1@[i]@ == v@[i]@,
{
    assert(texts(outs.1@).len() == outs.1@.len() && texts(v@).len() == v@.len());
    if 0 <= i < v@.len() {
        assert(texts(outs.1@)[i] == outs.1@[i]@ && texts(v@)[i] == v@[i]@);
    }
}

/// Settings of the system that say nothing are off, and name neither a server nor an
/// exception.
pub proof fn settings_that_say_nothing_are_off(out: SysProxy)
    requires
        call_ensures(SysProxy::default, (), out),
    ensures
        !out.enabled,
        out.server@.len() == 0,
        out.bypass@.len() == 0,
{
}

} // verus!
