//! What the user-space back end decides: which device an interface name means,
//! and what the WireGuard implementation is told about peers.

use crate::addr::{self, prefix_mask, Ipv6Addr, SocketAddr};
use crate::table::Table;
use crate::time::{self, SystemTime};
use crate::wg::types::{DeviceSpec, PeerSpec, PeerSpecModel, PeerStatus, WgError};
use vstd::prelude::*;

verus! {

/// How a device was opened.
#[derive(Clone, Copy, PartialEq, Eq, Debug, Structural)]
pub enum DeviceKind {
    /// As a TUN device with a name.
    Named,
    /// From a file descriptor.
    Fd,
}

impl View for DeviceKind {
    type V = DeviceKind;

    open spec fn view(&self) -> DeviceKind {
        *self
    }
}

/// The devices that are up, under their real names, and the names by which the
/// configuration calls them.
#[derive(Debug)]
pub struct UserspaceBackend {
    devices: Table<String, DeviceKind>,
    aliases: Table<String, String>,
}

/// What a [`UserspaceBackend`] holds.
pub struct BackendModel {
    /// The devices, by real name.
    pub devices: Map<Seq<char>, DeviceKind>,
    /// The real names, by the name in the configuration.
    pub aliases: Map<Seq<char>, Seq<char>>,
}

impl BackendModel {
    /// The real name that an interface name means: itself, unless it stands for
    /// another.
    pub open spec fn resolved(self, interface: Seq<char>) -> Seq<char> {
        if self.aliases.dom().contains(interface) {
            self.aliases[interface]
        } else {
            interface
        }
    }

    /// Whether the interface has a device.
    pub open spec fn is_up(self, interface: Seq<char>) -> bool {
        self.devices.dom().contains(self.resolved(interface))
    }

    /// The back end once a named device is up.
    pub open spec fn with_named(self, interface: Seq<char>, actual: Seq<char>) -> BackendModel {
        BackendModel {
            devices: self.devices.insert(actual, DeviceKind::Named),
            aliases: self.aliases.insert(interface, actual),
        }
    }

    /// The back end once a device without a name of its own is up.
    pub open spec fn with_fd(self, interface: Seq<char>) -> BackendModel {
        BackendModel { devices: self.devices.insert(interface, DeviceKind::Fd), ..self }
    }

    /// The back end without the device of that real name and without the names
    /// that stand for it.
    pub open spec fn without(self, actual: Seq<char>) -> BackendModel {
        BackendModel {
            devices: self.devices.remove(actual),
            aliases: self.aliases.restrict(
                Set::new(
                    |k: Seq<char>|
                        self.aliases.dom().contains(k) && self.aliases[k] != actual,
                ),
            ),
        }
    }
}

/// Whether an alias stands for another device than that of the given real name.
pub open spec fn stands_for_other(actual: Seq<char>) -> spec_fn((Seq<char>, Seq<char>)) -> bool {
    |e: (Seq<char>, Seq<char>)| e.1 != actual
}

/// Whether the error says that the interface is not there.
pub open spec fn says_not_found(e: WgError, interface: Seq<char>) -> bool {
    e matches WgError::NotFound(name) && name@ == interface
}

/// Whether the error is a back end's, with this text.
pub open spec fn says(e: WgError, text: Seq<char>) -> bool {
    e matches WgError::Backend(why) && why@ == text
}

fn differ(a: &String, b: &String) -> (d: bool)
    ensures
        d == (a@ != b@),
{
    !(*a == *b)
}

impl View for UserspaceBackend {
    type V = BackendModel;

    closed spec fn view(&self) -> BackendModel {
        BackendModel { devices: self.devices@, aliases: self.aliases@ }
    }
}

impl UserspaceBackend {
    /// Whether no device and no alias is listed twice.
    pub closed spec fn wf(&self) -> bool {
        self.devices.wf() && self.aliases.wf()
    }

    /// A back end without devices.
    pub fn new() -> (b: Self)
        ensures
            b.wf(),
            b@ == (BackendModel { devices: Map::empty(), aliases: Map::empty() }),
    {
        UserspaceBackend { devices: Table::new(), aliases: Table::new() }
    }

    /// The real name that an interface name means.
    pub fn resolve(&self, interface: &str) -> (name: String)
        requires
            self.wf(),
        ensures
            name@ == self@.resolved(interface@),
    {
        let key = interface.to_owned();
        match self.aliases.get(&key) {
            Some(actual) => actual.clone(),
            None => key,
        }
    }

    /// Notes that a named device is up, and tells its real name.
    pub fn opened_named(&mut self, interface: &str, real_name: &str) -> (name: String)
        requires
            old(self).wf(),
        ensures
            final(self).wf(),
            final(self)@ == old(self)@.with_named(interface@, real_name@),
            name@ == real_name@,
    {
        self.devices.insert(real_name.to_owned(), DeviceKind::Named);
        self.aliases.insert(interface.to_owned(), real_name.to_owned());
        real_name.to_owned()
    }

    /// Notes that a device without a name of its own is up; it goes by the name
    /// in the configuration.
    pub fn opened_fd(&mut self, interface: &str) -> (name: String)
        requires
            old(self).wf(),
        ensures
            final(self).wf(),
            final(self)@ == old(self)@.with_fd(interface@),
            name@ == interface@,
    {
        self.devices.insert(interface.to_owned(), DeviceKind::Fd);
        interface.to_owned()
    }

    /// The device on which an operation on an interface works.
    pub fn device(&self, interface: &str) -> (r: Result<(String, DeviceKind), WgError>)
        requires
            self.wf(),
        ensures
            r is Ok <==> self@.is_up(interface@),
            r matches Ok(d) ==> d.0@ == self@.resolved(interface@) && d.1
                == self@.devices[self@.resolved(interface@)],
            r matches Err(e) ==> says_not_found(e, interface@),
    {
        let name = self.resolve(interface);
        match self.devices.get(&name) {
            Some(kind) => {
                let kind = *kind;
                Ok((name, kind))
            },
            None => Err(WgError::NotFound(interface.to_owned())),
        }
    }

    /// The device to which a peer is added, and the peer as the device takes
    /// it. The device is looked for first.
    pub fn add_peer(&self, interface: &str, spec: &PeerSpec) -> (r: Result<
        ((String, DeviceKind), UserspacePeer),
        WgError,
    >)
        requires
            self.wf(),
        ensures
            r is Ok <==> self@.is_up(interface@) && has_valid_prefixes(spec@),
            r matches Ok(x) ==> x.0.0@ == self@.resolved(interface@) && x.0.1
                == self@.devices[self@.resolved(interface@)] && x.1@ == as_peer(spec@),
            r matches Err(e) ==> if self@.is_up(interface@) {
                says(e, bad_prefix_text())
            } else {
                says_not_found(e, interface@)
            },
    {
        match self.device(interface) {
            Ok(device) => match peer_spec_to_peer(spec) {
                Ok(peer) => Ok((device, peer)),
                Err(e) => Err(e),
            },
            Err(e) => Err(e),
        }
    }

    /// Takes the device of an interface out, with all names that stand for it,
    /// and tells which device has to be stopped.
    pub fn down(&mut self, interface: &str) -> (r: Result<(String, DeviceKind), WgError>)
        requires
            old(self).wf(),
        ensures
            final(self).wf(),
            r is Ok <==> old(self)@.is_up(interface@),
            r matches Ok(d) ==> {
                &&& d.0@ == old(self)@.resolved(interface@)
                &&& d.1 == old(self)@.devices[old(self)@.resolved(interface@)]
                &&& final(self)@ == old(self)@.without(old(self)@.resolved(interface@))
            },
            r matches Err(e) ==> final(self)@ == old(self)@ && says_not_found(e, interface@),
    {
        match self.device(interface) {
            Ok(device) => {
                let ghost before = *self;
                let ghost actual = device.0@;
                self.devices.remove(&device.0);
                let name: &String = &device.0;
                let keep = |alias: &String, target: &String| -> (b: bool)
                    ensures
                        b == (stands_for_other(name@))((alias@, target@)),
                    { differ(target, name) };
                self.aliases.retain(keep, Ghost(stands_for_other(actual)));
                proof {
                    crate::table::lemma_as_map_filter(
                        before.aliases.listed(),
                        stands_for_other(actual),
                    );
                    assert(self@.aliases =~= before@.without(actual).aliases);
                }
                Ok(device)
            },
            Err(e) => Err(e),
        }
    }
}

impl Default for UserspaceBackend {
    fn default() -> (b: Self)
        ensures
            b.wf(),
            b@ == (BackendModel { devices: Map::empty(), aliases: Map::empty() }),
    {
        UserspaceBackend::new()
    }
}

/// A network that a peer may use.
#[derive(Clone, Copy, PartialEq, Eq, Debug, Structural)]
pub struct AllowedNetwork {
    /// An address in the network.
    pub ip: Ipv6Addr,
    /// How many leading bits belong to the network.
    pub prefix: u8,
}

impl AllowedNetwork {
    /// The first address of the network: the bits beyond the prefix are zero.
    pub fn network(&self) -> (a: Ipv6Addr)
        ensures
            forall|i: u128|
                i < 128 ==> #[trigger] addr::leading_bit(a.bits, i) == (i < self.prefix
                    && addr::leading_bit(self.ip.bits, i)),
    {
        let mask = prefix_mask(self.prefix);
        let a = Ipv6Addr::new(self.ip.bits & mask.bits);
        proof {
            let x = self.ip.bits;
            let m = mask.bits;
            assert forall|i: u128| i < 128 implies #[trigger] addr::leading_bit(a.bits, i) == (i
                < self.prefix && addr::leading_bit(x, i)) by {
                let s = (127 - i) as u128;
                assert(addr::leading_bit(m, i) == (i < self.prefix));
                assert((((x & m) >> s) & 1 == 1) == ((x >> s) & 1 == 1 && (m >> s) & 1 == 1))
                    by (bit_vector);
            }
        }
        a
    }
}

/// A peer as the user-space device takes it.
#[derive(Debug)]
pub struct UserspacePeer {
    /// The public key.
    pub public_key: [u8; 32],
    /// The endpoint to start with.
    pub endpoint: Option<SocketAddr>,
    /// The networks that the peer may use.
    pub allowed_ips: Vec<AllowedNetwork>,
    /// The keepalive interval in seconds.
    pub keepalive: Option<u16>,
}

/// What a [`UserspacePeer`] holds.
pub struct UserspacePeerModel {
    /// The public key.
    pub public_key: [u8; 32],
    /// The endpoint to start with.
    pub endpoint: Option<SocketAddr>,
    /// The networks that the peer may use.
    pub allowed_ips: Seq<AllowedNetwork>,
    /// The keepalive interval in seconds.
    pub keepalive: Option<u16>,
}

impl View for UserspacePeer {
    type V = UserspacePeerModel;

    open spec fn view(&self) -> UserspacePeerModel {
        UserspacePeerModel {
            public_key: self.public_key,
            endpoint: self.endpoint,
            allowed_ips: self.allowed_ips@,
            keepalive: self.keepalive,
        }
    }
}

/// Whether every prefix fits an IPv6 address.
pub open spec fn has_valid_prefixes(spec: PeerSpecModel) -> bool {
    forall|i: int| 0 <= i < spec.allowed_ips.len() ==> (#[trigger] spec.allowed_ips[i]).1 <= 128
}

/// The peer that a specification asks for.
pub open spec fn as_peer(spec: PeerSpecModel) -> UserspacePeerModel {
    UserspacePeerModel {
        public_key: spec.wg_public,
        endpoint: match spec.endpoint {
            Some(e) => Some(SocketAddr::V6(e)),
            None => None,
        },
        allowed_ips: spec.allowed_ips.map_values(
            |a: (Ipv6Addr, u8)| AllowedNetwork { ip: a.0, prefix: a.1 },
        ),
        keepalive: spec.persistent_keepalive,
    }
}

/// What is said of a prefix that does not fit.
pub open spec fn bad_prefix_text() -> Seq<char> {
    "非法 AllowedIPs 前缀: "@ + "invalid prefix"@
}

/// Calls `ipnetwork::Ipv6Network::new` and hands out the address and the prefix
/// of the network, or the text of the error.
///
/// Claimed: a prefix of at most 128 is taken, and the network keeps the address
/// and the prefix; any other is refused as `invalid prefix`.
#[verifier::external_body]
fn ip_network(ip: Ipv6Addr, prefix: u8) -> (r: Result<AllowedNetwork, String>)
    ensures
        r is Ok <==> prefix <= 128,
        r matches Ok(n) ==> n == (AllowedNetwork { ip, prefix }),
        r matches Err(e) ==> e@ == "invalid prefix"@,
{
    match ipnetwork::Ipv6Network::new(ip.bits.into(), prefix) {
        Ok(n) => Ok(AllowedNetwork { ip: Ipv6Addr { bits: n.ip().into() }, prefix: n.prefix() }),
        Err(e) => Err(e.to_string()),
    }
}

/// The peer that a specification asks for. A prefix that does not fit an IPv6
/// address is refused.
pub fn peer_spec_to_peer(spec: &PeerSpec) -> (r: Result<UserspacePeer, WgError>)
    ensures
        r is Ok <==> has_valid_prefixes(spec@),
        r matches Ok(p) ==> p@ == as_peer(spec@),
        r matches Err(e) ==> says(e, bad_prefix_text()),
{
    let mut allowed_ips: Vec<AllowedNetwork> = Vec::new();
    let mut i: usize = 0;
    while i < spec.allowed_ips.len()
        invariant
            i <= spec.allowed_ips.len(),
            allowed_ips.len() == i,
            forall|j: int| 0 <= j < i ==> (#[trigger] spec@.allowed_ips[j]).1 <= 128,
            forall|j: int|
                0 <= j < i ==> #[trigger] allowed_ips@[j] == as_peer(spec@).allowed_ips[j],
        decreases spec.allowed_ips.len() - i,
    {
        let (ip, prefix) = spec.allowed_ips[i];
        match ip_network(ip, prefix) {
            Ok(n) => {
                allowed_ips.push(n);
            },
            Err(e) => {
                let mut why = "非法 AllowedIPs 前缀: ".to_owned();
                why.append(e.as_str());
                assert(spec@.allowed_ips[i as int].1 > 128);
                return Err(WgError::Backend(why));
            },
        }
        i = i + 1;
    }
    let endpoint = match spec.endpoint {
        Some(e) => Some(SocketAddr::V6(e)),
        None => None,
    };
    let peer = UserspacePeer {
        public_key: spec.wg_public,
        endpoint,
        allowed_ips,
        keepalive: spec.persistent_keepalive,
    };
    assert(peer@.allowed_ips =~= as_peer(spec@).allowed_ips);
    Ok(peer)
}

/// The peers that a device starts with. One that cannot be had fails all.
pub fn device_peers(spec: &DeviceSpec) -> (r: Result<Vec<UserspacePeer>, WgError>)
    ensures
        r is Ok <==> forall|i: int|
            0 <= i < spec.peers@.len() ==> has_valid_prefixes((#[trigger] spec.peers@[i])@),
        r matches Ok(peers) ==> peers@.map_values(|p: UserspacePeer| p@) == spec@.peers.map_values(
            |p: PeerSpecModel| as_peer(p),
        ),
        r matches Err(e) ==> says(e, bad_prefix_text()),
{
    let mut peers: Vec<UserspacePeer> = Vec::new();
    let mut i: usize = 0;
    while i < spec.peers.len()
        invariant
            i <= spec.peers.len(),
            peers.len() == i,
            forall|j: int| 0 <= j < i ==> has_valid_prefixes((#[trigger] spec.peers@[j])@),
            forall|j: int| 0 <= j < i ==> (#[trigger] peers@[j])@ == as_peer(spec.peers@[j]@),
        decreases spec.peers.len() - i,
    {
        match peer_spec_to_peer(&spec.peers[i]) {
            Ok(peer) => {
                peers.push(peer);
            },
            Err(e) => {
                return Err(e);
            },
        }
        i = i + 1;
    }
    assert(peers@.map_values(|p: UserspacePeer| p@) =~= spec@.peers.map_values(
        |p: PeerSpecModel| as_peer(p),
    ));
    Ok(peers)
}

/// What it means for an operation on a peer that the device did or did not know
/// the peer.
pub fn peer_result(known: bool) -> (r: Result<(), WgError>)
    ensures
        r is Ok <==> known,
        r matches Err(e) ==> says(e, "peer 不存在"@),
{
    if known {
        Ok(())
    } else {
        Err(WgError::Backend("peer 不存在".to_owned()))
    }
}

/// What the user-space device reports of a peer.
#[derive(Clone, Copy, Debug)]
pub struct PeerStats {
    /// The public key.
    pub public_key: [u8; 32],
    /// The endpoint that the device holds.
    pub endpoint: Option<SocketAddr>,
    /// How many nanoseconds ago the last handshake was.
    pub handshake_age: Option<u128>,
    /// The bytes received.
    pub rx_bytes: usize,
    /// The bytes sent.
    pub tx_bytes: usize,
}

/// When a handshake took place that was `age` nanoseconds old at `now`; the
/// epoch, where that lies before all time.
pub open spec fn handshake_time(now: int, age: int) -> int {
    if now - age < i64::MIN as int * time::NANOS_PER_SEC as int {
        time::epoch()
    } else {
        now - age
    }
}

/// Whether a status says what the device reported.
pub open spec fn reports(s: PeerStatus, p: PeerStats, now: int) -> bool {
    &&& s.wg_public == p.public_key
    &&& s.endpoint == p.endpoint
    &&& s.last_handshake is Some <==> p.handshake_age is Some
    &&& s.last_handshake matches Some(t) ==> t@ == handshake_time(
        now,
        p.handshake_age->Some_0 as int,
    )
    &&& s.rx_bytes == p.rx_bytes
    &&& s.tx_bytes == p.tx_bytes
}

/// The status of all peers, in the order in which the device reported them.
pub fn status_of(stats: &[PeerStats], now: SystemTime) -> (out: Vec<PeerStatus>)
    ensures
        out@.len() == stats@.len(),
        forall|i: int| 0 <= i < out@.len() ==> reports(#[trigger] out@[i], stats@[i], now@),
{
    let mut out: Vec<PeerStatus> = Vec::new();
    let mut i: usize = 0;
    while i < stats.len()
        invariant
            i <= stats.len(),
            out.len() == i,
            forall|j: int| 0 <= j < i ==> reports(#[trigger] out@[j], stats@[j], now@),
        decreases stats.len() - i,
    {
        let p = stats[i];
        let last_handshake = match p.handshake_age {
            Some(age) => match now.minus(age) {
                Some(t) => Some(t),
                None => Some(SystemTime::new(0, 0)),
            },
            None => None,
        };
        out.push(
            PeerStatus {
                wg_public: p.public_key,
                endpoint: p.endpoint,
                last_handshake,
                rx_bytes: p.rx_bytes as u64,
                tx_bytes: p.tx_bytes as u64,
            },
        );
        i = i + 1;
    }
    out
}

/// A device that came up under another name answers to both names, and to
/// neither once it is taken down under one of them, unless one of the names
/// also is that of another device.
pub proof fn law_both_names_mean_the_device(
    b: BackendModel,
    interface: Seq<char>,
    actual: Seq<char>,
)
    requires
        interface == actual || !b.aliases.dom().contains(actual),
    ensures
        b.with_named(interface, actual).resolved(interface) == actual,
        b.with_named(interface, actual).resolved(actual) == actual,
        b.with_named(interface, actual).is_up(interface),
        b.with_named(interface, actual).is_up(actual),
        !b.with_named(interface, actual).without(actual).is_up(actual),
        !b.devices.dom().contains(interface) ==> !b.with_named(interface, actual).without(
            actual,
        ).is_up(interface),
{
}

/// A device that came up from a file descriptor is up under the name in the
/// configuration, and gone once it is taken down.
pub proof fn law_fd_device_has_no_other_name(b: BackendModel, interface: Seq<char>)
    requires
        !b.aliases.dom().contains(interface),
    ensures
        b.with_fd(interface).is_up(interface),
        b.with_fd(interface).resolved(interface) == interface,
        !b.with_fd(interface).without(interface).is_up(interface),
{
}

/// Taking down a device leaves all others up under their real names.
pub proof fn law_down_keeps_other_devices(b: BackendModel, actual: Seq<char>, other: Seq<char>)
    requires
        other != actual,
        b.devices.dom().contains(other),
        !b.aliases.dom().contains(other),
    ensures
        b.without(actual).is_up(other),
        b.without(actual).devices[other] == b.devices[other],
{
}

/// A name means what it stands for, and itself when it stands for nothing; a
/// device is up under a name exactly when what the name means is running.
pub proof fn law_names_of_devices(b: BackendModel, interface: Seq<char>)
    ensures
        b.aliases.dom().contains(interface) ==> b.resolved(interface) == b.aliases[interface],
        !b.aliases.dom().contains(interface) ==> b.resolved(interface) == interface,
        b.is_up(interface) <==> b.devices.dom().contains(b.resolved(interface)),
{
}

/// A peer goes to the device as it is asked for: its key, its endpoint, every
/// network in its place with its prefix, its keepalive interval. It is refused
/// exactly when a prefix is longer than 128 bits.
pub proof fn law_peer_goes_as_asked(spec: PeerSpecModel, i: int)
    ensures
        ({
            let p = as_peer(spec);
            &&& p.public_key == spec.wg_public
            &&& spec.endpoint matches Some(e) ==> p.endpoint == Some(SocketAddr::V6(e))
            &&& spec.endpoint is None ==> p.endpoint is None
            &&& p.keepalive == spec.persistent_keepalive
            &&& p.allowed_ips.len() == spec.allowed_ips.len()
            &&& 0 <= i < spec.allowed_ips.len() ==> p.allowed_ips[i].ip == spec.allowed_ips[i].0
                && p.allowed_ips[i].prefix == spec.allowed_ips[i].1
            &&& 0 <= i < spec.allowed_ips.len() && spec.allowed_ips[i].1 > 128
                ==> !has_valid_prefixes(spec)
            &&& (forall|j: int|
                0 <= j < spec.allowed_ips.len() ==> (#[trigger] spec.allowed_ips[j]).1 <= 128)
                ==> has_valid_prefixes(spec)
        }),
{
}

/// A status carries the device's counts and endpoint, and the handshake at the
/// time that its age says.
pub proof fn law_status_as_reported(s: PeerStatus, p: PeerStats, now: int)
    requires
        reports(s, p, now),
        now >= 0,
        p.handshake_age matches Some(age) ==> age <= now,
    ensures
        s.wg_public == p.public_key,
        s.endpoint == p.endpoint,
        s.rx_bytes == p.rx_bytes,
        s.tx_bytes == p.tx_bytes,
        p.handshake_age is None ==> s.last_handshake is None,
        p.handshake_age matches Some(age) ==> s.last_handshake is Some
            && s.last_handshake->Some_0@ + age == now,
{
}

} // verus!
