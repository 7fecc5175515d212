//! What can be decided about the host without touching it.

use crate::addr::{self, is_usable_endpoint_addr, Ipv6Addr};
use crate::text::{self, comes_before};
use vstd::prelude::*;

pub mod macos;
pub mod tun;
pub mod windows;

verus! {

/// Why the host refused.
#[derive(Debug)]
pub enum PlatformError {
    /// There is no such interface.
    NotFound(String),
    /// This host cannot do it.
    Unsupported,
    /// Netlink failed.
    Netlink(String),
    /// The operating system failed.
    Os(String),
    /// The TUN device failed.
    Tun(String),
}

/// In which direction an address changed.
#[derive(Clone, Copy, PartialEq, Eq, Debug, Structural)]
pub enum AddrEventKind {
    /// It came.
    Added,
    /// It went.
    Removed,
}

/// A change of this host's addresses.
#[derive(Clone, Copy, PartialEq, Eq, Debug, Structural)]
pub struct AddrEvent {
    /// In which direction it changed.
    pub kind: AddrEventKind,
    /// The address.
    pub address: Ipv6Addr,
    /// The index of its interface; 0 where that is not known.
    pub if_index: u32,
}

/// An address of an interface, as the host lists it.
#[derive(Debug)]
pub struct InterfaceAddr {
    /// The name of the interface.
    pub name: String,
    /// The other name by which the interface may be called.
    pub alias: String,
    /// The address, when it is an IPv6 one.
    pub address: Option<Ipv6Addr>,
}

/// An interface, as the host lists it.
#[derive(Debug)]
pub struct InterfaceInfo {
    /// Its index, where it has one.
    pub index: Option<u32>,
    /// Its name.
    pub name: String,
    /// The other name by which it may be called.
    pub alias: String,
    /// Whether it is up.
    pub up: bool,
    /// Whether it can multicast.
    pub multicast: bool,
    /// Whether it is a loopback.
    pub loopback: bool,
}

impl PlatformError {
    /// What the error says.
    pub open spec fn text(self) -> Seq<char> {
        match self {
            PlatformError::NotFound(name) => "interface "@ + name@ + " not found"@,
            PlatformError::Unsupported => "unsupported platform"@,
            PlatformError::Netlink(why) => "netlink: "@ + why@,
            PlatformError::Os(why) => "os: "@ + why@,
            PlatformError::Tun(why) => "tun: "@ + why@,
        }
    }

    /// What the error says.
    pub fn message(&self) -> (s: String)
        ensures
            s@ == self.text(),
    {
        match self {
            PlatformError::NotFound(name) => {
                let mut s = "interface ".to_owned();
                s.append(name.as_str());
                s.append(" not found");
                s
            },
            PlatformError::Unsupported => "unsupported platform".to_owned(),
            PlatformError::Netlink(why) => {
                let mut s = "netlink: ".to_owned();
                s.append(why.as_str());
                s
            },
            PlatformError::Os(why) => {
                let mut s = "os: ".to_owned();
                s.append(why.as_str());
                s
            },
            PlatformError::Tun(why) => {
                let mut s = "tun: ".to_owned();
                s.append(why.as_str());
                s
            },
        }
    }
}

/// The error for a netlink failure that says this.
pub fn nl(why: String) -> (e: PlatformError)
    ensures
        e == PlatformError::Netlink(why),
{
    PlatformError::Netlink(why)
}

/// The error for a failure of the operating system that says this.
pub fn os(why: String) -> (e: PlatformError)
    ensures
        e == PlatformError::Os(why),
{
    PlatformError::Os(why)
}

/// Whether addresses are listed from the smallest to the largest, none twice.
pub open spec fn ascending(s: Seq<Ipv6Addr>) -> bool {
    forall|i: int, j: int| 0 <= i < j < s.len() ==> (#[trigger] s[i]).bits < (#[trigger] s[j]).bits
}

/// Whether an interface goes by this name.
pub open spec fn goes_by(name: Seq<char>, alias: Seq<char>, called: Option<Seq<char>>) -> bool {
    called == Some(name) || called == Some(alias)
}

/// The view of an optional name.
pub open spec fn called(name: Option<&str>) -> Option<Seq<char>> {
    match name {
        Some(n) => Some(n@),
        None => None,
    }
}

/// Whether a listed address is offered as an endpoint: it is usable and not on
/// the excluded interface.
pub open spec fn offered(s: InterfaceAddr, exclude: Option<Seq<char>>, a: Ipv6Addr) -> bool {
    &&& s.address == Some(a)
    &&& addr::usable_endpoint_addr(a)
    &&& !goes_by(s.name@, s.alias@, exclude)
}

/// `s` with `a` put in its place, unless it is there.
fn insert_ascending(list: &mut Vec<Ipv6Addr>, a: Ipv6Addr)
    requires
        ascending(old(list)@),
    ensures
        ascending(final(list)@),
        forall|x: Ipv6Addr| #[trigger]
            final(list)@.contains(x) <==> old(list)@.contains(x) || x == a,
{
    let ghost before = list@;
    let mut p: usize = list.len();
    while p > 0 && list[p - 1].bits >= a.bits
        invariant
            p <= list.len(),
            list@ == before,
            forall|j: int| p <= j < list.len() ==> (#[trigger] list@[j]).bits >= a.bits,
        decreases p,
    {
        p = p - 1;
    }
    if p < list.len() && list[p].bits == a.bits {
        assert(list@[p as int] == a);
        return ;
    }
    list.insert(p, a);
    proof {
        let after = list@;
        assert forall|i: int, j: int| 0 <= i < j < after.len() implies (#[trigger] after[i]).bits
            < (#[trigger] after[j]).bits by {
            let i2 = if i <= p {
                i
            } else {
                i - 1
            };
            let j2 = if j <= p {
                j
            } else {
                j - 1
            };
            if i < p && j != p {
                assert(before[i].bits < before[j2].bits);
            } else if i == p {
                assert(before[p as int].bits >= a.bits);
                if j2 > p {
                    assert(before[p as int].bits < before[j2].bits);
                }
            } else if j == p {
                if i < p - 1 {
                    assert(before[i].bits < before[p - 1].bits);
                }
            } else {
                assert(before[i2].bits < before[j2].bits);
            }
        }
        assert forall|x: Ipv6Addr| #[trigger] after.contains(x) <==> before.contains(x) || x
            == a by {
            if after.contains(x) {
                let k = choose|k: int| 0 <= k < after.len() && after[k] == x;
                if k < p {
                    assert(before[k] == x);
                } else if k > p {
                    assert(before[k - 1] == x);
                }
            }
            if before.contains(x) {
                let k = choose|k: int| 0 <= k < before.len() && before[k] == x;
                if k < p {
                    assert(after[k] == x);
                } else {
                    assert(after[k + 1] == x);
                }
            }
            assert(after[p as int] == a);
        }
    }
}

fn is_called(name: &String, alias: &String, exclude: Option<&str>) -> (yes: bool)
    ensures
        yes == goes_by(name@, alias@, called(exclude)),
{
    match exclude {
        Some(n) => {
            let n = n.to_owned();
            *name == n || *alias == n
        },
        None => false,
    }
}

/// The addresses at which this host can be reached from outside, out of all
/// that it lists, from the smallest to the largest, each once.
pub fn current_global_addrs(listed: &[InterfaceAddr], exclude_interface: Option<&str>) -> (out: Vec<
    Ipv6Addr,
>)
    ensures
        ascending(out@),
        forall|a: Ipv6Addr| #[trigger]
            out@.contains(a) <==> exists|i: int|
                0 <= i < listed@.len() && offered(
                    #[trigger] listed@[i],
                    called(exclude_interface),
                    a,
                ),
{
    let mut out: Vec<Ipv6Addr> = Vec::new();
    let mut i: usize = 0;
    while i < listed.len()
        invariant
            i <= listed.len(),
            ascending(out@),
            forall|a: Ipv6Addr| #[trigger]
                out@.contains(a) <==> exists|j: int|
                    0 <= j < i && offered(#[trigger] listed@[j], called(exclude_interface), a),
        decreases listed.len() - i,
    {
        let ghost before = out@;
        let e = &listed[i];
        if let Some(a) = e.address {
            if !is_called(&e.name, &e.alias, exclude_interface) && is_usable_endpoint_addr(a) {
                insert_ascending(&mut out, a);
            }
        }
        proof {
            assert forall|a: Ipv6Addr| #[trigger] out@.contains(a) <==> exists|j: int|
                0 <= j < i + 1 && offered(#[trigger] listed@[j], called(exclude_interface), a) by {
                if before.contains(a) {
                    let j = choose|j: int|
                        0 <= j < i && offered(#[trigger] listed@[j], called(exclude_interface), a);
                    assert(0 <= j < i + 1 && offered(listed@[j], called(exclude_interface), a));
                }
                if offered(listed@[i as int], called(exclude_interface), a) {
                    assert(out@.contains(a));
                }
            }
        }
        i = i + 1;
    }
    out
}

/// The addresses of `a` that `b` lacks, from the smallest to the largest.
fn lacking(a: &[Ipv6Addr], b: &[Ipv6Addr]) -> (out: Vec<Ipv6Addr>)
    ensures
        ascending(out@),
        forall|x: Ipv6Addr| #[trigger] out@.contains(x) <==> a@.contains(x) && !b@.contains(x),
{
    let mut out: Vec<Ipv6Addr> = Vec::new();
    let mut i: usize = 0;
    while i < a.len()
        invariant
            i <= a.len(),
            ascending(out@),
            forall|x: Ipv6Addr| #[trigger]
                out@.contains(x) <==> a@.take(i as int).contains(x) && !b@.contains(x),
        decreases a.len() - i,
    {
        let x = a[i];
        let ghost before = out@;
        let mut found = false;
        let mut k: usize = 0;
        while k < b.len()
            invariant
                k <= b.len(),
                found == exists|j: int| 0 <= j < k && #[trigger] b@[j] == x,
            decreases b.len() - k,
        {
            if b[k] == x {
                found = true;
                assert(b@[k as int] == x);
            }
            k = k + 1;
        }
        assert(found == b@.contains(x));
        if !found {
            insert_ascending(&mut out, x);
        }
        proof {
            assert(a@.take(i + 1) =~= a@.take(i as int).push(x));
            assert forall|y: Ipv6Addr| #[trigger] out@.contains(y) <==> a@.take(i + 1).contains(y)
                && !b@.contains(y) by {
                let t = a@.take(i as int);
                if t.contains(y) {
                    let j = choose|j: int| 0 <= j < t.len() && t[j] == y;
                    assert(t.push(x)[j] == y);
                }
                if t.push(x).contains(y) {
                    let j = choose|j: int| 0 <= j < t.push(x).len() && t.push(x)[j] == y;
                    if j < t.len() {
                        assert(t[j] == y);
                    }
                }
                assert(t.push(x)[t.len() as int] == x);
                assert(before.contains(y) <==> t.contains(y) && !b@.contains(y));
            }
        }
        i = i + 1;
    }
    assert(a@.take(i as int) =~= a@);
    out
}

/// What changed from one list of addresses to the next: the addresses that
/// came and those that went, each from the smallest to the largest.
pub fn diff_addrs(previous: &[Ipv6Addr], current: &[Ipv6Addr]) -> (diff: (
    Vec<Ipv6Addr>,
    Vec<Ipv6Addr>,
))
    ensures
        ascending(diff.0@),
        ascending(diff.1@),
        forall|a: Ipv6Addr| #[trigger]
            diff.0@.contains(a) <==> current@.contains(a) && !previous@.contains(a),
        forall|a: Ipv6Addr| #[trigger]
            diff.1@.contains(a) <==> previous@.contains(a) && !current@.contains(a),
{
    (lacking(current, previous), lacking(previous, current))
}

/// The news that addresses came or went, as events.
pub open spec fn events(kind: AddrEventKind, s: Seq<Ipv6Addr>) -> Seq<AddrEvent> {
    s.map_values(|a: Ipv6Addr| AddrEvent { kind, address: a, if_index: 0 })
}

fn push_events(out: &mut Vec<AddrEvent>, kind: AddrEventKind, list: &Vec<Ipv6Addr>)
    ensures
        final(out)@ == old(out)@ + events(kind, list@),
{
    let ghost before = out@;
    let mut i: usize = 0;
    assert(out@ =~= before + events(kind, list@.take(0)));
    while i < list.len()
        invariant
            i <= list.len(),
            out@ == before + events(kind, list@.take(i as int)),
        decreases list.len() - i,
    {
        out.push(AddrEvent { kind, address: list[i], if_index: 0 });
        i = i + 1;
        assert(out@ =~= before + events(kind, list@.take(i as int)));
    }
    assert(list@.take(i as int) =~= list@);
}

/// The events that tell what changed from one list of addresses to the next:
/// first those that went, then those that came.
pub fn address_events(previous: &[Ipv6Addr], current: &[Ipv6Addr]) -> (out: Vec<AddrEvent>)
    ensures
        exists|added: Seq<Ipv6Addr>, removed: Seq<Ipv6Addr>|
            #![trigger events(AddrEventKind::Added, added), events(AddrEventKind::Removed, removed)]
            {
                &&& ascending(added)
                &&& ascending(removed)
                &&& forall|a: Ipv6Addr| #[trigger]
                    added.contains(a) <==> current@.contains(a) && !previous@.contains(a)
                &&& forall|a: Ipv6Addr| #[trigger]
                    removed.contains(a) <==> previous@.contains(a) && !current@.contains(a)
                &&& out@ == events(AddrEventKind::Removed, removed) + events(
                    AddrEventKind::Added,
                    added,
                )
            },
{
    let (added, removed) = diff_addrs(previous, current);
    let mut out: Vec<AddrEvent> = Vec::new();
    push_events(&mut out, AddrEventKind::Removed, &removed);
    push_events(&mut out, AddrEventKind::Added, &added);
    assert(out@ =~= events(AddrEventKind::Removed, removed@) + events(
        AddrEventKind::Added,
        added@,
    ));
    out
}

/// Whether announcements are multicast on an interface: it is up, it can
/// multicast, it is no loopback, it is not excluded, and it has an index.
pub open spec fn multicasts(s: InterfaceInfo, exclude: Option<Seq<char>>) -> bool {
    &&& s.up
    &&& s.multicast
    &&& !s.loopback
    &&& s.index is Some
    &&& !goes_by(s.name@, s.alias@, exclude)
}

/// Whether an interface comes before another: by index, then by name.
pub open spec fn interface_before(a: (u32, Seq<char>), b: (u32, Seq<char>)) -> bool {
    a.0 < b.0 || (a.0 == b.0 && text::bytes_before(
        vstd::utf8::encode_utf8(a.1),
        vstd::utf8::encode_utf8(b.1),
    ))
}

/// An index and a name by their views.
pub open spec fn interface_key(e: (u32, String)) -> (u32, Seq<char>) {
    (e.0, e.1@)
}

/// Whether interfaces are in order, none twice.
pub open spec fn in_order(s: Seq<(u32, String)>) -> bool {
    forall|i: int, j: int|
        0 <= i < j < s.len() ==> interface_before(
            interface_key(#[trigger] s[i]),
            interface_key(#[trigger] s[j]),
        )
}

/// Whether an interface is listed.
pub open spec fn has_interface(s: Seq<(u32, String)>, k: (u32, Seq<char>)) -> bool {
    exists|i: int| 0 <= i < s.len() && interface_key(#[trigger] s[i]) == k
}

proof fn lemma_interface_order(a: (u32, Seq<char>), b: (u32, Seq<char>))
    ensures
        !(interface_before(a, b) && interface_before(b, a)),
        a != b ==> interface_before(a, b) || interface_before(b, a),
        a == b ==> !interface_before(a, b),
{
    let x = vstd::utf8::encode_utf8(a.1);
    let y = vstd::utf8::encode_utf8(b.1);
    text::lemma_bytes_order(x, y);
    vstd::utf8::encode_utf8_decode_utf8(a.1);
    vstd::utf8::encode_utf8_decode_utf8(b.1);
}

proof fn lemma_interface_transitive(
    a: (u32, Seq<char>),
    b: (u32, Seq<char>),
    c: (u32, Seq<char>),
)
    requires
        interface_before(a, b),
        interface_before(b, c),
    ensures
        interface_before(a, c),
{
    if a.0 == b.0 && b.0 == c.0 {
        text::lemma_bytes_transitive(
            vstd::utf8::encode_utf8(a.1),
            vstd::utf8::encode_utf8(b.1),
            vstd::utf8::encode_utf8(c.1),
        );
    }
}

fn is_before(i: u32, a: &String, j: u32, b: &String) -> (before: bool)
    ensures
        before == interface_before((i, a@), (j, b@)),
{
    i < j || (i == j && comes_before(a.as_str().as_bytes(), b.as_str().as_bytes()))
}

fn insert_interface(list: &mut Vec<(u32, String)>, index: u32, name: &String)
    requires
        in_order(old(list)@),
    ensures
        in_order(final(list)@),
        forall|k: (u32, Seq<char>)| #[trigger]
            has_interface(final(list)@, k) <==> has_interface(old(list)@, k) || k == (
                index,
                name@,
            ),
{
    let ghost before = list@;
    let ghost new = (index, name@);
    let mut p: usize = list.len();
    while p > 0 && !is_before(list[p - 1].0, &list[p - 1].1, index, name)
        invariant
            p <= list.len(),
            list@ == before,
            new == (index, name@),
            forall|j: int|
                p <= j < list.len() ==> !interface_before(
                    interface_key(#[trigger] list@[j]),
                    new,
                ),
        decreases p,
    {
        p = p - 1;
    }
    if p < list.len() && list[p].0 == index && list[p].1 == *name {
        assert(interface_key(list@[p as int]) == new);
        return ;
    }
    proof {
        // What stands from here on comes after the new one.
        assert forall|j: int| p <= j < before.len() implies interface_before(
            new,
            interface_key(#[trigger] before[j]),
        ) by {
            let h = interface_key(before[p as int]);
            lemma_interface_order(h, new);
            if j > p {
                assert(interface_before(h, interface_key(before[j])));
                lemma_interface_transitive(new, h, interface_key(before[j]));
            }
        }
        assert forall|j: int| 0 <= j < p implies interface_before(
            interface_key(#[trigger] before[j]),
            new,
        ) by {
            let h = interface_key(before[p - 1]);
            if j < p - 1 {
                assert(interface_before(interface_key(before[j]), h));
                lemma_interface_transitive(interface_key(before[j]), h, new);
            }
        }
    }
    list.insert(p, (index, name.clone()));
    proof {
        let after = list@;
        assert(interface_key(after[p as int]) == new);
        assert forall|i: int, j: int| 0 <= i < j < after.len() implies interface_before(
            interface_key(#[trigger] after[i]),
            interface_key(#[trigger] after[j]),
        ) by {
            let i2 = if i < p {
                i
            } else {
                i - 1
            };
            let j2 = if j < p {
                j
            } else {
                j - 1
            };
            if i == p {
                assert(after[j] == before[j2]);
            } else if j == p {
                assert(after[i] == before[i2]);
            } else {
                assert(after[i] == before[i2] && after[j] == before[j2]);
                assert(interface_before(interface_key(before[i2]), interface_key(before[j2])));
            }
        }
        assert forall|k: (u32, Seq<char>)| #[trigger] has_interface(after, k) <==> has_interface(
            before,
            k,
        ) || k == new by {
            if has_interface(after, k) {
                let q = choose|q: int| 0 <= q < after.len() && interface_key(#[trigger] after[q])
                    == k;
                if q < p {
                    assert(interface_key(before[q]) == k);
                } else if q > p {
                    assert(interface_key(before[q - 1]) == k);
                }
            }
            if has_interface(before, k) {
                let q = choose|q: int| 0 <= q < before.len() && interface_key(#[trigger] before[q])
                    == k;
                if q < p {
                    assert(interface_key(after[q]) == k);
                } else {
                    assert(interface_key(after[q + 1]) == k);
                }
            }
        }
    }
}

/// The interfaces on which announcements are multicast, with their indices, in
/// order and each once.
pub fn multicast_interfaces(listed: &[InterfaceInfo], exclude: Option<&str>) -> (out: Vec<
    (u32, String),
>)
    ensures
        in_order(out@),
        forall|k: (u32, Seq<char>)| #[trigger]
            has_interface(out@, k) <==> exists|i: int|
                0 <= i < listed@.len() && multicasts(#[trigger] listed@[i], called(exclude)) && k
                    == (listed@[i].index->Some_0, listed@[i].name@),
{
    let mut out: Vec<(u32, String)> = Vec::new();
    let mut i: usize = 0;
    while i < listed.len()
        invariant
            i <= listed.len(),
            in_order(out@),
            forall|k: (u32, Seq<char>)| #[trigger]
                has_interface(out@, k) <==> exists|j: int|
                    0 <= j < i && multicasts(#[trigger] listed@[j], called(exclude)) && k == (
                        listed@[j].index->Some_0,
                        listed@[j].name@,
                    ),
        decreases listed.len() - i,
    {
        let ghost before = out@;
        let e = &listed[i];
        if e.up && e.multicast && !e.loopback && !is_called(&e.name, &e.alias, exclude) {
            if let Some(index) = e.index {
                insert_interface(&mut out, index, &e.name);
            }
        }
        proof {
            assert forall|k: (u32, Seq<char>)| #[trigger] has_interface(out@, k) <==> exists|j: int|
                0 <= j < i + 1 && multicasts(#[trigger] listed@[j], called(exclude)) && k == (
                    listed@[j].index->Some_0,
                    listed@[j].name@,
                ) by {
                if has_interface(before, k) {
                    let j = choose|j: int|
                        0 <= j < i && multicasts(#[trigger] listed@[j], called(exclude)) && k == (
                            listed@[j].index->Some_0,
                            listed@[j].name@,
                        );
                    assert(0 <= j < i + 1 && multicasts(listed@[j], called(exclude)));
                }
                if multicasts(listed@[i as int], called(exclude)) && k == (
                    listed@[i as int].index->Some_0,
                    listed@[i as int].name@,
                ) {
                    assert(has_interface(out@, k));
                }
            }
        }
        i = i + 1;
    }
    out
}

/// An ascending list is settled by what is in it.
pub proof fn law_ascending_list_unique(s: Seq<Ipv6Addr>, t: Seq<Ipv6Addr>)
    requires
        ascending(s),
        ascending(t),
        forall|a: Ipv6Addr| #[trigger] s.contains(a) <==> t.contains(a),
    ensures
        s == t,
    decreases s.len(),
{
    if s.len() == 0 {
        if t.len() > 0 {
            assert(t.contains(t[0]));
            assert(s.contains(t[0]));
        }
        assert(s =~= t);
    } else {
        assert(s.contains(s[s.len() - 1]));
        assert(t.len() > 0) by {
            assert(t.contains(s.last()));
        }
        let x = s.last();
        let y = t.last();
        assert(t.contains(y) && t[t.len() - 1] == y);
        let i = choose|i: int| 0 <= i < t.len() && t[i] == x;
        assert(s.contains(y));
        let j = choose|j: int| 0 <= j < s.len() && s[j] == y;
        assert(x.bits <= y.bits) by {
            if i < t.len() - 1 {
                assert(t[i].bits < t[t.len() - 1].bits);
            }
        }
        assert(y.bits <= x.bits) by {
            if j < s.len() - 1 {
                assert(s[j].bits < s[s.len() - 1].bits);
            }
        }
        assert(x == y);
        let s2 = s.drop_last();
        let t2 = t.drop_last();
        assert forall|a: Ipv6Addr| #[trigger] s2.contains(a) <==> t2.contains(a) by {
            if s2.contains(a) {
                let k = choose|k: int| 0 <= k < s2.len() && s2[k] == a;
                assert(s[k] == a);
                assert(s[k].bits < s[s.len() - 1].bits);
                assert(s.contains(a));
                assert(t.contains(a));
                let q = choose|q: int| 0 <= q < t.len() && t[q] == a;
                assert(t2[q] == a);
            }
            if t2.contains(a) {
                let k = choose|k: int| 0 <= k < t2.len() && t2[k] == a;
                assert(t[k] == a);
                assert(t[k].bits < t[t.len() - 1].bits);
                assert(s.contains(a));
                let q = choose|q: int| 0 <= q < s.len() && s[q] == a;
                assert(s2[q] == a);
            }
        }
        law_ascending_list_unique(s2, t2);
        assert(s =~= s2.push(x));
        assert(t =~= t2.push(y));
    }
}

/// What came and what went explain the change: the addresses of now are those
/// of before without what went and with what came. Where the addresses are the
/// same, nothing came and nothing went.
pub proof fn law_diff_explains_change(
    previous: Seq<Ipv6Addr>,
    current: Seq<Ipv6Addr>,
    added: Seq<Ipv6Addr>,
    removed: Seq<Ipv6Addr>,
)
    requires
        forall|a: Ipv6Addr| #[trigger]
            added.contains(a) <==> current.contains(a) && !previous.contains(a),
        forall|a: Ipv6Addr| #[trigger]
            removed.contains(a) <==> previous.contains(a) && !current.contains(a),
    ensures
        forall|a: Ipv6Addr| #[trigger]
            current.contains(a) <==> added.contains(a) || (previous.contains(a)
                && !removed.contains(a)),
        (forall|a: Ipv6Addr| #[trigger] previous.contains(a) <==> current.contains(a))
            ==> added.len() == 0 && removed.len() == 0,
{
    assert forall|a: Ipv6Addr| #[trigger] current.contains(a) <==> added.contains(a) || (
    previous.contains(a) && !removed.contains(a)) by {
        assert(added.contains(a) <==> current.contains(a) && !previous.contains(a));
        assert(removed.contains(a) <==> previous.contains(a) && !current.contains(a));
    }
    if forall|a: Ipv6Addr| #[trigger] previous.contains(a) <==> current.contains(a) {
        if added.len() > 0 {
            assert(added.contains(added[0]));
            assert(previous.contains(added[0]) <==> current.contains(added[0]));
        }
        if removed.len() > 0 {
            assert(removed.contains(removed[0]));
            assert(previous.contains(removed[0]) <==> current.contains(removed[0]));
        }
    }
}

/// An address is offered exactly when it is usable and its interface is not the
/// excluded one, by either of its names.
pub proof fn law_offered_addresses(s: InterfaceAddr, exclude: Option<Seq<char>>, a: Ipv6Addr)
    ensures
        offered(s, exclude, a) <==> {
            &&& s.address == Some(a)
            &&& addr::usable_endpoint_addr(a)
            &&& exclude != Some(s.name@)
            &&& exclude != Some(s.alias@)
        },
{
}

/// Announcements go out on exactly the interfaces that are up, can multicast, are
/// no loopback, have an index and are not the excluded one.
pub proof fn law_multicast_interfaces(s: InterfaceInfo, exclude: Option<Seq<char>>)
    ensures
        multicasts(s, exclude) <==> {
            &&& s.up
            &&& s.multicast
            &&& !s.loopback
            &&& s.index is Some
            &&& exclude != Some(s.name@)
            &&& exclude != Some(s.alias@)
        },
{
}

/// Every change of an address is told once, with its direction.
pub proof fn law_changes_are_told(kind: AddrEventKind, s: Seq<Ipv6Addr>, i: int)
    ensures
        events(kind, s).len() == s.len(),
        0 <= i < s.len() ==> events(kind, s)[i].kind == kind && events(kind, s)[i].address == s[i],
{
}

} // verus!
