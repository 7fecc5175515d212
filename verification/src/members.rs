//! The members that gossip admitted.
//!
//! Like the endpoint cache this is soft state: what cannot be read counts as
//! an empty table, and gossip fills it again.

use crate::addr::{self, Ipv6Addr};
use crate::seqs;
use vstd::prelude::*;

verus! {

/// The version of the members file.
pub const MEMBERS_VERSION: u32 = 1;

/// A member.
#[derive(Debug)]
pub struct MemberRecord {
    /// Its name.
    pub name: String,
    /// The base64 of its public key.
    pub public_key: String,
    /// Its overlay address.
    pub address: Ipv6Addr,
}

/// All members that gossip admitted, in the order of their admission.
#[derive(Debug)]
pub struct MembersFile {
    /// The version of the file.
    pub version: u32,
    /// The members.
    pub members: Vec<MemberRecord>,
}

/// What a [`MemberRecord`] holds.
pub struct MemberModel {
    /// Its name.
    pub name: Seq<char>,
    /// The base64 of its public key.
    pub public_key: Seq<char>,
    /// Its overlay address.
    pub address: Ipv6Addr,
}

impl View for MemberRecord {
    type V = MemberModel;

    open spec fn view(&self) -> MemberModel {
        MemberModel { name: self.name@, public_key: self.public_key@, address: self.address }
    }
}

impl View for MembersFile {
    type V = Seq<MemberModel>;

    open spec fn view(&self) -> Seq<MemberModel> {
        self.members@.map_values(|m: MemberRecord| m@)
    }
}

/// The position of the first member with this key, the number of members when
/// there is none.
pub open spec fn member_index(s: Seq<MemberModel>, key: Seq<char>) -> int {
    seqs::first_where(s, |m: MemberModel| m.public_key == key)
}

/// The first member with this key.
pub open spec fn member(s: Seq<MemberModel>, key: Seq<char>) -> Option<MemberModel> {
    let k = member_index(s, key);
    if k < s.len() {
        Some(s[k])
    } else {
        None
    }
}

/// The members after `m` was admitted, or renewed when its key was there.
pub open spec fn with_member(s: Seq<MemberModel>, m: MemberModel) -> Seq<MemberModel> {
    let k = member_index(s, m.public_key);
    if k < s.len() {
        s.update(k, m)
    } else {
        s.push(m)
    }
}

/// The members without those of this key.
pub open spec fn without_member(s: Seq<MemberModel>, key: Seq<char>) -> Seq<MemberModel> {
    s.filter(|m: MemberModel| m.public_key != key)
}

/// Whether no key occurs twice.
pub open spec fn distinct_members(s: Seq<MemberModel>) -> bool {
    forall|i: int, j: int|
        0 <= i < j < s.len() ==> (#[trigger] s[i]).public_key != (#[trigger] s[j]).public_key
}

impl Default for MembersFile {
    fn default() -> (m: Self)
        ensures
            m.version == MEMBERS_VERSION,
            m@ == Seq::<MemberModel>::empty(),
    {
        MembersFile::new()
    }
}

impl MembersFile {
    /// A table without members.
    pub fn new() -> (m: Self)
        ensures
            m.version == MEMBERS_VERSION,
            m@ == Seq::<MemberModel>::empty(),
    {
        let m = MembersFile { version: MEMBERS_VERSION, members: Vec::new() };
        assert(m@ =~= Seq::<MemberModel>::empty());
        m
    }

    /// What counts of a file that held this: nothing of another version.
    pub open spec fn counted(version: u32, content: Seq<MemberModel>) -> Seq<MemberModel> {
        if version == MEMBERS_VERSION {
            content
        } else {
            seq![]
        }
    }

    /// The table to start with: the one that the file held, or an empty one
    /// when the file could not be read or has another version.
    pub fn load(file: Option<MembersFile>) -> (m: Self)
        ensures
            m.version == MEMBERS_VERSION,
            m@ == match file {
                Some(f) if f.version == MEMBERS_VERSION => f@,
                _ => Seq::<MemberModel>::empty(),
            },
            m@ == match file {
                Some(f) => MembersFile::counted(f.version, f@),
                None => Seq::<MemberModel>::empty(),
            },
    {
        match file {
            Some(f) => if f.version == MEMBERS_VERSION {
                f
            } else {
                MembersFile::new()
            },
            None => MembersFile::new(),
        }
    }

    fn position(&self, key: &String) -> (p: usize)
        ensures
            p == member_index(self@, key@),
            p <= self.members.len(),
    {
        let ghost hit = |m: MemberModel| m.public_key == key@;
        let mut i: usize = 0;
        while i < self.members.len() && self.members[i].public_key != *key
            invariant
                i <= self.members.len(),
                hit == (|m: MemberModel| m.public_key == key@),
                forall|j: int| 0 <= j < i ==> !hit(#[trigger] self@[j]),
            decreases self.members.len() - i,
        {
            assert(!hit(self@[i as int]));
            i = i + 1;
        }
        proof {
            seqs::lemma_first_where_is(self@, hit, i as int);
        }
        i
    }

    /// The member with this key.
    pub fn get(&self, public_key: &str) -> (m: Option<&MemberRecord>)
        ensures
            m is Some <==> member(self@, public_key@) is Some,
            m matches Some(r) ==> member(self@, public_key@) == Some(r@),
    {
        let i = self.position(&public_key.to_owned());
        if i < self.members.len() {
            Some(&self.members[i])
        } else {
            None
        }
    }

    /// Admits a member, or renews the one with this key; tells whether it is
    /// new.
    pub fn upsert(&mut self, record: MemberRecord) -> (added: bool)
        ensures
            added == (member(old(self)@, record@.public_key) is None),
            final(self)@ == with_member(old(self)@, record@),
            final(self).version == old(self).version,
    {
        let i = self.position(&record.public_key);
        let ghost before = self@;
        let ghost m = record@;
        if i < self.members.len() {
            self.members.set(i, record);
            assert(self@ =~= before.update(i as int, m));
            false
        } else {
            self.members.push(record);
            assert(self@ =~= before.push(m));
            true
        }
    }

    /// Drops the members with this key; tells whether there was one.
    pub fn remove(&mut self, public_key: &str) -> (found: bool)
        ensures
            found == (member(old(self)@, public_key@) is Some),
            final(self)@ == without_member(old(self)@, public_key@),
            final(self).version == old(self).version,
    {
        let key = public_key.to_owned();
        let ghost all = self@;
        let ghost other = |m: MemberModel| m.public_key != key@;
        let ghost hit = |m: MemberModel| m.public_key == key@;
        let ghost mut done: int = 0;
        let mut i: usize = 0;
        let mut found = false;
        proof {
            reveal(Seq::filter);
            assert(all.take(0).filter(other) =~= Seq::empty());
            assert(all.skip(0) =~= all);
            seqs::lemma_first_where(all, hit);
        }
        while i < self.members.len()
            invariant
                other == (|m: MemberModel| m.public_key != key@),
                hit == (|m: MemberModel| m.public_key == key@),
                0 <= done <= all.len(),
                i <= self@.len(),
                self@.len() == self.members.len(),
                self@.take(i as int) == all.take(done).filter(other),
                self@.skip(i as int) == all.skip(done),
                found == exists|j: int| 0 <= j < done && hit(#[trigger] all[j]),
                self.version == old(self).version,
            decreases self.members.len() - i,
        {
            let ghost now = self@;
            let ghost e = now[i as int];
            proof {
                assert(now.skip(i as int).len() == now.len() - i);
                assert(all.skip(done).len() == all.len() - done);
                assert(now.skip(i as int)[0] == e);
                assert(all.skip(done)[0] == all[done]);
                assert(all.take(done + 1) =~= all.take(done).push(e));
                seqs::lemma_filter_push(all.take(done), e, other);
                assert(all.skip(done + 1) =~= all.skip(done).skip(1));
                assert(now.skip(i as int).skip(1) =~= now.skip(i + 1));
            }
            if self.members[i].public_key != key {
                assert(now.take(i + 1) =~= now.take(i as int).push(e));
                i = i + 1;
            } else {
                self.members.remove(i);
                found = true;
                assert(self@ =~= now.remove(i as int));
                assert(self@.take(i as int) =~= now.take(i as int));
                assert(self@.skip(i as int) =~= now.skip(i + 1));
                assert(hit(all[done]));
            }
            proof {
                done = done + 1;
            }
        }
        proof {
            assert(self@.take(i as int) =~= self@);
            assert(self@.skip(i as int).len() == 0);
            assert(all.take(done) =~= all);
            let k = member_index(all, key@);
            if found {
                let j = choose|j: int| 0 <= j < done && hit(#[trigger] all[j]);
                if j < k {
                    assert(!hit(all[j]));
                }
            }
            if k < all.len() {
                assert(hit(all[k]));
            }
        }
        found
    }
}

/// The address with its lower half cleared: the /64 that the node owns.
pub open spec fn site(a: Ipv6Addr) -> Ipv6Addr {
    Ipv6Addr { bits: (a.bits - a.bits % addr::TWO_POW_64) as u128 }
}

/// The site that an overlay address belongs to.
pub fn site_of(address: Ipv6Addr) -> (s: Ipv6Addr)
    ensures
        s == site(address),
{
    Ipv6Addr::new(address.bits - address.bits % addr::TWO_POW_64)
}

/// A site has the upper half of the address and nothing below, and is its own
/// site.
pub proof fn law_site(a: Ipv6Addr)
    ensures
        site(a).bits / addr::TWO_POW_64 == a.bits / addr::TWO_POW_64,
        site(a).bits % addr::TWO_POW_64 == 0,
        site(site(a)) == site(a),
{
}

/// Admitting a member makes it found under its key.
pub proof fn law_admitted_is_found(s: Seq<MemberModel>, m: MemberModel)
    ensures
        member(with_member(s, m), m.public_key) == Some(m),
{
    let hit = |x: MemberModel| x.public_key == m.public_key;
    seqs::lemma_first_where(s, hit);
    let t = with_member(s, m);
    let k = member_index(s, m.public_key);
    assert forall|j: int| 0 <= j < k implies !hit(#[trigger] t[j]) by {
        assert(t[j] == s[j]);
    }
    seqs::lemma_first_where_is(t, hit, k);
}

/// Admitting a member leaves the members under other keys as they were.
pub proof fn law_admission_keeps_others(s: Seq<MemberModel>, m: MemberModel, key: Seq<char>)
    requires
        key != m.public_key,
    ensures
        member(with_member(s, m), key) == member(s, key),
{
    let hit = |x: MemberModel| x.public_key == key;
    let is_m = |x: MemberModel| x.public_key == m.public_key;
    seqs::lemma_first_where(s, hit);
    seqs::lemma_first_where(s, is_m);
    let t = with_member(s, m);
    let k = member_index(s, key);
    let i = member_index(s, m.public_key);
    assert forall|j: int| 0 <= j < k implies !hit(#[trigger] t[j]) by {
        if j != i {
            assert(t[j] == s[j]);
        }
    }
    if k < s.len() {
        assert(hit(t[k]));
        seqs::lemma_first_where_is(t, hit, k);
    } else {
        if i == s.len() {
            assert(!hit(t[i]));
        }
        seqs::lemma_first_where_is(t, hit, t.len() as int);
    }
}

/// Admission never lets a key occur twice.
pub proof fn law_admission_keeps_distinct(s: Seq<MemberModel>, m: MemberModel)
    requires
        distinct_members(s),
    ensures
        distinct_members(with_member(s, m)),
{
    let hit = |x: MemberModel| x.public_key == m.public_key;
    seqs::lemma_first_where(s, hit);
    let t = with_member(s, m);
    let k = member_index(s, m.public_key);
    assert forall|i: int, j: int| 0 <= i < j < t.len() implies (#[trigger] t[i]).public_key != (
    #[trigger] t[j]).public_key by {
        if i < s.len() {
            assert(i < k ==> !hit(s[i]));
        }
        if j < s.len() {
            assert(s[i].public_key != s[j].public_key);
        }
    }
}

/// A removed member is not found, and removing it again changes nothing.
pub proof fn law_removed_is_gone(s: Seq<MemberModel>, key: Seq<char>)
    ensures
        member(without_member(s, key), key) is None,
        without_member(without_member(s, key), key) == without_member(s, key),
{
    let other = |m: MemberModel| m.public_key != key;
    let hit = |m: MemberModel| m.public_key == key;
    let t = without_member(s, key);
    seqs::lemma_filter_twice(s, other);
    seqs::lemma_first_where(t, hit);
    let k = member_index(t, key);
    if k < t.len() {
        s.lemma_filter_pred(other, k);
    }
}

/// Removing a member leaves the members under other keys as they were.
pub proof fn law_removal_keeps_others(s: Seq<MemberModel>, key: Seq<char>, other: Seq<char>)
    requires
        key != other,
    ensures
        member(without_member(s, key), other) == member(s, other),
    decreases s.len(),
{
    reveal(Seq::filter);
    let hit = |m: MemberModel| m.public_key == other;
    let stays = |m: MemberModel| m.public_key != key;
    if s.len() > 0 {
        let rest = s.drop_last();
        let x = s.last();
        let t = without_member(rest, key);
        law_removal_keeps_others(rest, key, other);
        seqs::lemma_first_where(rest, hit);
        seqs::lemma_first_where(t, hit);
        assert(s =~= rest.push(x));
        seqs::lemma_filter_push(rest, x, stays);
        assert(t.push(x).drop_last() =~= t);
    }
}

/// The member under a key is one of those listed, and there is none only when
/// none is listed under it.
pub proof fn law_member_is_listed(s: Seq<MemberModel>, key: Seq<char>, i: int)
    ensures
        member(s, key) matches Some(m) ==> s.contains(m) && m.public_key == key,
        0 <= i < s.len() && s[i].public_key == key ==> member(s, key) is Some,
{
    let hit = |m: MemberModel| m.public_key == key;
    seqs::lemma_first_where(s, hit);
    let k = member_index(s, key);
    if k < s.len() {
        assert(s.contains(s[k]));
    }
    if 0 <= i < s.len() && s[i].public_key == key && k == s.len() {
        assert(!hit(s[i]));
    }
}

/// Admitting a member makes the list longer by one when its key is new, and not
/// at all otherwise.
pub proof fn law_admission_adds_at_most_one(s: Seq<MemberModel>, m: MemberModel)
    ensures
        member(s, m.public_key) is None ==> with_member(s, m).len() == s.len() + 1,
        member(s, m.public_key) is Some ==> with_member(s, m).len() == s.len(),
{
    seqs::lemma_first_where(s, |x: MemberModel| x.public_key == m.public_key);
}

/// A file of version 1 is taken as it is, and one of any other version counts as
/// empty.
pub proof fn law_other_member_versions_are_ignored(version: u32, content: Seq<MemberModel>)
    ensures
        version == 1 ==> MembersFile::counted(version, content) == content,
        version != 1 ==> MembersFile::counted(version, content).len() == 0,
{
}

} // verus!
