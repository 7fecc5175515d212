//! Which advertised routes are installed.
//!
//! The manager decides what to add and what to remove; performing that is up
//! to the caller, who reports how far it got.

use crate::route::{contains_route, Ipv6Route};
use crate::seqs;
use crate::table::{self, Table};
use vstd::prelude::*;

verus! {

/// One change to the system's routes.
#[derive(Clone, Copy, PartialEq, Eq, Debug, Structural)]
pub enum RouteStep {
    /// Remove a route.
    Remove(Ipv6Route),
    /// Add a route.
    Add(Ipv6Route),
}

/// What a synchronisation changed.
#[derive(Debug)]
pub struct SyncOutcome {
    /// The routes added.
    pub added: Vec<Ipv6Route>,
    /// The routes removed.
    pub removed: Vec<Ipv6Route>,
}

/// Keeps track of the routes installed for each peer, so that removing touches
/// exactly what was added for that peer.
#[derive(Debug)]
pub struct RouteManager {
    installed: Table<String, Vec<Ipv6Route>>,
}

impl View for RouteManager {
    type V = Map<Seq<char>, Seq<Ipv6Route>>;

    open spec fn view(&self) -> Map<Seq<char>, Seq<Ipv6Route>> {
        table::as_map(self.listed())
    }
}

/// The routes installed for a peer.
pub open spec fn installed_for(m: Map<Seq<char>, Seq<Ipv6Route>>, peer: Seq<char>) -> Seq<
    Ipv6Route,
> {
    if m.dom().contains(peer) {
        m[peer]
    } else {
        seq![]
    }
}

/// Whether no peer has a route twice.
pub open spec fn distinct_routes(m: Map<Seq<char>, Seq<Ipv6Route>>) -> bool {
    forall|peer: Seq<char>| #[trigger] m.dom().contains(peer) ==> m[peer].no_duplicates()
}

/// The routes of `current` that are still desired.
pub open spec fn kept(current: Seq<Ipv6Route>, desired: Seq<Ipv6Route>) -> Seq<Ipv6Route> {
    current.filter(|r: Ipv6Route| desired.contains(r))
}

/// The routes of `current` that are no longer desired.
pub open spec fn obsolete(current: Seq<Ipv6Route>, desired: Seq<Ipv6Route>) -> Seq<Ipv6Route> {
    current.filter(|r: Ipv6Route| !desired.contains(r))
}

/// The desired routes that `current` lacks, each once.
pub open spec fn missing(current: Seq<Ipv6Route>, desired: Seq<Ipv6Route>) -> Seq<Ipv6Route> {
    seqs::first_distinct(desired).filter(|r: Ipv6Route| !current.contains(r))
}

/// The steps that remove routes.
pub open spec fn removals(routes: Seq<Ipv6Route>) -> Seq<RouteStep> {
    routes.map_values(|r: Ipv6Route| RouteStep::Remove(r))
}

/// The steps that add routes.
pub open spec fn additions(routes: Seq<Ipv6Route>) -> Seq<RouteStep> {
    routes.map_values(|r: Ipv6Route| RouteStep::Add(r))
}

/// The steps that turn the installed routes into the desired ones: first
/// everything obsolete goes, then everything missing comes.
pub open spec fn steps(current: Seq<Ipv6Route>, desired: Seq<Ipv6Route>) -> Seq<RouteStep> {
    removals(obsolete(current, desired)) + additions(missing(current, desired))
}

/// The installed routes after a step.
pub open spec fn stepped(current: Seq<Ipv6Route>, step: RouteStep) -> Seq<Ipv6Route> {
    match step {
        RouteStep::Remove(r) => current.filter(|x: Ipv6Route| x != r),
        RouteStep::Add(r) => current.push(r),
    }
}

/// The installed routes after some steps.
pub open spec fn after_steps(current: Seq<Ipv6Route>, done: Seq<RouteStep>) -> Seq<Ipv6Route>
    decreases done.len(),
{
    if done.len() == 0 {
        current
    } else {
        stepped(after_steps(current, done.drop_last()), done.last())
    }
}

/// The routes that some steps added.
pub open spec fn added_by(done: Seq<RouteStep>) -> Seq<Ipv6Route>
    decreases done.len(),
{
    if done.len() == 0 {
        seq![]
    } else {
        match done.last() {
            RouteStep::Add(r) => added_by(done.drop_last()).push(r),
            RouteStep::Remove(_) => added_by(done.drop_last()),
        }
    }
}

/// The routes that some steps removed.
pub open spec fn removed_by(done: Seq<RouteStep>) -> Seq<Ipv6Route>
    decreases done.len(),
{
    if done.len() == 0 {
        seq![]
    } else {
        match done.last() {
            RouteStep::Remove(r) => removed_by(done.drop_last()).push(r),
            RouteStep::Add(_) => removed_by(done.drop_last()),
        }
    }
}

/// How many routes are installed in all.
pub open spec fn total(listed: Seq<(Seq<char>, Seq<Ipv6Route>)>) -> int
    decreases listed.len(),
{
    if listed.len() == 0 {
        0
    } else {
        total(listed.drop_last()) + listed.last().1.len()
    }
}

/// All installed routes, peer by peer.
pub open spec fn all_routes(listed: Seq<(Seq<char>, Seq<Ipv6Route>)>) -> Seq<Ipv6Route>
    decreases listed.len(),
{
    if listed.len() == 0 {
        seq![]
    } else {
        all_routes(listed.drop_last()) + listed.last().1
    }
}

proof fn lemma_total_prefix(listed: Seq<(Seq<char>, Seq<Ipv6Route>)>, i: int)
    requires
        0 <= i <= listed.len(),
    ensures
        0 <= total(listed.take(i)) <= total(listed),
    decreases listed.len() - i,
{
    if i == listed.len() {
        assert(listed.take(i) =~= listed);
        lemma_total_nonnegative(listed);
    } else {
        lemma_total_prefix(listed, i + 1);
        assert(listed.take(i + 1).drop_last() =~= listed.take(i));
        lemma_total_nonnegative(listed.take(i));
    }
}

proof fn lemma_total_nonnegative(listed: Seq<(Seq<char>, Seq<Ipv6Route>)>)
    ensures
        0 <= total(listed),
    decreases listed.len(),
{
    if listed.len() > 0 {
        lemma_total_nonnegative(listed.drop_last());
    }
}

fn copy_routes(list: &[Ipv6Route]) -> (out: Vec<Ipv6Route>)
    ensures
        out@ == list@,
{
    vstd::slice::slice_to_vec(list)
}

impl Default for RouteManager {
    fn default() -> (m: Self)
        ensures
            m.wf(),
            m.listed() == Seq::<(Seq<char>, Seq<Ipv6Route>)>::empty(),
            m@ == Map::<Seq<char>, Seq<Ipv6Route>>::empty(),
    {
        RouteManager::new()
    }
}

impl RouteManager {
    /// Whether no peer is tracked twice, and no route twice for a peer.
    pub open spec fn wf(&self) -> bool {
        table::distinct_keys(self.listed()) && distinct_routes(self@)
    }

    /// The tracked peers and their routes, in the order in which the peers
    /// came.
    pub closed spec fn listed(&self) -> Seq<(Seq<char>, Seq<Ipv6Route>)> {
        self.installed.listed()
    }

    /// A manager that tracks nothing.
    pub fn new() -> (m: Self)
        ensures
            m.wf(),
            m.listed() == Seq::<(Seq<char>, Seq<Ipv6Route>)>::empty(),
            m@ == Map::<Seq<char>, Seq<Ipv6Route>>::empty(),
    {
        RouteManager { installed: Table::new() }
    }

    /// The routes installed for a peer.
    pub fn routes_of(&self, peer_key: &str) -> (routes: &[Ipv6Route])
        requires
            self.wf(),
        ensures
            routes@ == installed_for(self@, peer_key@),
    {
        match self.installed.get(&peer_key.to_owned()) {
            Some(r) => r.as_slice(),
            None => &[],
        }
    }

    /// What has to be done for exactly the desired routes to be installed for
    /// a peer. Installed routes that are still desired are left alone.
    pub fn plan(&self, peer_key: &str, desired: &[Ipv6Route]) -> (plan: Vec<RouteStep>)
        requires
            self.wf(),
        ensures
            plan@ == steps(installed_for(self@, peer_key@), desired@),
    {
        let current = self.routes_of(peer_key);
        let ghost gone = |r: Ipv6Route| !desired@.contains(r);
        let ghost lacking = |r: Ipv6Route| !current@.contains(r);
        let mut plan: Vec<RouteStep> = Vec::new();
        let mut i: usize = 0;
        proof {
            reveal(Seq::filter);
            assert(current@.take(0).filter(gone) =~= seq![]);
            assert(plan@ =~= removals(seq![]));
        }
        while i < current.len()
            invariant
                i <= current.len(),
                gone == (|r: Ipv6Route| !desired@.contains(r)),
                plan@ == removals(current@.take(i as int).filter(gone)),
            decreases current.len() - i,
        {
            let r = current[i];
            proof {
                assert(current@.take(i + 1) =~= current@.take(i as int).push(r));
                seqs::lemma_filter_push(current@.take(i as int), r, gone);
            }
            if !contains_route(desired, r) {
                let ghost before = current@.take(i as int).filter(gone);
                plan.push(RouteStep::Remove(r));
                assert(plan@ =~= removals(before.push(r)));
            }
            i = i + 1;
        }
        assert(current@.take(i as int) =~= current@);
        let ghost head = plan@;
        let mut seen: Vec<Ipv6Route> = Vec::new();
        let mut i: usize = 0;
        proof {
            reveal(Seq::filter);
            assert(desired@.take(0) =~= seq![]);
            assert(seqs::first_distinct(desired@.take(0)).filter(lacking) =~= seq![]);
            assert(plan@ =~= head + additions(seq![]));
        }
        while i < desired.len()
            invariant
                i <= desired.len(),
                lacking == (|r: Ipv6Route| !current@.contains(r)),
                seen@ == seqs::first_distinct(desired@.take(i as int)),
                plan@ == head + additions(
                    seqs::first_distinct(desired@.take(i as int)).filter(lacking),
                ),
            decreases desired.len() - i,
        {
            let r = desired[i];
            proof {
                assert(desired@.take(i + 1).drop_last() =~= desired@.take(i as int));
            }
            if !contains_route(seen.as_slice(), r) {
                let ghost before = seen@;
                proof {
                    seqs::lemma_filter_push(before, r, lacking);
                }
                seen.push(r);
                if !contains_route(current, r) {
                    plan.push(RouteStep::Add(r));
                    assert(plan@ =~= head + additions(before.filter(lacking).push(r)));
                }
            }
            i = i + 1;
        }
        assert(desired@.take(i as int) =~= desired@);
        plan
    }

    /// Notes that the first `done` steps of the plan for these desired routes
    /// were performed, and tells what that changed. What was not performed is
    /// planned again next time.
    pub fn sync(&mut self, peer_key: &str, desired: &[Ipv6Route], done: usize) -> (outcome:
        SyncOutcome)
        requires
            old(self).wf(),
            done <= steps(installed_for(old(self)@, peer_key@), desired@).len(),
        ensures
            final(self).wf(),
            ({
                let current = installed_for(old(self)@, peer_key@);
                let performed = steps(current, desired@).take(done as int);
                let now = after_steps(current, performed);
                &&& final(self)@ == old(self)@.insert(peer_key@, now)
                &&& final(self).listed() == table::with_entry(old(self).listed(), peer_key@, now)
                &&& outcome.added@ == added_by(performed)
                &&& outcome.removed@ == removed_by(performed)
            }),
    {
        let plan = self.plan(peer_key, desired);
        let ghost start = installed_for(self@, peer_key@);
        let mut current = copy_routes(self.routes_of(peer_key));
        let mut added: Vec<Ipv6Route> = Vec::new();
        let mut removed: Vec<Ipv6Route> = Vec::new();
        let mut i: usize = 0;
        assert(plan@.take(0) =~= seq![]);
        while i < done
            invariant
                i <= done,
                done <= plan.len(),
                current@ == after_steps(start, plan@.take(i as int)),
                added@ == added_by(plan@.take(i as int)),
                removed@ == removed_by(plan@.take(i as int)),
            decreases done - i,
        {
            assert(plan@.take(i + 1).drop_last() =~= plan@.take(i as int));
            match plan[i] {
                RouteStep::Remove(r) => {
                    let ghost other = |x: Ipv6Route| x != r;
                    let mut next: Vec<Ipv6Route> = Vec::new();
                    let mut k: usize = 0;
                    proof {
                        reveal(Seq::filter);
                        assert(current@.take(0).filter(other) =~= seq![]);
                    }
                    while k < current.len()
                        invariant
                            k <= current.len(),
                            other == (|x: Ipv6Route| x != r),
                            next@ == current@.take(k as int).filter(other),
                        decreases current.len() - k,
                    {
                        let x = current[k];
                        proof {
                            assert(current@.take(k + 1) =~= current@.take(k as int).push(x));
                            seqs::lemma_filter_push(current@.take(k as int), x, other);
                        }
                        if x != r {
                            next.push(x);
                        }
                        k = k + 1;
                    }
                    assert(current@.take(k as int) =~= current@);
                    current = next;
                    removed.push(r);
                },
                RouteStep::Add(r) => {
                    current.push(r);
                    added.push(r);
                },
            }
            i = i + 1;
        }
        proof {
            law_no_route_twice(start, desired@, done as int);
        }
        self.installed.insert(peer_key.to_owned(), current);
        SyncOutcome { added, removed }
    }

    /// Stops tracking a peer, and tells which routes to remove for it.
    pub fn remove_peer(&mut self, peer_key: &str) -> (routes: Vec<Ipv6Route>)
        requires
            old(self).wf(),
        ensures
            final(self).wf(),
            final(self)@ == old(self)@.remove(peer_key@),
            final(self).listed() == table::without_entry(old(self).listed(), peer_key@),
            routes@ == installed_for(old(self)@, peer_key@),
    {
        let routes = copy_routes(self.routes_of(peer_key));
        self.installed.remove(&peer_key.to_owned());
        routes
    }

    /// Stops tracking every peer, and tells which routes to remove.
    pub fn remove_all(&mut self) -> (routes: Vec<Ipv6Route>)
        requires
            old(self).wf(),
        ensures
            final(self).wf(),
            final(self)@ == Map::<Seq<char>, Seq<Ipv6Route>>::empty(),
            final(self).listed() == Seq::<(Seq<char>, Seq<Ipv6Route>)>::empty(),
            routes@ == all_routes(old(self).listed()),
    {
        let mut routes: Vec<Ipv6Route> = Vec::new();
        let n = self.installed.len();
        let mut i: usize = 0;
        assert(self.listed().take(0) =~= seq![]);
        while i < n
            invariant
                i <= n,
                n == self.listed().len(),
                self.listed() == old(self).listed(),
                routes@ == all_routes(self.listed().take(i as int)),
            decreases n - i,
        {
            let mut more = copy_routes(self.installed.value_at(i).as_slice());
            assert(self.listed().take(i + 1).drop_last() =~= self.listed().take(i as int));
            routes.append(&mut more);
            i = i + 1;
        }
        assert(self.listed().take(i as int) =~= self.listed());
        self.installed = Table::new();
        routes
    }

    /// How many routes are installed in all.
    pub fn installed_count(&self) -> (n: usize)
        requires
            self.wf(),
            total(self.listed()) <= usize::MAX,
        ensures
            n == total(self.listed()),
    {
        let len = self.installed.len();
        let mut n: usize = 0;
        let mut i: usize = 0;
        assert(self.listed().take(0) =~= seq![]);
        while i < len
            invariant
                i <= len,
                len == self.listed().len(),
                total(self.listed()) <= usize::MAX,
                n == total(self.listed().take(i as int)),
            decreases len - i,
        {
            proof {
                lemma_total_prefix(self.listed(), i + 1);
                assert(self.listed().take(i + 1).drop_last() =~= self.listed().take(i as int));
            }
            n = n + self.installed.value_at(i).len();
            i = i + 1;
        }
        assert(self.listed().take(i as int) =~= self.listed());
        n
    }
}

proof fn lemma_after_removals(current: Seq<Ipv6Route>, gone: Seq<Ipv6Route>)
    ensures
        after_steps(current, removals(gone)) == current.filter(|x: Ipv6Route| !gone.contains(x)),
    decreases gone.len(),
{
    let out = |x: Ipv6Route| !gone.contains(x);
    if gone.len() == 0 {
        seqs::lemma_filter_all(current, out);
    } else {
        let rest = gone.drop_last();
        let r = gone.last();
        lemma_after_removals(current, rest);
        assert(removals(gone).drop_last() =~= removals(rest));
        let f = |x: Ipv6Route| !rest.contains(x);
        let g = |x: Ipv6Route| x != r;
        seqs::lemma_filter_filter(current, f, g);
        let both = |x: Ipv6Route| f(x) && g(x);
        assert forall|i: int| 0 <= i < current.len() implies both(#[trigger] current[i]) == out(
            current[i],
        ) by {
            let x = current[i];
            assert(gone =~= rest.push(r));
            if gone.contains(x) {
                let k = choose|k: int| 0 <= k < gone.len() && gone[k] == x;
                if k < rest.len() {
                    assert(rest[k] == x);
                }
            }
            if rest.contains(x) {
                let k = choose|k: int| 0 <= k < rest.len() && rest[k] == x;
                assert(gone[k] == x);
            }
            if x == r {
                assert(gone[gone.len() - 1] == x);
            }
        }
        seqs::lemma_filter_congruent(current, both, out);
    }
}

proof fn lemma_after_additions(
    current: Seq<Ipv6Route>,
    first: Seq<RouteStep>,
    more: Seq<Ipv6Route>,
)
    ensures
        after_steps(current, first + additions(more)) == after_steps(current, first) + more,
    decreases more.len(),
{
    if more.len() == 0 {
        assert(first + additions(more) =~= first);
        assert(after_steps(current, first) + more =~= after_steps(current, first));
    } else {
        let rest = more.drop_last();
        lemma_after_additions(current, first, rest);
        let all = first + additions(more);
        assert(all.drop_last() =~= first + additions(rest));
        assert(all.last() == RouteStep::Add(more.last()));
        assert((after_steps(current, first) + rest).push(more.last()) =~= after_steps(
            current,
            first,
        ) + more);
    }
}

/// What is installed after the first `d` steps of the plan.
proof fn lemma_after_part(current: Seq<Ipv6Route>, desired: Seq<Ipv6Route>, d: int)
    requires
        0 <= d <= steps(current, desired).len(),
    ensures
        ({
            let gone = obsolete(current, desired);
            let now = after_steps(current, steps(current, desired).take(d));
            if d <= gone.len() {
                now == current.filter(|x: Ipv6Route| !gone.take(d).contains(x))
            } else {
                now == kept(current, desired) + missing(current, desired).take(d - gone.len())
            }
        }),
{
    let gone = obsolete(current, desired);
    let more = missing(current, desired);
    let all = steps(current, desired);
    if d <= gone.len() {
        assert(all.take(d) =~= removals(gone.take(d)));
        lemma_after_removals(current, gone.take(d));
    } else {
        let e = d - gone.len();
        assert(all.take(d) =~= removals(gone) + additions(more.take(e)));
        lemma_after_additions(current, removals(gone), more.take(e));
        lemma_after_removals(current, gone);
        let out = |x: Ipv6Route| !gone.contains(x);
        let wanted = |x: Ipv6Route| desired.contains(x);
        seqs::lemma_filter_members(current, |r: Ipv6Route| !desired.contains(r));
        assert forall|i: int| 0 <= i < current.len() implies out(#[trigger] current[i]) == wanted(
            current[i],
        ) by {
            assert(current.contains(current[i]));
            assert(gone.contains(current[i]) <==> current.contains(current[i])
                && !desired.contains(current[i]));
        }
        seqs::lemma_filter_congruent(current, out, wanted);
    }
}

/// Performing the whole plan leaves the routes that stayed, followed by those
/// that were missing: exactly the desired ones are installed, and each once if
/// no route was installed twice before.
pub proof fn law_full_sync(current: Seq<Ipv6Route>, desired: Seq<Ipv6Route>)
    ensures
        after_steps(current, steps(current, desired)) == kept(current, desired) + missing(
            current,
            desired,
        ),
        forall|r: Ipv6Route| #[trigger]
            after_steps(current, steps(current, desired)).contains(r) <==> desired.contains(r),
        current.no_duplicates() ==> after_steps(
            current,
            steps(current, desired),
        ).no_duplicates(),
{
    let gone = obsolete(current, desired);
    let more = missing(current, desired);
    let stay = kept(current, desired);
    let all = steps(current, desired);
    let end = after_steps(current, all);
    let fd = seqs::first_distinct(desired);
    let wanted = |r: Ipv6Route| desired.contains(r);
    let lacking = |r: Ipv6Route| !current.contains(r);
    lemma_after_part(current, desired, all.len() as int);
    assert(all.take(all.len() as int) =~= all);
    assert(more.take(more.len() as int) =~= more);
    if more.len() == 0 {
        assert(gone.take(gone.len() as int) =~= gone);
        lemma_kept_when_none_obsolete(current, desired);
        assert(stay + more =~= stay);
    }
    seqs::lemma_filter_members(current, wanted);
    seqs::lemma_first_distinct(desired);
    seqs::lemma_filter_members(fd, lacking);
    assert forall|r: Ipv6Route| #[trigger] end.contains(r) <==> desired.contains(r) by {
        if end.contains(r) {
            let k = choose|k: int| 0 <= k < end.len() && end[k] == r;
            if k < stay.len() {
                assert(stay[k] == r);
                assert(stay.contains(r));
            } else {
                assert(more[k - stay.len()] == r);
                assert(more.contains(r));
                assert(fd.contains(r));
            }
        }
        if desired.contains(r) {
            if current.contains(r) {
                assert(stay.contains(r));
                let k = choose|k: int| 0 <= k < stay.len() && stay[k] == r;
                assert(end[k] == r);
            } else {
                assert(fd.contains(r));
                assert(more.contains(r));
                let k = choose|k: int| 0 <= k < more.len() && more[k] == r;
                assert(end[stay.len() + k] == r);
            }
        }
    }
    if current.no_duplicates() {
        assert forall|i: int, j: int|
            0 <= i < end.len() && 0 <= j < end.len() && i != j implies end[i] != end[j] by {
            if i < stay.len() {
                assert(stay.contains(stay[i]));
            } else {
                assert(more.contains(more[i - stay.len()]));
            }
            if j < stay.len() {
                assert(stay.contains(stay[j]));
            } else {
                assert(more.contains(more[j - stay.len()]));
            }
        }
    }
}

proof fn lemma_kept_when_none_obsolete(current: Seq<Ipv6Route>, desired: Seq<Ipv6Route>)
    ensures
        current.filter(|x: Ipv6Route| !obsolete(current, desired).contains(x)) == kept(
            current,
            desired,
        ),
{
    let gone = obsolete(current, desired);
    let out = |x: Ipv6Route| !gone.contains(x);
    let wanted = |x: Ipv6Route| desired.contains(x);
    seqs::lemma_filter_members(current, |r: Ipv6Route| !desired.contains(r));
    assert forall|i: int| 0 <= i < current.len() implies out(#[trigger] current[i]) == wanted(
        current[i],
    ) by {
        assert(current.contains(current[i]));
        assert(gone.contains(current[i]) <==> current.contains(current[i]) && !desired.contains(
            current[i],
        ));
    }
    seqs::lemma_filter_congruent(current, out, wanted);
}

/// When performing a plan stops half way, the next plan is what is left of it.
pub proof fn law_interrupted_sync_resumes(
    current: Seq<Ipv6Route>,
    desired: Seq<Ipv6Route>,
    d: int,
)
    requires
        current.no_duplicates(),
        0 <= d <= steps(current, desired).len(),
    ensures
        steps(after_steps(current, steps(current, desired).take(d)), desired) == steps(
            current,
            desired,
        ).skip(d),
{
    let gone = obsolete(current, desired);
    let more = missing(current, desired);
    let fd = seqs::first_distinct(desired);
    let all = steps(current, desired);
    let now = after_steps(current, all.take(d));
    let unwanted = |r: Ipv6Route| !desired.contains(r);
    let wanted = |r: Ipv6Route| desired.contains(r);
    let lacking = |r: Ipv6Route| !current.contains(r);
    let lacking_now = |r: Ipv6Route| !now.contains(r);
    lemma_after_part(current, desired, d);
    seqs::lemma_filter_members(current, unwanted);
    seqs::lemma_filter_members(current, wanted);
    seqs::lemma_first_distinct(desired);
    seqs::lemma_filter_members(fd, lacking);
    if d <= gone.len() {
        let out = |x: Ipv6Route| !gone.take(d).contains(x);
        // What is still obsolete is what was not removed yet.
        seqs::lemma_filter_filter(current, out, unwanted);
        seqs::lemma_filter_filter(current, unwanted, out);
        seqs::lemma_filter_congruent(
            current,
            |x: Ipv6Route| out(x) && unwanted(x),
            |x: Ipv6Route| unwanted(x) && out(x),
        );
        seqs::lemma_filter_skip(gone, d);
        assert(obsolete(now, desired) == gone.skip(d));
        // What is missing has not changed.
        seqs::lemma_filter_members(current, out);
        assert forall|i: int| 0 <= i < fd.len() implies lacking_now(#[trigger] fd[i]) == lacking(
            fd[i],
        ) by {
            let r = fd[i];
            assert(fd.contains(r));
            assert(desired.contains(r));
            assert(now.contains(r) <==> current.contains(r) && out(r));
            if gone.take(d).contains(r) {
                let k = choose|k: int| 0 <= k < gone.take(d).len() && gone.take(d)[k] == r;
                assert(gone[k] == r);
                assert(gone.contains(r));
            }
        }
        seqs::lemma_filter_congruent(fd, lacking_now, lacking);
        assert(missing(now, desired) == more);
        assert(removals(gone.skip(d)) + additions(more) =~= all.skip(d));
    } else {
        let e = d - gone.len();
        let stay = kept(current, desired);
        let got = more.take(e);
        assert(now == stay + got);
        // Nothing is obsolete any more.
        assert forall|i: int| 0 <= i < now.len() implies !unwanted(#[trigger] now[i]) by {
            if i < stay.len() {
                assert(stay.contains(stay[i]));
            } else {
                assert(more[i - stay.len()] == now[i]);
                assert(more.contains(now[i]));
                assert(fd.contains(now[i]));
            }
        }
        seqs::lemma_filter_none(now, unwanted);
        // What is missing is what was not added yet.
        let not_got = |x: Ipv6Route| !got.contains(x);
        seqs::lemma_filter_filter(fd, lacking, not_got);
        let both = |x: Ipv6Route| lacking(x) && not_got(x);
        assert forall|i: int| 0 <= i < fd.len() implies lacking_now(#[trigger] fd[i]) == both(
            fd[i],
        ) by {
            let r = fd[i];
            assert(fd.contains(r));
            assert(desired.contains(r));
            assert(stay.contains(r) <==> current.contains(r));
            if now.contains(r) {
                let k = choose|k: int| 0 <= k < now.len() && now[k] == r;
                if k < stay.len() {
                    assert(stay[k] == r);
                    assert(stay.contains(r));
                } else {
                    assert(got[k - stay.len()] == r);
                }
            }
            if stay.contains(r) {
                let k = choose|k: int| 0 <= k < stay.len() && stay[k] == r;
                assert(now[k] == r);
            }
            if got.contains(r) {
                let k = choose|k: int| 0 <= k < got.len() && got[k] == r;
                assert(now[stay.len() + k] == r);
            }
        }
        seqs::lemma_filter_congruent(fd, lacking_now, both);
        seqs::lemma_filter_skip(more, e);
        assert(missing(now, desired) == more.skip(e));
        assert(removals(seq![]) + additions(more.skip(e)) =~= all.skip(d));
    }
}

/// Synchronising again to the same routes has nothing to do.
pub proof fn law_sync_idempotent(current: Seq<Ipv6Route>, desired: Seq<Ipv6Route>)
    ensures
        steps(after_steps(current, steps(current, desired)), desired) == Seq::<RouteStep>::empty(),
{
    let end = after_steps(current, steps(current, desired));
    let fd = seqs::first_distinct(desired);
    let unwanted = |r: Ipv6Route| !desired.contains(r);
    let lacking = |r: Ipv6Route| !end.contains(r);
    law_full_sync(current, desired);
    seqs::lemma_first_distinct(desired);
    assert forall|i: int| 0 <= i < end.len() implies !unwanted(#[trigger] end[i]) by {
        assert(end.contains(end[i]));
    }
    seqs::lemma_filter_none(end, unwanted);
    assert forall|i: int| 0 <= i < fd.len() implies !lacking(#[trigger] fd[i]) by {
        assert(fd.contains(fd[i]));
        assert(desired.contains(fd[i]));
        assert(end.contains(fd[i]));
    }
    seqs::lemma_filter_none(fd, lacking);
    assert(steps(end, desired) =~= Seq::<RouteStep>::empty());
}

/// However far a plan is performed, no route is installed twice for a peer.
pub proof fn law_no_route_twice(current: Seq<Ipv6Route>, desired: Seq<Ipv6Route>, d: int)
    requires
        current.no_duplicates(),
        0 <= d <= steps(current, desired).len(),
    ensures
        after_steps(current, steps(current, desired).take(d)).no_duplicates(),
{
    let gone = obsolete(current, desired);
    lemma_after_part(current, desired, d);
    if d <= gone.len() {
        seqs::lemma_filter_members(current, |x: Ipv6Route| !gone.take(d).contains(x));
    } else {
        law_full_sync(current, desired);
        let end = kept(current, desired) + missing(current, desired);
        let now = after_steps(current, steps(current, desired).take(d));
        assert forall|i: int| 0 <= i < now.len() implies #[trigger] now[i] == end[i] by {}
    }
}

/// A sound manager lists each peer once, has no route twice for a peer, and
/// holds for each peer what it lists.
pub proof fn law_listing_agrees(m: &RouteManager, i: int)
    requires
        m.wf(),
    ensures
        m@ == table::as_map(m.listed()),
        table::distinct_keys(m.listed()),
        distinct_routes(m@),
        m@.dom().finite(),
        m@.dom().len() == m.listed().len(),
        0 <= i < m.listed().len() ==> installed_for(m@, m.listed()[i].0) == m.listed()[i].1,
{
    table::lemma_as_map_len(m.listed());
    if 0 <= i < m.listed().len() {
        table::lemma_as_map_entry(m.listed(), i);
    }
}

proof fn lemma_total_update(
    s: Seq<(Seq<char>, Seq<Ipv6Route>)>,
    i: int,
    e: (Seq<char>, Seq<Ipv6Route>),
)
    requires
        0 <= i < s.len(),
    ensures
        total(s.update(i, e)) == total(s) - s[i].1.len() + e.1.len(),
    decreases s.len(),
{
    let t = s.update(i, e);
    if i == s.len() - 1 {
        assert(t.drop_last() =~= s.drop_last());
    } else {
        assert(t.drop_last() =~= s.drop_last().update(i, e));
        lemma_total_update(s.drop_last(), i, e);
    }
}

proof fn lemma_total_remove(s: Seq<(Seq<char>, Seq<Ipv6Route>)>, i: int)
    requires
        0 <= i < s.len(),
    ensures
        total(s.remove(i)) == total(s) - s[i].1.len(),
    decreases s.len(),
{
    let t = s.remove(i);
    if i == s.len() - 1 {
        assert(t =~= s.drop_last());
    } else {
        assert(t.drop_last() =~= s.drop_last().remove(i));
        lemma_total_remove(s.drop_last(), i);
    }
}

/// The number of installed routes follows every change: it is 0 at first, and
/// synchronising or dropping a peer changes it by what that peer gained or
/// lost.
pub proof fn law_count_follows(
    listed: Seq<(Seq<char>, Seq<Ipv6Route>)>,
    peer: Seq<char>,
    routes: Seq<Ipv6Route>,
)
    requires
        table::distinct_keys(listed),
    ensures
        total(seq![]) == 0,
        total(listed) >= 0,
        ({
            let before = installed_for(table::as_map(listed), peer).len();
            &&& total(table::with_entry(listed, peer, routes)) == total(listed) - before
                + routes.len()
            &&& total(table::without_entry(listed, peer)) == total(listed) - before
        }),
{
    lemma_total_nonnegative(listed);
    if table::has_key(listed, peer) {
        let i = table::key_index(listed, peer);
        assert(0 <= i < listed.len() && listed[i].0 == peer);
        table::lemma_as_map_entry(listed, i);
        lemma_total_update(listed, i, (peer, routes));
        lemma_total_remove(listed, i);
    } else {
        let t = listed.push((peer, routes));
        assert(t.drop_last() =~= listed);
    }
}

proof fn lemma_all_routes(listed: Seq<(Seq<char>, Seq<Ipv6Route>)>, r: Ipv6Route)
    ensures
        all_routes(listed).len() == total(listed),
        all_routes(listed).contains(r) <==> exists|i: int|
            0 <= i < listed.len() && (#[trigger] listed[i]).1.contains(r),
    decreases listed.len(),
{
    if listed.len() > 0 {
        let front = listed.drop_last();
        let a = all_routes(front);
        let b = listed.last().1;
        lemma_all_routes(front, r);
        if all_routes(listed).contains(r) {
            let k = choose|k: int| 0 <= k < (a + b).len() && (a + b)[k] == r;
            if k < a.len() {
                assert(a[k] == r);
                let i = choose|i: int| 0 <= i < front.len() && (#[trigger] front[i]).1.contains(r);
                assert(listed[i].1.contains(r));
            } else {
                assert(b[k - a.len()] == r);
                assert(listed[listed.len() - 1].1.contains(r));
            }
        }
        if exists|i: int| 0 <= i < listed.len() && (#[trigger] listed[i]).1.contains(r) {
            let i = choose|i: int| 0 <= i < listed.len() && (#[trigger] listed[i]).1.contains(r);
            if i < front.len() {
                assert(front[i].1.contains(r));
                let k = choose|k: int| 0 <= k < a.len() && a[k] == r;
                assert((a + b)[k] == r);
            } else {
                let k = choose|k: int| 0 <= k < b.len() && b[k] == r;
                assert((a + b)[a.len() + k] == r);
            }
        }
    }
}

/// Removing everything removes what is installed for some peer, and nothing
/// else: as many routes as are counted.
pub proof fn law_remove_all_is_everything(
    listed: Seq<(Seq<char>, Seq<Ipv6Route>)>,
    r: Ipv6Route,
)
    requires
        table::distinct_keys(listed),
    ensures
        all_routes(seq![]) == Seq::<Ipv6Route>::empty(),
        all_routes(listed).len() == total(listed),
        all_routes(listed).contains(r) <==> exists|peer: Seq<char>|
            (#[trigger] installed_for(table::as_map(listed), peer)).contains(r),
{
    lemma_all_routes(listed, r);
    let m = table::as_map(listed);
    if all_routes(listed).contains(r) {
        let i = choose|i: int| 0 <= i < listed.len() && (#[trigger] listed[i]).1.contains(r);
        table::lemma_as_map_entry(listed, i);
        assert(installed_for(m, listed[i].0).contains(r));
    }
    if exists|peer: Seq<char>| (#[trigger] installed_for(m, peer)).contains(r) {
        let peer = choose|peer: Seq<char>| (#[trigger] installed_for(m, peer)).contains(r);
        assert(m.dom().contains(peer));
        let i = table::key_index(listed, peer);
        assert(0 <= i < listed.len() && listed[i].0 == peer);
        assert(listed[i].1.contains(r));
    }
}

/// Synchronising or dropping one peer leaves the routes of every other peer as
/// they were.
pub proof fn law_other_peers_routes_untouched(
    m: Map<Seq<char>, Seq<Ipv6Route>>,
    peer: Seq<char>,
    other: Seq<char>,
    routes: Seq<Ipv6Route>,
)
    requires
        peer != other,
    ensures
        installed_for(m.insert(peer, routes), other) == installed_for(m, other),
        installed_for(m.remove(peer), other) == installed_for(m, other),
        installed_for(m.remove(peer), peer) == Seq::<Ipv6Route>::empty(),
{
}

/// A plan removes exactly what is installed and no longer desired, and adds
/// exactly what is desired and not installed; what stays is not touched. All
/// removals come before any addition.
pub proof fn law_plan_makes_the_difference(
    current: Seq<Ipv6Route>,
    desired: Seq<Ipv6Route>,
    r: Ipv6Route,
    i: int,
    j: int,
)
    ensures
        ({
            let plan = steps(current, desired);
            &&& plan.contains(RouteStep::Remove(r)) <==> current.contains(r) && !desired.contains(r)
            &&& plan.contains(RouteStep::Add(r)) <==> desired.contains(r) && !current.contains(r)
            &&& 0 <= i < j < plan.len() && plan[i] is Add ==> plan[j] is Add
        }),
{
    let gone = obsolete(current, desired);
    let more = missing(current, desired);
    let fd = seqs::first_distinct(desired);
    let plan = steps(current, desired);
    let unwanted = |r: Ipv6Route| !desired.contains(r);
    let lacking = |r: Ipv6Route| !current.contains(r);
    seqs::lemma_filter_members(current, unwanted);
    seqs::lemma_first_distinct(desired);
    seqs::lemma_filter_members(fd, lacking);
    assert(gone.contains(r) <==> current.contains(r) && unwanted(r));
    assert(more.contains(r) <==> fd.contains(r) && lacking(r));
    if plan.contains(RouteStep::Remove(r)) {
        let k = choose|k: int| 0 <= k < plan.len() && plan[k] == RouteStep::Remove(r);
        if k < gone.len() {
            assert(gone[k] == r);
            assert(gone.contains(r));
        } else {
            assert(plan[k] == RouteStep::Add(more[k - gone.len()]));
        }
    }
    if gone.contains(r) {
        let k = choose|k: int| 0 <= k < gone.len() && gone[k] == r;
        assert(plan[k] == RouteStep::Remove(r));
    }
    if plan.contains(RouteStep::Add(r)) {
        let k = choose|k: int| 0 <= k < plan.len() && plan[k] == RouteStep::Add(r);
        if k < gone.len() {
            assert(plan[k] == RouteStep::Remove(gone[k]));
        } else {
            assert(more[k - gone.len()] == r);
            assert(more.contains(r));
        }
    }
    if more.contains(r) {
        let k = choose|k: int| 0 <= k < more.len() && more[k] == r;
        assert(plan[gone.len() + k] == RouteStep::Add(r));
    }
    if 0 <= i < j < plan.len() && plan[i] is Add {
        if i < gone.len() {
            assert(plan[i] == RouteStep::Remove(gone[i]));
        }
        assert(plan[j] == RouteStep::Add(more[j - gone.len()]));
    }
}

/// What an outcome says was added and removed is what the performed steps added
/// and removed.
pub proof fn law_outcome_tells_the_steps(done: Seq<RouteStep>, r: Ipv6Route)
    ensures
        added_by(done).contains(r) <==> done.contains(RouteStep::Add(r)),
        removed_by(done).contains(r) <==> done.contains(RouteStep::Remove(r)),
        added_by(done).len() + removed_by(done).len() == done.len(),
    decreases done.len(),
{
    if done.len() > 0 {
        let rest = done.drop_last();
        let x = done.last();
        law_outcome_tells_the_steps(rest, r);
        assert(done =~= rest.push(x));
        lemma_push_contains(rest, x, RouteStep::Add(r));
        lemma_push_contains(rest, x, RouteStep::Remove(r));
        match x {
            RouteStep::Add(y) => {
                lemma_push_contains(added_by(rest), y, r);
            },
            RouteStep::Remove(y) => {
                lemma_push_contains(removed_by(rest), y, r);
            },
        }
    }
}

proof fn lemma_push_contains<A>(s: Seq<A>, x: A, y: A)
    ensures
        s.push(x).contains(y) <==> s.contains(y) || x == y,
{
    let t = s.push(x);
    if t.contains(y) {
        let k = choose|k: int| 0 <= k < t.len() && t[k] == y;
        if k < s.len() {
            assert(s[k] == y);
        }
    }
    if s.contains(y) {
        let k = choose|k: int| 0 <= k < s.len() && s[k] == y;
        assert(t[k] == y);
    }
    if x == y {
        assert(t[s.len() as int] == y);
    }
}

/// What is installed for a peer is what is tracked for it, and nothing for a peer
/// that is not tracked.
pub proof fn law_installed_routes(m: Map<Seq<char>, Seq<Ipv6Route>>, peer: Seq<char>)
    ensures
        m.dom().contains(peer) ==> installed_for(m, peer) == m[peer],
        !m.dom().contains(peer) ==> installed_for(m, peer).len() == 0,
{
}

} // verus!
