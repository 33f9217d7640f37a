//! Session-cache bookkeeping of the transport engine.
//!
//! The engine keeps one live session per ingress address and hands out
//! clones on demand. The handshake itself is I/O and happens outside
//! the library; the cache and the acquisition decision are held here,
//! generic over the session type the transport provides.

use vstd::prelude::*;
use crate::keys::IngressAddress;

verus! {

/// The mapping an association list of sessions denotes; a later entry
/// for the same address overrides an earlier one.
pub open spec fn session_map<S>(s: Seq<(IngressAddress, S)>) -> Map<IngressAddress, S>
    decreases s.len(),
{
    if s.len() == 0 {
        Map::empty()
    } else {
        session_map(s.drop_last()).insert(s.last().0, s.last().1)
    }
}

/// No two entries of the list share an address.
pub open spec fn distinct_addrs<S>(s: Seq<(IngressAddress, S)>) -> bool {
    forall|i: int, j: int| 0 <= i < j < s.len() ==> s[i].0 != s[j].0
}

proof fn lemma_session_map_domain<S>(s: Seq<(IngressAddress, S)>)
    ensures
        forall|a: IngressAddress|
            #[trigger] session_map(s).contains_key(a) <==> (exists|i: int|
                0 <= i < s.len() && s[i].0 == a),
    decreases s.len(),
{
    if s.len() == 0 {
    } else {
        let d = s.drop_last();
        lemma_session_map_domain(d);
        assert(session_map(s) == session_map(d).insert(s.last().0, s.last().1));
        assert forall|a: IngressAddress| #[trigger]
            session_map(s).contains_key(a) implies (exists|i: int|
            0 <= i < s.len() && s[i].0 == a) by {
            if a == s.last().0 {
                assert(s[s.len() - 1].0 == a);
            } else {
                assert(session_map(d).contains_key(a));
                let i = choose|i: int| 0 <= i < d.len() && d[i].0 == a;
                assert(d[i] == s[i]);
                assert(s[i].0 == a);
            }
        }
        assert forall|a: IngressAddress| (exists|i: int| 0 <= i < s.len() && s[i].0 == a) implies
            #[trigger] session_map(s).contains_key(a) by {
            let i = choose|i: int| 0 <= i < s.len() && s[i].0 == a;
            if i == s.len() - 1 {
                assert(session_map(s).contains_key(s.last().0));
            } else {
                assert(d[i] == s[i]);
                assert(d[i].0 == a);
                assert(session_map(d).contains_key(a));
            }
        }
    }
}

proof fn lemma_session_map_values<S>(s: Seq<(IngressAddress, S)>)
    requires
        distinct_addrs(s),
    ensures
        forall|i: int|
            0 <= i < s.len() ==> session_map(s).contains_key(#[trigger] s[i].0) && session_map(
                s,
            )[s[i].0] == s[i].1,
    decreases s.len(),
{
    if s.len() == 0 {
    } else {
        let d = s.drop_last();
        assert(distinct_addrs(d));
        lemma_session_map_values(d);
        assert(session_map(s) == session_map(d).insert(s.last().0, s.last().1));
        assert forall|i: int|
            0 <= i < s.len() implies session_map(s).contains_key(#[trigger] s[i].0)
            && session_map(s)[s[i].0] == s[i].1 by {
            if i == s.len() - 1 {
            } else {
                assert(d[i] == s[i]);
                assert(s[i].0 != s.last().0);
            }
        }
    }
}

proof fn lemma_session_map_update<S>(s: Seq<(IngressAddress, S)>, j: int, p: (IngressAddress, S))
    requires
        distinct_addrs(s),
        0 <= j < s.len(),
        p.0 == s[j].0,
    ensures
        session_map(s.update(j, p)) == session_map(s).insert(p.0, p.1),
        distinct_addrs(s.update(j, p)),
    decreases s.len(),
{
    let u = s.update(j, p);
    assert(forall|i: int| 0 <= i < s.len() && i != j ==> u[i] == s[i]);
    if j == s.len() - 1 {
        assert(u.drop_last() =~= s.drop_last());
        assert(u.drop_last() == s.drop_last());
        assert(u.last() == p);
        assert(session_map(u) =~= session_map(s).insert(p.0, p.1));
    } else {
        let d = s.drop_last();
        assert(distinct_addrs(d));
        assert(d[j] == s[j]);
        lemma_session_map_update(d, j, p);
        assert(u.drop_last() =~= d.update(j, p));
        assert(u.drop_last() == d.update(j, p));
        assert(u.last() == s.last());
        assert(s.last().0 != p.0);
        assert(session_map(u) =~= session_map(s).insert(p.0, p.1));
    }
}

proof fn lemma_session_map_remove<S>(s: Seq<(IngressAddress, S)>, j: int)
    requires
        distinct_addrs(s),
        0 <= j < s.len(),
    ensures
        session_map(s.remove(j)) == session_map(s).remove(s[j].0),
        distinct_addrs(s.remove(j)),
    decreases s.len(),
{
    let u = s.remove(j);
    lemma_session_map_domain(s.drop_last());
    if j == s.len() - 1 {
        assert(u =~= s.drop_last());
        assert(u == s.drop_last());
        assert(!session_map(s.drop_last()).contains_key(s[j].0));
        assert(session_map(u) =~= session_map(s).remove(s[j].0));
    } else {
        let d = s.drop_last();
        assert(distinct_addrs(d));
        assert(d[j] == s[j]);
        lemma_session_map_remove(d, j);
        assert(u.drop_last() =~= d.remove(j));
        assert(u.drop_last() == d.remove(j));
        assert(u.last() == s.last());
        assert(s.last().0 != s[j].0);
        assert(session_map(u) =~= session_map(s).remove(s[j].0));
        assert(forall|i: int| 0 <= i < j ==> u[i] == s[i]);
        assert(forall|i: int| j <= i < u.len() ==> u[i] == s[i + 1]);
        assert(distinct_addrs(u));
    }
}

/// The cache of live sessions, one per ingress address.
///
/// Its view is a map from address to session.
pub struct SessionCache<S> {
    entries: Vec<(IngressAddress, S)>,
}

impl<S> SessionCache<S> {
    #[verifier::type_invariant]
    spec fn wf(self) -> bool {
        distinct_addrs(self.entries@)
    }
}

impl<S> View for SessionCache<S> {
    type V = Map<IngressAddress, S>;

    closed spec fn view(&self) -> Map<IngressAddress, S> {
        session_map(self.entries@)
    }
}

impl<S> SessionCache<S> {
    /// An empty cache.
    pub fn new() -> (r: Self)
        ensures
            r@ == Map::<IngressAddress, S>::empty(),
    {
        SessionCache { entries: Vec::new() }
    }

    /// The cached session for an address, if any.
    pub fn lookup(&self, target: IngressAddress) -> (r: Option<&S>)
        ensures
            match r {
                Some(s) => self@.contains_key(target) && *s == self@[target],
                None => !self@.contains_key(target),
            },
    {
        proof {
            use_type_invariant(&*self);
            lemma_session_map_domain(self.entries@);
            lemma_session_map_values(self.entries@);
        }
        let mut i: usize = 0;
        while i < self.entries.len()
            invariant
                i <= self.entries@.len(),
                forall|j: int| 0 <= j < i ==> self.entries@[j].0 != target,
            decreases self.entries@.len() - i,
        {
            if self.entries[i].0 == target {
                proof {
                    use_type_invariant(&*self);
                    lemma_session_map_values(self.entries@);
                    assert(self.entries@[i as int].0 == target);
                }
                return Some(&self.entries[i].1);
            }
            i = i + 1;
        }
        proof {
            lemma_session_map_domain(self.entries@);
        }
        None
    }

    /// Store the session for an address, replacing a cached one.
    pub fn insert(&mut self, target: IngressAddress, session: S)
        ensures
            final(self)@ == old(self)@.insert(target, session),
    {
        proof {
            use_type_invariant(&*self);
        }
        let ghost orig = self.entries@;
        let mut entries: Vec<(IngressAddress, S)> = Vec::new();
        std::mem::swap(&mut entries, &mut self.entries);
        match find_addr(&entries, target) {
            Some(i) => {
                proof {
                    assert(orig[i as int].0 == target);
                    lemma_session_map_update(orig, i as int, (target, session));
                }
                entries[i] = (target, session);
            },
            None => {
                entries.push((target, session));
                proof {
                    assert(entries@.drop_last() =~= orig);
                    assert(entries@.drop_last() == orig);
                    assert(entries@.last() == (target, session));
                    assert(distinct_addrs(entries@));
                }
            },
        }
        self.entries = entries;
    }

    /// Drop the cached session for an address, if any.
    pub fn remove(&mut self, target: IngressAddress)
        ensures
            final(self)@ == old(self)@.remove(target),
    {
        proof {
            use_type_invariant(&*self);
        }
        let ghost orig = self.entries@;
        let mut entries: Vec<(IngressAddress, S)> = Vec::new();
        std::mem::swap(&mut entries, &mut self.entries);
        match find_addr(&entries, target) {
            Some(i) => {
                proof {
                    assert(orig[i as int].0 == target);
                    lemma_session_map_remove(orig, i as int);
                }
                entries.remove(i);
            },
            None => {
                proof {
                    lemma_session_map_domain(orig);
                    assert(!session_map(orig).contains_key(target));
                    assert(session_map(orig).remove(target) =~= session_map(orig));
                }
            },
        }
        self.entries = entries;
    }

    /// How many sessions are cached.
    pub fn len(&self) -> (r: usize)
        ensures
            r == self@.dom().len(),
    {
        proof {
            use_type_invariant(&*self);
            lemma_session_map_finite(self.entries@);
            lemma_session_map_len(self.entries@);
        }
        self.entries.len()
    }
}

/// Index of the entry for an address, if one is held.
fn find_addr<S>(v: &Vec<(IngressAddress, S)>, target: IngressAddress) -> (r: Option<usize>)
    ensures
        match r {
            Some(i) => i < v@.len() && v@[i as int].0 == target,
            None => forall|j: int| 0 <= j < v@.len() ==> v@[j].0 != target,
        },
{
    let mut i: usize = 0;
    while i < v.len()
        invariant
            i <= v@.len(),
            forall|j: int| 0 <= j < i ==> v@[j].0 != target,
        decreases v@.len() - i,
    {
        if v[i].0 == target {
            return Some(i);
        }
        i = i + 1;
    }
    None
}

proof fn lemma_session_map_finite<S>(s: Seq<(IngressAddress, S)>)
    ensures
        session_map(s).dom().finite(),
    decreases s.len(),
{
    if s.len() == 0 {
    } else {
        lemma_session_map_finite(s.drop_last());
    }
}

proof fn lemma_session_map_len<S>(s: Seq<(IngressAddress, S)>)
    requires
        distinct_addrs(s),
    ensures
        session_map(s).dom().len() == s.len(),
    decreases s.len(),
{
    if s.len() == 0 {
        assert(session_map(s).dom() =~= Set::<IngressAddress>::empty());
    } else {
        let d = s.drop_last();
        assert(distinct_addrs(d));
        lemma_session_map_len(d);
        lemma_session_map_finite(d);
        lemma_session_map_domain(d);
        assert(!session_map(d).contains_key(s.last().0));
        assert(session_map(s).dom() =~= session_map(d).dom().insert(s.last().0));
    }
}

/// What the engine does for a send target after probing the cache.
pub enum AcquireAction {
    /// A live session is cached: clone and use it.
    UseCached,
    /// No usable session: handshake, then insert the fresh one.
    Handshake,
}

/// One acquisition step: given whether the probe of the cached
/// session found it terminally closed (or found no session at all),
/// decide, and evict a session that is stale. A cached session is
/// reused only when its terminal-closed probe came back false.
pub fn acquire_step<S>(
    cache: &mut SessionCache<S>,
    target: IngressAddress,
    probe_closed: Option<bool>,
) -> (r: AcquireAction)
    requires
        (old(cache)@.contains_key(target) <==> probe_closed is Some),
    ensures
        r is UseCached <==> probe_closed == Some(false),
        r is UseCached ==> final(cache)@ == old(cache)@,
        r is Handshake ==> final(cache)@ == old(cache)@.remove(target),
{
    match probe_closed {
        Some(false) => AcquireAction::UseCached,
        _ => {
            cache.remove(target);
            AcquireAction::Handshake
        },
    }
}

/// Cache freshness: once an acquisition has stored its fresh session,
/// a following acquisition for the same target finds exactly that
/// session cached.
pub proof fn lemma_cache_freshness<S>(m: Map<IngressAddress, S>, target: IngressAddress, s: S)
    ensures
        m.insert(target, s).contains_key(target),
        m.insert(target, s)[target] == s,
{
}

} // verus!
