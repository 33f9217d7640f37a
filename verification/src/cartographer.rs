//! Cluster topology, leader schedule, slot clock and routing queries.
//!
//! The cartographer is the single source of truth for "where do I send
//! a transaction if the current slot is S?". It holds the node map
//! (validator key to ingress address), the leader schedule (absolute
//! slot to validator key), the current slot and epoch, and the
//! deny-list it consults on every routing answer. Upstream fetches are
//! I/O and happen outside the library; their results are handed to the
//! `apply_*` methods, which hold the replacement rules.

use vstd::prelude::*;
use std::collections::HashMap;
use crate::blocklist::Blocklist;
use crate::keys::{parse_base58_key, parsed_key, IngressAddress, ValidatorKey};

verus! {

broadcast use vstd::std_specs::hash::group_hash_axioms;

/// The mapping an association list denotes; a later entry for the same
/// key overrides an earlier one.
pub open spec fn entries_map(s: Seq<(ValidatorKey, IngressAddress)>) -> Map<
    Seq<u8>,
    IngressAddress,
>
    decreases s.len(),
{
    if s.len() == 0 {
        Map::empty()
    } else {
        entries_map(s.drop_last()).insert(s.last().0@, s.last().1)
    }
}

/// No two entries of the list share a key.
pub open spec fn distinct_entry_keys(s: Seq<(ValidatorKey, IngressAddress)>) -> bool {
    forall|i: int, j: int| 0 <= i < j < s.len() ==> s[i].0@ != s[j].0@
}

proof fn lemma_entries_map_domain(s: Seq<(ValidatorKey, IngressAddress)>)
    ensures
        forall|k: Seq<u8>|
            #[trigger] entries_map(s).contains_key(k) <==> (exists|i: int|
                0 <= i < s.len() && s[i].0@ == k),
    decreases s.len(),
{
    if s.len() == 0 {
    } else {
        let d = s.drop_last();
        lemma_entries_map_domain(d);
        assert(entries_map(s) == entries_map(d).insert(s.last().0@, s.last().1));
        assert forall|k: Seq<u8>| #[trigger] entries_map(s).contains_key(k) implies (exists|i: int|
            0 <= i < s.len() && s[i].0@ == k) by {
            if k == s.last().0@ {
                assert(s[s.len() - 1].0@ == k);
            } else {
                assert(entries_map(d).contains_key(k));
                let i = choose|i: int| 0 <= i < d.len() && d[i].0@ == k;
                assert(d[i] == s[i]);
                assert(s[i].0@ == k);
            }
        }
        assert forall|k: Seq<u8>| (exists|i: int| 0 <= i < s.len() && s[i].0@ == k) implies
            #[trigger] entries_map(s).contains_key(k) by {
            let i = choose|i: int| 0 <= i < s.len() && s[i].0@ == k;
            if i == s.len() - 1 {
                assert(entries_map(s).contains_key(s.last().0@));
            } else {
                assert(d[i] == s[i]);
                assert(d[i].0@ == k);
                assert(entries_map(d).contains_key(k));
            }
        }
    }
}

proof fn lemma_entries_map_values(s: Seq<(ValidatorKey, IngressAddress)>)
    requires
        distinct_entry_keys(s),
    ensures
        forall|i: int|
            0 <= i < s.len() ==> entries_map(s).contains_key(#[trigger] s[i].0@) && entries_map(
                s,
            )[s[i].0@] == s[i].1,
    decreases s.len(),
{
    if s.len() == 0 {
    } else {
        let d = s.drop_last();
        assert(distinct_entry_keys(d));
        lemma_entries_map_values(d);
        assert(entries_map(s) == entries_map(d).insert(s.last().0@, s.last().1));
        assert forall|i: int|
            0 <= i < s.len() implies entries_map(s).contains_key(#[trigger] s[i].0@)
            && entries_map(s)[s[i].0@] == s[i].1 by {
            if i == s.len() - 1 {
            } else {
                assert(d[i] == s[i]);
                assert(s[i].0@ != s.last().0@);
            }
        }
    }
}

proof fn lemma_entries_map_finite(s: Seq<(ValidatorKey, IngressAddress)>)
    ensures
        entries_map(s).dom().finite(),
    decreases s.len(),
{
    if s.len() == 0 {
    } else {
        lemma_entries_map_finite(s.drop_last());
    }
}

proof fn lemma_entries_map_len(s: Seq<(ValidatorKey, IngressAddress)>)
    requires
        distinct_entry_keys(s),
    ensures
        entries_map(s).dom().len() == s.len(),
    decreases s.len(),
{
    if s.len() == 0 {
        assert(entries_map(s).dom() =~= Set::<Seq<u8>>::empty());
    } else {
        let d = s.drop_last();
        assert(distinct_entry_keys(d));
        lemma_entries_map_len(d);
        lemma_entries_map_finite(d);
        lemma_entries_map_domain(d);
        assert(!entries_map(d).contains_key(s.last().0@));
        assert(entries_map(s).dom() =~= entries_map(d).dom().insert(s.last().0@));
    }
}

/// The node map: which ingress address each validator advertises.
///
/// Its view is a map from key bytes to address.
pub struct NodeMap {
    entries: Vec<(ValidatorKey, IngressAddress)>,
}

impl NodeMap {
    #[verifier::type_invariant]
    spec fn wf(self) -> bool {
        distinct_entry_keys(self.entries@)
    }
}

impl View for NodeMap {
    type V = Map<Seq<u8>, IngressAddress>;

    closed spec fn view(&self) -> Map<Seq<u8>, IngressAddress> {
        entries_map(self.entries@)
    }
}

impl NodeMap {
    /// An empty node map.
    pub fn new() -> (r: Self)
        ensures
            r@ == Map::<Seq<u8>, IngressAddress>::empty(),
    {
        NodeMap { entries: Vec::new() }
    }

    /// The address a validator advertises, if any.
    pub fn get(&self, key: &ValidatorKey) -> (r: Option<IngressAddress>)
        ensures
            r == if self@.contains_key(key@) {
                Some(self@[key@])
            } else {
                None::<IngressAddress>
            },
    {
        proof {
            use_type_invariant(&*self);
            lemma_entries_map_domain(self.entries@);
            lemma_entries_map_values(self.entries@);
        }
        let mut i: usize = 0;
        while i < self.entries.len()
            invariant
                i <= self.entries@.len(),
                forall|j: int| 0 <= j < i ==> self.entries@[j].0@ != key@,
            decreases self.entries@.len() - i,
        {
            if self.entries[i].0.same_as(key) {
                proof {
                    use_type_invariant(&*self);
                    lemma_entries_map_values(self.entries@);
                    assert(self.entries@[i as int].0@ == key@);
                }
                return Some(self.entries[i].1);
            }
            i = i + 1;
        }
        proof {
            lemma_entries_map_domain(self.entries@);
        }
        None
    }

    /// How many validators advertise an address.
    pub fn len(&self) -> (r: usize)
        ensures
            r == self@.dom().len(),
    {
        proof {
            use_type_invariant(&*self);
            lemma_entries_map_len(self.entries@);
        }
        self.entries.len()
    }
}

proof fn lemma_entries_map_update(
    s: Seq<(ValidatorKey, IngressAddress)>,
    j: int,
    p: (ValidatorKey, IngressAddress),
)
    requires
        distinct_entry_keys(s),
        0 <= j < s.len(),
        p.0@ == s[j].0@,
    ensures
        entries_map(s.update(j, p)) == entries_map(s).insert(p.0@, p.1),
        distinct_entry_keys(s.update(j, p)),
    decreases s.len(),
{
    let u = s.update(j, p);
    assert(forall|i: int| 0 <= i < s.len() && i != j ==> u[i] == s[i]);
    if j == s.len() - 1 {
        assert(u.drop_last() =~= s.drop_last());
        assert(u.drop_last() == s.drop_last());
        assert(u.last() == p);
        assert(entries_map(u) =~= entries_map(s).insert(p.0@, p.1));
    } else {
        let d = s.drop_last();
        assert(distinct_entry_keys(d));
        assert(d[j] == s[j]);
        lemma_entries_map_update(d, j, p);
        assert(u.drop_last() =~= d.update(j, p));
        assert(u.drop_last() == d.update(j, p));
        assert(u.last() == s.last());
        assert(s.last().0@ != p.0@);
        assert(entries_map(u) =~= entries_map(s).insert(p.0@, p.1));
    }
}

/// Insert into an association list, replacing the entry of an already
/// present key.
fn assoc_insert(
    v: &mut Vec<(ValidatorKey, IngressAddress)>,
    key: ValidatorKey,
    addr: IngressAddress,
)
    requires
        distinct_entry_keys(old(v)@),
    ensures
        distinct_entry_keys(final(v)@),
        entries_map(final(v)@) == entries_map(old(v)@).insert(key@, addr),
{
    let ghost orig = v@;
    let mut i: usize = 0;
    while i < v.len()
        invariant
            orig == old(v)@,
            v@ == orig,
            distinct_entry_keys(orig),
            i <= orig.len(),
            forall|j: int| 0 <= j < i ==> orig[j].0@ != key@,
        decreases orig.len() - i,
    {
        if v[i].0.same_as(&key) {
            proof {
                assert(orig[i as int].0@ == key@);
                lemma_entries_map_update(orig, i as int, (key, addr));
            }
            v[i] = (key, addr);
            return;
        }
        i = i + 1;
    }
    v.push((key, addr));
    proof {
        assert(v@.drop_last() =~= orig);
        assert(v@.drop_last() == orig);
        assert(v@.last() == (key, addr));
        assert(entries_map(v@) == entries_map(orig).insert(key@, addr));
        assert(distinct_entry_keys(v@));
    }
}

/// The node map a fetched cluster node list denotes: every node that
/// advertises an ingress address and whose key parses, a later entry
/// overriding an earlier one for the same key.
pub open spec fn node_map_of(entries: Seq<(Vec<u8>, Option<IngressAddress>)>) -> Map<
    Seq<u8>,
    IngressAddress,
>
    decreases entries.len(),
{
    if entries.len() == 0 {
        Map::empty()
    } else {
        let prev = node_map_of(entries.drop_last());
        let e = entries.last();
        match e.1 {
            Some(addr) => match parsed_key(e.0@) {
                Some(k) => prev.insert(k, addr),
                None => prev,
            },
            None => prev,
        }
    }
}

/// View of a stored schedule as a map to key bytes.
pub open spec fn sched_view_of(m: Map<u64, ValidatorKey>) -> Map<u64, Seq<u8>> {
    m.map_values(|v: ValidatorKey| v@)
}

proof fn lemma_sched_view_insert(m: Map<u64, ValidatorKey>, slot: u64, v: ValidatorKey)
    ensures
        sched_view_of(m.insert(slot, v)) == sched_view_of(m).insert(slot, v@),
{
    assert(sched_view_of(m.insert(slot, v)) =~= sched_view_of(m).insert(slot, v@));
}

/// The absolute-slot schedule a fetched epoch snapshot denotes: each
/// validator's relative slots shifted by the epoch start, a relative
/// slot that would overflow an absolute slot number ignored.
pub open spec fn schedule_insert_rels(
    m: Map<u64, Seq<u8>>,
    start: u64,
    k: Seq<u8>,
    rels: Seq<u64>,
) -> Map<u64, Seq<u8>>
    decreases rels.len(),
{
    if rels.len() == 0 {
        m
    } else {
        let m1 = schedule_insert_rels(m, start, k, rels.drop_last());
        if start + rels.last() <= u64::MAX {
            m1.insert((start + rels.last()) as u64, k)
        } else {
            m1
        }
    }
}

/// The schedule denoted by a whole snapshot, entries with unparseable
/// keys skipped.
pub open spec fn schedule_of(entries: Seq<(Vec<u8>, Vec<u64>)>, start: u64) -> Map<u64, Seq<u8>>
    decreases entries.len(),
{
    if entries.len() == 0 {
        Map::empty()
    } else {
        let prev = schedule_of(entries.drop_last(), start);
        let e = entries.last();
        match parsed_key(e.0@) {
            Some(k) => schedule_insert_rels(prev, start, k, e.1@),
            None => prev,
        }
    }
}

/// The routing brain: topology, schedule, clock and deny-list.
pub struct Cartographer {
    schedule: HashMap<u64, ValidatorKey>,
    node_map: NodeMap,
    blocklist: Blocklist,
    current_slot: u64,
    current_epoch: u64,
}

impl Cartographer {
    /// The leader schedule: absolute slot to leader key bytes.
    pub closed spec fn sched(self) -> Map<u64, Seq<u8>> {
        sched_view_of(self.schedule@)
    }

    /// The node map: key bytes to ingress address.
    pub closed spec fn nodes(self) -> Map<Seq<u8>, IngressAddress> {
        self.node_map@
    }

    /// The deny-list consulted on routing answers.
    pub closed spec fn denied(self) -> Set<Seq<u8>> {
        self.blocklist@
    }

    /// The last observed slot.
    pub closed spec fn slot(self) -> u64 {
        self.current_slot
    }

    /// The epoch the stored schedule belongs to.
    pub closed spec fn epoch(self) -> u64 {
        self.current_epoch
    }

    /// Everything but the slot, for stating what an update leaves
    /// untouched.
    pub open spec fn same_routing_state(self, other: Cartographer) -> bool {
        &&& self.sched() == other.sched()
        &&& self.nodes() == other.nodes()
        &&& self.denied() == other.denied()
        &&& self.epoch() == other.epoch()
    }

    /// A cartographer that knows nothing yet, shielded by the given
    /// deny-list.
    pub fn new(blocklist: Blocklist) -> (r: Self)
        ensures
            r.sched() == Map::<u64, Seq<u8>>::empty(),
            r.nodes() == Map::<Seq<u8>, IngressAddress>::empty(),
            r.denied() == blocklist@,
            r.slot() == 0,
            r.epoch() == 0,
    {
        let r = Cartographer {
            schedule: HashMap::new(),
            node_map: NodeMap::new(),
            blocklist,
            current_slot: 0,
            current_epoch: 0,
        };
        proof {
            assert(r.sched() =~= Map::<u64, Seq<u8>>::empty());
        }
        r
    }

    /// The last observed slot.
    pub fn get_known_slot(&self) -> (r: u64)
        ensures
            r == self.slot(),
    {
        self.current_slot
    }

    /// Whether a snapshot of the given epoch would replace the stored
    /// schedule: it does when the epoch is newer, or none is stored.
    pub fn needs_schedule_refresh(&self, epoch: u64) -> (r: bool)
        ensures
            r <==> (epoch > self.epoch() || self.epoch() == 0),
    {
        epoch > self.current_epoch || self.current_epoch == 0
    }

    /// Record a newly observed slot. The stored clock then reads
    /// exactly the given value until the next update; nothing else
    /// changes. No ordering is enforced between concurrent updates.
    pub fn update_slot(&mut self, slot: u64)
        ensures
            final(self).slot() == slot,
            final(self).same_routing_state(*old(self)),
    {
        self.current_slot = slot;
    }

    /// Swap in a fresh deny-list, wholesale.
    pub fn set_blocklist(&mut self, blocklist: Blocklist)
        ensures
            final(self).denied() == blocklist@,
            final(self).sched() == old(self).sched(),
            final(self).nodes() == old(self).nodes(),
            final(self).slot() == old(self).slot(),
            final(self).epoch() == old(self).epoch(),
    {
        self.blocklist = blocklist;
    }

    /// Where a transaction for `slot` should go: the scheduled
    /// leader's ingress address, unless the slot is unscheduled, the
    /// leader is denied, or its address is unknown.
    pub open spec fn target_spec(self, slot: u64) -> Option<IngressAddress> {
        if self.sched().contains_key(slot) {
            let k = self.sched()[slot];
            if self.denied().contains(k) {
                None
            } else if self.nodes().contains_key(k) {
                Some(self.nodes()[k])
            } else {
                None
            }
        } else {
            None
        }
    }

    /// Resolve the send target for a slot.
    pub fn get_target(&self, slot: u64) -> (r: Option<IngressAddress>)
        ensures
            r == self.target_spec(slot),
    {
        let leader = match self.schedule.get(&slot) {
            None => {
                return None;
            },
            Some(k) => k,
        };
        proof {
            assert(self.sched().contains_key(slot));
            assert(self.sched()[slot] == leader@);
        }
        if self.blocklist.contains(leader) {
            return None;
        }
        self.node_map.get(leader)
    }
}

impl Cartographer {
    /// Rebuild the node map from a fetched cluster node list: keys
    /// are the base58 text of each node's identity, addresses the
    /// ingress socket it advertises, if any. The stored map is
    /// replaced wholesale; on an upstream failure nothing is handed
    /// in and the prior map is kept.
    pub fn apply_topology(&mut self, nodes: &Vec<(Vec<u8>, Option<IngressAddress>)>)
        ensures
            final(self).nodes() == node_map_of(nodes@),
            final(self).sched() == old(self).sched(),
            final(self).denied() == old(self).denied(),
            final(self).slot() == old(self).slot(),
            final(self).epoch() == old(self).epoch(),
    {
        let mut acc: Vec<(ValidatorKey, IngressAddress)> = Vec::new();
        let n = nodes.len();
        let mut idx: usize = 0;
        while idx < n
            invariant
                n == nodes@.len(),
                idx <= n,
                distinct_entry_keys(acc@),
                entries_map(acc@) == node_map_of(nodes@.subrange(0, idx as int)),
            decreases n - idx,
        {
            let ghost pre = nodes@.subrange(0, idx as int);
            let entry = &nodes[idx];
            match entry.1 {
                Some(addr) => {
                    match parse_base58_key(entry.0.as_slice()) {
                        Some(k) => {
                            assoc_insert(&mut acc, k, addr);
                        },
                        None => {},
                    }
                },
                None => {},
            }
            idx = idx + 1;
            proof {
                let cur = nodes@.subrange(0, idx as int);
                assert(cur.drop_last() =~= pre);
                assert(cur.drop_last() == pre);
                assert(cur.last() == nodes@[idx - 1]);
            }
        }
        proof {
            assert(nodes@.subrange(0, n as int) =~= nodes@);
        }
        self.node_map = NodeMap { entries: acc };
    }

    /// Take in a fetched epoch snapshot. When the reported epoch is
    /// newer than the stored one, or none is stored yet, the schedule
    /// is rebuilt from the per-validator relative slot lists, the
    /// epoch stored, and the clock seeded with the reported absolute
    /// slot; otherwise everything stays as it was. The epoch starts at
    /// `absolute_slot - slot_index`.
    pub fn apply_schedule(
        &mut self,
        epoch: u64,
        absolute_slot: u64,
        slot_index: u64,
        entries: &Vec<(Vec<u8>, Vec<u64>)>,
    )
        requires
            slot_index <= absolute_slot,
        ensures
            ({
                let fresh = epoch > old(self).epoch() || old(self).epoch() == 0;
                &&& fresh ==> final(self).sched() == schedule_of(
                    entries@,
                    (absolute_slot - slot_index) as u64,
                )
                &&& fresh ==> final(self).epoch() == epoch && final(self).slot() == absolute_slot
                &&& !fresh ==> final(self).sched() == old(self).sched() && final(self).epoch()
                    == old(self).epoch() && final(self).slot() == old(self).slot()
                &&& final(self).nodes() == old(self).nodes()
                &&& final(self).denied() == old(self).denied()
            }),
    {
        if !(epoch > self.current_epoch || self.current_epoch == 0) {
            return;
        }
        let start = absolute_slot - slot_index;
        let mut m: HashMap<u64, ValidatorKey> = HashMap::new();
        proof {
            assert(sched_view_of(m@) =~= Map::<u64, Seq<u8>>::empty());
        }
        let n = entries.len();
        let mut idx: usize = 0;
        while idx < n
            invariant
                n == entries@.len(),
                idx <= n,
                sched_view_of(m@) == schedule_of(entries@.subrange(0, idx as int), start),
            decreases n - idx,
        {
            let ghost pre = entries@.subrange(0, idx as int);
            let entry = &entries[idx];
            match parse_base58_key(entry.0.as_slice()) {
                Some(k) => {
                    let ghost base = schedule_of(pre, start);
                    let rels = &entry.1;
                    let rn = rels.len();
                    let mut rj: usize = 0;
                    proof {
                        assert(rels@.subrange(0, 0) =~= Seq::<u64>::empty());
                    }
                    while rj < rn
                        invariant
                            rn == rels@.len(),
                            rj <= rn,
                            parsed_key(entry.0@) == Some(k@),
                            sched_view_of(m@) == schedule_insert_rels(
                                base,
                                start,
                                k@,
                                rels@.subrange(0, rj as int),
                            ),
                        decreases rn - rj,
                    {
                        let ghost mpre = m@;
                        let ghost rpre = rels@.subrange(0, rj as int);
                        match start.checked_add(rels[rj]) {
                            Some(abs) => {
                                m.insert(abs, k);
                                proof {
                                    lemma_sched_view_insert(mpre, abs, k);
                                }
                            },
                            None => {},
                        }
                        rj = rj + 1;
                        proof {
                            let rcur = rels@.subrange(0, rj as int);
                            assert(rcur.drop_last() =~= rpre);
                            assert(rcur.drop_last() == rpre);
                            assert(rcur.last() == rels@[rj - 1]);
                        }
                    }
                    proof {
                        assert(rels@.subrange(0, rn as int) =~= rels@);
                    }
                },
                None => {},
            }
            idx = idx + 1;
            proof {
                let cur = entries@.subrange(0, idx as int);
                assert(cur.drop_last() =~= pre);
                assert(cur.drop_last() == pre);
                assert(cur.last() == entries@[idx - 1]);
            }
        }
        proof {
            assert(entries@.subrange(0, n as int) =~= entries@);
        }
        self.schedule = m;
        self.current_epoch = epoch;
        self.current_slot = absolute_slot;
    }

    /// The distinct targets of slots `cur+1 ..= cur+n`, in
    /// first-encounter order.
    pub open spec fn upcoming_spec(self, cur: u64, n: nat) -> Seq<IngressAddress>
        decreases n,
    {
        if n == 0 {
            Seq::empty()
        } else {
            let prev = self.upcoming_spec(cur, (n - 1) as nat);
            if cur + n <= u64::MAX {
                match self.target_spec((cur + n) as u64) {
                    Some(a) => if !prev.contains(a) {
                        prev.push(a)
                    } else {
                        prev
                    },
                    None => prev,
                }
            } else {
                prev
            }
        }
    }

    /// The ingress addresses of the leaders of the next `lookahead`
    /// slots, deny-listed leaders filtered out, duplicates suppressed,
    /// soonest leader first.
    pub fn get_upcoming_leaders(&self, current_slot: u64, lookahead: u64) -> (r: Vec<
        IngressAddress,
    >)
        requires
            current_slot + lookahead <= u64::MAX,
        ensures
            r@ == self.upcoming_spec(current_slot, lookahead as nat),
    {
        let mut out: Vec<IngressAddress> = Vec::new();
        let mut i: u64 = 0;
        while i < lookahead
            invariant
                current_slot + lookahead <= u64::MAX,
                i <= lookahead,
                out@ == self.upcoming_spec(current_slot, i as nat),
            decreases lookahead - i,
        {
            i = i + 1;
            let slot = current_slot + i;
            match self.get_target(slot) {
                Some(addr) => {
                    if !addr_list_contains(&out, addr) {
                        out.push(addr);
                    }
                },
                None => {},
            }
        }
        out
    }
}

/// Whether the list already holds the address.
fn addr_list_contains(v: &Vec<IngressAddress>, a: IngressAddress) -> (r: bool)
    ensures
        r == v@.contains(a),
{
    let mut i: usize = 0;
    while i < v.len()
        invariant
            i <= v@.len(),
            forall|j: int| 0 <= j < i ==> v@[j] != a,
        decreases v@.len() - i,
    {
        if v[i] == a {
            assert(v@[i as int] == a);
            return true;
        }
        i = i + 1;
    }
    false
}

/// The upcoming-leader list is pairwise distinct.
pub proof fn lemma_upcoming_distinct(c: Cartographer, cur: u64, n: nat)
    ensures
        forall|i: int, j: int|
            0 <= i < j < c.upcoming_spec(cur, n).len() ==> c.upcoming_spec(cur, n)[i]
                != c.upcoming_spec(cur, n)[j],
    decreases n,
{
    if n == 0 {
    } else {
        let prev = c.upcoming_spec(cur, (n - 1) as nat);
        lemma_upcoming_distinct(c, cur, (n - 1) as nat);
        let s = c.upcoming_spec(cur, n);
        if s.len() == prev.len() + 1 {
            let a = s.last();
            assert(!prev.contains(a));
            assert forall|i: int, j: int| 0 <= i < j < s.len() implies s[i] != s[j] by {
                if j == s.len() - 1 {
                    assert(prev[i] == s[i]);
                    assert(prev.contains(prev[i]));
                } else {
                    assert(prev[i] == s[i] && prev[j] == s[j]);
                }
            }
        } else {
            assert(s == prev);
        }
    }
}

/// Every address of the upcoming-leader list is the target of some
/// slot of the inspected range.
pub proof fn lemma_upcoming_sound(c: Cartographer, cur: u64, n: nat)
    ensures
        forall|i: int|
            0 <= i < c.upcoming_spec(cur, n).len() ==> (exists|s: u64|
                cur < s <= cur + n && c.target_spec(s) == Some(
                    #[trigger] c.upcoming_spec(cur, n)[i],
                )),
    decreases n,
{
    if n == 0 {
    } else {
        let prev = c.upcoming_spec(cur, (n - 1) as nat);
        lemma_upcoming_sound(c, cur, (n - 1) as nat);
        let s = c.upcoming_spec(cur, n);
        assert forall|i: int| 0 <= i < s.len() implies (exists|t: u64|
            cur < t <= cur + n && c.target_spec(t) == Some(#[trigger] s[i])) by {
            if i < prev.len() {
                assert(prev[i] == s[i]);
                let t = choose|t: u64| cur < t <= cur + (n - 1) && c.target_spec(t) == Some(
                    prev[i],
                );
                assert(cur < t <= cur + n && c.target_spec(t) == Some(s[i]));
            } else {
                let t = (cur + n) as u64;
                assert(c.target_spec(t) == Some(s[i]));
            }
        }
    }
}

/// Every slot of the inspected range whose target resolves is
/// represented in the upcoming-leader list.
pub proof fn lemma_upcoming_complete(c: Cartographer, cur: u64, n: nat)
    ensures
        forall|t: u64|
            cur < t <= cur + n ==> match #[trigger] c.target_spec(t) {
                Some(a) => c.upcoming_spec(cur, n).contains(a),
                None => true,
            },
    decreases n,
{
    if n == 0 {
    } else {
        let prev = c.upcoming_spec(cur, (n - 1) as nat);
        lemma_upcoming_complete(c, cur, (n - 1) as nat);
        let s = c.upcoming_spec(cur, n);
        assert forall|t: u64| cur < t <= cur + n implies match #[trigger] c.target_spec(t) {
            Some(a) => s.contains(a),
            None => true,
        } by {
            match c.target_spec(t) {
                Some(a) => {
                    if t <= cur + (n - 1) {
                        assert(prev.contains(a));
                        let i = choose|i: int| 0 <= i < prev.len() && prev[i] == a;
                        assert(s[i] == a);
                    } else {
                        assert(t == cur + n);
                        if prev.contains(a) {
                            let i = choose|i: int| 0 <= i < prev.len() && prev[i] == a;
                            assert(s[i] == a);
                        } else {
                            assert(s.last() == a);
                        }
                    }
                },
                None => {},
            }
        }
    }
}

/// Routing characterisation: a slot resolves to an address exactly
/// when the schedule names a leader for it that is not on the
/// deny-list and whose ingress address the node map knows.
pub proof fn lemma_target_characterisation(c: Cartographer, slot: u64, addr: IngressAddress)
    ensures
        c.target_spec(slot) == Some(addr) <==> (exists|k: Seq<u8>|
            c.sched().contains_key(slot) && c.sched()[slot] == k && !c.denied().contains(k)
                && c.nodes().contains_key(k) && c.nodes()[k] == addr),
{
    if c.target_spec(slot) == Some(addr) {
        let k = c.sched()[slot];
        assert(c.sched().contains_key(slot) && c.sched()[slot] == k && !c.denied().contains(k)
            && c.nodes().contains_key(k) && c.nodes()[k] == addr);
    }
}

} // verus!
