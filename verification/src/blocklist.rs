//! Hot-swappable deny-list of misbehaving validators.
//!
//! The set is loaded from a local file, optionally refreshed from a
//! remote source, and consulted on every routing decision. Reloads
//! replace the whole set at once; an empty remote result is rejected so
//! that an upstream misconfiguration cannot silently clear the list.

use vstd::prelude::*;
use vstd::string::StringSliceAdditionalSpecFns;
use crate::keys::{parsed_key, parse_base58_key, ValidatorKey};

verus! {

/// The set of byte views of a sequence of keys.
pub open spec fn keys_set(s: Seq<ValidatorKey>) -> Set<Seq<u8>>
    decreases s.len(),
{
    if s.len() == 0 {
        Set::empty()
    } else {
        keys_set(s.drop_last()).insert(s.last()@)
    }
}

/// No two keys of the sequence share their bytes.
pub open spec fn distinct_keys(s: Seq<ValidatorKey>) -> bool {
    forall|i: int, j: int| 0 <= i < j < s.len() ==> s[i]@ != s[j]@
}

proof fn lemma_keys_set_domain(s: Seq<ValidatorKey>)
    ensures
        forall|k: Seq<u8>|
            #[trigger] keys_set(s).contains(k) <==> (exists|i: int|
                0 <= i < s.len() && s[i]@ == k),
    decreases s.len(),
{
    if s.len() == 0 {
    } else {
        let d = s.drop_last();
        lemma_keys_set_domain(d);
        assert(keys_set(s) == keys_set(d).insert(s.last()@));
        assert forall|k: Seq<u8>| #[trigger] keys_set(s).contains(k) implies (exists|i: int|
            0 <= i < s.len() && s[i]@ == k) by {
            if k == s.last()@ {
                assert(s[s.len() - 1]@ == k);
            } else {
                assert(keys_set(d).contains(k));
                let i = choose|i: int| 0 <= i < d.len() && d[i]@ == k;
                assert(d[i] == s[i]);
                assert(s[i]@ == k);
            }
        }
        assert forall|k: Seq<u8>| (exists|i: int| 0 <= i < s.len() && s[i]@ == k) implies
            #[trigger] keys_set(s).contains(k) by {
            let i = choose|i: int| 0 <= i < s.len() && s[i]@ == k;
            if i == s.len() - 1 {
                assert(keys_set(s).contains(s.last()@));
            } else {
                assert(d[i] == s[i]);
                assert(d[i]@ == k);
                assert(keys_set(d).contains(k));
            }
        }
    }
}

proof fn lemma_keys_set_finite(s: Seq<ValidatorKey>)
    ensures
        keys_set(s).finite(),
    decreases s.len(),
{
    if s.len() == 0 {
    } else {
        lemma_keys_set_finite(s.drop_last());
    }
}

proof fn lemma_keys_set_len(s: Seq<ValidatorKey>)
    requires
        distinct_keys(s),
    ensures
        keys_set(s).len() == s.len(),
    decreases s.len(),
{
    if s.len() == 0 {
    } else {
        assert(distinct_keys(s.drop_last()));
        lemma_keys_set_len(s.drop_last());
        lemma_keys_set_finite(s.drop_last());
        lemma_keys_set_domain(s.drop_last());
        assert(!keys_set(s.drop_last()).contains(s.last()@));
    }
}

/// The deny-list itself: a set of validator keys.
///
/// Its view is the set of byte views of the held keys.
pub struct Blocklist {
    keys: Vec<ValidatorKey>,
}

impl Blocklist {
    #[verifier::type_invariant]
    spec fn wf(self) -> bool {
        distinct_keys(self.keys@)
    }
}

impl View for Blocklist {
    type V = Set<Seq<u8>>;

    closed spec fn view(&self) -> Set<Seq<u8>> {
        keys_set(self.keys@)
    }
}

impl Blocklist {
    /// An empty deny-list.
    pub fn new() -> (r: Self)
        ensures
            r@ == Set::<Seq<u8>>::empty(),
    {
        Blocklist { keys: Vec::new() }
    }

    /// Membership test for one key.
    pub fn contains(&self, key: &ValidatorKey) -> (r: bool)
        ensures
            r <==> self@.contains(key@),
    {
        let mut i: usize = 0;
        while i < self.keys.len()
            invariant
                i <= self.keys@.len(),
                forall|j: int| 0 <= j < i ==> self.keys@[j]@ != key@,
            decreases self.keys@.len() - i,
        {
            if self.keys[i].same_as(key) {
                proof {
                    lemma_keys_set_domain(self.keys@);
                    assert(self.keys@[i as int]@ == key@);
                }
                return true;
            }
            i = i + 1;
        }
        proof {
            lemma_keys_set_domain(self.keys@);
        }
        false
    }

    /// How many keys are blocked.
    pub fn len(&self) -> (r: usize)
        ensures
            r == self@.len(),
    {
        proof {
            use_type_invariant(&*self);
            lemma_keys_set_len(self.keys@);
        }
        self.keys.len()
    }

    /// Whether no key is blocked.
    pub fn is_empty(&self) -> (r: bool)
        ensures
            r <==> self@.len() == 0,
    {
        self.len() == 0
    }

    /// Replace the whole set at once. Readers of the list never see a
    /// part of the old set beside a part of the new one.
    pub fn replace(&mut self, with: Blocklist)
        ensures
            final(self)@ == with@,
    {
        *self = with;
    }

    /// The held keys, for persisting the list.
    ///
    /// Every key of the list appears exactly once.
    pub fn entries(&self) -> (r: &Vec<ValidatorKey>)
        ensures
            keys_set(r@) == self@,
            distinct_keys(r@),
    {
        proof {
            use_type_invariant(&*self);
        }
        &self.keys
    }
}

/// ASCII whitespace, as stripped from the ends of a line.
pub open spec fn is_ws(b: u8) -> bool {
    b == 32 || b == 9 || b == 10 || b == 11 || b == 12 || b == 13
}

/// The line with its leading whitespace removed.
pub open spec fn trim_front(s: Seq<u8>) -> Seq<u8>
    decreases s.len(),
{
    if s.len() > 0 && is_ws(s[0]) {
        trim_front(s.drop_first())
    } else {
        s
    }
}

/// The line with its trailing whitespace removed.
pub open spec fn trim_back(s: Seq<u8>) -> Seq<u8>
    decreases s.len(),
{
    if s.len() > 0 && is_ws(s.last()) {
        trim_back(s.drop_last())
    } else {
        s
    }
}

/// The line with whitespace removed from both ends.
pub open spec fn trimmed(s: Seq<u8>) -> Seq<u8> {
    trim_back(trim_front(s))
}

/// Index of the first line feed at or after `pos`, or the length.
pub open spec fn line_end(s: Seq<u8>, pos: nat) -> nat
    decreases s.len() - pos,
{
    if pos >= s.len() {
        s.len()
    } else if s[pos as int] == 10 {
        pos
    } else {
        line_end(s, pos + 1)
    }
}

/// The key a single line contributes: none for blank lines, comment
/// lines and lines that are not a base58 key.
pub open spec fn line_key(line: Seq<u8>) -> Option<Seq<u8>> {
    let t = trimmed(line);
    if t.len() == 0 || t[0] == 35 {
        None
    } else {
        parsed_key(t)
    }
}

proof fn lemma_line_end_bounds(s: Seq<u8>, pos: nat)
    requires
        pos <= s.len(),
    ensures
        pos <= line_end(s, pos) <= s.len(),
    decreases s.len() - pos,
{
    if pos == s.len() {
    } else if s[pos as int] == 10 {
    } else {
        lemma_line_end_bounds(s, pos + 1);
    }
}

/// The keys contributed by the lines of `s` from `pos` on.
pub open spec fn keys_of_text_from(s: Seq<u8>, pos: nat) -> Set<Seq<u8>>
    decreases s.len() - pos,
    via keys_of_text_from_decreases
{
    if pos >= s.len() {
        Set::empty()
    } else {
        let e = line_end(s, pos);
        let next = if e + 1 <= s.len() { e + 1 } else { s.len() };
        let rest = keys_of_text_from(s, next);
        match line_key(s.subrange(pos as int, e as int)) {
            Some(k) => rest.insert(k),
            None => rest,
        }
    }
}

#[via_fn]
proof fn keys_of_text_from_decreases(s: Seq<u8>, pos: nat) {
    if pos < s.len() {
        lemma_line_end_bounds(s, pos);
    }
}

/// The set of keys a deny-list text parses to: one base58 key per
/// line, `#` starting a comment line, blank lines ignored, malformed
/// lines skipped.
pub open spec fn keys_of_text(s: Seq<u8>) -> Set<Seq<u8>> {
    keys_of_text_from(s, 0)
}

proof fn lemma_line_end_eq(s: Seq<u8>, pos: nat, e: nat)
    requires
        pos <= e <= s.len(),
        forall|j: int| pos <= j < e ==> s[j] != 10,
        e < s.len() ==> s[e as int] == 10,
    ensures
        line_end(s, pos) == e,
    decreases e - pos,
{
    if pos == e {
    } else {
        lemma_line_end_eq(s, pos + 1, e);
    }
}

proof fn lemma_trim_front_eq(s: Seq<u8>, a: nat)
    requires
        a <= s.len(),
        forall|j: int| 0 <= j < a ==> is_ws(s[j]),
        a < s.len() ==> !is_ws(s[a as int]),
    ensures
        trim_front(s) == s.subrange(a as int, s.len() as int),
    decreases a,
{
    if a == 0 {
        if s.len() > 0 && is_ws(s[0]) {
            assert(false);
        }
        assert(s.subrange(0, s.len() as int) =~= s);
    } else {
        let d = s.drop_first();
        assert(is_ws(s[0]));
        assert(forall|j: int| 0 <= j < a - 1 ==> d[j] == s[j + 1] && is_ws(d[j]));
        lemma_trim_front_eq(d, (a - 1) as nat);
        assert(d.subrange(a - 1, d.len() as int) =~= s.subrange(a as int, s.len() as int));
    }
}

proof fn lemma_trim_back_eq(s: Seq<u8>, b: nat)
    requires
        b <= s.len(),
        forall|j: int| b <= j < s.len() ==> is_ws(s[j]),
        b > 0 ==> !is_ws(s[b - 1]),
    ensures
        trim_back(s) == s.subrange(0, b as int),
    decreases s.len() - b,
{
    if b == s.len() {
        if s.len() > 0 && is_ws(s.last()) {
            assert(false);
        }
        assert(s.subrange(0, b as int) =~= s);
    } else {
        assert(is_ws(s.last()));
        let d = s.drop_last();
        lemma_trim_back_eq(d, b);
        assert(d.subrange(0, b as int) =~= s.subrange(0, b as int));
    }
}

proof fn lemma_trimmed_eq(line: Seq<u8>, a: nat, b: nat)
    requires
        a <= b <= line.len(),
        forall|j: int| 0 <= j < a ==> is_ws(line[j]),
        forall|j: int| b <= j < line.len() ==> is_ws(line[j]),
        a < b ==> !is_ws(line[a as int]) && !is_ws(line[b - 1]),
    ensures
        trimmed(line) == line.subrange(a as int, b as int),
{
    if a == b {
        lemma_trim_front_eq(line, line.len());
        assert(trim_front(line) =~= Seq::<u8>::empty());
        assert(trimmed(line) =~= line.subrange(a as int, b as int));
    } else {
        lemma_trim_front_eq(line, a);
        let front = line.subrange(a as int, line.len() as int);
        assert(forall|j: int|
            b - a <= j < front.len() ==> front[j] == line[j + a] && is_ws(front[j]));
        lemma_trim_back_eq(front, (b - a) as nat);
        assert(front.subrange(0, b - a) =~= line.subrange(a as int, b as int));
    }
}

/// Exec mirror of [`is_ws`].
fn byte_is_ws(b: u8) -> (r: bool)
    ensures
        r == is_ws(b),
{
    b == 32 || b == 9 || b == 10 || b == 11 || b == 12 || b == 13
}

impl Blocklist {
    /// Parse a deny-list text: one base58 key per line, blank lines
    /// and `#` comment lines ignored, malformed lines skipped.
    pub fn parse(content: &str) -> (r: Blocklist)
        ensures
            r@ == keys_of_text(content.spec_bytes()),
    {
        let bytes: &[u8] = content.as_bytes();
        let n: usize = bytes.len();
        let mut keys: Vec<ValidatorKey> = Vec::new();
        let mut pos: usize = 0;
        while pos < n
            invariant
                n == bytes@.len(),
                pos <= n,
                distinct_keys(keys@),
                keys_set(keys@).union(keys_of_text_from(bytes@, pos as nat)) == keys_of_text(
                    bytes@,
                ),
            decreases n - pos,
        {
            let ghost s = bytes@;
            let ghost pos0 = pos as nat;
            // Find the end of the current line.
            let mut e: usize = pos;
            while e < n && bytes[e] != 10
                invariant
                    n == bytes@.len(),
                    pos <= e <= n,
                    forall|j: int| pos <= j < e ==> bytes@[j] != 10,
                decreases n - e,
            {
                e = e + 1;
            }
            proof {
                lemma_line_end_eq(s, pos0, e as nat);
            }
            // Strip whitespace from both ends of the line.
            let mut a: usize = pos;
            while a < e && byte_is_ws(bytes[a])
                invariant
                    n == bytes@.len(),
                    pos <= a <= e <= n,
                    forall|j: int| pos <= j < a ==> is_ws(bytes@[j]),
                decreases e - a,
            {
                a = a + 1;
            }
            let mut b: usize = e;
            while b > a && byte_is_ws(bytes[b - 1])
                invariant
                    n == bytes@.len(),
                    a <= b <= e <= n,
                    forall|j: int| b <= j < e ==> is_ws(bytes@[j]),
                decreases b,
            {
                b = b - 1;
            }
            let ghost line = s.subrange(pos as int, e as int);
            proof {
                assert(forall|j: int| 0 <= j < a - pos ==> line[j] == s[j + pos]);
                assert(forall|j: int| b - pos <= j < line.len() ==> line[j] == s[j + pos]);
                if a < b {
                    assert(line[a - pos] == s[a as int]);
                    assert(line[b - pos - 1] == s[b - 1]);
                }
                lemma_trimmed_eq(line, (a - pos) as nat, (b - pos) as nat);
                assert(line.subrange(a - pos, b - pos) =~= s.subrange(a as int, b as int));
            }
            // A blank or comment line contributes nothing.
            if a < b && bytes[a] != 35 {
                let piece = vstd::slice::slice_subrange(bytes, a, b);
                match parse_base58_key(piece) {
                    Some(k) => {
                        let ghost before = keys@;
                        let mut present = false;
                        let mut i: usize = 0;
                        while i < keys.len()
                            invariant
                                keys@ == before,
                                i <= keys@.len(),
                                present <==> exists|j: int| 0 <= j < i && keys@[j]@ == k@,
                            decreases keys@.len() - i,
                        {
                            if keys[i].same_as(&k) {
                                proof {
                                    assert(keys@[i as int]@ == k@);
                                }
                                present = true;
                            }
                            i = i + 1;
                        }
                        proof {
                            lemma_keys_set_domain(keys@);
                        }
                        if !present {
                            proof {
                                assert(forall|j: int|
                                    0 <= j < before.len() ==> before[j]@ != k@);
                            }
                            keys.push(k);
                            proof {
                                assert(keys@.drop_last() =~= before);
                                assert(keys@.drop_last() == before);
                                assert(keys@.last() == k);
                                assert(keys_set(keys@) == keys_set(before).insert(k@));
                                assert(distinct_keys(keys@));
                            }
                        } else {
                            proof {
                                assert(keys_set(before).contains(k@));
                                assert(keys_set(keys@) =~= keys_set(before).insert(k@));
                            }
                        }
                    },
                    None => {},
                }
            }
            proof {
                let e_n = e as nat;
                let next = if e_n + 1 <= s.len() { e_n + 1 } else { s.len() };
                assert(keys_of_text_from(s, pos0) == match line_key(line) {
                    Some(k) => keys_of_text_from(s, next).insert(k),
                    None => keys_of_text_from(s, next),
                });
                assert(keys_set(keys@).union(keys_of_text_from(s, next)) =~= keys_of_text(s));
            }
            pos = if e < n {
                e + 1
            } else {
                n
            };
        }
        proof {
            assert(keys_of_text_from(bytes@, pos as nat) =~= Set::<Seq<u8>>::empty());
            assert(keys_set(keys@) =~= keys_of_text(bytes@));
        }
        Blocklist { keys }
    }
}

/// Default period between deny-list refreshes, in seconds.
pub const DEFAULT_REFRESH_SECS: u64 = 300;

/// Owner of the deny-list: holds the set together with where it is
/// loaded from and how often it is refreshed.
///
/// Reading the local file and fetching the remote list are I/O and
/// happen outside the library; their texts are handed to
/// [`BlocklistManager::ingest_local`] and
/// [`BlocklistManager::ingest_remote`], which hold the replacement
/// rules.
pub struct BlocklistManager {
    /// The deny-list itself.
    pub blocklist: Blocklist,
    /// Path of the local deny-list file.
    pub local_path: String,
    /// Remote source of the list; absent means local-only mode.
    pub remote_url: Option<String>,
    /// Seconds between refreshes.
    pub refresh_interval_secs: u64,
}

impl BlocklistManager {
    /// A local-only manager with the default path and refresh period.
    pub fn new() -> (r: Self)
        ensures
            r.blocklist@ == Set::<Seq<u8>>::empty(),
            r.local_path@ == "./blocklist.txt"@,
            r.remote_url is None,
            r.refresh_interval_secs == DEFAULT_REFRESH_SECS,
    {
        BlocklistManager::with_config("./blocklist.txt".to_owned(), None, DEFAULT_REFRESH_SECS)
    }

    /// A manager over the given sources, starting from an empty set.
    pub fn with_config(
        local_path: String,
        remote_url: Option<String>,
        refresh_interval_secs: u64,
    ) -> (r: Self)
        ensures
            r.blocklist@ == Set::<Seq<u8>>::empty(),
            r.local_path == local_path,
            r.remote_url == remote_url,
            r.refresh_interval_secs == refresh_interval_secs,
    {
        BlocklistManager { blocklist: Blocklist::new(), local_path, remote_url, refresh_interval_secs }
    }

    /// The deny-list, for sharing with the routing side.
    pub fn get_handle(&self) -> (r: &Blocklist)
        ensures
            r@ == self.blocklist@,
    {
        &self.blocklist
    }

    /// Take in the text of the local file. A text that parses to at
    /// least one key replaces the set; one that parses to none leaves
    /// the set as it was. Returns how many keys the text held.
    pub fn ingest_local(&mut self, content: &str) -> (count: usize)
        ensures
            count == keys_of_text(content.spec_bytes()).len(),
            count > 0 ==> final(self).blocklist@ == keys_of_text(content.spec_bytes()),
            count == 0 ==> final(self).blocklist@ == old(self).blocklist@,
            final(self).local_path == old(self).local_path,
            final(self).remote_url == old(self).remote_url,
            final(self).refresh_interval_secs == old(self).refresh_interval_secs,
    {
        let parsed = Blocklist::parse(content);
        let count = parsed.len();
        if count > 0 {
            self.blocklist.replace(parsed);
        }
        count
    }

    /// Take in the text fetched from the remote source. An empty
    /// result is rejected and the set kept, so that a misconfigured
    /// upstream cannot silently clear the protection; otherwise the
    /// set is replaced wholesale and its size returned.
    pub fn ingest_remote(&mut self, body: &str) -> (r: Result<usize, String>)
        ensures
            r matches Ok(count) ==> count == keys_of_text(body.spec_bytes()).len() && count > 0
                && final(self).blocklist@ == keys_of_text(body.spec_bytes()),
            r is Err ==> keys_of_text(body.spec_bytes()).len() == 0
                && final(self).blocklist@ == old(self).blocklist@,
            r is Ok <==> keys_of_text(body.spec_bytes()).len() > 0,
            final(self).local_path == old(self).local_path,
            final(self).remote_url == old(self).remote_url,
            final(self).refresh_interval_secs == old(self).refresh_interval_secs,
    {
        let parsed = Blocklist::parse(body);
        let count = parsed.len();
        if count == 0 {
            return Err(
                "Remote blocklist is empty. Ignoring update to preserve protection.".to_owned(),
            );
        }
        self.blocklist.replace(parsed);
        Ok(count)
    }

    /// Parse a deny-list text without touching the stored set.
    pub fn parse_blocklist(&self, content: &str) -> (r: Blocklist)
        ensures
            r@ == keys_of_text(content.spec_bytes()),
    {
        Blocklist::parse(content)
    }

    /// Membership test against the current set.
    pub fn is_blocked(&self, key: &ValidatorKey) -> (r: bool)
        ensures
            r <==> self.blocklist@.contains(key@),
    {
        self.blocklist.contains(key)
    }

    /// Current size of the set.
    pub fn len(&self) -> (r: usize)
        ensures
            r == self.blocklist@.len(),
    {
        self.blocklist.len()
    }

    /// Whether the set is empty.
    pub fn is_empty(&self) -> (r: bool)
        ensures
            r <==> self.blocklist@.len() == 0,
    {
        self.blocklist.is_empty()
    }
}

impl Default for BlocklistManager {
    /// Same as [`BlocklistManager::new`].
    fn default() -> (r: Self)
        ensures
            r.blocklist@ == Set::<Seq<u8>>::empty(),
            r.local_path@ == "./blocklist.txt"@,
            r.remote_url is None,
            r.refresh_interval_secs == DEFAULT_REFRESH_SECS,
    {
        BlocklistManager::new()
    }
}

/// Replacement of the deny-list is all-or-nothing: an observation made
/// against one of the two sets agrees with that whole set on every key;
/// no observation mixes the two.
pub proof fn lemma_swap_no_mixture(
    prev: Set<Seq<u8>>,
    next: Set<Seq<u8>>,
    observed: Set<Seq<u8>>,
)
    requires
        observed == prev || observed == next,
    ensures
        (forall|k: Seq<u8>| observed.contains(k) == prev.contains(k)) || (forall|k: Seq<u8>|
            observed.contains(k) == next.contains(k)),
{
}

} // verus!
