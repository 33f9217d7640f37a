//! Slot clock decisions: feed-event handling, reconnect backoff, and
//! endpoint normalisation for the streaming feed.
//!
//! The streaming connection itself is I/O and lives outside the
//! library; these functions decide what the feed loop does with what
//! it sees.

use vstd::prelude::*;

verus! {

/// The status code a slot feed reports for a slot at the earliest
/// ("processed") commitment level.
pub const SLOT_STATUS_PROCESSED: i32 = 0;

/// What a received slot update does to the clock: only updates whose
/// status is *processed* are recorded.
pub fn slot_update_action(slot: u64, status: i32) -> (r: Option<u64>)
    ensures
        r == if status == SLOT_STATUS_PROCESSED {
            Some(slot)
        } else {
            None::<u64>
        },
{
    if status == SLOT_STATUS_PROCESSED {
        Some(slot)
    } else {
        None
    }
}

/// Reconnect backoff of the streaming feed: wait the current delay,
/// double it on each failure up to the cap, reset on success.
pub struct BackoffPolicy {
    initial_ms: u64,
    max_ms: u64,
    current_ms: u64,
}

impl BackoffPolicy {
    #[verifier::type_invariant]
    spec fn wf(self) -> bool {
        self.initial_ms <= self.current_ms <= self.max_ms
    }

    /// The configured first delay.
    pub closed spec fn initial(self) -> u64 {
        self.initial_ms
    }

    /// The configured cap.
    pub closed spec fn cap(self) -> u64 {
        self.max_ms
    }

    /// The delay the next wait will use.
    pub closed spec fn current(self) -> u64 {
        self.current_ms
    }

    /// A policy that starts at `initial_ms` and doubles up to `max_ms`.
    pub fn new(initial_ms: u64, max_ms: u64) -> (r: Self)
        requires
            initial_ms <= max_ms,
        ensures
            r.initial() == initial_ms,
            r.cap() == max_ms,
            r.current() == initial_ms,
    {
        BackoffPolicy { initial_ms, max_ms, current_ms: initial_ms }
    }

    /// The delay to wait before the next attempt.
    pub fn current_delay_ms(&self) -> (r: u64)
        ensures
            r == self.current(),
            self.initial() <= r <= self.cap(),
    {
        proof {
            use_type_invariant(&*self);
        }
        self.current_ms
    }

    /// After a failed attempt: double the delay, capped.
    pub fn advance(&mut self)
        ensures
            final(self).current() == if 2 * old(self).current() <= old(self).cap() {
                2 * old(self).current()
            } else {
                old(self).cap() as int
            },
            final(self).initial() == old(self).initial(),
            final(self).cap() == old(self).cap(),
    {
        proof {
            use_type_invariant(&*self);
        }
        if self.current_ms <= self.max_ms / 2 {
            self.current_ms = self.current_ms * 2;
        } else {
            self.current_ms = self.max_ms;
        }
    }

    /// After a successful connection: back to the first delay.
    pub fn reset(&mut self)
        ensures
            final(self).current() == old(self).initial(),
            final(self).initial() == old(self).initial(),
            final(self).cap() == old(self).cap(),
    {
        proof {
            use_type_invariant(&*self);
        }
        self.current_ms = self.initial_ms;
    }
}

/// Whether bytes `i`, `i+1`, `i+2` spell the `://` scheme separator.
pub open spec fn scheme_sep_at(s: Seq<u8>, i: int) -> bool {
    i + 3 <= s.len() && s[i] == 58 && s[i + 1] == 47 && s[i + 2] == 47
}

/// The first scheme separator at or after `i`, if any.
pub open spec fn first_scheme_sep(s: Seq<u8>, i: nat) -> Option<nat>
    decreases s.len() - i,
{
    if i + 3 > s.len() {
        None
    } else if scheme_sep_at(s, i as int) {
        Some(i)
    } else {
        first_scheme_sep(s, i + 1)
    }
}

/// Index of the first `/` at or after `i`, or the length.
pub open spec fn authority_end(s: Seq<u8>, i: nat) -> nat
    decreases s.len() - i,
{
    if i >= s.len() {
        s.len()
    } else if s[i as int] == 47 {
        i
    } else {
        authority_end(s, i + 1)
    }
}

/// The path with every leading `/` removed.
pub open spec fn strip_slashes(s: Seq<u8>) -> Seq<u8>
    decreases s.len(),
{
    if s.len() > 0 && s[0] == 47 {
        strip_slashes(s.drop_first())
    } else {
        s
    }
}

/// What endpoint normalisation yields. A URL without a scheme
/// separator, or whose path (stripped of leading slashes) is no
/// longer than ten bytes, passes through with no token. A longer path
/// is taken as an access token: the result is scheme and authority
/// alone, beside the token. A tokened URL without an authority is
/// rejected.
pub open spec fn split_endpoint_spec(s: Seq<u8>) -> Option<(Seq<u8>, Option<Seq<u8>>)> {
    match first_scheme_sep(s, 0) {
        None => Some((s, None)),
        Some(sep) => {
            let astart = sep + 3;
            let aend = authority_end(s, astart);
            let token = strip_slashes(s.subrange(aend as int, s.len() as int));
            if token.len() > 10 {
                if aend == astart {
                    None
                } else {
                    Some((s.subrange(0, aend as int), Some(token)))
                }
            } else {
                Some((s, None))
            }
        },
    }
}

proof fn lemma_first_scheme_sep_eq(s: Seq<u8>, from: nat, i: nat)
    requires
        from <= i,
        i + 3 <= s.len(),
        scheme_sep_at(s, i as int),
        forall|j: int| from <= j < i ==> !scheme_sep_at(s, j),
    ensures
        first_scheme_sep(s, from) == Some(i),
    decreases i - from,
{
    if from == i {
    } else {
        lemma_first_scheme_sep_eq(s, from + 1, i);
    }
}

proof fn lemma_first_scheme_sep_none(s: Seq<u8>, from: nat)
    requires
        forall|j: int| from <= j ==> !scheme_sep_at(s, j),
    ensures
        first_scheme_sep(s, from) is None,
    decreases s.len() - from,
{
    if from + 3 > s.len() {
    } else {
        lemma_first_scheme_sep_none(s, from + 1);
    }
}

proof fn lemma_authority_end_eq(s: Seq<u8>, from: nat, e: nat)
    requires
        from <= e <= s.len(),
        forall|j: int| from <= j < e ==> s[j] != 47,
        e < s.len() ==> s[e as int] == 47,
    ensures
        authority_end(s, from) == e,
    decreases e - from,
{
    if from == e {
    } else {
        lemma_authority_end_eq(s, from + 1, e);
    }
}

proof fn lemma_strip_slashes_eq(s: Seq<u8>, k: nat)
    requires
        k <= s.len(),
        forall|j: int| 0 <= j < k ==> s[j] == 47,
        k < s.len() ==> s[k as int] != 47,
    ensures
        strip_slashes(s) == s.subrange(k as int, s.len() as int),
    decreases k,
{
    if k == 0 {
        assert(s.subrange(0, s.len() as int) =~= s);
    } else {
        let d = s.drop_first();
        assert(s[0] == 47);
        assert(forall|j: int| 0 <= j < k - 1 ==> d[j] == s[j + 1] && d[j] == 47);
        lemma_strip_slashes_eq(d, (k - 1) as nat);
        assert(d.subrange(k - 1, d.len() as int) =~= s.subrange(k as int, s.len() as int));
    }
}

/// Normalise a streaming endpoint URL, extracting an access token
/// carried in its path. Yields the endpoint to dial and the token to
/// attach, or nothing when a tokened URL names no authority.
pub fn split_endpoint(url: &[u8]) -> (r: Option<(Vec<u8>, Option<Vec<u8>>)>)
    ensures
        match r {
            None => split_endpoint_spec(url@) is None,
            Some(p) => split_endpoint_spec(url@) matches Some(q) && p.0@ == q.0 && (match p.1 {
                Some(t) => q.1 matches Some(tq) && t@ == tq,
                None => q.1 is None,
            }),
        },
{
    let n = url.len();
    // Find the scheme separator.
    let mut i: usize = 0;
    let mut sep_found = false;
    while !sep_found && n - i >= 3
        invariant
            n == url@.len(),
            i <= n,
            forall|j: int| 0 <= j < i ==> !scheme_sep_at(url@, j),
            sep_found ==> i + 3 <= n && scheme_sep_at(url@, i as int),
        decreases n - i + (if sep_found {
            0int
        } else {
            1int
        }),
    {
        if url[i] == 58 && url[i + 1] == 47 && url[i + 2] == 47 {
            sep_found = true;
        } else {
            i = i + 1;
        }
    }
    if !sep_found {
        proof {
            assert forall|j: int| 0 <= j implies !scheme_sep_at(url@, j) by {
                if j < i {
                } else {
                    assert(j + 3 > n);
                }
            }
            lemma_first_scheme_sep_none(url@, 0);
        }
        Some((vstd::slice::slice_to_vec(url), None))
    } else {
        let sep_at = i;
        proof {
            lemma_first_scheme_sep_eq(url@, 0, sep_at as nat);
        }
        {
            let astart = sep_at + 3;
            // Find where the authority ends.
            let mut aend: usize = astart;
            while aend < n && url[aend] != 47
                invariant
                    n == url@.len(),
                    astart <= aend <= n,
                    forall|j: int| astart <= j < aend ==> url@[j] != 47,
                decreases n - aend,
            {
                aend = aend + 1;
            }
            proof {
                lemma_authority_end_eq(url@, astart as nat, aend as nat);
            }
            // Strip the leading slashes off the path.
            let mut ts: usize = aend;
            while ts < n && url[ts] == 47
                invariant
                    n == url@.len(),
                    aend <= ts <= n,
                    forall|j: int| aend <= j < ts ==> url@[j] == 47,
                decreases n - ts,
            {
                ts = ts + 1;
            }
            let ghost path = url@.subrange(aend as int, n as int);
            proof {
                assert(forall|j: int| 0 <= j < ts - aend ==> path[j] == url@[j + aend]);
                if ts < n {
                    assert(path[ts - aend] == url@[ts as int]);
                }
                lemma_strip_slashes_eq(path, (ts - aend) as nat);
                assert(path.subrange(ts - aend, path.len() as int) =~= url@.subrange(
                    ts as int,
                    n as int,
                ));
            }
            if n - ts > 10 {
                if aend == astart {
                    None
                } else {
                    let head = vstd::slice::slice_subrange(url, 0, aend);
                    let token = vstd::slice::slice_subrange(url, ts, n);
                    Some((vstd::slice::slice_to_vec(head), Some(vstd::slice::slice_to_vec(token))))
                }
            } else {
                Some((vstd::slice::slice_to_vec(url), None))
            }
        }
    }
}

} // verus!
