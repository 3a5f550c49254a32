//! The backend pool: an ordered list of backends, each with a mutable
//! health flag, and a rotation cursor that round-robin selection advances.

use vstd::prelude::*;

use vstd::arithmetic::div_mod::lemma_add_mod_noop_right;
use vstd::arithmetic::div_mod::lemma_mod_bound;
use vstd::arithmetic::div_mod::lemma_mod_equivalence;
use vstd::arithmetic::div_mod::lemma_small_mod;

use crate::Servers;

verus! {

/// The mathematical value of one backend: its URL and health-check path as
/// character sequences, and its current health flag.
pub ghost struct BackendView {
    pub url: Seq<char>,
    pub healthy: bool,
    pub health_check_path: Seq<char>,
}

/// One backend as the pool stores it. `healthy` is the only field that
/// changes after construction; it is written by `update_healthy` and read
/// by `get_next_server`.
pub struct RoundRobinServers {
    pub url: String,
    pub healthy: bool,
    pub health_check_path: String,
}

impl View for RoundRobinServers {
    type V = BackendView;

    open spec fn view(&self) -> BackendView {
        BackendView {
            url: self.url@,
            healthy: self.healthy,
            health_check_path: self.health_check_path@,
        }
    }
}

/// Scans offsets `k`, `k + 1`, ... from cursor `c` and yields the first
/// offset whose backend (at index `(c + offset) % len`) is healthy, or
/// `None` once a whole sweep is exhausted.
pub open spec fn scan(s: Seq<BackendView>, c: int, k: nat) -> Option<nat>
    decreases s.len() - k,
{
    if k >= s.len() {
        None
    } else if s[(c + k) % (s.len() as int)].healthy {
        Some(k)
    } else {
        scan(s, c, k + 1)
    }
}

/// The offset (number of cursor advances minus one) at which a selection
/// starting from cursor `c` finds a healthy backend, if any.
pub open spec fn pick_offset(s: Seq<BackendView>, c: int) -> Option<nat> {
    scan(s, c, 0)
}

/// The index of the backend that a selection starting from cursor `c`
/// returns, if any.
pub open spec fn pick_index(s: Seq<BackendView>, c: int) -> Option<int> {
    match pick_offset(s, c) {
        Some(k) => Some((c + k) % (s.len() as int)),
        None => None,
    }
}

/// The cursor after one selection starting from cursor `c`: one past the
/// picked backend, modulo the pool size; unchanged when nothing is picked
/// (an empty pool is untouched, and a full failed sweep wraps around).
pub open spec fn next_cursor(s: Seq<BackendView>, c: int) -> int {
    match pick_offset(s, c) {
        Some(k) => (c + k + 1) % (s.len() as int),
        None => c,
    }
}

/// Every backend is currently healthy.
pub open spec fn all_healthy(s: Seq<BackendView>) -> bool {
    forall|i: int| 0 <= i < s.len() ==> (#[trigger] s[i]).healthy
}

/// No backend is currently healthy.
pub open spec fn none_healthy(s: Seq<BackendView>) -> bool {
    forall|i: int| 0 <= i < s.len() ==> !(#[trigger] s[i]).healthy
}

/// The pool: backends in fixed rotation order plus the cursor that marks
/// the next candidate. Membership never changes after construction.
pub struct RoundRobin {
    servers: Vec<RoundRobinServers>,
    current: usize,
    total: usize,
}

impl RoundRobin {
    /// The backends in rotation order, as mathematical values.
    pub closed spec fn backends(self) -> Seq<BackendView> {
        Seq::new(self.servers@.len(), |i: int| self.servers@[i]@)
    }

    /// The index of the next candidate backend.
    pub closed spec fn cursor(self) -> int {
        self.current as int
    }

    /// Pool invariant: the stored total matches the list, and the cursor is
    /// a valid index whenever the pool is non-empty.
    pub closed spec fn wf(self) -> bool {
        &&& self.total == self.servers@.len()
        &&& (self.servers@.len() == 0 ==> self.current == 0)
        &&& (self.servers@.len() > 0 ==> (self.current as int) < self.servers@.len())
    }

    /// Builds a pool from validated backend descriptors: every backend
    /// starts healthy, in the given order, with the cursor at the front.
    pub fn new(servers: Vec<Servers>) -> (r: RoundRobin)
        ensures
            r.wf(),
            r.cursor() == 0,
            r.backends().len() == servers@.len(),
            forall|i: int|
                0 <= i < servers@.len() ==> {
                    &&& (#[trigger] r.backends()[i]).url == servers@[i].url@
                    &&& r.backends()[i].healthy == true
                    &&& r.backends()[i].health_check_path == servers@[i].health_check_path@
                },
    {
        let total = servers.len();
        let ghost orig = servers@;
        let mut rest = servers;
        let mut list: Vec<RoundRobinServers> = Vec::new();
        let mut i: usize = 0;
        while i < total
            invariant
                i <= total,
                total == orig.len(),
                rest@ =~= orig.subrange(i as int, total as int),
                list@.len() == i,
                forall|j: int|
                    0 <= j < i ==> {
                        &&& (#[trigger] list@[j]).url@ == orig[j].url@
                        &&& list@[j].healthy == true
                        &&& list@[j].health_check_path@ == orig[j].health_check_path@
                    },
            decreases total - i,
        {
            let s = rest.remove(0);
            list.push(
                RoundRobinServers {
                    url: s.url,
                    healthy: true,
                    health_check_path: s.health_check_path,
                },
            );
            i += 1;
        }
        let r = RoundRobin { current: 0, total, servers: list };
        proof {
            assert forall|i2: int| 0 <= i2 < orig.len() implies {
                &&& (#[trigger] r.backends()[i2]).url == orig[i2].url@
                &&& r.backends()[i2].healthy == true
                &&& r.backends()[i2].health_check_path == orig[i2].health_check_path@
            } by {
                assert(r.backends()[i2] == r.servers@[i2]@);
            }
        }
        r
    }

    /// The number of backends, fixed at construction.
    pub fn len(&self) -> (n: usize)
        ensures
            n == self.backends().len(),
    {
        self.servers.len()
    }

    /// Round-robin selection: advances the cursor once per attempt, looks at
    /// the backend the cursor pointed at before the advance, and returns the
    /// first healthy one's URL. Makes at most one full sweep, so it returns
    /// `None` immediately on an empty pool and `None` with the cursor back
    /// where it started when every backend is unhealthy.
    pub fn get_next_server(&mut self) -> (r: Option<String>)
        requires
            old(self).wf(),
        ensures
            final(self).wf(),
            final(self).backends() == old(self).backends(),
            final(self).cursor() == next_cursor(old(self).backends(), old(self).cursor()),
            (match pick_index(old(self).backends(), old(self).cursor()) {
                Some(i) => r matches Some(u) && u@ == old(self).backends()[i].url
                    && old(self).backends()[i].healthy,
                None => r is None,
            }),
            old(self).backends().len() == 0 ==> r is None && final(self).cursor() == old(
                self,
            ).cursor(),
    {
        let ghost v = old(self).backends();
        let ghost c0 = old(self).cursor();
        let len = self.total;
        if self.servers.len() == 0 {
            return None;
        }

        proof {
            lemma_small_mod(c0 as nat, len as nat);
        }
        let mut attempts: usize = 0;
        while attempts < len
            invariant
                self.servers == old(self).servers,
                self.total == old(self).total,
                old(self).wf(),
                v == old(self).backends(),
                c0 == old(self).cursor(),
                len == self.total,
                0 < len == v.len(),
                0 <= c0 < len,
                attempts <= len,
                self.current as int == (c0 + attempts) % (len as int),
                forall|j: int|
                    0 <= j < attempts ==> !v[#[trigger] ((c0 + j) % (len as int))].healthy,
            decreases len - attempts,
        {
            proof {
                lemma_mod_bound(c0 + attempts, len as int);
            }
            let index = self.current;
            self.current = (self.current + 1) % len;
            attempts += 1;
            proof {
                lemma_add_mod_noop_right(1, c0 + (attempts - 1), len as int);
            }

            if self.servers[index].healthy {
                let url = self.servers[index].url.as_str().to_owned();
                proof {
                    let k = (attempts - 1) as nat;
                    lemma_scan_skip(v, c0, k);
                    assert(v[(c0 + k) % (len as int)] == self.servers@[index as int]@);
                    assert(pick_offset(v, c0) == Some(k));
                    assert(self.backends() =~= v);
                }
                return Some(url);
            }
            proof {
                assert(v[(c0 + (attempts - 1)) % (len as int)] == self.servers@[
                    index as int
                ]@);
            }
        }
        proof {
            lemma_scan_skip(v, c0, len as nat);
            assert(pick_offset(v, c0) is None);
            lemma_add_mod_noop_right(c0, len as int, len as int);
            assert((len as int) % (len as int) == 0) by {
                lemma_mod_equivalence(len as int, 0, len as int);
                lemma_small_mod(0, len as nat);
            }
            lemma_small_mod(c0 as nat, len as nat);
            assert(self.current as int == c0);
            assert(self.backends() =~= v);
        }
        None
    }

    /// A point-in-time copy of all backends, in storage order, for the
    /// health prober; `None` when the pool is empty.
    pub fn get_all_servers(&self) -> (r: Option<Vec<RoundRobinServers>>)
        ensures
            r is Some <==> self.backends().len() > 0,
            (match r {
                Some(v) => v@.len() == self.backends().len() && forall|i: int|
                    0 <= i < v@.len() ==> (#[trigger] v@[i])@ == self.backends()[i],
                None => true,
            }),
    {
        if self.servers.len() == 0 {
            return None;
        }
        let mut copy: Vec<RoundRobinServers> = Vec::new();
        let mut i: usize = 0;
        while i < self.servers.len()
            invariant
                i <= self.servers@.len(),
                copy@.len() == i,
                forall|j: int| 0 <= j < i ==> (#[trigger] copy@[j])@ == self.servers@[j]@,
            decreases self.servers@.len() - i,
        {
            let s = &self.servers[i];
            copy.push(
                RoundRobinServers {
                    url: s.url.as_str().to_owned(),
                    healthy: s.healthy,
                    health_check_path: s.health_check_path.as_str().to_owned(),
                },
            );
            i += 1;
        }
        proof {
            assert forall|j: int| 0 <= j < copy@.len() implies (#[trigger] copy@[j])@
                == self.backends()[j] by {
                assert(self.backends()[j] == self.servers@[j]@);
            }
        }
        Some(copy)
    }

    /// Sets the health flag of the backend at `index` (a position fixed at
    /// construction), leaving its URL, its probe path, every other backend,
    /// and the cursor untouched.
    pub fn update_healthy(&mut self, index: usize, healthy: bool)
        requires
            index < old(self).backends().len(),
        ensures
            final(self).wf() == old(self).wf(),
            final(self).cursor() == old(self).cursor(),
            final(self).backends().len() == old(self).backends().len(),
            final(self).backends()[index as int].healthy == healthy,
            final(self).backends()[index as int].url == old(self).backends()[index as int].url,
            final(self).backends()[index as int].health_check_path == old(self).backends()[
                index as int
            ].health_check_path,
            forall|j: int|
                0 <= j < old(self).backends().len() && j != index ==> final(self).backends()[j]
                    == old(self).backends()[j],
    {
        let mut e = self.servers.remove(index);
        e.healthy = healthy;
        self.servers.insert(index, e);
        proof {
            assert forall|j: int|
                0 <= j < old(self).backends().len() && j != index implies final(self).backends()[j]
                == old(self).backends()[j] by {
                assert(final(self).servers@[j] == old(self).servers@[j]);
            }
            assert(final(self).backends()[index as int] == final(self).servers@[index as int]@);
        }
    }
}

/// If no backend within the first `k` offsets from cursor `c` is healthy,
/// the selection outcome is whatever scanning from offset `k` yields.
proof fn lemma_scan_skip(s: Seq<BackendView>, c: int, k: nat)
    requires
        k <= s.len(),
        forall|j: int| 0 <= j < k ==> !s[#[trigger] ((c + j) % (s.len() as int))].healthy,
    ensures
        pick_offset(s, c) == scan(s, c, k),
    decreases k,
{
    if k > 0 {
        assert(!s[(c + (k - 1)) % (s.len() as int)].healthy);
        lemma_scan_skip(s, c, (k - 1) as nat);
    }
}

/// Whatever offset a scan yields points at a healthy backend at a valid
/// index.
proof fn lemma_scan_finds_healthy(s: Seq<BackendView>, c: int, k: nat)
    requires
        scan(s, c, k) is Some,
    ensures
        (match scan(s, c, k) {
            Some(off) => k <= off < s.len() && s[(c + off) % (s.len() as int)].healthy,
            None => false,
        }),
    decreases s.len() - k,
{
    if k < s.len() && !s[(c + k) % (s.len() as int)].healthy {
        lemma_scan_finds_healthy(s, c, k + 1);
    }
}

/// Selection only ever yields the index of a healthy backend: a backend
/// that is marked unhealthy is never picked, from any cursor position,
/// until it is marked healthy again.
pub proof fn lemma_unhealthy_never_picked(s: Seq<BackendView>, c: int, i: int)
    requires
        0 <= i < s.len(),
        !s[i].healthy,
    ensures
        pick_index(s, c) != Some(i),
{
    if pick_offset(s, c) is Some {
        lemma_scan_finds_healthy(s, c, 0);
    }
}

/// When every backend is unhealthy, a full sweep finds nothing: selection
/// returns no backend and leaves the cursor where it started.
pub proof fn lemma_none_healthy_picks_none(s: Seq<BackendView>, c: int)
    requires
        none_healthy(s),
    ensures
        pick_index(s, c) is None,
        next_cursor(s, c) == c,
{
    if pick_offset(s, c) is Some {
        lemma_scan_finds_healthy(s, c, 0);
        let off = pick_offset(s, c)->Some_0;
        lemma_mod_bound(c + off, s.len() as int);
    }
}

/// The cursor after `n` consecutive selections starting from cursor `c`.
pub open spec fn cursor_after(s: Seq<BackendView>, c: int, n: nat) -> int
    decreases n,
{
    if n == 0 {
        c
    } else {
        next_cursor(s, cursor_after(s, c, (n - 1) as nat))
    }
}

/// With every backend healthy, the `n`-th of a run of consecutive
/// selections starting from cursor `c` picks exactly the backend at index
/// `(c + n) % len`: consecutive calls walk the pool in construction order,
/// starting at the position the cursor already marked.
pub proof fn lemma_all_healthy_rotation(s: Seq<BackendView>, c: int, n: nat)
    requires
        all_healthy(s),
        0 < s.len(),
        0 <= c < s.len(),
    ensures
        cursor_after(s, c, n) == (c + n) % (s.len() as int),
        pick_index(s, cursor_after(s, c, n)) == Some((c + n) % (s.len() as int)),
    decreases n,
{
    let m = s.len() as int;
    if n == 0 {
        lemma_small_mod(c as nat, s.len());
        assert(cursor_after(s, c, 0) == c);
        lemma_pick_at_healthy_cursor(s, c);
    } else {
        lemma_all_healthy_rotation(s, c, (n - 1) as nat);
        let cp = cursor_after(s, c, (n - 1) as nat);
        lemma_mod_bound(c + n - 1, m);
        lemma_pick_at_healthy_cursor(s, cp);
        assert(next_cursor(s, cp) == (cp + 0 + 1) % m);
        lemma_add_mod_noop_right(1, c + n - 1, m);
        assert((1 + cp) % m == (c + n) % m);
        lemma_mod_bound(c + n, m);
        lemma_pick_at_healthy_cursor(s, cursor_after(s, c, n));
    }
}

/// With every backend healthy and the cursor at a valid index, selection
/// picks the backend the cursor marks.
proof fn lemma_pick_at_healthy_cursor(s: Seq<BackendView>, c: int)
    requires
        all_healthy(s),
        0 <= c < s.len(),
    ensures
        pick_offset(s, c) == Some(0nat),
        pick_index(s, c) == Some(c),
        next_cursor(s, c) == (c + 1) % (s.len() as int),
{
    lemma_small_mod(c as nat, s.len());
    assert(s[(c + 0) % (s.len() as int)].healthy);
}

/// With every backend healthy, a run of `len` consecutive selections never
/// picks the same backend twice: together with `lemma_all_healthy_rotation`
/// this says such a run returns each backend exactly once, in construction
/// order.
pub proof fn lemma_rotation_distinct(s: Seq<BackendView>, c: int, i: nat, j: nat)
    requires
        all_healthy(s),
        0 < s.len(),
        0 <= c < s.len(),
        i < j < s.len(),
    ensures
        pick_index(s, cursor_after(s, c, i)) != pick_index(s, cursor_after(s, c, j)),
{
    let m = s.len() as int;
    lemma_all_healthy_rotation(s, c, i);
    lemma_all_healthy_rotation(s, c, j);
    if (c + i) % m == (c + j) % m {
        lemma_mod_equivalence(c + j, c + i, m);
        assert(((c + j) - (c + i)) % m == 0);
        assert((c + j) - (c + i) == j - i);
        lemma_small_mod((j - i) as nat, s.len());
        assert(false);
    }
}

} // verus!
