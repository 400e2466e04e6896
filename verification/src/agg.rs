//! Host aggregation: the union of the addresses that any probe strategy
//! confirmed online for one subnet.  A host answering only ICMP, only
//! TCP, or both counts as online exactly once.

use vstd::prelude::*;

verus! {

/// Outcome of one probe job: the target, the port it probed (`None`
/// for ICMP), and whether the probe succeeded before the deadline.
/// Absence of success means "offline for this technique", nothing
/// finer.
#[derive(Clone, Copy, PartialEq, Eq, Structural, Debug)]
pub struct ProbeResult {
    pub addr: u32,
    pub port: Option<u16>,
    pub success: bool,
}

/// The addresses that a stream of probe results confirms online.
pub open spec fn spec_online_of(results: Seq<ProbeResult>) -> Set<u32> {
    Set::new(
        |a: u32|
            exists|i: int|
                0 <= i < results.len() && (#[trigger] results[i]).success && results[i].addr == a,
    )
}

pub open spec fn spec_strictly_sorted(s: Seq<u32>) -> bool {
    forall|i: int, j: int| 0 <= i < j < s.len() ==> s[i] < s[j]
}

/// The per-subnet union of online addresses, kept as a duplicate-free
/// ascending vector so that one canonical report line exists for each
/// online set.
pub struct HostAggregator {
    pub online: Vec<u32>,
}

impl HostAggregator {
    pub open spec fn wf(&self) -> bool {
        spec_strictly_sorted(self.online@)
    }

    pub open spec fn online_set(&self) -> Set<u32> {
        self.online@.to_set()
    }

    pub fn new() -> (a: Self)
        ensures
            a.wf(),
            a.online@.len() == 0,
            a.online_set() == Set::<u32>::empty(),
    {
        let a = HostAggregator { online: Vec::new() };
        proof {
            assert(a.online_set() =~= Set::<u32>::empty());
        }
        a
    }

    /// Records one address as online; a second sighting changes
    /// nothing.
    pub fn insert_online(&mut self, addr: u32)
        requires
            old(self).wf(),
        ensures
            final(self).wf(),
            final(self).online_set() == old(self).online_set().insert(addr),
    {
        let ghost pre = self.online@;
        let mut k: usize = 0;
        while k < self.online.len() && self.online[k] < addr
            invariant
                self.online@ == pre,
                k <= pre.len(),
                forall|j: int| 0 <= j < k ==> pre[j] < addr,
            decreases pre.len() - k,
        {
            k = k + 1;
        }
        if k < self.online.len() && self.online[k] == addr {
            proof {
                assert(pre.contains(addr));
                assert(self.online_set() =~= self.online@.to_set().insert(addr));
            }
            return ;
        }
        self.online.insert(k, addr);
        proof {
            let post = self.online@;
            assert(post == pre.insert(k as int, addr));
            assert forall|i: int, j: int| 0 <= i < j < post.len() implies post[i] < post[j] by {
                if j < k {
                    assert(post[i] == pre[i] && post[j] == pre[j]);
                } else if i > k {
                    assert(post[i] == pre[i - 1] && post[j] == pre[j - 1]);
                } else if i < k && j == k {
                    assert(post[i] == pre[i] && post[j] == addr);
                } else if i == k && j > k {
                    assert(post[i] == addr && post[j] == pre[j - 1]);
                    if k < pre.len() {
                        assert(pre[k as int] > addr);
                        if j - 1 > k {
                            assert(pre[k as int] < pre[j - 1]);
                        }
                    }
                } else if i < k && j > k {
                    assert(post[i] == pre[i] && post[j] == pre[j - 1]);
                    if k < pre.len() {
                        assert(pre[k as int] > addr);
                    }
                }
            }
            assert forall|x: u32| post.to_set().contains(x) implies pre.to_set().insert(
                addr,
            ).contains(x) by {
                let i = choose|i: int| 0 <= i < post.len() && post[i] == x;
                if i < k {
                    assert(pre[i] == x);
                    assert(pre.contains(x));
                } else if i > k {
                    assert(pre[i - 1] == x);
                    assert(pre.contains(x));
                }
            }
            assert forall|x: u32| pre.to_set().insert(addr).contains(x) implies post.to_set()
                .contains(x) by {
                if x == addr {
                    assert(post[k as int] == addr);
                    assert(post.contains(x));
                } else {
                    let i = choose|i: int| 0 <= i < pre.len() && pre[i] == x;
                    if i < k {
                        assert(post[i] == x);
                    } else {
                        assert(post[i + 1] == x);
                    }
                    assert(post.contains(x));
                }
            }
            assert(post.to_set() =~= pre.to_set().insert(addr));
        }
    }

    /// Merges one strategy's result stream: every successful result's
    /// address joins the online set; failures change nothing.
    pub fn merge(&mut self, results: &Vec<ProbeResult>)
        requires
            old(self).wf(),
        ensures
            final(self).wf(),
            final(self).online_set() == old(self).online_set().union(spec_online_of(results@)),
    {
        let ghost base = old(self).online_set();
        let mut k: usize = 0;
        proof {
            assert(spec_online_of(results@.take(0)) =~= Set::<u32>::empty());
            assert(base.union(Set::<u32>::empty()) =~= base);
        }
        while k < results.len()
            invariant
                old(self).wf(),
                self.wf(),
                k <= results@.len(),
                base == old(self).online_set(),
                self.online_set() == base.union(spec_online_of(results@.take(k as int))),
            decreases results@.len() - k,
        {
            let ghost cur = spec_online_of(results@.take(k as int));
            proof {
                lemma_online_of_take_step(results@, k as int);
            }
            let r = results[k];
            if r.success {
                self.insert_online(r.addr);
                proof {
                    assert(base.union(cur).insert(r.addr) =~= base.union(cur.insert(r.addr)));
                }
            }
            k = k + 1;
        }
        proof {
            assert(results@.take(k as int) =~= results@);
        }
    }
}

/// Extending a result stream by one result grows its online set by the
/// result's address exactly when that probe succeeded.
proof fn lemma_online_of_take_step(r: Seq<ProbeResult>, k: int)
    requires
        0 <= k < r.len(),
    ensures
        r[k].success ==> spec_online_of(r.take(k + 1)) =~= spec_online_of(r.take(k)).insert(
            r[k].addr,
        ),
        !r[k].success ==> spec_online_of(r.take(k + 1)) =~= spec_online_of(r.take(k)),
{
    let a = r.take(k + 1);
    let b = r.take(k);
    assert forall|x: u32| spec_online_of(a).contains(x) implies ((r[k].success && x == r[k].addr)
        || spec_online_of(b).contains(x)) by {
        let i = choose|i: int| 0 <= i < a.len() && (#[trigger] a[i]).success && a[i].addr == x;
        if i < k {
            assert(b[i] == r[i]);
            assert(spec_online_of(b).contains(x));
        } else {
            assert(a[i] == r[k]);
        }
    }
    assert forall|x: u32| spec_online_of(b).contains(x) implies spec_online_of(a).contains(x) by {
        let i = choose|i: int| 0 <= i < b.len() && (#[trigger] b[i]).success && b[i].addr == x;
        assert(a[i] == r[i]);
        assert(0 <= i < a.len() && a[i].success && a[i].addr == x);
    }
    if r[k].success {
        assert(a[k] == r[k]);
        assert(0 <= k < a.len() && a[k].success && a[k].addr == r[k].addr);
        assert(spec_online_of(a).contains(r[k].addr));
    }
}

/// Merging the same result stream twice yields the same online set as
/// merging it once: the union is idempotent.
pub proof fn lemma_merge_idempotent(base: Set<u32>, results: Seq<ProbeResult>)
    ensures
        base.union(spec_online_of(results)).union(spec_online_of(results)) == base.union(
            spec_online_of(results),
        ),
{
    assert(base.union(spec_online_of(results)).union(spec_online_of(results)) =~= base.union(
        spec_online_of(results),
    ));
}

/// Merging two result streams in either order yields the same online
/// set: the union is commutative.
pub proof fn lemma_merge_commutative(base: Set<u32>, r1: Seq<ProbeResult>, r2: Seq<ProbeResult>)
    ensures
        base.union(spec_online_of(r1)).union(spec_online_of(r2)) == base.union(
            spec_online_of(r2),
        ).union(spec_online_of(r1)),
{
    assert(base.union(spec_online_of(r1)).union(spec_online_of(r2)) =~= base.union(
        spec_online_of(r2),
    ).union(spec_online_of(r1)));
}

/// Two well-formed aggregators with the same online set hold the very
/// same vector: the ascending duplicate-free representation is
/// canonical, so equal online sets give identical report lines.
pub proof fn lemma_online_canonical(x: Seq<u32>, y: Seq<u32>)
    requires
        spec_strictly_sorted(x),
        spec_strictly_sorted(y),
        x.to_set() == y.to_set(),
    ensures
        x == y,
    decreases x.len(),
{
    if x.len() == 0 {
        if y.len() > 0 {
            assert(y.contains(y[0]));
            assert(y.to_set().contains(y[0]));
            assert(x.to_set().contains(y[0]));
            assert(x.contains(y[0]));
        }
        assert(x =~= y);
    } else {
        assert(x.contains(x[0]));
        assert(x.to_set().contains(x[0]));
        assert(y.to_set().contains(x[0]));
        assert(y.contains(x[0]));
        let j0 = choose|j: int| 0 <= j < y.len() && y[j] == x[0];
        assert(y.contains(y[0]));
        assert(x.to_set().contains(y[0]));
        assert(x.contains(y[0]));
        let i0 = choose|i: int| 0 <= i < x.len() && x[i] == y[0];
        assert(x[0] <= x[i0]);
        assert(y[0] <= y[j0]);
        assert(x[0] == y[0]);
        let xt = x.drop_first();
        let yt = y.drop_first();
        assert forall|i: int, j: int| 0 <= i < j < xt.len() implies xt[i] < xt[j] by {
            assert(xt[i] == x[i + 1] && xt[j] == x[j + 1]);
        }
        assert forall|i: int, j: int| 0 <= i < j < yt.len() implies yt[i] < yt[j] by {
            assert(yt[i] == y[i + 1] && yt[j] == y[j + 1]);
        }
        assert forall|a: u32| xt.to_set().contains(a) implies yt.to_set().contains(a) by {
            lemma_tail_membership(x, y, a);
        }
        assert forall|a: u32| yt.to_set().contains(a) implies xt.to_set().contains(a) by {
            lemma_tail_membership(y, x, a);
        }
        assert(xt.to_set() =~= yt.to_set());
        lemma_online_canonical(xt, yt);
        assert forall|i: int| 0 <= i < x.len() implies x[i] == y[i] by {
            if i > 0 {
                assert(x[i] == xt[i - 1] && y[i] == yt[i - 1]);
            }
        }
        assert(x =~= y);
    }
}

/// In two strictly sorted sequences with the same set and the same
/// first element, membership in one tail carries to the other tail.
proof fn lemma_tail_membership(x: Seq<u32>, y: Seq<u32>, a: u32)
    requires
        spec_strictly_sorted(x),
        spec_strictly_sorted(y),
        x.to_set() == y.to_set(),
        x.len() > 0,
        y.len() > 0,
        x[0] == y[0],
        x.drop_first().to_set().contains(a),
    ensures
        y.drop_first().to_set().contains(a),
{
    let xt = x.drop_first();
    let yt = y.drop_first();
    assert(xt.contains(a));
    let i = choose|i: int| 0 <= i < xt.len() && xt[i] == a;
    assert(x[i + 1] == a);
    assert(x[0] < a);
    assert(x.contains(a));
    assert(x.to_set().contains(a));
    assert(y.to_set().contains(a));
    assert(y.contains(a));
    let j = choose|j: int| 0 <= j < y.len() && y[j] == a;
    assert(j != 0);
    assert(yt[j - 1] == a);
    assert(yt.contains(a));
}

} // verus!
