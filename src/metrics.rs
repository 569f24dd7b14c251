use std::time::Duration;

use ringbuffer::{AllocRingBuffer, RingBuffer};
use vstd::prelude::*;

verus! {

/// Number of buckets of the bounce-depth histogram: depths `0..=10`.
pub const DEPTH_BUCKETS: usize = 11;

/// Statistics of one render pass.
#[derive(Clone, Copy)]
pub struct RenderPassMetrics {
    pub ray_count: usize,
    pub ray_depth_histogram: [usize; 11],
    pub ray_depth_histogram_count: usize,
    pub render_time: Duration,
}

/// Relies on `Duration::ZERO`: a zero-length duration.
#[verifier::external_body]
fn zero_duration() -> (r: Duration) {
    Duration::ZERO
}

/// Sum of the ray counts of `ps`.
pub open spec fn total_rays(ps: Seq<RenderPassMetrics>) -> int
    decreases ps.len(),
{
    if ps.len() == 0 {
        0
    } else {
        total_rays(ps.drop_last()) + ps.last().ray_count
    }
}

/// Sum of histogram bucket `b` over `ps`.
pub open spec fn total_bucket(ps: Seq<RenderPassMetrics>, b: int) -> int
    decreases ps.len(),
{
    if ps.len() == 0 {
        0
    } else {
        total_bucket(ps.drop_last(), b) + ps.last().ray_depth_histogram[b]
    }
}

/// Sum of the histogram sample counts of `ps`.
pub open spec fn total_depth_count(ps: Seq<RenderPassMetrics>) -> int
    decreases ps.len(),
{
    if ps.len() == 0 {
        0
    } else {
        total_depth_count(ps.drop_last()) + ps.last().ray_depth_histogram_count
    }
}

/// All running sums of `ps` fit in a `usize`.
pub open spec fn sums_fit(ps: Seq<RenderPassMetrics>) -> bool {
    &&& total_rays(ps) <= usize::MAX
    &&& total_depth_count(ps) <= usize::MAX
    &&& forall|b: int| 0 <= b < 11 ==> #[trigger] total_bucket(ps, b) <= usize::MAX
}

proof fn lemma_totals_monotone(ps: Seq<RenderPassMetrics>, k: int)
    requires
        0 <= k <= ps.len(),
    ensures
        0 <= total_rays(ps.subrange(0, k)) <= total_rays(ps),
        0 <= total_depth_count(ps.subrange(0, k)) <= total_depth_count(ps),
        forall|b: int| 0 <= b < 11 ==> 0 <= #[trigger] total_bucket(ps.subrange(0, k), b) <= total_bucket(ps, b),
    decreases ps.len(),
{
    if k == ps.len() {
        assert(ps.subrange(0, k) =~= ps);
        lemma_totals_nonneg(ps);
    } else {
        let q = ps.drop_last();
        lemma_totals_monotone(q, k);
        assert(q.subrange(0, k) =~= ps.subrange(0, k));
        lemma_totals_nonneg(q);
    }
}

proof fn lemma_totals_nonneg(ps: Seq<RenderPassMetrics>)
    ensures
        0 <= total_rays(ps),
        0 <= total_depth_count(ps),
        forall|b: int| 0 <= b < 11 ==> 0 <= #[trigger] total_bucket(ps, b),
    decreases ps.len(),
{
    if ps.len() > 0 {
        lemma_totals_nonneg(ps.drop_last());
        assert forall|b: int| 0 <= b < 11 implies 0 <= #[trigger] total_bucket(ps, b) by {
            assert(0 <= total_bucket(ps.drop_last(), b));
        }
    }
}

proof fn lemma_prefix_step(ps: Seq<RenderPassMetrics>, k: int)
    requires
        0 <= k < ps.len(),
    ensures
        total_rays(ps.subrange(0, k + 1)) == total_rays(ps.subrange(0, k)) + ps[k].ray_count,
        total_depth_count(ps.subrange(0, k + 1)) == total_depth_count(ps.subrange(0, k))
            + ps[k].ray_depth_histogram_count,
        forall|b: int|
            0 <= b < 11 ==> #[trigger] total_bucket(ps.subrange(0, k + 1), b) == total_bucket(
                ps.subrange(0, k),
                b,
            ) + ps[k].ray_depth_histogram[b],
{
    assert(ps.subrange(0, k + 1).drop_last() =~= ps.subrange(0, k));
}

impl Default for RenderPassMetrics {
    fn default() -> (r: Self)
        ensures
            r.ray_count == 0,
            r.ray_depth_histogram_count == 0,
            forall|b: int| 0 <= b < 11 ==> r.ray_depth_histogram[b] == 0,
    {
        RenderPassMetrics {
            ray_count: 0,
            ray_depth_histogram: [0; 11],
            ray_depth_histogram_count: 0,
            render_time: zero_duration(),
        }
    }
}

impl RenderPassMetrics {
    /// Records one path that ended at bounce depth `depth`.
    pub fn add_depth(&mut self, depth: usize)
        requires
            depth < DEPTH_BUCKETS,
            old(self).ray_depth_histogram[depth as int] < usize::MAX,
            old(self).ray_depth_histogram_count < usize::MAX,
        ensures
            final(self).ray_depth_histogram@ == old(self).ray_depth_histogram@.update(
                depth as int,
                (old(self).ray_depth_histogram[depth as int] + 1) as usize,
            ),
            final(self).ray_depth_histogram_count == old(self).ray_depth_histogram_count + 1,
            final(self).ray_count == old(self).ray_count,
            final(self).render_time == old(self).render_time,
    {
        self.ray_depth_histogram[depth] = self.ray_depth_histogram[depth] + 1;
        self.ray_depth_histogram_count = self.ray_depth_histogram_count + 1;
    }

    /// Adds the counts of `other` to `self`; the render time of `self` is kept.
    pub fn combine(&mut self, other: &Self)
        requires
            old(self).ray_count + other.ray_count <= usize::MAX,
            old(self).ray_depth_histogram_count + other.ray_depth_histogram_count <= usize::MAX,
            forall|b: int|
                0 <= b < 11 ==> old(self).ray_depth_histogram[b] + other.ray_depth_histogram[b]
                    <= usize::MAX,
        ensures
            final(self).ray_count == old(self).ray_count + other.ray_count,
            final(self).ray_depth_histogram_count == old(self).ray_depth_histogram_count
                + other.ray_depth_histogram_count,
            forall|b: int|
                0 <= b < 11 ==> #[trigger] final(self).ray_depth_histogram[b]
                    == old(self).ray_depth_histogram[b] + other.ray_depth_histogram[b],
            final(self).render_time == old(self).render_time,
    {
        self.ray_count = self.ray_count + other.ray_count;
        let ghost before = self.ray_depth_histogram;
        let mut i: usize = 0;
        while i < DEPTH_BUCKETS
            invariant
                i <= 11,
                self.ray_count == old(self).ray_count + other.ray_count,
                self.ray_depth_histogram_count == old(self).ray_depth_histogram_count,
                self.render_time == old(self).render_time,
                before == old(self).ray_depth_histogram,
                old(self).ray_depth_histogram_count + other.ray_depth_histogram_count <= usize::MAX,
                forall|b: int|
                    0 <= b < 11 ==> before[b] + other.ray_depth_histogram[b] <= usize::MAX,
                forall|b: int|
                    0 <= b < i ==> #[trigger] self.ray_depth_histogram[b] == before[b]
                        + other.ray_depth_histogram[b],
                forall|b: int| i <= b < 11 ==> #[trigger] self.ray_depth_histogram[b] == before[b],
            decreases 11 - i,
        {
            let v = self.ray_depth_histogram[i] + other.ray_depth_histogram[i];
            self.ray_depth_histogram[i] = v;
            i = i + 1;
        }
        self.ray_depth_histogram_count = self.ray_depth_histogram_count
            + other.ray_depth_histogram_count;
    }

    /// The counts of all `passes` added together.
    pub fn combined(passes: &[RenderPassMetrics]) -> (r: Self)
        requires
            sums_fit(passes@),
        ensures
            r.ray_count == total_rays(passes@),
            r.ray_depth_histogram_count == total_depth_count(passes@),
            forall|b: int| 0 <= b < 11 ==> #[trigger] r.ray_depth_histogram[b] == total_bucket(
                passes@,
                b,
            ),
    {
        let mut total = Self::default();
        let mut k: usize = 0;
        while k < passes.len()
            invariant
                k <= passes@.len(),
                sums_fit(passes@),
                total.ray_count == total_rays(passes@.subrange(0, k as int)),
                total.ray_depth_histogram_count == total_depth_count(passes@.subrange(0, k as int)),
                forall|b: int| 0 <= b < 11 ==> #[trigger] total.ray_depth_histogram[b] == total_bucket(
                    passes@.subrange(0, k as int),
                    b,
                ),
            decreases passes@.len() - k,
        {
            proof {
                lemma_prefix_step(passes@, k as int);
                lemma_totals_monotone(passes@, k + 1);
                assert forall|b: int| 0 <= b < 11 implies total.ray_depth_histogram[b]
                    + passes@[k as int].ray_depth_histogram[b] <= usize::MAX by {
                    assert(total_bucket(passes@.subrange(0, k + 1), b) <= total_bucket(passes@, b));
                    assert(total_bucket(passes@, b) <= usize::MAX);
                }
            }
            total.combine(&passes[k]);
            k = k + 1;
        }
        assert(passes@.subrange(0, passes@.len() as int) =~= passes@);
        total
    }

    /// The counts of all `passes` added together, or `None` where a sum would not fit in a
    /// `usize`.
    pub fn try_combined(passes: &[RenderPassMetrics]) -> (r: Option<Self>)
        ensures
            r.is_some() <==> sums_fit(passes@),
            r matches Some(t) ==> {
                &&& t.ray_count == total_rays(passes@)
                &&& t.ray_depth_histogram_count == total_depth_count(passes@)
                &&& forall|b: int| 0 <= b < 11 ==> #[trigger] t.ray_depth_histogram[b] == total_bucket(passes@, b)
            },
    {
        let mut rays: usize = 0;
        let mut count: usize = 0;
        let mut buckets: [usize; 11] = [0; 11];
        let mut k: usize = 0;
        while k < passes.len()
            invariant
                k <= passes@.len(),
                rays == total_rays(passes@.subrange(0, k as int)),
                count == total_depth_count(passes@.subrange(0, k as int)),
                forall|b: int| 0 <= b < 11 ==> #[trigger] buckets[b] == total_bucket(
                    passes@.subrange(0, k as int),
                    b,
                ),
            decreases passes@.len() - k,
        {
            let p = passes[k];
            proof {
                lemma_prefix_step(passes@, k as int);
            }
            match rays.checked_add(p.ray_count) {
                Some(v) => rays = v,
                None => {
                    proof { lemma_totals_monotone(passes@, k + 1); }
                    return None;
                },
            }
            match count.checked_add(p.ray_depth_histogram_count) {
                Some(v) => count = v,
                None => {
                    proof { lemma_totals_monotone(passes@, k + 1); }
                    return None;
                },
            }
            let mut b: usize = 0;
            let ghost before = buckets;
            while b < DEPTH_BUCKETS
                invariant
                    b <= 11,
                    k < passes@.len(),
                    p == passes@[k as int],
                    forall|j: int| 0 <= j < 11 ==> #[trigger] before[j] == total_bucket(
                        passes@.subrange(0, k as int),
                        j,
                    ),
                    forall|j: int| 0 <= j < b ==> #[trigger] buckets[j] == before[j] + p.ray_depth_histogram[j],
                    forall|j: int| b <= j < 11 ==> #[trigger] buckets[j] == before[j],
                decreases 11 - b,
            {
                match buckets[b].checked_add(p.ray_depth_histogram[b]) {
                    Some(v) => buckets[b] = v,
                    None => {
                        proof {
                            lemma_prefix_step(passes@, k as int);
                            lemma_totals_monotone(passes@, k + 1);
                            assert(total_bucket(passes@.subrange(0, k + 1), b as int) > usize::MAX);
                            assert(total_bucket(passes@, b as int) > usize::MAX);
                        }
                        return None;
                    },
                }
                b = b + 1;
            }
            k = k + 1;
        }
        assert(passes@.subrange(0, passes@.len() as int) =~= passes@);
        assert forall|b: int| 0 <= b < 11 implies #[trigger] total_bucket(passes@, b)
            <= usize::MAX by {
            assert(buckets[b] == total_bucket(passes@, b));
        }
        assert(sums_fit(passes@));
        Some(RenderPassMetrics {
            ray_count: rays,
            ray_depth_histogram: buckets,
            ray_depth_histogram_count: count,
            render_time: zero_duration(),
        })
    }
}

#[verifier::external_type_specification]
#[verifier::external_body]
#[verifier::reject_recursive_types(T)]
pub struct ExAllocRingBuffer<T>(AllocRingBuffer<T>);

/// The items that a ring buffer of pass metrics holds, oldest first.
pub uninterp spec fn ring_items(r: AllocRingBuffer<RenderPassMetrics>) -> Seq<RenderPassMetrics>;

/// The capacity that a ring buffer of pass metrics was made with.
pub uninterp spec fn ring_capacity(r: AllocRingBuffer<RenderPassMetrics>) -> nat;

/// Relies on `AllocRingBuffer::new`: an empty buffer of the given capacity. It panics on a
/// zero capacity and needs the allocation layout of `capacity.next_power_of_two()` items to
/// fit, which the upper bound keeps.
#[verifier::external_body]
fn ring_new(capacity: usize) -> (r: AllocRingBuffer<RenderPassMetrics>)
    requires
        0 < capacity <= u32::MAX,
    ensures
        ring_items(r) == Seq::<RenderPassMetrics>::empty(),
        ring_capacity(r) == capacity,
{
    AllocRingBuffer::new(capacity)
}

/// Relies on `RingBuffer::push` of `AllocRingBuffer`: appends `value`, first dropping the
/// oldest item when the buffer is full.
#[verifier::external_body]
fn ring_push(r: &mut AllocRingBuffer<RenderPassMetrics>, value: RenderPassMetrics)
    ensures
        ring_capacity(*final(r)) == ring_capacity(*old(r)),
        ring_items(*final(r)) == if ring_items(*old(r)).len() == ring_capacity(*old(r)) {
            ring_items(*old(r)).drop_first().push(value)
        } else {
            ring_items(*old(r)).push(value)
        },
{
    r.push(value)
}

/// Relies on `RingBuffer::to_vec` of `AllocRingBuffer`: the items, oldest first.
#[verifier::external_body]
fn ring_to_vec(r: &AllocRingBuffer<RenderPassMetrics>) -> (v: Vec<RenderPassMetrics>)
    ensures
        v@ == ring_items(*r),
{
    r.to_vec()
}

/// The window after `p` is added to `w` under capacity `cap`: the oldest item leaves when
/// the window is full.
pub open spec fn window_push(w: Seq<RenderPassMetrics>, p: RenderPassMetrics, cap: nat) -> Seq<
    RenderPassMetrics,
> {
    if w.len() >= cap {
        w.drop_first().push(p)
    } else {
        w.push(p)
    }
}

/// The window after each pass of `ps` is added in turn to an empty window of capacity `cap`.
pub open spec fn window_after(ps: Seq<RenderPassMetrics>, cap: nat) -> Seq<RenderPassMetrics>
    decreases ps.len(),
{
    if ps.len() == 0 {
        Seq::empty()
    } else {
        window_push(window_after(ps.drop_last(), cap), ps.last(), cap)
    }
}

/// A rolling window of the statistics of the most recent render passes.
pub struct RendererMetrics {
    pub capacity: usize,
    pub passes: AllocRingBuffer<RenderPassMetrics>,
}

impl RendererMetrics {
    /// The passes in the window, oldest first.
    pub open spec fn window(&self) -> Seq<RenderPassMetrics> {
        ring_items(self.passes)
    }

    pub open spec fn wf(&self) -> bool {
        &&& 0 < self.capacity
        &&& ring_capacity(self.passes) == self.capacity
        &&& ring_items(self.passes).len() <= self.capacity
    }

    /// An empty window that keeps at most `capacity` passes.
    pub fn new(capacity: usize) -> (r: Self)
        requires
            0 < capacity <= u32::MAX,
        ensures
            r.wf(),
            r.capacity == capacity,
            r.window() == Seq::<RenderPassMetrics>::empty(),
    {
        RendererMetrics { capacity, passes: ring_new(capacity) }
    }

    /// Adds the statistics of one pass, dropping the oldest pass when the window is full.
    pub fn add_pass(&mut self, pass: RenderPassMetrics)
        requires
            old(self).wf(),
        ensures
            final(self).wf(),
            final(self).capacity == old(self).capacity,
            final(self).window() == window_push(old(self).window(), pass, old(self).capacity as nat),
    {
        ring_push(&mut self.passes, pass);
    }

    /// The passes in the window, oldest first.
    pub fn iter(&self) -> (r: Vec<RenderPassMetrics>)
        ensures
            r@ == self.window(),
    {
        ring_to_vec(&self.passes)
    }

    /// The counts of all passes in the window added together, or `None` where a sum would not
    /// fit in a `usize`.
    pub fn window_totals(&self) -> (r: Option<RenderPassMetrics>)
        ensures
            r.is_some() <==> sums_fit(self.window()),
            r matches Some(t) ==> {
                &&& t.ray_count == total_rays(self.window())
                &&& t.ray_depth_histogram_count == total_depth_count(self.window())
                &&& forall|b: int| 0 <= b < 11 ==> #[trigger] t.ray_depth_histogram[b] == total_bucket(self.window(), b)
            },
    {
        let v = self.iter();
        RenderPassMetrics::try_combined(v.as_slice())
    }
}

/// The window holds the last `min(capacity, n)` of the `n` passes added to it since it was
/// made, in the order in which they were added.
pub proof fn lemma_window_keeps_latest(ps: Seq<RenderPassMetrics>, cap: nat)
    requires
        cap > 0,
    ensures
        ps.len() <= cap ==> window_after(ps, cap) == ps,
        ps.len() > cap ==> window_after(ps, cap) == ps.subrange(ps.len() - cap, ps.len() as int),
    decreases ps.len(),
{
    if ps.len() > 0 {
        let q = ps.drop_last();
        lemma_window_keeps_latest(q, cap);
        if ps.len() <= cap {
            assert(window_after(ps, cap) =~= ps);
        } else if q.len() == cap {
            assert(window_after(q, cap) == q);
            assert(window_after(ps, cap) =~= ps.subrange(ps.len() - cap, ps.len() as int));
        } else {
            assert(window_after(ps, cap) =~= ps.subrange(ps.len() - cap, ps.len() as int));
        }
    }
}

} // verus!
