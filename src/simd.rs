use vstd::prelude::*;

verus! {

/// Number of lanes of a packed group.
pub const LANES: usize = 8;

/// A per-lane boolean mask over eight lanes, as produced by a lane-wise comparison.
#[derive(Clone, Copy, Debug)]
pub struct Bitmask {
    pub lanes: [bool; 8],
}

/// Eight 32-bit integer lanes.
#[allow(non_camel_case_types)]
#[derive(Clone, Copy, Debug)]
pub struct i32x8 {
    pub lanes: [i32; 8],
}

/// The integer whose bit `k` is set exactly when lane `k < n` of `m` is set.
pub open spec fn mask_bits(m: Seq<bool>, n: nat) -> nat
    decreases n,
{
    if n == 0 {
        0
    } else {
        mask_bits(m, (n - 1) as nat) + if m[n - 1] {
            vstd::arithmetic::power2::pow2((n - 1) as nat)
        } else {
            0
        }
    }
}

proof fn lemma_mask_bits_bound(m: Seq<bool>, n: nat)
    ensures
        mask_bits(m, n) < vstd::arithmetic::power2::pow2(n),
    decreases n,
{
    vstd::arithmetic::power2::lemma_pow2_unfold(n + 1);
    if n > 0 {
        lemma_mask_bits_bound(m, (n - 1) as nat);
        vstd::arithmetic::power2::lemma_pow2_unfold(n);
    }
    vstd::arithmetic::power2::lemma_pow2_pos(n);
}

impl Bitmask {
    /// Lane-wise conjunction.
    pub fn and(self, rhs: Bitmask) -> (r: Bitmask)
        ensures
            forall|k: int| 0 <= k < 8 ==> #[trigger] r.lanes[k] == (self.lanes[k] && rhs.lanes[k]),
    {
        let mut lanes = self.lanes;
        let mut k: usize = 0;
        while k < LANES
            invariant
                k <= 8,
                forall|j: int| 0 <= j < k ==> #[trigger] lanes[j] == (self.lanes[j] && rhs.lanes[j]),
                forall|j: int| k <= j < 8 ==> #[trigger] lanes[j] == self.lanes[j],
            decreases 8 - k,
        {
            let v = lanes[k] && rhs.lanes[k];
            lanes[k] = v;
            k = k + 1;
        }
        Bitmask { lanes }
    }

    /// Lane-wise disjunction.
    pub fn or(self, rhs: Bitmask) -> (r: Bitmask)
        ensures
            forall|k: int| 0 <= k < 8 ==> #[trigger] r.lanes[k] == (self.lanes[k] || rhs.lanes[k]),
    {
        let mut lanes = self.lanes;
        let mut k: usize = 0;
        while k < LANES
            invariant
                k <= 8,
                forall|j: int| 0 <= j < k ==> #[trigger] lanes[j] == (self.lanes[j] || rhs.lanes[j]),
                forall|j: int| k <= j < 8 ==> #[trigger] lanes[j] == self.lanes[j],
            decreases 8 - k,
        {
            let v = lanes[k] || rhs.lanes[k];
            lanes[k] = v;
            k = k + 1;
        }
        Bitmask { lanes }
    }

    /// The mask as an integer: bit `k` is set exactly when lane `k` is set.
    pub fn movemask(self) -> (r: i32)
        ensures
            r == mask_bits(self.lanes@, 8),
            0 <= r < 256,
    {
        let mut m: i32 = 0;
        let mut bit: i32 = 1;
        let mut k: usize = 0;
        proof {
            vstd::arithmetic::power2::lemma2_to64();
        }
        while k < LANES
            invariant
                k <= 8,
                m == mask_bits(self.lanes@, k as nat),
                bit == vstd::arithmetic::power2::pow2(k as nat),
                bit <= 256,
            decreases 8 - k,
        {
            proof {
                lemma_mask_bits_bound(self.lanes@, k as nat);
                vstd::arithmetic::power2::lemma_pow2_unfold((k + 1) as nat);
                vstd::arithmetic::power2::lemma2_to64();
            }
            if self.lanes[k] {
                m = m + bit;
            }
            bit = bit * 2;
            k = k + 1;
        }
        proof {
            lemma_mask_bits_bound(self.lanes@, 8);
            vstd::arithmetic::power2::lemma2_to64();
        }
        m
    }

    /// The lowest set lane, or `None` where no lane is set. Among lanes that hold equal
    /// candidates this picks the one with the lowest packed index.
    pub fn first_lane(self) -> (r: Option<usize>)
        ensures
            r is None <==> forall|k: int| 0 <= k < 8 ==> !#[trigger] self.lanes[k],
            r matches Some(i) ==> i < 8 && self.lanes[i as int] && forall|k: int|
                0 <= k < i ==> !#[trigger] self.lanes[k],
    {
        let mut k: usize = 0;
        while k < LANES
            invariant
                k <= 8,
                forall|j: int| 0 <= j < k ==> !#[trigger] self.lanes[j],
            decreases 8 - k,
        {
            if self.lanes[k] {
                return Some(k);
            }
            k = k + 1;
        }
        None
    }
}

impl i32x8 {
    /// Every lane holds `v`.
    pub fn splat(v: i32) -> (r: i32x8)
        ensures
            forall|k: int| 0 <= k < 8 ==> #[trigger] r.lanes[k] == v,
    {
        i32x8 { lanes: [v; 8] }
    }

    pub fn from_array(lanes: [i32; 8]) -> (r: Self)
        ensures
            r.lanes == lanes,
    {
        Self { lanes }
    }

    /// Lane `k` is taken from `b` where `mask` lane `k` is set, else from `a`.
    pub fn select(a: i32x8, b: i32x8, mask: Bitmask) -> (r: i32x8)
        ensures
            forall|k: int|
                0 <= k < 8 ==> #[trigger] r.lanes[k] == if mask.lanes[k] {
                    b.lanes[k]
                } else {
                    a.lanes[k]
                },
    {
        let mut lanes = a.lanes;
        let mut k: usize = 0;
        while k < LANES
            invariant
                k <= 8,
                forall|j: int|
                    0 <= j < k ==> #[trigger] lanes[j] == if mask.lanes[j] {
                        b.lanes[j]
                    } else {
                        a.lanes[j]
                    },
                forall|j: int| k <= j < 8 ==> #[trigger] lanes[j] == a.lanes[j],
            decreases 8 - k,
        {
            if mask.lanes[k] {
                lanes[k] = b.lanes[k];
            }
            k = k + 1;
        }
        i32x8 { lanes }
    }

    /// Lane-wise wrapping addition.
    pub fn add(self, rhs: i32x8) -> (r: i32x8)
        ensures
            forall|k: int|
                0 <= k < 8 ==> #[trigger] r.lanes[k] == self.lanes[k].wrapping_add(rhs.lanes[k]),
    {
        let mut lanes = self.lanes;
        let mut k: usize = 0;
        while k < LANES
            invariant
                k <= 8,
                forall|j: int|
                    0 <= j < k ==> #[trigger] lanes[j] == self.lanes[j].wrapping_add(rhs.lanes[j]),
                forall|j: int| k <= j < 8 ==> #[trigger] lanes[j] == self.lanes[j],
            decreases 8 - k,
        {
            let v = lanes[k].wrapping_add(rhs.lanes[k]);
            lanes[k] = v;
            k = k + 1;
        }
        i32x8 { lanes }
    }

    /// The value of lane `index`.
    pub fn lane(&self, index: usize) -> (r: i32)
        requires
            index < 8,
        ensures
            r == self.lanes[index as int],
    {
        self.lanes[index]
    }
}

/// Number of groups of eight that hold `n` items, the last one padded.
pub open spec fn group_count(n: int) -> int {
    (n + 7) / 8
}

/// Item `8 * g + l` of `values`, or `pad` past its end.
pub open spec fn packed_lane<T>(values: Seq<T>, pad: T, g: int, l: int) -> T {
    if 8 * g + l < values.len() {
        values[8 * g + l]
    } else {
        pad
    }
}

/// Packs `values` into groups of eight lanes in order; the lanes past the last value hold
/// `pad`, a value that can never win a lane reduction.
pub fn pack_lanes<T: Copy>(values: &[T], pad: T) -> (r: Vec<[T; 8]>)
    ensures
        r@.len() == group_count(values@.len() as int),
        forall|g: int, l: int|
            0 <= g < r@.len() && 0 <= l < 8 ==> #[trigger] r@[g][l] == packed_lane(
                values@,
                pad,
                g,
                l,
            ),
{
    let n = values.len();
    let groups: usize = n / 8 + if n % 8 == 0 {
        0
    } else {
        1
    };
    assert(groups == group_count(n as int));
    let mut r: Vec<[T; 8]> = Vec::new();
    let mut g: usize = 0;
    while g < groups
        invariant
            n == values@.len(),
            groups == group_count(n as int),
            g == r@.len(),
            g <= groups,
            forall|h: int, l: int|
                0 <= h < r@.len() && 0 <= l < 8 ==> #[trigger] r@[h][l] == packed_lane(
                    values@,
                    pad,
                    h,
                    l,
                ),
        decreases groups - g,
    {
        let base = 8 * g;
        assert(base < n);
        let mut group = [pad; 8];
        let mut l: usize = 0;
        while l < LANES
            invariant
                n == values@.len(),
                base == 8 * g,
                g == r@.len(),
                base < n,
                l <= 8,
                forall|j: int| 0 <= j < l ==> #[trigger] group[j] == packed_lane(
                    values@,
                    pad,
                    g as int,
                    j,
                ),
                forall|j: int| l <= j < 8 ==> #[trigger] group[j] == pad,
            decreases 8 - l,
        {
            if l < n - base {
                group[l] = values[base + l];
            }
            l = l + 1;
        }
        r.push(group);
        g = g + 1;
    }
    r
}

} // verus!
