//! Order-flow analysis: rolling Order-Flow Imbalance (OFI) and
//! volume-bucketed VPIN, combined into a single flow signal.
//!
//! OFI keeps a rolling window of signed and absolute tick volumes with
//! incrementally maintained sums; OFI is the signed sum over the absolute
//! sum, always in [-1, 1].  VPIN accumulates volume into fixed-size buckets,
//! splitting a tick that crosses a bucket boundary so no volume is dropped
//! or double-counted; VPIN is the mean relative buy/sell imbalance of the
//! last completed buckets.

use vstd::prelude::*;
use vstd::arithmetic::div_mod::{
    lemma_div_is_ordered, lemma_div_by_multiple, lemma_div_pos_is_pos,
};
use crate::fixed::{
    SCALE, PRICE_CAP, VOL_CAP, div_t, mdu, mdi, sum_i64, sum_u64, lemma_sum_i64_push,
    lemma_sum_u64_push, lemma_sum_i64_drop_first, lemma_sum_u64_drop_first, lemma_sum_u64_nonneg,
    lemma_sum_pair_bounds, lemma_sum_u64_bounded,
};

verus! {

/// Largest accepted OFI window length.
pub const OFI_WINDOW_CAP: usize = 1000;

/// Largest accepted VPIN bucket-window length.
pub const VPIN_WINDOW_CAP: usize = 1000;

/// A single classified trade tick.
#[derive(Debug, Clone)]
pub struct TradeTick {
    /// Trade price in SCALE units.
    pub price: u64,
    /// Trade volume in SCALE units.
    pub volume: u64,
    /// True when the aggressor was the buyer.
    pub is_buy: bool,
    /// Unix timestamp in milliseconds.
    pub ts_ms: i64,
}

impl TradeTick {
    /// Range invariant for a tick.
    pub open spec fn wf(self) -> bool {
        &&& self.price <= PRICE_CAP
        &&& self.volume <= VOL_CAP
    }
}

/// The signed volume a tick contributes: positive for a buy, negative for
/// a sell.
pub open spec fn signed_vol(t: TradeTick) -> int {
    if t.is_buy {
        t.volume as int
    } else {
        -(t.volume as int)
    }
}

/// OFI as a function of the two rolling sums: signed over absolute volume,
/// zero when no volume is in the window.
pub open spec fn ofi_value(sum_signed: int, sum_abs: int) -> int {
    if sum_abs == 0 {
        0
    } else {
        div_t(sum_signed * SCALE, sum_abs)
    }
}

/// Rolling Order-Flow-Imbalance engine.
#[derive(Debug, Clone)]
pub struct OfiEngine {
    /// Rolling window length (number of ticks).
    pub window: usize,
    /// Signed per-tick volume: positive buy, negative sell.
    pub signed_vol_buf: Vec<i64>,
    /// Absolute per-tick volume.
    pub abs_vol_buf: Vec<u64>,
    /// Running sum of the signed volumes.
    pub sum_signed: i64,
    /// Running sum of the absolute volumes.
    pub sum_abs: u64,
}

/// How one tick advances the OFI window: append, then drop the oldest
/// entry if the window length is exceeded.
pub open spec fn ofi_push_rel(pre: OfiEngine, post: OfiEngine, t: TradeTick) -> bool {
    let s1 = pre.signed_vol_buf@.push(signed_vol(t) as i64);
    let a1 = pre.abs_vol_buf@.push(t.volume);
    &&& post.window == pre.window
    &&& post.signed_vol_buf@ == if s1.len() > pre.window {
        s1.subrange(1, s1.len() as int)
    } else {
        s1
    }
    &&& post.abs_vol_buf@ == if a1.len() > pre.window {
        a1.subrange(1, a1.len() as int)
    } else {
        a1
    }
}

impl OfiEngine {
    /// Structural invariant: the sums track the buffers, every signed entry
    /// matches its absolute entry, and everything is in range.
    pub open spec fn wf(self) -> bool {
        &&& 1 <= self.window <= OFI_WINDOW_CAP
        &&& self.signed_vol_buf@.len() == self.abs_vol_buf@.len()
        &&& self.abs_vol_buf@.len() <= self.window
        &&& forall|i: int|
            0 <= i < self.abs_vol_buf@.len() ==> #[trigger] self.abs_vol_buf@[i] <= VOL_CAP
        &&& forall|i: int|
            0 <= i < self.signed_vol_buf@.len() ==> #[trigger] self.signed_vol_buf@[i] as int
                == self.abs_vol_buf@[i] || self.signed_vol_buf@[i] as int == -(
            self.abs_vol_buf@[i] as int)
        &&& self.sum_signed == sum_i64(self.signed_vol_buf@)
        &&& self.sum_abs == sum_u64(self.abs_vol_buf@)
        &&& -(self.sum_abs as int) <= self.sum_signed <= self.sum_abs
        &&& self.sum_abs <= self.abs_vol_buf@.len() * VOL_CAP
    }

    /// A fresh engine with an empty window.
    pub fn new(window: usize) -> (r: OfiEngine)
        requires
            1 <= window <= OFI_WINDOW_CAP,
        ensures
            r.wf(),
            r.window == window,
            r.signed_vol_buf@.len() == 0,
            r.sum_signed == 0,
            r.sum_abs == 0,
    {
        OfiEngine {
            window,
            signed_vol_buf: Vec::new(),
            abs_vol_buf: Vec::new(),
            sum_signed: 0,
            sum_abs: 0,
        }
    }

    /// Current OFI value; zero while the window holds no volume.
    pub fn ofi(&self) -> (r: i64)
        requires
            self.wf(),
        ensures
            r == ofi_value(self.sum_signed as int, self.sum_abs as int),
            -(SCALE as int) <= r <= SCALE,
    {
        if self.sum_abs == 0 {
            0
        } else {
            proof {
                let ss = self.sum_signed as int;
                let sa = self.sum_abs as int;
                let m = if ss >= 0 {
                    ss
                } else {
                    -ss
                };
                assert(m * SCALE <= sa * SCALE) by (nonlinear_arith)
                    requires
                        0 <= m <= sa,
                ;
                lemma_div_is_ordered(m * SCALE, sa * SCALE, sa);
                lemma_div_by_multiple(SCALE as int, sa);
                lemma_div_pos_is_pos(m * SCALE, sa);
                assert(ss * SCALE == if ss >= 0 {
                    m * SCALE
                } else {
                    -(m * SCALE)
                }) by (nonlinear_arith)
                    requires
                        m == if ss >= 0 { ss } else { -ss },
                ;
            }
            mdi(self.sum_signed, SCALE as i64, self.sum_abs as i64)
        }
    }

    /// Push one tick: append its signed and absolute volume, evict the
    /// oldest entry once the window is full, and return the current OFI.
    pub fn push(&mut self, tick: &TradeTick) -> (r: i64)
        requires
            old(self).wf(),
            tick.wf(),
        ensures
            final(self).wf(),
            ofi_push_rel(*old(self), *final(self), *tick),
            r == ofi_value(final(self).sum_signed as int, final(self).sum_abs as int),
            -(SCALE as int) <= r <= SCALE,
    {
        let signed: i64 = if tick.is_buy {
            tick.volume as i64
        } else {
            -(tick.volume as i64)
        };
        proof {
            lemma_sum_i64_push(self.signed_vol_buf@, signed);
            lemma_sum_u64_push(self.abs_vol_buf@, tick.volume);
            lemma_sum_u64_bounded(self.abs_vol_buf@.push(tick.volume), VOL_CAP as int);
        }
        self.signed_vol_buf.push(signed);
        self.abs_vol_buf.push(tick.volume);
        self.sum_signed = self.sum_signed + signed;
        self.sum_abs = self.sum_abs + tick.volume;
        if self.signed_vol_buf.len() > self.window {
            proof {
                lemma_sum_i64_drop_first(self.signed_vol_buf@);
                lemma_sum_u64_drop_first(self.abs_vol_buf@);
                lemma_sum_u64_nonneg(self.abs_vol_buf@.subrange(1, self.abs_vol_buf@.len() as int));
            }
            let old_signed: i64 = self.signed_vol_buf.remove(0);
            let old_abs: u64 = self.abs_vol_buf.remove(0);
            proof {
                assert(self.signed_vol_buf@ =~= old(self).signed_vol_buf@.push(signed).subrange(
                    1,
                    old(self).signed_vol_buf@.push(signed).len() as int,
                ));
                assert(self.abs_vol_buf@ =~= old(self).abs_vol_buf@.push(tick.volume).subrange(
                    1,
                    old(self).abs_vol_buf@.push(tick.volume).len() as int,
                ));
            }
            self.sum_signed = self.sum_signed - old_signed;
            self.sum_abs = self.sum_abs - old_abs;
        }
        proof {
            lemma_sum_pair_bounds(self.signed_vol_buf@, self.abs_vol_buf@);
            lemma_sum_u64_bounded(self.abs_vol_buf@, VOL_CAP as int);
        }
        self.ofi()
    }

    /// Number of ticks currently stored.
    pub fn len(&self) -> (r: usize)
        ensures
            r == self.signed_vol_buf@.len(),
    {
        self.signed_vol_buf.len()
    }

    /// Whether the rolling window has filled up.
    pub fn is_full(&self) -> (r: bool)
        ensures
            r == (self.signed_vol_buf@.len() >= self.window),
    {
        self.signed_vol_buf.len() >= self.window
    }
}

/// OFI of an all-buy window with volume in it is exactly 1.
pub proof fn lemma_ofi_all_buys(e: OfiEngine)
    requires
        e.wf(),
        e.sum_abs > 0,
        forall|i: int|
            0 <= i < e.signed_vol_buf@.len() ==> #[trigger] e.signed_vol_buf@[i] as int
                == e.abs_vol_buf@[i] as int,
    ensures
        ofi_value(e.sum_signed as int, e.sum_abs as int) == SCALE,
{
    crate::fixed::lemma_sum_pair_eq(e.signed_vol_buf@, e.abs_vol_buf@);
    let sa = e.sum_abs as int;
    lemma_div_by_multiple(SCALE as int, sa);
    assert(sa * SCALE == SCALE * sa) by (nonlinear_arith);
}

/// OFI of a window whose signed volumes cancel exactly is exactly 0.
pub proof fn lemma_ofi_balanced(e: OfiEngine)
    requires
        e.wf(),
        sum_i64(e.signed_vol_buf@) == 0,
    ensures
        ofi_value(e.sum_signed as int, e.sum_abs as int) == 0,
{
    if e.sum_abs != 0 {
        assert(0int * SCALE as int == 0) by (nonlinear_arith);
        assert(div_t(0, e.sum_abs as int) == 0) by {
            vstd::arithmetic::div_mod::lemma_div_of0(e.sum_abs as int);
        };
    }
}

/// An even-length window that strictly alternates equal-and-opposite signed
/// volumes sums to zero.
pub proof fn lemma_sum_alternating_cancels(s: Seq<i64>)
    requires
        s.len() % 2 == 0,
        forall|i: int| 0 <= i < s.len() && i % 2 == 1 ==> #[trigger] s[i] == -s[i - 1],
    ensures
        sum_i64(s) == 0,
    decreases s.len(),
{
    if s.len() > 0 {
        let t = s.drop_last().drop_last();
        assert(s.len() - 1 == (s.len() - 2) + 1);
        assert((s.len() - 1) % 2 == 1) by (nonlinear_arith)
            requires
                s.len() % 2 == 0,
                s.len() >= 2,
        ;
        assert(s[s.len() - 1] == -s[s.len() - 2]);
        assert(t.len() % 2 == 0) by (nonlinear_arith)
            requires
                s.len() % 2 == 0,
                s.len() >= 2,
                t.len() == s.len() - 2,
        ;
        lemma_sum_alternating_cancels(t);
        assert(sum_i64(s) == sum_i64(s.drop_last()) + s.last());
        assert(sum_i64(s.drop_last()) == sum_i64(t) + s.drop_last().last());
    }
}

/// One volume bucket of the VPIN estimator.
#[derive(Debug, Clone, Copy)]
pub struct VpinBucket {
    /// Buyer-initiated volume in the bucket.
    pub buy_vol: u64,
    /// Seller-initiated volume in the bucket.
    pub sell_vol: u64,
    /// Total volume in the bucket.
    pub total: u64,
}

/// A bucket's volumes are consistent and within the bucket size.
pub open spec fn bucket_wf(b: VpinBucket, size: int) -> bool {
    &&& b.buy_vol + b.sell_vol == b.total
    &&& b.total <= size
}

/// A bucket with `v` more units of buy or sell volume.
pub open spec fn bucket_add(b: VpinBucket, v: int, is_buy: bool) -> VpinBucket {
    if is_buy {
        VpinBucket { buy_vol: (b.buy_vol + v) as u64, sell_vol: b.sell_vol, total: (b.total + v) as u64 }
    } else {
        VpinBucket { buy_vol: b.buy_vol, sell_vol: (b.sell_vol + v) as u64, total: (b.total + v) as u64 }
    }
}

/// The empty bucket.
pub open spec fn empty_bucket() -> VpinBucket {
    VpinBucket { buy_vol: 0, sell_vol: 0, total: 0 }
}

/// How a tick's volume flows into the current bucket and the finished
/// window: fill the current bucket, close it when it reaches the bucket
/// size (evicting the oldest finished bucket past the window length), and
/// continue with the remainder.
pub open spec fn vpin_fill(
    cur: VpinBucket,
    fin: Seq<VpinBucket>,
    rem: int,
    is_buy: bool,
    size: int,
    n: int,
) -> (VpinBucket, Seq<VpinBucket>)
    decreases rem,
{
    let space = size - cur.total;
    if rem <= 0 || space < 1 {
        (cur, fin)
    } else if rem < space {
        (bucket_add(cur, rem, is_buy), fin)
    } else {
        let closed = bucket_add(cur, space, is_buy);
        let fin1 = if fin.len() + 1 > n {
            fin.push(closed).subrange(1, fin.len() as int + 1)
        } else {
            fin.push(closed)
        };
        vpin_fill(empty_bucket(), fin1, rem - space, is_buy, size, n)
    }
}

/// Relative buy/sell imbalance of one bucket, in SCALE units; zero for an
/// empty bucket.
pub open spec fn bucket_imbalance(b: VpinBucket) -> int {
    if b.total == 0 {
        0
    } else {
        (if b.buy_vol >= b.sell_vol {
            b.buy_vol - b.sell_vol
        } else {
            b.sell_vol - b.buy_vol
        }) * SCALE / (b.total as int)
    }
}

/// Sum of bucket imbalances.
pub open spec fn sum_imbalance(s: Seq<VpinBucket>) -> int
    decreases s.len(),
{
    if s.len() == 0 {
        0
    } else {
        sum_imbalance(s.drop_last()) + bucket_imbalance(s.last())
    }
}

/// VPIN over a window of finished buckets: the mean imbalance, zero while
/// no bucket has completed.
pub open spec fn vpin_value(s: Seq<VpinBucket>) -> int {
    if s.len() == 0 {
        0
    } else {
        sum_imbalance(s) / (s.len() as int)
    }
}

/// A bucket imbalance lies in [0, 1].
pub proof fn lemma_bucket_imbalance_range(b: VpinBucket, size: int)
    requires
        bucket_wf(b, size),
    ensures
        0 <= bucket_imbalance(b) <= SCALE,
{
    if b.total != 0 {
        let d = if b.buy_vol >= b.sell_vol {
            b.buy_vol - b.sell_vol
        } else {
            b.sell_vol - b.buy_vol
        };
        assert(d * SCALE <= b.total as int * SCALE) by (nonlinear_arith)
            requires
                0 <= d <= b.total,
        ;
        lemma_div_is_ordered(d * SCALE, b.total as int * SCALE, b.total as int);
        lemma_div_by_multiple(SCALE as int, b.total as int);
        vstd::arithmetic::mul::lemma_mul_nonnegative(d, SCALE as int);
        lemma_div_pos_is_pos(d * SCALE, b.total as int);
    }
}

/// VPIN estimator over fixed-size volume buckets.
#[derive(Debug, Clone)]
pub struct VpinEngine {
    /// Volume per bucket.
    pub bucket_size: u64,
    /// Number of finished buckets retained in the rolling window.
    pub n_buckets: usize,
    /// The bucket currently being filled.
    pub current_bucket: VpinBucket,
    /// Completed buckets, oldest first.
    pub finished_buckets: Vec<VpinBucket>,
    /// Price of the last tick seen.
    pub last_price: u64,
}

impl VpinEngine {
    /// Structural invariant: the open bucket is consistent and strictly
    /// below the bucket size; every finished bucket is exactly full.
    pub open spec fn wf(self) -> bool {
        &&& 1 <= self.bucket_size <= VOL_CAP
        &&& 1 <= self.n_buckets <= VPIN_WINDOW_CAP
        &&& bucket_wf(self.current_bucket, self.bucket_size as int)
        &&& self.current_bucket.total < self.bucket_size
        &&& self.finished_buckets@.len() <= self.n_buckets
        &&& forall|i: int|
            0 <= i < self.finished_buckets@.len() ==> bucket_wf(
                #[trigger] self.finished_buckets@[i],
                self.bucket_size as int,
            ) && self.finished_buckets@[i].total == self.bucket_size
    }

    /// A fresh estimator with no completed buckets.
    pub fn new(bucket_size: u64, n_buckets: usize) -> (r: VpinEngine)
        requires
            1 <= bucket_size <= VOL_CAP,
            1 <= n_buckets <= VPIN_WINDOW_CAP,
        ensures
            r.wf(),
            r.bucket_size == bucket_size,
            r.n_buckets == n_buckets,
            r.finished_buckets@.len() == 0,
            r.current_bucket == empty_bucket(),
            r.last_price == 0,
    {
        VpinEngine {
            bucket_size,
            n_buckets,
            current_bucket: VpinBucket { buy_vol: 0, sell_vol: 0, total: 0 },
            finished_buckets: Vec::new(),
            last_price: 0,
        }
    }

    /// VPIN over the completed buckets: their mean relative imbalance.
    pub fn vpin(&self) -> (r: u64)
        requires
            self.wf(),
        ensures
            r == vpin_value(self.finished_buckets@),
            r <= SCALE,
    {
        let n: usize = self.finished_buckets.len();
        if n == 0 {
            return 0;
        }
        let mut sum: u64 = 0;
        let mut i: usize = 0;
        while i < n
            invariant
                self.wf(),
                n == self.finished_buckets@.len(),
                i <= n,
                sum == sum_imbalance(self.finished_buckets@.take(i as int)),
                sum <= i * SCALE,
            decreases n - i,
        {
            let b: VpinBucket = self.finished_buckets[i];
            proof {
                lemma_bucket_imbalance_range(b, self.bucket_size as int);
                assert(self.finished_buckets@.take(i + 1).drop_last() =~= self.finished_buckets@
                    .take(i as int));
                assert(self.finished_buckets@.take(i + 1).last() == b);
            }
            let d: u64 = if b.buy_vol >= b.sell_vol {
                b.buy_vol - b.sell_vol
            } else {
                b.sell_vol - b.buy_vol
            };
            let imb: u64 = if b.total == 0 {
                0
            } else {
                proof {
                    assert(d * SCALE <= b.total as int * SCALE) by (nonlinear_arith)
                        requires
                            0 <= d <= b.total,
                    ;
                    lemma_div_is_ordered(d * SCALE as int, b.total as int * SCALE, b.total as int);
                    lemma_div_by_multiple(SCALE as int, b.total as int);
                }
                mdu(d, SCALE, b.total)
            };
            sum = sum + imb;
            i = i + 1;
        }
        proof {
            assert(self.finished_buckets@.take(n as int) =~= self.finished_buckets@);
            lemma_div_pos_is_pos(sum_imbalance(self.finished_buckets@), n as int);
            lemma_div_is_ordered(sum as int, n as int * SCALE, n as int);
            assert(n as int * SCALE == SCALE as int * n) by (nonlinear_arith);
            lemma_div_by_multiple(SCALE as int, n as int);
        }
        sum / (n as u64)
    }

    /// Number of completed buckets.
    pub fn buckets_complete(&self) -> (r: usize)
        ensures
            r == self.finished_buckets@.len(),
    {
        self.finished_buckets.len()
    }

    /// Feed one tick, splitting its volume across bucket boundaries; returns
    /// the VPIN once at least one bucket has completed.
    pub fn push(&mut self, tick: &TradeTick) -> (r: Option<u64>)
        requires
            old(self).wf(),
            tick.wf(),
        ensures
            final(self).wf(),
            final(self).bucket_size == old(self).bucket_size,
            final(self).n_buckets == old(self).n_buckets,
            final(self).last_price == tick.price,
            ({
                let (c2, f2) = vpin_fill(
                    old(self).current_bucket,
                    old(self).finished_buckets@,
                    tick.volume as int,
                    tick.is_buy,
                    old(self).bucket_size as int,
                    old(self).n_buckets as int,
                );
                &&& final(self).current_bucket == c2
                &&& final(self).finished_buckets@ == f2
                &&& r == if f2.len() == 0 {
                    Option::<u64>::None
                } else {
                    Option::<u64>::Some(vpin_value(f2) as u64)
                }
            }),
    {
        let ghost target = vpin_fill(
            old(self).current_bucket,
            old(self).finished_buckets@,
            tick.volume as int,
            tick.is_buy,
            old(self).bucket_size as int,
            old(self).n_buckets as int,
        );
        let mut remaining: u64 = tick.volume;
        while remaining > 0
            invariant
                self.wf(),
                self.bucket_size == old(self).bucket_size,
                self.n_buckets == old(self).n_buckets,
                self.last_price == old(self).last_price,
                remaining <= VOL_CAP,
                target == vpin_fill(
                    self.current_bucket,
                    self.finished_buckets@,
                    remaining as int,
                    tick.is_buy,
                    self.bucket_size as int,
                    self.n_buckets as int,
                ),
            decreases remaining,
        {
            let space: u64 = self.bucket_size - self.current_bucket.total;
            let fill: u64 = if remaining < space {
                remaining
            } else {
                space
            };
            if tick.is_buy {
                self.current_bucket.buy_vol = self.current_bucket.buy_vol + fill;
            } else {
                self.current_bucket.sell_vol = self.current_bucket.sell_vol + fill;
            }
            self.current_bucket.total = self.current_bucket.total + fill;
            remaining = remaining - fill;
            if self.current_bucket.total == self.bucket_size {
                let closed: VpinBucket = self.current_bucket;
                self.finished_buckets.push(closed);
                if self.finished_buckets.len() > self.n_buckets {
                    proof {
                        assert(self.finished_buckets@.remove(0) =~= self.finished_buckets@
                            .subrange(1, self.finished_buckets@.len() as int));
                    }
                    let _evicted: VpinBucket = self.finished_buckets.remove(0);
                }
                self.current_bucket = VpinBucket { buy_vol: 0, sell_vol: 0, total: 0 };
            }
        }
        self.last_price = tick.price;
        let n: usize = self.finished_buckets.len();
        if n == 0 {
            None
        } else {
            let v: u64 = self.vpin();
            Some(v)
        }
    }
}

/// VPIN of a window of one-sided (all-buy) completed buckets is exactly 1;
/// in particular it exceeds any informed-flow threshold below 1.
pub proof fn lemma_vpin_one_sided(s: Seq<VpinBucket>, size: int)
    requires
        s.len() >= 1,
        forall|i: int|
            0 <= i < s.len() ==> bucket_wf(#[trigger] s[i], size) && s[i].sell_vol == 0 && s[
                i
            ].total > 0,
    ensures
        vpin_value(s) == SCALE,
{
    assert(sum_imbalance(s) == s.len() * SCALE) by {
        lemma_sum_imbalance_one_sided(s, size);
    };
    assert(s.len() as int * SCALE == SCALE as int * s.len()) by (nonlinear_arith);
    lemma_div_by_multiple(SCALE as int, s.len() as int);
}

/// Each one-sided bucket contributes exactly 1 to the imbalance sum.
proof fn lemma_sum_imbalance_one_sided(s: Seq<VpinBucket>, size: int)
    requires
        forall|i: int|
            0 <= i < s.len() ==> bucket_wf(#[trigger] s[i], size) && s[i].sell_vol == 0 && s[
                i
            ].total > 0,
    ensures
        sum_imbalance(s) == s.len() * SCALE,
    decreases s.len(),
{
    if s.len() == 0 {
        assert(0int * SCALE as int == 0) by (nonlinear_arith);
    } else {
        lemma_sum_imbalance_one_sided(s.drop_last(), size);
        let b = s.last();
        assert(b.buy_vol == b.total);
        assert(bucket_imbalance(b) == SCALE) by {
            assert(b.buy_vol >= b.sell_vol);
            assert((b.buy_vol - b.sell_vol) * SCALE as int == b.total as int * SCALE) by (
            nonlinear_arith)
                requires
                    b.sell_vol == 0,
                    b.buy_vol == b.total,
            ;
            assert(b.total as int * SCALE == SCALE as int * b.total) by (nonlinear_arith);
            lemma_div_by_multiple(SCALE as int, b.total as int);
        };
        assert((s.len() - 1) * SCALE + SCALE == s.len() * SCALE) by (nonlinear_arith);
    }
}

/// Combined OFI + VPIN output signal.
#[derive(Debug, Clone)]
pub struct FlowSignal {
    /// OFI in SCALE units, in [-1, 1].
    pub ofi: i64,
    /// VPIN in SCALE units, defined once a bucket has completed.
    pub vpin: Option<u64>,
    /// Direction inferred from OFI: +1 buy, -1 sell, 0 neutral.
    pub direction: i8,
}

impl FlowSignal {
    /// True exactly when VPIN is known and at or above the threshold.
    pub fn vpin_confirmed(&self, threshold: u64) -> (r: bool)
        ensures
            r == match self.vpin {
                Some(v) => v >= threshold,
                None => false,
            },
    {
        match self.vpin {
            Some(v) => v >= threshold,
            None => false,
        }
    }
}

/// Combined flow analyser: one OFI window and one VPIN estimator feeding a
/// thresholded direction.
#[derive(Debug, Clone)]
pub struct FlowAnalyser {
    /// The rolling OFI window.
    pub ofi: OfiEngine,
    /// The VPIN estimator.
    pub vpin: VpinEngine,
    /// Minimum |OFI| that yields a directional signal.
    pub ofi_threshold: i64,
}

impl FlowAnalyser {
    /// Component invariants plus a threshold in [0, 1].
    pub open spec fn wf(self) -> bool {
        &&& self.ofi.wf()
        &&& self.vpin.wf()
        &&& 0 <= self.ofi_threshold <= SCALE
    }

    /// A fresh analyser.
    pub fn new(ofi_window: usize, vpin_bucket_size: u64, vpin_n_buckets: usize, ofi_threshold: i64) -> (
        r: FlowAnalyser)
        requires
            1 <= ofi_window <= OFI_WINDOW_CAP,
            1 <= vpin_bucket_size <= VOL_CAP,
            1 <= vpin_n_buckets <= VPIN_WINDOW_CAP,
            0 <= ofi_threshold <= SCALE,
        ensures
            r.wf(),
            r.ofi.window == ofi_window,
            r.vpin.bucket_size == vpin_bucket_size,
            r.vpin.n_buckets == vpin_n_buckets,
            r.ofi_threshold == ofi_threshold,
            r.ofi.signed_vol_buf@.len() == 0,
            r.ofi.abs_vol_buf@.len() == 0,
            r.ofi.sum_signed == 0,
            r.ofi.sum_abs == 0,
            r.vpin.finished_buckets@.len() == 0,
            r.vpin.current_bucket == empty_bucket(),
            r.vpin.last_price == 0,
    {
        FlowAnalyser {
            ofi: OfiEngine::new(ofi_window),
            vpin: VpinEngine::new(vpin_bucket_size, vpin_n_buckets),
            ofi_threshold,
        }
    }

    /// Process one tick through both engines and combine the outputs into a
    /// flow signal with a thresholded direction.
    pub fn process(&mut self, tick: &TradeTick) -> (r: FlowSignal)
        requires
            old(self).wf(),
            tick.wf(),
        ensures
            final(self).wf(),
            final(self).ofi_threshold == old(self).ofi_threshold,
            final(self).vpin.bucket_size == old(self).vpin.bucket_size,
            final(self).vpin.n_buckets == old(self).vpin.n_buckets,
            final(self).vpin.last_price == tick.price,
            ofi_push_rel(old(self).ofi, final(self).ofi, *tick),
            ({
                let (c2, f2) = vpin_fill(
                    old(self).vpin.current_bucket,
                    old(self).vpin.finished_buckets@,
                    tick.volume as int,
                    tick.is_buy,
                    old(self).vpin.bucket_size as int,
                    old(self).vpin.n_buckets as int,
                );
                &&& final(self).vpin.current_bucket == c2
                &&& final(self).vpin.finished_buckets@ == f2
                &&& r.vpin == if f2.len() == 0 {
                    Option::<u64>::None
                } else {
                    Option::<u64>::Some(vpin_value(f2) as u64)
                }
            }),
            r.ofi == ofi_value(final(self).ofi.sum_signed as int, final(self).ofi.sum_abs as int),
            -(SCALE as int) <= r.ofi <= SCALE,
            r.direction == if r.ofi > old(self).ofi_threshold {
                1int
            } else if r.ofi < -old(self).ofi_threshold {
                -1int
            } else {
                0int
            },
    {
        let ofi_now: i64 = self.ofi.push(tick);
        let vpin_now: Option<u64> = self.vpin.push(tick);
        let direction: i8 = if ofi_now > self.ofi_threshold {
            1
        } else if ofi_now < -self.ofi_threshold {
            -1
        } else {
            0
        };
        FlowSignal { ofi: ofi_now, vpin: vpin_now, direction }
    }
}

} // verus!
