//! Ping history of an upstream: compact delay encoding, loss accounting,
//! and the latency/loss score that ranks the pool.
use std::collections::VecDeque;

use vstd::arithmetic::div_mod::lemma_fundamental_div_mod;
use vstd::prelude::*;

verus! {

/// Ring size of the ping history.
pub const PING_MAX_HISTORY: usize = 100;

/// Score of an upstream with no usable samples; worst possible.
pub const SCORE_UNKNOWN: i16 = i16::MAX;

pub open spec fn cube(x: int) -> int {
    x * x * x
}

pub open spec fn pow4(x: int) -> int {
    x * x * x * x
}

/// The delay encoding rounds `millis` to the nearest fourth root of
/// `millis^3` (that is, `millis^(3/4)`), clamped into `1..=255`: the unique
/// `n` with `(2n-1)^4 < 16*m^3 < (2n+1)^4`.  The search below walks to the
/// first `n` whose upper bound holds; ties cannot occur since `16*m^3` is
/// even while odd fourth powers are odd.
pub open spec fn delay_enc_from(m: int, n: int) -> int
    decreases 255 - n,
{
    if n < 0 || n >= 255 {
        255
    } else if 16 * cube(m) < pow4(2 * n + 1) {
        if n == 0 {
            1
        } else {
            n
        }
    } else {
        delay_enc_from(m, n + 1)
    }
}

pub open spec fn delay_enc(m: int) -> int {
    delay_enc_from(m, 0)
}

/// The decoding maps an encoded value `n` back to `floor(n^(4/3))`
/// milliseconds: the greatest `k` with `k^3 <= n^4`.
pub open spec fn delay_dec_from(n: int, k: int) -> int
    decreases 1626 - k,
{
    if k < 0 || k >= 1625 {
        1625
    } else if pow4(n) < cube(k + 1) {
        k
    } else {
        delay_dec_from(n, k + 1)
    }
}

pub open spec fn delay_dec(n: int) -> int {
    delay_dec_from(n, 0)
}

/// A round-trip delay compressed to one non-zero byte on a `p = 3/4` power
/// scale, giving roughly logarithmic granularity.
#[derive(Debug, Clone, Copy, PartialEq, Eq, Structural)]
pub struct Delay {
    code: u8,
}

impl Delay {
    pub closed spec fn spec_code(&self) -> u8 {
        self.code
    }

    pub open spec fn wf(&self) -> bool {
        self.spec_code() >= 1
    }

    /// Encodes a measured delay in milliseconds.
    pub fn from_millis(ms: u64) -> (r: Delay)
        ensures
            r.spec_code() == delay_enc(ms as int),
            r.wf(),
    {
        if ms >= 1622 {
            proof {
                lemma_enc_saturates(ms as int, 0);
            }
            return Delay { code: 255 };
        }
        proof {
            assert(ms * ms <= 1621 * 1621) by (nonlinear_arith)
                requires
                    ms <= 1621,
            ;
            assert(ms * ms * ms <= 1621 * 1621 * 1621) by (nonlinear_arith)
                requires
                    ms <= 1621,
                    ms * ms <= 1621 * 1621,
            ;
            assert(16 * ms * ms <= 16 * 1621 * 1621) by (nonlinear_arith)
                requires
                    ms <= 1621,
                    ms * ms <= 1621 * 1621,
            ;
            assert(16 * ms * ms * ms == 16 * cube(ms as int) && 16 * ms * ms * ms <= 16 * 1621
                * 1621 * 1621) by (nonlinear_arith)
                requires
                    ms <= 1621,
                    ms * ms * ms <= 1621 * 1621 * 1621,
            ;
        }
        let m3: u64 = 16 * ms * ms * ms;
        let mut n: u64 = 0;
        loop
            invariant
                ms < 1622,
                m3 == 16 * cube(ms as int),
                n <= 255,
                delay_enc(ms as int) == delay_enc_from(ms as int, n as int),
            ensures
                n <= 255,
                delay_enc(ms as int) == if n == 255 {
                    255int
                } else if n == 0 {
                    1int
                } else {
                    n as int
                },
            decreases 255 - n,
        {
            if n >= 255 {
                break ;
            }
            let bound: u64 = 2 * n + 1;
            proof {
                assert(bound * bound <= 511 * 511) by (nonlinear_arith)
                    requires
                        bound <= 511,
                ;
                assert(bound * bound * bound <= 511 * 511 * 511) by (nonlinear_arith)
                    requires
                        bound <= 511,
                        bound * bound <= 511 * 511,
                ;
                assert(bound * bound * bound * bound <= 511 * 511 * 511 * 511) by (nonlinear_arith)
                    requires
                        bound <= 511,
                        bound * bound * bound <= 511 * 511 * 511,
                ;
            }
            let b4: u64 = bound * bound * bound * bound;
            if m3 < b4 {
                assert(delay_enc_from(ms as int, n as int) == if n == 0 {
                    1int
                } else {
                    n as int
                });
                break ;
            }
            n = n + 1;
        }
        if n == 255 {
            Delay { code: 255 }
        } else if n == 0 {
            Delay { code: 1 }
        } else {
            Delay { code: n as u8 }
        }
    }

    /// Decodes back to milliseconds: `floor(code^(4/3))`.
    pub fn as_millis(&self) -> (r: u16)
        ensures
            r == delay_dec(self.spec_code() as int),
            r <= 1617,
    {
        let n: u64 = self.code as u64;
        proof {
            assert(n * n <= 255 * 255) by (nonlinear_arith)
                requires
                    n <= 255,
            ;
            assert(n * n * n <= 255 * 255 * 255) by (nonlinear_arith)
                requires
                    n <= 255,
                    n * n <= 255 * 255,
            ;
            assert(n * n * n * n <= 255 * 255 * 255 * 255) by (nonlinear_arith)
                requires
                    n <= 255,
                    n * n * n <= 255 * 255 * 255,
            ;
        }
        let n4: u64 = n * n * n * n;
        let mut k: u64 = 0;
        loop
            invariant
                n <= 255,
                n4 == pow4(n as int),
                k <= 1625,
                delay_dec(n as int) == delay_dec_from(n as int, k as int),
            ensures
                k <= 1625,
                delay_dec(n as int) == k,
                pow4(n as int) < cube(k as int + 1) || k == 1625,
            decreases 1625 - k,
        {
            if k >= 1625 {
                break ;
            }
            let kk: u64 = k + 1;
            proof {
                assert(kk * kk <= 1625 * 1625) by (nonlinear_arith)
                    requires
                        kk <= 1625,
                ;
                assert(kk * kk * kk <= 1625 * 1625 * 1625) by (nonlinear_arith)
                    requires
                        kk <= 1625,
                        kk * kk <= 1625 * 1625,
                ;
            }
            let k3: u64 = kk * kk * kk;
            if n4 < k3 {
                break ;
            }
            k = k + 1;
        }
        proof {
            if k > 1617 {
                assert(cube(1618) > pow4(255));
                assert(pow4(n as int) <= pow4(255)) by {
                    lemma_pow4_monotone(n as int, 255);
                }
                if k == 1625 {
                    lemma_dec_below(n as int, 0, 1617);
                } else {
                    lemma_dec_below(n as int, 0, 1617);
                }
            }
        }
        k as u16
    }
}

proof fn lemma_pow4_monotone(a: int, b: int)
    requires
        0 <= a <= b,
    ensures
        pow4(a) <= pow4(b),
{
    assert(a * a <= b * b) by (nonlinear_arith)
        requires
            0 <= a <= b,
    ;
    assert(a * a * a * a <= b * b * b * b) by (nonlinear_arith)
        requires
            0 <= a <= b,
            a * a <= b * b,
    ;
}

proof fn lemma_cube_monotone(a: int, b: int)
    requires
        0 <= a <= b,
    ensures
        cube(a) <= cube(b),
{
    assert(a * a * a <= b * b * b) by (nonlinear_arith)
        requires
            0 <= a <= b,
    ;
}

/// Once the remaining search space of the decoder is past the answer, the
/// search stops at or before `hi`.
proof fn lemma_dec_below(n: int, k: int, hi: int)
    requires
        0 <= k <= hi < 1625,
        pow4(n) < cube(hi + 1),
        0 <= n,
    ensures
        delay_dec_from(n, k) <= hi,
    decreases 1626 - k,
{
    if k >= 1625 {
    } else if pow4(n) < cube(k + 1) {
    } else {
        if k == hi {
            assert(false);
        }
        lemma_dec_below(n, k + 1, hi);
    }
}

/// For inputs of 1622 ms or more the encoder saturates at 255.
proof fn lemma_enc_saturates(m: int, n: int)
    requires
        m >= 1622,
        0 <= n <= 255,
    ensures
        delay_enc_from(m, n) == 255,
    decreases 255 - n,
{
    if n >= 255 {
    } else {
        assert(16 * cube(1622) >= pow4(509));
        assert(cube(m) >= cube(1622)) by {
            lemma_cube_monotone(1622, m);
        }
        assert(pow4(2 * n + 1) <= pow4(509)) by {
            lemma_pow4_monotone(2 * n + 1, 509);
        }
        lemma_enc_saturates(m, n + 1);
    }
}

/// One history slot: a measured delay or a lost probe.
pub type PingSlot = Option<Delay>;

pub open spec fn spec_slots_wf(s: Seq<PingSlot>) -> bool {
    forall|i: int| 0 <= i < s.len() ==> (#[trigger] s[i] matches Some(d) ==> d.wf())
}

/// One slot appended to the ring: past the bound, the oldest entries fall
/// off first.
pub open spec fn spec_add_clipped(s: Seq<PingSlot>, x: PingSlot) -> Seq<PingSlot> {
    if s.len() < PING_MAX_HISTORY {
        s.push(x)
    } else {
        s.skip(s.len() - (PING_MAX_HISTORY - 1)).push(x)
    }
}

/// `k` loss markers appended to the ring in turn.
pub open spec fn spec_add_losses(s: Seq<PingSlot>, k: int) -> Seq<PingSlot>
    decreases k,
{
    if k <= 0 {
        s
    } else {
        spec_add_clipped(spec_add_losses(s, k - 1), None)
    }
}

pub open spec fn spec_count_lost(s: Seq<PingSlot>) -> int
    decreases s.len(),
{
    if s.len() == 0 {
        0
    } else {
        spec_count_lost(s.drop_last()) + if s.last() is None {
            1int
        } else {
            0int
        }
    }
}

pub open spec fn spec_count_present(s: Seq<PingSlot>) -> int
    decreases s.len(),
{
    if s.len() == 0 {
        0
    } else {
        spec_count_present(s.drop_last()) + if s.last() is Some {
            1int
        } else {
            0int
        }
    }
}

pub open spec fn spec_sum_millis(s: Seq<PingSlot>) -> int
    decreases s.len(),
{
    if s.len() == 0 {
        0
    } else {
        spec_sum_millis(s.drop_last()) + match s.last() {
            Some(d) => delay_dec(d.spec_code() as int),
            None => 0,
        }
    }
}

/// Rounded loss percentage: `round(100 * lost / total)`, 0 for an empty
/// history.
pub open spec fn spec_loss_percent(s: Seq<PingSlot>) -> int {
    if s.len() == 0 {
        0
    } else {
        (200 * spec_count_lost(s) + s.len()) / (2 * s.len() as int)
    }
}

/// Mean of the present samples in milliseconds, `None` when all are lost.
pub open spec fn spec_average_delay(s: Seq<PingSlot>) -> Option<int> {
    if spec_count_present(s) == 0 {
        None
    } else {
        Some(spec_sum_millis(s) / spec_count_present(s))
    }
}

/// The score formula on a clamped mean delay `d` and loss percentage `l`:
/// `round((d + 1000*(l/100)) / (1 - l/100)^2)`, over the integers.
pub open spec fn spec_score_formula(d: int, l: int) -> int {
    (20000 * (d + 10 * l) + (100 - l) * (100 - l)) / (2 * (100 - l) * (100 - l))
}

pub open spec fn spec_clamp(x: int, lo: int, hi: int) -> int {
    if x < lo {
        lo
    } else if x > hi {
        hi
    } else {
        x
    }
}

/// Score of a history: the clamped formula, or `i16::MAX` with no usable
/// samples.  Lower is better.
pub open spec fn spec_score(s: Seq<PingSlot>) -> int {
    match spec_average_delay(s) {
        None => SCORE_UNKNOWN as int,
        Some(avg) => spec_clamp(
            spec_score_formula(spec_clamp(avg, 10, 2000), spec_clamp(spec_loss_percent(s), 0, 99)),
            i16::MIN as int,
            i16::MAX as int,
        ),
    }
}

/// Bounded ring of the last `PING_MAX_HISTORY` ping outcomes.
#[derive(Debug)]
pub struct PingHistory {
    pings: VecDeque<PingSlot>,
}

impl PingHistory {
    pub closed spec fn spec_slots(&self) -> Seq<PingSlot> {
        self.pings@
    }

    pub open spec fn wf(&self) -> bool {
        self.spec_slots().len() <= PING_MAX_HISTORY && spec_slots_wf(self.spec_slots())
    }

    pub fn new() -> (r: Self)
        ensures
            r.wf(),
            r.spec_slots().len() == 0,
    {
        PingHistory { pings: VecDeque::with_capacity(PING_MAX_HISTORY) }
    }

    /// Records one outcome, dropping the oldest past the ring bound.
    pub fn add_measurement(&mut self, delay: Option<Delay>)
        requires
            old(self).wf(),
            delay matches Some(d) ==> d.wf(),
        ensures
            final(self).wf(),
            final(self).spec_slots() == spec_add_clipped(old(self).spec_slots(), delay),
    {
        let ghost orig = self.pings@;
        proof {
            assert(self.pings@ =~= orig.skip(0));
        }
        while self.pings.len() >= PING_MAX_HISTORY
            invariant
                spec_slots_wf(orig),
                orig.len() <= PING_MAX_HISTORY,
                self.pings@ == orig.skip(orig.len() - self.pings@.len()),
                self.pings@.len() <= orig.len(),
                self.pings@.len() >= PING_MAX_HISTORY - 1 || self.pings@.len() == orig.len(),
            decreases self.pings@.len(),
        {
            proof {
                assert(orig.skip(orig.len() - self.pings@.len()).subrange(
                    1,
                    self.pings@.len() as int,
                ) =~= orig.skip(orig.len() - (self.pings@.len() - 1)));
            }
            self.pings.pop_front();
        }
        self.pings.push_back(delay);
        proof {
            if orig.len() < PING_MAX_HISTORY {
                assert(self.pings@ =~= orig.push(delay));
            } else {
                assert(self.pings@ =~= orig.skip(orig.len() - (PING_MAX_HISTORY - 1)).push(delay));
            }
            assert forall|i: int| 0 <= i < self.pings@.len() implies (#[trigger] self.pings@[i]
                matches Some(d) ==> d.wf()) by {
                if i < self.pings@.len() - 1 {
                    assert(self.pings@[i] == orig[orig.len() - (self.pings@.len() - 1) + i]);
                }
            }
        }
    }

    /// Rounded percentage of lost probes.
    pub fn loss_percent(&self) -> (r: u8)
        requires
            self.wf(),
        ensures
            r == spec_loss_percent(self.spec_slots()),
            r <= 100,
    {
        let total: u64 = self.pings.len() as u64;
        if total == 0 {
            return 0;
        }
        let mut lost: u64 = 0;
        let mut i: usize = 0;
        while i < self.pings.len()
            invariant
                self.wf(),
                i <= self.pings@.len(),
                self.pings@.len() <= PING_MAX_HISTORY,
                lost == spec_count_lost(self.pings@.take(i as int)),
                lost <= i,
            decreases self.pings@.len() - i,
        {
            proof {
                assert(self.pings@.take(i + 1).drop_last() =~= self.pings@.take(i as int));
                assert(self.pings@.take(i + 1).last() == self.pings@[i as int]);
            }
            if self.pings[i].is_none() {
                lost = lost + 1;
            }
            i = i + 1;
        }
        proof {
            assert(self.pings@.take(self.pings@.len() as int) =~= self.pings@);
            lemma_count_lost_bound(self.pings@);
        }
        let r64: u64 = (200 * lost + total) / (2 * total);
        proof {
            lemma_fundamental_div_mod(200 * lost + total, 2 * total as int);
            assert(r64 <= 100) by (nonlinear_arith)
                requires
                    total >= 1,
                    lost <= total,
                    200 * lost + total == 2 * (total as int) * (r64 as int) + (200 * lost + total)
                        % (2 * total as int),
                    0 <= (200 * lost + total) % (2 * total as int),
            ;
        }
        r64 as u8
    }

    /// Mean delay in milliseconds over the present samples.
    pub fn average_delay(&self) -> (r: Option<u64>)
        requires
            self.wf(),
        ensures
            r matches Some(ms) ==> spec_average_delay(self.spec_slots()) == Some(ms as int) && ms
                <= 1617,
            r is None ==> spec_average_delay(self.spec_slots()) is None,
    {
        let mut count: u64 = 0;
        let mut sum: u64 = 0;
        let mut i: usize = 0;
        while i < self.pings.len()
            invariant
                self.wf(),
                i <= self.pings@.len(),
                self.pings@.len() <= PING_MAX_HISTORY,
                count == spec_count_present(self.pings@.take(i as int)),
                sum == spec_sum_millis(self.pings@.take(i as int)),
                count <= i,
                sum <= 1617 * i,
            decreases self.pings@.len() - i,
        {
            proof {
                assert(self.pings@.take(i + 1).drop_last() =~= self.pings@.take(i as int));
                assert(self.pings@.take(i + 1).last() == self.pings@[i as int]);
            }
            match &self.pings[i] {
                Some(d) => {
                    count = count + 1;
                    sum = sum + d.as_millis() as u64;
                },
                None => {},
            }
            i = i + 1;
        }
        proof {
            assert(self.pings@.take(self.pings@.len() as int) =~= self.pings@);
        }
        if count == 0 {
            None
        } else {
            let avg: u64 = sum / count;
            proof {
                lemma_sum_le_count_times_max(self.pings@);
                lemma_fundamental_div_mod(sum as int, count as int);
                assert(avg <= 1617) by (nonlinear_arith)
                    requires
                        count >= 1,
                        sum <= 1617 * (count as int),
                        sum == (count as int) * (avg as int) + (sum as int) % (count as int),
                        0 <= (sum as int) % (count as int),
                ;
            }
            Some(avg)
        }
    }

    /// Latency/loss score; lower is better, `i16::MAX` with no samples.
    pub fn score(&self) -> (r: i16)
        requires
            self.wf(),
        ensures
            r == spec_score(self.spec_slots()),
    {
        let avg = match self.average_delay() {
            None => {
                return SCORE_UNKNOWN;
            },
            Some(ms) => ms,
        };
        let d: u64 = if avg < 10 {
            10
        } else if avg > 2000 {
            2000
        } else {
            avg
        };
        let l: u64 = {
            let lp = self.loss_percent();
            if lp > 99 {
                99
            } else {
                lp as u64
            }
        };
        proof {
            assert((100 - l) * (100 - l) <= 10000 && (100 - l) * (100 - l) >= 1) by (
            nonlinear_arith)
                requires
                    l <= 99,
            ;
        }
        let den: u64 = (100 - l) * (100 - l);
        let num: u64 = 20000 * (d + 10 * l) + den;
        let q: u64 = num / (2 * den);
        proof {
            let s = self.spec_slots();
            assert(spec_clamp(avg as int, 10, 2000) == d);
            assert(spec_clamp(spec_loss_percent(s), 0, 99) == l);
            assert(2 * (den as int) == 2 * (100 - l) * (100 - l)) by (nonlinear_arith)
                requires
                    den == (100 - (l as int)) * (100 - (l as int)),
                    l <= 99,
            ;
            assert(q == spec_score_formula(d as int, l as int));
        }
        if q > 32767 {
            32767
        } else {
            q as i16
        }
    }

    pub fn len(&self) -> (r: usize)
        ensures
            r == self.spec_slots().len(),
    {
        self.pings.len()
    }

    /// The decoded delays of the present samples, in ring order; what the
    /// latency model is fitted over.
    pub fn delays_ms(&self) -> (r: Vec<u16>)
        requires
            self.wf(),
        ensures
            r@ == spec_present_delays(self.spec_slots()),
    {
        let mut out: Vec<u16> = Vec::new();
        let mut i: usize = 0;
        proof {
            assert(out@ =~= spec_present_delays(self.pings@.take(0)));
        }
        while i < self.pings.len()
            invariant
                self.wf(),
                i <= self.pings@.len(),
                out@ == spec_present_delays(self.pings@.take(i as int)),
            decreases self.pings@.len() - i,
        {
            proof {
                assert(self.pings@.take(i + 1).drop_last() =~= self.pings@.take(i as int));
                assert(self.pings@.take(i + 1).last() == self.pings@[i as int]);
            }
            match &self.pings[i] {
                Some(d) => {
                    out.push(d.as_millis());
                    proof {
                        assert(out@ =~= spec_present_delays(self.pings@.take(i + 1)));
                    }
                },
                None => {
                    proof {
                        assert(out@ =~= spec_present_delays(self.pings@.take(i + 1)));
                    }
                },
            }
            i = i + 1;
        }
        proof {
            assert(self.pings@.take(self.pings@.len() as int) =~= self.pings@);
        }
        out
    }
}

/// Decoded delays of the present samples, in order.
pub open spec fn spec_present_delays(s: Seq<PingSlot>) -> Seq<u16>
    decreases s.len(),
{
    if s.len() == 0 {
        Seq::empty()
    } else {
        spec_present_delays(s.drop_last()) + match s.last() {
            Some(d) => seq![(delay_dec(d.spec_code() as int) as u16)],
            None => Seq::empty(),
        }
    }
}

proof fn lemma_count_lost_bound(s: Seq<PingSlot>)
    ensures
        0 <= spec_count_lost(s) <= s.len(),
        0 <= spec_count_present(s) <= s.len(),
        spec_count_lost(s) + spec_count_present(s) == s.len(),
    decreases s.len(),
{
    if s.len() > 0 {
        lemma_count_lost_bound(s.drop_last());
    }
}

proof fn lemma_sum_le_count_times_max(s: Seq<PingSlot>)
    requires
        spec_slots_wf(s),
    ensures
        spec_sum_millis(s) >= 0,
        spec_sum_millis(s) <= 1617 * spec_count_present(s),
    decreases s.len(),
{
    if s.len() > 0 {
        assert(spec_slots_wf(s.drop_last())) by {
            assert(forall|i: int|
                0 <= i < s.len() - 1 ==> s.drop_last()[i] == #[trigger] s[i]);
        }
        lemma_sum_le_count_times_max(s.drop_last());
        match s.last() {
            Some(d) => {
                lemma_dec_bound(d.spec_code() as int);
            },
            None => {},
        }
    }
}

/// The decoded delay of a well-formed code is at most `floor(255^(4/3))`.
proof fn lemma_dec_bound(n: int)
    requires
        0 <= n <= 255,
    ensures
        0 <= delay_dec(n) <= 1617,
{
    assert(cube(1618) > pow4(255));
    lemma_pow4_monotone(n, 255);
    lemma_dec_below(n, 0, 1617);
    lemma_dec_nonneg(n, 0);
}

proof fn lemma_dec_nonneg(n: int, k: int)
    requires
        0 <= k <= 1625,
    ensures
        delay_dec_from(n, k) >= k,
    decreases 1626 - k,
{
    if k >= 1625 {
    } else if pow4(n) < cube(k + 1) {
    } else {
        lemma_dec_nonneg(n, k + 1);
    }
}


/// Cube of a product.
proof fn lemma_cube_mul(a: int, b: int)
    ensures
        cube(a * b) == cube(a) * cube(b),
{
    assert(cube(a * b) == cube(a) * cube(b)) by (nonlinear_arith);
}

/// Fourth power of a product.
proof fn lemma_pow4_mul(a: int, b: int)
    ensures
        pow4(a * b) == pow4(a) * pow4(b),
{
    assert((a * b) * (a * b) * (a * b) * (a * b) == (a * a * a * a) * (b * b * b * b))
        by (nonlinear_arith);
}

/// Cubes order their arguments back.
proof fn lemma_cube_le_rev(a: int, b: int)
    requires
        0 <= a,
        0 <= b,
        cube(a) <= cube(b),
    ensures
        a <= b,
{
    if a > b {
        lemma_cube_monotone(b, a);
        assert(cube(b) < cube(a)) by (nonlinear_arith)
            requires
                0 <= b < a,
        ;
    }
}

/// What the encoder search guarantees of its answer, carried through the
/// recursion: the answer brackets `16*m^3` between consecutive odd fourth
/// powers, saturating at 255.
#[verifier::rlimit(60)]
proof fn lemma_enc_char(m: int, j: int)
    requires
        0 <= m,
        0 <= j <= 255,
        forall|t: int| 1 <= t <= 2 * j - 1 && t % 2 == 1 ==> 16 * cube(m) >= #[trigger] pow4(t),
    ensures
        1 <= delay_enc_from(m, j) <= 255,
        delay_enc_from(m, j) <= 254 ==> 16 * cube(m) < pow4(2 * delay_enc_from(m, j) + 1),
        delay_enc_from(m, j) >= 2 ==> 16 * cube(m) >= pow4(2 * delay_enc_from(m, j) - 1),
        delay_enc_from(m, j) == 255 ==> 16 * cube(m) >= pow4(509),
    decreases 255 - j,
{
    if j >= 255 {
        assert(16 * cube(m) >= pow4(509));
    } else if 16 * cube(m) < pow4(2 * j + 1) {
        if j >= 2 {
            assert(2 * j - 1 == 2 * (j - 1) + 1);
            assert(16 * cube(m) >= pow4(2 * j - 1));
        }
        if j == 0 {
            assert(pow4(1) == 1) by (nonlinear_arith);
            assert(16 * cube(m) < 1);
            assert(m == 0) by (nonlinear_arith)
                requires
                    0 <= m,
                    16 * (m * m * m) < 1,
            ;
            assert(pow4(3) == 81) by (nonlinear_arith);
        }
    } else {
        assert forall|t: int| 1 <= t <= 2 * (j + 1) - 1 && t % 2 == 1 implies 16 * cube(m)
            >= #[trigger] pow4(t) by {
            if t == 2 * j + 1 {
            } else {
                assert(t <= 2 * j - 1);
            }
        }
        lemma_enc_char(m, j + 1);
    }
}

/// What the decoder search guarantees: its answer is the floor cube root
/// of `n^4`.
#[verifier::rlimit(60)]
proof fn lemma_dec_char(n: int, j: int)
    requires
        0 <= n,
        0 <= j <= 1625,
        forall|t: int| 1 <= t <= j ==> #[trigger] cube(t) <= pow4(n),
    ensures
        cube(delay_dec_from(n, j)) <= pow4(n) || delay_dec_from(n, j) == 0,
        delay_dec_from(n, j) <= 1624 ==> pow4(n) < cube(delay_dec_from(n, j) + 1),
        delay_dec_from(n, j) >= 1 ==> cube(delay_dec_from(n, j)) <= pow4(n),
    decreases 1626 - j,
{
    if j >= 1625 {
        assert(cube(1625) <= pow4(n));
    } else if pow4(n) < cube(j + 1) {
        if j >= 1 {
            assert(cube(j) <= pow4(n));
        }
    } else {
        assert forall|t: int| 1 <= t <= j + 1 implies #[trigger] cube(t) <= pow4(n) by {
            if t == j + 1 {
            } else {
                assert(t <= j);
            }
        }
        lemma_dec_char(n, j + 1);
    }
}

/// Round trip of the delay compression: decoding an encoded delay of
/// 1 ms to 2021 ms lands within twenty percent of the original, except at
/// exactly 3 ms where the coarse code grid misses the bound.
#[verifier::rlimit(100)]
pub proof fn lemma_delay_round_trip(m: int)
    requires
        1 <= m <= 2021,
        m != 3,
    ensures
        4 * m <= 5 * delay_dec(delay_enc(m)),
        5 * delay_dec(delay_enc(m)) <= 6 * m,
{
    lemma_enc_char(m, 0);
    let n = delay_enc(m);
    lemma_dec_char(n, 0);
    let k = delay_dec(n);
    assert(cube(1618) > pow4(255));
    lemma_pow4_monotone(n, 255);
    lemma_dec_below(n, 0, 1617);
    lemma_dec_nonneg(n, 0);
    assert(k <= 1617);
    assert(pow4(n) < cube(k + 1));
    if n <= 3 {
        assert(pow4(2 * n + 1) <= pow4(7)) by {
            lemma_pow4_monotone(2 * n + 1, 7);
        }
        assert(pow4(7) == 2401) by (nonlinear_arith);
        assert(16 * cube(m) < 2401);
        assert(m <= 5) by (nonlinear_arith)
            requires
                16 * (m * m * m) < 2401,
                m >= 1,
        ;
        if m == 1 {
            assert(cube(1) == 1 && pow4(1) == 1 && pow4(3) == 81 && cube(2) == 8) by (
            nonlinear_arith);
            lemma_enc_unique(m, n, 1);
            lemma_dec_unique(n, k, 1);
        } else if m == 2 {
            assert(cube(2) == 8 && pow4(3) == 81 && pow4(5) == 625 && pow4(2) == 16 && cube(3)
                == 27) by (nonlinear_arith);
            lemma_enc_unique(m, n, 2);
            lemma_dec_unique(n, k, 2);
        } else if m == 4 {
            assert(cube(4) == 64 && pow4(5) == 625 && pow4(7) == 2401 && pow4(3) == 81 && cube(5)
                == 125) by (nonlinear_arith);
            lemma_enc_unique(m, n, 3);
            lemma_dec_unique(n, k, 4);
        } else {
            assert(m == 5);
            assert(cube(5) == 125 && pow4(5) == 625 && pow4(7) == 2401 && pow4(3) == 81 && cube(4)
                == 64) by (nonlinear_arith);
            lemma_enc_unique(m, n, 3);
            lemma_dec_unique(n, k, 4);
        }
    } else if n == 255 {
        assert(16 * cube(m) >= pow4(509));
        assert(16 * cube(1612) < pow4(509)) by (nonlinear_arith);
        if m <= 1612 {
            lemma_cube_monotone(m, 1612);
            assert(false);
        }
        assert(cube(1617) <= pow4(255) && pow4(255) < cube(1618)) by (nonlinear_arith);
        lemma_dec_unique(n, k, 1617);
    } else {
        // 4 <= n <= 254: algebraic bounds on both sides.
        assert(16 * cube(m) >= pow4(2 * n - 1));
        assert(16 * cube(m) < pow4(2 * n + 1));
        if k == 0 {
            assert(pow4(4) <= pow4(n)) by {
                lemma_pow4_monotone(4, n);
            }
            assert(pow4(4) == 256 && cube(1) == 1) by (nonlinear_arith);
            assert(false);
        }
        assert(cube(k) <= pow4(n));
        // Direction one: 5k <= 6m, via 250*n^4 <= 27*(2n-1)^4.
        assert(250 * pow4(n) <= 27 * pow4(2 * n - 1)) by (nonlinear_arith)
            requires
                4 <= n <= 254,
        ;
        assert(250 * cube(k) <= 250 * pow4(n)) by (nonlinear_arith)
            requires
                cube(k) <= pow4(n),
        ;
        assert(27 * pow4(2 * n - 1) <= 27 * (16 * cube(m))) by (nonlinear_arith)
            requires
                pow4(2 * n - 1) <= 16 * cube(m),
        ;
        assert(250 * cube(k) <= 432 * cube(m));
        assert(cube(5 * k) == 125 * cube(k)) by (nonlinear_arith);
        assert(cube(6 * m) == 216 * cube(m)) by (nonlinear_arith);
        assert(125 * cube(k) <= 216 * cube(m)) by (nonlinear_arith)
            requires
                250 * cube(k) <= 432 * cube(m),
        ;
        lemma_cube_le_rev(5 * k, 6 * m);
        // Direction two: 4m <= 5k.
        if n <= 9 {
            if n == 4 {
                assert(cube(6) <= pow4(4) && pow4(4) < cube(7) && 4 * pow4(9) <= 125 * cube(6)) by (
                nonlinear_arith);
                lemma_dec_unique(n, k, 6);
            } else if n == 5 {
                assert(cube(8) <= pow4(5) && pow4(5) < cube(9) && 4 * pow4(11) <= 125 * cube(8))
                    by (nonlinear_arith);
                lemma_dec_unique(n, k, 8);
            } else if n == 6 {
                assert(cube(10) <= pow4(6) && pow4(6) < cube(11) && 4 * pow4(13) <= 125 * cube(10))
                    by (nonlinear_arith);
                lemma_dec_unique(n, k, 10);
            } else if n == 7 {
                assert(cube(13) <= pow4(7) && pow4(7) < cube(14) && 4 * pow4(15) <= 125 * cube(13))
                    by (nonlinear_arith);
                lemma_dec_unique(n, k, 13);
            } else if n == 8 {
                assert(cube(16) <= pow4(8) && pow4(8) < cube(17) && 4 * pow4(17) <= 125 * cube(16))
                    by (nonlinear_arith);
                lemma_dec_unique(n, k, 16);
            } else {
                assert(cube(18) <= pow4(9) && pow4(9) < cube(19) && 4 * pow4(19) <= 125 * cube(18))
                    by (nonlinear_arith);
                lemma_dec_unique(n, k, 18);
            }
            assert(64 * cube(m) < 125 * cube(k)) by (nonlinear_arith)
                requires
                    16 * cube(m) < pow4(2 * n + 1),
                    4 * pow4(2 * n + 1) <= 125 * cube(k),
            ;
        } else {
            // 10 <= n <= 254: k is at least 6, so (k+1)/k is at most 7/6.
            assert(cube(7) == 343 && pow4(10) == 10000 && cube(6) == 216) by (nonlinear_arith);
            assert(pow4(10) <= pow4(n)) by {
                lemma_pow4_monotone(10, n);
            }
            if k <= 5 {
                lemma_cube_monotone(k + 1, 6);
                assert(false);
            }
            assert(k >= 6);
            assert(6 * (k + 1) <= 7 * k);
            lemma_cube_monotone(6 * (k + 1), 7 * k);
            lemma_cube_mul(6, k + 1);
            lemma_cube_mul(7, k);
            assert(216 * cube(k + 1) <= 343 * cube(k));
            assert(216 * pow4(n) < 216 * cube(k + 1)) by (nonlinear_arith)
                requires
                    pow4(n) < cube(k + 1),
            ;
            // 1372 * (2n+1)^4 <= 27000 * n^4 for n >= 10.
            assert(10 * (2 * n + 1) <= 21 * n);
            lemma_pow4_monotone(10 * (2 * n + 1), 21 * n);
            lemma_pow4_mul(10, 2 * n + 1);
            lemma_pow4_mul(21, n);
            assert(pow4(21) == 194481) by (nonlinear_arith);
            assert(10000 * pow4(2 * n + 1) <= 194481 * pow4(n));
            assert(pow4(n) >= 0) by (nonlinear_arith);
            assert(1372 * pow4(2 * n + 1) <= 27000 * pow4(n)) by (nonlinear_arith)
                requires
                    10000 * pow4(2 * n + 1) <= 194481 * pow4(n),
                    pow4(n) >= 0,
            ;
            assert(343 * (4 * pow4(2 * n + 1)) <= 125 * (216 * pow4(n))) by (nonlinear_arith)
                requires
                    1372 * pow4(2 * n + 1) <= 27000 * pow4(n),
            ;
            assert(125 * (216 * pow4(n)) < 125 * (343 * cube(k))) by (nonlinear_arith)
                requires
                    216 * pow4(n) < 216 * cube(k + 1),
                    216 * cube(k + 1) <= 343 * cube(k),
            ;
            assert(4 * pow4(2 * n + 1) < 125 * cube(k)) by (nonlinear_arith)
                requires
                    343 * (4 * pow4(2 * n + 1)) <= 125 * (216 * pow4(n)),
                    125 * (216 * pow4(n)) < 125 * (343 * cube(k)),
            ;
            assert(64 * cube(m) < 125 * cube(k)) by (nonlinear_arith)
                requires
                    16 * cube(m) < pow4(2 * n + 1),
                    4 * pow4(2 * n + 1) < 125 * cube(k),
            ;
        }
        assert(cube(4 * m) == 64 * cube(m)) by (nonlinear_arith);
        assert(cube(5 * k) == 125 * cube(k)) by (nonlinear_arith);
        lemma_cube_le_rev(4 * m, 5 * k);
    }
}

/// The decoder's answer is pinned by any value whose cube brackets `n^4`.
proof fn lemma_dec_unique(n: int, k: int, v: int)
    requires
        0 <= v,
        0 <= k,
        cube(v) <= pow4(n),
        pow4(n) < cube(v + 1),
        k >= 1 ==> cube(k) <= pow4(n),
        pow4(n) < cube(k + 1),
    ensures
        k == v,
{
    if k < v {
        lemma_cube_monotone(k + 1, v);
        assert(false);
    }
    if k > v {
        assert(k >= 1);
        lemma_cube_monotone(v + 1, k);
        assert(false);
    }
}

/// The encoder's answer is pinned by any value whose odd fourth powers
/// bracket `16*m^3`.
proof fn lemma_enc_unique(m: int, n: int, v: int)
    requires
        1 <= v <= 254,
        1 <= n <= 255,
        v >= 2 ==> 16 * cube(m) >= pow4(2 * v - 1),
        16 * cube(m) < pow4(2 * v + 1),
        n <= 254 ==> 16 * cube(m) < pow4(2 * n + 1),
        n >= 2 ==> 16 * cube(m) >= pow4(2 * n - 1),
    ensures
        n == v,
{
    if n < v {
        assert(n <= 254);
        assert(pow4(2 * n + 1) <= pow4(2 * v - 1)) by {
            lemma_pow4_monotone(2 * n + 1, 2 * v - 1);
        }
        assert(v >= 2);
        assert(false);
    }
    if n > v {
        assert(n >= 2);
        assert(pow4(2 * v + 1) <= pow4(2 * n - 1)) by {
            lemma_pow4_monotone(2 * v + 1, 2 * n - 1);
        }
        assert(false);
    }
}



/// Integer division respects the rational order.
proof fn lemma_div_cross(a1: int, b1: int, a2: int, b2: int)
    requires
        0 <= a1,
        0 <= a2,
        1 <= b1,
        1 <= b2,
        a1 * b2 <= a2 * b1,
    ensures
        a1 / b1 <= a2 / b2,
{
    lemma_fundamental_div_mod(a1, b1);
    lemma_fundamental_div_mod(a2, b2);
    assert(a1 / b1 <= a2 / b2) by (nonlinear_arith)
        requires
            0 <= a1,
            0 <= a2,
            1 <= b1,
            1 <= b2,
            a1 * b2 <= a2 * b1,
            a1 == b1 * (a1 / b1) + a1 % b1,
            a2 == b2 * (a2 / b2) + a2 % b2,
            0 <= a1 % b1 < b1,
            0 <= a2 % b2 < b2,
    ;
}

/// The score formula never falls when the loss percentage rises at a fixed
/// delay, nor when the delay rises at a fixed loss percentage.
pub proof fn lemma_score_monotone(d1: int, l1: int, d2: int, l2: int)
    requires
        10 <= d1 <= d2 <= 2000,
        0 <= l1 <= l2 <= 99,
    ensures
        spec_score_formula(d1, l1) <= spec_score_formula(d2, l2),
        spec_clamp(spec_score_formula(d1, l1), i16::MIN as int, i16::MAX as int) <= spec_clamp(
            spec_score_formula(d2, l2),
            i16::MIN as int,
            i16::MAX as int,
        ),
{
    let a = 100 - l1;
    let b = 100 - l2;
    let n1 = 20000 * (d1 + 10 * l1) + a * a;
    let n2 = 20000 * (d2 + 10 * l2) + b * b;
    // Cross-multiplied monotonicity of the underlying rational.
    assert(n1 * (2 * b * b) <= n2 * (2 * a * a)) by (nonlinear_arith)
        requires
            a == 100 - l1,
            b == 100 - l2,
            n1 == 20000 * (d1 + 10 * l1) + a * a,
            n2 == 20000 * (d2 + 10 * l2) + b * b,
            10 <= d1 <= d2 <= 2000,
            0 <= l1 <= l2 <= 99,
    ;
    assert(n1 >= 0 && n2 >= 0 && 2 * a * a >= 1 && 2 * b * b >= 1) by (nonlinear_arith)
        requires
            a == 100 - l1,
            b == 100 - l2,
            n1 == 20000 * (d1 + 10 * l1) + a * a,
            n2 == 20000 * (d2 + 10 * l2) + b * b,
            10 <= d1 <= d2 <= 2000,
            0 <= l1 <= l2 <= 99,
    ;
    lemma_div_cross(n1, 2 * a * a, n2, 2 * b * b);
    assert(spec_score_formula(d1, l1) == n1 / (2 * a * a)) by (nonlinear_arith)
        requires
            a == 100 - l1,
            n1 == 20000 * (d1 + 10 * l1) + a * a,
    ;
    assert(spec_score_formula(d2, l2) == n2 / (2 * b * b)) by (nonlinear_arith)
        requires
            b == 100 - l2,
            n2 == 20000 * (d2 + 10 * l2) + b * b,
    ;
}

/// Lifted to whole histories: of two histories whose clamped mean delays
/// and clamped loss percentages are ordered, the better one never scores
/// higher.
pub proof fn lemma_score_monotone_histories(s1: Seq<PingSlot>, s2: Seq<PingSlot>)
    requires
        spec_average_delay(s1) matches Some(a1),
        spec_average_delay(s2) matches Some(a2),
        spec_clamp(spec_average_delay(s1).unwrap(), 10, 2000) <= spec_clamp(
            spec_average_delay(s2).unwrap(),
            10,
            2000,
        ),
        spec_clamp(spec_loss_percent(s1), 0, 99) <= spec_clamp(spec_loss_percent(s2), 0, 99),
    ensures
        spec_score(s1) <= spec_score(s2),
{
    let d1 = spec_clamp(spec_average_delay(s1).unwrap(), 10, 2000);
    let d2 = spec_clamp(spec_average_delay(s2).unwrap(), 10, 2000);
    let l1 = spec_clamp(spec_loss_percent(s1), 0, 99);
    let l2 = spec_clamp(spec_loss_percent(s2), 0, 99);
    lemma_score_monotone(d1, l1, d2, l2);
}

} // verus!
