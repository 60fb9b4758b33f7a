//! Tick-aligned raw mouse sampling: the ring of timestamped deltas, and what is
//! served of it.
use vstd::prelude::*;

verus! {

/// How many deltas the ring holds.
pub const CAPACITY: usize = 1024;

/// One raw mouse delta and when it was seen. Later deltas have greater
/// timestamps.
#[derive(Clone, Copy, Debug, Eq, PartialEq, Structural)]
pub struct Delta {
    pub time: i64,
    pub x: i32,
    pub y: i32,
}

/// A bounded queue of deltas.
pub struct Ring {
    slots: [Delta; 1024],
    head: usize,
    len: usize,
}

/// What a ring holds, from oldest to newest.
pub open spec fn ring_view(slots: Seq<Delta>, head: int, len: int) -> Seq<Delta> {
    Seq::new(len as nat, |i: int| slots[(head + i) % CAPACITY as int])
}

impl View for Ring {
    type V = Seq<Delta>;

    closed spec fn view(&self) -> Seq<Delta> {
        ring_view(self.slots@, self.head as int, self.len as int)
    }
}

/// A delta that may be served: it was seen by the threshold, if there is one.
pub open spec fn is_due(d: Delta, threshold: Option<i64>) -> bool {
    threshold matches Some(t) ==> d.time <= t
}

/// How many deltas at the front of a queue are due.
pub open spec fn due_len(q: Seq<Delta>, threshold: Option<i64>) -> nat
    decreases q.len(),
{
    if q.len() == 0 || !is_due(q[0], threshold) {
        0
    } else {
        1 + due_len(q.drop_first(), threshold)
    }
}

/// The deltas at the front of a queue that are due.
pub open spec fn due(q: Seq<Delta>, threshold: Option<i64>) -> Seq<Delta> {
    q.take(due_len(q, threshold) as int)
}

/// The rest of a queue.
pub open spec fn kept(q: Seq<Delta>, threshold: Option<i64>) -> Seq<Delta> {
    q.skip(due_len(q, threshold) as int)
}

/// The sum of the horizontal and of the vertical deltas.
pub open spec fn total(q: Seq<Delta>) -> (int, int)
    decreases q.len(),
{
    if q.len() == 0 {
        (0, 0)
    } else {
        (total(q.drop_last()).0 + q.last().x, total(q.drop_last()).1 + q.last().y)
    }
}

/// A number held within the 32-bit range.
pub open spec fn clamped(v: int) -> int {
    if v < i32::MIN {
        i32::MIN as int
    } else if v > i32::MAX {
        i32::MAX as int
    } else {
        v
    }
}

/// The sums, each held within the 32-bit range at every step.
pub open spec fn saturated(q: Seq<Delta>) -> (int, int)
    decreases q.len(),
{
    if q.len() == 0 {
        (0, 0)
    } else {
        (
            clamped(saturated(q.drop_last()).0 + q.last().x),
            clamped(saturated(q.drop_last()).1 + q.last().y),
        )
    }
}

proof fn due_len_bound(q: Seq<Delta>, threshold: Option<i64>)
    ensures
        due_len(q, threshold) <= q.len(),
        forall|i: int| 0 <= i < due_len(q, threshold) ==> is_due(#[trigger] q[i], threshold),
        due_len(q, threshold) < q.len() ==> !is_due(
            q[due_len(q, threshold) as int],
            threshold,
        ),
    decreases q.len(),
{
    if q.len() > 0 && is_due(q[0], threshold) {
        let rest = q.drop_first();
        due_len_bound(rest, threshold);
        assert forall|i: int| 0 <= i < due_len(q, threshold) implies is_due(
            #[trigger] q[i],
            threshold,
        ) by {
            if i > 0 {
                assert(q[i] == rest[i - 1]);
            }
        }
    }
}

/// What is served belongs to the tick, and what is kept does not: every served
/// delta is due, the first kept one is not, and together they are what there
/// was, in order. The sums of the two make up the sum of all.
pub proof fn serving_loses_nothing(q: Seq<Delta>, threshold: Option<i64>)
    ensures
        due(q, threshold) + kept(q, threshold) == q,
        forall|i: int|
            0 <= i < due(q, threshold).len() ==> is_due(#[trigger] due(q, threshold)[i], threshold),
        kept(q, threshold).len() > 0 ==> !is_due(kept(q, threshold)[0], threshold),
        total(q).0 == total(due(q, threshold)).0 + total(kept(q, threshold)).0,
        total(q).1 == total(due(q, threshold)).1 + total(kept(q, threshold)).1,
{
    due_len_bound(q, threshold);
    assert(due(q, threshold) + kept(q, threshold) =~= q);
    total_adds(due(q, threshold), kept(q, threshold));
}

proof fn total_adds(a: Seq<Delta>, b: Seq<Delta>)
    ensures
        total(a + b).0 == total(a).0 + total(b).0,
        total(a + b).1 == total(a).1 + total(b).1,
    decreases b.len(),
{
    if b.len() == 0 {
        assert(a + b =~= a);
    } else {
        assert((a + b).drop_last() =~= a + b.drop_last());
        total_adds(a, b.drop_last());
    }
}

/// With timestamps in order, everything that is due is served.
pub proof fn serving_misses_nothing(q: Seq<Delta>, threshold: Option<i64>)
    requires
        forall|i: int, j: int| 0 <= i < j < q.len() ==> q[i].time <= q[j].time,
    ensures
        forall|i: int|
            0 <= i < kept(q, threshold).len() ==> !is_due(
                #[trigger] kept(q, threshold)[i],
                threshold,
            ),
{
    due_len_bound(q, threshold);
    let n = due_len(q, threshold) as int;
    assert forall|i: int| 0 <= i < kept(q, threshold).len() implies !is_due(
        #[trigger] kept(q, threshold)[i],
        threshold,
    ) by {
        assert(kept(q, threshold)[i] == q[n + i]);
        assert(q[n].time <= q[n + i].time);
    }
}

/// Without a threshold everything is served.
pub proof fn no_threshold_serves_all(q: Seq<Delta>)
    ensures
        due(q, None) == q,
        kept(q, None).len() == 0,
    decreases q.len(),
{
    due_len_bound(q, None);
    if due_len(q, None) < q.len() {
        assert(is_due(q[due_len(q, None) as int], None));
    }
    assert(due(q, None) =~= q);
}

/// Up to when deltas are served: by the tick in mode 2, without a bound in any
/// other mode.
pub open spec fn mode_threshold(mode: i32, threshold: i64) -> Option<i64> {
    if mode == 2 {
        Some(threshold)
    } else {
        None
    }
}

/// In mode 2 a delta behind the tick is kept for the next, and one up to it is
/// served; in any other mode nothing is kept.
pub proof fn only_mode_two_waits_for_the_tick(mode: i32, threshold: i64, d: Delta)
    ensures
        mode == 2 && d.time > threshold ==> kept(seq![d], mode_threshold(mode, threshold))
            == seq![d],
        mode == 2 && d.time <= threshold ==> due(seq![d], mode_threshold(mode, threshold))
            == seq![d],
        mode != 2 ==> due(seq![d], mode_threshold(mode, threshold)) == seq![d] && kept(
            seq![d],
            mode_threshold(mode, threshold),
        ).len() == 0,
{
    let q = seq![d];
    due_len_bound(q, mode_threshold(mode, threshold));
    reveal_with_fuel(due_len, 3);
    assert(q.take(1) =~= q);
    assert(q.skip(0) =~= q);
    assert(q[0] == d);
}

impl Ring {
    #[verifier::type_invariant]
    spec fn inv(self) -> bool {
        &&& self.head < CAPACITY
        &&& self.len <= CAPACITY
    }

    /// An empty ring.
    pub fn new() -> (r: Ring)
        ensures
            r@ == Seq::<Delta>::empty(),
    {
        let slots: [Delta; 1024] = [Delta { time: 0, x: 0, y: 0 };1024];
        let r: Ring = Ring { slots, head: 0, len: 0 };
        assert(r@ =~= Seq::<Delta>::empty());
        r
    }

    /// How many deltas it holds.
    pub fn queued(&self) -> (r: usize)
        ensures
            r == self@.len(),
            r <= CAPACITY,
    {
        proof {
            use_type_invariant(self);
        }
        self.len
    }

    /// Adds a delta. A full ring drops its oldest one.
    pub fn push_over(&mut self, d: Delta)
        ensures
            final(self)@ == if old(self)@.len() < CAPACITY {
                old(self)@.push(d)
            } else {
                old(self)@.drop_first().push(d)
            },
    {
        proof {
            use_type_invariant(&*self);
        }
        if self.len < CAPACITY {
            self.push(d);
        } else {
            let head: usize = self.head;
            let ghost before = *self;
            self.slots[head] = d;
            self.head = if head + 1 == CAPACITY {
                0
            } else {
                head + 1
            };
            assert(self@ =~= before@.drop_first().push(d));
        }
    }

    /// Adds a delta. A full ring drops the new one.
    pub fn push(&mut self, d: Delta)
        ensures
            final(self)@ == if old(self)@.len() < CAPACITY {
                old(self)@.push(d)
            } else {
                old(self)@
            },
    {
        proof {
            use_type_invariant(&*self);
        }
        if self.len < CAPACITY {
            let at: usize = (self.head + self.len) % CAPACITY;
            let ghost before = *self;
            self.slots[at] = d;
            self.len = self.len + 1;
            assert(self@ =~= before@.push(d));
        }
    }

    /// Takes the oldest delta, if it is due.
    fn pop_due(&mut self, threshold: Option<i64>) -> (r: Option<Delta>)
        ensures
            match r {
                Some(d) => old(self)@.len() > 0 && d == old(self)@[0] && is_due(d, threshold)
                    && final(self)@ == old(self)@.drop_first(),
                None => final(self)@ == old(self)@ && (old(self)@.len() == 0 || !is_due(
                    old(self)@[0],
                    threshold,
                )),
            },
    {
        proof {
            use_type_invariant(&*self);
        }
        if self.len == 0 {
            return None;
        }
        let d: Delta = self.slots[self.head];
        assert(d == self@[0]);
        let due: bool = match threshold {
            Some(t) => d.time <= t,
            None => true,
        };
        if !due {
            return None;
        }
        let ghost before = *self;
        self.len = self.len - 1;
        self.head = if self.head + 1 == CAPACITY {
            0
        } else {
            self.head + 1
        };
        assert(self@ =~= before@.drop_first());
        Some(d)
    }

    /// Takes every delta that is due and gives the sums.
    pub fn drain(&mut self, threshold: Option<i64>) -> (r: (i64, i64))
        ensures
            final(self)@ == kept(old(self)@, threshold),
            (r.0 as int, r.1 as int) == total(due(old(self)@, threshold)),
    {
        let ghost all = self@;
        let mut x: i64 = 0;
        let mut y: i64 = 0;
        let mut more: bool = true;
        let ghost mut n: int = 0;
        // How many there are is bounded.
        let size: usize = self.queued();
        proof {
            due_len_bound(all, threshold);
            assert(all.skip(0) =~= all);
            assert(all.take(0) =~= Seq::empty());
        }
        while more
            invariant
                0 <= n <= all.len(),
                all.len() <= CAPACITY,
                self@ == all.skip(n),
                (x as int, y as int) == total(all.take(n)),
                -2_147_483_648 * n <= x <= 2_147_483_647 * n,
                -2_147_483_648 * n <= y <= 2_147_483_647 * n,
                due_len(all, threshold) == n + due_len(all.skip(n), threshold),
                !more ==> due_len(all.skip(n), threshold) == 0,
            decreases
                    (if more {
                        all.len() - n + 1
                    } else {
                        0
                    }),
        {
            let ghost rest = self@;
            match self.pop_due(threshold) {
                Some(d) => {
                    x = x + d.x as i64;
                    y = y + d.y as i64;
                    proof {
                        assert(rest.drop_first() =~= all.skip(n + 1));
                        assert(all.take(n + 1).drop_last() =~= all.take(n));
                        assert(all.take(n + 1).last() == d);
                        n = n + 1;
                    }
                },
                None => {
                    more = false;
                },
            }
        }
        (x, y)
    }

    /// Takes every delta that is due and gives the sums, each held within the
    /// 32-bit range at every step.
    pub fn drain_saturating(&mut self, threshold: Option<i64>) -> (r: (i32, i32))
        ensures
            final(self)@ == kept(old(self)@, threshold),
            (r.0 as int, r.1 as int) == saturated(due(old(self)@, threshold)),
    {
        let ghost all = self@;
        let mut x: i32 = 0;
        let mut y: i32 = 0;
        let mut more: bool = true;
        let ghost mut n: int = 0;
        proof {
            due_len_bound(all, threshold);
            assert(all.skip(0) =~= all);
            assert(all.take(0) =~= Seq::empty());
        }
        while more
            invariant
                0 <= n <= all.len(),
                self@ == all.skip(n),
                (x as int, y as int) == saturated(all.take(n)),
                due_len(all, threshold) == n + due_len(all.skip(n), threshold),
                !more ==> due_len(all.skip(n), threshold) == 0,
            decreases
                    (if more {
                        all.len() - n + 1
                    } else {
                        0
                    }),
        {
            let ghost rest = self@;
            match self.pop_due(threshold) {
                Some(d) => {
                    x = saturating(x, d.x);
                    y = saturating(y, d.y);
                    proof {
                        assert(rest.drop_first() =~= all.skip(n + 1));
                        assert(all.take(n + 1).drop_last() =~= all.take(n));
                        assert(all.take(n + 1).last() == d);
                        n = n + 1;
                    }
                },
                None => {
                    more = false;
                },
            }
        }
        (x, y)
    }

    /// What Linux serves: in mode 2 the deltas that are due by the tick's
    /// threshold, in any other mode all of them.
    pub fn serve(&mut self, mode: i32, threshold: i64) -> (r: (i64, i64))
        ensures
            ({
                let t = if mode == 2 {
                    Some(threshold)
                } else {
                    None
                };
                final(self)@ == kept(old(self)@, t) && (r.0 as int, r.1 as int) == total(
                    due(old(self)@, t),
                )
            }),
            final(self)@ == kept(old(self)@, mode_threshold(mode, threshold)),
            (r.0 as int, r.1 as int) == total(due(old(self)@, mode_threshold(mode, threshold))),
    {
        if mode == 2 {
            self.drain(Some(threshold))
        } else {
            self.drain(None)
        }
    }

    /// What Windows serves: in mode 2 the deltas that are due by the tick's
    /// threshold; in any other mode the stock values, and the ring is emptied.
    pub fn serve_stock(&mut self, mode: i32, threshold: i64, stock: (i32, i32)) -> (r: (i32, i32))
        ensures
            mode == 2 ==> final(self)@ == kept(old(self)@, Some(threshold)) && (
            r.0 as int,
            r.1 as int,
            ) == saturated(due(old(self)@, Some(threshold))),
            mode != 2 ==> final(self)@ == Seq::<Delta>::empty() && r == stock,
    {
        if mode == 2 {
            self.drain_saturating(Some(threshold))
        } else {
            proof {
                no_threshold_serves_all(self@);
            }
            let ghost before = self@;
            let ignored: (i32, i32) = self.drain_saturating(None);
            assert(self@ =~= Seq::<Delta>::empty());
            stock
        }
    }
}

/// A sum held within the 32-bit range.
fn saturating(a: i32, b: i32) -> (r: i32)
    ensures
        r == clamped(a + b),
{
    let s: i64 = a as i64 + b as i64;
    if s < i32::MIN as i64 {
        i32::MIN
    } else if s > i32::MAX as i64 {
        i32::MAX
    } else {
        s as i32
    }
}

/// The mode before the variable is found.
pub const DEFAULT_MODE: i32 = 1;

/// The raw-input mode: what the variable says, once it is found.
pub fn rawinput_mode(value: Option<i32>) -> (r: i32)
    ensures
        r == (match value {
            Some(v) => v,
            None => DEFAULT_MODE,
        }),
{
    match value {
        Some(v) => v,
        None => DEFAULT_MODE,
    }
}

/// Whether mode 2 is to be stamped now: it is wanted, the variable is found,
/// and it was not stamped before. It is stamped once.
pub fn force_rawinput_default(force: bool, forced: &mut bool, resolved: bool) -> (r: bool)
    ensures
        r == (force && !*old(forced) && resolved),
        *final(forced) == (*old(forced) || r),
{
    if !force || *forced || !resolved {
        return false;
    }
    *forced = true;
    true
}

/// Mode 2 is stamped at most once, however often it is tried, so a mode that
/// the player sets later stays.
pub proof fn forced_once(force: Seq<bool>, resolved: Seq<bool>, forced: Seq<bool>, i: int, j: int)
    requires
        force.len() == resolved.len(),
        forced.len() == force.len() + 1,
        forall|k: int|
            #![trigger forced[k + 1]]
            0 <= k < force.len() ==> forced[k + 1] == (forced[k] || (force[k] && !forced[k]
                && resolved[k])),
        0 <= i < j < force.len(),
        force[i] && !forced[i] && resolved[i],
    ensures
        !(force[j] && !forced[j] && resolved[j]),
    decreases j - i,
{
    stays_forced(force, resolved, forced, i + 1, j);
    assert(forced[i + 1]);
}

proof fn stays_forced(force: Seq<bool>, resolved: Seq<bool>, forced: Seq<bool>, i: int, j: int)
    requires
        force.len() == resolved.len(),
        forced.len() == force.len() + 1,
        forall|k: int|
            #![trigger forced[k + 1]]
            0 <= k < force.len() ==> forced[k + 1] == (forced[k] || (force[k] && !forced[k]
                && resolved[k])),
        0 <= i <= j <= force.len(),
        forced[i],
    ensures
        forced[j],
    decreases j - i,
{
    if i < j {
        stays_forced(force, resolved, forced, i, j - 1);
        assert(forced[j - 1 + 1] == forced[j]);
    }
}

/// The raw-input message.
pub const WM_INPUT: u32 = 0xff;

/// What the system copied of a raw-input message.
#[derive(Clone, Copy, Debug, Eq, PartialEq, Structural)]
pub struct RawMessage {
    /// How many bytes, or the greatest number for a failure.
    pub copied: u32,
    /// How many bytes a mouse message has.
    pub needed: u32,
    /// The kind of device; a mouse is zero.
    pub kind: u32,
    /// The movement flags; the lowest marks absolute coordinates.
    pub flags: u16,
    pub x: i32,
    pub y: i32,
}

/// The delta of a raw-input message: a whole message of a mouse that reports
/// relative movement, and has moved.
pub open spec fn delta_of(m: RawMessage) -> Option<(i32, i32)> {
    if m.copied != u32::MAX && m.copied >= m.needed && m.kind == 0 && m.flags & 1 == 0 && (m.x != 0
        || m.y != 0) {
        Some((m.x, m.y))
    } else {
        None
    }
}

/// A movement counts whichever way it goes, along one axis or both; a message
/// that is not whole, of another device, of absolute coordinates, or without
/// movement, does not.
pub proof fn every_movement_counts(m: RawMessage)
    ensures
        m.copied < 0xffff_ffff && m.needed <= m.copied && m.kind == 0 && m.flags % 2 == 0 && m.x
            != 0 ==> delta_of(m) == Some((m.x, m.y)),
        m.copied < 0xffff_ffff && m.needed <= m.copied && m.kind == 0 && m.flags % 2 == 0 && m.y
            != 0 ==> delta_of(m) == Some((m.x, m.y)),
        m.copied == 0xffff_ffff || m.copied < m.needed || m.kind != 0 || m.flags % 2 == 1 || (m.x
            == 0 && m.y == 0) ==> delta_of(m) is None,
{
    let f = m.flags;
    assert(f & 1 == f % 2) by (bit_vector);
}

/// The delta of a raw-input message.
pub fn mouse_delta(m: RawMessage) -> (r: Option<(i32, i32)>)
    ensures
        r == if m.copied != u32::MAX && m.copied >= m.needed && m.kind == 0 && m.flags & 1 == 0 && (
        m.x != 0 || m.y != 0) {
            Some((m.x, m.y))
        } else {
            None
        },
        r == delta_of(m),
{
    if m.copied != u32::MAX && m.copied >= m.needed && m.kind == 0 && m.flags & 1 == 0 && (m.x != 0
        || m.y != 0) {
        Some((m.x, m.y))
    } else {
        None
    }
}

/// How much of the tick's sample is still to come, in nanoseconds, and when
/// that was last counted down.
pub struct Sampler {
    remaining: i64,
    last: Option<i64>,
}

/// The value of a `Sampler`.
#[verifier::ext_equal]
pub struct SamplerView {
    pub remaining: int,
    pub last: Option<int>,
}

/// A time held within the 64-bit range.
pub open spec fn held(v: int) -> int {
    if v < i64::MIN {
        i64::MIN as int
    } else if v > i64::MAX {
        i64::MAX as int
    } else {
        v
    }
}

fn hold(v: i128) -> (r: i64)
    ensures
        r == held(v as int),
{
    if v < i64::MIN as i128 {
        i64::MIN
    } else if v > i64::MAX as i128 {
        i64::MAX
    } else {
        v as i64
    }
}

impl View for Sampler {
    type V = SamplerView;

    closed spec fn view(&self) -> SamplerView {
        SamplerView {
            remaining: self.remaining as int,
            last: match self.last {
                Some(t) => Some(t as int),
                None => None,
            },
        }
    }
}

impl SamplerView {
    /// What is still to come at `now`: the time since the last count is off,
    /// but never more than there was.
    pub open spec fn left_at(self, now: int) -> int {
        match self.last {
            None => self.remaining,
            Some(t) => if self.remaining - (now - t) > 0 {
                held(self.remaining - (now - t))
            } else {
                0
            },
        }
    }

    /// Up to when deltas belong to this tick.
    pub open spec fn threshold_at(self, now: int) -> int {
        held(now - self.left_at(now))
    }
}

impl Sampler {
    /// Nothing is to come, and nothing was counted down.
    pub fn new() -> (r: Sampler)
        ensures
            r@ == (SamplerView { remaining: 0, last: None }),
    {
        Sampler { remaining: 0, last: None }
    }

    /// A tick on Linux: its whole sample is to come.
    pub fn begin_tick(&mut self, sample: i64)
        ensures
            final(self)@ == (SamplerView { remaining: sample as int, last: old(self)@.last }),
    {
        self.remaining = sample;
    }

    /// A tick on Windows: its whole sample is to come, counted from `now`. A
    /// negative sample is none.
    pub fn begin_sample(&mut self, sample: i64, now: i64)
        ensures
            final(self)@ == (SamplerView {
                remaining: if sample > 0 {
                    sample as int
                } else {
                    0
                },
                last: Some(now as int),
            }),
    {
        self.remaining = if sample > 0 {
            sample
        } else {
            0
        };
        self.last = Some(now);
    }

    /// Counts down to `now`, and tells up to when deltas belong to this tick.
    pub fn threshold(&mut self, now: i64) -> (r: i64)
        ensures
            r == old(self)@.threshold_at(now as int),
            final(self)@ == (SamplerView {
                remaining: old(self)@.left_at(now as int),
                last: Some(now as int),
            }),
    {
        match self.last {
            None => {},
            Some(t) => {
                let left: i128 = self.remaining as i128 - (now as i128 - t as i128);
                self.remaining = if left > 0 {
                    hold(left)
                } else {
                    0
                };
            },
        }
        self.last = Some(now);
        hold(now as i128 - self.remaining as i128)
    }
}

/// A serve never reaches into the future, and once the tick's sample has passed
/// it reaches up to now: whatever was recorded by then is served.
pub proof fn a_tick_is_served_in_full(s: SamplerView, now: i64)
    requires
        s.remaining >= 0,
    ensures
        s.threshold_at(now as int) <= now,
        s.last matches Some(t) ==> (now - t >= s.remaining ==> s.threshold_at(now as int) == now),
{
}

/// What is served is the movement: nothing for no delta, and each further
/// delta adds what it says, whichever way it goes.
pub proof fn every_delta_counts(q: Seq<Delta>, d: Delta)
    ensures
        total(Seq::empty()) == (0int, 0int),
        total(q.push(d)).0 == total(q).0 + d.x,
        total(q.push(d)).1 == total(q).1 + d.y,
        total(seq![d]) == (d.x as int, d.y as int),
{
    assert(q.push(d).drop_last() =~= q);
    assert(seq![d].drop_last() =~= Seq::empty());
    assert(total(seq![d]).0 == total(seq![d].drop_last()).0 + d.x);
}

/// No sum of the first deltas leaves the 32-bit range.
pub open spec fn sums_fit(q: Seq<Delta>) -> bool {
    forall|n: int|
        0 <= n <= q.len() ==> -0x8000_0000 <= (#[trigger] total(q.take(n))).0 <= 0x7fff_ffff
            && -0x8000_0000 <= total(q.take(n)).1 <= 0x7fff_ffff
}

/// What Windows serves is the plain sum of the deltas, wherever that fits all
/// the way.
pub proof fn saturated_is_the_sum(q: Seq<Delta>)
    requires
        sums_fit(q),
    ensures
        saturated(q) == total(q),
    decreases q.len(),
{
    if q.len() > 0 {
        let fewer = q.drop_last();
        assert forall|n: int| 0 <= n <= fewer.len() implies -0x8000_0000 <= (#[trigger] total(
            fewer.take(n),
        )).0 <= 0x7fff_ffff && -0x8000_0000 <= total(fewer.take(n)).1 <= 0x7fff_ffff by {
            assert(fewer.take(n) =~= q.take(n));
        }
        saturated_is_the_sum(fewer);
        assert(q.take(q.len() as int) =~= q);
        assert(total(q.take(q.len() as int)) == total(q));
    }
}

/// Where movement in one direction does not fit, Windows serves the end of the
/// range, and never a value beyond it.
pub proof fn saturated_stops_at_the_end(q: Seq<Delta>)
    ensures
        -0x8000_0000 <= saturated(q).0 <= 0x7fff_ffff,
        -0x8000_0000 <= saturated(q).1 <= 0x7fff_ffff,
        (forall|i: int| 0 <= i < q.len() ==> (#[trigger] q[i]).x >= 0) ==> saturated(q).0 == if total(
            q,
        ).0 > 0x7fff_ffff {
            0x7fff_ffff
        } else {
            total(q).0
        },
        (forall|i: int| 0 <= i < q.len() ==> (#[trigger] q[i]).x <= 0) ==> saturated(q).0 == if total(
            q,
        ).0 < -0x8000_0000 {
            -0x8000_0000
        } else {
            total(q).0
        },
        (forall|i: int| 0 <= i < q.len() ==> (#[trigger] q[i]).y >= 0) ==> saturated(q).1 == if total(
            q,
        ).1 > 0x7fff_ffff {
            0x7fff_ffff
        } else {
            total(q).1
        },
        (forall|i: int| 0 <= i < q.len() ==> (#[trigger] q[i]).y <= 0) ==> saturated(q).1 == if total(
            q,
        ).1 < -0x8000_0000 {
            -0x8000_0000
        } else {
            total(q).1
        },
    decreases q.len(),
{
    if q.len() > 0 {
        let fewer = q.drop_last();
        saturated_stops_at_the_end(fewer);
        assert(forall|i: int| 0 <= i < fewer.len() ==> fewer[i] == #[trigger] q[i]);
        assert(q.last() == q[q.len() - 1]);
    }
}

/// A tick gets exactly the deltas up to its threshold: those before the first
/// later one. With timestamps in order those are all that were seen by then.
pub proof fn a_tick_gets_its_deltas(q: Seq<Delta>, t: i64, n: int)
    requires
        0 <= n <= q.len(),
        forall|i: int| 0 <= i < n ==> (#[trigger] q[i]).time <= t,
        n < q.len() ==> q[n].time > t,
    ensures
        due(q, Some(t)) == q.take(n),
        kept(q, Some(t)) == q.skip(n),
{
    due_len_bound(q, Some(t));
    let m = due_len(q, Some(t)) as int;
    if m < n {
        assert(q[m].time <= t);
    }
    if m > n {
        assert(is_due(q[n], Some(t)));
    }
}

/// What one tick leaves the next one gets: serving up to a threshold and then
/// up to a later one gives together what serving up to the later one gives.
pub proof fn ticks_share_the_movement(q: Seq<Delta>, a: i64, b: i64)
    requires
        a <= b,
    ensures
        due(q, Some(a)) + due(kept(q, Some(a)), Some(b)) == due(q, Some(b)),
        kept(kept(q, Some(a)), Some(b)) == kept(q, Some(b)),
{
    due_len_bound(q, Some(a));
    due_len_bound(q, Some(b));
    let n = due_len(q, Some(a)) as int;
    let m = due_len(q, Some(b)) as int;
    if m < n {
        assert(is_due(q[m], Some(a)));
    }
    let rest = q.skip(n);
    assert forall|i: int| 0 <= i < m - n implies (#[trigger] rest[i]).time <= b by {
        assert(is_due(q[n + i], Some(b)));
    }
    if m < q.len() {
        assert(rest[m - n] == q[m]);
    }
    a_tick_gets_its_deltas(rest, b, m - n);
    assert(q.take(n) + rest.take(m - n) =~= q.take(m));
    assert(rest.skip(m - n) =~= q.skip(m));
}

/// How the threshold moves through a tick: a time into the tick's sample that
/// is not over, it stays behind by what is still to come; and the count goes on
/// from there, so that a look in between changes nothing.
pub proof fn threshold_follows_the_sample(s: SamplerView, now: int, later: int)
    requires
        0 <= s.remaining <= 0x3fff_ffff_ffff_ffff,
        s.last is Some,
        0 <= s.last->0 <= now <= later <= 0x3fff_ffff_ffff_ffff,
    ensures
        now - s.last->0 < s.remaining ==> s.threshold_at(now) == now - (s.remaining - (now
            - s.last->0)),
        now - s.last->0 >= s.remaining ==> s.threshold_at(now) == now,
        s.threshold_at(s.last->0) == s.last->0 - s.remaining,
        s.threshold_at(now) <= s.threshold_at(later),
        (SamplerView { remaining: s.left_at(now), last: Some(now) }).threshold_at(later)
            == s.threshold_at(later),
{
}

/// Before anything was counted the whole sample is still to come.
pub proof fn first_threshold_waits_for_the_sample(s: SamplerView, now: int)
    requires
        0 <= s.remaining <= 0x3fff_ffff_ffff_ffff,
        s.last is None,
        0 <= now <= 0x3fff_ffff_ffff_ffff,
    ensures
        s.threshold_at(now) == now - s.remaining,
{
}

/// Until the variable is found the mode is the game's own, and the raw-input
/// message is the system's.
pub proof fn the_default_is_the_games_own()
    ensures
        DEFAULT_MODE == 1,
        WM_INPUT == 255,
        CAPACITY == 1024,
{
}

} // verus!
