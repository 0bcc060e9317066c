//! The hit aggregator as a state machine: it is handed one event at a time
//! (a hit, the window's timer, the end of input, the outcome of a store
//! write) and answers with the next thing to do.  Waiting, timing and the
//! store writes themselves are done by the caller.
use vstd::prelude::*;
use crate::window::{
    add_hit, count_of, counts_at_most, increments_view, lemma_add_hit, lemma_window_counts,
    well_formed_counts, window_of,
    Counts, Increment, Window,
};

verus! {

/// Where the aggregator stands.
#[derive(Clone, Copy, PartialEq, Eq, Structural, Debug)]
pub enum Phase {
    /// No window is open; waiting for the first hit of the next one.
    Idle,
    /// A window is open and collects hits until its deadline.
    Collecting,
    /// A closed window's increments are being written, one at a time.
    Flushing,
    /// Input has ended and the last window has been written.
    Stopped,
}

/// What the caller hands to the aggregator.
pub enum HitEvent {
    /// A visit of `key`, received at time `now` (milliseconds).
    Hit { key: String, now: u64 },
    /// The wait for the window's deadline ended at time `now`.
    TimerElapsed { now: u64 },
    /// The channel reported that no more hits will come.
    ChannelClosed,
    /// The store write that was asked for has finished, well or not.
    WriteDone { ok: bool },
}

/// What the aggregator asks the caller to do next.
pub enum HitAction {
    /// Wait, with no time limit, for the next hit or the end of input.
    Receive,
    /// Wait for the next hit or the end of input, but no later than `deadline`.
    ReceiveUntil { deadline: u64 },
    /// Add `amount` to the hit counter of `key` in the store, then report it.
    Write { key: String, amount: u64 },
    /// Nothing is left to do.
    Stop,
}

/// An event in mathematical terms.
pub enum HitEventModel {
    Hit(Seq<char>, nat),
    TimerElapsed(nat),
    ChannelClosed,
    WriteDone(bool),
}

/// An action in mathematical terms.
pub enum HitActionModel {
    Receive,
    ReceiveUntil(nat),
    Write(Seq<char>, nat),
    Stop,
}

impl View for HitEvent {
    type V = HitEventModel;

    open spec fn view(&self) -> HitEventModel {
        match self {
            HitEvent::Hit { key, now } => HitEventModel::Hit(key@, *now as nat),
            HitEvent::TimerElapsed { now } => HitEventModel::TimerElapsed(*now as nat),
            HitEvent::ChannelClosed => HitEventModel::ChannelClosed,
            HitEvent::WriteDone { ok } => HitEventModel::WriteDone(*ok),
        }
    }
}

impl View for HitAction {
    type V = HitActionModel;

    open spec fn view(&self) -> HitActionModel {
        match self {
            HitAction::Receive => HitActionModel::Receive,
            HitAction::ReceiveUntil { deadline } => HitActionModel::ReceiveUntil(*deadline as nat),
            HitAction::Write { key, amount } => HitActionModel::Write(key@, *amount as nat),
            HitAction::Stop => HitActionModel::Stop,
        }
    }
}

/// The aggregator's state in mathematical terms.
pub struct TrackerModel {
    pub phase: Phase,
    /// Counts of the open window.
    pub window: Counts,
    /// Hits taken into the open window.
    pub hits: nat,
    /// When the open window's first hit came.
    pub opened_at: nat,
    /// When the open window closes at the latest.
    pub deadline: nat,
    /// The window's length.
    pub period: nat,
    /// The increments of the window being flushed, in the order of the writes.
    pub pending: Counts,
    /// The index in `pending` of the write in flight.
    pub next: nat,
    /// Whether input has ended, so that the flush in progress is the last.
    pub closing: bool,
}

/// `now + period`, held at the largest time that fits.
pub open spec fn deadline_after(now: nat, period: nat) -> nat {
    if now + period <= u64::MAX {
        now + period
    } else {
        u64::MAX as nat
    }
}

/// What holds of every state the aggregator reaches.
pub open spec fn tracker_inv(s: TrackerModel) -> bool {
    &&& well_formed_counts(s.window)
    &&& counts_at_most(s.window, s.hits)
    &&& s.window.len() <= s.hits <= u64::MAX
    &&& (s.hits == 0 <==> s.window.len() == 0)
    &&& s.period <= u64::MAX
    &&& s.deadline == deadline_after(s.opened_at, s.period)
    &&& well_formed_counts(s.pending)
    &&& match s.phase {
        Phase::Idle => s.hits == 0 && s.pending.len() == 0 && !s.closing,
        Phase::Collecting => s.hits > 0 && s.pending.len() == 0 && !s.closing,
        Phase::Flushing => s.next < s.pending.len() && (s.closing ==> s.hits == 0),
        Phase::Stopped => s.hits == 0 && s.pending.len() == 0,
    }
}

/// The aggregator before any event: idle, with windows of `period`.
pub open spec fn initial(period: nat) -> TrackerModel {
    TrackerModel {
        phase: Phase::Idle,
        window: Seq::empty(),
        hits: 0,
        opened_at: 0,
        deadline: deadline_after(0, period),
        period,
        pending: Seq::empty(),
        next: 0,
        closing: false,
    }
}

/// Which events the aggregator expects in each phase.
pub open spec fn accepts(s: TrackerModel, ev: HitEventModel) -> bool {
    match s.phase {
        Phase::Idle => ev is Hit || ev is ChannelClosed,
        Phase::Collecting => !(ev is WriteDone),
        Phase::Flushing => ev is WriteDone,
        Phase::Stopped => false,
    }
}

/// A new window whose first hit is `k` at time `now`.
pub open spec fn open_window(s: TrackerModel, k: Seq<char>, now: nat) -> TrackerModel {
    TrackerModel {
        window: seq![(k, 1nat)],
        hits: 1,
        opened_at: now,
        deadline: deadline_after(now, s.period),
        ..s
    }
}

/// The open window closes: its counts become the writes to make.
pub open spec fn close_window(s: TrackerModel, closing: bool) -> TrackerModel {
    TrackerModel {
        phase: Phase::Flushing,
        window: Seq::empty(),
        hits: 0,
        pending: s.window,
        next: 0,
        closing,
        ..s
    }
}

/// The write of the increment at `next`.
pub open spec fn write_of(s: TrackerModel) -> HitActionModel {
    HitActionModel::Write(s.pending[s.next as int].0, s.pending[s.next as int].1)
}

/// The state and action that follow `ev` in state `s`.
pub open spec fn tracker_next(s: TrackerModel, ev: HitEventModel) -> (TrackerModel, HitActionModel) {
    match ev {
        HitEventModel::Hit(k, now) => {
            if s.phase == Phase::Idle {
                let t = TrackerModel { phase: Phase::Collecting, ..open_window(s, k, now) };
                (t, HitActionModel::ReceiveUntil(t.deadline))
            } else if now < s.deadline && s.hits < u64::MAX {
                let t = TrackerModel { window: add_hit(s.window, k), hits: s.hits + 1, ..s };
                (t, HitActionModel::ReceiveUntil(s.deadline))
            } else {
                let t = open_window(close_window(s, false), k, now);
                (t, write_of(t))
            }
        },
        HitEventModel::TimerElapsed(now) => {
            if now < s.deadline {
                (s, HitActionModel::ReceiveUntil(s.deadline))
            } else {
                let t = close_window(s, false);
                (t, write_of(t))
            }
        },
        HitEventModel::ChannelClosed => {
            if s.phase == Phase::Idle {
                (TrackerModel { phase: Phase::Stopped, ..s }, HitActionModel::Stop)
            } else {
                let t = close_window(s, true);
                (t, write_of(t))
            }
        },
        HitEventModel::WriteDone(_) => {
            if s.next + 1 < s.pending.len() {
                let t = TrackerModel { next: s.next + 1, ..s };
                (t, write_of(t))
            } else {
                let t = TrackerModel { pending: Seq::empty(), next: 0, ..s };
                if s.closing {
                    (TrackerModel { phase: Phase::Stopped, ..t }, HitActionModel::Stop)
                } else if s.hits > 0 {
                    (TrackerModel { phase: Phase::Collecting, ..t }, HitActionModel::ReceiveUntil(s.deadline))
                } else {
                    (TrackerModel { phase: Phase::Idle, ..t }, HitActionModel::Receive)
                }
            }
        },
    }
}

/// The batching aggregator: coalesces hits per key over a window of fixed
/// length, then asks for one store write per key, one after the other.
pub struct HitAggregator {
    phase: Phase,
    window: Window,
    hits: u64,
    opened_at: u64,
    deadline: u64,
    period: u64,
    pending: Vec<Increment>,
    next: usize,
    closing: bool,
}

impl View for HitAggregator {
    type V = TrackerModel;

    closed spec fn view(&self) -> TrackerModel {
        TrackerModel {
            phase: self.phase,
            window: self.window@,
            hits: self.hits as nat,
            opened_at: self.opened_at as nat,
            deadline: self.deadline as nat,
            period: self.period as nat,
            pending: increments_view(self.pending@),
            next: self.next as nat,
            closing: self.closing,
        }
    }
}

impl HitAggregator {
    /// The state is well formed: the window's own invariant and the
    /// aggregator's.
    pub closed spec fn wf(&self) -> bool {
        &&& self.window.wf()
        &&& tracker_inv(self@)
    }

    /// An idle aggregator whose windows last `period` milliseconds.
    pub fn new(period: u64) -> (r: HitAggregator)
        ensures
            r.wf(),
            r@ == initial(period as nat),
    {
        let r = HitAggregator {
            phase: Phase::Idle,
            window: Window::new(),
            hits: 0,
            opened_at: 0,
            deadline: period,
            period,
            pending: Vec::new(),
            next: 0,
            closing: false,
        };
        assert(increments_view(r.pending@) =~= Seq::<(Seq<char>, nat)>::empty());
        r
    }

    /// The current phase.
    pub fn phase(&self) -> (r: Phase)
        ensures
            r == self@.phase,
    {
        self.phase
    }

    /// Whether `ev` is an event that the aggregator expects now.
    pub fn accepts(&self, ev: &HitEvent) -> (r: bool)
        ensures
            r == accepts(self@, ev@),
    {
        match self.phase {
            Phase::Idle => matches!(ev, HitEvent::Hit { .. } | HitEvent::ChannelClosed),
            Phase::Collecting => !matches!(ev, HitEvent::WriteDone { .. }),
            Phase::Flushing => matches!(ev, HitEvent::WriteDone { .. }),
            Phase::Stopped => false,
        }
    }

    fn deadline_from(&self, now: u64) -> (r: u64)
        ensures
            r == deadline_after(now as nat, self.period as nat),
    {
        if now <= u64::MAX - self.period {
            now + self.period
        } else {
            u64::MAX
        }
    }

    fn start_window(&mut self, key: String, now: u64)
        requires
            old(self).hits == 0,
            old(self)@.window.len() == 0,
            old(self).period <= u64::MAX,
        ensures
            final(self).window.wf(),
            final(self)@ == open_window(old(self)@, key@, now as nat),
    {
        let ghost k = key@;
        let mut w = Window::new();
        proof {
            assert(count_of(w@, k) == 0);
        }
        w.record(key);
        assert(w@ =~= seq![(k, 1nat)]);
        self.window = w;
        self.hits = 1;
        self.opened_at = now;
        self.deadline = self.deadline_from(now);
    }

    fn close_window(&mut self, closing: bool)
        requires
            old(self).window.wf(),
        ensures
            final(self).window.wf(),
            final(self)@ == close_window(old(self)@, closing),
    {
        self.pending = self.window.increments();
        self.next = 0;
        self.window = Window::new();
        self.hits = 0;
        self.closing = closing;
        self.phase = Phase::Flushing;
    }

    fn write_action(&self) -> (r: HitAction)
        requires
            self@.next < self@.pending.len(),
        ensures
            r@ == write_of(self@),
    {
        let inc = &self.pending[self.next];
        HitAction::Write { key: inc.key.clone(), amount: inc.amount }
    }

    /// Takes one event and returns what to do next.
    pub fn step(&mut self, ev: HitEvent) -> (r: HitAction)
        requires
            old(self).wf(),
            accepts(old(self)@, ev@),
        ensures
            final(self).wf(),
            (final(self)@, r@) == tracker_next(old(self)@, ev@),
    {
        match ev {
            HitEvent::Hit { key, now } => {
                if self.phase == Phase::Idle {
                    self.start_window(key, now);
                    self.phase = Phase::Collecting;
                    HitAction::ReceiveUntil { deadline: self.deadline }
                } else if now < self.deadline && self.hits < u64::MAX {
                    proof {
                        lemma_add_hit(self.window@, key@);
                        lemma_count_bounded(self.window@, key@, self.hits as nat);
                    }
                    self.window.record(key);
                    self.hits = self.hits + 1;
                    HitAction::ReceiveUntil { deadline: self.deadline }
                } else {
                    self.close_window(false);
                    self.start_window(key, now);
                    self.write_action()
                }
            },
            HitEvent::TimerElapsed { now } => {
                if now < self.deadline {
                    HitAction::ReceiveUntil { deadline: self.deadline }
                } else {
                    self.close_window(false);
                    self.write_action()
                }
            },
            HitEvent::ChannelClosed => {
                if self.phase == Phase::Idle {
                    self.phase = Phase::Stopped;
                    HitAction::Stop
                } else {
                    self.close_window(true);
                    self.write_action()
                }
            },
            HitEvent::WriteDone { ok: _ } => {
                assert(increments_view(self.pending@).len() == self.pending@.len());
                let len = self.pending.len();
                if self.next + 1 < len {
                    self.next = self.next + 1;
                    self.write_action()
                } else {
                    self.pending = Vec::new();
                    self.next = 0;
                    assert(increments_view(self.pending@) =~= Seq::<(Seq<char>, nat)>::empty());
                    if self.closing {
                        self.phase = Phase::Stopped;
                        HitAction::Stop
                    } else if self.hits > 0 {
                        self.phase = Phase::Collecting;
                        HitAction::ReceiveUntil { deadline: self.deadline }
                    } else {
                        self.phase = Phase::Idle;
                        HitAction::Receive
                    }
                }
            },
        }
    }
}

/// The state after the events `evs`, one after the other.
pub open spec fn run(s: TrackerModel, evs: Seq<HitEventModel>) -> TrackerModel
    decreases evs.len(),
{
    if evs.len() == 0 {
        s
    } else {
        tracker_next(run(s, evs.drop_last()), evs.last()).0
    }
}

/// The hits of keys `ks` received at times `ts`.
pub open spec fn hits_at(ks: Seq<Seq<char>>, ts: Seq<nat>) -> Seq<HitEventModel> {
    Seq::new(ks.len(), |i: int| HitEventModel::Hit(ks[i], ts[i]))
}

/// Reports of finished writes, with the outcomes `oks`.
pub open spec fn writes_done(oks: Seq<bool>) -> Seq<HitEventModel> {
    Seq::new(oks.len(), |i: int| HitEventModel::WriteDone(oks[i]))
}

/// Every event that the aggregator accepts keeps its invariant.
pub proof fn lemma_next_keeps_inv(s: TrackerModel, ev: HitEventModel)
    requires
        tracker_inv(s),
        accepts(s, ev),
    ensures
        tracker_inv(tracker_next(s, ev).0),
{
    match ev {
        HitEventModel::Hit(k, now) => {
            lemma_add_hit(s.window, k);
            lemma_single(k);
            if s.phase == Phase::Collecting && now < s.deadline && s.hits < u64::MAX {
                let t = tracker_next(s, ev).0;
                assert(t.window == add_hit(s.window, k));
                assert(counts_at_most(t.window, t.hits));
                assert(t.window.len() <= t.hits);
            }
        },
        _ => {},
    }
}

/// Hits that all come before the deadline that the first of them set are
/// coalesced into one open window: its counts are those of the keys in the
/// order received, however many times each key comes.
pub proof fn lemma_hits_collect(s: TrackerModel, ks: Seq<Seq<char>>, ts: Seq<nat>)
    requires
        tracker_inv(s),
        s.phase == Phase::Idle,
        ks.len() == ts.len(),
        1 <= ks.len() <= u64::MAX,
        forall|i: int| 1 <= i < ts.len() ==> #[trigger] ts[i] < deadline_after(ts[0], s.period),
    ensures
        tracker_inv(run(s, hits_at(ks, ts))),
        run(s, hits_at(ks, ts)).phase == Phase::Collecting,
        run(s, hits_at(ks, ts)).window == window_of(ks),
        run(s, hits_at(ks, ts)).hits == ks.len(),
        run(s, hits_at(ks, ts)).opened_at == ts[0],
        run(s, hits_at(ks, ts)).deadline == deadline_after(ts[0], s.period),
    decreases ks.len(),
{
    let evs = hits_at(ks, ts);
    let n = ks.len();
    lemma_window_counts(ks);
    if n == 1 {
        assert(evs.drop_last() =~= Seq::<HitEventModel>::empty());
        assert(ks.drop_last() =~= Seq::<Seq<char>>::empty());
        assert(run(s, evs.drop_last()) == s);
        assert(evs.last() == HitEventModel::Hit(ks[0], ts[0]));
        assert(window_of(ks) == add_hit(window_of(ks.drop_last()), ks[0]));
        lemma_single(ks[0]);
        lemma_next_keeps_inv(s, evs.last());
    } else {
        let pk = ks.drop_last();
        let pt = ts.drop_last();
        assert(evs.drop_last() =~= hits_at(pk, pt));
        assert forall|i: int| 1 <= i < pt.len() implies #[trigger] pt[i] < deadline_after(pt[0], s.period) by {
            assert(pt[i] == ts[i]);
        }
        lemma_hits_collect(s, pk, pt);
        let p = run(s, hits_at(pk, pt));
        lemma_window_counts(pk);
        assert(evs.last() == HitEventModel::Hit(ks.last(), ts[n - 1]));
        lemma_next_keeps_inv(p, evs.last());
    }
}

/// Hits of one window, flushed when its timer fires or when input ends, give
/// for each key one write whose amount is the number of that key's hits, and
/// no write for a key that had none.
pub proof fn lemma_window_flush_counts(s: TrackerModel, ks: Seq<Seq<char>>, ts: Seq<nat>, now: nat, closed: bool)
    requires
        tracker_inv(s),
        s.phase == Phase::Idle,
        ks.len() == ts.len(),
        1 <= ks.len() <= u64::MAX,
        forall|i: int| 1 <= i < ts.len() ==> #[trigger] ts[i] < deadline_after(ts[0], s.period),
        !closed ==> now >= deadline_after(ts[0], s.period),
    ensures
        ({
            let c = run(s, hits_at(ks, ts));
            let ev = if closed { HitEventModel::ChannelClosed } else { HitEventModel::TimerElapsed(now) };
            let f = tracker_next(c, ev).0;
            &&& f.phase == Phase::Flushing
            &&& f.closing == closed
            &&& f.next == 0
            &&& f.pending == window_of(ks)
            &&& well_formed_counts(f.pending)
            &&& forall|k: Seq<char>| count_of(f.pending, k) == #[trigger] ks.to_multiset().count(k)
        }),
{
    lemma_hits_collect(s, ks, ts);
    lemma_window_counts(ks);
}

/// The timer closes a window no later than one period after its first hit:
/// the deadline is at most that far, once it has passed the counts go to the
/// store, and a hit at or after it is not counted in that window.
pub proof fn lemma_timer_closes(s: TrackerModel, now: nat, k: Seq<char>)
    requires
        tracker_inv(s),
        s.phase == Phase::Collecting,
        now >= s.deadline,
    ensures
        s.deadline <= s.opened_at + s.period,
        tracker_next(s, HitEventModel::TimerElapsed(now)).0 == close_window(s, false),
        tracker_next(s, HitEventModel::TimerElapsed(now)).1 == HitActionModel::Write(s.window[0].0, s.window[0].1),
        tracker_next(s, HitEventModel::Hit(k, now)).0.pending == s.window,
        tracker_next(s, HitEventModel::Hit(k, now)).0.window == seq![(k, 1nat)],
{
}

/// The end of input closes an open window at once, without waiting for its
/// deadline; the flush that follows is the last. With no window open the
/// aggregator stops with nothing to write.
pub proof fn lemma_close_flushes(s: TrackerModel)
    requires
        tracker_inv(s),
        s.phase == Phase::Idle || s.phase == Phase::Collecting,
    ensures
        s.phase == Phase::Idle ==> tracker_next(s, HitEventModel::ChannelClosed).0.phase == Phase::Stopped
            && tracker_next(s, HitEventModel::ChannelClosed).1 == HitActionModel::Stop,
        s.phase == Phase::Collecting ==> tracker_next(s, HitEventModel::ChannelClosed).0 == close_window(s, true)
            && tracker_next(s, HitEventModel::ChannelClosed).1 == HitActionModel::Write(s.window[0].0, s.window[0].1),
{
}

/// The last write of a flush ends it: after the final flush the aggregator
/// stops; otherwise it goes back to collecting or waiting, and never stops.
pub proof fn lemma_flush_ends(s: TrackerModel, ok: bool)
    requires
        tracker_inv(s),
        s.phase == Phase::Flushing,
        s.next + 1 == s.pending.len(),
    ensures
        s.closing ==> tracker_next(s, HitEventModel::WriteDone(ok)).0.phase == Phase::Stopped
            && tracker_next(s, HitEventModel::WriteDone(ok)).1 == HitActionModel::Stop,
        !s.closing ==> tracker_next(s, HitEventModel::WriteDone(ok)).0.phase != Phase::Stopped
            && tracker_next(s, HitEventModel::WriteDone(ok)).1 != HitActionModel::Stop,
{
}

/// A failed write changes nothing: the aggregator goes on exactly as after a
/// successful one.
pub proof fn lemma_write_outcome_ignored(s: TrackerModel)
    ensures
        tracker_next(s, HitEventModel::WriteDone(false)) == tracker_next(s, HitEventModel::WriteDone(true)),
{
}

/// Whatever the outcomes of the writes, a flush asks for every pending
/// increment in turn: after any `m` reports the write in flight is the one at
/// `next + m`.
pub proof fn lemma_flush_writes_all(s: TrackerModel, oks: Seq<bool>)
    requires
        tracker_inv(s),
        s.phase == Phase::Flushing,
        s.next + oks.len() < s.pending.len(),
    ensures
        tracker_inv(run(s, writes_done(oks))),
        run(s, writes_done(oks)) == (TrackerModel { next: s.next + oks.len(), ..s }),
    decreases oks.len(),
{
    if oks.len() > 0 {
        let p = oks.drop_last();
        assert(writes_done(oks).drop_last() =~= writes_done(p));
        lemma_flush_writes_all(s, p);
        lemma_next_keeps_inv(run(s, writes_done(p)), writes_done(oks).last());
    } else {
        assert(writes_done(oks) =~= Seq::<HitEventModel>::empty());
    }
}

/// The flush of a window writes each distinct key once, and no two writes
/// share a key: for each key the amount is the number of its hits.
pub proof fn lemma_flush_per_key(ks: Seq<Seq<char>>, a: Seq<char>, b: Seq<char>)
    requires
        ks.contains(a),
        ks.contains(b),
        a != b,
    ensures
        exists|i: int, j: int|
            0 <= i < window_of(ks).len() && 0 <= j < window_of(ks).len() && i != j
            && (#[trigger] window_of(ks)[i]) == (a, ks.to_multiset().count(a))
            && (#[trigger] window_of(ks)[j]) == (b, ks.to_multiset().count(b)),
{
    broadcast use vstd::seq_lib::group_to_multiset_ensures;

    let w = window_of(ks);
    lemma_window_counts(ks);
    assert(ks.to_multiset().count(a) > 0);
    assert(ks.to_multiset().count(b) > 0);
    assert(count_of(w, a) > 0);
    assert(count_of(w, b) > 0);
    let i = choose|i: int| 0 <= i < w.len() && (#[trigger] w[i]).0 == a;
    let j = choose|j: int| 0 <= j < w.len() && (#[trigger] w[j]).0 == b;
    assert(w[i] == (a, ks.to_multiset().count(a)));
    assert(w[j] == (b, ks.to_multiset().count(b)));
}

proof fn lemma_single(k: Seq<char>)
    ensures
        well_formed_counts(seq![(k, 1nat)]),
        counts_at_most(seq![(k, 1nat)], 1),
        add_hit(Seq::empty(), k) == seq![(k, 1nat)],
{
    assert(seq![(k, 1nat)][0] == (k, 1nat));
    assert(add_hit(Seq::empty(), k) =~= seq![(k, 1nat)]);
}

proof fn lemma_count_bounded(w: Counts, k: Seq<char>, bound: nat)
    requires
        counts_at_most(w, bound),
    ensures
        count_of(w, k) <= bound,
{
    if exists|i: int| 0 <= i < w.len() && (#[trigger] w[i]).0 == k {
        let i = choose|i: int| 0 <= i < w.len() && (#[trigger] w[i]).0 == k;
        assert(w[i].1 <= bound);
    }
}

} // verus!
