//! The bookkeeping behind a summary metric.
//!
//! A summary reports φ-quantiles over a sliding window of recent observations
//! together with a cumulative count and sum. The window is kept here as a
//! [`SampleWindow`]: observations carry the monotonic time (in nanoseconds)
//! at which they were made, those older than the window's age bound are
//! dropped from the front, and at most `max_size` of the most recent are kept.

use vstd::prelude::*;
use std::collections::VecDeque;
use crate::names::valid_metric_opts;
use crate::outside::{desc_text, new_desc};

verus! {

/// Default upper bound on the number of buffered observations.
pub const DEFAULT_MAX_SIZE: usize = 5000;

/// Default sliding window, in seconds.
pub const DEFAULT_MAX_AGE_SECS: u64 = 600;

/// An observation made at `t` has left the window at `now` when more than
/// `max_age` nanoseconds separate them. A clock reading earlier than `t`
/// counts as no time passed.
pub open spec fn expired(t: u64, now: u64, max_age: u64) -> bool {
    now > t && now - t > max_age
}

/// How many observations at the front of `samples` have left the window.
pub open spec fn leading_expired<T>(samples: Seq<(u64, T)>, now: u64, max_age: u64) -> nat
    decreases samples.len(),
{
    if samples.len() > 0 && expired(samples[0].0, now, max_age) {
        1 + leading_expired(samples.drop_first(), now, max_age)
    } else {
        0
    }
}

/// The window after trimming at `now`: the expired observations at its front
/// are dropped, then the oldest ones until at most `max_size` remain.
pub open spec fn trimmed<T>(samples: Seq<(u64, T)>, now: u64, max_age: u64, max_size: nat) -> Seq<
    (u64, T),
> {
    let fresh = samples.skip(leading_expired(samples, now, max_age) as int);
    if fresh.len() > max_size {
        fresh.skip(fresh.len() - max_size)
    } else {
        fresh
    }
}

/// The mathematical form of a [`SampleWindow`].
pub struct WindowView<T> {
    /// Buffered `(observed_at, value)` pairs, oldest first.
    pub samples: Seq<(u64, T)>,
    /// Every observation ever made.
    pub count: nat,
    pub max_age: u64,
    pub max_size: nat,
}

impl<T> WindowView<T> {
    pub open spec fn wf(self) -> bool {
        &&& self.max_size >= 1
        &&& self.samples.len() <= self.max_size
    }

    /// The window after observing `value` at `now`.
    pub open spec fn observed(self, now: u64, value: T) -> WindowView<T> {
        WindowView {
            samples: trimmed(self.samples.push((now, value)), now, self.max_age, self.max_size),
            count: self.count + 1,
            ..self
        }
    }
}

/// A sliding window of timestamped observations with a cumulative count.
pub struct SampleWindow<T> {
    samples: VecDeque<(u64, T)>,
    count: u64,
    max_age: u64,
    max_size: usize,
}

impl<T> View for SampleWindow<T> {
    type V = WindowView<T>;

    closed spec fn view(&self) -> WindowView<T> {
        WindowView {
            samples: self.samples@,
            count: self.count as nat,
            max_age: self.max_age,
            max_size: self.max_size as nat,
        }
    }
}

proof fn lemma_leading_expired_bound<T>(samples: Seq<(u64, T)>, now: u64, max_age: u64)
    ensures
        leading_expired(samples, now, max_age) <= samples.len(),
    decreases samples.len(),
{
    if samples.len() > 0 && expired(samples[0].0, now, max_age) {
        lemma_leading_expired_bound(samples.drop_first(), now, max_age);
    }
}

impl<T> SampleWindow<T> {
    /// The window's invariant: a size bound of at least one, never exceeded.
    #[verifier::type_invariant]
    pub open spec fn wf(&self) -> bool {
        self@.wf()
    }

    /// An empty window that drops observations older than `max_age`
    /// nanoseconds and keeps at most `max_size` of them (a bound of 0 is
    /// taken as 1).
    pub fn new(max_age: u64, max_size: usize) -> (w: Self)
        ensures
            w.wf(),
            w@ == (WindowView::<T> {
                samples: Seq::empty(),
                count: 0,
                max_age,
                max_size: if max_size == 0 { 1 } else { max_size as nat },
            }),
    {
        SampleWindow {
            samples: VecDeque::new(),
            count: 0,
            max_age,
            max_size: if max_size == 0 { 1 } else { max_size },
        }
    }

    /// Every observation made so far, including those no longer buffered.
    pub fn count(&self) -> (n: u64)
        ensures
            n == self@.count,
    {
        self.count
    }

    /// Number of buffered observations.
    pub fn len(&self) -> (n: usize)
        ensures
            n == self@.samples.len(),
    {
        self.samples.len()
    }

    /// Drops the observations that have left the window at `now` from the
    /// front, then the oldest ones beyond the size bound.
    pub fn trim(&mut self, now: u64)
        ensures
            final(self).wf(),
            final(self)@ == (WindowView {
                samples: trimmed(old(self)@.samples, now, old(self)@.max_age, old(self)@.max_size),
                ..old(self)@
            }),
    {
        proof {
            use_type_invariant(&*self);
        }
        let mut samples: VecDeque<(u64, T)> = VecDeque::new();
        std::mem::swap(&mut samples, &mut self.samples);
        trim_samples(&mut samples, now, self.max_age, self.max_size);
        self.samples = samples;
    }

    /// Records `value` observed at `now` and trims the window at `now`.
    pub fn observe(&mut self, now: u64, value: T)
        requires
            old(self)@.count < u64::MAX,
        ensures
            final(self).wf(),
            final(self)@ == old(self)@.observed(now, value),
    {
        proof {
            use_type_invariant(&*self);
        }
        let mut samples: VecDeque<(u64, T)> = VecDeque::new();
        std::mem::swap(&mut samples, &mut self.samples);
        samples.push_back((now, value));
        trim_samples(&mut samples, now, self.max_age, self.max_size);
        self.samples = samples;
        self.count = self.count + 1;
    }
}

/// Drops from the front of `samples` the observations that have left the
/// window at `now`, then the oldest ones until at most `max_size` remain.
fn trim_samples<T>(samples: &mut VecDeque<(u64, T)>, now: u64, max_age: u64, max_size: usize)
    requires
        max_size >= 1,
    ensures
        final(samples)@ == trimmed(old(samples)@, now, max_age, max_size as nat),
        final(samples)@.len() <= max_size,
{
    let ghost start = samples@;
    let ghost dropped: int = 0;
    loop
        invariant_except_break
            0 <= dropped <= start.len(),
            samples@ == start.skip(dropped),
            leading_expired(start, now, max_age) == dropped + leading_expired(
                samples@,
                now,
                max_age,
            ),
        ensures
            samples@ == start.skip(leading_expired(start, now, max_age) as int),
        decreases samples@.len(),
    {
        if samples.len() == 0 {
            break ;
        }
        let t = samples[0].0;
        if now > t && now - t > max_age {
            let ghost before = samples@;
            samples.pop_front();
            proof {
                assert(samples@ =~= before.drop_first());
                assert(start.skip(dropped + 1) =~= start.skip(dropped).drop_first());
                dropped = dropped + 1;
            }
        } else {
            break ;
        }
    }
    let ghost fresh = samples@;
    while samples.len() > max_size
        invariant
            max_size >= 1,
            samples@.len() <= fresh.len(),
            fresh.len() > max_size ==> samples@ =~= fresh.skip(fresh.len() - samples@.len())
                && samples@.len() >= max_size,
            fresh.len() <= max_size ==> samples@ == fresh,
        decreases samples@.len(),
    {
        let ghost before = samples@;
        samples.pop_front();
        proof {
            assert(samples@ =~= before.drop_first());
            if fresh.len() > max_size {
                assert(fresh.skip(fresh.len() - samples@.len()) =~= fresh.skip(
                    fresh.len() - before.len(),
                ).drop_first());
            }
        }
    }
    proof {
        if fresh.len() > max_size {
            assert(samples@.len() == max_size);
        }
    }
}

impl<T: Copy> SampleWindow<T> {
    /// Replaces the contents of `out` by the buffered values, oldest first,
    /// so that one buffer can be reused across calls.
    pub fn fill_values(&self, out: &mut Vec<T>)
        ensures
            final(out)@ == self@.samples.map_values(|p: (u64, T)| p.1),
    {
        out.clear();
        let n = self.samples.len();
        let mut i: usize = 0;
        while i < n
            invariant
                n == self@.samples.len(),
                0 <= i <= n,
                out@ == self@.samples.take(i as int).map_values(|p: (u64, T)| p.1),
            decreases n - i,
        {
            out.push(self.samples[i].1);
            proof {
                assert(self@.samples.take(i + 1).map_values(|p: (u64, T)| p.1) =~= self@.samples.take(
                    i as int,
                ).map_values(|p: (u64, T)| p.1).push(self@.samples[i as int].1));
            }
            i = i + 1;
        }
        proof {
            assert(self@.samples.take(n as int) =~= self@.samples);
        }
    }
}

/// The window after observing each `(time, value)` of `obs` in order.
pub open spec fn observe_all<T>(w: WindowView<T>, obs: Seq<(u64, T)>) -> WindowView<T>
    decreases obs.len(),
{
    if obs.len() == 0 {
        w
    } else {
        observe_all(w, obs.drop_last()).observed(obs.last().0, obs.last().1)
    }
}

/// `a` is what remains of `b` after dropping some of its oldest elements.
pub open spec fn is_suffix_of<A>(a: Seq<A>, b: Seq<A>) -> bool {
    a.len() <= b.len() && a == b.skip(b.len() - a.len())
}

proof fn lemma_trimmed_is_suffix<T>(samples: Seq<(u64, T)>, now: u64, max_age: u64, max_size: nat)
    requires
        max_size >= 1,
    ensures
        is_suffix_of(trimmed(samples, now, max_age, max_size), samples),
        trimmed(samples, now, max_age, max_size).len() <= max_size,
{
    lemma_leading_expired_bound(samples, now, max_age);
    let k = leading_expired(samples, now, max_age) as int;
    let fresh = samples.skip(k);
    let r = trimmed(samples, now, max_age, max_size);
    assert(r =~= samples.skip(samples.len() - r.len()));
}

/// Whatever is observed, the count goes up by one per observation, the
/// window never holds more than `max_size` observations, and what it holds
/// is the most recent part of everything observed.
pub proof fn law_window_keeps_recent<T>(w: WindowView<T>, obs: Seq<(u64, T)>)
    requires
        w.wf(),
    ensures
        observe_all(w, obs).wf(),
        observe_all(w, obs).count == w.count + obs.len(),
        observe_all(w, obs).max_age == w.max_age,
        observe_all(w, obs).max_size == w.max_size,
        is_suffix_of(observe_all(w, obs).samples, w.samples + obs),
    decreases obs.len(),
{
    if obs.len() > 0 {
        let front = obs.drop_last();
        let mid = observe_all(w, front);
        law_window_keeps_recent(w, front);
        let o = obs.last();
        let pushed = mid.samples.push(o);
        lemma_trimmed_is_suffix(pushed, o.0, w.max_age, w.max_size);
        let all = w.samples + obs;
        assert(w.samples + front =~= all.drop_last());
        assert(pushed =~= all.skip(all.len() - pushed.len()));
        let fin = observe_all(w, obs).samples;
        assert(fin == trimmed(pushed, o.0, w.max_age, w.max_size));
        assert(fin.len() <= pushed.len());
        assert(fin =~= all.skip(all.len() - fin.len()));
    } else {
        assert(w.samples + obs =~= w.samples);
        assert(w.samples.skip(0) =~= w.samples);
    }
}

/// Starting empty, when no observation is older than another by more than
/// the age bound, the window holds exactly the last `max_size` observations
/// (all of them while there are fewer).
pub proof fn law_window_holds_last_observations<T>(w: WindowView<T>, obs: Seq<(u64, T)>)
    requires
        w.wf(),
        w.samples.len() == 0,
        forall|i: int, j: int|
            0 <= i < obs.len() && 0 <= j < obs.len() ==> !expired(
                #[trigger] obs[i].0,
                #[trigger] obs[j].0,
                w.max_age,
            ),
    ensures
        observe_all(w, obs).samples == if obs.len() > w.max_size {
            obs.skip(obs.len() - w.max_size)
        } else {
            obs
        },
    decreases obs.len(),
{
    if obs.len() > 0 {
        let front = obs.drop_last();
        assert forall|i: int, j: int|
            0 <= i < front.len() && 0 <= j < front.len() implies !expired(
            #[trigger] front[i].0,
            #[trigger] front[j].0,
            w.max_age,
        ) by {
            assert(front[i] == obs[i]);
            assert(front[j] == obs[j]);
        }
        law_window_holds_last_observations(w, front);
        law_window_keeps_recent(w, front);
        let mid = observe_all(w, front);
        let o = obs.last();
        let pushed = mid.samples.push(o);
        let keep = if front.len() > w.max_size {
            front.len() - w.max_size
        } else {
            0
        };
        assert(pushed =~= obs.skip(keep));
        assert(leading_expired(pushed, o.0, w.max_age) == 0) by {
            assert(pushed[0] == obs[keep]);
            assert(!expired(obs[keep].0, obs[obs.len() - 1].0, w.max_age));
        }
        assert(pushed.skip(0) =~= pushed);
        assert(observe_all(w, obs) == mid.observed(o.0, o.1));
        let fin = observe_all(w, obs).samples;
        assert(fin == trimmed(pushed, o.0, w.max_age, w.max_size));
        assert(pushed.len() == obs.len() - keep);
        if obs.len() > w.max_size {
            assert(fin =~= obs.skip(obs.len() - w.max_size));
        } else {
            assert(fin =~= obs);
        }
    }
}

/// Index, in the sorted values of a non-empty window of `n`, of the
/// nearest-rank element of rank `rank` (1-based; rank 0 is taken as 1, and a
/// rank past `n` as `n`).
pub fn nearest_rank_index(n: usize, rank: usize) -> (idx: usize)
    requires
        n > 0,
    ensures
        idx == if rank == 0 {
            0
        } else if rank > n {
            (n - 1) as int
        } else {
            (rank - 1) as int
        },
{
    let below = if rank == 0 { 0 } else { rank - 1 };
    if below < n - 1 { below } else { n - 1 }
}

} // verus!

verus! {

/// The parts of a new summary named `name` with help text `help`: its
/// descriptor, as `prometheus` builds and checks it, carrying that name and
/// help text, and an empty window.
/// Fails exactly when `prometheus` rejects the name or the help text.
pub fn summary_parts<T>(name: String, help: String, max_age: u64, max_size: usize) -> (r: Result<
    (prometheus::core::Desc, SampleWindow<T>),
    prometheus::Error,
>)
    ensures
        r is Ok <==> valid_metric_opts(name@, help@),
        r matches Ok((d, _)) ==> desc_text(d) == (name@, help@),
        r matches Ok((_, w)) ==> w.wf() && w@ == (WindowView::<T> {
            samples: Seq::empty(),
            count: 0,
            max_age,
            max_size: if max_size == 0 { 1 } else { max_size as nat },
        }),
{
    match new_desc(name, help) {
        Ok(desc) => Ok((desc, SampleWindow::new(max_age, max_size))),
        Err(e) => Err(e),
    }
}

} // verus!
