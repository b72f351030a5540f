//! The normal distribution, cut off below zero by drawing again.
use vstd::prelude::*;
use crate::decimal::{Decimal, Delay};
use crate::distributions::{Distribution, VariateSource};

verus! {

/// How often a sample is drawn before it is given up.
pub const MAX_DRAWS: usize = 10;

/// The normal distribution with a mean and a deviation in milliseconds.
#[derive(Debug, Clone, Copy)]
pub struct NormalDistribution {
    mean_ms: Decimal,
    stddev_ms: Decimal,
}

/// Whether a draw can be used: it is a number and not negative.
pub open spec fn usable(draw: Option<Decimal>) -> bool {
    draw is Some && draw->0.raw >= 0
}

/// The sample that a run of draws settles on: the first draw that can be
/// used, and zero where none can.
pub open spec fn first_usable(draws: Seq<Option<Decimal>>) -> int
    decreases draws.len(),
{
    if draws.len() == 0 {
        0
    } else if usable(draws[0]) {
        draws[0]->0.raw as int
    } else {
        first_usable(draws.drop_first())
    }
}

/// Whether `run` is a run of draws that one sample can make: draws of the
/// source, at least one and at most ten, of which none before the last can
/// be used. A run ends on its first usable draw; one that ends on a draw
/// that cannot be used has all ten.
pub open spec fn is_run<S: VariateSource>(
    mean_ms: Decimal,
    stddev_ms: Decimal,
    source: &S,
    run: Seq<Option<Decimal>>,
) -> bool {
    &&& 1 <= run.len() <= 10
    &&& forall|i: int|
        0 <= i < run.len() ==> source.yields_normal(mean_ms, stddev_ms, #[trigger] run[i])
    &&& forall|i: int| 0 <= i < run.len() - 1 ==> !usable(#[trigger] run[i])
    &&& usable(run.last()) || run.len() == 10
}

/// Whether a sample of the normal distribution can be `delay`: it is what
/// a run of draws of the source settles on. So it is the first usable draw
/// of at most ten, and zero only after ten draws that cannot be used.
pub open spec fn normal_may_yield<S: VariateSource>(
    mean_ms: Decimal,
    stddev_ms: Decimal,
    source: &S,
    delay: Delay,
) -> bool {
    exists|run: Seq<Option<Decimal>>| #[trigger]
        is_run(mean_ms, stddev_ms, source, run) && delay.nanos == first_usable(run)
}

/// A run of draws that cannot be used, and one more draw, settle on that
/// draw where it can be used, and on zero where it cannot.
pub proof fn lemma_first_usable_at_end(wasted: Seq<Option<Decimal>>, draw: Option<Decimal>)
    requires
        forall|i: int| 0 <= i < wasted.len() ==> !usable(#[trigger] wasted[i]),
    ensures
        first_usable(wasted.push(draw)) == (if usable(draw) {
            draw->0.raw as int
        } else {
            0
        }),
    decreases wasted.len(),
{
    let run = wasted.push(draw);
    if wasted.len() == 0 {
        assert(run[0] == draw);
        assert(run.drop_first() =~= Seq::<Option<Decimal>>::empty());
        assert(first_usable(run.drop_first()) == 0);
    } else {
        assert(run[0] == wasted[0]);
        assert(run.drop_first() =~= wasted.drop_first().push(draw));
        assert forall|i: int| 0 <= i < wasted.drop_first().len() implies !usable(
            #[trigger] wasted.drop_first()[i],
        ) by {
            assert(wasted.drop_first()[i] == wasted[i + 1]);
        }
        lemma_first_usable_at_end(wasted.drop_first(), draw);
        assert(!usable(wasted[0]));
    }
}

impl NormalDistribution {
    /// The mean of the distribution.
    pub closed spec fn mean(&self) -> Decimal {
        self.mean_ms
    }

    /// The deviation of the distribution.
    pub closed spec fn stddev(&self) -> Decimal {
        self.stddev_ms
    }

    /// The distribution with the given mean and deviation.
    pub fn new(mean_ms: Decimal, stddev_ms: Decimal) -> (dist: NormalDistribution)
        ensures
            dist.mean() == mean_ms,
            dist.stddev() == stddev_ms,
    {
        NormalDistribution { mean_ms, stddev_ms }
    }

    /// The sample that one draw gives, if it can be used.
    pub fn accept(draw: Option<Decimal>) -> (delay: Option<Delay>)
        ensures
            usable(draw) ==> delay is Some && delay->0.nanos == draw->0.raw,
            !usable(draw) ==> delay is None,
    {
        match draw {
            Some(value) => if value.raw >= 0 {
                Some(value.as_delay())
            } else {
                None
            },
            None => None,
        }
    }

    /// The sample that a run of draws settles on.
    pub fn settle(draws: &Vec<Option<Decimal>>) -> (delay: Delay)
        ensures
            delay.nanos == first_usable(draws@),
    {
        let mut at: usize = 0;
        assert(draws@.skip(0) =~= draws@);
        while at < draws.len()
            invariant
                at <= draws@.len(),
                first_usable(draws@) == first_usable(draws@.skip(at as int)),
            decreases draws@.len() - at,
        {
            assert(draws@.skip(at as int)[0] == draws@[at as int]);
            assert(draws@.skip(at as int).drop_first() =~= draws@.skip(at + 1));
            if let Some(delay) = NormalDistribution::accept(draws[at]) {
                return delay;
            }
            at += 1;
        }
        Delay::zero()
    }
}

impl<S: VariateSource> Distribution<S> for NormalDistribution {
    open spec fn may_yield(&self, source: &S, delay: Delay) -> bool {
        normal_may_yield(self.mean(), self.stddev(), source, delay)
    }

    fn sample(&self, source: &S) -> (delay: Delay) {
        let mut attempt: usize = 0;
        let ghost mut wasted: Seq<Option<Decimal>> = Seq::empty();
        while attempt < MAX_DRAWS
            invariant
                attempt <= MAX_DRAWS,
                wasted.len() == attempt,
                forall|i: int|
                    0 <= i < wasted.len() ==> source.yields_normal(
                        self.mean(),
                        self.stddev(),
                        #[trigger] wasted[i],
                    ) && !usable(wasted[i]),
            decreases MAX_DRAWS - attempt,
        {
            let draw = source.normal(self.mean_ms, self.stddev_ms);
            let ghost run = wasted.push(draw);
            proof {
                lemma_first_usable_at_end(wasted, draw);
            }
            if let Some(delay) = NormalDistribution::accept(draw) {
                assert(is_run(self.mean(), self.stddev(), source, run));
                return delay;
            }
            proof {
                if attempt + 1 == MAX_DRAWS {
                    assert(is_run(self.mean(), self.stddev(), source, run));
                }
                wasted = run;
            }
            attempt += 1;
        }
        assert(is_run(self.mean(), self.stddev(), source, wasted) && first_usable(wasted) == 0) by {
            lemma_first_usable_at_end(wasted.drop_last(), wasted.last());
            assert(wasted.drop_last().push(wasted.last()) =~= wasted);
        }
        Delay::zero()
    }
}

} // verus!
