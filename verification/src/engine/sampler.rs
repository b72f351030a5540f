//! The distribution sampler: one latency sample for a latency
//! configuration, with the overrides of the active window and burst.
use vstd::prelude::*;
use crate::config::schema::{
    DistributionParams, DistributionType, Endpoint, LatencyConfig, MixtureComponent,
};
use crate::decimal::{Decimal, Delay, SCALE};
use crate::distributions::exponential::{exponential_may_yield, ExponentialDistribution};
use crate::distributions::fixed::{fixed_may_yield, FixedDistribution};
use crate::distributions::log_normal::{log_normal_may_yield, LogNormalDistribution};
use crate::distributions::normal::{normal_may_yield, NormalDistribution};
use crate::distributions::uniform::{uniform_may_yield, UniformDistribution};
use crate::distributions::{Distribution, VariateSource};
use crate::engine::behavior::{
    active_burst, active_window, burst_factor, first_active_burst, first_active_window,
    window_factor, EndpointBehaviors,
};
use crate::random::{random_below, random_unit};

verus! {

/// Whether a sample of a distribution that is no mixture can be `delay`.
/// Parameters that do not fit the declared kind yield no delay at all.
pub open spec fn simple_may_yield<S: VariateSource>(
    distribution: DistributionType,
    params: DistributionParams,
    source: &S,
    delay: Delay,
) -> bool {
    match (distribution, params) {
        (DistributionType::Fixed, DistributionParams::Fixed { delay_ms }) => fixed_may_yield(
            delay_ms,
            delay,
        ),
        (
            DistributionType::Normal,
            DistributionParams::Normal { mean_ms, stddev_ms },
        ) => normal_may_yield(mean_ms, stddev_ms, source, delay),
        (
            DistributionType::Exponential,
            DistributionParams::Exponential { rate },
        ) => exponential_may_yield(rate, source, delay),
        (DistributionType::Uniform, DistributionParams::Uniform { min_ms, max_ms }) => {
            uniform_may_yield(min_ms.raw as int, max_ms.raw as int, delay)
        },
        (
            DistributionType::LogNormal,
            DistributionParams::LogNormal { mean_ms, stddev_ms },
        ) => log_normal_may_yield(mean_ms, stddev_ms, source, delay),
        _ => delay.nanos == 0,
    }
}

fn sample_simple<S: VariateSource>(
    distribution: &DistributionType,
    params: &DistributionParams,
    source: &S,
) -> (delay: Delay)
    ensures
        simple_may_yield(*distribution, *params, source, delay),
{
    match (distribution, params) {
        (DistributionType::Fixed, DistributionParams::Fixed { delay_ms }) => {
            FixedDistribution::new(*delay_ms).sample(source)
        },
        (DistributionType::Normal, DistributionParams::Normal { mean_ms, stddev_ms }) => {
            NormalDistribution::new(*mean_ms, *stddev_ms).sample(source)
        },
        (DistributionType::Exponential, DistributionParams::Exponential { rate }) => {
            ExponentialDistribution::new(*rate).sample(source)
        },
        (DistributionType::Uniform, DistributionParams::Uniform { min_ms, max_ms }) => {
            UniformDistribution::new(*min_ms, *max_ms).sample(source)
        },
        (DistributionType::LogNormal, DistributionParams::LogNormal { mean_ms, stddev_ms }) => {
            LogNormalDistribution::new(*mean_ms, *stddev_ms).sample(source)
        },
        _ => Delay::zero(),
    }
}

/// The sum of the positive weights among the first `count` components.
pub open spec fn total_weight(components: Seq<MixtureComponent>, count: nat) -> int
    decreases count,
{
    if count == 0 {
        0
    } else {
        let weight = components[count - 1].weight.raw;
        total_weight(components, (count - 1) as nat) + (if weight > 0 {
            weight as int
        } else {
            0
        })
    }
}

/// The component from `at` on that a roll falls to. The components with a
/// positive weight that are no mixtures lie side by side, each as wide as
/// its weight, and the roll picks the one it lands in; none where the roll
/// lands beyond the last.
pub open spec fn picked_component(components: Seq<MixtureComponent>, at: int, roll: int) -> Option<
    int,
>
    decreases components.len() - at,
{
    if at < 0 || at >= components.len() {
        None
    } else {
        let component = components[at];
        if component.weight.raw <= 0 || component.distribution == DistributionType::Mixture {
            picked_component(components, at + 1, roll)
        } else if roll < component.weight.raw {
            Some(at)
        } else {
            picked_component(components, at + 1, roll - component.weight.raw)
        }
    }
}

/// The component that a roll falls to, by its index.
pub fn mixture_choice(components: &Vec<MixtureComponent>, roll: u128) -> (choice: Option<usize>)
    ensures
        match choice {
            Some(index) => {
                &&& picked_component(components@, 0, roll as int) == Some(index as int)
                &&& index < components@.len()
                &&& components@[index as int].distribution != DistributionType::Mixture
            },
            None => picked_component(components@, 0, roll as int) is None,
        },
{
    let mut rest: u128 = roll;
    let mut at: usize = 0;
    while at < components.len()
        invariant
            at <= components@.len(),
            picked_component(components@, 0, roll as int) == picked_component(
                components@,
                at as int,
                rest as int,
            ),
        decreases components@.len() - at,
    {
        let component = &components[at];
        if component.weight.raw > 0 && component.distribution != DistributionType::Mixture {
            let weight: u128 = component.weight.raw as u128;
            if rest < weight {
                return Some(at);
            }
            rest = rest - weight;
        }
        at += 1;
    }
    None
}

fn sum_weights(components: &Vec<MixtureComponent>) -> (total: u128)
    ensures
        total == total_weight(components@, components@.len()),
{
    let mut total: u128 = 0;
    let mut at: usize = 0;
    while at < components.len()
        invariant
            at <= components@.len(),
            total == total_weight(components@, at as nat),
            total <= at * 0x8000_0000_0000_0000,
        decreases components@.len() - at,
    {
        let weight: i64 = components[at].weight.raw;
        if weight > 0 {
            total = total + weight as u128;
        }
        at += 1;
    }
    total
}

/// Whether a sample of a mixture can be `delay`: it is a sample of the
/// component that some roll below the total weight falls to, and no delay
/// at all where the weights sum to nothing or the roll falls to nothing.
pub open spec fn mixture_may_yield<S: VariateSource>(
    components: Seq<MixtureComponent>,
    source: &S,
    delay: Delay,
) -> bool {
    let total = total_weight(components, components.len());
    if total <= 0 {
        delay.nanos == 0
    } else {
        exists|roll: int|
            0 <= roll < total && #[trigger] roll_may_yield(components, roll, source, delay)
    }
}

/// Whether a sample of a mixture can be `delay` once the roll is known.
pub open spec fn roll_may_yield<S: VariateSource>(
    components: Seq<MixtureComponent>,
    roll: int,
    source: &S,
    delay: Delay,
) -> bool {
    match picked_component(components, 0, roll) {
        Some(index) => simple_may_yield(
            components[index].distribution,
            *components[index].params,
            source,
            delay,
        ),
        None => delay.nanos == 0,
    }
}

/// One sample of the component of a mixture that `roll` falls to.
pub fn sample_component<S: VariateSource>(
    components: &Vec<MixtureComponent>,
    roll: u128,
    source: &S,
) -> (delay: Delay)
    ensures
        roll_may_yield(components@, roll as int, source, delay),
{
    match mixture_choice(components, roll) {
        Some(index) => {
            let component = &components[index];
            sample_simple(&component.distribution, &*component.params, source)
        },
        None => Delay::zero(),
    }
}

/// One sample of a mixture: of the component that a roll below the total
/// weight falls to.
pub fn sample_mixture<S: VariateSource>(components: &Vec<MixtureComponent>, source: &S) -> (delay:
    Delay)
    ensures
        mixture_may_yield(components@, source, delay),
{
    let total: u128 = sum_weights(components);
    if total == 0 {
        return Delay::zero();
    }
    let roll: u128 = random_below(total);
    sample_component(components, roll, source)
}

/// Whether a sample of a latency configuration can be `delay`.
pub open spec fn latency_may_yield<S: VariateSource>(
    distribution: DistributionType,
    params: DistributionParams,
    source: &S,
    delay: Delay,
) -> bool {
    match (distribution, params) {
        (
            DistributionType::Mixture,
            DistributionParams::Mixture { components },
        ) => mixture_may_yield(components@, source, delay),
        _ => simple_may_yield(distribution, params, source, delay),
    }
}

/// One sample of the distribution of the declared kind with the given
/// parameters.
pub fn sample_latency_with<S: VariateSource>(
    distribution: &DistributionType,
    params: &DistributionParams,
    source: &S,
) -> (delay: Delay)
    ensures
        latency_may_yield(*distribution, *params, source, delay),
{
    match (distribution, params) {
        (DistributionType::Mixture, DistributionParams::Mixture { components }) => {
            sample_mixture(components, source)
        },
        _ => sample_simple(distribution, params, source),
    }
}

/// One sample of a latency configuration.
pub fn sample_latency<S: VariateSource>(latency: &LatencyConfig, source: &S) -> (delay: Delay)
    ensures
        latency_may_yield(latency.distribution, latency.params, source, delay),
{
    sample_latency_with(&latency.distribution, &latency.params, source)
}

/// Whether an override takes the place of what it overrides, for an
/// intensity and a roll from the unit interval: always at full intensity,
/// and otherwise where the roll falls below the intensity.
pub open spec fn override_taken(factor: int, roll: int) -> bool {
    factor >= SCALE || roll < factor
}

/// Whether an override takes the place of what it overrides.
pub fn takes_override(factor: Decimal, roll: i64) -> (taken: bool)
    ensures
        taken == override_taken(factor.raw as int, roll as int),
{
    factor.raw >= SCALE || roll < factor.raw
}

/// Whether a sample blended from a base and an override at an intensity
/// can be `delay`: at no intensity it is a sample of the base, at full
/// intensity one of the override, and in between one of either.
pub open spec fn blend_may_yield<S: VariateSource>(
    base: &LatencyConfig,
    over: &LatencyConfig,
    factor: int,
    source: &S,
    delay: Delay,
) -> bool {
    let of_base = latency_may_yield(base.distribution, base.params, source, delay);
    let of_override = latency_may_yield(over.distribution, over.params, source, delay);
    if factor <= 0 {
        of_base
    } else if factor >= SCALE {
        of_override
    } else {
        of_base || of_override
    }
}

/// One sample blended from a base and an override at an intensity.
pub fn blend_latency<S: VariateSource>(
    base: &LatencyConfig,
    override_latency: &LatencyConfig,
    factor: Decimal,
    source: &S,
) -> (delay: Delay)
    ensures
        blend_may_yield(base, override_latency, factor.raw as int, source, delay),
{
    if factor.raw <= 0 {
        return sample_latency(base, source);
    }
    if factor.raw >= SCALE {
        return sample_latency(override_latency, source);
    }
    let roll: i64 = random_unit();
    if takes_override(factor, roll) {
        sample_latency(override_latency, source)
    } else {
        sample_latency(base, source)
    }
}

/// Whether the latency of an endpoint before any burst can be `delay`: a
/// sample of its own latency, blended with the override of the active
/// window where it has one.
pub open spec fn window_latency_may_yield<S: VariateSource>(
    endpoint: &Endpoint,
    behaviors: &EndpointBehaviors,
    elapsed: int,
    source: &S,
    delay: Delay,
) -> bool {
    let of_base = latency_may_yield(
        endpoint.latency.distribution,
        endpoint.latency.params,
        source,
        delay,
    );
    match first_active_window(behaviors.windows@, elapsed, 0) {
        Some(index) => {
            let window = behaviors.windows@[index];
            match window.latency_override {
                Some(over) => blend_may_yield(
                    &endpoint.latency,
                    &over,
                    window_factor(&*window, elapsed),
                    source,
                    delay,
                ),
                None => of_base,
            }
        },
        None => of_base,
    }
}

/// Whether the latency of an endpoint at time `elapsed` can be `delay`.
/// The spike of the active burst takes the place of everything else: always
/// at full intensity, never at none, and by chance in between.
pub open spec fn endpoint_latency_may_yield<S: VariateSource>(
    endpoint: &Endpoint,
    behaviors: &EndpointBehaviors,
    elapsed: int,
    source: &S,
    delay: Delay,
) -> bool {
    let before = window_latency_may_yield(endpoint, behaviors, elapsed, source, delay);
    match first_active_burst(behaviors.bursts@, elapsed, 0) {
        Some(index) => {
            let burst = behaviors.bursts@[index];
            match burst.latency_spike {
                Some(spike) => {
                    let factor = burst_factor(&*burst, elapsed);
                    let of_spike = latency_may_yield(
                        spike.distribution,
                        spike.params,
                        source,
                        delay,
                    );
                    if factor >= SCALE {
                        of_spike
                    } else if factor <= 0 {
                        before
                    } else {
                        of_spike || before
                    }
                },
                None => before,
            }
        },
        None => before,
    }
}

/// One sample of the latency of an endpoint at the given time, under
/// the active window and the active burst.
pub fn sample_latency_with_behaviors<S: VariateSource>(
    endpoint: &Endpoint,
    behaviors: &EndpointBehaviors,
    elapsed_ms: Decimal,
    source: &S,
) -> (delay: Delay)
    ensures
        endpoint_latency_may_yield(endpoint, behaviors, elapsed_ms.raw as int, source, delay),
{
    let mut sample = sample_latency(&endpoint.latency, source);
    if let Some((index, factor)) = active_window(behaviors, elapsed_ms) {
        let window = &behaviors.windows[index];
        if let Some(latency_override) = window.latency_override.as_ref() {
            sample = blend_latency(&endpoint.latency, latency_override, factor, source);
        }
    }
    assert(window_latency_may_yield(endpoint, behaviors, elapsed_ms.raw as int, source, sample));
    if let Some((index, factor)) = active_burst(behaviors, elapsed_ms) {
        let burst = &behaviors.bursts[index];
        if let Some(latency_spike) = burst.latency_spike.as_ref() {
            let roll: i64 = random_unit();
            if takes_override(factor, roll) {
                return sample_latency(latency_spike, source);
            }
        }
    }
    sample
}

} // verus!
