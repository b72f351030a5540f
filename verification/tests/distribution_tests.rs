use std::cell::Cell;
use rand_distr::Distribution as RandDistribution;
use rand_distr::{Exp, LogNormal, Normal};
use web_simulant::config::schema::{
    DistributionParams, DistributionType, LatencyConfig, MixtureComponent,
};
use web_simulant::decimal::{Decimal, Delay};
use web_simulant::distributions::exponential::ExponentialDistribution;
use web_simulant::distributions::fixed::FixedDistribution;
use web_simulant::distributions::log_normal::LogNormalDistribution;
use web_simulant::distributions::normal::NormalDistribution;
use web_simulant::distributions::uniform::UniformDistribution;
use web_simulant::distributions::{keep, Distribution, MeanSource, VariateSource};
use web_simulant::engine::sampler::{mixture_choice, sample_component, sample_latency, takes_override};

/// Draws from the continuous distributions of an outside crate.
struct RandomSource;

fn to_number(value: Decimal) -> f64 {
    value.raw as f64 / 1_000_000.0
}

fn to_decimal(value: f64) -> Option<Decimal> {
    if value.is_finite() {
        Some(Decimal::from_millionths((value * 1_000_000.0).round() as i64))
    } else {
        None
    }
}

impl VariateSource for RandomSource {
    fn normal(&self, mean_ms: Decimal, stddev_ms: Decimal) -> Option<Decimal> {
        let normal = Normal::new(to_number(mean_ms), to_number(stddev_ms)).ok()?;
        to_decimal(normal.sample(&mut rand::thread_rng()))
    }

    fn exponential(&self, rate: Decimal) -> Option<Decimal> {
        let exp = Exp::new(to_number(rate)).ok()?;
        to_decimal(exp.sample(&mut rand::thread_rng()))
    }

    fn log_normal(&self, mean_ms: Decimal, stddev_ms: Decimal) -> Option<Decimal> {
        let mean = to_number(mean_ms);
        let variance = to_number(stddev_ms).powi(2);
        let mean_sq = mean.powi(2);
        let sigma = (1.0 + variance / mean_sq).ln().sqrt();
        let mu = (mean_sq / (variance + mean_sq).sqrt()).ln();
        let dist = LogNormal::new(mu, sigma).ok()?;
        to_decimal(dist.sample(&mut rand::thread_rng()))
    }
}

/// A source whose every draw is the same.
struct StuckSource(Option<Decimal>);

impl VariateSource for StuckSource {
    fn normal(&self, _mean_ms: Decimal, _stddev_ms: Decimal) -> Option<Decimal> {
        self.0
    }

    fn exponential(&self, _rate: Decimal) -> Option<Decimal> {
        self.0
    }

    fn log_normal(&self, _mean_ms: Decimal, _stddev_ms: Decimal) -> Option<Decimal> {
        self.0
    }
}

fn millis(delay: Delay) -> f64 {
    delay.as_nanos() as f64 / 1_000_000.0
}

#[test]
fn test_placeholder() {
    let dist = FixedDistribution::new(Decimal::from_int(1));
    let sampled = dist.sample(&MeanSource);
    assert_eq!(sampled, Delay::from_millis(1));
}

#[test]
fn test_fixed_distribution() {
    let dist = FixedDistribution::new(Decimal::from_int(25));
    let sampled = dist.sample(&MeanSource);
    assert_eq!(sampled, Delay::from_millis(25));
}

#[test]
fn test_exponential_distribution() {
    let rate = 0.02;
    let expected_mean = 1.0 / rate;
    let dist = ExponentialDistribution::new(Decimal::from_millionths(20_000));
    let mut total = 0.0;
    let samples = 5000;

    for _ in 0..samples {
        total += millis(dist.sample(&RandomSource));
    }

    let mean = total / samples as f64;
    let lower = expected_mean * 0.8;
    let upper = expected_mean * 1.2;
    assert!(mean >= lower && mean <= upper, "mean out of range: {}", mean);
}

#[test]
fn test_log_normal_distribution_mean() {
    let dist = LogNormalDistribution::new(Decimal::from_int(100), Decimal::from_int(20));
    let samples = 5000;
    let mut total = 0.0;

    for _ in 0..samples {
        total += millis(dist.sample(&RandomSource));
    }

    let mean = total / samples as f64;
    assert!(mean >= 80.0 && mean <= 120.0, "mean out of range: {}", mean);
}

#[test]
fn test_normal_distribution() {
    let dist = NormalDistribution::new(Decimal::from_int(50), Decimal::from_int(10));
    let mut samples = Vec::with_capacity(5000);

    for _ in 0..5000 {
        let ms = millis(dist.sample(&RandomSource));
        samples.push(ms);
    }

    let mean = samples.iter().sum::<f64>() / samples.len() as f64;
    let variance =
        samples.iter().map(|v| (v - mean).powi(2)).sum::<f64>() / samples.len() as f64;
    let stddev = variance.sqrt();

    assert!(mean >= 42.5 && mean <= 57.5, "mean out of range: {}", mean);
    assert!(stddev >= 7.0 && stddev <= 13.5, "stddev out of range: {}", stddev);
}

#[test]
fn test_uniform_distribution() {
    let dist = UniformDistribution::new(Decimal::from_int(10), Decimal::from_int(30));
    let samples = 5000;
    let mut total = 0.0;
    let mut min = f64::MAX;
    let mut max = f64::MIN;

    for _ in 0..samples {
        let value = millis(dist.sample(&RandomSource));
        total += value;
        if value < min {
            min = value;
        }
        if value > max {
            max = value;
        }
    }

    let mean = total / samples as f64;
    assert!(min >= 10.0, "min below range: {}", min);
    assert!(max < 30.0, "max above range: {}", max);
    assert!(mean >= 18.0 && mean <= 22.0, "mean out of range: {}", mean);
}

#[test]
fn negative_fixed_delay_is_no_delay() {
    let dist = FixedDistribution::new(Decimal::from_int(-3));
    assert_eq!(dist.sample(&MeanSource), Delay::zero());
}

#[test]
fn uniform_sample_at_offset() {
    let dist = UniformDistribution::new(Decimal::from_int(10), Decimal::from_int(30));
    assert_eq!(dist.sample_at(0), Some(Delay::from_millis(10)));
    assert_eq!(dist.sample_at(19_999_999), Some(Delay::from_nanos(29_999_999)));
    assert_eq!(dist.sample_at(20_000_000), None);
    let below = UniformDistribution::new(Decimal::from_int(-2), Decimal::from_int(1));
    assert_eq!(below.sample_at(500_000), Some(Delay::zero()));
    assert_eq!(below.sample_at(2_500_000), Some(Delay::from_nanos(500_000)));
}

#[test]
fn empty_uniform_interval_is_no_delay() {
    let dist = UniformDistribution::new(Decimal::from_int(30), Decimal::from_int(30));
    assert_eq!(dist.sample(&MeanSource), Delay::zero());
}

#[test]
fn normal_gives_up_after_unusable_draws() {
    let dist = NormalDistribution::new(Decimal::from_int(50), Decimal::from_int(10));
    assert_eq!(dist.sample(&StuckSource(Some(Decimal::from_int(-1)))), Delay::zero());
    assert_eq!(dist.sample(&StuckSource(None)), Delay::zero());
    assert_eq!(dist.sample(&StuckSource(Some(Decimal::from_int(7)))), Delay::from_millis(7));
    assert_eq!(NormalDistribution::accept(Some(Decimal::from_int(3))), Some(Delay::from_millis(3)));
    assert_eq!(NormalDistribution::accept(Some(Decimal::from_millionths(-1))), None);
    assert_eq!(NormalDistribution::accept(None), None);
}

#[test]
fn exponential_without_positive_rate_is_no_delay() {
    let none = ExponentialDistribution::new(Decimal::zero());
    assert_eq!(none.sample(&StuckSource(Some(Decimal::from_int(9)))), Delay::zero());
    let some = ExponentialDistribution::new(Decimal::one());
    assert_eq!(some.sample(&StuckSource(Some(Decimal::from_int(9)))), Delay::from_millis(9));
    assert_eq!(some.sample(&StuckSource(None)), Delay::zero());
    assert_eq!(some.sample(&StuckSource(Some(Decimal::from_int(-9)))), Delay::zero());
}

#[test]
fn log_normal_without_deviation_is_its_mean() {
    let flat = LogNormalDistribution::new(Decimal::from_int(40), Decimal::zero());
    assert_eq!(flat.sample(&StuckSource(Some(Decimal::from_int(9)))), Delay::from_millis(40));
    let broken = LogNormalDistribution::new(Decimal::zero(), Decimal::one());
    assert_eq!(broken.sample(&StuckSource(Some(Decimal::from_int(9)))), Delay::zero());
    let live = LogNormalDistribution::new(Decimal::from_int(40), Decimal::one());
    assert_eq!(live.sample(&StuckSource(Some(Decimal::from_int(9)))), Delay::from_millis(9));
}

#[test]
fn mean_source_gives_means() {
    assert_eq!(
        MeanSource.normal(Decimal::from_int(5), Decimal::from_int(2)),
        Some(Decimal::from_int(5))
    );
    assert_eq!(
        MeanSource.exponential(Decimal::from_millionths(20_000)),
        Some(Decimal::from_int(50))
    );
    assert_eq!(
        MeanSource.log_normal(Decimal::from_int(7), Decimal::from_int(2)),
        Some(Decimal::from_int(7))
    );
    assert_eq!(keep(Some(Decimal::from_millionths(-5))), Delay::zero());
    assert_eq!(keep(None), Delay::zero());
    assert_eq!(keep(Some(Decimal::from_millionths(5))), Delay::from_nanos(5));
}

fn component(weight: i64, kind: DistributionType, delay_ms: i32) -> MixtureComponent {
    MixtureComponent {
        weight: Decimal::from_millionths(weight),
        distribution: kind,
        params: Box::new(DistributionParams::Fixed { delay_ms: Decimal::from_int(delay_ms) }),
    }
}

#[test]
fn mixture_choice_follows_the_weights() {
    let components = vec![
        component(800_000, DistributionType::Fixed, 1),
        component(0, DistributionType::Fixed, 2),
        component(100_000, DistributionType::Mixture, 3),
        component(200_000, DistributionType::Fixed, 50),
    ];
    assert_eq!(mixture_choice(&components, 0), Some(0));
    assert_eq!(mixture_choice(&components, 799_999), Some(0));
    assert_eq!(mixture_choice(&components, 800_000), Some(3));
    assert_eq!(mixture_choice(&components, 999_999), Some(3));
    assert_eq!(mixture_choice(&components, 1_000_000), None);
    assert_eq!(sample_component(&components, 10, &MeanSource), Delay::from_millis(1));
    assert_eq!(sample_component(&components, 900_000, &MeanSource), Delay::from_millis(50));
    assert_eq!(sample_component(&components, 1_050_000, &MeanSource), Delay::zero());
}

#[test]
fn mixture_distribution_scenario() {
    let latency = LatencyConfig {
        distribution: DistributionType::Mixture,
        params: DistributionParams::Mixture {
            components: vec![
                component(800_000, DistributionType::Fixed, 1),
                component(200_000, DistributionType::Fixed, 50),
            ],
        },
    };
    let samples = 10_000;
    let mut slow = 0;
    for _ in 0..samples {
        let delay = sample_latency(&latency, &MeanSource);
        assert!(delay == Delay::from_millis(1) || delay == Delay::from_millis(50));
        if delay >= Delay::from_millis(40) {
            slow += 1;
        }
    }
    assert!(slow >= 1_800 && slow <= 2_200, "share of slow samples out of range: {}", slow);
}

#[test]
fn mixture_without_weight_is_no_delay() {
    let latency = LatencyConfig {
        distribution: DistributionType::Mixture,
        params: DistributionParams::Mixture {
            components: vec![component(0, DistributionType::Fixed, 1)],
        },
    };
    assert_eq!(sample_latency(&latency, &MeanSource), Delay::zero());
}

#[test]
fn mismatched_parameters_are_no_delay() {
    let latency = LatencyConfig {
        distribution: DistributionType::Normal,
        params: DistributionParams::Fixed { delay_ms: Decimal::from_int(10) },
    };
    assert_eq!(sample_latency(&latency, &MeanSource), Delay::zero());
}

#[test]
fn override_is_taken_below_the_factor() {
    assert!(takes_override(Decimal::one(), 999_999));
    assert!(!takes_override(Decimal::zero(), 0));
    assert!(takes_override(Decimal::from_millionths(300_000), 299_999));
    assert!(!takes_override(Decimal::from_millionths(300_000), 300_000));
}

/// A source that counts its draws and gives usable ones only from a given
/// draw on.
struct CountingSource {
    drawn: Cell<usize>,
    usable_from: usize,
}

impl VariateSource for CountingSource {
    fn normal(&self, mean_ms: Decimal, _stddev_ms: Decimal) -> Option<Decimal> {
        let draw = self.drawn.get() + 1;
        self.drawn.set(draw);
        if draw >= self.usable_from {
            Some(Decimal::from_int(draw as i32))
        } else if draw % 2 == 0 {
            None
        } else {
            Some(Decimal::from_millionths(-mean_ms.raw - 1))
        }
    }

    fn exponential(&self, _rate: Decimal) -> Option<Decimal> {
        None
    }

    fn log_normal(&self, _mean_ms: Decimal, _stddev_ms: Decimal) -> Option<Decimal> {
        None
    }
}

#[test]
fn normal_draws_up_to_ten_times() {
    let dist = NormalDistribution::new(Decimal::from_int(50), Decimal::from_int(10));
    for usable_from in 1..=10usize {
        let source = CountingSource { drawn: Cell::new(0), usable_from };
        assert_eq!(dist.sample(&source), Delay::from_millis(usable_from as u64));
        assert_eq!(source.drawn.get(), usable_from);
    }
    for usable_from in [11usize, 12, 100] {
        let source = CountingSource { drawn: Cell::new(0), usable_from };
        assert_eq!(dist.sample(&source), Delay::zero());
        assert_eq!(source.drawn.get(), 10);
    }
}

#[test]
fn run_of_draws_settles_on_the_first_usable() {
    let bad = Some(Decimal::from_int(-1));
    let good = |n: i32| Some(Decimal::from_int(n));
    assert_eq!(NormalDistribution::settle(&vec![]), Delay::zero());
    assert_eq!(NormalDistribution::settle(&vec![bad, None, bad]), Delay::zero());
    assert_eq!(NormalDistribution::settle(&vec![good(4)]), Delay::from_millis(4));
    assert_eq!(NormalDistribution::settle(&vec![bad, None, good(7), good(9)]), Delay::from_millis(7));
    assert_eq!(NormalDistribution::settle(&vec![None, good(0), good(9)]), Delay::zero());
}
