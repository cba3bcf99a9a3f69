//! Synthetic test signals, for trying the plotting front end without a recording.

use vstd::prelude::*;
use crate::bridge::string_of;
use crate::text::{int_text, int_to_chars};
use crate::channel::{Color, PlotType, SampleBasedChannel};
use crate::decimal::{Decimal, Sample};

verus! {

/// A sample-indexed test signal.
#[derive(Clone, Debug)]
pub struct Channel {
    pub name: String,
    pub data: Vec<Decimal>,
    pub samples_per_second: Decimal,
    pub scaling_factor: Decimal,
    pub plot_type: PlotType,
    pub color: Option<Color>,
}

/// A set of test signals drawn together, with the label of their y axis.
#[derive(Clone, Debug)]
pub struct SampleData {
    pub name: String,
    pub channels: Vec<Channel>,
    pub unit_y: String,
}

impl SampleData {
    pub fn new(name: String, channels: Vec<Channel>, unit_y: String) -> (r: SampleData)
        ensures
            r.name == name,
            r.channels == channels,
            r.unit_y == unit_y,
    {
        SampleData { name, channels, unit_y }
    }

    pub fn add_channel(&mut self, channel: Channel)
        ensures
            final(self).channels@ == old(self).channels@.push(channel),
            final(self).name == old(self).name,
            final(self).unit_y == old(self).unit_y,
    {
        self.channels.push(channel);
    }
}

pub open spec fn abs(x: int) -> int {
    if x < 0 {
        -x
    } else {
        x
    }
}

/// Sample `n` of a square wave that flips at every multiple of `every`,
/// starting low: high exactly where `n / every` is odd.
pub open spec fn square_value(n: int, every: int) -> Decimal {
    Decimal { mantissa: if (n / every) % 2 == 1 { 1 } else { 0 }, scale: 0 }
}

/// The name of a square wave that flips every `every` samples.
pub open spec fn square_name(every: int) -> Seq<char> {
    "square wave, switch every "@ + int_text(every) + " samples"@
}

impl Channel {
    pub fn new(
        name: String,
        data: Vec<Decimal>,
        samples_per_second: Decimal,
        scaling_factor: Decimal,
        plot_type: PlotType,
        color: Option<Color>,
    ) -> (r: Channel)
        ensures
            r.name == name,
            r.data == data,
            r.samples_per_second == samples_per_second,
            r.scaling_factor == scaling_factor,
            r.plot_type == plot_type,
            r.color == color,
    {
        Channel { name, data, samples_per_second, scaling_factor, plot_type, color }
    }

    /// A square wave of `n_samples` samples of 0 and 1 that flips at every
    /// multiple of `switch_every_n_samples`.
    pub fn square_wave(
        switch_every_n_samples: i32,
        samples_per_second: Decimal,
        n_samples: i32,
        color: Option<Color>,
    ) -> (r: Channel)
        requires
            switch_every_n_samples != 0 || n_samples <= 0,
        ensures
            r.name@ == square_name(switch_every_n_samples as int),
            r.data@.len() == if n_samples > 0 { n_samples as int } else { 0 },
            forall|n: int|
                0 <= n < r.data@.len() ==> #[trigger] r.data@[n] == square_value(n, abs(switch_every_n_samples as int)),
            r.samples_per_second == samples_per_second,
            r.scaling_factor == (Decimal { mantissa: 1, scale: 0 }),
            r.plot_type == PlotType::Line,
            r.color == color,
    {
        // a multiple of the step is a multiple of its magnitude
        let every: i64 = if switch_every_n_samples < 0 {
            -(switch_every_n_samples as i64)
        } else {
            switch_every_n_samples as i64
        };
        let mut signal = true;
        let mut square: Vec<Decimal> = Vec::new();
        let mut n: i32 = 0;
        while n < n_samples
            invariant
                every == abs(switch_every_n_samples as int),
                n < n_samples ==> every > 0,
                0 <= n,
                n_samples > 0 ==> n <= n_samples,
                n_samples <= 0 ==> n == 0,
                square@.len() == n,
                n > 0 ==> signal == ((n - 1) / (every as int) % 2 == 1),
                n == 0 ==> signal,
                forall|k: int| 0 <= k < n ==> #[trigger] square@[k] == square_value(k, every as int),
            decreases n_samples - n,
        {
            proof {
                lemma_div_step(n as int, every as int);
            }
            if (n as i64) % every == 0 {
                signal = !signal;
            }
            let v: i64 = if signal {
                1
            } else {
                0
            };
            square.push(Decimal { mantissa: v, scale: 0 });
            n = n + 1;
        }
        let mut name = String::from_str("square wave, switch every ");
        let count = string_of(int_to_chars(switch_every_n_samples).as_slice());
        name.append(count.as_str());
        name.append(" samples");
        Channel::new(name, square, samples_per_second, Decimal { mantissa: 1, scale: 0 }, PlotType::Line, color)
    }

    /// Markers for `n_samples + 1` samples: sample `i` holds `i % dot_every_n_samples`,
    /// so every `dot_every_n_samples`-th sample is zero.
    pub fn dot_every_n(
        dot_every_n_samples: usize,
        samples_per_second: Decimal,
        n_samples: usize,
        color: Option<Color>,
    ) -> (r: Channel)
        requires
            dot_every_n_samples > 0,
            n_samples < i64::MAX,
            n_samples < usize::MAX,
        ensures
            r.name@ == "dots"@,
            r.data@.len() == n_samples + 1,
            forall|i: int|
                0 <= i <= n_samples ==> #[trigger] r.data@[i] == (Decimal {
                    mantissa: (i % dot_every_n_samples as int) as i64,
                    scale: 0,
                }),
            r.samples_per_second == samples_per_second,
            r.scaling_factor == (Decimal { mantissa: 1, scale: 0 }),
            r.plot_type == PlotType::Points,
            r.color == color,
    {
        let mut dots: Vec<Decimal> = Vec::new();
        let mut i: usize = 0;
        while i <= n_samples
            invariant
                dot_every_n_samples > 0,
                n_samples < i64::MAX,
                n_samples < usize::MAX,
                i <= n_samples + 1,
                dots@.len() == i,
                forall|k: int|
                    0 <= k < i ==> #[trigger] dots@[k] == (Decimal {
                        mantissa: (k % dot_every_n_samples as int) as i64,
                        scale: 0,
                    }),
            decreases n_samples + 1 - i,
        {
            let v = i % dot_every_n_samples;
            proof {
                vstd::arithmetic::div_mod::lemma_mod_decreases(i as nat, dot_every_n_samples as nat);
            }
            dots.push(Decimal { mantissa: v as i64, scale: 0 });
            i = i + 1;
        }
        Channel::new("dots".to_owned(), dots, samples_per_second, Decimal { mantissa: 1, scale: 0 }, PlotType::Points, color)
    }

    /// The signal as a sample-indexed channel, whose points the renderer draws.
    pub fn to_sample_channel(&self) -> (r: SampleBasedChannel)
        ensures
            r.name@ == self.name@,
            r.data@ == self.data@.map_values(|d: Decimal| Sample::Number(d)),
            r.samples_per_second == self.samples_per_second,
            r.scaling_factor == self.scaling_factor,
            r.plot_type == self.plot_type,
            r.color == self.color,
            r.unit@.len() == 0,
    {
        let mut data: Vec<Sample> = Vec::with_capacity(self.data.len());
        let mut i: usize = 0;
        while i < self.data.len()
            invariant
                i <= self.data@.len(),
                data@ == self.data@.subrange(0, i as int).map_values(|d: Decimal| Sample::Number(d)),
            decreases self.data@.len() - i,
        {
            data.push(Sample::Number(self.data[i]));
            i = i + 1;
            assert(data@ =~= self.data@.subrange(0, i as int).map_values(|d: Decimal| Sample::Number(d)));
        }
        assert(self.data@.subrange(0, i as int) == self.data@);
        let unit = String::new();
        SampleBasedChannel::new(
            self.name.as_str().to_owned(),
            data,
            self.samples_per_second,
            self.scaling_factor,
            self.plot_type,
            self.color,
            unit,
        )
    }

    /// The samples from `start` (default 0) up to `end` (default: all).
    pub fn get_slice(&self, start: Option<usize>, end: Option<usize>) -> (r: &[Decimal])
        requires
            start.unwrap_or(0) <= end.unwrap_or(self.data@.len() as usize) <= self.data@.len(),
        ensures
            r@ == self.data@.subrange(start.unwrap_or(0) as int, end.unwrap_or(self.data@.len() as usize) as int),
    {
        let s = match start {
            Some(s) => s,
            None => 0,
        };
        let e = match end {
            Some(e) => e,
            None => self.data.len(),
        };
        &self.data.as_slice()[s..e]
    }
}

/// Going from `n - 1` to `n`, the quotient by `d` grows by one exactly at a
/// multiple of `d`.
proof fn lemma_div_step(n: int, d: int)
    requires
        0 <= n,
        d > 0,
    ensures
        n > 0 && n % d == 0 ==> n / d == (n - 1) / d + 1,
        n > 0 && n % d != 0 ==> n / d == (n - 1) / d,
        n == 0 ==> n / d == 0,
{
    if n > 0 {
        let q = (n - 1) / d;
        let r = (n - 1) % d;
        vstd::arithmetic::div_mod::lemma_fundamental_div_mod(n - 1, d);
        if r + 1 == d {
            assert(d * q + d == (q + 1) * d) by (nonlinear_arith);
            vstd::arithmetic::div_mod::lemma_fundamental_div_mod_converse(n, d, q + 1, 0);
        } else {
            assert(d * q == q * d) by (nonlinear_arith);
            vstd::arithmetic::div_mod::lemma_fundamental_div_mod_converse(n, d, q, r + 1);
        }
    }
}

} // verus!
