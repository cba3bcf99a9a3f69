//! The two kinds of channel, the collection that holds them, and the
//! extraction of renderer-ready points.

use vstd::prelude::*;
use crate::decimal::{pow10, pow10_exec, lemma_pow10_36, lemma_pow10_monotone, sample_ok, Decimal, Fixed, Ratio, Sample};

verus! {

/// How a channel is drawn: a continuous trace, or markers at events.
#[derive(Clone, Copy, Debug, PartialEq, Eq, Structural)]
pub enum PlotType {
    Points,
    Line,
}

/// An RGBA colour.
#[derive(Clone, Copy, Debug, PartialEq, Eq, Structural)]
pub struct Color {
    pub r: u8,
    pub g: u8,
    pub b: u8,
    pub a: u8,
}

/// A point's height: a number, a wide number `mantissa * 10^exponent`, an
/// infinity, or not a number.
#[derive(Clone, Copy, Debug, PartialEq, Eq, Structural)]
pub enum Reading {
    Value(Fixed),
    Wide { mantissa: i128, exponent: i128 },
    Infinity { negative: bool },
    NaN,
}

/// A point for the renderer: `x` in seconds, `y` the scaled value.
#[derive(Clone, Copy, Debug, PartialEq, Eq, Structural)]
pub struct Point {
    pub x: Ratio,
    pub y: Reading,
}

/// `v` multiplied by the scaling factor `f`, as floating point multiplies:
/// an infinity keeps or flips its sign with the factor's, and becomes not a
/// number for a zero factor.
pub open spec fn scaled(v: Sample, f: Decimal) -> Reading {
    match v {
        Sample::Number(d) => Reading::Value(
            Fixed { mantissa: (d.mantissa * f.mantissa) as i128, scale: (d.scale + f.scale) as u32 },
        ),
        Sample::Wide { mantissa, exponent } => Reading::Wide {
            mantissa: (mantissa * f.mantissa) as i128,
            exponent: (exponent - f.scale) as i128,
        },
        Sample::Infinity { negative } => if f.mantissa > 0 {
            Reading::Infinity { negative }
        } else if f.mantissa < 0 {
            Reading::Infinity { negative: !negative }
        } else {
            Reading::NaN
        },
        Sample::NaN => Reading::NaN,
    }
}

fn sample_ok_exec(v: Sample) -> (r: bool)
    ensures
        r == sample_ok(v),
{
    match v {
        Sample::Number(d) => d.scale <= 18,
        Sample::Wide { exponent, .. } => exponent >= -0x1_0000_0000_0000_0000_0000_0000_0000,
        _ => true,
    }
}

/// A sample that is exactly zero.
pub open spec fn is_zero_sample(v: Sample) -> bool {
    v matches Sample::Number(d) && d.mantissa == 0
}

fn is_zero_exec(v: Sample) -> (r: bool)
    ensures
        r == is_zero_sample(v),
{
    match v {
        Sample::Number(d) => d.mantissa == 0,
        _ => false,
    }
}

/// `v` multiplied by the scaling factor `f`.
pub fn scale_sample(v: Sample, f: &Decimal) -> (r: Reading)
    requires
        sample_ok(v),
        f.wf(),
    ensures
        r == scaled(v, *f),
{
    match v {
        Sample::Number(d) => Reading::Value(d.times(f)),
        Sample::Wide { mantissa, exponent } => {
            proof {
                assert(-0x8000_0000_0000_0000int * 0x8000_0000_0000_0000int <= mantissa * f.mantissa
                    <= 0x8000_0000_0000_0000int * 0x8000_0000_0000_0000int) by (nonlinear_arith)
                    requires
                        -0x8000_0000_0000_0000int <= mantissa < 0x8000_0000_0000_0000int,
                        -0x8000_0000_0000_0000int <= f.mantissa < 0x8000_0000_0000_0000int,
                ;
            }
            Reading::Wide {
                mantissa: mantissa as i128 * f.mantissa as i128,
                exponent: exponent - f.scale as i128,
            }
        },
        Sample::Infinity { negative } => {
            if f.mantissa > 0 {
                Reading::Infinity { negative }
            } else if f.mantissa < 0 {
                Reading::Infinity { negative: !negative }
            } else {
                Reading::NaN
            }
        },
        Sample::NaN => Reading::NaN,
    }
}

/// A channel whose samples carry their own timestamps (milliseconds since the
/// Unix epoch). Timestamps need not increase.
#[derive(Clone, Debug)]
pub struct TimeBasedChannel {
    pub name: String,
    pub data: Vec<(i64, Sample)>,
    pub scaling_factor: Decimal,
    pub plot_type: PlotType,
    pub unit: String,
    pub color: Option<Color>,
}

/// A channel sampled at a fixed rate: sample `i` lies at `i / samples_per_second`
/// seconds.
#[derive(Clone, Debug)]
pub struct SampleBasedChannel {
    pub name: String,
    pub data: Vec<Sample>,
    pub samples_per_second: Decimal,
    pub scaling_factor: Decimal,
    pub plot_type: PlotType,
    pub color: Option<Color>,
    pub unit: String,
}

/// The time in seconds of a timestamp in milliseconds, divided by `divisor`
/// milliseconds.
pub open spec fn millis_point(t: i64, v: Sample, f: Decimal, divisor: int) -> Point {
    Point { x: Ratio { numer: t as i128, denom: divisor as i128 }, y: scaled(v, f) }
}

impl TimeBasedChannel {
    pub open spec fn wf(&self) -> bool {
        &&& self.scaling_factor.wf()
        &&& forall|i: int| 0 <= i < self.data@.len() ==> sample_ok((#[trigger] self.data@[i]).1)
    }

    /// The trace point of sample `i`: its time in seconds and its scaled value.
    pub open spec fn line_point(&self, i: int) -> Point {
        millis_point(self.data@[i].0, self.data@[i].1, self.scaling_factor, 1000)
    }

    /// The event markers among the first `n` samples: those whose value is
    /// zero, placed at their timestamp divided by 10^6.
    pub open spec fn markers_upto(&self, n: int) -> Seq<Point>
        decreases n,
    {
        if n <= 0 {
            seq![]
        } else {
            let prev = self.markers_upto(n - 1);
            let (t, v) = self.data@[n - 1];
            if is_zero_sample(v) {
                prev.push(millis_point(t, v, self.scaling_factor, 1_000_000))
            } else {
                prev
            }
        }
    }

    pub fn new(
        name: String,
        data: Vec<(i64, Sample)>,
        scaling_factor: Decimal,
        plot_type: PlotType,
        unit: String,
        color: Option<Color>,
    ) -> (r: TimeBasedChannel)
        ensures
            r.name == name,
            r.data == data,
            r.scaling_factor == scaling_factor,
            r.plot_type == plot_type,
            r.unit == unit,
            r.color == color,
    {
        TimeBasedChannel { name, data, scaling_factor, plot_type, unit, color }
    }

    /// Whether the channel is well formed, for callers that cannot prove it.
    pub fn well_formed(&self) -> (r: bool)
        ensures
            r == self.wf(),
    {
        if self.scaling_factor.scale > 18 {
            return false;
        }
        let mut i: usize = 0;
        while i < self.data.len()
            invariant
                i <= self.data@.len(),
                forall|k: int| 0 <= k < i ==> sample_ok((#[trigger] self.data@[k]).1),
            decreases self.data@.len() - i,
        {
            if !sample_ok_exec(self.data[i].1) {
                return false;
            }
            i = i + 1;
        }
        true
    }

    /// The trace of the whole series. The time window is not applied to
    /// time-indexed channels.
    pub fn points_to_draw(&self, start: Option<Decimal>, end: Option<Decimal>) -> (r: Vec<Point>)
        requires
            self.wf(),
        ensures
            r@ == Seq::new(self.data@.len(), |i: int| self.line_point(i)),
    {
        let mut r: Vec<Point> = Vec::with_capacity(self.data.len());
        let mut i: usize = 0;
        while i < self.data.len()
            invariant
                self.wf(),
                i <= self.data@.len(),
                r@ == Seq::new(i as nat, |k: int| self.line_point(k)),
            decreases self.data@.len() - i,
        {
            let (t, v) = self.data[i];
            assert(sample_ok(self.data@[i as int].1));
            r.push(Point { x: Ratio { numer: t as i128, denom: 1000 }, y: scale_sample(v, &self.scaling_factor) });
            i = i + 1;
            assert(r@ =~= Seq::new(i as nat, |k: int| self.line_point(k)));
        }
        r
    }

    /// The event markers: samples whose value is zero.
    pub fn marker_points(&self) -> (r: Vec<Point>)
        requires
            self.wf(),
        ensures
            r@ == self.markers_upto(self.data@.len() as int),
    {
        let mut r: Vec<Point> = Vec::new();
        let mut i: usize = 0;
        while i < self.data.len()
            invariant
                self.wf(),
                i <= self.data@.len(),
                r@ == self.markers_upto(i as int),
            decreases self.data@.len() - i,
        {
            let (t, v) = self.data[i];
            assert(sample_ok(self.data@[i as int].1));
            if is_zero_exec(v) {
                r.push(Point { x: Ratio { numer: t as i128, denom: 1_000_000 }, y: scale_sample(v, &self.scaling_factor) });
            }
            i = i + 1;
        }
        r
    }

    /// The points the renderer draws: the trace for a line channel, the
    /// markers for a point channel.
    pub fn draw_points(&self, start: Option<Decimal>, end: Option<Decimal>) -> (r: Vec<Point>)
        requires
            self.wf(),
        ensures
            self.plot_type == PlotType::Line ==> r@ == Seq::new(self.data@.len(), |i: int| self.line_point(i)),
            self.plot_type == PlotType::Points ==> r@ == self.markers_upto(self.data@.len() as int),
    {
        match self.plot_type {
            PlotType::Line => self.points_to_draw(start, end),
            PlotType::Points => self.marker_points(),
        }
    }

    pub fn get_name(&self) -> (r: String)
        ensures
            r@ == self.name@,
    {
        self.name.as_str().to_owned()
    }

    pub fn get_unit(&self) -> (r: String)
        ensures
            r@ == self.unit@,
    {
        self.unit.as_str().to_owned()
    }

    pub fn set_scaling_factor(&mut self, f: Decimal)
        ensures
            final(self).scaling_factor == f,
            final(self).data == old(self).data,
            final(self).name == old(self).name,
            final(self).unit == old(self).unit,
            final(self).plot_type == old(self).plot_type,
            final(self).color == old(self).color,
    {
        self.scaling_factor = f;
    }

    pub fn set_color(&mut self, color: Option<Color>)
        ensures
            final(self).color == color,
            final(self).data == old(self).data,
            final(self).name == old(self).name,
            final(self).unit == old(self).unit,
            final(self).plot_type == old(self).plot_type,
            final(self).scaling_factor == old(self).scaling_factor,
    {
        self.color = color;
    }
}

/// `floor(t * rate)` for a time `t > 0` and a rate, both exact decimals.
pub open spec fn floor_product(t: Decimal, rate: Decimal) -> int {
    (t.mantissa * rate.mantissa) / pow10((t.scale + rate.scale) as nat)
}

/// `ceil(t * rate)` for a time `t > 0` and a rate, both exact decimals.
pub open spec fn ceil_product(t: Decimal, rate: Decimal) -> int {
    (t.mantissa * rate.mantissa + pow10((t.scale + rate.scale) as nat) - 1) / pow10(
        (t.scale + rate.scale) as nat,
    )
}

pub open spec fn clamp_index(i: int, len: int) -> int {
    if i < 0 {
        0
    } else if i > len {
        len
    } else {
        i
    }
}

/// The first sample index of a window starting at `start` seconds (`None`:
/// from the beginning): `floor(max(start, 0) * rate)`, clamped to `[0, len]`.
pub open spec fn window_start(start: Option<Decimal>, rate: Decimal, len: int) -> int {
    match start {
        None => 0,
        Some(t) => if t.mantissa <= 0 {
            0
        } else {
            clamp_index(floor_product(t, rate), len)
        },
    }
}

/// The index after the last sample of a window ending at `end` seconds
/// (`None`: to the end): `ceil(max(end, 0) * rate)`, clamped to `[0, len]`.
pub open spec fn window_end_raw(end: Option<Decimal>, rate: Decimal, len: int) -> int {
    match end {
        None => len,
        Some(t) => if t.mantissa <= 0 {
            0
        } else {
            clamp_index(ceil_product(t, rate), len)
        },
    }
}

/// Whether the window's start lies after its end.
pub open spec fn reversed(start: Option<Decimal>, end: Option<Decimal>) -> bool {
    match (start, end) {
        (Some(a), Some(b)) => b.less_than(a),
        _ => false,
    }
}

/// The window's end index: never before its start, and equal to it where the
/// window is reversed.
pub open spec fn window_end(start: Option<Decimal>, end: Option<Decimal>, rate: Decimal, len: int) -> int {
    let s = window_start(start, rate, len);
    let e = window_end_raw(end, rate, len);
    if reversed(start, end) || e < s {
        s
    } else {
        e
    }
}

proof fn lemma_product_bounds(a: int, b: int)
    requires
        0 < a < 0x8000_0000_0000_0000int,
        0 < b < 0x8000_0000_0000_0000int,
    ensures
        0 < a * b < 0x4000_0000_0000_0000_0000_0000_0000_0000int,
{
    assert(0 < a * b < 0x4000_0000_0000_0000_0000_0000_0000_0000int) by (nonlinear_arith)
        requires
            0 < a < 0x8000_0000_0000_0000int,
            0 < b < 0x8000_0000_0000_0000int,
    ;
}

/// `floor` or `ceil` of `t * rate` for `t > 0`, clamped to `[0, len]`.
fn scaled_index(t: Decimal, rate: Decimal, len: usize, round_up: bool) -> (r: usize)
    requires
        t.wf(),
        rate.wf(),
        t.mantissa > 0,
        rate.mantissa > 0,
    ensures
        !round_up ==> r == clamp_index(floor_product(t, rate), len as int),
        round_up ==> r == clamp_index(ceil_product(t, rate), len as int),
{
    proof {
        lemma_product_bounds(t.mantissa as int, rate.mantissa as int);
        lemma_pow10_monotone((t.scale + rate.scale) as nat, 36);
        lemma_pow10_36();
    }
    let p = pow10_exec(t.scale + rate.scale) as u128;
    let prod = t.mantissa as u128 * rate.mantissa as u128;
    let q = if round_up {
        (prod + p - 1) / p
    } else {
        prod / p
    };
    if q >= len as u128 {
        len
    } else {
        q as usize
    }
}

impl SampleBasedChannel {
    pub open spec fn wf(&self) -> bool {
        &&& self.samples_per_second.wf()
        &&& self.samples_per_second.is_positive()
        &&& self.scaling_factor.wf()
        &&& forall|i: int|
            0 <= i < self.data@.len() ==> sample_ok(#[trigger] self.data@[i])
    }

    /// The time in seconds of sample `i`: `i / samples_per_second`.
    pub open spec fn time_of(&self, i: int) -> Ratio {
        Ratio {
            numer: (i * pow10(self.samples_per_second.scale as nat)) as i128,
            denom: self.samples_per_second.mantissa as i128,
        }
    }

    /// The trace point of sample `i`.
    pub open spec fn line_point(&self, i: int) -> Point {
        Point {
            x: self.time_of(i),
            y: scaled(self.data@[i], self.scaling_factor),
        }
    }

    /// The event markers among the first `n` samples: those whose value is
    /// zero, drawn at height `1 * scaling_factor`.
    pub open spec fn markers_upto(&self, n: int) -> Seq<Point>
        decreases n,
    {
        if n <= 0 {
            seq![]
        } else {
            let prev = self.markers_upto(n - 1);
            if is_zero_sample(self.data@[n - 1]) {
                prev.push(
                    Point {
                        x: self.time_of(n - 1),
                        y: Reading::Value(
                            Fixed {
                                mantissa: self.scaling_factor.mantissa as i128,
                                scale: self.scaling_factor.scale,
                            },
                        ),
                    },
                )
            } else {
                prev
            }
        }
    }

    pub open spec fn window(&self, start: Option<Decimal>, end: Option<Decimal>) -> (int, int) {
        let len = self.data@.len() as int;
        (
            window_start(start, self.samples_per_second, len),
            window_end(start, end, self.samples_per_second, len),
        )
    }

    pub fn new(
        name: String,
        data: Vec<Sample>,
        samples_per_second: Decimal,
        scaling_factor: Decimal,
        plot_type: PlotType,
        color: Option<Color>,
        unit: String,
    ) -> (r: SampleBasedChannel)
        ensures
            r.name == name,
            r.data == data,
            r.samples_per_second == samples_per_second,
            r.scaling_factor == scaling_factor,
            r.plot_type == plot_type,
            r.color == color,
            r.unit == unit,
    {
        SampleBasedChannel { name, data, samples_per_second, scaling_factor, plot_type, color, unit }
    }

    /// The samples from `start` (default 0) up to `end` (default: all).
    pub fn get_slice(&self, start: Option<usize>, end: Option<usize>) -> (r: &[Sample])
        requires
            start.unwrap_or(0) <= end.unwrap_or(self.data@.len() as usize) <= self.data@.len(),
        ensures
            r@ == self.data@.subrange(start.unwrap_or(0) as int, end.unwrap_or(self.data@.len() as usize) as int),
    {
        let s = match start {
            Some(s) => s,
            None => 0,
        };
        let e = match end {
            Some(e) => e,
            None => self.data.len(),
        };
        &self.data.as_slice()[s..e]
    }

    /// Whether the channel is well formed, for callers that cannot prove it.
    pub fn well_formed(&self) -> (r: bool)
        ensures
            r == self.wf(),
    {
        if self.scaling_factor.scale > 18 || self.samples_per_second.scale > 18
            || self.samples_per_second.mantissa <= 0 {
            return false;
        }
        let mut i: usize = 0;
        while i < self.data.len()
            invariant
                i <= self.data@.len(),
                forall|k: int| 0 <= k < i ==> sample_ok(#[trigger] self.data@[k]),
            decreases self.data@.len() - i,
        {
            if !sample_ok_exec(self.data[i]) {
                return false;
            }
            i = i + 1;
        }
        true
    }

    /// The sample-index window `[first, last)` that covers `start..end` seconds.
    pub fn window_indices(&self, start: Option<Decimal>, end: Option<Decimal>) -> (r: (usize, usize))
        requires
            self.wf(),
            start matches Some(t) ==> t.wf(),
            end matches Some(t) ==> t.wf(),
        ensures
            r.0 == self.window(start, end).0,
            r.1 == self.window(start, end).1,
            r.0 <= r.1 <= self.data@.len(),
    {
        let len = self.data.len();
        let s: usize = match start {
            None => 0,
            Some(t) => if t.mantissa <= 0 {
                0
            } else {
                scaled_index(t, self.samples_per_second, len, false)
            },
        };
        let e: usize = match end {
            None => len,
            Some(t) => if t.mantissa <= 0 {
                0
            } else {
                scaled_index(t, self.samples_per_second, len, true)
            },
        };
        let rev = match (start, end) {
            (Some(a), Some(b)) => b.lt(&a),
            _ => false,
        };
        if rev || e < s {
            (s, s)
        } else {
            (s, e)
        }
    }

    /// The time of sample `i` in seconds.
    fn time_at(&self, i: usize) -> (r: Ratio)
        requires
            self.wf(),
        ensures
            r == self.time_of(i as int),
    {
        let p = pow10_exec(self.samples_per_second.scale);
        proof {
            lemma_pow10_monotone(self.samples_per_second.scale as nat, 18);
            lemma_pow10_36();
            assert(0 <= i * p <= 0x1_0000_0000_0000_0000int * 1_000_000_000_000_000_000int)
                by (nonlinear_arith)
                requires
                    0 <= i < 0x1_0000_0000_0000_0000int,
                    1 <= p <= 1_000_000_000_000_000_000int,
            ;
        }
        Ratio { numer: i as i128 * p, denom: self.samples_per_second.mantissa as i128 }
    }

    /// The trace of the samples inside the window `start..end` seconds (`None`:
    /// unbounded on that side), each at its own time.
    pub fn points_to_draw(&self, start: Option<Decimal>, end: Option<Decimal>) -> (r: Vec<Point>)
        requires
            self.wf(),
            start matches Some(t) ==> t.wf(),
            end matches Some(t) ==> t.wf(),
        ensures
            r@ == Seq::new(
                (self.window(start, end).1 - self.window(start, end).0) as nat,
                |j: int| self.line_point(self.window(start, end).0 + j),
            ),
    {
        let (first, last) = self.window_indices(start, end);
        let mut r: Vec<Point> = Vec::with_capacity(last - first);
        let mut i: usize = first;
        while i < last
            invariant
                self.wf(),
                first <= i <= last <= self.data@.len(),
                r@ == Seq::new((i - first) as nat, |j: int| self.line_point(first + j)),
            decreases last - i,
        {
            assert(sample_ok(self.data@[i as int]));
            let y = scale_sample(self.data[i], &self.scaling_factor);
            r.push(Point { x: self.time_at(i), y });
            i = i + 1;
            assert(r@ =~= Seq::new((i - first) as nat, |j: int| self.line_point(first + j)));
        }
        r
    }

    /// The event markers: samples whose value is zero, over the whole series.
    pub fn marker_points(&self) -> (r: Vec<Point>)
        requires
            self.wf(),
        ensures
            r@ == self.markers_upto(self.data@.len() as int),
    {
        let mut r: Vec<Point> = Vec::new();
        let mut i: usize = 0;
        while i < self.data.len()
            invariant
                self.wf(),
                i <= self.data@.len(),
                r@ == self.markers_upto(i as int),
            decreases self.data@.len() - i,
        {
            if is_zero_exec(self.data[i]) {
                let y = Fixed {
                    mantissa: self.scaling_factor.mantissa as i128,
                    scale: self.scaling_factor.scale,
                };
                r.push(Point { x: self.time_at(i), y: Reading::Value(y) });
            }
            i = i + 1;
        }
        r
    }

    /// The points the renderer draws: the windowed trace for a line channel,
    /// the markers for a point channel.
    pub fn draw_points(&self, start: Option<Decimal>, end: Option<Decimal>) -> (r: Vec<Point>)
        requires
            self.wf(),
            start matches Some(t) ==> t.wf(),
            end matches Some(t) ==> t.wf(),
        ensures
            self.plot_type == PlotType::Line ==> r@ == Seq::new(
                (self.window(start, end).1 - self.window(start, end).0) as nat,
                |j: int| self.line_point(self.window(start, end).0 + j),
            ),
            self.plot_type == PlotType::Points ==> r@ == self.markers_upto(self.data@.len() as int),
    {
        match self.plot_type {
            PlotType::Line => self.points_to_draw(start, end),
            PlotType::Points => self.marker_points(),
        }
    }

    pub fn get_name(&self) -> (r: String)
        ensures
            r@ == self.name@,
    {
        self.name.as_str().to_owned()
    }

    pub fn get_unit(&self) -> (r: String)
        ensures
            r@ == self.unit@,
    {
        self.unit.as_str().to_owned()
    }

    pub fn set_scaling_factor(&mut self, f: Decimal)
        ensures
            final(self).scaling_factor == f,
            final(self).data == old(self).data,
            final(self).samples_per_second == old(self).samples_per_second,
            final(self).name == old(self).name,
            final(self).unit == old(self).unit,
            final(self).plot_type == old(self).plot_type,
            final(self).color == old(self).color,
    {
        self.scaling_factor = f;
    }

    pub fn set_color(&mut self, color: Option<Color>)
        ensures
            final(self).color == color,
            final(self).data == old(self).data,
            final(self).samples_per_second == old(self).samples_per_second,
            final(self).name == old(self).name,
            final(self).unit == old(self).unit,
            final(self).plot_type == old(self).plot_type,
            final(self).scaling_factor == old(self).scaling_factor,
    {
        self.color = color;
    }
}

/// A channel of either kind, as the collection holds it.
#[derive(Clone, Debug)]
pub enum DrawableChannel {
    SampleBased(SampleBasedChannel),
    TimeBased(TimeBasedChannel),
}

impl DrawableChannel {
    pub open spec fn wf(&self) -> bool {
        match self {
            DrawableChannel::SampleBased(c) => c.wf(),
            DrawableChannel::TimeBased(c) => c.wf(),
        }
    }

    /// Whether the channel is well formed, for callers that cannot prove it.
    pub fn well_formed(&self) -> (r: bool)
        ensures
            r == self.wf(),
    {
        match self {
            DrawableChannel::SampleBased(c) => c.well_formed(),
            DrawableChannel::TimeBased(c) => c.well_formed(),
        }
    }

    pub fn get_name(&self) -> (r: String)
        ensures
            r@ == match self {
                DrawableChannel::SampleBased(c) => c.name@,
                DrawableChannel::TimeBased(c) => c.name@,
            },
    {
        match self {
            DrawableChannel::SampleBased(c) => c.get_name(),
            DrawableChannel::TimeBased(c) => c.get_name(),
        }
    }

    pub fn get_unit(&self) -> (r: String)
        ensures
            r@ == match self {
                DrawableChannel::SampleBased(c) => c.unit@,
                DrawableChannel::TimeBased(c) => c.unit@,
            },
    {
        match self {
            DrawableChannel::SampleBased(c) => c.get_unit(),
            DrawableChannel::TimeBased(c) => c.get_unit(),
        }
    }

    /// The points the renderer draws for the window `start..end` seconds.
    pub fn draw_points(&self, start: Option<Decimal>, end: Option<Decimal>) -> (r: Vec<Point>)
        requires
            self.wf(),
            start matches Some(t) ==> t.wf(),
            end matches Some(t) ==> t.wf(),
        ensures
            match self {
                DrawableChannel::SampleBased(c) => {
                    &&& c.plot_type == PlotType::Line ==> r@ == Seq::new(
                        (c.window(start, end).1 - c.window(start, end).0) as nat,
                        |j: int| c.line_point(c.window(start, end).0 + j),
                    )
                    &&& c.plot_type == PlotType::Points ==> r@ == c.markers_upto(c.data@.len() as int)
                },
                DrawableChannel::TimeBased(c) => {
                    &&& c.plot_type == PlotType::Line ==> r@ == Seq::new(c.data@.len(), |i: int| c.line_point(i))
                    &&& c.plot_type == PlotType::Points ==> r@ == c.markers_upto(c.data@.len() as int)
                },
            },
    {
        match self {
            DrawableChannel::SampleBased(c) => c.draw_points(start, end),
            DrawableChannel::TimeBased(c) => c.draw_points(start, end),
        }
    }
}

/// The channels of a plotting session, in display order.
pub struct ChannelPlotter {
    pub name: String,
    pub channels: Vec<DrawableChannel>,
}

impl ChannelPlotter {
    pub fn new(name: String, channels: Vec<DrawableChannel>) -> (r: ChannelPlotter)
        ensures
            r.name == name,
            r.channels == channels,
    {
        ChannelPlotter { name, channels }
    }

    /// Appends a channel after the others.
    pub fn add_channel(&mut self, channel: DrawableChannel)
        ensures
            final(self).channels@ == old(self).channels@.push(channel),
            final(self).name == old(self).name,
    {
        self.channels.push(channel);
    }

    /// Appends the channels of a parsed recording: its sample-indexed
    /// channels, then its time-indexed ones, each in order.
    pub fn add_parsed(&mut self, samples: Vec<SampleBasedChannel>, times: Vec<TimeBasedChannel>)
        ensures
            final(self).name == old(self).name,
            final(self).channels@ == old(self).channels@ + samples@.map_values(
                |c: SampleBasedChannel| DrawableChannel::SampleBased(c),
            ) + times@.map_values(|c: TimeBasedChannel| DrawableChannel::TimeBased(c)),
    {
        let ghost base = self.channels@;
        let mut samples = samples;
        let mut times = times;
        let ghost sv = samples@;
        let ghost tv = times@;
        let n_s = samples.len();
        let n_t = times.len();
        let mut i: usize = 0;
        while samples.len() > 0
            invariant
                i + samples@.len() == sv.len(),
                i <= sv.len() == n_s,
                samples@ == sv.subrange(i as int, sv.len() as int),
                self.channels@ == base + sv.subrange(0, i as int).map_values(
                    |c: SampleBasedChannel| DrawableChannel::SampleBased(c),
                ),
                self.name == old(self).name,
            decreases samples@.len(),
        {
            let c = samples.remove(0);
            self.channels.push(DrawableChannel::SampleBased(c));
            i = i + 1;
            assert(self.channels@ =~= base + sv.subrange(0, i as int).map_values(
                |c: SampleBasedChannel| DrawableChannel::SampleBased(c),
            ));
        }
        assert(sv.subrange(0, i as int) == sv);
        let ghost mid = self.channels@;
        let mut j: usize = 0;
        while times.len() > 0
            invariant
                j + times@.len() == tv.len(),
                j <= tv.len() == n_t,
                times@ == tv.subrange(j as int, tv.len() as int),
                self.channels@ == mid + tv.subrange(0, j as int).map_values(
                    |c: TimeBasedChannel| DrawableChannel::TimeBased(c),
                ),
                self.name == old(self).name,
            decreases times@.len(),
        {
            let c = times.remove(0);
            self.channels.push(DrawableChannel::TimeBased(c));
            j = j + 1;
            assert(self.channels@ =~= mid + tv.subrange(0, j as int).map_values(
                |c: TimeBasedChannel| DrawableChannel::TimeBased(c),
            ));
        }
        assert(tv.subrange(0, j as int) == tv);
    }

    /// Removes every channel.
    pub fn clear(&mut self)
        ensures
            final(self).channels@.len() == 0,
            final(self).name == old(self).name,
    {
        self.channels.clear();
    }
}

/// An unbounded window covers every sample: its trace has a point for each.
pub proof fn lemma_unbounded_window_is_whole(c: SampleBasedChannel)
    ensures
        c.window(None, None) == (0int, c.data@.len() as int),
        Seq::new(
            (c.window(None, None).1 - c.window(None, None).0) as nat,
            |j: int| c.line_point(c.window(None, None).0 + j),
        ) == Seq::new(c.data@.len(), |i: int| c.line_point(i)),
{
    assert(Seq::new(
        (c.window(None, None).1 - c.window(None, None).0) as nat,
        |j: int| c.line_point(c.window(None, None).0 + j),
    ) =~= Seq::new(c.data@.len(), |i: int| c.line_point(i)));
}

/// A window whose start lies after its end is empty.
pub proof fn lemma_reversed_window_is_empty(c: SampleBasedChannel, start: Decimal, end: Decimal)
    requires
        end.less_than(start),
    ensures
        c.window(Some(start), Some(end)).0 == c.window(Some(start), Some(end)).1,
{
}

/// Every window lies inside the channel's samples, its start never after its end.
pub proof fn lemma_window_within_samples(c: SampleBasedChannel, start: Option<Decimal>, end: Option<Decimal>)
    ensures
        0 <= c.window(start, end).0 <= c.window(start, end).1 <= c.data@.len(),
{
}

} // verus!
