//! Tick marks for a time axis, after the paper grid of a clinical ECG.

use vstd::prelude::*;
use vstd::arithmetic::div_mod::lemma_fundamental_div_mod_converse;
use crate::decimal::{pow10, pow10_exec, lemma_pow10_36, lemma_pow10_monotone, lemma_pow10_positive, Decimal, Fixed};

verus! {

/// A tick at `value` seconds, belonging to the grid of spacing `step_size`.
#[derive(Clone, Copy, Debug, PartialEq, Eq, Structural)]
pub struct GridMark {
    pub value: Fixed,
    pub step_size: Decimal,
}

/// What the axis asks for: the visible range and the smallest spacing it
/// would draw.
#[derive(Clone, Copy, Debug)]
pub struct GridInput {
    pub bounds: (Decimal, Decimal),
    pub base_step_size: Decimal,
}

pub open spec fn dec(mantissa: i64, scale: u32) -> Decimal {
    Decimal { mantissa, scale }
}

/// The three spacings drawn for a base spacing: 40 ms, 200 ms and 1 s close
/// up, growing to minutes and an hour when zoomed out.
pub open spec fn step_triple(base: Decimal) -> Seq<Decimal> {
    if !base.less_than(dec(60, 0)) {
        seq![dec(60, 0), dec(300, 0), dec(3600, 0)]
    } else if !base.less_than(dec(10, 0)) {
        seq![dec(10, 0), dec(60, 0), dec(300, 0)]
    } else if !base.less_than(dec(1, 0)) {
        seq![dec(1, 0), dec(10, 0), dec(60, 0)]
    } else if !base.less_than(dec(2, 1)) {
        seq![dec(2, 1), dec(1, 0), dec(10, 0)]
    } else {
        seq![dec(4, 2), dec(2, 1), dec(1, 0)]
    }
}

/// `ceil(n / d)` for `d > 0`.
pub open spec fn ceil_div(n: int, d: int) -> int {
    (n + d - 1) / d
}

/// `ceil(x / step)`.
pub open spec fn ceil_steps(x: Decimal, step: Decimal) -> int {
    ceil_div(x.mantissa * pow10(step.scale as nat), step.mantissa * pow10(x.scale as nat))
}

/// Every multiple `i * step` with `ceil(min / step) <= i < ceil(max / step)`.
pub open spec fn marks_between(step: Decimal, bounds: (Decimal, Decimal)) -> Seq<GridMark> {
    let first = ceil_steps(bounds.0, step);
    let last = ceil_steps(bounds.1, step);
    Seq::new(
        if last > first {
            (last - first) as nat
        } else {
            0
        },
        |j: int| GridMark { value: Fixed { mantissa: ((first + j) * step.mantissa) as i128, scale: step.scale }, step_size: step },
    )
}

/// The marks of the three spacings for `base`, finest first, not merged.
pub open spec fn grid_marks(base: Decimal, bounds: (Decimal, Decimal)) -> Seq<GridMark> {
    let t = step_triple(base);
    marks_between(t[0], bounds) + marks_between(t[1], bounds) + marks_between(t[2], bounds)
}

/// A step of the grid's own: a positive multiple of 0.01 up to an hour.
pub open spec fn grid_step(step: Decimal) -> bool {
    1 <= step.mantissa <= 3600 && step.scale <= 2
}

/// The magnitude below which a mark's mantissa is held: 2^126.
pub open spec fn mark_bound() -> int {
    0x4000_0000_0000_0000_0000_0000_0000_0000int
}

/// The marks of `step` within `bounds` have mantissas that `i128` holds.
pub open spec fn marks_fit(step: Decimal, bounds: (Decimal, Decimal)) -> bool {
    &&& -mark_bound() < ceil_steps(bounds.0, step) * step.mantissa < mark_bound()
    &&& -mark_bound() < ceil_steps(bounds.1, step) * step.mantissa < mark_bound()
}

/// `|ceil(n / d)| <= |n|` for `d >= 1`.
proof fn lemma_ceil_div_bound(n: int, d: int)
    requires
        d >= 1,
    ensures
        n >= 0 ==> 0 <= ceil_div(n, d) <= n,
        n < 0 ==> n <= ceil_div(n, d) <= 0,
{
    let x = n + d - 1;
    let q = x / d;
    vstd::arithmetic::div_mod::lemma_fundamental_div_mod(x, d);
    let r = x % d;
    assert(d * q == n + d - 1 - r);
    if n >= 0 {
        assert(0 <= q <= n) by (nonlinear_arith)
            requires d * q == n + d - 1 - r, 0 <= r < d, d >= 1, n >= 0;
    } else {
        assert(n <= q <= 0) by (nonlinear_arith)
            requires d * q == n + d - 1 - r, 0 <= r < d, d >= 1, n < 0;
    }
}

/// The marks of the grid's own steps always fit.
proof fn lemma_grid_marks_fit(step: Decimal, bounds: (Decimal, Decimal))
    requires
        grid_step(step),
        bounds.0.wf(),
        bounds.1.wf(),
    ensures
        marks_fit(step, bounds),
{
    lemma_pow10_monotone(step.scale as nat, 2);
    lemma_pow10_monotone(bounds.0.scale as nat, 18);
    lemma_pow10_monotone(bounds.1.scale as nat, 18);
    lemma_pow10_positive(bounds.0.scale as nat);
    lemma_pow10_positive(bounds.1.scale as nat);
    lemma_pow10_positive(step.scale as nat);
    reveal_with_fuel(pow10, 3);
    let ps = pow10(step.scale as nat);
    let n0 = bounds.0.mantissa * ps;
    let n1 = bounds.1.mantissa * ps;
    assert(1 <= step.mantissa * pow10(bounds.0.scale as nat)) by (nonlinear_arith)
        requires 1 <= step.mantissa, 1 <= pow10(bounds.0.scale as nat);
    assert(1 <= step.mantissa * pow10(bounds.1.scale as nat)) by (nonlinear_arith)
        requires 1 <= step.mantissa, 1 <= pow10(bounds.1.scale as nat);
    lemma_ceil_div_bound(n0, step.mantissa * pow10(bounds.0.scale as nat));
    lemma_ceil_div_bound(n1, step.mantissa * pow10(bounds.1.scale as nat));
    assert(-0x8000_0000_0000_0000int * 100 <= n0 <= 0x8000_0000_0000_0000int * 100) by (nonlinear_arith)
        requires -0x8000_0000_0000_0000int <= bounds.0.mantissa < 0x8000_0000_0000_0000int, 1 <= ps <= 100, n0 == bounds.0.mantissa * ps;
    assert(-0x8000_0000_0000_0000int * 100 <= n1 <= 0x8000_0000_0000_0000int * 100) by (nonlinear_arith)
        requires -0x8000_0000_0000_0000int <= bounds.1.mantissa < 0x8000_0000_0000_0000int, 1 <= ps <= 100, n1 == bounds.1.mantissa * ps;
    let c0 = ceil_steps(bounds.0, step);
    let c1 = ceil_steps(bounds.1, step);
    assert(-mark_bound() < c0 * step.mantissa < mark_bound()) by (nonlinear_arith)
        requires -0x8000_0000_0000_0000int * 100 <= c0 <= 0x8000_0000_0000_0000int * 100, 1 <= step.mantissa <= 3600;
    assert(-mark_bound() < c1 * step.mantissa < mark_bound()) by (nonlinear_arith)
        requires -0x8000_0000_0000_0000int * 100 <= c1 <= 0x8000_0000_0000_0000int * 100, 1 <= step.mantissa <= 3600;
}

const BOUND_124: i128 = 0x1000_0000_0000_0000_0000_0000_0000_0000;

/// `ceil(n / d)` for `d > 0`.
fn ceil_div_exec(n: i128, d: i128) -> (r: i128)
    requires
        0 < d < BOUND_124,
        -BOUND_124 < n < BOUND_124,
    ensures
        r == ceil_div(n as int, d as int),
        n >= 0 ==> 0 <= r <= n,
        n < 0 ==> n <= r <= 0,
{
    let m = n + d - 1;
    if m >= 0 {
        let q = (m as u128 / d as u128) as i128;
        proof {
            assert(q * d <= m < q * d + d) by (nonlinear_arith)
                requires
                    q == m / d,
                    m >= 0,
                    d > 0,
            ;
            if n >= 0 {
                assert(q <= n) by (nonlinear_arith)
                    requires
                        q * d <= n + d - 1,
                        d > 0,
                        n >= 0,
                        q >= 0,
                ;
            } else {
                assert(q == 0) by (nonlinear_arith)
                    requires
                        q * d <= m,
                        m < d,
                        m >= 0,
                        q >= 0,
                        d > 0,
                ;
            }
        }
        q
    } else {
        let q0 = (((-m) as u128 + d as u128 - 1) / d as u128) as i128;
        proof {
            let x: int = -m + d - 1;
            assert(q0 * d <= x < q0 * d + d) by (nonlinear_arith)
                requires
                    q0 == x / (d as int),
                    x >= 0,
                    d > 0,
            ;
            assert(-q0 * d == -(q0 * d)) by (nonlinear_arith);
            lemma_fundamental_div_mod_converse(m as int, d as int, -q0, m + q0 * d);
            assert(q0 <= -n) by (nonlinear_arith)
                requires
                    q0 * d <= -m + d - 1,
                    m == n + d - 1,
                    d > 0,
                    q0 >= 0,
            ;
        }
        -q0
    }
}

/// Appends every multiple of `step` within `[min, max)`, as the grid
/// counts them.
fn fill_marks_between(out: &mut Vec<GridMark>, step: Decimal, bounds: (Decimal, Decimal))
    requires
        step.wf(),
        step.mantissa > 0,
        marks_fit(step, bounds),
        bounds.0.wf(),
        bounds.1.wf(),
    ensures
        final(out)@ == old(out)@ + marks_between(step, bounds),
{
    let (min, max) = bounds;
    let ps = pow10_exec(step.scale);
    let p_min = pow10_exec(min.scale);
    let p_max = pow10_exec(max.scale);
    proof {
        lemma_pow10_monotone(step.scale as nat, 18);
        lemma_pow10_monotone(min.scale as nat, 18);
        lemma_pow10_monotone(max.scale as nat, 18);
        lemma_pow10_36();
        let e18 = 1_000_000_000_000_000_000int;
        assert(-0x8000_0000_0000_0000int * e18 <= min.mantissa * ps <= 0x8000_0000_0000_0000int * e18) by (nonlinear_arith)
            requires -0x8000_0000_0000_0000int <= min.mantissa < 0x8000_0000_0000_0000int, 1 <= ps <= e18;
        assert(-0x8000_0000_0000_0000int * e18 <= max.mantissa * ps <= 0x8000_0000_0000_0000int * e18) by (nonlinear_arith)
            requires -0x8000_0000_0000_0000int <= max.mantissa < 0x8000_0000_0000_0000int, 1 <= ps <= e18;
        assert(1 <= step.mantissa * p_min <= 0x8000_0000_0000_0000int * e18) by (nonlinear_arith)
            requires 1 <= step.mantissa < 0x8000_0000_0000_0000int, 1 <= p_min <= e18;
        assert(1 <= step.mantissa * p_max <= 0x8000_0000_0000_0000int * e18) by (nonlinear_arith)
            requires 1 <= step.mantissa < 0x8000_0000_0000_0000int, 1 <= p_max <= e18;
    }
    let first = ceil_div_exec(min.mantissa as i128 * ps, step.mantissa as i128 * p_min);
    let last = ceil_div_exec(max.mantissa as i128 * ps, step.mantissa as i128 * p_max);
    let ghost start = out@;
    let ghost marks = marks_between(step, bounds);
    let mut i = first;
    while i < last
        invariant
            first <= i,
            i <= last || i == first,
            first == ceil_steps(min, step),
            last == ceil_steps(max, step),
            bounds == (min, max),
            step.mantissa > 0,
            -mark_bound() < first * step.mantissa < mark_bound(),
            -mark_bound() < last * step.mantissa < mark_bound(),
            marks == marks_between(step, bounds),
            out@ == start + marks.subrange(0, i - first),
            last > first ==> marks.len() == last - first,
        decreases last - i,
    {
        proof {
            assert(-mark_bound() < i * step.mantissa < mark_bound()) by (nonlinear_arith)
                requires
                    first <= i < last,
                    step.mantissa > 0,
                    -mark_bound() < first * step.mantissa,
                    last * step.mantissa < mark_bound();
        }
        out.push(GridMark { value: Fixed { mantissa: i * step.mantissa as i128, scale: step.scale }, step_size: step });
        i = i + 1;
        assert(out@ =~= start + marks.subrange(0, i - first));
    }
    if last > first {
        assert(marks.subrange(0, i - first) == marks);
    } else {
        assert(marks.len() == 0);
        assert(out@ =~= start + marks);
    }
}

/// The marks of three spacings, finest first.
fn generate_marks(step_sizes: [Decimal; 3], bounds: (Decimal, Decimal)) -> (r: Vec<GridMark>)
    requires
        forall|k: int|
            0 <= k < 3 ==> (#[trigger] step_sizes@[k]).wf() && step_sizes@[k].mantissa > 0
                && marks_fit(step_sizes@[k], bounds),
        bounds.0.wf(),
        bounds.1.wf(),
    ensures
        r@ == marks_between(step_sizes@[0], bounds) + marks_between(step_sizes@[1], bounds)
            + marks_between(step_sizes@[2], bounds),
{
    let mut steps: Vec<GridMark> = Vec::new();
    fill_marks_between(&mut steps, step_sizes[0], bounds);
    fill_marks_between(&mut steps, step_sizes[1], bounds);
    fill_marks_between(&mut steps, step_sizes[2], bounds);
    assert(steps@ =~= marks_between(step_sizes@[0], bounds) + marks_between(step_sizes@[1], bounds)
        + marks_between(step_sizes@[2], bounds));
    steps
}

/// The time-axis marks for the visible range: all multiples of each of the
/// three spacings that the base spacing selects, finest first, overlaps kept.
pub fn ecg_grid_spacer(grid_input: GridInput) -> (r: Vec<GridMark>)
    requires
        grid_input.bounds.0.wf(),
        grid_input.bounds.1.wf(),
        grid_input.base_step_size.wf(),
        grid_input.bounds.0.less_than(grid_input.bounds.1),
    ensures
        r@ == grid_marks(grid_input.base_step_size, grid_input.bounds),
{
    let base = grid_input.base_step_size;
    let b = grid_input.bounds;
    let t = if !base.lt(&Decimal { mantissa: 60, scale: 0 }) {
        [Decimal { mantissa: 60, scale: 0 }, Decimal { mantissa: 300, scale: 0 }, Decimal { mantissa: 3600, scale: 0 }]
    } else if !base.lt(&Decimal { mantissa: 10, scale: 0 }) {
        [Decimal { mantissa: 10, scale: 0 }, Decimal { mantissa: 60, scale: 0 }, Decimal { mantissa: 300, scale: 0 }]
    } else if !base.lt(&Decimal { mantissa: 1, scale: 0 }) {
        [Decimal { mantissa: 1, scale: 0 }, Decimal { mantissa: 10, scale: 0 }, Decimal { mantissa: 60, scale: 0 }]
    } else if !base.lt(&Decimal { mantissa: 2, scale: 1 }) {
        [Decimal { mantissa: 2, scale: 1 }, Decimal { mantissa: 1, scale: 0 }, Decimal { mantissa: 10, scale: 0 }]
    } else {
        [Decimal { mantissa: 4, scale: 2 }, Decimal { mantissa: 2, scale: 1 }, Decimal { mantissa: 1, scale: 0 }]
    };
    assert(t@ == step_triple(base));
    proof {
        lemma_grid_marks_fit(t@[0], b);
        lemma_grid_marks_fit(t@[1], b);
        lemma_grid_marks_fit(t@[2], b);
    }
    generate_marks(t, b)
}

} // verus!
