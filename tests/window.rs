use ecg_monitor::channel::{
    ChannelPlotter, Color, DrawableChannel, PlotType, Point, Reading, SampleBasedChannel,
    TimeBasedChannel,
};
use ecg_monitor::decimal::{Decimal, Fixed, Ratio, Sample};
use ecg_monitor::sample_data::{Channel, SampleData};

fn dec(mantissa: i64, scale: u32) -> Decimal {
    Decimal { mantissa, scale }
}

fn channel(n: i64, rate: Decimal) -> SampleBasedChannel {
    SampleBasedChannel::new(
        "test".to_string(),
        (0..n).map(|i| Sample::Number(dec(i, 0))).collect(),
        rate,
        dec(1, 0),
        PlotType::Line,
        None,
        "mV".to_string(),
    )
}

#[test]
fn unbounded_window_gives_every_point() {
    let c = channel(10, dec(2, 0));
    let p = c.points_to_draw(None, None);
    assert_eq!(p.len(), 10);
    assert_eq!(p[3], Point { x: Ratio { numer: 3, denom: 2 }, y: Reading::Value(Fixed { mantissa: 3, scale: 0 }) });
}

#[test]
fn reversed_window_is_empty() {
    let c = channel(10, dec(2, 0));
    let (s, e) = c.window_indices(Some(dec(3, 0)), Some(dec(1, 0)));
    assert_eq!(s, e);
    assert!(c.points_to_draw(Some(dec(3, 0)), Some(dec(1, 0))).is_empty());
    let (s, e) = c.window_indices(Some(dec(5, 1)), Some(dec(4, 1)));
    assert_eq!(s, e);
}

#[test]
fn window_bounds_clamp_to_the_samples() {
    let c = channel(10, dec(2, 0));
    assert_eq!(c.window_indices(Some(dec(-5, 0)), Some(dec(100, 0))), (0, 10));
    assert_eq!(c.window_indices(Some(dec(100, 0)), Some(dec(200, 0))), (10, 10));
    assert_eq!(c.window_indices(Some(dec(-5, 0)), Some(dec(-1, 0))), (0, 0));
}

#[test]
fn window_uses_floor_and_ceil() {
    let c = channel(10, dec(2, 0));
    // 1.3 s * 2 = 2.6 -> 2; 2.1 s * 2 = 4.2 -> 5
    assert_eq!(c.window_indices(Some(dec(13, 1)), Some(dec(21, 1))), (2, 5));
    let p = c.points_to_draw(Some(dec(13, 1)), Some(dec(21, 1)));
    assert_eq!(p.len(), 3);
    assert_eq!(p[0].x, Ratio { numer: 2, denom: 2 });
    assert_eq!(p[2].y, Reading::Value(Fixed { mantissa: 4, scale: 0 }));
}

#[test]
fn fractional_rate_times_and_scaling() {
    let mut c = channel(3, dec(2500, 1));
    c.set_scaling_factor(dec(-15, 1));
    let p = c.points_to_draw(None, None);
    // sample 2 at 2 / 250 s, value 2 * -1.5
    assert_eq!(p[2].x, Ratio { numer: 20, denom: 2500 });
    assert_eq!(p[2].y, Reading::Value(Fixed { mantissa: -30, scale: 1 }));
}

#[test]
fn not_a_number_samples_stay_in_place() {
    let c = SampleBasedChannel::new(
        "n".to_string(),
        vec![Sample::Number(dec(1, 0)), Sample::NaN, Sample::Number(dec(2, 0))],
        dec(1, 0),
        dec(1, 0),
        PlotType::Line,
        None,
        "mV".to_string(),
    );
    let p = c.points_to_draw(None, None);
    assert_eq!(p[1], Point { x: Ratio { numer: 1, denom: 1 }, y: Reading::NaN });
}

#[test]
fn sample_markers_are_the_zero_values() {
    let mut c = SampleBasedChannel::new(
        "beats".to_string(),
        vec![Sample::Number(dec(3, 0)), Sample::Number(dec(0, 2)), Sample::NaN, Sample::Number(dec(0, 0))],
        dec(4, 0),
        dec(2, 0),
        PlotType::Points,
        Some(Color { r: 1, g: 2, b: 3, a: 4 }),
        "".to_string(),
    );
    let expected = vec![
        Point { x: Ratio { numer: 1, denom: 4 }, y: Reading::Value(Fixed { mantissa: 2, scale: 0 }) },
        Point { x: Ratio { numer: 3, denom: 4 }, y: Reading::Value(Fixed { mantissa: 2, scale: 0 }) },
    ];
    assert_eq!(c.marker_points(), expected);
    assert_eq!(c.draw_points(Some(dec(1, 0)), Some(dec(2, 0))), expected);
    c.set_color(None);
    assert_eq!(c.color, None);
}

#[test]
fn time_channel_points_ignore_the_window() {
    let c = TimeBasedChannel::new(
        "hr".to_string(),
        vec![(1500, Sample::Number(dec(60, 0))), (500, Sample::Number(dec(0, 0)))],
        dec(1, 1),
        PlotType::Line,
        "bpm".to_string(),
        None,
    );
    let p = c.points_to_draw(Some(dec(10, 0)), Some(dec(20, 0)));
    assert_eq!(
        p,
        vec![
            Point { x: Ratio { numer: 1500, denom: 1000 }, y: Reading::Value(Fixed { mantissa: 60, scale: 1 }) },
            Point { x: Ratio { numer: 500, denom: 1000 }, y: Reading::Value(Fixed { mantissa: 0, scale: 1 }) },
        ]
    );
    assert_eq!(
        c.marker_points(),
        vec![Point { x: Ratio { numer: 500, denom: 1_000_000 }, y: Reading::Value(Fixed { mantissa: 0, scale: 1 }) }]
    );
    assert_eq!(c.get_name(), "hr");
    assert_eq!(c.get_unit(), "bpm");
}

#[test]
fn slices_of_samples() {
    let c = channel(5, dec(1, 0));
    assert_eq!(c.get_slice(None, None).len(), 5);
    assert_eq!(c.get_slice(Some(1), Some(3)), &[Sample::Number(dec(1, 0)), Sample::Number(dec(2, 0))][..]);
    assert_eq!(c.get_slice(Some(4), None), &[Sample::Number(dec(4, 0))][..]);
}

#[test]
fn plotter_keeps_display_order() {
    let mut p = ChannelPlotter::new("ECG".to_string(), vec![]);
    let t = TimeBasedChannel::new("t".to_string(), vec![], dec(1, 0), PlotType::Line, "u".to_string(), None);
    p.add_channel(DrawableChannel::TimeBased(t.clone()));
    p.add_parsed(vec![channel(1, dec(1, 0)), channel(2, dec(1, 0))], vec![t]);
    assert_eq!(p.channels.len(), 4);
    assert_eq!(p.channels[0].get_name(), "t");
    assert!(matches!(&p.channels[1], DrawableChannel::SampleBased(c) if c.data.len() == 1));
    assert!(matches!(&p.channels[2], DrawableChannel::SampleBased(c) if c.data.len() == 2));
    assert!(matches!(&p.channels[3], DrawableChannel::TimeBased(_)));
    assert_eq!(p.channels[1].get_unit(), "mV");
    assert_eq!(p.channels[1].draw_points(None, None).len(), 1);
    p.clear();
    assert!(p.channels.is_empty());
    assert_eq!(p.name, "ECG");
}

#[test]
fn square_wave_flips_at_multiples() {
    let c = Channel::square_wave(3, dec(100, 0), 7, None);
    assert_eq!(c.name, "square wave, switch every 3 samples");
    let v: Vec<i64> = c.data.iter().map(|d| d.mantissa).collect();
    assert_eq!(v, vec![0, 0, 0, 1, 1, 1, 0]);
    assert_eq!(c.plot_type, PlotType::Line);
    assert!(Channel::square_wave(2, dec(1, 0), -4, None).data.is_empty());
    assert!(Channel::square_wave(0, dec(1, 0), 0, None).data.is_empty());
    let n = Channel::square_wave(-3, dec(100, 0), 7, None);
    assert_eq!(n.name, "square wave, switch every -3 samples");
    let v: Vec<i64> = n.data.iter().map(|d| d.mantissa).collect();
    assert_eq!(v, vec![0, 0, 0, 1, 1, 1, 0]);
    assert_eq!(Channel::square_wave(-2147483648, dec(1, 0), 1, None).name, "square wave, switch every -2147483648 samples");
    let d = Channel::dot_every_n(3, dec(1, 0), 5, None);
    let v: Vec<i64> = d.data.iter().map(|d| d.mantissa).collect();
    assert_eq!(v, vec![0, 1, 2, 0, 1, 2]);
    assert_eq!(d.plot_type, PlotType::Points);
    assert_eq!(d.get_slice(Some(2), Some(4)), &[dec(2, 0), dec(0, 0)][..]);
    let mut s = SampleData::new("demo".to_string(), vec![], "mV".to_string());
    s.add_channel(d);
    s.add_channel(c);
    assert_eq!(s.channels.len(), 2);
    assert_eq!(s.channels[1].name, "square wave, switch every 3 samples");
}

#[test]
fn scaling_infinite_wide_and_missing_values() {
    let mut c = SampleBasedChannel::new(
        "odd".to_string(),
        vec![
            Sample::Infinity { negative: false },
            Sample::Wide { mantissa: 12, exponent: 30 },
            Sample::NaN,
        ],
        dec(1, 0),
        dec(-25, 1),
        PlotType::Line,
        None,
        "mV".to_string(),
    );
    let ys: Vec<Reading> = c.points_to_draw(None, None).iter().map(|p| p.y).collect();
    assert_eq!(
        ys,
        vec![
            Reading::Infinity { negative: true },
            Reading::Wide { mantissa: -300, exponent: 29 },
            Reading::NaN,
        ]
    );
    c.set_scaling_factor(dec(0, 0));
    assert_eq!(c.points_to_draw(None, None)[0].y, Reading::NaN);
    assert!(c.marker_points().is_empty());
}

#[test]
fn well_formed_checks_rate_scale_and_samples() {
    let c = channel(3, dec(2, 0));
    assert!(c.well_formed());
    assert!(!channel(3, dec(0, 0)).well_formed());
    assert!(!channel(3, dec(5, 19)).well_formed());
    let mut d = channel(1, dec(1, 0));
    d.data.push(Sample::Number(dec(1, 30)));
    assert!(!d.well_formed());
    let t = TimeBasedChannel::new("t".to_string(), vec![(0, Sample::NaN)], dec(1, 0), PlotType::Line, "u".to_string(), None);
    assert!(DrawableChannel::TimeBased(t).well_formed());
}

#[test]
fn demo_signal_points_come_from_a_sample_channel() {
    let d = Channel::dot_every_n(2, dec(4, 0), 3, None);
    let c = d.to_sample_channel();
    assert_eq!(c.name, "dots");
    assert_eq!(c.unit, "");
    assert_eq!(c.data, vec![Sample::Number(dec(0, 0)), Sample::Number(dec(1, 0)), Sample::Number(dec(0, 0)), Sample::Number(dec(1, 0))]);
    assert_eq!(
        c.draw_points(None, None),
        vec![
            Point { x: Ratio { numer: 0, denom: 4 }, y: Reading::Value(Fixed { mantissa: 1, scale: 0 }) },
            Point { x: Ratio { numer: 2, denom: 4 }, y: Reading::Value(Fixed { mantissa: 1, scale: 0 }) },
        ]
    );
}
