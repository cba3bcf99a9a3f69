use ecg_monitor::channel::{PlotType, SampleBasedChannel, TimeBasedChannel};
use ecg_monitor::decimal::{Decimal, Sample};
use ecg_monitor::import::{
    classify_header, detect_format, galaxy_channel, parse_content, parse_galaxy_data,
    parse_polar_data, parse_polar_rows, parse_text, polar_channels, read_row_instants, unit_text,
    Filetype, ParserError, MIN_TIMESTAMP_MILLIS,
};
use ecg_monitor::text::split_lines;

fn dec(mantissa: i64, scale: u32) -> Decimal {
    Decimal { mantissa, scale }
}

fn num(mantissa: i64, scale: u32) -> Sample {
    Sample::Number(dec(mantissa, scale))
}

fn chars(s: &str) -> Vec<char> {
    s.chars().collect()
}

fn millis(s: &str) -> i64 {
    chrono::NaiveDateTime::parse_from_str(s, "%Y-%m-%dT%H:%M:%S%.f")
        .unwrap()
        .and_utc()
        .timestamp_millis()
}

fn time_channels(text: &str) -> Vec<TimeBasedChannel> {
    let (samples, times) = parse_content(text.as_bytes().to_vec());
    assert!(samples.is_empty());
    times
}

const ECG_HEADER: &str = "Phone timestamp;sensor timestamp [ns];timestamp [ms];ecg [uV]";
const ACC_HEADER: &str = "Phone timestamp;sensor timestamp [ns];X [mg];Y [mg];Z [mg]";

fn galaxy_text(birth: &str, rate: &str, samples: &[&str]) -> String {
    let mut t = String::new();
    t.push_str("Name,Erika Mustermann\n");
    t.push_str(&format!("Geburtsdatum,{}\n", birth));
    t.push_str("Durchschnittliche Herzfrequenz,72\n");
    t.push_str("Unterteilung,Sinusrhythmus\n");
    t.push_str("Symptome,Keine\n");
    t.push_str("Softwareversion,1.0\n");
    t.push_str("Gerät,Watch6\n");
    t.push_str(&format!("Abtastrate,{}\n", rate));
    t.push_str("\n\n");
    t.push_str("Lead,Ableitung I\n");
    t.push_str("Unit,µV\n");
    for s in samples {
        t.push_str(s);
        t.push('\n');
    }
    t
}

#[test]
fn ecg_two_lines_gives_one_scaled_sample() {
    let text = format!("{}\n2023-05-01T10:20:30.250;1;2;1000\n", ECG_HEADER);
    let times = time_channels(&text);
    assert_eq!(times.len(), 1);
    let c = &times[0];
    assert_eq!(c.name, "ecg [uV]");
    assert_eq!(c.unit, "uV");
    assert_eq!(c.plot_type, PlotType::Line);
    assert_eq!(c.color, None);
    assert_eq!(c.scaling_factor, dec(1, 0));
    assert_eq!(c.data, vec![(millis("2023-05-01T10:20:30.250"), num(1000, 3))]);
}

#[test]
fn acc_two_lines_gives_three_channels() {
    let text = format!("{}\n2023-05-01T10:20:30;9;-981;20;1500\n", ACC_HEADER);
    let times = time_channels(&text);
    assert_eq!(times.len(), 3);
    let t = millis("2023-05-01T10:20:30");
    assert_eq!(times[0].name, "X [mg]");
    assert_eq!(times[1].name, "Y [mg]");
    assert_eq!(times[2].name, "Z [mg]");
    assert_eq!(times[0].unit, "mg");
    assert_eq!(times[0].data, vec![(t, num(-981, 3))]);
    assert_eq!(times[1].data, vec![(t, num(20, 3))]);
    assert_eq!(times[2].data, vec![(t, num(1500, 3))]);
}

#[test]
fn hr_two_lines_is_unscaled() {
    let times = time_channels("Phone timestamp;HR [bpm]\n2023-05-01T10:20:30.5;72\n");
    assert_eq!(times.len(), 1);
    assert_eq!(times[0].name, "HR [bpm]");
    assert_eq!(times[0].unit, "bpm");
    assert_eq!(times[0].data, vec![(millis("2023-05-01T10:20:30.5"), num(72, 0))]);
}

#[test]
fn rr_two_lines_is_in_seconds() {
    let times = time_channels("Phone timestamp;RR-interval [ms]\n2023-05-01T10:20:30;812\n");
    assert_eq!(times.len(), 1);
    assert_eq!(times[0].unit, "ms");
    assert_eq!(times[0].data, vec![(millis("2023-05-01T10:20:30"), num(812, 3))]);
}

#[test]
fn many_rows_keep_their_order_and_duplicate_times() {
    let text = format!(
        "{}\n2023-05-01T10:00:01;0;0;5\n2023-05-01T10:00:00;0;0;-7.5\n2023-05-01T10:00:00;0;0;0\n",
        ECG_HEADER
    );
    let times = time_channels(&text);
    assert_eq!(times.len(), 1);
    assert_eq!(
        times[0].data,
        vec![
            (millis("2023-05-01T10:00:01"), num(5, 3)),
            (millis("2023-05-01T10:00:00"), num(-75, 4)),
            (millis("2023-05-01T10:00:00"), num(0, 3)),
        ]
    );
}

#[test]
fn unreadable_timestamp_is_the_earliest_instant() {
    let times = time_channels("Phone timestamp;HR [bpm]\nnot a time;60\n");
    assert_eq!(times[0].data, vec![(MIN_TIMESTAMP_MILLIS, num(60, 0))]);
}

#[test]
fn earliest_instant_matches_chrono() {
    assert_eq!(
        MIN_TIMESTAMP_MILLIS,
        chrono::NaiveDateTime::MIN.and_utc().timestamp_millis()
    );
}

#[test]
fn unreadable_value_is_a_conversion_error() {
    let text = format!("{}\n2023-05-01T10:20:30;1;2;12x\n", ECG_HEADER);
    match parse_polar_data(text.clone(), Filetype::PolarECG, 2) {
        Err(ParserError::DataConversionError { data_str }) => assert_eq!(data_str, "12x"),
        other => panic!("unexpected result {:?}", other),
    }
    assert!(time_channels(&text).is_empty());
}

#[test]
fn non_chest_strap_type_is_a_content_error() {
    let text = format!("{}\n2023-05-01T10:20:30;1;2;3\n", ECG_HEADER);
    assert!(matches!(
        parse_polar_data(text.clone(), Filetype::Unknown, 2),
        Err(ParserError::ContentError)
    ));
    assert!(matches!(
        parse_polar_data(text, Filetype::GalaxyWatch, 2),
        Err(ParserError::ContentError)
    ));
}

#[test]
fn short_row_is_a_content_error() {
    let rows = vec![
        vec!["Phone timestamp".to_string(), "X [mg]".to_string(), "Y".to_string()],
        vec!["2023-05-01T10:20:30".to_string(), "1".to_string(), "2".to_string()],
    ];
    assert!(matches!(
        parse_polar_rows(&rows, Filetype::PolarACC, 2),
        Err(ParserError::ContentError)
    ));
}

#[test]
fn rows_with_a_short_header_name_fewer_channels() {
    let rows = vec![
        vec!["a".to_string(), "b".to_string(), "c".to_string(), "X [mg]".to_string(), "e".to_string()],
        vec!["t".to_string(), "1".to_string(), "2".to_string(), "3".to_string(), "4".to_string()],
    ];
    let chs = parse_polar_rows(&rows, Filetype::PolarACC, 2).unwrap();
    assert_eq!(chs.len(), 3);
    let rows = vec![
        vec!["a".to_string(), "b".to_string(), "X".to_string()],
        vec!["t".to_string(), "1".to_string(), "2".to_string(), "3".to_string()],
    ];
    let chs = parse_polar_rows(&rows, Filetype::PolarECG, 2).unwrap();
    assert_eq!(chs.len(), 0);
}

#[test]
fn csv_stops_at_a_row_of_another_width() {
    let text = "Phone timestamp;HR [bpm]\n2023-05-01T10:20:30;60\n2023-05-01T10:20:31;61;9\n2023-05-01T10:20:32;62\n";
    let times = time_channels(text);
    assert_eq!(times[0].data, vec![(millis("2023-05-01T10:20:30"), num(60, 0))]);
}

#[test]
fn unit_is_between_the_brackets() {
    assert_eq!(unit_text(&chars("ecg [uV]")), "uV");
    assert_eq!(unit_text(&chars("plain")), "plain");
    assert_eq!(unit_text(&chars("open [mg")), "open [mg");
    assert_eq!(unit_text(&chars("close mg]")), "close mg]");
    assert_eq!(unit_text(&chars("a]b[c")), "a]b[c");
    assert_eq!(unit_text(&chars("a]b[c]d]")), "c");
    assert_eq!(unit_text(&chars("[]")), "");
}

#[test]
fn signatures_select_their_dialect_whatever_follows() {
    let cases = [
        (ECG_HEADER, Filetype::PolarECG),
        (ACC_HEADER, Filetype::PolarACC),
        ("Phone timestamp;HR [bpm]", Filetype::PolarHR),
        ("Phone timestamp;RR-interval [ms]", Filetype::PolarRR),
    ];
    for (sig, ft) in cases {
        let text = format!("{}\r\n garbage ;;; \u{0}\n", sig);
        assert_eq!(detect_format(&chars(&text)), ft);
        assert_eq!(classify_header(&chars(sig)), ft);
    }
}

#[test]
fn one_character_off_is_not_a_chest_strap_file() {
    assert_eq!(classify_header(&chars("Phone timestamp;HR [bpm ]")), Filetype::Unknown);
    assert_eq!(classify_header(&chars("phone timestamp;HR [bpm]")), Filetype::Unknown);
    assert_eq!(classify_header(&chars("Phone timestamp;RR-interval [ms];")), Filetype::Unknown);
    assert_eq!(classify_header(&chars("Name,Phone timestamp;HR [bpm]")), Filetype::GalaxyWatch);
    assert_eq!(classify_header(&chars("\u{feff}Name,x")), Filetype::GalaxyWatch);
    assert_eq!(classify_header(&chars("Name;x")), Filetype::Unknown);
}

#[test]
fn first_line_is_trimmed_and_may_be_the_whole_text() {
    assert_eq!(detect_format(&chars("  Phone timestamp;HR [bpm]\t\n1")), Filetype::PolarHR);
    assert_eq!(detect_format(&chars("Phone timestamp;HR [bpm]")), Filetype::PolarHR);
    assert_eq!(detect_format(&chars("Name,x")), Filetype::GalaxyWatch);
    assert_eq!(detect_format(&chars("")), Filetype::Unknown);
}

#[test]
fn signature_alone_gives_an_empty_channel() {
    let (samples, times) = parse_content(b"Phone timestamp;HR [bpm]".to_vec());
    assert!(samples.is_empty());
    assert_eq!(times.len(), 1);
    assert_eq!(times[0].name, "HR [bpm]");
    assert!(times[0].data.is_empty());
}

#[test]
fn empty_and_unknown_content_give_nothing() {
    let (s, t) = parse_content(vec![]);
    assert!(s.is_empty() && t.is_empty());
    let (s, t) = parse_content(b"hello\nworld\n".to_vec());
    assert!(s.is_empty() && t.is_empty());
}

#[test]
fn invalid_utf8_is_replaced_not_refused() {
    let mut bytes = b"Phone timestamp;HR [bpm]\n2023-05-01T10:20:30;60\n".to_vec();
    bytes.extend_from_slice(&[0xff, 0xfe, b';', b'1', b'\n']);
    let times = time_channels_from_bytes(bytes);
    assert_eq!(times.len(), 1);
    assert_eq!(
        times[0].data,
        vec![
            (millis("2023-05-01T10:20:30"), num(60, 0)),
            (MIN_TIMESTAMP_MILLIS, num(1, 0)),
        ]
    );
}

fn time_channels_from_bytes(bytes: Vec<u8>) -> Vec<TimeBasedChannel> {
    let (samples, times) = parse_content(bytes);
    assert!(samples.is_empty());
    times
}

fn galaxy(text: &str) -> SampleBasedChannel {
    let (samples, times) = parse_content(text.as_bytes().to_vec());
    assert!(times.is_empty());
    assert_eq!(samples.len(), 1);
    samples.into_iter().next().unwrap()
}

#[test]
fn smartwatch_export_gives_one_channel() {
    let c = galaxy(&galaxy_text("1990-01-05", "512000 mHz", &["0,125", "-1", "2.5"]));
    assert_eq!(c.name, "Erika Mustermann 1990-01-05");
    assert_eq!(c.unit, "mV");
    assert_eq!(c.plot_type, PlotType::Line);
    assert_eq!(c.samples_per_second, dec(512000, 3));
    assert_eq!(c.data, vec![num(125, 3), num(-1, 0), num(25, 1)]);
}

#[test]
fn smartwatch_corrupt_sample_is_not_a_number() {
    let c = galaxy(&galaxy_text("1990-01-05", "500000 mHz", &["1", "x7", "3", "2,5e-1"]));
    assert_eq!(c.data, vec![num(1, 0), Sample::NaN, num(3, 0), num(25, 2)]);
}

#[test]
fn smartwatch_bad_birth_date_is_a_content_error() {
    let text = galaxy_text("05.01.1990", "500000 mHz", &["1"]);
    assert!(matches!(parse_galaxy_data(text.clone(), 20), Err(ParserError::ContentError)));
    let (s, t) = parse_content(text.into_bytes());
    assert!(s.is_empty() && t.is_empty());
}

#[test]
fn smartwatch_unreadable_rate_is_500_per_second() {
    let c = galaxy(&galaxy_text("1990-01-05", "fast Hz", &["1"]));
    assert_eq!(c.samples_per_second, dec(500, 0));
}

#[test]
fn smartwatch_rate_without_unit_is_a_content_error() {
    let text = galaxy_text("1990-01-05", "500000", &["1"]);
    assert!(matches!(parse_galaxy_data(text, 20), Err(ParserError::ContentError)));
}

#[test]
fn smartwatch_missing_metadata_is_a_content_error() {
    assert!(matches!(
        parse_galaxy_data("Name,A\nGeburtsdatum,1990-01-05\n".to_string(), 2),
        Err(ParserError::ContentError)
    ));
    assert!(matches!(
        parse_galaxy_data("Name A\n1\n2\n3\n4\n5\n6\n7\n".to_string(), 2),
        Err(ParserError::ContentError)
    ));
}

#[test]
fn smartwatch_with_byte_order_mark_and_crlf() {
    let text = galaxy_text("1990-01-05", "500000 mHz", &["4"]).replace('\n', "\r\n");
    let c = galaxy(&format!("\u{feff}{}", text));
    assert_eq!(c.name, "Erika Mustermann 1990-01-05");
    assert_eq!(c.data, vec![num(4, 0)]);
}

#[test]
fn reparsing_gives_the_same_channels() {
    let texts = [
        format!("{}\n2023-05-01T10:20:30;1;2;1000\n", ECG_HEADER),
        galaxy_text("1990-01-05", "500000 mHz", &["1", "x", "2"]),
    ];
    for t in texts {
        let a = parse_text(t.clone());
        let b = parse_text(t.clone());
        assert_eq!(format!("{:?}", a), format!("{:?}", b));
        let c = parse_content(t.into_bytes());
        assert_eq!(format!("{:?}", a), format!("{:?}", c));
    }
}

#[test]
fn smartwatch_birth_date_is_written_back_in_full() {
    let c = galaxy(&galaxy_text("1990-1-5", "500000 mHz", &["1"]));
    assert_eq!(c.name, "Erika Mustermann 1990-01-05");
}

#[test]
fn smartwatch_last_line_keeps_its_carriage_return() {
    let text = galaxy_text("1990-01-05", "500000 mHz", &["4", "5"]).replace('\n', "\r\n");
    let text = text.trim_end_matches('\n').to_string();
    let c = galaxy(&text);
    assert_eq!(c.data, vec![num(4, 0), Sample::NaN]);
}

#[test]
fn chest_strap_rows_take_the_given_instants() {
    let rows: Vec<Vec<String>> = vec![
        vec!["Phone timestamp".into(), "HR [bpm]".into()],
        vec!["anything".into(), "61".into()],
        vec!["else".into(), "62.5".into()],
    ];
    let chs = polar_channels(&rows, &vec![None, Some(42), None], Filetype::PolarHR, 3).unwrap();
    assert_eq!(chs.len(), 1);
    assert_eq!(chs[0].data, vec![(42, num(61, 0)), (MIN_TIMESTAMP_MILLIS, num(625, 1))]);
    assert_eq!(read_row_instants(&rows), vec![None, None, None]);
}

#[test]
fn row_instants_come_from_the_first_field() {
    let rows: Vec<Vec<String>> = vec![
        vec!["1970-01-01T00:00:01.5".into(), "x".into()],
        vec![],
        vec!["1969-12-31T23:59:59".into()],
    ];
    assert_eq!(read_row_instants(&rows), vec![Some(1500), None, Some(-1000)]);
}

#[test]
fn smartwatch_lines_take_the_given_birth_date() {
    let text = galaxy_text("not a date", "250000 Hz", &["1,5", ""]);
    let lines = split_lines(&chars(&text));
    let chs = galaxy_channel(&lines, Some("2000-02-29".to_string()), 2).unwrap();
    assert_eq!(chs[0].name, "Erika Mustermann 2000-02-29");
    assert_eq!(chs[0].samples_per_second, dec(250000, 3));
    assert_eq!(chs[0].data, vec![num(15, 1), Sample::NaN]);
    assert!(matches!(galaxy_channel(&lines, None, 2), Err(ParserError::ContentError)));
}

#[test]
fn chest_strap_reads_every_float_value() {
    let text = "Phone timestamp;HR [bpm]\nx;NaN\nx;-inf\nx;Infinity\nx;1e25\nx;12345678901234567890.5\nx;1e400\nx;5e-400\n";
    let times = time_channels(text);
    let t = MIN_TIMESTAMP_MILLIS;
    assert_eq!(
        times[0].data,
        vec![
            (t, Sample::NaN),
            (t, Sample::Infinity { negative: true }),
            (t, Sample::Infinity { negative: false }),
            (t, Sample::Wide { mantissa: 100_000_000_000_000_000, exponent: 8 }),
            (t, Sample::Wide { mantissa: 123_456_789_012_345_679, exponent: 2 }),
            (t, Sample::Infinity { negative: false }),
            (t, num(0, 15)),
        ]
    );
}

#[test]
fn chest_strap_scaling_applies_to_wide_values() {
    let text = format!("{}\n2023-05-01T10:20:30;1;2;-1e20\n", ECG_HEADER);
    let times = time_channels(&text);
    assert_eq!(times[0].data[0].1, Sample::Wide { mantissa: -100_000_000_000_000_000, exponent: 0 });
}

#[test]
fn only_text_that_is_no_number_is_a_conversion_error() {
    let text = format!("{}\n2023-05-01T10:20:30;1;2;nan\n2023-05-01T10:20:31;1;2;infinite\n", ECG_HEADER);
    match parse_polar_data(text, Filetype::PolarECG, 3) {
        Err(ParserError::DataConversionError { data_str }) => assert_eq!(data_str, "infinite"),
        other => panic!("unexpected result {:?}", other),
    }
}

#[test]
fn smartwatch_keeps_infinite_and_wide_samples() {
    let c = galaxy(&galaxy_text("1990-01-05", "500000 mHz", &["-INF", "nan", "1e19"]));
    assert_eq!(
        c.data,
        vec![
            Sample::Infinity { negative: true },
            Sample::NaN,
            Sample::Wide { mantissa: 100_000_000_000_000_000, exponent: 2 },
        ]
    );
}
