//! Recognising an exported recording by its first line, and parsing the
//! chest-strap and smartwatch dialects into channels.

use vstd::prelude::*;
use crate::bridge::{
    csv_rows_of, date_text_of, datetime_millis_of, decode_lossy, parse_date_text,
    parse_datetime_millis, read_csv_rows, string_of, utf8_lossy,
};
use crate::channel::{PlotType, SampleBasedChannel, TimeBasedChannel};
use crate::decimal::{
    decimal_of, parse_decimal, parse_sample, sample_of_text, sample_ok, Decimal, Sample,
    MAX_PARSED_SCALE,
};
use crate::text::{
    chars_of,
    find_char, index_of, is_whitespace, lemma_index_of_bounds, lines_of, same_chars, split_lines, split_once,
    split_once_spec, starts_with, trim, trim_spec,
};

verus! {

/// The export dialect of a recording.
#[derive(Clone, Copy, Debug, PartialEq, Eq, Structural)]
pub enum Filetype {
    PolarECG,
    PolarACC,
    PolarHR,
    PolarRR,
    GalaxyWatch,
    Unknown,
}

/// Why a recording could not be parsed.
#[derive(Clone, Debug)]
pub enum ParserError {
    /// The file's structure is not that of its dialect.
    ContentError,
    /// A value could not be converted; `data_str` is its text.
    DataConversionError { data_str: String },
}

/// A [`ParserError`] with its text as a sequence of characters.
pub enum ErrorView {
    Content,
    Conversion(Seq<char>),
}

impl ParserError {
    pub open spec fn view(&self) -> ErrorView {
        match self {
            ParserError::ContentError => ErrorView::Content,
            ParserError::DataConversionError { data_str } => ErrorView::Conversion(data_str@),
        }
    }
}

/// The timestamp format of chest-strap rows.
pub open spec fn phone_timestamp_format() -> Seq<char> {
    "%Y-%m-%dT%H:%M:%S%.f"@
}

/// The date format of the smartwatch's date-of-birth row.
pub open spec fn birth_date_format() -> Seq<char> {
    "%Y-%m-%d"@
}

/// The earliest instant that chrono's `NaiveDateTime` represents
/// (`NaiveDateTime::MIN`), in milliseconds since the epoch.
/// Rows whose timestamp cannot be read are placed there.
pub const MIN_TIMESTAMP_MILLIS: i64 = -8_334_601_228_800_000;

/// The sample rate of a smartwatch export whose rate row cannot be read:
/// 500 samples per second.
pub const DEFAULT_SAMPLES_PER_SECOND: i64 = 500;

pub open spec fn ecg_signature() -> Seq<char> {
    "Phone timestamp;sensor timestamp [ns];timestamp [ms];ecg [uV]"@
}

pub open spec fn acc_signature() -> Seq<char> {
    "Phone timestamp;sensor timestamp [ns];X [mg];Y [mg];Z [mg]"@
}

pub open spec fn hr_signature() -> Seq<char> {
    "Phone timestamp;HR [bpm]"@
}

pub open spec fn rr_signature() -> Seq<char> {
    "Phone timestamp;RR-interval [ms]"@
}

pub open spec fn has_prefix(s: Seq<char>, p: Seq<char>) -> bool {
    p.len() <= s.len() && s.subrange(0, p.len() as int) == p
}

/// The dialect that a trimmed first line announces.
pub open spec fn header_format(line: Seq<char>) -> Filetype {
    if line == ecg_signature() {
        Filetype::PolarECG
    } else if line == acc_signature() {
        Filetype::PolarACC
    } else if line == hr_signature() {
        Filetype::PolarHR
    } else if line == rr_signature() {
        Filetype::PolarRR
    } else if has_prefix(line, "Name,"@) || has_prefix(line, "\u{feff}Name,"@) {
        Filetype::GalaxyWatch
    } else {
        Filetype::Unknown
    }
}

/// The text before the first `\n`; all of it where there is none.
pub open spec fn first_line(text: Seq<char>) -> Seq<char> {
    text.subrange(0, index_of(text, '\n', 0))
}

/// The dialect of a recording, from its first line without surrounding whitespace.
pub open spec fn format_of(text: Seq<char>) -> Filetype {
    header_format(trim_spec(first_line(text)))
}

/// Which dialect a trimmed first line announces.
pub fn classify_header(line: &[char]) -> (r: Filetype)
    ensures
        r == header_format(line@),
{
    if same_chars(line, &chars_of("Phone timestamp;sensor timestamp [ns];timestamp [ms];ecg [uV]")) {
        Filetype::PolarECG
    } else if same_chars(line, &chars_of("Phone timestamp;sensor timestamp [ns];X [mg];Y [mg];Z [mg]")) {
        Filetype::PolarACC
    } else if same_chars(line, &chars_of("Phone timestamp;HR [bpm]")) {
        Filetype::PolarHR
    } else if same_chars(line, &chars_of("Phone timestamp;RR-interval [ms]")) {
        Filetype::PolarRR
    } else if starts_with(line, &chars_of("Name,")) || starts_with(line, &chars_of("\u{feff}Name,")) {
        Filetype::GalaxyWatch
    } else {
        Filetype::Unknown
    }
}

/// The dialect of a recording.
pub fn detect_format(text: &[char]) -> (r: Filetype)
    ensures
        r == format_of(text@),
{
    let i = find_char(text, '\n', 0);
    let line = crate::text::slice_to_vec(text, 0, i);
    let t = trim(line.as_slice());
    classify_header(t.as_slice())
}

pub open spec fn is_polar(ft: Filetype) -> bool {
    ft == Filetype::PolarECG || ft == Filetype::PolarACC || ft == Filetype::PolarHR || ft
        == Filetype::PolarRR
}

/// The number of leading header columns that name no output channel.
pub open spec fn skipped_columns(ft: Filetype) -> int {
    match ft {
        Filetype::PolarACC => 2,
        Filetype::PolarECG => 3,
        _ => 1,
    }
}

/// The columns that hold the values of the output channels, in order.
pub open spec fn value_columns(ft: Filetype) -> Seq<int> {
    match ft {
        Filetype::PolarACC => seq![2int, 3, 4],
        Filetype::PolarECG => seq![3int],
        _ => seq![1int],
    }
}

/// How many decimal places a value is shifted right: 3 (a factor of 10^-3)
/// for ECG microvolts, accelerometer milli-g and RR milliseconds; none for
/// heart rate.
pub open spec fn value_shift(ft: Filetype) -> int {
    match ft {
        Filetype::PolarHR => 0,
        _ => 3,
    }
}

pub open spec fn shifted(d: Decimal, k: int) -> Decimal {
    Decimal { mantissa: d.mantissa, scale: (d.scale + k) as u32 }
}

/// `v` times 10^-k.
pub open spec fn shift_sample(v: Sample, k: int) -> Sample {
    match v {
        Sample::Number(d) => Sample::Number(shifted(d, k)),
        Sample::Wide { mantissa, exponent } => Sample::Wide { mantissa, exponent: (exponent - k) as i128 },
        _ => v,
    }
}

fn shift_sample_exec(v: Sample, k: u32) -> (r: Sample)
    requires
        k <= 3,
        v matches Sample::Number(d) ==> d.wf() && d.scale <= MAX_PARSED_SCALE,
        v matches Sample::Wide { exponent, .. } ==> exponent >= -0x2_0000_0000_0000_0000_0000_0000,
    ensures
        r == shift_sample(v, k as int),
        sample_ok(r),
{
    match v {
        Sample::Number(d) => Sample::Number(Decimal { mantissa: d.mantissa, scale: d.scale + k }),
        Sample::Wide { mantissa, exponent } => Sample::Wide { mantissa, exponent: exponent - k as i128 },
        _ => v,
    }
}

/// The values of the first `n` value columns of `row`, or the first one that
/// cannot be read.
pub open spec fn values_upto(ft: Filetype, row: Seq<Seq<char>>, n: int) -> Result<Seq<Sample>, ErrorView>
    decreases n,
{
    if n <= 0 {
        Ok(seq![])
    } else {
        match values_upto(ft, row, n - 1) {
            Err(e) => Err(e),
            Ok(vs) => {
                let field = row[value_columns(ft)[n - 1]];
                match sample_of_text(field) {
                    None => Err(ErrorView::Conversion(field)),
                    Some(v) => Ok(vs.push(shift_sample(v, value_shift(ft)))),
                }
            },
        }
    }
}

/// The scaled values of one data row: an error where the row lacks a value
/// column, or where a field is no number at all (see [`sample_of_text`]).
pub open spec fn row_values(ft: Filetype, row: Seq<Seq<char>>) -> Result<Seq<Sample>, ErrorView> {
    let cols = value_columns(ft);
    if row.len() <= cols.last() {
        Err(ErrorView::Content)
    } else {
        values_upto(ft, row, cols.len() as int)
    }
}

/// A row's instant, or the earliest instant where its timestamp could not
/// be read.
pub open spec fn instant_or_earliest(t: Option<i64>) -> i64 {
    match t {
        Some(t) => t,
        None => MIN_TIMESTAMP_MILLIS,
    }
}

/// The instant that chrono reads from the first field of each row.
pub open spec fn row_instants(rows: Seq<Seq<Seq<char>>>) -> Seq<Option<i64>> {
    Seq::new(
        rows.len(),
        |i: int|
            if rows[i].len() > 0 {
                datetime_millis_of(rows[i][0], phone_timestamp_format())
            } else {
                None
            },
    )
}

/// The rows `1..n` read as (time, values), each at the instant given for it,
/// or the first error among them.
pub open spec fn data_rows_upto(
    ft: Filetype,
    rows: Seq<Seq<Seq<char>>>,
    times: Seq<Option<i64>>,
    n: int,
) -> Result<
    Seq<(i64, Seq<Sample>)>,
    ErrorView,
>
    decreases n,
{
    if n <= 1 {
        Ok(seq![])
    } else {
        match data_rows_upto(ft, rows, times, n - 1) {
            Err(e) => Err(e),
            Ok(acc) => match row_values(ft, rows[n - 1]) {
                Err(e) => Err(e),
                Ok(vs) => Ok(acc.push((instant_or_earliest(times[n - 1]), vs))),
            },
        }
    }
}

/// Where a header's unit closes: the first `]` after its first `[`, or the
/// header's length where there is no such pair.
pub open spec fn unit_close(header: Seq<char>) -> int {
    let open = index_of(header, '[', 0);
    if open < header.len() {
        index_of(header, ']', open + 1)
    } else {
        header.len() as int
    }
}

/// The text between the first `[` and the `]` after it in a header; the
/// whole header where there is no such pair.
pub open spec fn unit_of(header: Seq<char>) -> Seq<char> {
    if unit_close(header) < header.len() {
        header.subrange(index_of(header, '[', 0) + 1, unit_close(header))
    } else {
        header
    }
}

/// The names of the output channels: the header columns after the skipped
/// ones, as many as the dialect has channels.
pub open spec fn channel_names(ft: Filetype, rows: Seq<Seq<Seq<char>>>) -> Seq<Seq<char>> {
    if rows.len() == 0 || rows[0].len() <= skipped_columns(ft) {
        seq![]
    } else {
        let names = rows[0].subrange(skipped_columns(ft), rows[0].len() as int);
        let n = value_columns(ft).len() as int;
        if names.len() > n {
            names.subrange(0, n)
        } else {
            names
        }
    }
}

/// What a time-indexed channel that a parser makes holds.
pub struct TimeChannelView {
    pub name: Seq<char>,
    pub data: Seq<(i64, Sample)>,
    pub unit: Seq<char>,
}

impl TimeBasedChannel {
    /// A freshly parsed channel with these contents: unscaled, drawn as a
    /// line, with no colour chosen.
    pub open spec fn parsed_as(&self, v: TimeChannelView) -> bool {
        &&& self.name@ == v.name
        &&& self.data@ == v.data
        &&& self.unit@ == v.unit
        &&& self.scaling_factor == Decimal { mantissa: 1, scale: 0 }
        &&& self.plot_type == PlotType::Line
        &&& self.color is None
    }
}

/// The channels that a chest-strap file of the given rows (header first)
/// yields, or the error that stops it, where `times[i]` is the instant read
/// from row `i`.
pub open spec fn polar_outcome_with(
    ft: Filetype,
    rows: Seq<Seq<Seq<char>>>,
    times: Seq<Option<i64>>,
) -> Result<Seq<TimeChannelView>, ErrorView> {
    if !is_polar(ft) {
        Err(ErrorView::Content)
    } else if rows.len() == 0 {
        Ok(seq![])
    } else {
        match data_rows_upto(ft, rows, times, rows.len() as int) {
            Err(e) => Err(e),
            Ok(acc) => {
                let names = channel_names(ft, rows);
                Ok(
                    Seq::new(
                        names.len(),
                        |k: int|
                            TimeChannelView {
                                name: names[k],
                                data: Seq::new(acc.len(), |i: int| (acc[i].0, acc[i].1[k])),
                                unit: unit_of(names[k]),
                            },
                    ),
                )
            },
        }
    }
}

/// The channels that a chest-strap file of the given rows (header first)
/// yields, or the error that stops it.
pub open spec fn polar_outcome(ft: Filetype, rows: Seq<Seq<Seq<char>>>) -> Result<
    Seq<TimeChannelView>,
    ErrorView,
> {
    polar_outcome_with(ft, rows, row_instants(rows))
}

proof fn lemma_values_len(ft: Filetype, row: Seq<Seq<char>>, n: int)
    requires
        0 <= n,
    ensures
        values_upto(ft, row, n) matches Ok(vs) ==> vs.len() == n,
    decreases n,
{
    if n > 0 {
        lemma_values_len(ft, row, n - 1);
    }
}

proof fn lemma_values_err_stays(ft: Filetype, row: Seq<Seq<char>>, j: int, n: int)
    requires
        0 <= j <= n,
        values_upto(ft, row, j) is Err,
    ensures
        values_upto(ft, row, n) == values_upto(ft, row, j),
    decreases n - j,
{
    if j < n {
        lemma_values_err_stays(ft, row, j, n - 1);
    }
}

proof fn lemma_rows_err_stays(
    ft: Filetype,
    rows: Seq<Seq<Seq<char>>>,
    times: Seq<Option<i64>>,
    j: int,
    n: int,
)
    requires
        1 <= j <= n,
        data_rows_upto(ft, rows, times, j) is Err,
    ensures
        data_rows_upto(ft, rows, times, n) == data_rows_upto(ft, rows, times, j),
    decreases n - j,
{
    if j < n {
        lemma_rows_err_stays(ft, rows, times, j, n - 1);
    }
}

fn column_of(ft: Filetype, j: usize) -> (r: usize)
    requires
        is_polar(ft),
        j < value_columns(ft).len(),
    ensures
        r == value_columns(ft)[j as int],
{
    match ft {
        Filetype::PolarACC => j + 2,
        Filetype::PolarECG => 3,
        _ => 1,
    }
}

/// Reads the value columns of one data row.
fn read_row_values(ft: Filetype, row: &Vec<String>) -> (r: Result<Vec<Sample>, ParserError>)
    requires
        is_polar(ft),
    ensures
        match r {
            Ok(vs) => row_values(ft, row.deep_view()) == Ok::<Seq<Sample>, ErrorView>(vs@)
                && forall|i: int| 0 <= i < vs@.len() ==> sample_ok(#[trigger] vs@[i]),
            Err(e) => row_values(ft, row.deep_view()) == Err::<Seq<Sample>, ErrorView>(e.view()),
        },
{
    let ghost rv = row.deep_view();
    let n_cols: usize = if ft == Filetype::PolarACC {
        3
    } else {
        1
    };
    assert(n_cols == value_columns(ft).len());
    let last_col = column_of(ft, n_cols - 1);
    if row.len() <= last_col {
        return Err(ParserError::ContentError);
    }
    let shift: u32 = if ft == Filetype::PolarHR {
        0
    } else {
        3
    };
    let mut vs: Vec<Sample> = Vec::new();
    let mut j: usize = 0;
    while j < n_cols
        invariant
            is_polar(ft),
            rv == row.deep_view(),
            n_cols == value_columns(ft).len(),
            row@.len() > value_columns(ft).last(),
            forall|k: int| 0 <= k < n_cols ==> 0 <= #[trigger] value_columns(ft)[k] <= value_columns(ft).last(),
            shift == value_shift(ft),
            j <= n_cols,
            values_upto(ft, rv, j as int) == Ok::<Seq<Sample>, ErrorView>(vs@),
            forall|i: int| 0 <= i < vs@.len() ==> sample_ok(#[trigger] vs@[i]),
        decreases n_cols - j,
    {
        let c = column_of(ft, j);
        let field = chars_of(row[c].as_str());
        assert(rv[c as int] == row@[c as int]@);
        match parse_sample(field.as_slice()) {
            None => {
                proof {
                    lemma_values_err_stays(ft, rv, j + 1, n_cols as int);
                }
                return Err(ParserError::DataConversionError { data_str: row[c].as_str().to_owned() });
            },
            Some(v) => {
                vs.push(shift_sample_exec(v, shift));
            },
        }
        j = j + 1;
    }
    Ok(vs)
}

/// Reads the timestamp in the first field of each row.
pub fn read_row_instants(rows: &Vec<Vec<String>>) -> (r: Vec<Option<i64>>)
    ensures
        r@ == row_instants(rows.deep_view()),
{
    let ghost rv = rows.deep_view();
    let mut r: Vec<Option<i64>> = Vec::with_capacity(rows.len());
    let mut i: usize = 0;
    while i < rows.len()
        invariant
            rv == rows.deep_view(),
            i <= rows@.len(),
            r@ == row_instants(rv).subrange(0, i as int),
        decreases rows@.len() - i,
    {
        assert(rv[i as int] == rows@[i as int].deep_view());
        let t = if rows[i].len() > 0 {
            assert(rv[i as int][0] == rows@[i as int]@[0]@);
            parse_datetime_millis(rows[i][0].as_str(), "%Y-%m-%dT%H:%M:%S%.f")
        } else {
            None
        };
        r.push(t);
        i = i + 1;
        assert(r@ =~= row_instants(rv).subrange(0, i as int));
    }
    assert(row_instants(rv).subrange(0, i as int) == row_instants(rv));
    r
}

/// Parses the rows of a chest-strap file, header row first, into one
/// time-indexed channel per value column.
pub fn parse_polar_rows(rows: &Vec<Vec<String>>, file_type: Filetype, n_records: usize) -> (r: Result<
    Vec<TimeBasedChannel>,
    ParserError,
>)
    ensures
        match r {
            Ok(chs) => polar_outcome(file_type, rows.deep_view()) matches Ok(vs) && chs@.len()
                == vs.len() && forall|k: int|
                0 <= k < vs.len() ==> (#[trigger] chs@[k]).parsed_as(vs[k]) && chs@[k].wf(),
            Err(e) => polar_outcome(file_type, rows.deep_view()) == Err::<
                Seq<TimeChannelView>,
                ErrorView,
            >(e.view()),
        },
{
    let instants = read_row_instants(rows);
    polar_channels(rows, &instants, file_type, n_records)
}

/// Builds the channels of a chest-strap file from its rows, header row first,
/// where `instants[i]` is the timestamp read from row `i` (`None`: unreadable).
pub fn polar_channels(
    rows: &Vec<Vec<String>>,
    instants: &Vec<Option<i64>>,
    file_type: Filetype,
    n_records: usize,
) -> (r: Result<Vec<TimeBasedChannel>, ParserError>)
    requires
        instants@.len() == rows@.len(),
    ensures
        match r {
            Ok(chs) => polar_outcome_with(file_type, rows.deep_view(), instants@) matches Ok(vs)
                && chs@.len() == vs.len() && forall|k: int|
                0 <= k < vs.len() ==> (#[trigger] chs@[k]).parsed_as(vs[k]) && chs@[k].wf(),
            Err(e) => polar_outcome_with(file_type, rows.deep_view(), instants@) == Err::<
                Seq<TimeChannelView>,
                ErrorView,
            >(e.view()),
        },
{
    let ghost tv = instants@;
    let ghost rv = rows.deep_view();
    if !(file_type == Filetype::PolarECG || file_type == Filetype::PolarACC || file_type
        == Filetype::PolarHR || file_type == Filetype::PolarRR) {
        return Err(ParserError::ContentError);
    }
    if rows.len() == 0 {
        return Ok(Vec::new());
    }
    let ft = file_type;
    let n_ch: usize = if ft == Filetype::PolarACC {
        3
    } else {
        1
    };
    assert(n_ch == value_columns(ft).len());
    let mut s0: Vec<(i64, Sample)> = Vec::with_capacity(n_records);
    let mut s1: Vec<(i64, Sample)> = Vec::new();
    let mut s2: Vec<(i64, Sample)> = Vec::new();
    let ghost mut acc: Seq<(i64, Seq<Sample>)> = seq![];
    let mut i: usize = 1;
    while i < rows.len()
        invariant
            is_polar(ft),
            ft == file_type,
            rv == rows.deep_view(),
            n_ch == value_columns(ft).len(),
            1 <= i <= rows@.len(),
            tv == instants@,
            tv.len() == rv.len(),
            data_rows_upto(ft, rv, tv, i as int) == Ok::<Seq<(i64, Seq<Sample>)>, ErrorView>(acc),
            forall|j: int| 0 <= j < acc.len() ==> (#[trigger] acc[j]).1.len() == n_ch,
            forall|j: int, k: int| 0 <= j < acc.len() && 0 <= k < n_ch ==> sample_ok(#[trigger] acc[j].1[k]),
            s0@ == Seq::new(acc.len(), |j: int| (acc[j].0, acc[j].1[0])),
            n_ch == 3 ==> s1@ == Seq::new(acc.len(), |j: int| (acc[j].0, acc[j].1[1])),
            n_ch == 3 ==> s2@ == Seq::new(acc.len(), |j: int| (acc[j].0, acc[j].1[2])),
        decreases rows@.len() - i,
    {
        let row = &rows[i];
        assert(rv[i as int] == row.deep_view());
        let vs = match read_row_values(ft, row) {
            Ok(vs) => vs,
            Err(e) => {
                proof {
                    assert(data_rows_upto(ft, rv, tv, i + 1) == Err::<Seq<(i64, Seq<Sample>)>, ErrorView>(e.view()));
                    lemma_rows_err_stays(ft, rv, tv, i + 1, rv.len() as int);
                }
                return Err(e);
            },
        };
        proof {
            lemma_values_len(ft, rv[i as int], value_columns(ft).len() as int);
        }
        let t = match instants[i] {
            Some(t) => t,
            None => MIN_TIMESTAMP_MILLIS,
        };
        proof {
            acc = acc.push((t, vs@));
        }
        s0.push((t, vs[0]));
        if n_ch == 3 {
            s1.push((t, vs[1]));
            s2.push((t, vs[2]));
        }
        i = i + 1;
        assert(s0@ =~= Seq::new(acc.len(), |j: int| (acc[j].0, acc[j].1[0])));
        assert(n_ch == 3 ==> s1@ =~= Seq::new(acc.len(), |j: int| (acc[j].0, acc[j].1[1])));
        assert(n_ch == 3 ==> s2@ =~= Seq::new(acc.len(), |j: int| (acc[j].0, acc[j].1[2])));
    }
    assert(data_rows_upto(ft, rv, tv, rv.len() as int) == Ok::<Seq<(i64, Seq<Sample>)>, ErrorView>(acc));
    let header = &rows[0];
    let skip: usize = if ft == Filetype::PolarACC {
        2
    } else if ft == Filetype::PolarECG {
        3
    } else {
        1
    };
    // one channel per header column after the skipped ones, at most one per value column
    let mut out: Vec<TimeBasedChannel> = Vec::new();
    if skip < header.len() {
        out.push(polar_channel(header, skip, s0));
    }
    if n_ch == 3 && skip + 1 < header.len() {
        out.push(polar_channel(header, skip + 1, s1));
    }
    if n_ch == 3 && skip + 2 < header.len() {
        out.push(polar_channel(header, skip + 2, s2));
    }
    proof {
        let names = channel_names(ft, rv);
        let expected = match polar_outcome_with(ft, rv, tv) {
            Ok(v) => v,
            Err(_) => seq![],
        };
        assert(names.len() == out@.len());
        assert forall|k: int| 0 <= k < expected.len() implies (#[trigger] out@[k]).parsed_as(
            expected[k],
        ) && out@[k].wf() by {
            assert(names[k] == rv[0][skip + k]);
            if k == 0 {
                assert(out@[k].data@ =~= expected[k].data);
            } else if k == 1 {
                assert(out@[k].data@ =~= expected[k].data);
            } else {
                assert(out@[k].data@ =~= expected[k].data);
            }
        }
    }
    Ok(out)
}

/// A freshly parsed chest-strap channel named by header column `col`.
fn polar_channel(header: &Vec<String>, col: usize, data: Vec<(i64, Sample)>) -> (r: TimeBasedChannel)
    requires
        col < header@.len(),
        forall|j: int| 0 <= j < data@.len() ==> sample_ok((#[trigger] data@[j]).1),
    ensures
        r.parsed_as(
            TimeChannelView { name: header@[col as int]@, data: data@, unit: unit_of(header@[col as int]@) },
        ),
        r.wf(),
{
    let h = chars_of(header[col].as_str());
    let unit = unit_text(h.as_slice());
    TimeBasedChannel::new(
        string_of(h.as_slice()),
        data,
        Decimal { mantissa: 1, scale: 0 },
        PlotType::Line,
        unit,
        None,
    )
}

/// The unit named in a header: the text between `[` and `]`.
pub fn unit_text(h: &[char]) -> (r: String)
    ensures
        r@ == unit_of(h@),
{
    let open = find_char(h, '[', 0);
    let close = if open < h.len() {
        find_char(h, ']', open + 1)
    } else {
        h.len()
    };
    if close < h.len() {
        string_of(crate::text::slice_to_vec(h, open + 1, close).as_slice())
    } else {
        string_of(h)
    }
}

/// The field delimiter of chest-strap files, `;`.
pub const FIELD_DELIMITER: u8 = 0x3b;

/// Parses a chest-strap file of the given dialect.
pub fn parse_polar_data(data: String, file_type: Filetype, n_records: usize) -> (r: Result<
    Vec<TimeBasedChannel>,
    ParserError,
>)
    ensures
        match r {
            Ok(chs) => polar_outcome(file_type, csv_rows_of(data@, FIELD_DELIMITER)) matches Ok(vs)
                && chs@.len() == vs.len() && forall|k: int|
                0 <= k < vs.len() ==> (#[trigger] chs@[k]).parsed_as(vs[k]) && chs@[k].wf(),
            Err(e) => polar_outcome(file_type, csv_rows_of(data@, FIELD_DELIMITER)) == Err::<
                Seq<TimeChannelView>,
                ErrorView,
            >(e.view()),
        },
{
    let rows = read_csv_rows(data.as_str(), FIELD_DELIMITER);
    parse_polar_rows(&rows, file_type, n_records)
}

/// What a sample-indexed channel that a parser makes holds.
pub struct SampleChannelView {
    pub name: Seq<char>,
    pub data: Seq<Sample>,
    pub samples_per_second: Decimal,
    pub unit: Seq<char>,
}

impl SampleBasedChannel {
    /// A freshly parsed channel with these contents: unscaled, drawn as a
    /// line, with no colour chosen.
    pub open spec fn parsed_as(&self, v: SampleChannelView) -> bool {
        &&& self.name@ == v.name
        &&& self.data@ == v.data
        &&& self.samples_per_second == v.samples_per_second
        &&& self.unit@ == v.unit
        &&& self.scaling_factor == Decimal { mantissa: 1, scale: 0 }
        &&& self.plot_type == PlotType::Line
        &&& self.color is None
    }
}

/// The text of an optional string.
pub open spec fn opt_view(s: Option<String>) -> Option<Seq<char>> {
    match s {
        Some(t) => Some(t@),
        None => None,
    }
}

/// `l` with each `,` read as a decimal point.
pub open spec fn comma_to_point(l: Seq<char>) -> Seq<char> {
    l.map_values(|c: char| if c == ',' { '.' } else { c })
}

/// The sample rate from the number on the rate row, given in samples per
/// 1000 seconds; 500 per second where it is not a positive finite number
/// that a [`Decimal`] holds, so that the rate stays positive and exact.
pub open spec fn sample_rate_of(field: Seq<char>) -> Decimal {
    match decimal_of(field) {
        Some(d) if d.mantissa > 0 => shifted(d, 3),
        _ => Decimal { mantissa: DEFAULT_SAMPLES_PER_SECOND, scale: 0 },
    }
}

/// The value of one sample line; not a number where it cannot be read.
pub open spec fn sample_of(line: Seq<char>) -> Sample {
    match sample_of_text(comma_to_point(line)) {
        Some(v) => v,
        None => Sample::NaN,
    }
}

/// The line of a smartwatch export that gives the sample rate.
pub const RATE_LINE: usize = 7;

/// The first sample line of a smartwatch export.
pub const FIRST_SAMPLE_LINE: usize = 12;

/// The date that chrono reads from the value of the date-of-birth line, where
/// there is one.
pub open spec fn birth_date_of(lines: Seq<Seq<char>>) -> Option<Seq<char>> {
    if lines.len() > 1 {
        match split_once_spec(lines[1], ',') {
            Some((_, birth)) => date_text_of(birth, birth_date_format()),
            None => None,
        }
    } else {
        None
    }
}

/// The channel that a smartwatch export of these lines yields.
pub open spec fn galaxy_outcome(lines: Seq<Seq<char>>) -> Result<SampleChannelView, ErrorView> {
    galaxy_outcome_with(lines, birth_date_of(lines))
}

/// The channel that a smartwatch export of these lines yields, where `date`
/// is the date of birth read from line 1 (`None`: unreadable). Lines 0, 1, 2
/// and 7 (name, date of birth, average pulse, sample rate) are `label,value`;
/// the rate is `<number> <unit>`. Lines 3 to 6 and 8 to 11 are skipped; each
/// later line is one sample.
pub open spec fn galaxy_outcome_with(lines: Seq<Seq<char>>, date: Option<Seq<char>>) -> Result<
    SampleChannelView,
    ErrorView,
> {
    if lines.len() <= RATE_LINE {
        Err(ErrorView::Content)
    } else {
        match (
            split_once_spec(lines[0], ','),
            split_once_spec(lines[1], ','),
            split_once_spec(lines[2], ','),
            split_once_spec(lines[RATE_LINE as int], ','),
        ) {
            (Some((_, name)), Some(_), Some(_), Some((_, rate))) => match (
                date,
                split_once_spec(rate, ' '),
            ) {
                (Some(date), Some((rate_value, _))) => Ok(
                    SampleChannelView {
                        name: name + seq![' '] + date,
                        data: if lines.len() > FIRST_SAMPLE_LINE {
                            lines.subrange(FIRST_SAMPLE_LINE as int, lines.len() as int).map_values(
                                |l: Seq<char>| sample_of(l),
                            )
                        } else {
                            seq![]
                        },
                        samples_per_second: sample_rate_of(rate_value),
                        unit: "mV"@,
                    },
                ),
                _ => Err(ErrorView::Content),
            },
            _ => Err(ErrorView::Content),
        }
    }
}

fn comma_to_point_exec(l: &[char]) -> (r: Vec<char>)
    ensures
        r@ == comma_to_point(l@),
{
    let mut r: Vec<char> = Vec::with_capacity(l.len());
    let mut i: usize = 0;
    while i < l.len()
        invariant
            i <= l@.len(),
            r@ == comma_to_point(l@.subrange(0, i as int)),
        decreases l@.len() - i,
    {
        let c = if l[i] == ',' {
            '.'
        } else {
            l[i]
        };
        r.push(c);
        i = i + 1;
        assert(r@ =~= comma_to_point(l@.subrange(0, i as int)));
    }
    assert(l@.subrange(0, l@.len() as int) == l@);
    r
}

fn sample_rate_exec(field: &[char]) -> (r: Decimal)
    ensures
        r == sample_rate_of(field@),
        r.wf(),
        r.mantissa > 0,
{
    match parse_decimal(field) {
        Some(d) => {
            if d.mantissa > 0 {
                Decimal { mantissa: d.mantissa, scale: d.scale + 3 }
            } else {
                Decimal { mantissa: DEFAULT_SAMPLES_PER_SECOND, scale: 0 }
            }
        },
        None => Decimal { mantissa: DEFAULT_SAMPLES_PER_SECOND, scale: 0 },
    }
}

/// Parses a smartwatch ECG export into one sample-indexed channel.
pub fn parse_galaxy_data(data: String, n_records: usize) -> (r: Result<
    Vec<SampleBasedChannel>,
    ParserError,
>)
    ensures
        match r {
            Ok(chs) => galaxy_outcome(lines_of(data@)) matches Ok(v) && chs@.len() == 1
                && chs@[0].parsed_as(v) && chs@[0].wf(),
            Err(e) => galaxy_outcome(lines_of(data@)) is Err && e.view() == ErrorView::Content,
        },
{
    let text = chars_of(data.as_str());
    let lines = split_lines(text.as_slice());
    let mut date: Option<String> = None;
    if lines.len() > 1 {
        assert(lines.deep_view()[1] == lines@[1]@);
        match split_once(lines[1].as_slice(), ',') {
            Some((_, birth)) => {
                date = parse_date_text(string_of(birth.as_slice()).as_str(), "%Y-%m-%d");
            },
            None => {},
        }
    }
    galaxy_channel(&lines, date, n_records)
}

/// Builds the channel of a smartwatch export from its lines, where
/// `birth_date` is the date of birth read from line 1 (`None`: unreadable).
pub fn galaxy_channel(lines: &Vec<Vec<char>>, birth_date: Option<String>, n_records: usize) -> (r: Result<
    Vec<SampleBasedChannel>,
    ParserError,
>)
    ensures
        match r {
            Ok(chs) => galaxy_outcome_with(lines.deep_view(), opt_view(birth_date)) matches Ok(v)
                && chs@.len() == 1 && chs@[0].parsed_as(v) && chs@[0].wf(),
            Err(e) => galaxy_outcome_with(lines.deep_view(), opt_view(birth_date)) is Err
                && e.view() == ErrorView::Content,
        },
{
    let ghost lv = lines.deep_view();
    if lines.len() <= RATE_LINE {
        return Err(ParserError::ContentError);
    }
    assert(lv[0] == lines@[0]@ && lv[1] == lines@[1]@ && lv[2] == lines@[2]@ && lv[7] == lines@[7]@);
    let name = match split_once(lines[0].as_slice(), ',') {
        Some((_, name)) => name,
        None => {
            return Err(ParserError::ContentError);
        },
    };
    match split_once(lines[1].as_slice(), ',') {
        Some(_) => {},
        None => {
            return Err(ParserError::ContentError);
        },
    }
    match split_once(lines[2].as_slice(), ',') {
        Some(_) => {},
        None => {
            return Err(ParserError::ContentError);
        },
    }
    let rate = match split_once(lines[RATE_LINE].as_slice(), ',') {
        Some((_, rate)) => rate,
        None => {
            return Err(ParserError::ContentError);
        },
    };
    let date = match birth_date {
        Some(date) => date,
        None => {
            return Err(ParserError::ContentError);
        },
    };
    let rate_value = match split_once(rate.as_slice(), ' ') {
        Some((value, _)) => value,
        None => {
            return Err(ParserError::ContentError);
        },
    };
    let samples_per_second = sample_rate_exec(rate_value.as_slice());
    let mut samples: Vec<Sample> = Vec::with_capacity(n_records);
    let mut i: usize = FIRST_SAMPLE_LINE;
    while i < lines.len()
        invariant
            lv == lines.deep_view(),
            FIRST_SAMPLE_LINE <= i <= lines@.len() || (i == FIRST_SAMPLE_LINE && lines@.len()
                < FIRST_SAMPLE_LINE),
            i >= FIRST_SAMPLE_LINE,
            lines@.len() >= FIRST_SAMPLE_LINE ==> samples@ == lv.subrange(
                FIRST_SAMPLE_LINE as int,
                i as int,
            ).map_values(|l: Seq<char>| sample_of(l)),
            samples@.len() == 0 || lines@.len() >= FIRST_SAMPLE_LINE,
            forall|j: int| 0 <= j < samples@.len() ==> sample_ok(#[trigger] samples@[j]),
        decreases lines@.len() - i,
    {
        assert(lv[i as int] == lines@[i as int]@);
        let line = comma_to_point_exec(lines[i].as_slice());
        let v = match parse_sample(line.as_slice()) {
            Some(v) => v,
            None => Sample::NaN,
        };
        samples.push(v);
        i = i + 1;
        assert(samples@ =~= lv.subrange(FIRST_SAMPLE_LINE as int, i as int).map_values(
            |l: Seq<char>| sample_of(l),
        ));
    }
    let mut full: Vec<char> = name;
    full.push(' ');
    let date_chars = chars_of(date.as_str());
    let mut k: usize = 0;
    let ghost base = full@;
    while k < date_chars.len()
        invariant
            k <= date_chars@.len(),
            full@ == base + date_chars@.subrange(0, k as int),
        decreases date_chars@.len() - k,
    {
        full.push(date_chars[k]);
        k = k + 1;
        assert(full@ =~= base + date_chars@.subrange(0, k as int));
    }
    assert(date_chars@.subrange(0, k as int) == date_chars@);
    let ghost expected = match galaxy_outcome_with(lv, opt_view(birth_date)) {
        Ok(v) => v,
        Err(_) => arbitrary(),
    };
    proof {
        if lv.len() <= FIRST_SAMPLE_LINE {
            assert(samples@ =~= expected.data);
        }
        assert(full@ =~= expected.name);
        reveal_strlit("mV");
    }
    let ch = SampleBasedChannel::new(
        string_of(full.as_slice()),
        samples,
        samples_per_second,
        Decimal { mantissa: 1, scale: 0 },
        PlotType::Line,
        None,
        "mV".to_owned(),
    );
    let mut out: Vec<SampleBasedChannel> = Vec::new();
    out.push(ch);
    Ok(out)
}

/// The channels a recording's text yields: those of its dialect's parser, or
/// none where the dialect is unknown or the parser fails.
pub open spec fn content_outcome(text: Seq<char>) -> (Seq<SampleChannelView>, Seq<TimeChannelView>) {
    let ft = format_of(text);
    if is_polar(ft) {
        match polar_outcome(ft, csv_rows_of(text, FIELD_DELIMITER)) {
            Ok(vs) => (seq![], vs),
            Err(_) => (seq![], seq![]),
        }
    } else if ft == Filetype::GalaxyWatch {
        match galaxy_outcome(lines_of(text)) {
            Ok(v) => (seq![v], seq![]),
            Err(_) => (seq![], seq![]),
        }
    } else {
        (seq![], seq![])
    }
}

/// The number of lines in `text`, counting one more than its `\n`s; only a
/// hint for how much room the samples take.
fn line_count_hint(text: &[char]) -> usize {
    let mut n: usize = 1;
    let mut i: usize = 0;
    while i < text.len()
        invariant
            i <= text@.len(),
        decreases text@.len() - i,
    {
        if text[i] == '\n' && n < usize::MAX {
            n = n + 1;
        }
        i = i + 1;
    }
    n
}

/// Parses the text of a recording into its sample-indexed and time-indexed
/// channels. A failed or unrecognised recording gives no channels.
pub fn parse_text(text: String) -> (r: (Vec<SampleBasedChannel>, Vec<TimeBasedChannel>))
    ensures
        r.0@.len() == content_outcome(text@).0.len(),
        forall|k: int|
            0 <= k < r.0@.len() ==> (#[trigger] r.0@[k]).parsed_as(content_outcome(text@).0[k])
                && r.0@[k].wf(),
        r.1@.len() == content_outcome(text@).1.len(),
        forall|k: int|
            0 <= k < r.1@.len() ==> (#[trigger] r.1@[k]).parsed_as(content_outcome(text@).1[k])
                && r.1@[k].wf(),
{
    let chars = chars_of(text.as_str());
    let ft = detect_format(chars.as_slice());
    let n_records = line_count_hint(chars.as_slice());
    if ft == Filetype::PolarECG || ft == Filetype::PolarACC || ft == Filetype::PolarHR || ft
        == Filetype::PolarRR {
        match parse_polar_data(text, ft, n_records) {
            Ok(chs) => (Vec::new(), chs),
            Err(_) => (Vec::new(), Vec::new()),
        }
    } else if ft == Filetype::GalaxyWatch {
        match parse_galaxy_data(text, n_records) {
            Ok(chs) => (chs, Vec::new()),
            Err(_) => (Vec::new(), Vec::new()),
        }
    } else {
        (Vec::new(), Vec::new())
    }
}

/// Parses the bytes of a recording, decoded as UTF-8 with invalid sequences
/// replaced, into its sample-indexed and time-indexed channels.
pub fn parse_content(text: Vec<u8>) -> (r: (Vec<SampleBasedChannel>, Vec<TimeBasedChannel>))
    ensures
        r.0@.len() == content_outcome(utf8_lossy(text@)).0.len(),
        forall|k: int|
            0 <= k < r.0@.len() ==> (#[trigger] r.0@[k]).parsed_as(
                content_outcome(utf8_lossy(text@)).0[k],
            ) && r.0@[k].wf(),
        r.1@.len() == content_outcome(utf8_lossy(text@)).1.len(),
        forall|k: int|
            0 <= k < r.1@.len() ==> (#[trigger] r.1@[k]).parsed_as(
                content_outcome(utf8_lossy(text@)).1[k],
            ) && r.1@[k].wf(),
{
    let decoded = decode_lossy(text.as_slice());
    parse_text(decoded)
}

/// The header line that announces each chest-strap dialect.
pub open spec fn signature(ft: Filetype) -> Seq<char> {
    match ft {
        Filetype::PolarECG => ecg_signature(),
        Filetype::PolarACC => acc_signature(),
        Filetype::PolarHR => hr_signature(),
        _ => rr_signature(),
    }
}

proof fn lemma_signature_chars(ft: Filetype)
    requires
        is_polar(ft),
    ensures
        signature(ft).len() > 0,
        forall|k: int| 0 <= k < signature(ft).len() ==> signature(ft)[k] != '\n',
        !is_whitespace(signature(ft)[0]),
        !is_whitespace(signature(ft).last()),
        ft != Filetype::PolarECG ==> signature(ft) != ecg_signature(),
        ft != Filetype::PolarACC ==> signature(ft) != acc_signature(),
        ft != Filetype::PolarHR ==> signature(ft) != hr_signature(),
{
    reveal_strlit("Phone timestamp;sensor timestamp [ns];timestamp [ms];ecg [uV]");
    reveal_strlit("Phone timestamp;sensor timestamp [ns];X [mg];Y [mg];Z [mg]");
    reveal_strlit("Phone timestamp;HR [bpm]");
    reveal_strlit("Phone timestamp;RR-interval [ms]");
    assert(ecg_signature().len() == 61);
    assert(acc_signature().len() == 58);
    assert(hr_signature().len() == 24);
    assert(rr_signature().len() == 32);
}

/// A recording whose first line is exactly a chest-strap signature is of that
/// dialect, whatever follows it: `rest` is empty or begins a new line.
pub proof fn lemma_signature_selects_dialect(ft: Filetype, rest: Seq<char>)
    requires
        is_polar(ft),
        rest.len() == 0 || rest[0] == '\n',
    ensures
        format_of(signature(ft) + rest) == ft,
{
    let sig = signature(ft);
    let text = sig + rest;
    lemma_signature_chars(ft);
    lemma_index_of_bounds(text, '\n', 0);
    let i = index_of(text, '\n', 0);
    if rest.len() > 0 {
        assert(text[sig.len() as int] == '\n');
    }
    if i < sig.len() {
        assert(text[i] == sig[i]);
    }
    assert(i == sig.len());
    assert(first_line(text) =~= sig);
    assert(trim_spec(sig) == sig);
}

/// A recording whose trimmed first line is no chest-strap signature is read as
/// a smartwatch export or not at all.
pub proof fn lemma_other_lines_fall_through(text: Seq<char>)
    requires
        forall|ft: Filetype| is_polar(ft) ==> trim_spec(first_line(text)) != signature(ft),
    ensures
        format_of(text) == Filetype::GalaxyWatch || format_of(text) == Filetype::Unknown,
{
    assert(is_polar(Filetype::PolarECG) && is_polar(Filetype::PolarACC) && is_polar(
        Filetype::PolarHR,
    ) && is_polar(Filetype::PolarRR));
}

/// Parsing depends on the bytes alone: equal contents give the same channels.
pub proof fn lemma_parse_content_deterministic(a: Seq<u8>, b: Seq<u8>)
    requires
        a == b,
    ensures
        content_outcome(utf8_lossy(a)) == content_outcome(utf8_lossy(b)),
{
}

} // verus!
