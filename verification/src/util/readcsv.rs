//! Frames from comma-separated text: a header row of column labels, then
//! one row of decimal integers for each row of the frame.

use vstd::prelude::*;
use vstd::string::StringSliceAdditionalSpecFns;
use crate::dataframe::{frame_result_is, DataFrame};
use crate::materialize::{frame_from_windows, owned_model, OwnedWindow};
use crate::model::{assemble, cells_of, labels_of, FrameModel, WindowModel};
use crate::util::error::UtahError;
use crate::util::labels::{decimal, decimal_label};
use crate::util::types::UtahAxis;

verus! {

/// The error of the `csv` crate.
#[verifier::external_type_specification]
#[verifier::external_body]
pub struct ExCsvError(csv::Error);

/// The header row that the `csv` crate reads from a text, or `None` where it
/// reports an error.
pub uninterp spec fn csv_header(text: Seq<char>) -> Option<Seq<Seq<char>>>;

/// The rows after the header that the `csv` crate reads from a text, field
/// by field, or `None` where it reports an error.
pub uninterp spec fn csv_body(text: Seq<char>) -> Option<Seq<Seq<Seq<char>>>>;

/// What a table of texts reads as.
pub open spec fn table_model(rows: Seq<Vec<String>>) -> Seq<Seq<Seq<char>>> {
    rows.map_values(|row: Vec<String>| row.deep_view())
}

/// `csv::Reader::from_reader` on the bytes of the text, then
/// `csv::Reader::headers`. Claims: the result depends on the text alone, and
/// is named by [`csv_header`].
#[verifier::external_body]
fn read_header(text: &str) -> (r: Result<Vec<String>, csv::Error>)
    ensures
        match r {
            Ok(fields) => csv_header(text@) == Some(fields.deep_view()),
            Err(_) => csv_header(text@) is None,
        },
{
    let mut reader = csv::Reader::from_reader(text.as_bytes());
    let mut fields = Vec::new();
    for field in reader.headers()?.iter() {
        fields.push(field.to_string());
    }
    Ok(fields)
}

/// `csv::Reader::from_reader` on the bytes of the text, then
/// `csv::Reader::records`, drained. Claims: the result depends on the text
/// alone, and is named by [`csv_body`].
#[verifier::external_body]
fn read_body(text: &str) -> (r: Result<Vec<Vec<String>>, csv::Error>)
    ensures
        match r {
            Ok(rows) => csv_body(text@) == Some(table_model(rows@)),
            Err(_) => csv_body(text@) is None,
        },
{
    let mut reader = csv::Reader::from_reader(text.as_bytes());
    let mut rows = Vec::new();
    for record in reader.records() {
        let mut fields = Vec::new();
        for field in record?.iter() {
            fields.push(field.to_string());
        }
        rows.push(fields);
    }
    Ok(rows)
}

/// The byte is a decimal digit.
pub open spec fn is_digit(b: u8) -> bool {
    48 <= b <= 57
}

/// Every byte is a decimal digit.
pub open spec fn all_digits(digits: Seq<u8>) -> bool {
    forall|i: int| 0 <= i < digits.len() ==> is_digit(#[trigger] digits[i])
}

/// The number that a run of decimal digits writes.
pub open spec fn digits_value(digits: Seq<u8>) -> int
    decreases digits.len(),
{
    if digits.len() == 0 {
        0
    } else {
        digits_value(digits.drop_last()) * 10 + (digits.last() - 48)
    }
}

/// The integer that a text writes in decimal: an optional `+` or `-`, then
/// one digit or more, and nothing else.
pub open spec fn decimal_integer(text: Seq<u8>) -> Option<int> {
    if text.len() == 0 {
        None
    } else if text[0] == 45 {
        if text.len() > 1 && all_digits(text.skip(1)) {
            Some(-digits_value(text.skip(1)))
        } else {
            None
        }
    } else if text[0] == 43 {
        if text.len() > 1 && all_digits(text.skip(1)) {
            Some(digits_value(text.skip(1)))
        } else {
            None
        }
    } else if all_digits(text) {
        Some(digits_value(text))
    } else {
        None
    }
}

/// The cell that a text writes: its decimal integer, where that is an `i64`.
pub open spec fn parsed_cell(text: Seq<u8>) -> Option<i64> {
    match decimal_integer(text) {
        Some(v) => if i64::MIN <= v <= i64::MAX {
            Some(v as i64)
        } else {
            None
        },
        None => None,
    }
}

/// More digits write no smaller a number.
pub proof fn lemma_digits_monotone(digits: Seq<u8>, k: int)
    requires
        all_digits(digits),
        0 <= k <= digits.len(),
    ensures
        0 <= digits_value(digits.take(k)) <= digits_value(digits),
    decreases digits.len() - k,
{
    if k == digits.len() {
        assert(digits.take(k) =~= digits);
        lemma_digits_nonnegative(digits);
    } else {
        lemma_digits_monotone(digits, k + 1);
        assert(digits.take(k + 1).drop_last() =~= digits.take(k));
        assert(is_digit(digits[k]));
        lemma_digits_nonnegative(digits.take(k));
    }
}

/// A run of digits writes no negative number.
pub proof fn lemma_digits_nonnegative(digits: Seq<u8>)
    requires
        all_digits(digits),
    ensures
        0 <= digits_value(digits),
    decreases digits.len(),
{
    if digits.len() > 0 {
        assert(is_digit(digits[digits.len() - 1]));
        assert forall|i: int| 0 <= i < digits.drop_last().len() implies is_digit(
            #[trigger] digits.drop_last()[i],
        ) by {
            assert(digits.drop_last()[i] == digits[i]);
        }
        lemma_digits_nonnegative(digits.drop_last());
    }
}

/// The magnitude of the least `i64`.
pub const LIMIT: i128 = 0x8000_0000_0000_0000;

/// Reads a decimal integer that fits in a cell, or returns `None` where the
/// text writes none.
pub fn try_parse_str(text: &str) -> (r: Option<i64>)
    ensures
        r == parsed_cell(text.spec_bytes()),
{
    let bytes = text.as_bytes();
    let n = bytes.len();
    if n == 0 {
        return None;
    }
    let negative = bytes[0] == 45u8;
    let start: usize = if bytes[0] == 45u8 || bytes[0] == 43u8 {
        1
    } else {
        0
    };
    if start == n {
        return None;
    }
    let ghost digits = bytes@.skip(start as int);
    let mut acc: i128 = 0;
    let mut i: usize = start;
    proof {
        assert(digits.take(0) =~= Seq::<u8>::empty());
        if start == 0 {
            assert(digits =~= bytes@);
        }
    }
    while i < n
        invariant
            start <= i <= n,
            start < n,
            n == bytes@.len(),
            bytes@ == text.spec_bytes(),
            start == 0 || start == 1,
            start == 1 <==> bytes@[0] == 45 || bytes@[0] == 43,
            start == 0 ==> digits == bytes@,
            digits == bytes@.skip(start as int),
            all_digits(digits.take(i - start)),
            acc == digits_value(digits.take(i - start)),
            0 <= acc <= LIMIT,
        decreases n - i,
    {
        let b = bytes[i];
        if b < 48u8 || b > 57u8 {
            proof {
                assert(digits[i - start] == b);
                assert(!is_digit(digits[i - start]));
            }
            return None;
        }
        proof {
            let seen = digits.take(i - start);
            let more = digits.take(i + 1 - start);
            assert(more =~= seen.push(b));
            assert(more.drop_last() =~= seen);
            assert forall|k: int| 0 <= k < more.len() implies is_digit(#[trigger] more[k]) by {
                if k < seen.len() {
                    assert(more[k] == seen[k]);
                }
            }
        }
        acc = acc * 10 + (b - 48u8) as i128;
        if acc > LIMIT {
            proof {
                if all_digits(digits) {
                    lemma_digits_monotone(digits, i + 1 - start);
                }
            }
            return None;
        }
        i = i + 1;
    }
    proof {
        assert(digits.take(n - start) =~= digits);
    }
    if negative {
        Some((-acc) as i64)
    } else if acc == LIMIT {
        None
    } else {
        Some(acc as i64)
    }
}

/// Reads a decimal integer that fits in a cell.
pub fn parse_str(text: &str) -> (cell: i64)
    requires
        parsed_cell(text.spec_bytes()) is Some,
    ensures
        parsed_cell(text.spec_bytes()) == Some(cell),
{
    match try_parse_str(text) {
        Some(cell) => cell,
        None => 0,
    }
}

/// The cells that a row of fields writes, or `None` where a field writes no
/// cell.
pub open spec fn parsed_row(fields: Seq<Seq<char>>) -> Option<Seq<i64>> {
    if forall|j: int| 0 <= j < fields.len() ==> parsed_cell(
        vstd::utf8::encode_utf8(#[trigger] fields[j]),
    ) is Some {
        Some(Seq::new(fields.len(), |j: int| parsed_cell(vstd::utf8::encode_utf8(fields[j]))->0))
    } else {
        None
    }
}

/// The rows of a table as windows: row `i` is labelled with the numeral of
/// `i` and holds the cells that its fields write. `None` where a field
/// writes no cell.
pub open spec fn parsed_table(body: Seq<Seq<Seq<char>>>) -> Option<Seq<WindowModel>> {
    if forall|i: int| 0 <= i < body.len() ==> parsed_row(#[trigger] body[i]) is Some {
        Some(Seq::new(body.len(), |i: int| (decimal(i as nat), parsed_row(body[i])->0)))
    } else {
        None
    }
}

/// The frame that a table gives: `InvalidNumber` where a field writes no
/// cell, else the frame of its rows under the header as column labels, with
/// the default row labels.
pub open spec fn table_frame(header: Seq<Seq<char>>, body: Seq<Seq<Seq<char>>>) -> Result<
    FrameModel,
    UtahError,
> {
    match parsed_table(body) {
        None => Err(UtahError::InvalidNumber),
        Some(ws) => assemble(labels_of(ws), cells_of(ws), header, UtahAxis::Row),
    }
}

/// The frame that comma-separated text gives: `InvalidCsv` where the text
/// is malformed, else the frame of its table.
pub open spec fn csv_frame(text: Seq<char>) -> Result<FrameModel, UtahError> {
    match (csv_header(text), csv_body(text)) {
        (Some(header), Some(body)) => table_frame(header, body),
        _ => Err(UtahError::InvalidCsv),
    }
}

/// Reads the cells of one row of fields.
fn parse_row(fields: &Vec<String>) -> (r: Option<Vec<i64>>)
    ensures
        match r {
            Some(cells) => parsed_row(fields.deep_view()) == Some(cells@),
            None => parsed_row(fields.deep_view()) is None,
        },
{
    let ghost model = fields.deep_view();
    let mut cells: Vec<i64> = Vec::new();
    let mut j: usize = 0;
    while j < fields.len()
        invariant
            j <= fields.len(),
            model == fields.deep_view(),
            cells.len() == j,
            forall|k: int|
                0 <= k < j ==> parsed_cell(vstd::utf8::encode_utf8(#[trigger] model[k])) == Some(
                    cells@[k],
                ),
        decreases fields.len() - j,
    {
        assert(model[j as int] == fields[j as int]@);
        match try_parse_str(fields[j].as_str()) {
            Some(cell) => {
                cells.push(cell);
            },
            None => {
                return None;
            },
        }
        j = j + 1;
    }
    proof {
        assert(parsed_row(model)->0 =~= cells@);
    }
    Some(cells)
}

/// Builds the frame of a table: `header` holds the column labels, `body`
/// the fields of each row.
pub fn frame_from_table(header: Vec<String>, body: &Vec<Vec<String>>) -> (r: Result<
    DataFrame,
    UtahError,
>)
    ensures
        frame_result_is(r, table_frame(header.deep_view(), table_model(body@))),
{
    let ghost model = table_model(body@);
    let mut rows: Vec<OwnedWindow> = Vec::new();
    let mut i: usize = 0;
    while i < body.len()
        invariant
            i <= body.len(),
            model == table_model(body@),
            rows.len() == i,
            forall|k: int|
                0 <= k < i ==> parsed_row(#[trigger] model[k]) == Some(rows@[k].1@) && rows@[k].0@
                    == decimal(k as nat),
        decreases body.len() - i,
    {
        assert(model[i as int] == body[i as int].deep_view());
        match parse_row(&body[i]) {
            Some(cells) => {
                rows.push((decimal_label(i), cells));
            },
            None => {
                return Err(UtahError::InvalidNumber);
            },
        }
        i = i + 1;
    }
    proof {
        assert(parsed_table(model)->0 =~= owned_model(rows@));
    }
    frame_from_windows(&rows, header, UtahAxis::Row)
}

/// Types that can be read from comma-separated text.
pub trait ReadCSV: Sized {
    /// Reads a value from the content of a comma-separated file.
    fn read_csv(text: &str) -> Result<Self, UtahError>;
}

impl ReadCSV for DataFrame {
    /// Reads a frame from comma-separated text: the first row gives the
    /// column labels, each further row the cells of one row of the frame.
    fn read_csv(text: &str) -> (r: Result<DataFrame, UtahError>)
        ensures
            frame_result_is(r, csv_frame(text@)),
    {
        let header = match read_header(text) {
            Ok(header) => header,
            Err(_) => {
                return Err(UtahError::InvalidCsv);
            },
        };
        let body = match read_body(text) {
            Ok(body) => body,
            Err(_) => {
                return Err(UtahError::InvalidCsv);
            },
        };
        frame_from_table(header, &body)
    }
}

} // verus!
