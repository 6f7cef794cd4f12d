use vstd::prelude::*;

use crate::decimal::{fixed_value, parse_fixed, FIXED_LIMIT};
use crate::history::{Sample, Snapshot};

verus! {

/// The 24-hour statistics of one symbol, in fixed-point hundred-millionths.
pub struct TickerData {
    pub symbol: String,
    pub last_price: i128,
    pub price_change_percent: i128,
    pub high_price: i128,
    pub low_price: i128,
    pub volume: i128,
}

/// Why a record of the quote service was not taken in.
#[derive(Clone, Copy, Debug, PartialEq, Eq, Structural)]
pub enum QuoteError {
    LastPrice,
    PriceChangePercent,
    HighPrice,
    LowPrice,
    Volume,
    Body,
}

impl QuoteError {
    /// A short description for the status line.
    pub fn message(&self) -> (r: String)
        ensures
            r@ == self.message_spec(),
    {
        match self {
            QuoteError::LastPrice => String::from_str("invalid number in lastPrice"),
            QuoteError::PriceChangePercent => String::from_str("invalid number in priceChangePercent"),
            QuoteError::HighPrice => String::from_str("invalid number in highPrice"),
            QuoteError::LowPrice => String::from_str("invalid number in lowPrice"),
            QuoteError::Volume => String::from_str("invalid number in volume"),
            QuoteError::Body => String::from_str("response is not an array of candle rows"),
        }
    }

    pub open spec fn message_spec(&self) -> Seq<char> {
        match self {
            QuoteError::LastPrice => "invalid number in lastPrice"@,
            QuoteError::PriceChangePercent => "invalid number in priceChangePercent"@,
            QuoteError::HighPrice => "invalid number in highPrice"@,
            QuoteError::LowPrice => "invalid number in lowPrice"@,
            QuoteError::Volume => "invalid number in volume"@,
            QuoteError::Body => "response is not an array of candle rows"@,
        }
    }
}

pub open spec fn value_of(o: Option<int>) -> int {
    match o {
        Some(v) => v,
        None => 0,
    }
}

/// The error of a ticker record: the first of its fields, in record order,
/// whose text is not a number.
pub open spec fn ticker_error(
    last: Seq<char>,
    change: Seq<char>,
    high: Seq<char>,
    low: Seq<char>,
    volume: Seq<char>,
) -> Option<QuoteError> {
    if fixed_value(last).is_none() {
        Some(QuoteError::LastPrice)
    } else if fixed_value(change).is_none() {
        Some(QuoteError::PriceChangePercent)
    } else if fixed_value(high).is_none() {
        Some(QuoteError::HighPrice)
    } else if fixed_value(low).is_none() {
        Some(QuoteError::LowPrice)
    } else if fixed_value(volume).is_none() {
        Some(QuoteError::Volume)
    } else {
        None
    }
}

pub open spec fn below_limit(v: i128) -> bool {
    -FIXED_LIMIT < v < FIXED_LIMIT
}

impl TickerData {
    pub open spec fn wf(&self) -> bool {
        &&& below_limit(self.last_price)
        &&& below_limit(self.price_change_percent)
        &&& below_limit(self.high_price)
        &&& below_limit(self.low_price)
        &&& below_limit(self.volume)
    }

    /// Reads a ticker record whose numbers arrive as decimal text, in the form
    /// `parse_fixed` reads: digits, optionally a leading `-`, and optionally a
    /// point followed by at most eight digits. The first field, in record
    /// order, that is not of that form names the error.
    pub fn from_text(symbol: &str, last: &str, change: &str, high: &str, low: &str, volume: &str) -> (r: Result<
        TickerData,
        QuoteError,
    >)
        ensures
            match ticker_error(last@, change@, high@, low@, volume@) {
                Some(e) => r == Err::<TickerData, QuoteError>(e),
                None => r is Ok && {
                    let t = r->Ok_0;
                    &&& t.wf()
                    &&& t.symbol@ == symbol@
                    &&& t.last_price == value_of(fixed_value(last@))
                    &&& t.price_change_percent == value_of(fixed_value(change@))
                    &&& t.high_price == value_of(fixed_value(high@))
                    &&& t.low_price == value_of(fixed_value(low@))
                    &&& t.volume == value_of(fixed_value(volume@))
                },
            },
    {
        let last_price = match parse_fixed(last) {
            Some(v) => v,
            None => return Err(QuoteError::LastPrice),
        };
        let price_change_percent = match parse_fixed(change) {
            Some(v) => v,
            None => return Err(QuoteError::PriceChangePercent),
        };
        let high_price = match parse_fixed(high) {
            Some(v) => v,
            None => return Err(QuoteError::HighPrice),
        };
        let low_price = match parse_fixed(low) {
            Some(v) => v,
            None => return Err(QuoteError::LowPrice),
        };
        let volume = match parse_fixed(volume) {
            Some(v) => v,
            None => return Err(QuoteError::Volume),
        };
        Ok(TickerData { symbol: String::from_str(symbol), last_price, price_change_percent, high_price, low_price, volume })
    }

    /// The statistics that a series takes in from this record.
    pub fn snapshot(&self) -> (r: Snapshot)
        requires
            self.wf(),
        ensures
            r.wf(),
            r == (Snapshot {
                price: self.last_price,
                change_24h: self.price_change_percent,
                high_24h: self.high_price,
                low_24h: self.low_price,
                volume_24h: self.volume,
            }),
    {
        Snapshot {
            price: self.last_price,
            change_24h: self.price_change_percent,
            high_24h: self.high_price,
            low_24h: self.low_price,
            volume_24h: self.volume,
        }
    }
}

/// One cell of a decoded JSON row, read both ways: as an `i64` where it is
/// an integer that fits, and as text where it is a string.
pub struct JsonCell {
    pub as_int: Option<i64>,
    pub as_text: Option<String>,
}

/// A cell as plain values.
pub type CellView = (Option<i64>, Option<Seq<char>>);

pub open spec fn cell_view(c: JsonCell) -> CellView {
    (
        c.as_int,
        match c.as_text {
            Some(p) => Some(p@),
            None => None,
        },
    )
}

pub open spec fn row_view(r: Vec<JsonCell>) -> Seq<CellView> {
    r@.map_values(|c: JsonCell| cell_view(c))
}

/// The sample of a candle row: its open time at place 0 and its closing
/// price, as decimal text, at place 4. A row that is shorter, holds another
/// kind of value there, or whose price is not a number gives none.
pub open spec fn row_sample(row: Seq<CellView>) -> Option<Sample> {
    if row.len() < 5 {
        None
    } else {
        match (row[0].0, row[4].1) {
            (Some(t), Some(p)) => match fixed_value(p) {
                Some(v) => Some(Sample { timestamp: t, price: v as i128 }),
                None => None,
            },
            _ => None,
        }
    }
}

/// The samples of the well-formed rows, in row order; the others are skipped.
pub open spec fn row_samples(rows: Seq<Seq<CellView>>) -> Seq<Sample>
    decreases rows.len(),
{
    if rows.len() == 0 {
        Seq::empty()
    } else {
        let before = row_samples(rows.drop_last());
        match row_sample(rows.last()) {
            Some(s) => before.push(s),
            None => before,
        }
    }
}

pub open spec fn rows_view(rows: Seq<Vec<JsonCell>>) -> Seq<Seq<CellView>> {
    rows.map_values(|r: Vec<JsonCell>| row_view(r))
}

/// Reduces candle rows to `(open time, close price)` samples, skipping the
/// rows that lack either or whose price is not a number (see `parse_fixed`).
pub fn samples_from_candles(rows: &Vec<Vec<JsonCell>>) -> (r: Vec<Sample>)
    ensures
        r@ == row_samples(rows_view(rows@)),
{
    let mut out: Vec<Sample> = Vec::new();
    let mut i: usize = 0;
    while i < rows.len()
        invariant
            i <= rows@.len(),
            out@ == row_samples(rows_view(rows@.subrange(0, i as int))),
        decreases rows@.len() - i,
    {
        let ghost vs = rows_view(rows@.subrange(0, i + 1 as int));
        assert(vs.drop_last() =~= rows_view(rows@.subrange(0, i as int)));
        assert(vs.last() == row_view(rows@[i as int]));
        let row = &rows[i];
        if row.len() >= 5 {
            match (&row[0].as_int, &row[4].as_text) {
                (Some(t), Some(p)) => {
                    match parse_fixed(p.as_str()) {
                        Some(v) => {
                            out.push(Sample { timestamp: *t, price: v });
                        },
                        None => {},
                    }
                },
                _ => {},
            }
        }
        i = i + 1;
    }
    assert(rows@.subrange(0, rows@.len() as int) =~= rows@);
    out
}

/// What serde_json reads from a response body taken as an array of arrays of
/// JSON values: every cell of every row, read as an `i64` and as a string;
/// none where the body is not such an array.
pub uninterp spec fn json_rows_of(body: Seq<char>) -> Option<Seq<Seq<CellView>>>;

/// Relies on `serde_json::from_str` to read the body as rows of JSON values,
/// and on serde_json's `Value::as_i64` and `Value::as_str` to read each cell;
/// all of it depends on the text alone.
#[verifier::external_body]
fn decode_rows(body: &str) -> (r: Option<Vec<Vec<JsonCell>>>)
    ensures
        match json_rows_of(body@) {
            Some(rows) => r is Some && rows_view(r->Some_0@) == rows,
            None => r is None,
        },
{
    let rows: Vec<Vec<serde_json::Value>> = serde_json::from_str(body).ok()?;
    Some(rows.iter().map(|row| row.iter().map(|v| JsonCell {
        as_int: v.as_i64(),
        as_text: v.as_str().map(|p| p.to_string()),
    }).collect()).collect())
}

/// Reads a candle response body (a JSON array of arrays) into samples, oldest
/// first. A row counts where place 0 holds an integer time and place 4 a
/// closing price in the decimal form `parse_fixed` reads: digits, optionally
/// a leading `-`, and optionally a point followed by at most eight digits.
/// Other rows are skipped; a body that is not an array of arrays is an error.
pub fn parse_klines(body: &str) -> (r: Result<Vec<Sample>, QuoteError>)
    ensures
        match json_rows_of(body@) {
            Some(rows) => r is Ok && r->Ok_0@ == row_samples(rows),
            None => r == Err::<Vec<Sample>, QuoteError>(QuoteError::Body),
        },
{
    match decode_rows(body) {
        Some(rows) => Ok(samples_from_candles(&rows)),
        None => Err(QuoteError::Body),
    }
}

} // verus!
