use vstd::prelude::*;

use crate::column::{
    copy_fields, fields_view, get_column_index, header_position, lemma_header_position_found,
    rows_view,
};
use crate::date::{date_key, format_date, formatted_date, parse_date, parsed_date, Date};
use crate::error::PipelineError;
use crate::rates::{Lookup, RateCache};

verus! {

/// `row` with `value` put right after field `pos`, or at the end without
/// one; `None` where the row has no field `pos`.
pub open spec fn insert_after_spec(row: Seq<Seq<char>>, pos: Option<usize>, value: Seq<char>) -> Option<
    Seq<Seq<char>>,
> {
    match pos {
        Some(v) => if v < row.len() {
            Some(row.insert(v + 1, value))
        } else {
            None
        },
        None => Some(row.push(value)),
    }
}

/// The field position at which the rate goes for `pos`: after field `pos`,
/// or last.
pub open spec fn rate_position(row_len: int, pos: Option<usize>) -> int {
    match pos {
        Some(v) => v + 1,
        None => row_len,
    }
}

/// The enriched row for `row`: the date field re-rendered under
/// `out_format` (kept verbatim without one), and the rate of its date put
/// after field `exchange_index` (or at the end); or the first failure, the
/// error of the date's failed fetch included.
pub open spec fn enrich_spec(
    date_column: usize,
    date_format: Seq<char>,
    out_format: Option<Seq<char>>,
    exchange_index: Option<usize>,
    rates: Map<u64, Lookup>,
    row: Seq<Seq<char>>,
) -> Result<Seq<Seq<char>>, PipelineError> {
    if date_column >= row.len() {
        Err(PipelineError::MissingDateField)
    } else {
        match parsed_date(row[date_column as int], date_format) {
            None => Err(PipelineError::DateParseError),
            Some((y, m, d)) => {
                let out_date = match out_format {
                    Some(f) => formatted_date(y, m, d, f),
                    None => Some(row[date_column as int]),
                };
                match out_date {
                    None => Err(PipelineError::DateFormatError),
                    Some(od) => if !rates.contains_key(date_key(y, m, d)) {
                        Err(PipelineError::RateUnavailable)
                    } else {
                        match rates[date_key(y, m, d)] {
                            Err(e) => Err(e),
                            Ok(rate) => match insert_after_spec(
                                row.update(date_column as int, od),
                                exchange_index,
                                rate,
                            ) {
                                Some(r) => Ok(r),
                                None => Err(PipelineError::InsertPositionOutOfRange),
                            },
                        }
                    },
                }
            },
        }
    }
}

/// Puts `value` right after field `pos` of `row`, or at its end.
pub fn insert_field(row: &mut Vec<String>, pos: Option<usize>, value: String) -> (r: bool)
    ensures
        match insert_after_spec(fields_view(old(row)@), pos, value@) {
            Some(s) => r && fields_view(final(row)@) == s,
            None => !r && final(row)@ == old(row)@,
        },
{
    let ghost v = value@;
    match pos {
        Some(p) => {
            if p >= row.len() {
                return false;
            }
            row.insert(p + 1, value);
            assert(fields_view(final(row)@) =~= fields_view(old(row)@).insert(p + 1, v));
            true
        },
        None => {
            row.push(value);
            assert(fields_view(final(row)@) =~= fields_view(old(row)@).push(v));
            true
        },
    }
}

/// The output row for `record` once its date is rendered and its rate
/// known: the date field replaced by `out_date`, and `rate` put after field
/// `exchange_index` (or at the end); `None` where the row has no such field.
pub fn place_rate(
    record: &Vec<String>,
    date_column: usize,
    out_date: String,
    rate: String,
    exchange_index: Option<usize>,
) -> (r: Option<Vec<String>>)
    requires
        date_column < record@.len(),
    ensures
        match insert_after_spec(
            fields_view(record@).update(date_column as int, out_date@),
            exchange_index,
            rate@,
        ) {
            Some(s) => r is Some && fields_view(r.unwrap()@) == s,
            None => r is None,
        },
{
    let mut out = copy_fields(record);
    let ghost od = out_date@;
    out.set(date_column, out_date);
    assert(fields_view(out@) =~= fields_view(record@).update(date_column as int, od));
    if insert_field(&mut out, exchange_index, rate) {
        Some(out)
    } else {
        None
    }
}

/// Enriches one row with the rate of its date as `cache` holds it; where
/// the date's fetch failed, the row fails with that fetch's error, and with
/// `RateUnavailable` where no fetch was recorded. The date field is re-rendered under `out_date_format` where one is given
/// (else kept verbatim), and the rate goes after field `exchange_index`, or
/// at the end.
pub fn add_exchange(
    date_column: usize,
    date_format: &str,
    out_date_format: Option<&str>,
    exchange_index: Option<usize>,
    record: &Vec<String>,
    cache: &RateCache,
) -> (r: Result<Vec<String>, PipelineError>)
    ensures
        match r {
            Ok(out) => enrich_spec(
                date_column,
                date_format@,
                match out_date_format {
                    Some(f) => Some(f@),
                    None => None,
                },
                exchange_index,
                cache.lookups(),
                fields_view(record@),
            ) == Ok::<Seq<Seq<char>>, PipelineError>(fields_view(out@)),
            Err(e) => enrich_spec(
                date_column,
                date_format@,
                match out_date_format {
                    Some(f) => Some(f@),
                    None => None,
                },
                exchange_index,
                cache.lookups(),
                fields_view(record@),
            ) == Err::<Seq<Seq<char>>, PipelineError>(e),
        },
{
    if date_column >= record.len() {
        return Err(PipelineError::MissingDateField);
    }
    let raw = record[date_column].as_str();
    assert(fields_view(record@)[date_column as int] == raw@);
    let date = match parse_date(raw, date_format) {
        Some(d) => d,
        None => {
            return Err(PipelineError::DateParseError);
        },
    };
    let out_date = match out_date_format {
        Some(f) => match format_date(&date, f) {
            Some(s) => s,
            None => {
                return Err(PipelineError::DateFormatError);
            },
        },
        None => raw.to_owned(),
    };
    let rate = match cache.lookup(&date) {
        Some(Ok(t)) => t,
        Some(Err(e)) => {
            return Err(e);
        },
        None => {
            return Err(PipelineError::RateUnavailable);
        },
    };
    match place_rate(record, date_column, out_date, rate, exchange_index) {
        Some(out) => Ok(out),
        None => Err(PipelineError::InsertPositionOutOfRange),
    }
}

/// A row whose date's fetch failed fails with that fetch's error.
pub proof fn lemma_fetch_error_reaches_row(
    date_column: usize,
    date_format: Seq<char>,
    out_format: Option<Seq<char>>,
    exchange_index: Option<usize>,
    rates: Map<u64, Lookup>,
    row: Seq<Seq<char>>,
    e: PipelineError,
)
    requires
        date_column < row.len(),
        parsed_date(row[date_column as int], date_format) is Some,
        ({
            let (y, m, d) = parsed_date(row[date_column as int], date_format).unwrap();
            &&& match out_format {
                Some(f) => formatted_date(y, m, d, f) is Some,
                None => true,
            }
            &&& rates.contains_key(date_key(y, m, d))
            &&& rates[date_key(y, m, d)] == Err::<Seq<char>, PipelineError>(e)
        }),
    ensures
        enrich_spec(date_column, date_format, out_format, exchange_index, rates, row) == Err::<
            Seq<Seq<char>>,
            PipelineError,
        >(e),
{
}

/// An enriched row is one field longer than its input, with the rate at the
/// configured position: after field `exchange_index`, or last.
pub proof fn lemma_enriched_row_shape(
    date_column: usize,
    date_format: Seq<char>,
    out_format: Option<Seq<char>>,
    exchange_index: Option<usize>,
    rates: Map<u64, Lookup>,
    row: Seq<Seq<char>>,
)
    requires
        date_column < row.len(),
        parsed_date(row[date_column as int], date_format) is Some,
    ensures
        ({
            let (y, m, d) = parsed_date(row[date_column as int], date_format).unwrap();
            let rendered = match out_format {
                Some(f) => formatted_date(y, m, d, f) is Some,
                None => true,
            };
            let fits = match exchange_index {
                Some(v) => v < row.len(),
                None => true,
            };
            rendered && fits && rates.contains_key(date_key(y, m, d)) && rates[date_key(
                y,
                m,
                d,
            )] is Ok ==> {
                let r = enrich_spec(date_column, date_format, out_format, exchange_index, rates, row);
                &&& r is Ok
                &&& r.unwrap().len() == row.len() + 1
                &&& r.unwrap()[rate_position(row.len() as int, exchange_index)] == rates[date_key(
                    y,
                    m,
                    d,
                )]->Ok_0
            }
        }),
{
}

/// Rows that hold the same date read the same rate: enrichment consults the
/// cache, never the network, so one fetch serves every row of a date.
pub proof fn lemma_same_date_same_rate(
    date_column: usize,
    date_format: Seq<char>,
    out_format: Option<Seq<char>>,
    exchange_index: Option<usize>,
    rates: Map<u64, Lookup>,
    first: Seq<Seq<char>>,
    second: Seq<Seq<char>>,
)
    requires
        row_date(date_column, date_format, first) is Some,
        row_date(date_column, date_format, first) == row_date(date_column, date_format, second),
        enrich_spec(date_column, date_format, out_format, exchange_index, rates, first) is Ok,
        enrich_spec(date_column, date_format, out_format, exchange_index, rates, second) is Ok,
    ensures
        enrich_spec(date_column, date_format, out_format, exchange_index, rates, first)->Ok_0[rate_position(
            first.len() as int,
            exchange_index,
        )] == enrich_spec(date_column, date_format, out_format, exchange_index, rates, second)->Ok_0[rate_position(
            second.len() as int,
            exchange_index,
        )],
{
}

/// The rows that enrichment yields, in input order; rows that fail are
/// left out.
pub open spec fn enriched_rows(
    date_column: usize,
    date_format: Seq<char>,
    out_format: Option<Seq<char>>,
    exchange_index: Option<usize>,
    rates: Map<u64, Lookup>,
    rows: Seq<Seq<Seq<char>>>,
) -> Seq<Seq<Seq<char>>>
    decreases rows.len(),
{
    if rows.len() == 0 {
        Seq::empty()
    } else {
        let rest = enriched_rows(
            date_column,
            date_format,
            out_format,
            exchange_index,
            rates,
            rows.drop_last(),
        );
        match enrich_spec(date_column, date_format, out_format, exchange_index, rates, rows.last()) {
            Ok(r) => rest.push(r),
            Err(_) => rest,
        }
    }
}

/// The rows that enrichment rejects, by position in `rows`, in input order,
/// each with its error.
pub open spec fn failed_rows(
    date_column: usize,
    date_format: Seq<char>,
    out_format: Option<Seq<char>>,
    exchange_index: Option<usize>,
    rates: Map<u64, Lookup>,
    rows: Seq<Seq<Seq<char>>>,
) -> Seq<(usize, PipelineError)>
    decreases rows.len(),
{
    if rows.len() == 0 {
        Seq::empty()
    } else {
        let rest = failed_rows(
            date_column,
            date_format,
            out_format,
            exchange_index,
            rates,
            rows.drop_last(),
        );
        match enrich_spec(date_column, date_format, out_format, exchange_index, rates, rows.last()) {
            Ok(_) => rest,
            Err(e) => rest.push(((rows.len() - 1) as usize, e)),
        }
    }
}

/// Enriches every row against the rates in `cache`. The enriched rows come
/// back in input order, whatever order their rates were fetched in; each
/// row that fails is reported by its position and left out.
pub fn enrich_records(
    records: &Vec<Vec<String>>,
    date_column: usize,
    date_format: &str,
    out_date_format: Option<&str>,
    exchange_index: Option<usize>,
    cache: &RateCache,
) -> (r: (Vec<Vec<String>>, Vec<(usize, PipelineError)>))
    ensures
        rows_view(r.0@) == enriched_rows(
            date_column,
            date_format@,
            match out_date_format {
                Some(f) => Some(f@),
                None => None,
            },
            exchange_index,
            cache.lookups(),
            rows_view(records@),
        ),
        r.1@ == failed_rows(
            date_column,
            date_format@,
            match out_date_format {
                Some(f) => Some(f@),
                None => None,
            },
            exchange_index,
            cache.lookups(),
            rows_view(records@),
        ),
{
    let ghost of = match out_date_format {
        Some(f) => Some(f@),
        None => None,
    };
    let ghost rv = rows_view(records@);
    let mut out: Vec<Vec<String>> = Vec::new();
    let mut failures: Vec<(usize, PipelineError)> = Vec::new();
    let mut i: usize = 0;
    while i < records.len()
        invariant
            0 <= i <= records@.len(),
            rv == rows_view(records@),
            of == match out_date_format {
                Some(f) => Some(f@),
                None => None,
            },
            rows_view(out@) == enriched_rows(
                date_column,
                date_format@,
                of,
                exchange_index,
                cache.lookups(),
                rv.take(i as int),
            ),
            failures@ == failed_rows(
                date_column,
                date_format@,
                of,
                exchange_index,
                cache.lookups(),
                rv.take(i as int),
            ),
        decreases records@.len() - i,
    {
        assert(rv.take(i + 1).drop_last() =~= rv.take(i as int));
        assert(rv.take(i + 1).last() == fields_view(records@[i as int]@));
        assert(rv.take(i + 1).len() == i + 1);
        let ghost prev = out@;
        match add_exchange(
            date_column,
            date_format,
            out_date_format,
            exchange_index,
            &records[i],
            cache,
        ) {
            Ok(row) => {
                out.push(row);
                assert(rows_view(out@) =~= rows_view(prev).push(fields_view(out@.last()@)));
            },
            Err(e) => {
                failures.push((i, e));
            },
        }
        i = i + 1;
    }
    assert(rv.take(records@.len() as int) =~= rv);
    (out, failures)
}

/// Where every row enriches, the output holds one row per input row, the
/// `i`-th output row being the enrichment of the `i`-th input row.
pub proof fn lemma_output_keeps_input_order(
    date_column: usize,
    date_format: Seq<char>,
    out_format: Option<Seq<char>>,
    exchange_index: Option<usize>,
    rates: Map<u64, Lookup>,
    rows: Seq<Seq<Seq<char>>>,
    i: int,
)
    requires
        forall|k: int|
            0 <= k < rows.len() ==> (#[trigger] enrich_spec(
                date_column,
                date_format,
                out_format,
                exchange_index,
                rates,
                rows[k],
            )) is Ok,
        0 <= i < rows.len(),
    ensures
        enriched_rows(date_column, date_format, out_format, exchange_index, rates, rows).len()
            == rows.len(),
        enriched_rows(date_column, date_format, out_format, exchange_index, rates, rows)[i]
            == enrich_spec(date_column, date_format, out_format, exchange_index, rates, rows[i]).unwrap(),
    decreases rows.len(),
{
    let last = rows.len() - 1;
    let front = rows.drop_last();
    assert(enrich_spec(date_column, date_format, out_format, exchange_index, rates, rows[last]) is Ok);
    assert(enriched_rows(date_column, date_format, out_format, exchange_index, rates, rows)
        == enriched_rows(date_column, date_format, out_format, exchange_index, rates, front).push(
        enrich_spec(date_column, date_format, out_format, exchange_index, rates, rows[last]).unwrap(),
    ));
    if rows.len() > 1 {
        assert forall|k: int| 0 <= k < front.len() implies (#[trigger] enrich_spec(
            date_column,
            date_format,
            out_format,
            exchange_index,
            rates,
            front[k],
        )) is Ok by {
            assert(front[k] == rows[k]);
        };
        let j = if i < last { i } else { 0 };
        lemma_output_keeps_input_order(
            date_column,
            date_format,
            out_format,
            exchange_index,
            rates,
            front,
            j,
        );
        if i < last {
            assert(front[i] == rows[i]);
        }
    } else {
        assert(enriched_rows(date_column, date_format, out_format, exchange_index, rates, front)
            == Seq::<Seq<Seq<char>>>::empty());
    }
}

/// The output header: `exchange_column` goes right after the column that
/// `insert_after` names, or at the end where it is unset or names no column.
pub open spec fn out_headers_spec(
    headers: Seq<Seq<char>>,
    exchange_column: Seq<char>,
    insert_after: Option<Seq<char>>,
) -> Seq<Seq<char>> {
    let pos = match insert_after {
        Some(a) => header_position(headers, a),
        None => None,
    };
    match pos {
        Some(v) => headers.insert(v + 1, exchange_column),
        None => headers.push(exchange_column),
    }
}

/// The header row of the output, with the rate's column placed as in the
/// rows.
pub fn get_out_headers(
    headers: &Vec<String>,
    exchange_column: &str,
    exchange_column_insert_after: Option<&str>,
) -> (r: Vec<String>)
    ensures
        fields_view(r@) == out_headers_spec(
            fields_view(headers@),
            exchange_column@,
            match exchange_column_insert_after {
                Some(a) => Some(a@),
                None => None,
            },
        ),
{
    let pos = match exchange_column_insert_after {
        Some(a) => match get_column_index(Some(headers), a) {
            Ok(v) => Some(v),
            Err(_) => None,
        },
        None => None,
    };
    let n = headers.len();
    let mut out = copy_fields(headers);
    proof {
        assert(fields_view(headers@).len() == n);
        if pos is Some {
            lemma_header_position_found(
                fields_view(headers@),
                exchange_column_insert_after.unwrap()@,
            );
        }
    }
    insert_field(&mut out, pos, exchange_column.to_owned());
    out
}

/// The date that row `row` holds at `date_column` under `date_format`.
pub open spec fn row_date(date_column: usize, date_format: Seq<char>, row: Seq<Seq<char>>) -> Option<
    Date,
> {
    if date_column < row.len() {
        match parsed_date(row[date_column as int], date_format) {
            Some((y, m, d)) => Some(Date { year: y, month: m, day: d }),
            None => None,
        }
    } else {
        None
    }
}

/// Whether `d` is the date of some row of `rows`.
pub open spec fn is_row_date(
    date_column: usize,
    date_format: Seq<char>,
    rows: Seq<Seq<Seq<char>>>,
    d: Date,
) -> bool {
    exists|j: int| 0 <= j < rows.len() && row_date(date_column, date_format, #[trigger] rows[j]) == Some(d)
}

/// Every date that a row holds, and no other, for the rates that
/// enrichment will need.
pub fn row_dates(records: &Vec<Vec<String>>, date_column: usize, date_format: &str) -> (r: Vec<Date>)
    ensures
        forall|k: int| 0 <= k < r@.len() ==> (#[trigger] r@[k]).wf(),
        forall|k: int|
            0 <= k < r@.len() ==> is_row_date(
                date_column,
                date_format@,
                rows_view(records@),
                #[trigger] r@[k],
            ),
        forall|i: int|
            0 <= i < records@.len() ==> match row_date(
                date_column,
                date_format@,
                fields_view(#[trigger] records@[i]@),
            ) {
                Some(d) => r@.contains(d),
                None => true,
            },
{
    let ghost rv = rows_view(records@);
    let mut dates: Vec<Date> = Vec::new();
    let ghost mut src: Seq<int> = Seq::empty();
    let mut i: usize = 0;
    while i < records.len()
        invariant
            0 <= i <= records@.len(),
            rv == rows_view(records@),
            src.len() == dates@.len(),
            forall|k: int|
                0 <= k < src.len() ==> 0 <= #[trigger] src[k] < rv.len() && row_date(
                    date_column,
                    date_format@,
                    rv[src[k]],
                ) == Some(dates@[k]),
            forall|k: int| 0 <= k < dates@.len() ==> (#[trigger] dates@[k]).wf(),
            forall|j: int|
                0 <= j < i ==> match row_date(
                    date_column,
                    date_format@,
                    fields_view(#[trigger] records@[j]@),
                ) {
                    Some(d) => dates@.contains(d),
                    None => true,
                },
        decreases records@.len() - i,
    {
        let row = &records[i];
        if date_column < row.len() {
            assert(fields_view(row@)[date_column as int] == row@[date_column as int]@);
            match parse_date(row[date_column].as_str(), date_format) {
                Some(d) => {
                    let ghost prev = dates@;
                    let ghost prev_src = src;
                    dates.push(d);
                    proof {
                        src = src.push(i as int);
                        assert(rv[i as int] == fields_view(row@));
                        assert forall|k: int|
                            0 <= k < src.len() implies 0 <= #[trigger] src[k] < rv.len()
                                && row_date(date_column, date_format@, rv[src[k]]) == Some(
                                dates@[k],
                            ) by {
                            if k < prev_src.len() {
                                assert(src[k] == prev_src[k]);
                                assert(dates@[k] == prev[k]);
                            }
                        };
                    }
                    assert(dates@[prev.len() as int] == d);
                    assert forall|j: int|
                        0 <= j < i + 1 implies match row_date(
                            date_column,
                            date_format@,
                            fields_view(#[trigger] records@[j]@),
                        ) {
                            Some(dd) => dates@.contains(dd),
                            None => true,
                        } by {
                        if j < i {
                            if let Some(dd) = row_date(date_column, date_format@, fields_view(records@[j]@)) {
                                let p = choose|p: int| 0 <= p < prev.len() && prev[p] == dd;
                                assert(dates@[p] == dd);
                            }
                        }
                    };
                },
                None => {},
            }
        }
        i = i + 1;
    }
    assert forall|k: int| 0 <= k < dates@.len() implies is_row_date(
        date_column,
        date_format@,
        rows_view(records@),
        #[trigger] dates@[k],
    ) by {
        assert(0 <= src[k] < rv.len());
        assert(row_date(date_column, date_format@, rv[src[k]]) == Some(dates@[k]));
    };
    dates
}

} // verus!
