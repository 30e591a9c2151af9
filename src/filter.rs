use vstd::prelude::*;

use crate::column::{
    column_index_spec, copy_fields, fields_view, get_column_index, rows_view,
};
use crate::error::PipelineError;

verus! {

/// Whether the regex crate compiles `pattern`.
pub uninterp spec fn regex_compiles(pattern: Seq<char>) -> bool;

/// Whether the regex compiled from `pattern` finds a match anywhere in `text`.
pub uninterp spec fn regex_finds(pattern: Seq<char>, text: Seq<char>) -> bool;

/// Relies on regex's `Regex::new`: whether the pattern compiles.
#[verifier::external_body]
fn pattern_compiles(pattern: &str) -> (r: bool)
    ensures
        r == regex_compiles(pattern@),
{
    regex::Regex::new(pattern).is_ok()
}

/// Relies on regex's `Regex::new` and `Regex::find`: whether the compiled
/// pattern matches somewhere in `text` (not anchored).
#[verifier::external_body]
fn pattern_finds(pattern: &str, text: &str) -> (r: bool)
    requires
        regex_compiles(pattern@),
    ensures
        r == regex_finds(pattern@, text@),
{
    match regex::Regex::new(pattern) {
        Ok(re) => re.find(text).is_some(),
        Err(_) => false,
    }
}

/// The position of the first `c` in `s`, if any.
pub open spec fn first_index_of(s: Seq<char>, c: char) -> Option<int> {
    if exists|i: int| 0 <= i < s.len() && s[i] == c {
        Some(
            choose|i: int|
                0 <= i < s.len() && s[i] == c && forall|j: int| 0 <= j < i ==> s[j] != c,
        )
    } else {
        None
    }
}

/// A row passes filter `f` (a column and a pattern) when it has that column
/// and the pattern is found in it.
pub open spec fn row_matches(f: (usize, Seq<char>), row: Seq<Seq<char>>) -> bool {
    f.0 < row.len() && regex_finds(f.1, row[f.0 as int])
}

/// What a filter expression `column=pattern` compiles to.
pub open spec fn filter_spec(expr: Seq<char>, headers: Option<Seq<Seq<char>>>) -> Result<
    (usize, Seq<char>),
    PipelineError,
> {
    match first_index_of(expr, '=') {
        None => Err(PipelineError::MalformedFilter),
        Some(i) => {
            let pattern = expr.skip(i + 1);
            if !regex_compiles(pattern) {
                Err(PipelineError::InvalidPattern)
            } else {
                match column_index_spec(headers, expr.take(i)) {
                    Ok(c) => Ok((c, pattern)),
                    Err(e) => Err(e),
                }
            }
        },
    }
}

/// The rows of `rows` that pass the filter, if any, in their order.
pub open spec fn kept_rows(f: Option<(usize, Seq<char>)>, rows: Seq<Seq<Seq<char>>>) -> Seq<
    Seq<Seq<char>>,
>
    decreases rows.len(),
{
    if rows.len() == 0 {
        Seq::empty()
    } else {
        let rest = kept_rows(f, rows.drop_last());
        match f {
            Some(g) => if row_matches(g, rows.last()) {
                rest.push(rows.last())
            } else {
                rest
            },
            None => rest.push(rows.last()),
        }
    }
}

/// A compiled row filter: a column index and a pattern searched in it.
pub struct RecordFilter {
    column: usize,
    pattern: String,
}

impl View for RecordFilter {
    type V = (usize, Seq<char>);

    closed spec fn view(&self) -> (usize, Seq<char>) {
        (self.column, self.pattern@)
    }
}

impl RecordFilter {
    /// The pattern compiles.
    pub open spec fn wf(&self) -> bool {
        regex_compiles(self@.1)
    }

    /// Whether `record` has the filter's column and the pattern is found in
    /// it; a record too short never matches.
    pub fn matches(&self, record: &Vec<String>) -> (r: bool)
        requires
            self.wf(),
        ensures
            r == row_matches(self@, fields_view(record@)),
    {
        if self.column < record.len() {
            assert(fields_view(record@)[self.column as int] == record@[self.column as int]@);
            pattern_finds(self.pattern.as_str(), record[self.column].as_str())
        } else {
            false
        }
    }
}

/// Matching is a pure predicate: two evaluations on the same record and
/// filter agree.
pub proof fn lemma_matches_is_pure(
    f: (usize, Seq<char>),
    row: Seq<Seq<char>>,
    first: bool,
    second: bool,
)
    requires
        first == row_matches(f, row),
        second == row_matches(f, row),
    ensures
        first == second,
{
}

proof fn lemma_first_index_of(s: Seq<char>, c: char, i: int)
    requires
        0 <= i < s.len(),
        s[i] == c,
        forall|j: int| 0 <= j < i ==> s[j] != c,
    ensures
        first_index_of(s, c) == Some(i),
{
    assert(0 <= i < s.len() && s[i] == c && forall|j: int| 0 <= j < i ==> s[j] != c);
    let k = choose|k: int| 0 <= k < s.len() && s[k] == c && forall|j: int| 0 <= j < k ==> s[j] != c;
    assert(k == i) by {
        if k < i {
            assert(s[k] == c);
        } else if k > i {
            assert(s[i] == c);
        }
    };
}

/// Compiles a filter expression `column=pattern`, split at the first `=`;
/// the column resolves as `get_column_index` does.
pub fn create_filter(filter: &str, headers: Option<&Vec<String>>) -> (r: Result<
    RecordFilter,
    PipelineError,
>)
    ensures
        match r {
            Ok(f) => f.wf() && filter_spec(
                filter@,
                match headers {
                    Some(h) => Some(fields_view(h@)),
                    None => None,
                },
            ) == Ok::<(usize, Seq<char>), PipelineError>(f@),
            Err(e) => filter_spec(
                filter@,
                match headers {
                    Some(h) => Some(fields_view(h@)),
                    None => None,
                },
            ) == Err::<(usize, Seq<char>), PipelineError>(e),
        },
{
    let n = filter.unicode_len();
    let mut i: usize = 0;
    while i < n && filter.get_char(i) != '='
        invariant
            n == filter@.len(),
            0 <= i <= n,
            forall|j: int| 0 <= j < i ==> filter@[j] != '=',
        decreases n - i,
    {
        i = i + 1;
    }
    if i == n {
        assert(!exists|k: int| 0 <= k < filter@.len() && filter@[k] == '=');
        return Err(PipelineError::MalformedFilter);
    }
    proof {
        lemma_first_index_of(filter@, '=', i as int);
    }
    let column = filter.substring_char(0, i);
    let pattern = filter.substring_char(i + 1, n);
    assert(pattern@ =~= filter@.skip(i + 1));
    assert(column@ =~= filter@.take(i as int));
    if !pattern_compiles(pattern) {
        return Err(PipelineError::InvalidPattern);
    }
    match get_column_index(headers, column) {
        Ok(c) => Ok(RecordFilter { column: c, pattern: pattern.to_owned() }),
        Err(e) => Err(e),
    }
}

/// The records that pass `filter` (all of them without one), in their
/// input order.
pub fn filter_records(records: &Vec<Vec<String>>, filter: Option<&RecordFilter>) -> (r: Vec<
    Vec<String>,
>)
    requires
        match filter {
            Some(f) => f.wf(),
            None => true,
        },
    ensures
        rows_view(r@) == kept_rows(
            match filter {
                Some(f) => Some(f@),
                None => None,
            },
            rows_view(records@),
        ),
{
    let ghost fv = match filter {
        Some(f) => Some(f@),
        None => None,
    };
    let mut out: Vec<Vec<String>> = Vec::new();
    let mut i: usize = 0;
    while i < records.len()
        invariant
            0 <= i <= records@.len(),
            fv == match filter {
                Some(f) => Some(f@),
                None => None,
            },
            match filter {
                Some(f) => f.wf(),
                None => true,
            },
            rows_view(out@) == kept_rows(fv, rows_view(records@).take(i as int)),
        decreases records@.len() - i,
    {
        let ghost prev = out@;
        let keep = match filter {
            Some(f) => f.matches(&records[i]),
            None => true,
        };
        let ghost rv = rows_view(records@);
        assert(rv.take(i + 1).drop_last() =~= rv.take(i as int));
        assert(rv.take(i + 1).last() == fields_view(records@[i as int]@));
        if keep {
            let row = copy_fields(&records[i]);
            out.push(row);
            assert(rows_view(out@) =~= rows_view(prev).push(fields_view(records@[i as int]@)));
        }
        i = i + 1;
    }
    assert(rows_view(records@).take(records@.len() as int) =~= rows_view(records@));
    out
}

} // verus!
