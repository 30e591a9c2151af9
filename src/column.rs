use vstd::prelude::*;

use crate::error::PipelineError;

verus! {

/// Whether `c` is an ASCII decimal digit.
pub open spec fn is_digit(c: char) -> bool {
    '0' <= c && c <= '9'
}

/// Whether `s` is made of ASCII decimal digits only.
pub open spec fn all_digits(s: Seq<char>) -> bool {
    forall|i: int| 0 <= i < s.len() ==> is_digit(#[trigger] s[i])
}

/// The number that a string of decimal digits denotes.
pub open spec fn digits_value(s: Seq<char>) -> int
    decreases s.len(),
{
    if s.len() == 0 {
        0
    } else {
        digits_value(s.drop_last()) * 10 + (s.last() as int - '0' as int)
    }
}

/// The digits of an index reference: an optional leading `+` is dropped.
pub open spec fn index_digits(s: Seq<char>) -> Seq<char> {
    if s.len() > 0 && s[0] == '+' {
        s.skip(1)
    } else {
        s
    }
}

/// The non-negative integer that `s` denotes in decimal, if it is one that
/// fits in a `usize`.
pub open spec fn index_of_text(s: Seq<char>) -> Option<usize> {
    let d = index_digits(s);
    if d.len() > 0 && all_digits(d) && digits_value(d) <= usize::MAX {
        Some(digits_value(d) as usize)
    } else {
        None
    }
}

/// The first position at which `headers` holds `name`, if any.
pub open spec fn header_position(headers: Seq<Seq<char>>, name: Seq<char>) -> Option<usize> {
    if exists|i: int| 0 <= i < headers.len() && headers[i] == name {
        Some(
            (choose|i: int|
                0 <= i < headers.len() && headers[i] == name && forall|j: int|
                    0 <= j < i ==> headers[j] != name) as usize,
        )
    } else {
        None
    }
}

/// What a column reference resolves to: a header name against the header
/// row, or a decimal index where there is none.
pub open spec fn column_index_spec(headers: Option<Seq<Seq<char>>>, column: Seq<char>) -> Result<
    usize,
    PipelineError,
> {
    match headers {
        Some(h) => match header_position(h, column) {
            Some(i) => Ok(i),
            None => Err(PipelineError::UnknownColumn),
        },
        None => match index_of_text(column) {
            Some(i) => Ok(i),
            None => Err(PipelineError::InvalidColumnIndex),
        },
    }
}

/// The view of a row of fields.
pub open spec fn fields_view(r: Seq<String>) -> Seq<Seq<char>> {
    r.map_values(|f: String| f@)
}

proof fn lemma_digits_value_monotone(s: Seq<char>, j: int)
    requires
        0 <= j <= s.len(),
        all_digits(s),
    ensures
        0 <= digits_value(s.take(j)) <= digits_value(s),
    decreases s.len(),
{
    if s.len() > 0 {
        if j < s.len() {
            lemma_digits_value_monotone(s.drop_last(), j);
            assert(s.drop_last().take(j) =~= s.take(j));
        } else {
            assert(s.take(j) =~= s);
            lemma_digits_value_monotone(s.drop_last(), j - 1);
            assert(s.drop_last().take(j - 1) =~= s.drop_last());
        }
    } else {
        assert(s.take(j) =~= s);
    }
}

proof fn lemma_header_position(hv: Seq<Seq<char>>, name: Seq<char>, i: int)
    requires
        0 <= i < hv.len(),
        hv[i] == name,
        forall|j: int| 0 <= j < i ==> hv[j] != name,
    ensures
        header_position(hv, name) == Some(i as usize),
{
    assert(0 <= i < hv.len() && hv[i] == name && forall|j: int| 0 <= j < i ==> hv[j] != name);
    let c = choose|k: int|
        0 <= k < hv.len() && hv[k] == name && forall|j: int| 0 <= j < k ==> hv[j] != name;
    assert(c == i) by {
        if c < i {
            assert(hv[c] == name);
        } else if c > i {
            assert(hv[i] == name);
        }
    };
}

/// A found header position names a column that holds the name.
pub proof fn lemma_header_position_found(hv: Seq<Seq<char>>, name: Seq<char>)
    requires
        header_position(hv, name) is Some,
        hv.len() <= usize::MAX,
    ensures
        header_position(hv, name).unwrap() < hv.len(),
        hv[header_position(hv, name).unwrap() as int] == name,
{
    let w = choose|i: int| 0 <= i < hv.len() && hv[i] == name;
    lemma_first_occurrence_exists(hv, name, w);
}

proof fn lemma_first_occurrence_exists(hv: Seq<Seq<char>>, name: Seq<char>, w: int)
    requires
        0 <= w < hv.len(),
        hv[w] == name,
    ensures
        exists|i: int|
            0 <= i < hv.len() && hv[i] == name && forall|j: int| 0 <= j < i ==> hv[j] != name,
    decreases w,
{
    if exists|j: int| 0 <= j < w && hv[j] == name {
        let j = choose|j: int| 0 <= j < w && hv[j] == name;
        lemma_first_occurrence_exists(hv, name, j);
    } else {
        assert(forall|j: int| 0 <= j < w ==> hv[j] != name);
    }
}

/// Reads a decimal index, with an optional leading `+`.
pub fn parse_index(s: &str) -> (r: Option<usize>)
    ensures
        r == index_of_text(s@),
{
    let n = s.unicode_len();
    let mut start: usize = 0;
    if n > 0 && s.get_char(0) == '+' {
        start = 1;
    }
    let ghost d = index_digits(s@);
    assert(d =~= s@.skip(start as int));
    if start >= n {
        return None;
    }
    let mut value: usize = 0;
    let mut i: usize = start;
    while i < n
        invariant
            start <= i <= n,
            n == s@.len(),
            d =~= s@.skip(start as int),
            d == index_digits(s@),
            all_digits(d.take(i - start)),
            value as int == digits_value(d.take(i - start)),
        decreases n - i,
    {
        let c = s.get_char(i);
        assert(d.take(i + 1 - start).drop_last() =~= d.take(i - start));
        if c < '0' || c > '9' {
            assert(!is_digit(d[i - start]));
            assert(!all_digits(d));
            return None;
        }
        let digit = (c as u32 - '0' as u32) as usize;
        let m = value.checked_mul(10);
        assert(d[i - start] == c);
        assert(digits_value(d.take(i + 1 - start)) == digits_value(d.take(i - start)) * 10 + digit);
        if m.is_none() {
            proof {
                if all_digits(d) {
                    lemma_digits_value_monotone(d, i + 1 - start);
                }
            }
            return None;
        }
        let a = m.unwrap().checked_add(digit);
        if a.is_none() {
            proof {
                if all_digits(d) {
                    lemma_digits_value_monotone(d, i + 1 - start);
                }
            }
            return None;
        }
        value = a.unwrap();
        i = i + 1;
    }
    assert(d.take(n - start) =~= d);
    Some(value)
}

/// Resolves a column reference: by exact name against the header row where
/// there is one, else as a zero-based decimal index (not checked against
/// any row's width).
pub fn get_column_index(headers: Option<&Vec<String>>, column: &str) -> (r: Result<
    usize,
    PipelineError,
>)
    ensures
        r == column_index_spec(
            match headers {
                Some(h) => Some(fields_view(h@)),
                None => None,
            },
            column@,
        ),
{
    match headers {
        Some(h) => {
            let name = String::from_str(column);
            let mut i: usize = 0;
            while i < h.len()
                invariant
                    0 <= i <= h@.len(),
                    headers == Some(h),
                    name@ == column@,
                    forall|j: int| 0 <= j < i ==> h@[j]@ != column@,
                decreases h@.len() - i,
            {
                if h[i] == name {
                    proof {
                        let hv = fields_view(h@);
                        assert forall|j: int| 0 <= j < i implies hv[j] != column@ by {
                            assert(hv[j] == h@[j]@);
                        }
                        lemma_header_position(hv, column@, i as int);
                    }
                    return Ok(i);
                }
                i = i + 1;
            }
            let ghost hv = fields_view(h@);
            assert(!exists|k: int| 0 <= k < hv.len() && hv[k] == column@) by {
                if exists|k: int| 0 <= k < hv.len() && hv[k] == column@ {
                    let k = choose|k: int| 0 <= k < hv.len() && hv[k] == column@;
                    assert(h@[k]@ == column@);
                }
            };
            Err(PipelineError::UnknownColumn)
        },
        None => match parse_index(column) {
            Some(i) => Ok(i),
            None => Err(PipelineError::InvalidColumnIndex),
        },
    }
}

} // verus!

verus! {

/// The view of a sequence of rows.
pub open spec fn rows_view(rows: Seq<Vec<String>>) -> Seq<Seq<Seq<char>>> {
    rows.map_values(|r: Vec<String>| fields_view(r@))
}

/// A copy of a row of fields.
pub fn copy_fields(r: &Vec<String>) -> (c: Vec<String>)
    ensures
        fields_view(c@) == fields_view(r@),
{
    let mut c: Vec<String> = Vec::new();
    let mut i: usize = 0;
    while i < r.len()
        invariant
            0 <= i <= r@.len(),
            fields_view(c@) =~= fields_view(r@.take(i as int)),
        decreases r@.len() - i,
    {
        let ghost prev = c@;
        c.push(r[i].clone());
        assert(fields_view(c@) =~= fields_view(prev).push(r@[i as int]@));
        assert(r@.take(i + 1) =~= r@.take(i as int).push(r@[i as int]));
        assert(fields_view(r@.take(i + 1)) =~= fields_view(r@.take(i as int)).push(r@[i as int]@));
        i = i + 1;
    }
    assert(r@.take(r@.len() as int) =~= r@);
    c
}

} // verus!
