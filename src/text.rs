use vstd::prelude::*;

use crate::column::{fields_view, is_digit};

verus! {

/// The pieces of `s` between occurrences of `sep`; never empty (a string
/// without `sep` is one piece).
pub open spec fn split_on(s: Seq<char>, sep: char) -> Seq<Seq<char>>
    decreases s.len(),
{
    if s.len() == 0 {
        seq![Seq::<char>::empty()]
    } else {
        let rest = split_on(s.drop_last(), sep);
        if s.last() == sep {
            rest.push(Seq::<char>::empty())
        } else {
            rest.update(rest.len() - 1, rest.last().push(s.last()))
        }
    }
}

/// Whether `t` occurs in `s` at position `i`.
pub open spec fn occurs_at(s: Seq<char>, t: Seq<char>, i: int) -> bool {
    0 <= i && i + t.len() <= s.len() && s.subrange(i, i + t.len()) == t
}

/// Whether `t` occurs anywhere in `s`.
pub open spec fn contains_seq(s: Seq<char>, t: Seq<char>) -> bool {
    exists|i: int| occurs_at(s, t, i)
}

pub proof fn lemma_split_on_nonempty(s: Seq<char>, sep: char)
    ensures
        split_on(s, sep).len() >= 1,
    decreases s.len(),
{
    if s.len() > 0 {
        lemma_split_on_nonempty(s.drop_last(), sep);
    }
}

/// Splits `s` at every occurrence of `sep`.
pub fn split_text(s: &str, sep: char) -> (r: Vec<String>)
    ensures
        fields_view(r@) == split_on(s@, sep),
{
    let n = s.unicode_len();
    let mut pieces: Vec<String> = Vec::new();
    let mut start: usize = 0;
    let mut i: usize = 0;
    assert(s@.take(0) =~= Seq::<char>::empty());
    assert(fields_view(pieces@).push(s@.subrange(0, 0)) =~= split_on(s@.take(0), sep));
    while i < n
        invariant
            n == s@.len(),
            start <= i <= n,
            fields_view(pieces@).push(s@.subrange(start as int, i as int)) == split_on(
                s@.take(i as int),
                sep,
            ),
        decreases n - i,
    {
        let c = s.get_char(i);
        let ghost before = split_on(s@.take(i as int), sep);
        assert(s@.take(i + 1).drop_last() =~= s@.take(i as int));
        assert(s@.take(i + 1).last() == c);
        if c == sep {
            let piece = s.substring_char(start, i).to_owned();
            let ghost prev = pieces@;
            pieces.push(piece);
            assert(fields_view(pieces@) =~= fields_view(prev).push(
                s@.subrange(start as int, i as int),
            ));
            assert(s@.subrange(i + 1, i + 1) =~= Seq::<char>::empty());
            assert(fields_view(pieces@).push(s@.subrange(i + 1, i + 1)) =~= before.push(
                Seq::<char>::empty(),
            ));
            start = i + 1;
        } else {
            assert(s@.subrange(start as int, i + 1) =~= s@.subrange(start as int, i as int).push(
                c,
            ));
            assert(fields_view(pieces@).push(s@.subrange(start as int, i + 1)) =~= before.update(
                before.len() - 1,
                before.last().push(c),
            ));
        }
        i = i + 1;
    }
    let last = s.substring_char(start, n).to_owned();
    let ghost prev = pieces@;
    pieces.push(last);
    assert(fields_view(pieces@) =~= fields_view(prev).push(s@.subrange(start as int, n as int)));
    assert(s@.take(n as int) =~= s@);
    assert(fields_view(pieces@) =~= split_on(s@, sep));
    pieces
}

/// Whether `t` occurs in `s`.
pub fn contains_text(s: &str, t: &str) -> (r: bool)
    ensures
        r == contains_seq(s@, t@),
{
    let n = s.unicode_len();
    let m = t.unicode_len();
    if m > n {
        assert(forall|i: int| !occurs_at(s@, t@, i));
        return false;
    }
    let mut i: usize = 0;
    while i <= n - m
        invariant
            n == s@.len(),
            m == t@.len(),
            m <= n,
            0 <= i <= n - m + 1,
            forall|k: int| 0 <= k < i ==> !occurs_at(s@, t@, k),
        decreases n - m + 1 - i,
    {
        let mut j: usize = 0;
        let mut same = true;
        while j < m
            invariant
                n == s@.len(),
                m == t@.len(),
                i + m <= n,
                0 <= j <= m,
                same == (forall|k: int| 0 <= k < j ==> s@[i + k] == t@[k]),
            decreases m - j,
        {
            if s.get_char(i + j) != t.get_char(j) {
                same = false;
            }
            j = j + 1;
        }
        if same {
            assert(s@.subrange(i as int, i + m) =~= t@);
            assert(occurs_at(s@, t@, i as int));
            return true;
        }
        assert(!occurs_at(s@, t@, i as int)) by {
            if occurs_at(s@, t@, i as int) {
                assert forall|k: int| 0 <= k < m implies s@[i + k] == t@[k] by {
                    assert(s@.subrange(i as int, i + m)[k] == s@[i + k]);
                }
            }
        };
        i = i + 1;
    }
    assert(forall|k: int| !occurs_at(s@, t@, k)) by {
        assert forall|k: int| !occurs_at(s@, t@, k) by {
            if k >= i {
                assert(k + m > n);
            }
        }
    };
    false
}

/// `s` with its one trailing carriage return, if any, removed.
pub open spec fn strip_cr(s: Seq<char>) -> Seq<char> {
    if s.len() > 0 && s.last() == '\r' {
        s.drop_last()
    } else {
        s
    }
}

/// Drops a trailing carriage return.
pub fn strip_cr_text(s: &str) -> (r: String)
    ensures
        r@ == strip_cr(s@),
{
    let n = s.unicode_len();
    if n > 0 && s.get_char(n - 1) == '\r' {
        s.substring_char(0, n - 1).to_owned()
    } else {
        assert(s@.subrange(0, n as int) =~= s@);
        s.substring_char(0, n).to_owned()
    }
}

/// `s` with every comma turned into a dot.
pub open spec fn comma_to_dot(s: Seq<char>) -> Seq<char> {
    s.map_values(|c: char| if c == ',' { '.' } else { c })
}

/// Replaces every comma by a dot.
pub fn comma_to_dot_text(s: &str) -> (r: String)
    ensures
        r@ == comma_to_dot(s@),
{
    let n = s.unicode_len();
    let mut out = String::new();
    let mut i: usize = 0;
    while i < n
        invariant
            n == s@.len(),
            0 <= i <= n,
            out@ == comma_to_dot(s@.take(i as int)),
        decreases n - i,
    {
        let c = s.get_char(i);
        if c == ',' {
            out.append(".");
            proof {
                reveal_strlit(".");
            }
        } else {
            out.append(s.substring_char(i, i + 1));
        }
        assert(comma_to_dot(s@.take(i + 1)) =~= comma_to_dot(s@.take(i as int)).push(
            if c == ',' { '.' } else { c },
        ));
        i = i + 1;
    }
    assert(s@.take(n as int) =~= s@);
    out
}

/// A decimal number: digits, with at most one dot, which has a digit on
/// each side.
pub open spec fn is_decimal(s: Seq<char>) -> bool {
    &&& s.len() > 0
    &&& is_digit(s[0])
    &&& is_digit(s.last())
    &&& forall|i: int| 0 <= i < s.len() ==> is_digit(#[trigger] s[i]) || s[i] == '.'
    &&& forall|i: int, j: int|
        0 <= i < s.len() && 0 <= j < s.len() && #[trigger] s[i] == '.' && #[trigger] s[j] == '.'
            ==> i == j
}

/// Whether `s` is a decimal number.
pub fn is_decimal_text(s: &str) -> (r: bool)
    ensures
        r == is_decimal(s@),
{
    let n = s.unicode_len();
    if n == 0 {
        return false;
    }
    let first = s.get_char(0);
    let last = s.get_char(n - 1);
    if first < '0' || first > '9' || last < '0' || last > '9' {
        return false;
    }
    let mut dot: Option<usize> = None;
    let mut i: usize = 0;
    while i < n
        invariant
            n == s@.len(),
            0 <= i <= n,
            forall|k: int| 0 <= k < i ==> is_digit(#[trigger] s@[k]) || s@[k] == '.',
            match dot {
                Some(p) => p < i && s@[p as int] == '.' && forall|k: int|
                    0 <= k < i && #[trigger] s@[k] == '.' ==> k == p,
                None => forall|k: int| 0 <= k < i ==> #[trigger] s@[k] != '.',
            },
        decreases n - i,
    {
        let c = s.get_char(i);
        if c == '.' {
            if dot.is_some() {
                let p = dot.unwrap();
                assert(s@[p as int] == '.' && s@[i as int] == '.' && p != i);
                return false;
            }
            dot = Some(i);
        } else if c < '0' || c > '9' {
            assert(!(is_digit(s@[i as int]) || s@[i as int] == '.'));
            return false;
        }
        i = i + 1;
    }
    true
}

} // verus!
