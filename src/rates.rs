use vstd::prelude::*;

use std::collections::{HashMap, HashSet};

use crate::column::fields_view;
use crate::date::{format_date, formatted_date, lemma_date_key_injective, Date};
use crate::error::PipelineError;
use crate::text::{
    comma_to_dot, comma_to_dot_text, contains_seq, contains_text, is_decimal, is_decimal_text,
    lemma_split_on_nonempty, split_on, split_text, strip_cr, strip_cr_text,
};

verus! {

broadcast use vstd::std_specs::hash::group_hash_axioms;

/// Where the official rates for a date are published; the date follows.
pub const RATE_URL_PREFIX: &'static str = "https://www.bnm.md/ro/export-official-exchange-rates?date=";

/// The date format that the remote source expects.
pub const REMOTE_DATE_FORMAT: &'static str = "%d.%m.%Y";

/// The field that marks the currency's line in a response.
pub const CURRENCY_MARKER: &'static str = ";USD;";

/// The request URL for a date, where the date can be rendered.
pub open spec fn rate_url_spec(d: Date) -> Option<Seq<char>> {
    match formatted_date(d.year, d.month, d.day, REMOTE_DATE_FORMAT@) {
        Some(s) => Some(RATE_URL_PREFIX@ + s),
        None => None,
    }
}

/// The URL from which the rates of `d` are fetched: the date as
/// day.month.year, zero-padded, after the endpoint.
pub fn rate_request_url(d: &Date) -> (r: Option<String>)
    ensures
        match r {
            Some(u) => rate_url_spec(*d) == Some(u@),
            None => rate_url_spec(*d) is None,
        },
{
    match format_date(d, REMOTE_DATE_FORMAT) {
        Some(s) => {
            let mut url = String::from_str(RATE_URL_PREFIX);
            url.append(s.as_str());
            Some(url)
        },
        None => None,
    }
}

/// The first line at or after `k` that holds the currency marker.
pub open spec fn first_marked_line(lines: Seq<Seq<char>>, k: int) -> Option<int>
    decreases lines.len() - k,
{
    if k < 0 || k >= lines.len() {
        None
    } else if contains_seq(strip_cr(lines[k]), CURRENCY_MARKER@) {
        Some(k)
    } else {
        first_marked_line(lines, k + 1)
    }
}

/// The rate that a response gives: the body's lines after the first two are
/// searched for the currency marker; the first such line's last
/// `;`-separated field, with commas as dots, must be a decimal number.
pub open spec fn response_rate(status: u16, body: Seq<char>) -> Result<Seq<char>, PipelineError> {
    if status != 200 {
        Err(PipelineError::UnexpectedStatus(status))
    } else {
        let lines = split_on(body, '\n');
        match first_marked_line(lines, 2) {
            None => Err(PipelineError::CurrencyNotFound),
            Some(k) => {
                let t = comma_to_dot(split_on(strip_cr(lines[k]), ';').last());
                if is_decimal(t) {
                    Ok(t)
                } else {
                    Err(PipelineError::MalformedResponse)
                }
            },
        }
    }
}

/// Reads the rate out of a response's status and body text.
pub fn parse_rate_response(status: u16, body: &str) -> (r: Result<String, PipelineError>)
    ensures
        match r {
            Ok(t) => response_rate(status, body@) == Ok::<Seq<char>, PipelineError>(t@),
            Err(e) => response_rate(status, body@) == Err::<Seq<char>, PipelineError>(e),
        },
{
    if status != 200 {
        return Err(PipelineError::UnexpectedStatus(status));
    }
    let lines = split_text(body, '\n');
    let ghost lv = fields_view(lines@);
    let mut k: usize = 2;
    while k < lines.len()
        invariant
            lv == fields_view(lines@),
            lv == split_on(body@, '\n'),
            2 <= k,
            status == 200,
            first_marked_line(lv, 2) == first_marked_line(lv, k as int),
        decreases lines@.len() - k,
    {
        let line = strip_cr_text(lines[k].as_str());
        assert(lv[k as int] == lines@[k as int]@);
        if contains_text(line.as_str(), CURRENCY_MARKER) {
            let fields = split_text(line.as_str(), ';');
            proof {
                lemma_split_on_nonempty(line@, ';');
            }
            let last = fields.len() - 1;
            assert(fields_view(fields@)[last as int] == fields@[last as int]@);
            assert(first_marked_line(lv, k as int) == Some(k as int));
            let t = comma_to_dot_text(fields[last].as_str());
            if is_decimal_text(t.as_str()) {
                return Ok(t);
            } else {
                return Err(PipelineError::MalformedResponse);
            }
        }
        k = k + 1;
    }
    Err(PipelineError::CurrencyNotFound)
}

/// What looking up a date in the cache yields: its rate, or the error with
/// which its last fetch failed.
pub type Lookup = Result<Seq<char>, PipelineError>;

/// The rates known in one run, by date; a date's rate, once known, is
/// never fetched again. A failed fetch is remembered with its error, but
/// does not count as known: a later fetch may still be tried.
pub struct RateCache {
    rates: HashMap<u64, String>,
    failures: HashMap<u64, PipelineError>,
}

impl View for RateCache {
    type V = Map<u64, Seq<char>>;

    /// The known rates.
    closed spec fn view(&self) -> Map<u64, Seq<char>> {
        self.rates@.map_values(|s: String| s@)
    }
}

impl RateCache {
    /// For each date looked up so far: its rate where one is known, else the
    /// error of its last failed fetch.
    pub closed spec fn lookups(&self) -> Map<u64, Lookup> {
        Map::new(
            |k: u64| self.rates@.contains_key(k) || self.failures@.contains_key(k),
            |k: u64|
                if self.rates@.contains_key(k) {
                    Ok::<Seq<char>, PipelineError>(self.rates@[k]@)
                } else {
                    Err::<Seq<char>, PipelineError>(self.failures@[k])
                },
        )
    }

    /// An empty cache.
    pub fn new() -> (r: RateCache)
        ensures
            r@ == Map::<u64, Seq<char>>::empty(),
            r.lookups() == Map::<u64, Lookup>::empty(),
    {
        let r = RateCache { rates: HashMap::new(), failures: HashMap::new() };
        assert(r@ =~= Map::<u64, Seq<char>>::empty());
        assert(r.lookups() =~= Map::<u64, Lookup>::empty());
        r
    }

    /// Whether the rate of `d` is known.
    pub fn contains(&self, d: &Date) -> (r: bool)
        requires
            d.wf(),
        ensures
            r == self@.contains_key(d.key_spec()),
    {
        let k = d.key();
        self.rates.contains_key(&k)
    }

    /// The rate of `d`, if known.
    pub fn rate_for(&self, d: &Date) -> (r: Option<String>)
        requires
            d.wf(),
        ensures
            match r {
                Some(s) => self@.contains_key(d.key_spec()) && self@[d.key_spec()] == s@,
                None => !self@.contains_key(d.key_spec()),
            },
    {
        let k = d.key();
        match self.rates.get(&k) {
            Some(s) => Some(s.clone()),
            None => None,
        }
    }

    /// The rate of `d`, or the error of its failed fetch; `None` where no
    /// fetch of it was recorded.
    pub fn lookup(&self, d: &Date) -> (r: Option<Result<String, PipelineError>>)
        requires
            d.wf(),
        ensures
            match r {
                Some(Ok(s)) => self.lookups().contains_key(d.key_spec()) && self.lookups()[d.key_spec()]
                    == Ok::<Seq<char>, PipelineError>(s@),
                Some(Err(e)) => self.lookups().contains_key(d.key_spec()) && self.lookups()[d.key_spec()]
                    == Err::<Seq<char>, PipelineError>(e),
                None => !self.lookups().contains_key(d.key_spec()),
            },
    {
        let k = d.key();
        match self.rates.get(&k) {
            Some(s) => Some(Ok(s.clone())),
            None => match self.failures.get(&k) {
                Some(e) => Some(Err(*e)),
                None => None,
            },
        }
    }

    /// Records the rate of `d`.
    pub fn insert(&mut self, d: &Date, rate: String)
        requires
            d.wf(),
        ensures
            final(self)@ == old(self)@.insert(d.key_spec(), rate@),
            final(self).lookups() == old(self).lookups().insert(
                d.key_spec(),
                Ok::<Seq<char>, PipelineError>(rate@),
            ),
    {
        let k = d.key();
        let ghost r = rate@;
        self.rates.insert(k, rate);
        assert(self@ =~= old(self)@.insert(d.key_spec(), r));
        assert(self.lookups() =~= old(self).lookups().insert(
            d.key_spec(),
            Ok::<Seq<char>, PipelineError>(r),
        ));
    }

    /// Records that the fetch for `d` failed with `e`; a rate already known
    /// for `d` is kept.
    fn record_failure(&mut self, d: &Date, e: PipelineError)
        requires
            d.wf(),
        ensures
            final(self)@ == old(self)@,
            final(self).lookups() == if old(self)@.contains_key(d.key_spec()) {
                old(self).lookups()
            } else {
                old(self).lookups().insert(d.key_spec(), Err::<Seq<char>, PipelineError>(e))
            },
    {
        let k = d.key();
        self.failures.insert(k, e);
        assert(self@ =~= old(self)@);
        proof {
            if old(self)@.contains_key(d.key_spec()) {
                assert(self.lookups() =~= old(self).lookups());
            } else {
                assert(self.lookups() =~= old(self).lookups().insert(
                    d.key_spec(),
                    Err::<Seq<char>, PipelineError>(e),
                ));
            }
        }
    }

    /// Records that the request for `d` did not complete.
    pub fn record_network_error(&mut self, d: &Date)
        requires
            d.wf(),
        ensures
            final(self)@ == old(self)@,
            final(self).lookups() == if old(self)@.contains_key(d.key_spec()) {
                old(self).lookups()
            } else {
                old(self).lookups().insert(
                    d.key_spec(),
                    Err::<Seq<char>, PipelineError>(PipelineError::NetworkError),
                )
            },
    {
        self.record_failure(d, PipelineError::NetworkError);
    }

    /// Takes in the response fetched for `d`: a rate read from it is stored
    /// and returned; a failure is remembered for `d` without counting as a
    /// known rate, so that a later fetch may be tried.
    pub fn record_response(&mut self, d: &Date, status: u16, body: &str) -> (r: Result<
        String,
        PipelineError,
    >)
        requires
            d.wf(),
        ensures
            match response_rate(status, body@) {
                Ok(t) => r is Ok && r.unwrap()@ == t && final(self)@ == old(self)@.insert(
                    d.key_spec(),
                    t,
                ) && final(self).lookups() == old(self).lookups().insert(
                    d.key_spec(),
                    Ok::<Seq<char>, PipelineError>(t),
                ),
                Err(e) => r == Err::<String, PipelineError>(e) && final(self)@ == old(self)@
                    && final(self).lookups() == if old(self)@.contains_key(d.key_spec()) {
                    old(self).lookups()
                } else {
                    old(self).lookups().insert(d.key_spec(), Err::<Seq<char>, PipelineError>(e))
                },
            },
    {
        match parse_rate_response(status, body) {
            Ok(t) => {
                self.insert(d, t.clone());
                Ok(t)
            },
            Err(e) => {
                self.record_failure(d, e);
                Err(e)
            },
        }
    }
}

/// `plan` holds each date of `dates` whose rate `cached` lacks, and nothing
/// else, with no date twice.
pub open spec fn is_fetch_plan(cached: Map<u64, Seq<char>>, dates: Seq<Date>, plan: Seq<Date>) -> bool {
    &&& forall|i: int, j: int|
        0 <= i < j < plan.len() ==> #[trigger] plan[i].key_spec() != #[trigger] plan[j].key_spec()
    &&& forall|i: int|
        0 <= i < plan.len() ==> (#[trigger] plan[i]).wf() && !cached.contains_key(plan[i].key_spec())
            && dates.contains(plan[i])
    &&& forall|i: int|
        0 <= i < dates.len() ==> cached.contains_key((#[trigger] dates[i]).key_spec())
            || plan.contains(dates[i])
}

/// The dates to fetch before the rows can be enriched: each date of `dates`
/// whose rate is not cached, once, in the order in which they first come.
pub fn plan_fetches(cache: &RateCache, dates: &Vec<Date>) -> (r: Vec<Date>)
    requires
        forall|i: int| 0 <= i < dates@.len() ==> (#[trigger] dates@[i]).wf(),
    ensures
        is_fetch_plan(cache@, dates@, r@),
{
    let mut plan: Vec<Date> = Vec::new();
    let mut planned: HashSet<u64> = HashSet::new();
    let mut i: usize = 0;
    while i < dates.len()
        invariant
            0 <= i <= dates@.len(),
            forall|q: int| 0 <= q < dates@.len() ==> (#[trigger] dates@[q]).wf(),
            forall|k: u64|
                planned@.contains(k) <==> exists|p: int|
                    0 <= p < plan@.len() && (#[trigger] plan@[p]).key_spec() == k,
            forall|a: int, b: int|
                0 <= a < b < plan@.len() ==> #[trigger] plan@[a].key_spec()
                    != #[trigger] plan@[b].key_spec(),
            forall|p: int|
                0 <= p < plan@.len() ==> (#[trigger] plan@[p]).wf() && !cache@.contains_key(
                    plan@[p].key_spec(),
                ) && dates@.contains(plan@[p]),
            forall|q: int|
                0 <= q < i ==> cache@.contains_key((#[trigger] dates@[q]).key_spec())
                    || plan@.contains(dates@[q]),
        decreases dates@.len() - i,
    {
        let d = dates[i];
        let k = d.key();
        if !cache.contains(&d) && !planned.contains(&k) {
            let ghost old_plan = plan@;
            plan.push(d);
            planned.insert(k);
            assert(plan@[old_plan.len() as int] == d);
            assert(dates@[i as int] == d);
            assert forall|kk: u64|
                planned@.contains(kk) <==> exists|p: int|
                    0 <= p < plan@.len() && (#[trigger] plan@[p]).key_spec() == kk by {
                if planned@.contains(kk) && kk != k {
                    let p = choose|p: int|
                        0 <= p < old_plan.len() && (#[trigger] old_plan[p]).key_spec() == kk;
                    assert(plan@[p] == old_plan[p]);
                }
                if exists|p: int| 0 <= p < plan@.len() && (#[trigger] plan@[p]).key_spec() == kk {
                    let p = choose|p: int| 0 <= p < plan@.len() && (#[trigger] plan@[p]).key_spec() == kk;
                    if p < old_plan.len() {
                        assert(old_plan[p] == plan@[p]);
                    }
                }
            };
            assert forall|a: int, b: int|
                0 <= a < b < plan@.len() implies #[trigger] plan@[a].key_spec()
                    != #[trigger] plan@[b].key_spec() by {
                if b == old_plan.len() {
                    assert(old_plan[a] == plan@[a]);
                } else {
                    assert(old_plan[a] == plan@[a] && old_plan[b] == plan@[b]);
                }
            };
            assert forall|q: int|
                0 <= q < i + 1 implies cache@.contains_key((#[trigger] dates@[q]).key_spec())
                    || plan@.contains(dates@[q]) by {
                if q < i && !cache@.contains_key(dates@[q].key_spec()) {
                    let p = choose|p: int| 0 <= p < old_plan.len() && old_plan[p] == dates@[q];
                    assert(plan@[p] == dates@[q]);
                }
                if q == i {
                    assert(plan@[old_plan.len() as int] == dates@[q]);
                }
            };
        } else if !cache.contains(&d) {
            proof {
                let p = choose|p: int| 0 <= p < plan@.len() && (#[trigger] plan@[p]).key_spec() == k;
                lemma_date_key_injective(plan@[p], d);
                assert(plan@[p] == dates@[i as int]);
            }
        }
        i = i + 1;
    }
    plan
}

/// A plan fetches no date twice: rows that share a date cause one fetch at
/// most, and a cached date none.
pub proof fn lemma_fetch_at_most_once(
    cached: Map<u64, Seq<char>>,
    dates: Seq<Date>,
    plan: Seq<Date>,
    i: int,
    j: int,
)
    requires
        is_fetch_plan(cached, dates, plan),
        0 <= i < plan.len(),
        0 <= j < plan.len(),
        plan[i] == plan[j],
    ensures
        i == j,
        !cached.contains_key(plan[i].key_spec()),
{
    if i < j {
        assert(plan[i].key_spec() != plan[j].key_spec());
    } else if j < i {
        assert(plan[j].key_spec() != plan[i].key_spec());
    }
}

} // verus!
