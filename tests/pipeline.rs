use csv_exchange::column::{get_column_index, parse_index};
use csv_exchange::date::Date;
use csv_exchange::enrich::{
    add_exchange, enrich_records, get_out_headers, insert_field, place_rate, row_dates,
};
use csv_exchange::error::PipelineError;
use csv_exchange::filter::{create_filter, filter_records};
use csv_exchange::rates::{parse_rate_response, plan_fetches, rate_request_url, RateCache};
use csv_exchange::text::{comma_to_dot_text, contains_text, is_decimal_text, split_text, strip_cr_text};

fn row(fields: &[&str]) -> Vec<String> {
    fields.iter().map(|f| f.to_string()).collect()
}

fn jan15() -> Date {
    Date { year: 2024, month: 1, day: 15 }
}

fn cache_with(d: &Date, rate: &str) -> RateCache {
    let mut c = RateCache::new();
    c.insert(d, rate.to_string());
    c
}

const BODY: &str = "Curs oficial\nNum;Cod;Abr;Nr;Denumire;Curs\n1;978;EUR;1;Euro;19,3421\n2;840;USD;1;Dolar S.U.A.;17,6543\n";

#[test]
fn column_by_header_name() {
    let h = row(&["Date", "Amount", "Date"]);
    assert_eq!(get_column_index(Some(&h), "Amount"), Ok(1));
    assert_eq!(get_column_index(Some(&h), "Date"), Ok(0));
    assert_eq!(get_column_index(Some(&h), "amount"), Err(PipelineError::UnknownColumn));
}

#[test]
fn column_by_index_without_headers() {
    assert_eq!(get_column_index(None, "2"), Ok(2));
    assert_eq!(get_column_index(None, "+3"), Ok(3));
    assert_eq!(get_column_index(None, "x"), Err(PipelineError::InvalidColumnIndex));
    assert_eq!(get_column_index(None, ""), Err(PipelineError::InvalidColumnIndex));
    assert_eq!(get_column_index(None, "-1"), Err(PipelineError::InvalidColumnIndex));
}

#[test]
fn index_parse_limits() {
    assert_eq!(parse_index("0"), Some(0));
    assert_eq!(parse_index("007"), Some(7));
    assert_eq!(parse_index("+"), None);
    assert_eq!(parse_index("1 "), None);
    assert_eq!(parse_index(&usize::MAX.to_string()), Some(usize::MAX));
    assert_eq!(parse_index("99999999999999999999999"), None);
}

#[test]
fn filter_on_headerless_rows() {
    let f = create_filter("1=^A", None).unwrap();
    assert!(!f.matches(&row(&["x", "banana"])));
    assert!(f.matches(&row(&["x", "Apple"])));
}

#[test]
fn filter_is_unanchored_and_skips_short_rows() {
    let f = create_filter("1=pp", None).unwrap();
    assert!(f.matches(&row(&["x", "Apple"])));
    assert!(!f.matches(&row(&["x"])));
}

#[test]
fn filter_matching_twice_agrees() {
    let f = create_filter("0=an", None).unwrap();
    let r = row(&["banana", "1"]);
    assert_eq!(f.matches(&r), f.matches(&r));
    let s = row(&["cherry"]);
    assert_eq!(f.matches(&s), f.matches(&s));
}

#[test]
fn filter_errors() {
    assert!(matches!(create_filter("no-equals", None), Err(PipelineError::MalformedFilter)));
    assert!(matches!(create_filter("1=(", None), Err(PipelineError::InvalidPattern)));
    assert!(matches!(create_filter("x=a", None), Err(PipelineError::InvalidColumnIndex)));
    let h = row(&["Date", "Name"]);
    assert!(matches!(create_filter("Nope=a", Some(&h)), Err(PipelineError::UnknownColumn)));
}

#[test]
fn filter_splits_at_first_equals() {
    let h = row(&["Date", "Name"]);
    let f = create_filter("Name==x", Some(&h)).unwrap();
    assert!(f.matches(&row(&["d", "a=x"])));
    assert!(!f.matches(&row(&["d", "ax"])));
}

#[test]
fn filter_records_keeps_order() {
    let rows = vec![row(&["1", "Apple"]), row(&["2", "banana"]), row(&["3", "Avocado"])];
    let f = create_filter("1=^A", None).unwrap();
    let kept = filter_records(&rows, Some(&f));
    assert_eq!(kept, vec![row(&["1", "Apple"]), row(&["3", "Avocado"])]);
    assert_eq!(filter_records(&rows, None), rows);
}

#[test]
fn rate_appended_from_cache() {
    let cache = cache_with(&jan15(), "19.50");
    let out = add_exchange(0, "%m/%d/%Y", None, None, &row(&["01/15/2024", "100"]), &cache);
    assert_eq!(out, Ok(row(&["01/15/2024", "100", "19.50"])));
}

#[test]
fn rate_inserted_after_column() {
    let cache = cache_with(&jan15(), "19.50");
    let input = row(&["01/15/2024", "100", "note"]);
    let out = add_exchange(0, "%m/%d/%Y", None, Some(0), &input, &cache).unwrap();
    assert_eq!(out.len(), input.len() + 1);
    assert_eq!(out, row(&["01/15/2024", "19.50", "100", "note"]));
}

#[test]
fn date_reformatted_under_output_format() {
    let cache = cache_with(&jan15(), "17.65");
    let out = add_exchange(1, "%m/%d/%Y", Some("%Y-%m-%d"), None, &row(&["a", "01/15/2024"]), &cache);
    assert_eq!(out, Ok(row(&["a", "2024-01-15", "17.65"])));
}

#[test]
fn enrichment_errors() {
    let cache = cache_with(&jan15(), "19.50");
    assert_eq!(
        add_exchange(2, "%m/%d/%Y", None, None, &row(&["01/15/2024"]), &cache),
        Err(PipelineError::MissingDateField)
    );
    assert_eq!(
        add_exchange(0, "%m/%d/%Y", None, None, &row(&["2024-01-15"]), &cache),
        Err(PipelineError::DateParseError)
    );
    assert_eq!(
        add_exchange(0, "%m/%d/%Y", None, None, &row(&["01/16/2024"]), &cache),
        Err(PipelineError::RateUnavailable)
    );
    assert_eq!(
        add_exchange(0, "%m/%d/%Y", None, Some(5), &row(&["01/15/2024", "1"]), &cache),
        Err(PipelineError::InsertPositionOutOfRange)
    );
    assert_eq!(
        add_exchange(0, "%m/%d/%Y", Some("%Q"), None, &row(&["01/15/2024"]), &cache),
        Err(PipelineError::DateFormatError)
    );
}

#[test]
fn bad_date_row_dropped_others_kept() {
    let cache = cache_with(&jan15(), "19.50");
    let rows = vec![row(&["13/45/2024", "1"]), row(&["01/15/2024", "2"]), row(&["01/15/2024", "3"])];
    let (out, failures) = enrich_records(&rows, 0, "%m/%d/%Y", None, None, &cache);
    assert_eq!(out, vec![row(&["01/15/2024", "2", "19.50"]), row(&["01/15/2024", "3", "19.50"])]);
    assert_eq!(failures, vec![(0, PipelineError::DateParseError)]);
}

#[test]
fn output_order_follows_input() {
    let d2 = Date { year: 2024, month: 2, day: 1 };
    let mut cache = RateCache::new();
    cache.insert(&d2, "2.0".to_string());
    cache.insert(&jan15(), "1.0".to_string());
    let rows = vec![row(&["02/01/2024", "b"]), row(&["01/15/2024", "a"]), row(&["02/01/2024", "c"])];
    let (out, failures) = enrich_records(&rows, 0, "%m/%d/%Y", None, None, &cache);
    assert!(failures.is_empty());
    assert_eq!(
        out,
        vec![
            row(&["02/01/2024", "b", "2.0"]),
            row(&["01/15/2024", "a", "1.0"]),
            row(&["02/01/2024", "c", "2.0"]),
        ]
    );
}

#[test]
fn header_gets_column_after_named_one() {
    let h = row(&["Date", "Amount"]);
    assert_eq!(get_out_headers(&h, "Exchange Rate", Some("Date")), row(&["Date", "Exchange Rate", "Amount"]));
    assert_eq!(get_out_headers(&h, "Exchange Rate", None), row(&["Date", "Amount", "Exchange Rate"]));
    assert_eq!(get_out_headers(&h, "Exchange Rate", Some("Nope")), row(&["Date", "Amount", "Exchange Rate"]));
}

#[test]
fn insert_field_positions() {
    let mut r = row(&["a", "b"]);
    assert!(insert_field(&mut r, Some(1), "x".to_string()));
    assert_eq!(r, row(&["a", "b", "x"]));
    assert!(!insert_field(&mut r, Some(3), "y".to_string()));
    assert_eq!(r, row(&["a", "b", "x"]));
}

#[test]
fn each_date_planned_once() {
    let d2 = Date { year: 2024, month: 2, day: 1 };
    let d3 = Date { year: 2023, month: 12, day: 31 };
    let cache = cache_with(&d3, "1.5");
    let plan = plan_fetches(&cache, &vec![jan15(), d2, jan15(), d3, d2]);
    assert_eq!(plan, vec![jan15(), d2]);
    assert!(plan_fetches(&cache, &vec![]).is_empty());
}

#[test]
fn row_dates_collects_parsed_dates() {
    let rows = vec![row(&["01/15/2024"]), row(&["bad"]), row(&[])];
    assert_eq!(row_dates(&rows, 0, "%m/%d/%Y"), vec![jan15()]);
}

#[test]
fn response_rate_is_read_from_currency_line() {
    assert_eq!(parse_rate_response(200, BODY), Ok("17.6543".to_string()));
    let crlf = BODY.replace('\n', "\r\n");
    assert_eq!(parse_rate_response(200, &crlf), Ok("17.6543".to_string()));
}

#[test]
fn response_errors() {
    assert_eq!(parse_rate_response(404, BODY), Err(PipelineError::UnexpectedStatus(404)));
    let no_usd = "a\nb\n1;978;EUR;1;Euro;19,3421\n";
    assert_eq!(parse_rate_response(200, no_usd), Err(PipelineError::CurrencyNotFound));
    let in_header = "x;USD;1\ny;USD;2\n";
    assert_eq!(parse_rate_response(200, in_header), Err(PipelineError::CurrencyNotFound));
    let bad = "a\nb\n2;840;USD;1;Dolar;n/a\n";
    assert_eq!(parse_rate_response(200, bad), Err(PipelineError::MalformedResponse));
}

#[test]
fn failed_response_leaves_cache_alone() {
    let mut cache = RateCache::new();
    assert_eq!(cache.record_response(&jan15(), 500, BODY), Err(PipelineError::UnexpectedStatus(500)));
    assert!(!cache.contains(&jan15()));
    assert_eq!(cache.record_response(&jan15(), 200, BODY), Ok("17.6543".to_string()));
    assert_eq!(cache.rate_for(&jan15()), Some("17.6543".to_string()));
}

#[test]
fn request_url_has_dotted_date() {
    assert_eq!(
        rate_request_url(&jan15()),
        Some("https://www.bnm.md/ro/export-official-exchange-rates?date=15.01.2024".to_string())
    );
    assert_eq!(rate_request_url(&Date { year: 2023, month: 2, day: 30 }), None);
}

#[test]
fn text_helpers() {
    assert_eq!(split_text("a;b;;c", ';'), row(&["a", "b", "", "c"]));
    assert_eq!(split_text("", ';'), row(&[""]));
    assert!(contains_text("1;USD;2", ";USD;"));
    assert!(!contains_text("1;USD", ";USD;"));
    assert_eq!(strip_cr_text("ab\r"), "ab");
    assert_eq!(comma_to_dot_text("19,50"), "19.50");
    assert!(is_decimal_text("19.50"));
    assert!(is_decimal_text("7"));
    assert!(!is_decimal_text("1.2.3"));
    assert!(!is_decimal_text(".5"));
    assert!(!is_decimal_text(""));
}

#[test]
fn place_rate_replaces_date_and_inserts_rate() {
    let r = row(&["01/15/2024", "100"]);
    assert_eq!(
        place_rate(&r, 0, "2024-01-15".to_string(), "19.50".to_string(), None),
        Some(row(&["2024-01-15", "100", "19.50"]))
    );
    assert_eq!(
        place_rate(&r, 0, "d".to_string(), "1.5".to_string(), Some(0)),
        Some(row(&["d", "1.5", "100"]))
    );
    assert_eq!(place_rate(&r, 1, "d".to_string(), "1.5".to_string(), Some(2)), None);
}

#[test]
fn failed_fetch_error_reaches_row() {
    let mut cache = RateCache::new();
    let r = row(&["01/15/2024", "100"]);
    assert_eq!(cache.record_response(&jan15(), 503, BODY), Err(PipelineError::UnexpectedStatus(503)));
    assert_eq!(
        add_exchange(0, "%m/%d/%Y", None, None, &r, &cache),
        Err(PipelineError::UnexpectedStatus(503))
    );
    let no_usd = "a\nb\n1;978;EUR;1;Euro;19,3421\n";
    assert_eq!(cache.record_response(&jan15(), 200, no_usd), Err(PipelineError::CurrencyNotFound));
    assert_eq!(
        add_exchange(0, "%m/%d/%Y", None, None, &r, &cache),
        Err(PipelineError::CurrencyNotFound)
    );
    assert!(!cache.contains(&jan15()));
    assert_eq!(cache.record_response(&jan15(), 200, BODY), Ok("17.6543".to_string()));
    assert_eq!(
        add_exchange(0, "%m/%d/%Y", None, None, &r, &cache),
        Ok(row(&["01/15/2024", "100", "17.6543"]))
    );
}

#[test]
fn network_error_reaches_row_and_keeps_known_rate() {
    let mut cache = RateCache::new();
    cache.record_network_error(&jan15());
    assert_eq!(cache.lookup(&jan15()), Some(Err(PipelineError::NetworkError)));
    let rows = vec![row(&["01/15/2024", "1"]), row(&["x", "2"])];
    let (out, failures) = enrich_records(&rows, 0, "%m/%d/%Y", None, None, &cache);
    assert!(out.is_empty());
    assert_eq!(
        failures,
        vec![(0, PipelineError::NetworkError), (1, PipelineError::DateParseError)]
    );
    let d2 = Date { year: 2024, month: 2, day: 1 };
    cache.insert(&d2, "2.5".to_string());
    cache.record_network_error(&d2);
    assert_eq!(cache.lookup(&d2), Some(Ok("2.5".to_string())));
    assert_eq!(cache.lookup(&Date { year: 2024, month: 3, day: 1 }), None);
}

#[test]
fn failed_date_is_planned_again() {
    let mut cache = RateCache::new();
    cache.record_network_error(&jan15());
    assert_eq!(plan_fetches(&cache, &vec![jan15()]), vec![jan15()]);
}
