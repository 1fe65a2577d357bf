use kasir_cache::errors::DebugAppError;
use kasir_cache::executor::{
    job_final_status, retry_decision, apply_auth_outcome, FetchWorker, RetryDecision,
};
use kasir_cache::fetch::{
    classify_body, parse_amount, string_or_empty, BodyClass, PageStep, TransactionService,
    TwoLoopStep, LOGIN_PAGE_MARKER,
};
use kasir_cache::jobs::JobStatus;
use kasir_cache::models::DebugResponse;
use kasir_cache::state::AppState;
use kasir_cache::Date;

fn d(year: u32, month: u32, day: u32) -> Date {
    Date { year, month, day }
}

fn page_body(total: u64, notas: &[&str]) -> String {
    let rows: Vec<String> = notas
        .iter()
        .map(|n| {
            format!(
                "{{\"tglTrans\":\"01/01/2024\",\"date\":\"10:00\",\"xx_keterangan\":\"k\",\"total_tagihan\":\"1,500\",\"xx_no_nota_text\":\"{}\"}}",
                n
            )
        })
        .collect();
    format!("{{\"totalRow\":{},\"data\":[{}]}}", total, rows.join(","))
}

#[test]
fn classify_empty_and_blank() {
    assert_eq!(classify_body(""), BodyClass::Empty);
    assert_eq!(classify_body("  \t\r\n "), BodyClass::Empty);
}

#[test]
fn classify_login_page() {
    let body = format!("<html>{}</html>", LOGIN_PAGE_MARKER);
    assert_eq!(classify_body(&body), BodyClass::LoginPage);
}

#[test]
fn classify_non_json() {
    assert_eq!(classify_body("<html>some error page</html>"), BodyClass::NotJson);
}

#[test]
fn classify_json_allows_leading_space() {
    assert_eq!(classify_body("  {\"a\":1}"), BodyClass::Json);
}

#[test]
fn amounts_strip_commas() {
    assert_eq!(parse_amount("1,500"), Some(1500));
    assert_eq!(parse_amount("-2,000,000"), Some(-2000000));
    assert_eq!(parse_amount("+42"), Some(42));
    assert_eq!(parse_amount("0"), Some(0));
}

#[test]
fn amounts_reject_junk_and_overflow() {
    assert_eq!(parse_amount(""), None);
    assert_eq!(parse_amount("-"), None);
    assert_eq!(parse_amount("12a"), None);
    assert_eq!(parse_amount(" 12"), None);
    assert_eq!(parse_amount("9223372036854775807"), Some(i64::MAX));
    assert_eq!(parse_amount("9223372036854775808"), None);
    assert_eq!(parse_amount("-9223372036854775808"), Some(i64::MIN));
    assert_eq!(parse_amount("-9223372036854775809"), None);
}

#[test]
fn string_or_empty_defaults() {
    assert_eq!(string_or_empty(Some(String::from("x"))), "x");
    assert_eq!(string_or_empty(None), "");
}

#[test]
fn single_page_body_decodes_records() {
    let body = page_body(2, &["N1", "N2"]);
    let resp = TransactionService::parse_single_page_body(&body).unwrap();
    assert_eq!(resp.total_transaksi, 2);
    assert_eq!(resp.data.len(), 2);
    assert_eq!(resp.data[0].no_nota, "N1");
    assert_eq!(resp.data[0].total_tagihan, 1500);
    assert_eq!(resp.data[0].tanggal_transaksi, "01/01/2024");
}

#[test]
fn single_page_body_rejects_non_json() {
    assert!(matches!(
        TransactionService::parse_single_page_body("not json"),
        Err(DebugAppError::Serde(_))
    ));
}

#[test]
fn record_defaults_apply() {
    let body = "{\"totalRow\":1,\"data\":[{\"total_tagihan\":250}]}";
    let resp = TransactionService::parse_single_page_body(body).unwrap();
    assert_eq!(resp.data[0].tanggal_transaksi, "");
    assert_eq!(resp.data[0].no_nota, "");
    assert_eq!(resp.data[0].total_tagihan, 250);
}

#[test]
fn record_unparseable_text_amount_falls_back_to_zero() {
    // a text amount that does not read as an integer, with no numeric form
    let body = "{\"totalRow\":1,\"data\":[{\"total_tagihan\":\"12a4\"}]}";
    let resp = TransactionService::parse_single_page_body(body).unwrap();
    assert_eq!(resp.data[0].total_tagihan, 0);
}

#[test]
fn non_array_data_reads_as_no_rows() {
    let body = "{\"totalRow\":3,\"data\":\"oops\"}";
    let resp = TransactionService::parse_single_page_body(body).unwrap();
    assert_eq!(resp.data.len(), 0);
    assert_eq!(resp.total_transaksi, 3);
}

#[test]
fn out_of_range_total_row_reads_as_zero() {
    let body = "{\"totalRow\":-5,\"data\":[]}";
    let resp = TransactionService::parse_single_page_body(body).unwrap();
    assert_eq!(resp.total_transaksi, 0);
}

#[test]
fn record_float_amount_truncates() {
    let body = "{\"totalRow\":1,\"data\":[{\"total_tagihan\":99.9}]}";
    let resp = TransactionService::parse_single_page_body(body).unwrap();
    assert_eq!(resp.data[0].total_tagihan, 99);
}

#[test]
fn pagination_stops_when_all_collected() {
    let mut st = TransactionService::pagination_begin();
    let body = page_body(2, &["N1", "N2"]);
    match TransactionService::on_page_body(&mut st, &body).unwrap() {
        PageStep::Done(resp) => {
            assert_eq!(resp.total_transaksi, 2);
            assert_eq!(resp.data.len(), 2);
        },
        PageStep::Continue => panic!("expected the report to be complete"),
    }
}

#[test]
fn pagination_continues_until_total_reached() {
    let mut st = TransactionService::pagination_begin();
    let first = page_body(12, &["A", "B", "C", "D", "E", "F", "G", "H", "I", "J"]);
    match TransactionService::on_page_body(&mut st, &first).unwrap() {
        PageStep::Continue => {},
        PageStep::Done(_) => panic!("twelve rows need a second page"),
    }
    assert_eq!(st.draw, 2);
    assert_eq!(st.start, 10);
    let second = page_body(12, &["K", "L"]);
    match TransactionService::on_page_body(&mut st, &second).unwrap() {
        PageStep::Done(resp) => {
            assert_eq!(resp.total_transaksi, 12);
            assert_eq!(resp.data.len(), 12);
            assert_eq!(resp.data[10].no_nota, "K");
        },
        PageStep::Continue => panic!("everything was collected"),
    }
}

#[test]
fn pagination_classifies_bodies() {
    let mut st = TransactionService::pagination_begin();
    assert!(matches!(
        TransactionService::on_page_body(&mut st, ""),
        Err(DebugAppError::Serialization(_))
    ));
    let login = format!("<html>{}</html>", LOGIN_PAGE_MARKER);
    assert!(matches!(
        TransactionService::on_page_body(&mut st, &login),
        Err(DebugAppError::Unauthorized(_))
    ));
    assert!(matches!(
        TransactionService::on_page_body(&mut st, "<oops>"),
        Err(DebugAppError::Serialization(_))
    ));
    assert!(matches!(
        TransactionService::on_page_body(&mut st, "{\"truncated\":"),
        Err(DebugAppError::Serde(_))
    ));
}

#[test]
fn two_loop_probe_decides() {
    let small = page_body(3, &["A", "B", "C"]);
    match TransactionService::on_first_body(&small).unwrap() {
        TwoLoopStep::Done(resp) => assert_eq!(resp.total_transaksi, 3),
        TwoLoopStep::NeedFull(_) => panic!("three rows fit the probe window"),
    }
    let large = page_body(25, &["A"]);
    match TransactionService::on_first_body(&large).unwrap() {
        TwoLoopStep::NeedFull(n) => assert_eq!(n, 25),
        TwoLoopStep::Done(_) => panic!("twenty-five rows need the full request"),
    }
    let login = format!("x{}", LOGIN_PAGE_MARKER);
    assert!(matches!(
        TransactionService::on_first_body(&login),
        Err(DebugAppError::Unauthorized(_))
    ));
}

#[test]
fn two_loop_full_page_replaces() {
    let body = page_body(2, &["X", "Y"]);
    let resp = TransactionService::on_second_body(&body, 25).unwrap();
    assert_eq!(resp.total_transaksi, 25);
    assert_eq!(resp.data.len(), 2);
    assert!(matches!(
        TransactionService::on_second_body("broken", 25),
        Err(DebugAppError::Serde(_))
    ));
}

#[test]
fn retry_backs_off_linearly_then_gives_up() {
    let transient = DebugAppError::Serde(String::from("x"));
    assert_eq!(retry_decision(1, 3, &transient), RetryDecision::Retry(1000));
    assert_eq!(retry_decision(2, 3, &transient), RetryDecision::Retry(2000));
    assert_eq!(retry_decision(3, 3, &transient), RetryDecision::GiveUp);
}

#[test]
fn retry_never_retries_auth_failures() {
    let auth = DebugAppError::Unauthorized(String::from("dead session"));
    assert_eq!(retry_decision(1, 3, &auth), RetryDecision::GiveUp);
}

#[test]
fn worker_walks_dates_in_batches() {
    let dates = vec![d(2024, 1, 1), d(2024, 1, 2), d(2024, 1, 3)];
    let mut w = FetchWorker::new(dates, 2, 50);
    assert_eq!(w.current_date(), Some(d(2024, 1, 1)));
    assert!(w.note_job_status(&Some(JobStatus::Running)));
    assert!(!w.on_fetch_success(4)); // 800 bytes, under budget, batch goes on
    assert_eq!(w.current_date(), Some(d(2024, 1, 2)));
    assert!(w.skip_current()); // second date ends the batch of two
    assert_eq!(w.current_date(), Some(d(2024, 1, 3)));
    assert!(w.skip_current()); // last date ends the final batch
    assert_eq!(w.current_date(), None);
}

#[test]
fn worker_defers_batch_over_memory_budget() {
    // With a 0 MB budget the first success exceeds it: the rest of the batch
    // is deferred, the next batch still runs.
    let dates = vec![d(2024, 1, 1), d(2024, 1, 2), d(2024, 1, 3)];
    let mut w = FetchWorker::new(dates, 2, 0);
    assert!(w.on_fetch_success(1));
    assert_eq!(w.current_date(), Some(d(2024, 1, 3)));
}

#[test]
fn worker_stops_on_cancelled_job() {
    let mut w = FetchWorker::new(vec![d(2024, 1, 1)], 5, 50);
    assert!(!w.note_job_status(&Some(JobStatus::Completed)));
    assert_eq!(w.current_date(), None);
    let mut w2 = FetchWorker::new(vec![d(2024, 1, 1)], 5, 50);
    assert!(w2.note_job_status(&None));
    assert_eq!(w2.current_date(), Some(d(2024, 1, 1)));
}

#[test]
fn auth_failure_halts_job_and_flags_session() {
    // An AuthFailure mid-batch halts the remaining dates, fails the job and
    // leaves the session flag raised; a later success lowers it.
    let mut state = AppState::new();
    state.set_unauthorized(false);
    let dates = vec![d(2024, 1, 1), d(2024, 1, 2), d(2024, 1, 3)];
    let mut w = FetchWorker::new(dates, 5, 50);
    w.skip_current();
    let auth = DebugAppError::Unauthorized(String::from("dead session"));
    assert!(w.on_fetch_failure(&auth));
    assert_eq!(w.current_date(), None);
    apply_auth_outcome(&mut state, &Err(auth));
    assert!(state.is_unauthorized());
    let status = job_final_status(&Err(DebugAppError::Unauthorized(String::from("dead session"))));
    match status {
        JobStatus::Failed(reason) => assert_eq!(reason, "dead session"),
        other => panic!("expected a failed job, got {:?}", other),
    }
    // a subsequent successful authenticated fetch clears the flag
    apply_auth_outcome(&mut state, &Ok(DebugResponse { total_transaksi: 0, data: vec![] }));
    assert!(!state.is_unauthorized());
}

#[test]
fn transient_failure_skips_only_that_date() {
    let mut w = FetchWorker::new(vec![d(2024, 1, 1), d(2024, 1, 2)], 5, 50);
    let transient = DebugAppError::Reqwest(String::from("timeout"));
    assert!(!w.on_fetch_failure(&transient));
    w.skip_current();
    assert_eq!(w.current_date(), Some(d(2024, 1, 2)));
    let mut state = AppState::new();
    state.set_unauthorized(false);
    apply_auth_outcome(&mut state, &Err(transient));
    assert!(!state.is_unauthorized());
}

#[test]
fn successful_job_completes() {
    assert!(matches!(job_final_status(&Ok(())), JobStatus::Completed));
}
