//! Decoding and paging of the upstream transaction report.
//!
//! The HTTP transport lives outside the library; what stands here is
//! everything decidable from a response body alone: classifying a body as
//! empty, a login redirect, junk or JSON; decoding record fields with their
//! defaults; and the paging decisions — when another page is needed and with
//! what window.

use vstd::prelude::*;

use crate::dates::{all_digits, digit_val, digits_val};
use crate::errors::DebugAppError;
use crate::models::{DebugResponse, Transaksi};
use crate::strutil::{contains_seq, first_non_space, is_space, str_contains};

verus! {

use vstd::string::StringExecFns;

/// The fragment of the upstream login page whose presence in a non-JSON body
/// marks a dead session.
pub const LOGIN_PAGE_MARKER: &'static str = "<!-- resources/views/auth/login.blade.php -->";

// ---------------------------------------------------------------------------
// Trusted boundary: serde_json
// ---------------------------------------------------------------------------
//
// A decoded document is opaque to Verus, so what the accessors read out of
// one is named: each name gives one aspect of a document's members as plain
// values, and every accessor wrapper speaks over those names. Decoding is a
// function of the text alone, so the same aspects are named once more at the
// text level and tied to the document by the decoder's contract.

#[verifier::external_type_specification]
#[verifier::external_body]
pub struct ExValue(serde_json::Value);

/// Whether a string is well-formed JSON; decided by the text alone.
pub uninterp spec fn json_parses(s: Seq<char>) -> bool;

/// The string-valued members of a document, by key.
pub uninterp spec fn json_str_fields(v: serde_json::Value) -> Map<Seq<char>, Seq<char>>;

/// The members Value::as_u64 answers for, by key.
pub uninterp spec fn json_u64_fields(v: serde_json::Value) -> Map<Seq<char>, u64>;

/// The members Value::as_i64 answers for, by key.
pub uninterp spec fn json_i64_fields(v: serde_json::Value) -> Map<Seq<char>, i64>;

/// The numeric members as Value::as_f64 reads them, saturated into i64, by
/// key.
pub uninterp spec fn json_f64_fields(v: serde_json::Value) -> Map<Seq<char>, i64>;

/// The lengths of the array-valued members, by key.
pub uninterp spec fn json_array_lens(v: serde_json::Value) -> Map<Seq<char>, nat>;

/// The string-valued members of the document a text decodes to, by key.
pub uninterp spec fn doc_str_fields(s: Seq<char>) -> Map<Seq<char>, Seq<char>>;

/// The u64 members of the document a text decodes to, by key.
pub uninterp spec fn doc_u64_fields(s: Seq<char>) -> Map<Seq<char>, u64>;

/// The i64 members of the document a text decodes to, by key.
pub uninterp spec fn doc_i64_fields(s: Seq<char>) -> Map<Seq<char>, i64>;

/// The i64-saturated numeric members of the document a text decodes to.
pub uninterp spec fn doc_f64_fields(s: Seq<char>) -> Map<Seq<char>, i64>;

/// The array lengths of the document a text decodes to, by key.
pub uninterp spec fn doc_array_lens(s: Seq<char>) -> Map<Seq<char>, nat>;

/// Relies on serde_json::from_str::<Value>: decodes a JSON document, or
/// reports the decode error as its message text. Decoding depends on the
/// text alone, so the document's members are the text's.
#[verifier::external_body]
fn parse_json(s: &str) -> (r: Result<serde_json::Value, String>)
    ensures
        (r is Ok) == json_parses(s@),
        r matches Ok(v) ==> json_str_fields(v) == doc_str_fields(s@) && json_u64_fields(v)
            == doc_u64_fields(s@) && json_i64_fields(v) == doc_i64_fields(s@) && json_f64_fields(v)
            == doc_f64_fields(s@) && json_array_lens(v) == doc_array_lens(s@),
{
    serde_json::from_str::<serde_json::Value>(s).map_err(|e| e.to_string())
}

/// Relies on serde_json::Value::get and Value::as_str: the string member
/// under `key`, if the document has one.
#[verifier::external_body]
fn json_field_str(v: &serde_json::Value, key: &str) -> (r: Option<String>)
    ensures
        (r is Some) == json_str_fields(*v).contains_key(key@),
        r matches Some(s) ==> s@ == json_str_fields(*v)[key@],
{
    v.get(key).and_then(|f| f.as_str()).map(|s| s.to_owned())
}

/// Relies on serde_json::Value::get and Value::as_u64: the member under
/// `key` as u64, if it is an integer in range.
#[verifier::external_body]
fn json_field_u64(v: &serde_json::Value, key: &str) -> (r: Option<u64>)
    ensures
        (r is Some) == json_u64_fields(*v).contains_key(key@),
        r matches Some(n) ==> n == json_u64_fields(*v)[key@],
{
    v.get(key).and_then(|f| f.as_u64())
}

/// Relies on serde_json::Value::get and Value::as_i64: the member under
/// `key` as i64, if it is an integer in range.
#[verifier::external_body]
fn json_field_i64(v: &serde_json::Value, key: &str) -> (r: Option<i64>)
    ensures
        (r is Some) == json_i64_fields(*v).contains_key(key@),
        r matches Some(n) ==> n == json_i64_fields(*v)[key@],
{
    v.get(key).and_then(|f| f.as_i64())
}

/// Relies on serde_json::Value::get and Value::as_f64: the numeric member
/// under `key`, saturated into i64 as Rust's float cast has it — the record
/// decoder's fallback form.
#[verifier::external_body]
fn json_field_f64_trunc(v: &serde_json::Value, key: &str) -> (r: Option<i64>)
    ensures
        (r is Some) == json_f64_fields(*v).contains_key(key@),
        r matches Some(n) ==> n == json_f64_fields(*v)[key@],
{
    v.get(key).and_then(|f| f.as_f64()).map(|f| f as i64)
}

/// Relies on serde_json::Value::get and Value::as_array: the array member
/// under `key`, its elements cloned in order. That the elements are that
/// very array's members would name a sequence of opaque documents, which the
/// trusted vocabulary keeps out (names carry plain values only): the
/// contract ties the length, and the tests exercise the contents.
#[verifier::external_body]
fn json_field_array(v: &serde_json::Value, key: &str) -> (r: Option<Vec<serde_json::Value>>)
    ensures
        (r is Some) == json_array_lens(*v).contains_key(key@),
        r matches Some(a) ==> a@.len() == json_array_lens(*v)[key@],
{
    v.get(key).and_then(|f| f.as_array()).cloned()
}

// ---------------------------------------------------------------------------
// Body classification
// ---------------------------------------------------------------------------

/// A body holding only whitespace.
pub open spec fn all_blank(s: Seq<char>) -> bool {
    forall|k: int| 0 <= k < s.len() ==> is_space(#[trigger] s[k])
}

/// A body whose first non-blank character opens a JSON object.
pub open spec fn starts_with_brace(s: Seq<char>) -> bool {
    exists|i: int|
        0 <= i < s.len() && s[i] == '{' && forall|k: int| 0 <= k < i ==> is_space(#[trigger] s[k])
}

/// How a response body is classified before decoding.
#[derive(Debug, Clone, Copy, PartialEq, Eq, Structural)]
pub enum BodyClass {
    /// Only whitespace: a transient upstream failure.
    Empty,
    /// Not JSON and holding the login-page marker: the session is dead.
    LoginPage,
    /// Not JSON for any other reason: a transient upstream failure.
    NotJson,
    /// Shaped like a JSON object; decoding may still fail.
    Json,
}

/// What class a body falls in, decided by its text alone.
pub open spec fn spec_classify_body(s: Seq<char>) -> BodyClass {
    if all_blank(s) {
        BodyClass::Empty
    } else if !starts_with_brace(s) {
        if contains_seq(s, LOGIN_PAGE_MARKER@) {
            BodyClass::LoginPage
        } else {
            BodyClass::NotJson
        }
    } else {
        BodyClass::Json
    }
}

/// Classifies a response body: blank, login redirect, junk, or JSON-shaped.
pub fn classify_body(body: &str) -> (r: BodyClass)
    ensures
        r == spec_classify_body(body@),
{
    match first_non_space(body) {
        None => BodyClass::Empty,
        Some(c) => {
            proof {
                let i = choose|i: int|
                    0 <= i < body@.len() && body@[i] == c && !is_space(c) && forall|k: int|
                        0 <= k < i ==> is_space(#[trigger] body@[k]);
                assert(!all_blank(body@));
                if c == '{' {
                    assert(starts_with_brace(body@));
                } else {
                    assert forall|i2: int|
                        0 <= i2 < body@.len() && body@[i2] == '{' implies !(forall|k: int|
                        0 <= k < i2 ==> is_space(#[trigger] body@[k])) by {
                        if forall|k: int| 0 <= k < i2 ==> is_space(#[trigger] body@[k]) {
                            if i2 < i {
                                assert(is_space(body@[i2]));
                            } else {
                                assert(is_space(body@[i]));
                            }
                        }
                    }
                    assert(!starts_with_brace(body@));
                }
            }
            if c == '{' {
                BodyClass::Json
            } else if str_contains(body, LOGIN_PAGE_MARKER) {
                BodyClass::LoginPage
            } else {
                BodyClass::NotJson
            }
        },
    }
}

// ---------------------------------------------------------------------------
// Amounts
// ---------------------------------------------------------------------------

/// The text with every comma (the thousands separator) removed.
pub open spec fn strip_commas(s: Seq<char>) -> Seq<char> {
    s.filter(|c: char| c != ',')
}

/// What a decimal integer text denotes in i64 range: an optional sign, then
/// digits, nothing else, the value within bounds.
pub open spec fn spec_parse_i64(s: Seq<char>) -> Option<int> {
    if s.len() == 0 {
        None
    } else {
        let neg = s[0] == '-';
        let digits = if s[0] == '-' || s[0] == '+' {
            s.drop_first()
        } else {
            s
        };
        if digits.len() == 0 || !all_digits(digits) {
            None
        } else {
            let v = if neg {
                -digits_val(digits)
            } else {
                digits_val(digits)
            };
            if -0x8000_0000_0000_0000 <= v <= 0x7fff_ffff_ffff_ffff {
                Some(v)
            } else {
                None
            }
        }
    }
}

/// Decodes a signed decimal integer, exactly when the whole text is an
/// optional sign followed by digits and the value fits in i64.
fn parse_i64_str(s: &str) -> (r: Option<i64>)
    ensures
        match spec_parse_i64(s@) {
            Some(v) => r matches Some(x) && x == v,
            None => r is None,
        },
{
    let len = s.unicode_len();
    if len == 0 {
        return None;
    }
    let c0 = s.get_char(0);
    let neg = c0 == '-';
    let start: usize = if c0 == '-' || c0 == '+' {
        1
    } else {
        0
    };
    proof {
        if start == 1 {
            assert(s@.drop_first() =~= s@.subrange(1, s@.len() as int));
        } else {
            assert(s@ =~= s@.subrange(0, s@.len() as int));
        }
    }
    if start >= len {
        return None;
    }
    let ghost digits = s@.subrange(start as int, len as int);
    let bound: u64 = 9223372036854775808u64;
    let mut mag: u64 = 0;
    let mut too_big = false;
    let mut i: usize = start;
    proof {
        assert(digits.subrange(0, 0) =~= Seq::<char>::empty());
    }
    while i < len
        invariant
            len == s@.len(),
            start <= i <= len,
            start < len,
            (start == 1) == (s@[0] == '-' || s@[0] == '+'),
            start == 0 || start == 1,
            neg == (s@[0] == '-'),
            bound == 9223372036854775808u64,
            digits == s@.subrange(start as int, len as int),
            all_digits(digits.subrange(0, i - start)),
            !too_big ==> mag == digits_val(digits.subrange(0, i - start)) && mag <= bound,
            too_big ==> digits_val(digits.subrange(0, i - start)) > bound,
        decreases len - i,
    {
        let c = s.get_char(i);
        if !(c >= '0' && c <= '9') {
            proof {
                assert(digits[i - start] == s@[i as int]);
                assert(!crate::dates::is_digit(digits[i - start]));
                if s@[0] == '-' || s@[0] == '+' {
                    assert(s@.drop_first()[i - 1] == s@[i as int]);
                    assert(!all_digits(s@.drop_first()));
                } else {
                    assert(!all_digits(s@));
                }
            }
            return None;
        }
        let d = c as u32 - 48;
        proof {
            let pre = digits.subrange(0, i - start);
            let ext = digits.subrange(0, i - start + 1);
            assert(ext.drop_last() =~= pre);
            assert(ext.last() == digits[i - start]);
            assert(digits[i - start] == s@[i as int]);
            assert(digits_val(ext) == digits_val(pre) * 10 + digit_val(s@[i as int]));
        }
        if too_big {
        } else if mag > 922337203685477580u64 {
            too_big = true;
        } else {
            let next = mag * 10 + (d as u64);
            if next > bound {
                too_big = true;
            } else {
                mag = next;
            }
        }
        i += 1;
    }
    proof {
        assert(digits.subrange(0, len - start) =~= digits);
        if s@[0] == '-' || s@[0] == '+' {
            assert(s@.drop_first() =~= digits);
        } else {
            assert(s@ =~= digits);
        }
    }
    if too_big {
        return None;
    }
    if neg {
        if mag == bound {
            Some(i64::MIN)
        } else {
            Some(-(mag as i64))
        }
    } else {
        if mag == bound {
            None
        } else {
            Some(mag as i64)
        }
    }
}

/// Removes every comma from the text.
fn remove_commas(s: &str) -> (r: String)
    ensures
        r@ == strip_commas(s@),
{
    let len = s.unicode_len();
    let mut out = String::new();
    let ghost pred = |c: char| c != ',';
    let mut i: usize = 0;
    proof {
        reveal(Seq::filter);
        assert(s@.subrange(0, 0).filter(pred) =~= out@);
    }
    while i < len
        invariant
            len == s@.len(),
            i <= len,
            pred == (|c: char| c != ','),
            out@ == s@.subrange(0, i as int).filter(pred),
        decreases len - i,
    {
        let c = s.get_char(i);
        proof {
            reveal(Seq::filter);
            let ext = s@.subrange(0, i + 1);
            assert(ext.drop_last() =~= s@.subrange(0, i as int));
            assert(ext.last() == s@[i as int]);
            assert(ext.filter(pred) == if pred(ext.last()) {
                ext.drop_last().filter(pred).push(ext.last())
            } else {
                ext.drop_last().filter(pred)
            });
        }
        if c != ',' {
            crate::strutil::push_char(&mut out, c);
        }
        i += 1;
    }
    proof {
        assert(s@.subrange(0, s@.len() as int) =~= s@);
    }
    out
}

/// The amount a report cell denotes: its text with thousands separators
/// removed, read as a signed integer.
pub fn parse_amount(s: &str) -> (r: Option<i64>)
    ensures
        match spec_parse_i64(strip_commas(s@)) {
            Some(v) => r matches Some(x) && x == v,
            None => r is None,
        },
{
    let stripped = remove_commas(s);
    parse_i64_str(stripped.as_str())
}

// ---------------------------------------------------------------------------
// Records
// ---------------------------------------------------------------------------

/// The field defaults of the record decoder: a missing or non-string text
/// field reads as empty.
pub fn string_or_empty(o: Option<String>) -> (r: String)
    ensures
        match o {
            Some(s) => r == s,
            None => r@ == Seq::<char>::empty(),
        },
{
    match o {
        Some(s) => s,
        None => String::new(),
    }
}

/// The amount of a record: the text form with commas stripped when it reads
/// as an integer; else the number truncated from float; else the integer
/// form; else zero.
pub fn compute_total(
    total_text: Option<String>,
    total_float: Option<i64>,
    total_int: Option<i64>,
) -> (r: i64)
    ensures
        ({
            let from_text = match total_text {
                Some(s) => spec_parse_i64(strip_commas(s@)),
                None => None,
            };
            r == (match from_text {
                Some(v) => v,
                None => (match total_float {
                    Some(f) => f as int,
                    None => (match total_int {
                        Some(n) => n as int,
                        None => 0,
                    }),
                }),
            })
        }),
{
    let from_text = match &total_text {
        Some(s) => parse_amount(s.as_str()),
        None => None,
    };
    match from_text {
        Some(v) => v,
        None => match total_float {
            Some(f) => f,
            None => match total_int {
                Some(n) => n,
                None => 0,
            },
        },
    }
}

/// Builds a record from its decoded fields, applying the decoder's defaults.
pub fn build_transaksi(
    tanggal: Option<String>,
    waktu: Option<String>,
    keterangan: Option<String>,
    total_text: Option<String>,
    total_float: Option<i64>,
    total_int: Option<i64>,
    no_nota: Option<String>,
) -> (t: Transaksi)
    ensures
        t.tanggal_transaksi@ == (match tanggal {
            Some(s) => s@,
            None => Seq::<char>::empty(),
        }),
        t.waktu_transaksi@ == (match waktu {
            Some(s) => s@,
            None => Seq::<char>::empty(),
        }),
        t.keterangan@ == (match keterangan {
            Some(s) => s@,
            None => Seq::<char>::empty(),
        }),
        t.no_nota@ == (match no_nota {
            Some(s) => s@,
            None => Seq::<char>::empty(),
        }),
        ({
            let from_text = match total_text {
                Some(s) => spec_parse_i64(strip_commas(s@)),
                None => None,
            };
            t.total_tagihan == (match from_text {
                Some(v) => v,
                None => (match total_float {
                    Some(f) => f as int,
                    None => (match total_int {
                        Some(n) => n as int,
                        None => 0,
                    }),
                }),
            })
        }),
{
    let total_tagihan = compute_total(total_text, total_float, total_int);
    Transaksi {
        tanggal_transaksi: string_or_empty(tanggal),
        waktu_transaksi: string_or_empty(waktu),
        keterangan: string_or_empty(keterangan),
        total_tagihan,
        no_nota: string_or_empty(no_nota),
    }
}

/// The text member of a document under `key`, or empty when it has none —
/// the record decoder's default.
pub open spec fn spec_str_field_or_empty(v: serde_json::Value, key: Seq<char>) -> Seq<char> {
    if json_str_fields(v).contains_key(key) {
        json_str_fields(v)[key]
    } else {
        Seq::empty()
    }
}

/// The amount a record's `total_tagihan` member denotes: its text with
/// commas stripped when that reads as an integer; else its number saturated
/// from float; else its integer form; else zero.
pub open spec fn spec_record_total(v: serde_json::Value) -> int {
    let key = "total_tagihan"@;
    let from_text = if json_str_fields(v).contains_key(key) {
        spec_parse_i64(strip_commas(json_str_fields(v)[key]))
    } else {
        None
    };
    match from_text {
        Some(n) => n,
        None => if json_f64_fields(v).contains_key(key) {
            json_f64_fields(v)[key] as int
        } else if json_i64_fields(v).contains_key(key) {
            json_i64_fields(v)[key] as int
        } else {
            0
        },
    }
}

/// Decodes one raw report row: each text field is the document's member of
/// that name or empty, the amount follows `spec_record_total`.
pub fn parse_transaction_record(record: &serde_json::Value) -> (t: Transaksi)
    ensures
        t.tanggal_transaksi@ == spec_str_field_or_empty(*record, "tglTrans"@),
        t.waktu_transaksi@ == spec_str_field_or_empty(*record, "date"@),
        t.keterangan@ == spec_str_field_or_empty(*record, "xx_keterangan"@),
        t.no_nota@ == spec_str_field_or_empty(*record, "xx_no_nota_text"@),
        t.total_tagihan as int == spec_record_total(*record),
{
    let tanggal = json_field_str(record, "tglTrans");
    let waktu = json_field_str(record, "date");
    let keterangan = json_field_str(record, "xx_keterangan");
    let total_text = json_field_str(record, "total_tagihan");
    let total_float = json_field_f64_trunc(record, "total_tagihan");
    let total_int = json_field_i64(record, "total_tagihan");
    let no_nota = json_field_str(record, "xx_no_nota_text");
    build_transaksi(tanggal, waktu, keterangan, total_text, total_float, total_int, no_nota)
}

/// The row count of a report page: the length of its `data` array, zero
/// when there is none.
pub open spec fn spec_row_count(v: serde_json::Value) -> int {
    if json_array_lens(v).contains_key("data"@) {
        json_array_lens(v)["data"@] as int
    } else {
        0
    }
}

/// Decodes the rows under `data` of a report page, in order; an absent or
/// non-array `data` reads as no rows. Each element is the decode of the
/// row at its position — a tie over a sequence of opaque documents, which
/// the trusted vocabulary cannot carry, so the contract states the count
/// and the tests exercise the contents.
fn parse_records(doc: &serde_json::Value) -> (r: Vec<Transaksi>)
    ensures
        r@.len() == spec_row_count(*doc),
{
    let mut out: Vec<Transaksi> = Vec::new();
    if let Some(records) = json_field_array(doc, "data") {
        let mut j: usize = 0;
        while j < records.len()
            invariant
                out@.len() == j,
                j <= records@.len(),
            decreases records@.len() - j,
        {
            out.push(parse_transaction_record(&records[j]));
            j += 1;
        }
    }
    out
}

/// The `totalRow` member of a report page; zero when absent or not a u64.
pub open spec fn spec_total_row(v: serde_json::Value) -> u64 {
    if json_u64_fields(v).contains_key("totalRow"@) {
        json_u64_fields(v)["totalRow"@]
    } else {
        0
    }
}

/// The `totalRow` count of a report page; zero when absent or malformed.
fn parse_total_row(doc: &serde_json::Value) -> (r: u64)
    ensures
        r == spec_total_row(*doc),
{
    match json_field_u64(doc, "totalRow") {
        Some(n) => n,
        None => 0,
    }
}

/// The row count of the page a body decodes to.
pub open spec fn spec_doc_row_count(s: Seq<char>) -> int {
    if doc_array_lens(s).contains_key("data"@) {
        doc_array_lens(s)["data"@] as int
    } else {
        0
    }
}

/// The `totalRow` member of the page a body decodes to; zero when absent.
pub open spec fn spec_doc_total_row(s: Seq<char>) -> u64 {
    if doc_u64_fields(s).contains_key("totalRow"@) {
        doc_u64_fields(s)["totalRow"@]
    } else {
        0
    }
}

// ---------------------------------------------------------------------------
// Paging
// ---------------------------------------------------------------------------

/// The running state of a page-by-page fetch: the next request window and
/// everything collected so far.
#[derive(Debug)]
pub struct PaginationState {
    pub draw: u64,
    pub start: u64,
    pub length: u64,
    pub total: u64,
    pub collected: Vec<Transaksi>,
}

impl PaginationState {
    /// The page window is fixed and the draw counter tracks the window
    /// position, which bounds it away from overflow.
    pub open spec fn wf(self) -> bool {
        &&& self.length == 10
        &&& 1 <= self.draw
        &&& self.draw <= self.start / 10 + 1
    }
}

/// What to do after a page: ask for the next one, or stop with everything
/// collected.
#[derive(Debug)]
pub enum PageStep {
    Continue,
    Done(DebugResponse),
}

/// Decodes report pages and decides when the report is complete.
pub struct TransactionService;

impl TransactionService {
    /// The state before the first page request: draw 1, offset 0, window 10.
    pub fn pagination_begin() -> (r: PaginationState)
        ensures
            r.wf(),
            r.draw == 1,
            r.start == 0,
            r.length == 10,
            r.total == 0,
            r.collected@ == Seq::<Transaksi>::empty(),
    {
        PaginationState { draw: 1, start: 0, length: 10, total: 0, collected: Vec::new() }
    }

    /// Consumes one page body: classifies it, decodes its rows into the
    /// collection, takes the server's total from the first page, and decides
    /// whether another page is needed — exactly when both the collection and
    /// the next window fall short of the total.
    pub fn on_page_body(state: &mut PaginationState, body: &str) -> (r: Result<
        PageStep,
        DebugAppError,
    >)
        requires
            old(state).wf(),
        ensures
            final(state).wf(),
            ({
                let s0 = *old(state);
                let s1 = *final(state);
                match spec_classify_body(body@) {
                    BodyClass::Empty => r matches Err(e) && e is Serialization && s1 == s0,
                    BodyClass::LoginPage => r matches Err(e) && e is Unauthorized && s1 == s0,
                    BodyClass::NotJson => r matches Err(e) && e is Serialization && s1 == s0,
                    BodyClass::Json => {
                        if !json_parses(body@) {
                            r matches Err(e) && e is Serde && s1 == s0
                        } else {
                            r matches Ok(step) && s1.length == s0.length && s1.collected@.len()
                                == s0.collected@.len() + spec_doc_row_count(body@)
                                && s1.collected@.subrange(
                                0,
                                s0.collected@.len() as int,
                            ) == s0.collected@ && (s0.draw != 1 ==> s1.total == s0.total) && (s0.draw
                                == 1 ==> s1.total == spec_doc_total_row(body@)) && (
                            match step {
                                PageStep::Done(resp) => s1.draw == s0.draw && s1.start == s0.start
                                    && resp.data@ == s1.collected@ && resp.total_transaksi
                                    == s1.total as usize && (s1.collected@.len() >= s1.total || (
                                s1.start as int + s1.length as int) >= (s1.total as int)),
                                PageStep::Continue => s1.draw == s0.draw + 1 && s1.start == s0.start
                                    + s0.length && (s1.collected@.len() < s1.total) && ((
                                s0.start as int + s0.length as int) < (s1.total as int)),
                            })
                        }
                    },
                }
            }),
    {
        match classify_body(body) {
            BodyClass::Empty => Err(
                DebugAppError::Serialization(String::from_str("Empty response from API")),
            ),
            BodyClass::LoginPage => Err(
                DebugAppError::Unauthorized(String::from_str("Session expired or invalid cookie")),
            ),
            BodyClass::NotJson => Err(
                DebugAppError::Serialization(String::from_str("API returned non-JSON response")),
            ),
            BodyClass::Json => {
                let doc = match parse_json(body) {
                    Ok(v) => v,
                    Err(msg) => {
                        return Err(DebugAppError::Serde(msg));
                    },
                };
                if state.draw == 1 {
                    state.total = parse_total_row(&doc);
                }
                let mut recs = parse_records(&doc);
                let ghost col_old = state.collected@;
                state.collected.append(&mut recs);
                proof {
                    assert(state.collected@.subrange(0, col_old.len() as int) =~= col_old);
                }
                let col_len = state.collected.len() as u64;
                let done = col_len >= state.total || (if state.total <= state.length {
                    true
                } else {
                    state.start >= state.total - state.length
                });
                if done {
                    let data = state.collected.clone();
                    proof {
                        assert(data@ =~= state.collected@);
                    }
                    Ok(PageStep::Done(DebugResponse { total_transaksi: state.total as usize, data }))
                } else {
                    proof {
                        assert(state.start / 10 <= 1844674407370955161u64) by (nonlinear_arith)
                            requires state.start <= 18446744073709551615u64;
                        assert((state.start + 10) / 10 == state.start / 10 + 1) by (nonlinear_arith);
                    }
                    state.draw = state.draw + 1;
                    state.start = state.start + state.length;
                    Ok(PageStep::Continue)
                }
            },
        }
    }

    /// Decodes a single page body without classification: a decode failure is
    /// reported as such, anything else yields the page's rows and total.
    pub fn parse_single_page_body(body: &str) -> (r: Result<DebugResponse, DebugAppError>)
        ensures
            (r is Ok) == json_parses(body@),
            !json_parses(body@) ==> (r matches Err(e) && e is Serde),
            json_parses(body@) ==> (r matches Ok(resp) && resp.total_transaksi
                == spec_doc_total_row(body@) as usize && resp.data@.len() == spec_doc_row_count(
                body@,
            )),
    {
        let doc = match parse_json(body) {
            Ok(v) => v,
            Err(msg) => {
                return Err(DebugAppError::Serde(msg));
            },
        };
        let data = parse_records(&doc);
        let total = parse_total_row(&doc);
        Ok(DebugResponse { total_transaksi: total as usize, data })
    }

    /// After the probe page of a two-step fetch: stop when at most one window
    /// of rows exists, else ask again with the full count as the window.
    pub fn on_first_body(body: &str) -> (r: Result<TwoLoopStep, DebugAppError>)
        ensures
            contains_seq(body@, LOGIN_PAGE_MARKER@) ==> (r matches Err(e) && e is Unauthorized),
            !contains_seq(body@, LOGIN_PAGE_MARKER@) && !json_parses(body@) ==> (r matches Err(e)
                && e is Serde),
            !contains_seq(body@, LOGIN_PAGE_MARKER@) && json_parses(body@) ==> (r matches Ok(step)
                && (match step {
                TwoLoopStep::Done(resp) => spec_doc_total_row(body@) <= 10 && resp.total_transaksi
                    == spec_doc_total_row(body@) as usize && resp.data@.len()
                    == spec_doc_row_count(body@),
                TwoLoopStep::NeedFull(n) => n == spec_doc_total_row(body@) && n > 10,
            })),
    {
        if str_contains(body, LOGIN_PAGE_MARKER) {
            return Err(
                DebugAppError::Unauthorized(String::from_str("Session expired or invalid cookie")),
            );
        }
        let doc = match parse_json(body) {
            Ok(v) => v,
            Err(msg) => {
                return Err(DebugAppError::Serde(msg));
            },
        };
        let total_row = parse_total_row(&doc);
        let data = parse_records(&doc);
        if total_row <= 10 {
            Ok(TwoLoopStep::Done(DebugResponse { total_transaksi: total_row as usize, data }))
        } else {
            Ok(TwoLoopStep::NeedFull(total_row))
        }
    }

    /// After the full page of a two-step fetch: its rows replace the probe's,
    /// under the total the probe reported.
    pub fn on_second_body(body: &str, total_row: u64) -> (r: Result<DebugResponse, DebugAppError>)
        ensures
            contains_seq(body@, LOGIN_PAGE_MARKER@) ==> (r matches Err(e) && e is Unauthorized),
            !contains_seq(body@, LOGIN_PAGE_MARKER@) && !json_parses(body@) ==> (r matches Err(e)
                && e is Serde),
            !contains_seq(body@, LOGIN_PAGE_MARKER@) && json_parses(body@) ==> (r matches Ok(resp)
                && resp.total_transaksi == total_row as usize && resp.data@.len()
                == spec_doc_row_count(body@)),
    {
        if str_contains(body, LOGIN_PAGE_MARKER) {
            return Err(
                DebugAppError::Unauthorized(String::from_str("Session expired or invalid cookie")),
            );
        }
        let doc = match parse_json(body) {
            Ok(v) => v,
            Err(msg) => {
                return Err(DebugAppError::Serde(msg));
            },
        };
        let data = parse_records(&doc);
        Ok(DebugResponse { total_transaksi: total_row as usize, data })
    }
}

/// The step after the probe page of a two-step fetch.
#[derive(Debug)]
pub enum TwoLoopStep {
    /// Everything fit in the probe window.
    Done(DebugResponse),
    /// Ask once more with this row count as the window.
    NeedFull(u64),
}

} // verus!
