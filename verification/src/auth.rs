//! The session-login helpers.
//!
//! The credential exchange itself is HTTP and runs outside the library; what
//! stands here is every decision over the responses: pulling token values out
//! of `Set-Cookie` headers, taking the anti-forgery token out of the login
//! page, and composing the cookie header that later requests present.

use vstd::prelude::*;

use crate::errors::DebugAppError;
use crate::strutil::{
    contains_seq, find_char, join_with, push_char, split_on, split_str, starts_with_seq,
    str_contains, str_starts_with, str_trim, str_views, trim_spec,
};

verus! {

use vstd::string::StringExecFns;

/// The value of the first `name=value` piece of a cookie header whose
/// (trimmed) text starts with `name`; empty when no piece matches or the
/// matching piece has no value.
pub open spec fn spec_extract_cookie_value(s: Seq<char>, name: Seq<char>) -> Seq<char> {
    match first_matching_part(split_on(s, ';'), name) {
        None => Seq::empty(),
        Some(part) => {
            let pieces = split_on(part, '=');
            if pieces.len() >= 2 {
                pieces[1]
            } else {
                Seq::empty()
            }
        },
    }
}

/// The first part whose trimmed text starts with `name`.
pub open spec fn first_matching_part(parts: Seq<Seq<char>>, name: Seq<char>) -> Option<Seq<char>>
    decreases parts.len(),
{
    if parts.len() == 0 {
        None
    } else if starts_with_seq(trim_spec(parts[0]), name) {
        Some(parts[0])
    } else {
        first_matching_part(parts.drop_first(), name)
    }
}

/// What a `Set-Cookie` header scan leaves in the two token slots: each header
/// holding the session marker fills the session slot, each other header
/// holding the anti-forgery marker fills that slot; later headers win.
pub open spec fn spec_scan_login_tokens(hs: Seq<Seq<char>>) -> (Seq<char>, Seq<char>)
    decreases hs.len(),
{
    if hs.len() == 0 {
        (Seq::empty(), Seq::empty())
    } else {
        let prev = spec_scan_login_tokens(hs.drop_last());
        let h = hs.last();
        if contains_seq(h, "XSRF-TOKEN="@) {
            (spec_extract_cookie_value(h, "XSRF-TOKEN"@), prev.1)
        } else if contains_seq(h, "new_kasir_v2_session="@) {
            (prev.0, spec_extract_cookie_value(h, "new_kasir_v2_session"@))
        } else {
            prev
        }
    }
}

/// The piece of a cookie header before its first `;`.
pub open spec fn cookie_head(s: Seq<char>) -> Seq<char> {
    match find_char(s, ';') {
        None => s,
        Some(i) => s.subrange(0, i),
    }
}

/// A `Set-Cookie` header that names one of the session cookies.
pub open spec fn is_session_cookie_header(s: Seq<char>) -> bool {
    contains_seq(s, "remember_web_"@) || contains_seq(s, "XSRF-TOKEN="@) || contains_seq(
        s,
        "new_kasir_v2_session="@,
    )
}

/// The non-empty heads of the session-cookie headers, in order.
pub open spec fn spec_final_cookies(hs: Seq<Seq<char>>) -> Seq<Seq<char>>
    decreases hs.len(),
{
    if hs.len() == 0 {
        Seq::empty()
    } else {
        let rest = spec_final_cookies(hs.drop_last());
        let h = hs.last();
        if is_session_cookie_header(h) && cookie_head(h).len() > 0 {
            rest.push(cookie_head(h))
        } else {
            rest
        }
    }
}

/// Everything the login flow decides over the first response: the two cookie
/// tokens of its headers and the anti-forgery token of its page.
#[derive(Debug)]
pub struct LoginPageData {
    pub xsrf_token: String,
    pub session_token: String,
    pub csrf_token: String,
}

/// What the anti-forgery extraction yields on a given page; the result
/// depends on the HTML text alone.
pub uninterp spec fn csrf_token_of(html: Seq<char>) -> Option<Seq<char>>;

/// Relies on scraper (Html::parse_document, Selector::parse, select, attr):
/// the `value` attribute of the first `input` element named `_token`.
#[verifier::external_body]
fn extract_csrf_token(html: &str) -> (r: Option<String>)
    ensures
        (r is Some) == (csrf_token_of(html@) is Some),
        r matches Some(t) ==> csrf_token_of(html@) == Some(t@),
{
    let document = scraper::Html::parse_document(html);
    let selector = scraper::Selector::parse("input[name='_token']").ok()?;
    document.select(&selector).next()?.value().attr("value").map(|s| s.to_string())
}

/// The login-session helpers of the service.
pub struct AuthService;

impl AuthService {
    /// The value of the named cookie within a `Set-Cookie` header: the piece
    /// after the first `=` of the first `;`-separated part that starts
    /// (ignoring surrounding whitespace) with the name; empty otherwise.
    pub fn extract_cookie_value(cookie_str: &str, cookie_name: &str) -> (r: String)
        ensures
            r@ == spec_extract_cookie_value(cookie_str@, cookie_name@),
    {
        let parts = split_str(cookie_str, ';');
        let ghost views = str_views(parts@);
        let mut i: usize = 0;
        proof {
            assert(views.skip(0) =~= views);
        }
        while i < parts.len()
            invariant
                views == str_views(parts@),
                views == split_on(cookie_str@, ';'),
                i <= parts@.len(),
                first_matching_part(views, cookie_name@) == first_matching_part(
                    views.skip(i as int),
                    cookie_name@,
                ),
            decreases parts@.len() - i,
        {
            proof {
                assert(views.skip(i as int)[0] == parts@[i as int]@);
                assert(views.skip(i as int).drop_first() =~= views.skip(i + 1));
            }
            let trimmed = str_trim(parts[i].as_str());
            if str_starts_with(trimmed.as_str(), cookie_name) {
                let pieces = split_str(parts[i].as_str(), '=');
                proof {
                    assert(first_matching_part(views.skip(i as int), cookie_name@) == Some(
                        parts@[i as int]@,
                    ));
                }
                if pieces.len() >= 2 {
                    proof {
                        assert(str_views(pieces@)[1] == pieces@[1]@);
                    }
                    return pieces[1].clone();
                }
                return String::new();
            }
            i += 1;
        }
        proof {
            assert(views.skip(parts@.len() as int) =~= Seq::<Seq<char>>::empty());
        }
        String::new()
    }

    /// Reads the two session tokens out of the `Set-Cookie` headers of the
    /// login page.
    pub fn scan_login_tokens(headers: &Vec<String>) -> (r: (String, String))
        ensures
            (r.0@, r.1@) == spec_scan_login_tokens(str_views(headers@)),
    {
        let mut xsrf = String::new();
        let mut session = String::new();
        let mut i: usize = 0;
        proof {
            assert(str_views(headers@).subrange(0, 0) =~= Seq::<Seq<char>>::empty());
        }
        while i < headers.len()
            invariant
                i <= headers@.len(),
                (xsrf@, session@) == spec_scan_login_tokens(
                    str_views(headers@).subrange(0, i as int),
                ),
            decreases headers@.len() - i,
        {
            proof {
                let pre = str_views(headers@).subrange(0, i as int);
                let ext = str_views(headers@).subrange(0, i + 1);
                assert(ext.drop_last() =~= pre);
                assert(ext.last() == headers@[i as int]@);
            }
            let h = &headers[i];
            if str_contains(h.as_str(), "XSRF-TOKEN=") {
                xsrf = Self::extract_cookie_value(h.as_str(), "XSRF-TOKEN");
            } else if str_contains(h.as_str(), "new_kasir_v2_session=") {
                session = Self::extract_cookie_value(h.as_str(), "new_kasir_v2_session");
            }
            i += 1;
        }
        proof {
            assert(str_views(headers@).subrange(0, headers@.len() as int) =~= str_views(headers@));
        }
        (xsrf, session)
    }

    /// The cookie header presented when submitting credentials, composed of
    /// the two tokens of the login page.
    pub fn build_cookie_header(xsrf: &str, session: &str) -> (r: String)
        ensures
            r@ == "XSRF-TOKEN="@ + xsrf@ + "; new_kasir_v2_session="@ + session@,
    {
        let mut s = String::from_str("XSRF-TOKEN=");
        s.append(xsrf);
        s.append("; new_kasir_v2_session=");
        s.append(session);
        proof {
            assert(s@ =~= "XSRF-TOKEN="@ + xsrf@ + "; new_kasir_v2_session="@ + session@);
        }
        s
    }

    /// The non-empty heads (the part before the first `;`) of the headers
    /// naming a session cookie, in order.
    pub fn collect_final_cookies(headers: &Vec<String>) -> (r: Vec<String>)
        ensures
            str_views(r@) == spec_final_cookies(str_views(headers@)),
    {
        let mut out: Vec<String> = Vec::new();
        let mut i: usize = 0;
        proof {
            assert(str_views(headers@).subrange(0, 0) =~= Seq::<Seq<char>>::empty());
            assert(str_views(out@) =~= spec_final_cookies(
                str_views(headers@).subrange(0, 0),
            ));
        }
        while i < headers.len()
            invariant
                i <= headers@.len(),
                str_views(out@) == spec_final_cookies(str_views(headers@).subrange(0, i as int)),
            decreases headers@.len() - i,
        {
            proof {
                let pre = str_views(headers@).subrange(0, i as int);
                let ext = str_views(headers@).subrange(0, i + 1);
                assert(ext.drop_last() =~= pre);
                assert(ext.last() == headers@[i as int]@);
            }
            let h = &headers[i];
            let interesting = str_contains(h.as_str(), "remember_web_") || str_contains(
                h.as_str(),
                "XSRF-TOKEN=",
            ) || str_contains(h.as_str(), "new_kasir_v2_session=");
            if interesting {
                proof {
                    crate::strutil::lemma_find_char(h@, ';');
                }
                let head = match crate::strutil::find_char_exec(h.as_str(), ';') {
                    Some(j) => h.as_str().substring_char(0, j),
                    None => h.as_str(),
                };
                proof {
                    assert(head@ =~= cookie_head(headers@[i as int]@));
                }
                if head.unicode_len() > 0 {
                    let ghost out_old = out@;
                    out.push(head.to_owned());
                    proof {
                        assert(str_views(out@) =~= str_views(out_old).push(head@));
                    }
                }
            }
            i += 1;
        }
        proof {
            assert(str_views(headers@).subrange(0, headers@.len() as int) =~= str_views(headers@));
        }
        out
    }

    /// Everything the login flow decides over the login page response: the
    /// two cookie tokens of its headers and the page's anti-forgery token;
    /// an error when the page holds no such token.
    pub fn process_login_page(headers: &Vec<String>, html: &str) -> (r: Result<
        LoginPageData,
        DebugAppError,
    >)
        ensures
            (csrf_token_of(html@) is None) ==> (r matches Err(e) && e is Serialization),
            csrf_token_of(html@) matches Some(t) ==> (r matches Ok(d) && d.csrf_token@ == t && (
            d.xsrf_token@, d.session_token@) == spec_scan_login_tokens(str_views(headers@))),
    {
        let (xsrf_token, session_token) = Self::scan_login_tokens(headers);
        match extract_csrf_token(html) {
            Some(csrf_token) => Ok(LoginPageData { xsrf_token, session_token, csrf_token }),
            None => Err(DebugAppError::Serialization(String::from_str("CSRF token not found"))),
        }
    }

    /// The final cookie string of a successful login: the collected session
    /// cookie heads joined by `; `; an error when the response set none.
    pub fn process_login_response(headers: &Vec<String>) -> (r: Result<String, DebugAppError>)
        ensures
            spec_final_cookies(str_views(headers@)).len() == 0 ==> (r matches Err(e)
                && e is Unauthorized),
            spec_final_cookies(str_views(headers@)).len() > 0 ==> (r matches Ok(c) && c@
                == join_with(spec_final_cookies(str_views(headers@)), "; "@)),
    {
        let cookies = Self::collect_final_cookies(headers);
        if cookies.len() == 0 {
            proof {
                assert(spec_final_cookies(str_views(headers@)).len() == str_views(
                    cookies@,
                ).len());
            }
            return Err(
                DebugAppError::Unauthorized(
                    String::from_str("Login failed - no cookies received"),
                ),
            );
        }
        Ok(crate::strutil::join_strings(&cookies, "; "))
    }
}

} // verus!
