//! Small text utilities shared by the date formats, the cookie handling and
//! the response classifier.

use vstd::prelude::*;

verus! {

/// Relies on String::push, which vstd does not specify: appends one character.
#[verifier::external_body]
pub fn push_char(s: &mut String, c: char)
    ensures
        final(s)@ == old(s)@.push(c),
{
    s.push(c)
}

/// Character-for-character equality of two string slices.
pub fn str_eq(a: &str, b: &str) -> (r: bool)
    ensures
        r == (a@ == b@),
{
    let alen = a.unicode_len();
    let blen = b.unicode_len();
    if alen != blen {
        assert(a@ != b@) by {
            assert(a@.len() != b@.len());
        }
        return false;
    }
    let mut i: usize = 0;
    while i < alen
        invariant
            alen == a@.len(),
            alen == b@.len(),
            i <= alen,
            forall|k: int| 0 <= k < i ==> a@[k] == b@[k],
        decreases alen - i,
    {
        if a.get_char(i) != b.get_char(i) {
            assert(a@[i as int] != b@[i as int]);
            return false;
        }
        i += 1;
    }
    assert(a@ =~= b@);
    true
}

/// `needle` occurs in `haystack` starting at position `at`.
pub open spec fn occurs_at(haystack: Seq<char>, needle: Seq<char>, at: int) -> bool {
    &&& 0 <= at
    &&& at + needle.len() <= haystack.len()
    &&& haystack.subrange(at, at + needle.len()) == needle
}

/// `needle` occurs somewhere in `haystack`.
pub open spec fn contains_seq(haystack: Seq<char>, needle: Seq<char>) -> bool {
    exists|at: int| occurs_at(haystack, needle, at)
}

/// Whether `needle` occurs in `haystack` exactly at position `at`.
fn match_at(haystack: &str, needle: &str, at: usize, hlen: usize, nlen: usize) -> (r: bool)
    requires
        hlen == haystack@.len(),
        nlen == needle@.len(),
        at + nlen <= hlen,
    ensures
        r == occurs_at(haystack@, needle@, at as int),
{
    let mut j: usize = 0;
    while j < nlen
        invariant
            hlen == haystack@.len(),
            nlen == needle@.len(),
            at + nlen <= hlen,
            j <= nlen,
            forall|k: int| 0 <= k < j ==> haystack@[at + k] == needle@[k],
        decreases nlen - j,
    {
        if haystack.get_char(at + j) != needle.get_char(j) {
            proof {
                if occurs_at(haystack@, needle@, at as int) {
                    assert(haystack@.subrange(at as int, at + needle@.len())[j as int]
                        == needle@[j as int]);
                }
            }
            return false;
        }
        j += 1;
    }
    proof {
        assert(haystack@.subrange(at as int, at + needle@.len()) =~= needle@);
    }
    true
}

/// Substring search: whether `needle` occurs anywhere in `haystack`.
pub fn str_contains(haystack: &str, needle: &str) -> (r: bool)
    ensures
        r == contains_seq(haystack@, needle@),
{
    let hlen = haystack.unicode_len();
    let nlen = needle.unicode_len();
    if nlen == 0 {
        proof {
            assert(haystack@.subrange(0, 0) =~= needle@);
            assert(occurs_at(haystack@, needle@, 0));
        }
        return true;
    }
    if nlen > hlen {
        assert(forall|at: int| !occurs_at(haystack@, needle@, at));
        return false;
    }
    let mut at: usize = 0;
    while at <= hlen - nlen
        invariant
            hlen == haystack@.len(),
            nlen == needle@.len(),
            1 <= nlen <= hlen,
            at <= hlen - nlen + 1,
            forall|k: int| 0 <= k < at ==> !occurs_at(haystack@, needle@, k),
        decreases hlen - at,
    {
        if match_at(haystack, needle, at, hlen, nlen) {
            return true;
        }
        at += 1;
    }
    assert(forall|k: int| !occurs_at(haystack@, needle@, k)) by {
        assert(forall|k: int| k + nlen > hlen ==> !occurs_at(haystack@, needle@, k));
    }
    false
}

/// What urlencoding::encode returns for a given string: every byte
/// percent-encoded except ASCII alphanumerics and `-`, `_`, `.`, `~`.
pub uninterp spec fn url_encoded_of(s: Seq<char>) -> Seq<char>;

/// Relies on urlencoding::encode: percent-encodes every byte except ASCII
/// alphanumerics and `-`, `_`, `.`, `~`; the result depends on the input alone.
#[verifier::external_body]
pub fn url_encode(s: &str) -> (r: String)
    ensures
        r@ == url_encoded_of(s@),
        s@.len() == 0 ==> r@.len() == 0,
{
    urlencoding::encode(s).into_owned()
}

/// The first position of `c` in `s`, if any.
pub open spec fn find_char(s: Seq<char>, c: char) -> Option<int>
    decreases s.len(),
{
    if s.len() == 0 {
        None
    } else if s[0] == c {
        Some(0)
    } else {
        match find_char(s.drop_first(), c) {
            None => None,
            Some(j) => Some(j + 1),
        }
    }
}

/// What `find_char` answers: the first occurrence, or no occurrence at all.
pub proof fn lemma_find_char(s: Seq<char>, c: char)
    ensures
        match find_char(s, c) {
            Some(i) => 0 <= i < s.len() && s[i] == c && forall|k: int| 0 <= k < i ==> s[k] != c,
            None => forall|k: int| 0 <= k < s.len() ==> s[k] != c,
        },
    decreases s.len(),
{
    if s.len() > 0 && s[0] != c {
        lemma_find_char(s.drop_first(), c);
        assert(forall|k: int| 0 <= k < s.drop_first().len() ==> #[trigger] s.drop_first()[k] == s[k
            + 1]);
        match find_char(s.drop_first(), c) {
            None => {
                assert forall|k: int| 0 <= k < s.len() implies s[k] != c by {
                    if k > 0 {
                        assert(s.drop_first()[k - 1] != c);
                    }
                }
            },
            Some(j) => {
                assert forall|k: int| 0 <= k < j + 1 implies s[k] != c by {
                    if k > 0 {
                        assert(s.drop_first()[k - 1] != c);
                    }
                }
            },
        }
    }
}

/// The first position of `c` in `s`, walked from the front.
pub fn find_char_exec(s: &str, c: char) -> (r: Option<usize>)
    ensures
        match r {
            Some(i) => find_char(s@, c) == Some(i as int),
            None => find_char(s@, c) is None,
        },
{
    proof {
        lemma_find_char(s@, c);
    }
    let len = s.unicode_len();
    let mut i: usize = 0;
    while i < len
        invariant
            len == s@.len(),
            i <= len,
            forall|k: int| 0 <= k < i ==> s@[k] != c,
        decreases len - i,
    {
        if s.get_char(i) == c {
            proof {
                lemma_find_char(s@, c);
                if find_char(s@, c) is None {
                    assert(s@[i as int] != c);
                }
                let j = find_char(s@, c).unwrap();
                if j < i {
                    assert(s@[j] != c);
                }
                if j > i {
                    assert(s@[i as int] != c);
                }
            }
            return Some(i);
        }
        i += 1;
    }
    proof {
        lemma_find_char(s@, c);
        match find_char(s@, c) {
            Some(j) => {
                assert(s@[j] != c);
            },
            None => {},
        }
    }
    None
}

/// `p` is a prefix of `s`.
pub open spec fn starts_with_seq(s: Seq<char>, p: Seq<char>) -> bool {
    s.len() >= p.len() && s.subrange(0, p.len() as int) == p
}

/// Whether `p` is a prefix of `s`.
pub fn str_starts_with(s: &str, p: &str) -> (r: bool)
    ensures
        r == starts_with_seq(s@, p@),
{
    let slen = s.unicode_len();
    let plen = p.unicode_len();
    if plen > slen {
        return false;
    }
    let mut i: usize = 0;
    while i < plen
        invariant
            slen == s@.len(),
            plen == p@.len(),
            plen <= slen,
            i <= plen,
            forall|k: int| 0 <= k < i ==> s@[k] == p@[k],
        decreases plen - i,
    {
        if s.get_char(i) != p.get_char(i) {
            proof {
                if starts_with_seq(s@, p@) {
                    assert(s@.subrange(0, p@.len() as int)[i as int] == p@[i as int]);
                }
            }
            return false;
        }
        i += 1;
    }
    proof {
        assert(s@.subrange(0, p@.len() as int) =~= p@);
    }
    true
}

/// The view of each string of a sequence.
pub open spec fn str_views(hs: Seq<String>) -> Seq<Seq<char>> {
    hs.map(|i: int, h: String| h@)
}

/// The pieces of `s` between occurrences of `sep`; one piece more than there
/// are separators.
pub open spec fn split_on(s: Seq<char>, sep: char) -> Seq<Seq<char>>
    decreases s.len(),
{
    match find_char(s, sep) {
        None => seq![s],
        Some(i) => if 0 <= i < s.len() {
            seq![s.subrange(0, i)] + split_on(s.skip(i + 1), sep)
        } else {
            seq![s]
        },
    }
}

/// Splits `s` at every occurrence of `sep`.
pub fn split_str(s: &str, sep: char) -> (r: Vec<String>)
    ensures
        str_views(r@) == split_on(s@, sep),
{
    let len = s.unicode_len();
    let mut parts: Vec<String> = Vec::new();
    let mut p: usize = 0;
    proof {
        assert(s@.skip(0) =~= s@);
    }
    loop
        invariant
            len == s@.len(),
            p <= len,
            split_on(s@, sep) == str_views(parts@) + split_on(s@.skip(p as int), sep),
        decreases len - p,
    {
        let suffix = s.substring_char(p, len);
        proof {
            assert(suffix@ =~= s@.skip(p as int));
            lemma_find_char(s@.skip(p as int), sep);
        }
        let ghost parts_old = parts@;
        match find_char_exec(suffix, sep) {
            None => {
                parts.push(suffix.to_owned());
                proof {
                    assert(split_on(s@.skip(p as int), sep) == seq![s@.skip(p as int)]);
                    assert(str_views(parts@) =~= str_views(parts_old).push(s@.skip(p as int)));
                    assert(str_views(parts_old).push(s@.skip(p as int)) =~= str_views(parts_old)
                        + seq![s@.skip(p as int)]);
                    assert(str_views(parts@) =~= split_on(s@, sep));
                }
                return parts;
            },
            Some(i) => {
                let piece = s.substring_char(p, p + i);
                parts.push(piece.to_owned());
                proof {
                    let tail = s@.skip(p as int);
                    assert(piece@ =~= tail.subrange(0, i as int));
                    assert(tail.skip(i + 1) =~= s@.skip(p + i + 1));
                    assert(split_on(tail, sep) == seq![tail.subrange(0, i as int)] + split_on(
                        s@.skip(p + i + 1),
                        sep,
                    ));
                    assert(str_views(parts@) =~= str_views(parts_old).push(
                        tail.subrange(0, i as int),
                    ));
                    assert(str_views(parts_old) + split_on(tail, sep) =~= str_views(parts@)
                        + split_on(s@.skip(p + i + 1), sep));
                }
                p = p + i + 1;
            },
        }
    }
}

/// `s` with its leading whitespace removed.
pub open spec fn trim_front(s: Seq<char>) -> Seq<char>
    decreases s.len(),
{
    if s.len() > 0 && is_space(s[0]) {
        trim_front(s.drop_first())
    } else {
        s
    }
}

/// `s` with its trailing whitespace removed.
pub open spec fn trim_back(s: Seq<char>) -> Seq<char>
    decreases s.len(),
{
    if s.len() > 0 && is_space(s.last()) {
        trim_back(s.drop_last())
    } else {
        s
    }
}

/// `s` with leading and trailing whitespace removed.
pub open spec fn trim_spec(s: Seq<char>) -> Seq<char> {
    trim_back(trim_front(s))
}

/// Removes leading and trailing whitespace.
pub fn str_trim(s: &str) -> (r: String)
    ensures
        r@ == trim_spec(s@),
{
    let len = s.unicode_len();
    let mut lo: usize = 0;
    proof {
        assert(s@.skip(0) =~= s@);
    }
    while lo < len && is_space_exec(s.get_char(lo))
        invariant
            len == s@.len(),
            lo <= len,
            trim_front(s@) == trim_front(s@.skip(lo as int)),
        decreases len - lo,
    {
        proof {
            assert(s@.skip(lo as int)[0] == s@[lo as int]);
            assert(s@.skip(lo as int).drop_first() =~= s@.skip(lo + 1));
        }
        lo += 1;
    }
    proof {
        if lo < len {
            assert(trim_front(s@.skip(lo as int)) == s@.skip(lo as int));
        } else {
            assert(s@.skip(lo as int) =~= Seq::<char>::empty());
            assert(trim_front(s@.skip(lo as int)) == s@.skip(lo as int));
        }
    }
    let mut hi: usize = len;
    proof {
        assert(s@.subrange(lo as int, hi as int) =~= s@.skip(lo as int));
    }
    while hi > lo && is_space_exec(s.get_char(hi - 1))
        invariant
            len == s@.len(),
            lo <= hi <= len,
            trim_front(s@) == s@.skip(lo as int),
            trim_back(s@.skip(lo as int)) == trim_back(s@.subrange(lo as int, hi as int)),
        decreases hi,
    {
        proof {
            assert(s@.subrange(lo as int, hi as int).last() == s@[hi - 1]);
            assert(s@.subrange(lo as int, hi as int).drop_last() =~= s@.subrange(
                lo as int,
                hi - 1,
            ));
        }
        hi -= 1;
    }
    proof {
        let seg = s@.subrange(lo as int, hi as int);
        if hi > lo {
            assert(seg.last() == s@[hi - 1]);
            assert(trim_back(seg) == seg);
        } else {
            assert(seg =~= Seq::<char>::empty());
            assert(trim_back(seg) == seg);
        }
    }
    s.substring_char(lo, hi).to_owned()
}

/// The parts joined, with `sep` between consecutive parts.
pub open spec fn join_with(parts: Seq<Seq<char>>, sep: Seq<char>) -> Seq<char>
    decreases parts.len(),
{
    if parts.len() == 0 {
        Seq::empty()
    } else if parts.len() == 1 {
        parts[0]
    } else {
        parts[0] + sep + join_with(parts.drop_first(), sep)
    }
}

/// Joining one more part appends a separator and the part.
pub proof fn lemma_join_push(parts: Seq<Seq<char>>, sep: Seq<char>, x: Seq<char>)
    ensures
        join_with(parts.push(x), sep) == (if parts.len() == 0 {
            x
        } else {
            join_with(parts, sep) + sep + x
        }),
    decreases parts.len(),
{
    if parts.len() == 0 {
        assert(parts.push(x)[0] == x);
        assert(parts.push(x).len() == 1);
    } else if parts.len() == 1 {
        assert(parts.push(x).drop_first() =~= seq![x]);
        assert(parts.push(x)[0] == parts[0]);
        assert(seq![x][0] == x);
        assert(join_with(seq![x], sep) == x);
        assert(join_with(parts.push(x), sep) == parts[0] + sep + x);
    } else {
        assert(parts.push(x).drop_first() =~= parts.drop_first().push(x));
        lemma_join_push(parts.drop_first(), sep, x);
        assert(join_with(parts.push(x), sep) =~= join_with(parts, sep) + sep + x);
    }
}

/// Joins the strings, with `sep` between consecutive ones.
pub fn join_strings(parts: &Vec<String>, sep: &str) -> (r: String)
    ensures
        r@ == join_with(str_views(parts@), sep@),
{
    let mut acc = String::new();
    let mut i: usize = 0;
    proof {
        assert(str_views(parts@).subrange(0, 0) =~= Seq::<Seq<char>>::empty());
    }
    while i < parts.len()
        invariant
            i <= parts@.len(),
            acc@ == join_with(str_views(parts@).subrange(0, i as int), sep@),
        decreases parts@.len() - i,
    {
        proof {
            let pre = str_views(parts@).subrange(0, i as int);
            let ext = str_views(parts@).subrange(0, i + 1);
            assert(ext =~= pre.push(parts@[i as int]@));
            lemma_join_push(pre, sep@, parts@[i as int]@);
        }
        if i > 0 {
            acc.append(sep);
        }
        acc.append(parts[i].as_str());
        i += 1;
    }
    proof {
        assert(str_views(parts@).subrange(0, parts@.len() as int) =~= str_views(parts@));
    }
    acc
}

/// ASCII whitespace, the only blank characters expected in a response body.
pub open spec fn is_space(c: char) -> bool {
    c == ' ' || c == '\t' || c == '\n' || c == '\r'
}

pub fn is_space_exec(c: char) -> (r: bool)
    ensures
        r == is_space(c),
{
    c == ' ' || c == '\t' || c == '\n' || c == '\r'
}

/// The first character of `s` that is not whitespace, if any.
pub fn first_non_space(s: &str) -> (r: Option<char>)
    ensures
        match r {
            Some(c) => exists|i: int|
                0 <= i < s@.len() && s@[i] == c && !is_space(c) && forall|k: int|
                    0 <= k < i ==> is_space(#[trigger] s@[k]),
            None => forall|k: int| 0 <= k < s@.len() ==> is_space(#[trigger] s@[k]),
        },
{
    let len = s.unicode_len();
    let mut i: usize = 0;
    while i < len
        invariant
            len == s@.len(),
            i <= len,
            forall|k: int| 0 <= k < i ==> is_space(#[trigger] s@[k]),
        decreases len - i,
    {
        let c = s.get_char(i);
        if !is_space_exec(c) {
            return Some(c);
        }
        i += 1;
    }
    None
}

} // verus!
