//! The computations of the OAuth login: the authorization URL, and the
//! authorization code found in a redirect.
use vstd::prelude::*;
use vstd::utf8::encode_utf8;
use crate::text::{decimal, push_char, push_decimal, push_str, str_eq, to_string};

verus! {

/// Whether `c` has the Unicode White_Space property (`char::is_whitespace`).
pub open spec fn is_white_space(c: char) -> bool {
    let n = c as u32;
    (0x9 <= n && n <= 0xd) || n == 0x20 || n == 0x85 || n == 0xa0 || n == 0x1680
        || (0x2000 <= n && n <= 0x200a) || n == 0x2028 || n == 0x2029 || n == 0x202f
        || n == 0x205f || n == 0x3000
}

/// Whether `c` has the Unicode White_Space property.
pub fn is_whitespace(c: char) -> (r: bool)
    ensures
        r == is_white_space(c),
{
    let n = c as u32;
    (0x9 <= n && n <= 0xd) || n == 0x20 || n == 0x85 || n == 0xa0 || n == 0x1680
        || (0x2000 <= n && n <= 0x200a) || n == 0x2028 || n == 0x2029 || n == 0x202f
        || n == 0x205f || n == 0x3000
}

/// The maximal runs of non-whitespace characters of `s`, in order (`str::split_whitespace`).
pub open spec fn tokens(s: Seq<char>) -> Seq<Seq<char>>
    decreases s.len(),
{
    if s.len() == 0 {
        Seq::empty()
    } else {
        let t = tokens(s.drop_last());
        let c = s.last();
        if is_white_space(c) {
            t
        } else if s.len() >= 2 && !is_white_space(s[s.len() - 2]) {
            t.update(t.len() - 1, t.last().push(c))
        } else {
            t.push(seq![c])
        }
    }
}

proof fn lemma_tokens_nonempty(s: Seq<char>)
    requires
        s.len() > 0,
        !is_white_space(s.last()),
    ensures
        tokens(s).len() > 0,
    decreases s.len(),
{
    if s.len() >= 2 && !is_white_space(s[s.len() - 2]) {
        assert(s.drop_last().last() == s[s.len() - 2]);
        lemma_tokens_nonempty(s.drop_last());
    }
}

/// The maximal runs of non-whitespace characters of `s`, in order.
pub fn split_whitespace(s: &str) -> (r: Vec<String>)
    ensures
        r@.map_values(|t: String| t@) == tokens(s@),
{
    let n = s.unicode_len();
    let mut toks: Vec<String> = Vec::new();
    let mut prev_ws = true;
    let mut i: usize = 0;
    while i < n
        invariant
            n == s@.len(),
            i <= n,
            toks@.map_values(|t: String| t@) == tokens(s@.subrange(0, i as int)),
            prev_ws == (i == 0 || is_white_space(s@[i - 1])),
        decreases n - i,
    {
        let c = s.get_char(i);
        let ghost pre = s@.subrange(0, i as int);
        let ghost cur = s@.subrange(0, i + 1);
        assert(cur.drop_last() =~= pre);
        assert(cur.last() == c);
        let ws = is_whitespace(c);
        if !ws {
            if prev_ws {
                let mut t = String::new();
                push_char(&mut t, c);
                toks.push(t);
                assert(toks@.map_values(|t: String| t@) =~= tokens(cur));
            } else {
                assert(cur[cur.len() - 2] == s@[i - 1]);
                proof { lemma_tokens_nonempty(pre); }
                assert(pre.last() == s@[i - 1]);
                let ghost tv = toks@.map_values(|t: String| t@);
                let mut last = match toks.pop() {
                    Some(t) => t,
                    None => String::new(),
                };
                push_char(&mut last, c);
                toks.push(last);
                assert(toks@.map_values(|t: String| t@) =~= tv.update(tv.len() - 1, tv.last().push(c)));
            }
        }
        prev_ws = ws;
        i = i + 1;
    }
    assert(s@.subrange(0, n as int) =~= s@);
    toks
}

/// The query of a URL as a list of decoded name-value pairs, or `None` when
/// the text does not parse as a URL (`url::Url::parse`, then `Url::query_pairs`).
pub uninterp spec fn url_query(url: Seq<char>) -> Option<Seq<(Seq<char>, Seq<char>)>>;

/// Parses `url` with `url::Url::parse` and gives the name-value pairs of its
/// query (`Url::query_pairs`), or `None` when it does not parse. The contract
/// only names the result: it is what the url crate's parser gives for the text.
#[verifier::external_body]
fn url_query_pairs(url: &str) -> (r: Option<Vec<(String, String)>>)
    ensures
        pairs_view(r) == url_query(url@),
{
    match url::Url::parse(url) {
        Ok(u) => Some(u.query_pairs().map(|(k, v)| (k.into_owned(), v.into_owned())).collect()),
        Err(_) => None,
    }
}

/// The view of optional name-value pairs.
pub open spec fn pairs_view(p: Option<Vec<(String, String)>>) -> Option<Seq<(Seq<char>, Seq<char>)>> {
    match p {
        Some(v) => Some(v@.map_values(|kv: (String, String)| (kv.0@, kv.1@))),
        None => None,
    }
}

/// The value of the first pair named `code`.
pub open spec fn first_code(ps: Seq<(Seq<char>, Seq<char>)>) -> Option<Seq<char>>
    decreases ps.len(),
{
    if ps.len() == 0 {
        None
    } else if ps[0].0 == "code"@ {
        Some(ps[0].1)
    } else {
        first_code(ps.drop_first())
    }
}

/// The authorization code among the query pairs of a URL, if any.
pub open spec fn code_of(q: Option<Seq<(Seq<char>, Seq<char>)>>) -> Option<Seq<char>> {
    match q {
        Some(ps) => first_code(ps),
        None => None,
    }
}

/// The value of the first query pair named `code`, if any.
pub fn code_from_query_pairs(pairs: Option<Vec<(String, String)>>) -> (r: Option<String>)
    ensures
        crate::text::opt_str(r) == code_of(pairs_view(pairs)),
{
    let ps = match pairs {
        Some(ps) => ps,
        None => { return None; }
    };
    let ghost pv = ps@.map_values(|kv: (String, String)| (kv.0@, kv.1@));
    let ghost goal = code_of(pairs_view(pairs));
    assert(goal == first_code(pv));
    let mut i: usize = 0;
    assert(pv.subrange(0, pv.len() as int) =~= pv);
    while i < ps.len()
        invariant
            goal == first_code(pv),
            goal == code_of(pairs_view(pairs)),
            pv == ps@.map_values(|kv: (String, String)| (kv.0@, kv.1@)),
            i <= ps@.len(),
            first_code(pv) == first_code(pv.subrange(i as int, pv.len() as int)),
        decreases ps@.len() - i,
    {
        let ghost rest = pv.subrange(i as int, pv.len() as int);
        assert(rest.drop_first() =~= pv.subrange(i + 1, pv.len() as int));
        assert(rest[0] == (ps@[i as int].0@, ps@[i as int].1@));
        if str_eq(ps[i].0.as_str(), "code") {
            assert(rest[0].0 == "code"@);
            assert(first_code(rest) == Some(rest[0].1));
            return Some(ps[i].1.clone());
        }
        i = i + 1;
    }
    None
}

/// The authorization code in the query of a full URL, if any.
pub fn extract_code_from_url(url_str: &str) -> (r: Option<String>)
    ensures
        crate::text::opt_str(r) == code_of(url_query(url_str@)),
{
    code_from_query_pairs(url_query_pairs(url_str))
}

/// The authorization code in an HTTP request line such as
/// `GET /?code=xxx&scope=... HTTP/1.1`, read from the path (the second word).
pub fn extract_code_from_request(request_line: &str) -> (r: Option<String>)
    ensures
        ({
            let t = tokens(request_line@);
            crate::text::opt_str(r) == if t.len() >= 2 {
                code_of(url_query("http://localhost"@ + t[1]))
            } else {
                None
            }
        }),
{
    let parts = split_whitespace(request_line);
    if parts.len() >= 2 {
        let mut full_url = to_string("http://localhost");
        push_str(&mut full_url, parts[1].as_str());
        assert(parts@.map_values(|t: String| t@)[1] == parts@[1]@);
        extract_code_from_url(full_url.as_str())
    } else {
        None
    }
}

/// Whether a byte stays as it is in a percent-encoded text: ASCII letters,
/// digits, `-`, `.`, `_` and `~`.
pub open spec fn unreserved(b: u8) -> bool {
    (48 <= b && b <= 57) || (65 <= b && b <= 90) || (97 <= b && b <= 122) || b == 45 || b == 46 || b == 95 || b == 126
}

/// The upper-case hexadecimal digit of `d` (`d < 16`).
pub open spec fn hex_digit(d: u8) -> char {
    if d < 10 { (48 + d) as char } else { (55 + d) as char }
}

/// Percent-encoding of bytes: an unreserved byte stays, any other becomes
/// `%` and its two upper-case hexadecimal digits.
pub open spec fn percent_encode(bs: Seq<u8>) -> Seq<char>
    decreases bs.len(),
{
    if bs.len() == 0 {
        Seq::empty()
    } else {
        let b = bs[0];
        (if unreserved(b) { seq![b as char] } else { seq!['%', hex_digit(b / 16), hex_digit(b % 16)] })
            + percent_encode(bs.drop_first())
    }
}

/// Percent-encodes the UTF-8 bytes of `s` (`urlencoding::encode`): every
/// byte but ASCII letters, digits, `-`, `.`, `_` and `~` becomes `%XX`.
#[verifier::external_body]
fn url_encode(s: &str) -> (r: String)
    ensures
        r@ == percent_encode(encode_utf8(s@)),
{
    urlencoding::encode(s).into_owned()
}

/// The redirect address of the local OAuth listener on `port`.
pub open spec fn redirect_uri_spec(port: u16) -> Seq<char> {
    "http://127.0.0.1:"@ + decimal(port as nat)
}

/// The Google authorization URL for `client_id`, redirecting to the local listener on `port`.
pub open spec fn auth_url_spec(client_id: Seq<char>, port: u16) -> Seq<char> {
    "https://accounts.google.com/o/oauth2/auth?client_id="@
        + percent_encode(encode_utf8(client_id))
        + "&redirect_uri="@
        + percent_encode(encode_utf8(redirect_uri_spec(port)))
        + "&response_type=code&scope=https://www.googleapis.com/auth/drive&access_type=offline&prompt=consent"@
}

/// The redirect address of the local OAuth listener on `port`.
pub fn redirect_uri(port: u16) -> (r: String)
    ensures
        r@ == redirect_uri_spec(port),
{
    let mut r = to_string("http://127.0.0.1:");
    push_decimal(&mut r, port as u64);
    r
}

/// The Google authorization URL for `client_id`, redirecting to the local listener on `port`.
pub fn auth_url(client_id: &str, port: u16) -> (r: String)
    ensures
        r@ == auth_url_spec(client_id@, port),
{
    let redirect = redirect_uri(port);
    let mut r = to_string("https://accounts.google.com/o/oauth2/auth?client_id=");
    push_str(&mut r, url_encode(client_id).as_str());
    push_str(&mut r, "&redirect_uri=");
    push_str(&mut r, url_encode(redirect.as_str()).as_str());
    push_str(&mut r, "&response_type=code&scope=https://www.googleapis.com/auth/drive&access_type=offline&prompt=consent");
    r
}

/// The lifetime of an access token, in seconds: the one the token response
/// gives, or one hour.
pub fn token_lifetime(expires_in: Option<u64>) -> (r: u64)
    ensures
        r == match expires_in { Some(s) => s, None => 3600 },
{
    match expires_in {
        Some(s) => s,
        None => 3600,
    }
}

} // verus!
