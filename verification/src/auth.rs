//! Access tokens and the access check in front of every lapp.

use vstd::prelude::*;
use vstd::string::*;

use crate::error::{AppError, ServerError};
use crate::http::is_header_value;
use crate::manager::LappsManager;
use crate::text::{decimal, chars_of, find_char, find_in, lemma_find_char, lemma_find_char_bounds, matches_at, range_eq, str_eq, string_of_range};

verus! {

broadcast use vstd::seq::group_seq_axioms;

// ---------------------------------------------------------------------------
// Outside calls
// ---------------------------------------------------------------------------

/// The base58 text that the `bs58` crate makes of `bytes`.
pub uninterp spec fn bs58_text(bytes: Seq<u8>) -> Seq<char>;

/// A cookie domain as `cookie::Cookie` shows it: without one leading dot.
pub open spec fn cookie_domain_text(d: Seq<char>) -> Seq<char> {
    if d.len() > 0 && d[0] == '.' {
        d.subrange(1, d.len() as int)
    } else {
        d
    }
}

/// The `Set-Cookie` text that `cookie::Cookie`'s `Display` writes for a
/// cookie with a name, a value, an http-only flag, a path, a domain and a
/// maximum age in seconds: `name=value`, then `; HttpOnly` where set, then
/// `; Path=`, `; Domain=` and `; Max-Age=`.
pub open spec fn cookie_text(name: Seq<char>, value: Seq<char>, http_only: bool, path: Seq<char>, domain: Seq<char>, max_age_secs: nat) -> Seq<char> {
    name + "="@ + value + (if http_only { "; HttpOnly"@ } else { Seq::<char>::empty() })
        + "; Path="@ + path + "; Domain="@ + cookie_domain_text(domain) + "; Max-Age="@ + decimal(max_age_secs)
}

/// The name and value that `cookie::Cookie::parse` reads from `text`, or
/// `None` where it refuses it.
pub uninterp spec fn cookie_parse(text: Seq<char>) -> Option<(Seq<char>, Seq<char>)>;

/// 32 bytes from `ring`'s system random generator, or `None` where it fails.
#[verifier::external_body]
fn random_bytes() -> (r: Option<Vec<u8>>)
    ensures
        r matches Some(b) ==> b@.len() == 32,
{
    let random = ring::rand::generate::<[u8; 32]>(&ring::rand::SystemRandom::new()).ok()?;
    Some(random.expose().to_vec())
}

/// `bs58::encode(bytes).into_string()`; some bytes give some characters
/// (each leading zero byte gives a `1`, the rest at least one digit).
#[verifier::external_body]
fn bs58_encode(bytes: &[u8]) -> (r: String)
    ensures
        r@ == bs58_text(bytes@),
        bytes@.len() > 0 ==> r@.len() > 0,
{
    bs58::encode(bytes).into_string()
}

/// The `Set-Cookie` text of a cookie built with `cookie::Cookie::build` and
/// the given name, value, domain, path, http-only flag and maximum age.
#[verifier::external_body]
fn build_cookie(name: &str, value: &str, domain: &str, path: &str, http_only: bool, max_age_secs: u32) -> (r: String)
    ensures
        r@ == cookie_text(name@, value@, http_only, path@, domain@, max_age_secs as nat),
{
    cookie::Cookie::build(name.to_string(), value.to_string())
        .domain(domain.to_string())
        .path(path.to_string())
        .http_only(http_only)
        .max_age(cookie::time::Duration::seconds(max_age_secs as i64))
        .finish()
        .to_string()
}

/// Name and value of the cookie that `cookie::Cookie::parse` reads from `text`.
#[verifier::external_body]
fn parse_cookie(text: &str) -> (r: Option<(String, String)>)
    ensures
        match r {
            Some((n, v)) => cookie_parse(text@) == Some((n@, v@)),
            None => cookie_parse(text@) is None,
        },
{
    let cookie = cookie::Cookie::parse(text).ok()?;
    Some((cookie.name().to_string(), cookie.value().to_string()))
}

/// A byte that `http::HeaderValue::to_str` lets through: visible ASCII or tab.
pub open spec fn is_visible_ascii(b: u8) -> bool {
    (32 <= b < 127) || b == 9
}

pub open spec fn header_text(v: Seq<u8>) -> Option<Seq<char>> {
    if forall|i: int| 0 <= i < v.len() ==> is_visible_ascii(#[trigger] v[i]) {
        Some(v.map_values(|b: u8| b as char))
    } else {
        None
    }
}

/// The text of a header value, as `http::HeaderValue::to_str` gives it.
#[verifier::external_body]
fn header_value_text(bytes: &[u8]) -> (r: Option<String>)
    ensures
        match r {
            Some(s) => header_text(bytes@) == Some(s@),
            None => header_text(bytes@) is None,
        },
{
    let value = http::HeaderValue::from_bytes(bytes).ok()?;
    Some(value.to_str().ok()?.to_string())
}

/// Whether `http::HeaderValue` accepts the bytes of `text`.
#[verifier::external_body]
fn is_valid_header_text(text: &str) -> (r: bool)
    ensures
        r == is_header_value(vstd::utf8::encode_utf8(text@)),
{
    http::HeaderValue::from_str(text).is_ok()
}

// ---------------------------------------------------------------------------
// Tokens
// ---------------------------------------------------------------------------

/// A new random access token: 32 random bytes in base58.
pub fn generate_token() -> (r: Result<String, AppError>)
    ensures
        match r {
            Ok(t) => t@.len() > 0 && exists|b: Seq<u8>| b.len() == 32 && t@ == bs58_text(b),
            Err(e) => e == AppError::TokenGenerationFail,
        },
{
    match random_bytes() {
        Some(bytes) => {
            let token = bs58_encode(bytes.as_slice());
            assert(bytes@.len() == 32 && token@ == bs58_text(bytes@));
            Ok(token)
        },
        None => Err(AppError::TokenGenerationFail),
    }
}

/// The configured access token, or a new random one where none is configured.
pub fn prepare_access_token(maybe_access_token: Option<String>) -> (r: Result<String, AppError>)
    ensures
        match maybe_access_token {
            Some(t) => r == Ok::<String, AppError>(t),
            None => match r {
                Ok(t) => t@.len() > 0 && exists|b: Seq<u8>| b.len() == 32 && t@ == bs58_text(b),
                Err(e) => e == AppError::TokenGenerationFail,
            },
        },
{
    match maybe_access_token {
        Some(access_token) => Ok(access_token),
        None => generate_token(),
    }
}

// ---------------------------------------------------------------------------
// Paths and queries
// ---------------------------------------------------------------------------

/// The first non-empty `/`-separated segment of a path, or nothing.
pub open spec fn first_segment(s: Seq<char>) -> Seq<char>
    decreases s.len(),
{
    if s.len() == 0 {
        Seq::empty()
    } else if s[0] == '/' {
        first_segment(s.drop_first())
    } else {
        s.subrange(0, find_char(s, '/'))
    }
}

/// The first non-empty segment of `path`, the name of the lapp it goes to.
pub fn lapp_name_of_path(path: &str) -> (name: String)
    ensures
        name@ == first_segment(path@),
{
    let v = chars_of(path);
    let n = v.len();
    let mut i: usize = 0;
    assert(v@.subrange(0, n as int) =~= v@);
    while i < n && v[i] == '/'
        invariant
            n == v@.len(),
            i <= n,
            first_segment(v@) == first_segment(v@.subrange(i as int, n as int)),
        decreases n - i,
    {
        assert(v@.subrange(i as int, n as int).drop_first() =~= v@.subrange(i + 1, n as int));
        i = i + 1;
    }
    let j = find_in(&v, i, n, '/');
    let name = string_of_range(&v, i, j);
    proof {
        let rest = v@.subrange(i as int, n as int);
        if i < n {
            assert(rest.subrange(0, find_char(rest, '/')) =~= v@.subrange(i as int, j as int));
        } else {
            assert(rest.len() == 0);
            assert(v@.subrange(i as int, j as int) =~= Seq::<char>::empty());
        }
    }
    name
}

/// `s` split at every `c`, as `str::split` does.
pub open spec fn split_at_char(s: Seq<char>, c: char) -> Seq<Seq<char>>
    decreases s.len(),
{
    let i = find_char(s, c);
    if 0 <= i < s.len() {
        seq![s.subrange(0, i)] + split_at_char(s.subrange(i + 1, s.len() as int), c)
    } else {
        seq![s]
    }
}

/// The key of a query parameter: the text before its first `=`.
pub open spec fn param_key(p: Seq<char>) -> Seq<char> {
    p.subrange(0, find_char(p, '='))
}

/// The value of a query parameter: the text between its first and second `=`.
pub open spec fn param_value(p: Seq<char>) -> Seq<char> {
    let rest = p.subrange(find_char(p, '=') + 1, p.len() as int);
    rest.subrange(0, find_char(rest, '='))
}

/// Whether the query carries an access token.
pub open spec fn has_access_token_param(q: Seq<char>) -> bool {
    ||| (q.len() >= 13 && q.subrange(0, 13) == "access_token="@)
    ||| exists|i: int| 0 <= i && i + 14 <= q.len() && #[trigger] q.subrange(i, i + 14) == "&access_token="@
}

/// Every parameter keyed `access_token` has a value.
pub open spec fn access_token_params_complete(q: Seq<char>) -> bool {
    forall|k: int| 0 <= k < split_at_char(q, '&').len() && param_key(#[trigger] split_at_char(q, '&')[k]) == "access_token"@
        ==> find_char(split_at_char(q, '&')[k], '=') < split_at_char(q, '&')[k].len()
}

/// The token taken from the parameters (the last one given) and the query
/// that is left (`?` before the first kept parameter, `&` between them).
pub open spec fn token_and_query(params: Seq<Seq<char>>) -> (Seq<char>, Seq<char>)
    decreases params.len(),
{
    if params.len() == 0 {
        (Seq::empty(), Seq::empty())
    } else {
        let (t, q) = token_and_query(params.drop_last());
        let p = params.last();
        if param_key(p) == "access_token"@ {
            (param_value(p), q)
        } else {
            (t, q + seq![if q.len() == 0 { '?' } else { '&' }] + p)
        }
    }
}

/// Where to send a request that carries its access token in the query, and
/// the cookie that keeps the token instead.
pub struct TokenRedirect {
    pub location: String,
    pub set_cookie: String,
}

/// Appends `v[from..to]` to `out`.
fn push_range(out: &mut Vec<char>, v: &Vec<char>, from: usize, to: usize)
    requires
        from <= to <= v@.len(),
    ensures
        final(out)@ == old(out)@ + v@.subrange(from as int, to as int),
{
    let mut i = from;
    while i < to
        invariant
            from <= i <= to <= v@.len(),
            out@ == old(out)@ + v@.subrange(from as int, i as int),
        decreases to - i,
    {
        out.push(v[i]);
        assert(out@ =~= old(out)@ + v@.subrange(from as int, i + 1));
        i = i + 1;
    }
}

/// Whether the query characters start with `access_token=` or hold `&access_token=`.
fn carries_access_token(v: &Vec<char>) -> (r: bool)
    ensures
        r == has_access_token_param(v@),
{
    let first = chars_of("access_token=");
    let later = chars_of("&access_token=");
    proof {
        reveal_strlit("access_token=");
        reveal_strlit("&access_token=");
    }
    assert(first@.len() == 13);
    assert(later@.len() == 14);
    if matches_at(v, 0, &first) {
        return true;
    }
    let n = v.len();
    for i in 0..n
        invariant
            n == v@.len(),
            later@ == "&access_token="@,
            later@.len() == 14,
            forall|k: int| 0 <= k < i && k + 14 <= v@.len() ==> #[trigger] v@.subrange(k, k + 14) != "&access_token="@,
    {
        if matches_at(v, i, &later) {
            assert(v@.subrange(i as int, i + 14) == "&access_token="@);
            return true;
        }
    }
    false
}

/// Whether `query` starts with `access_token=` or holds `&access_token=`.
pub fn query_has_access_token(query: &str) -> (r: bool)
    ensures
        r == has_access_token_param(query@),
{
    carries_access_token(&chars_of(query))
}

proof fn lemma_split_step(v: Seq<char>, start: int, j: int)
    requires
        0 <= start <= j <= v.len(),
        j - start == find_char(v.subrange(start, v.len() as int), '&'),
    ensures
        j < v.len() ==> split_at_char(v.subrange(start, v.len() as int), '&')
            == seq![v.subrange(start, j)] + split_at_char(v.subrange(j + 1, v.len() as int), '&'),
        j == v.len() ==> split_at_char(v.subrange(start, v.len() as int), '&') == seq![v.subrange(start, j)],
{
    let rest = v.subrange(start, v.len() as int);
    lemma_find_char_bounds(rest, '&');
    assert(rest.subrange(0, j - start) =~= v.subrange(start, j));
    if j < v.len() {
        assert(rest.subrange(j - start + 1, rest.len() as int) =~= v.subrange(j + 1, v.len() as int));
    } else {
        assert(rest =~= v.subrange(start, j));
    }
}

/// Whether every `access_token` parameter of `query` has a value, so that
/// it can be taken from the query.
pub fn query_access_token_complete(query: &str) -> (r: bool)
    ensures
        r == access_token_params_complete(query@),
{
    let v = chars_of(query);
    let key = chars_of("access_token");
    let n = v.len();
    let mut start: usize = 0;
    let ghost mut done: Seq<Seq<char>> = Seq::empty();
    assert(v@.subrange(0, n as int) =~= v@);
    loop
        invariant_except_break
            start <= n,
            n == v@.len(),
            v@ == query@,
            key@ == "access_token"@,
            split_at_char(v@, '&') == done + split_at_char(v@.subrange(start as int, n as int), '&'),
            forall|k: int| 0 <= k < done.len() && param_key(#[trigger] done[k]) == "access_token"@
                ==> find_char(done[k], '=') < done[k].len(),
        ensures
            access_token_params_complete(query@),
        decreases n - start,
    {
        let j = find_in(&v, start, n, '&');
        proof {
            lemma_split_step(v@, start as int, j as int);
        }
        let ghost p = v@.subrange(start as int, j as int);
        let e = find_in(&v, start, j, '=');
        assert(param_key(p) =~= v@.subrange(start as int, e as int));
        if range_eq(&v, start, e, &key) && e == j {
            proof {
                let k = done.len() as int;
                assert(split_at_char(v@, '&')[k] == p);
            }
            return false;
        }
        proof {
            done = done.push(p);
            if j < n {
                assert(split_at_char(v@, '&') =~= done + split_at_char(v@.subrange(j + 1, n as int), '&'));
            } else {
                assert(split_at_char(v@, '&') =~= done);
            }
        }
        if j == n {
            break;
        }
        start = j + 1;
    }
    true
}

/// The access token taken from the query characters and the query that is left.
fn take_access_token(v: &Vec<char>) -> (r: (Vec<char>, Vec<char>))
    requires
        access_token_params_complete(v@),
    ensures
        (r.0@, r.1@) == token_and_query(split_at_char(v@, '&')),
{
    let key = chars_of("access_token");
    let n = v.len();
    let mut start: usize = 0;
    let mut token: Vec<char> = Vec::new();
    let mut rest: Vec<char> = Vec::new();
    let ghost mut done: Seq<Seq<char>> = Seq::empty();
    assert(v@.subrange(0, n as int) =~= v@);
    loop
        invariant_except_break
            start <= n,
            n == v@.len(),
            key@ == "access_token"@,
            access_token_params_complete(v@),
            split_at_char(v@, '&') == done + split_at_char(v@.subrange(start as int, n as int), '&'),
            (token@, rest@) == token_and_query(done),
        ensures
            (token@, rest@) == token_and_query(split_at_char(v@, '&')),
        decreases n - start,
    {
        let j = find_in(v, start, n, '&');
        proof {
            lemma_split_step(v@, start as int, j as int);
        }
        let ghost p = v@.subrange(start as int, j as int);
        let ghost k = done.len() as int;
        assert(split_at_char(v@, '&')[k] == p);
        let e = find_in(v, start, j, '=');
        assert(param_key(p) =~= v@.subrange(start as int, e as int));
        let ghost before = (token@, rest@);
        if range_eq(v, start, e, &key) {
            assert(e < j);
            let f = find_in(v, e + 1, j, '=');
            assert(p.subrange(find_char(p, '=') + 1, p.len() as int) =~= v@.subrange(e + 1, j as int));
            assert(param_value(p) =~= v@.subrange(e + 1, f as int));
            token = Vec::new();
            push_range(&mut token, v, e + 1, f);
        } else {
            let sep = if rest.len() == 0 { '?' } else { '&' };
            rest.push(sep);
            push_range(&mut rest, v, start, j);
        }
        proof {
            let done2 = done.push(p);
            assert(done2.drop_last() =~= done);
            assert(done2.last() == p);
            assert((token@, rest@) == token_and_query(done2));
            done = done2;
            if j < n {
                assert(split_at_char(v@, '&') =~= done + split_at_char(v@.subrange(j + 1, n as int), '&'));
            } else {
                assert(split_at_char(v@, '&') =~= done);
            }
        }
        if j == n {
            break;
        }
        start = j + 1;
    }
    (token, rest)
}

/// How long the access-token cookie is kept: ten years, in seconds.
pub fn access_token_max_age_secs() -> (r: u32)
    ensures
        r == 315360000,
{
    365 * 10 * 24 * 60 * 60
}

/// The lapp a path goes to for the access-token cookie: its first segment,
/// or the main lapp.
pub open spec fn cookie_lapp(path: Seq<char>) -> Seq<char> {
    if first_segment(path).len() == 0 {
        "laplace"@
    } else {
        first_segment(path)
    }
}

/// The redirect for a request whose query carries an access token: to the
/// same path with the token parameters taken out, setting the token as a
/// cookie for the lapp. `None` where the query carries no token, or where
/// the cookie is no valid header value.
pub fn query_access_token_redirect(path: &str, query: &str, host: &str) -> (r: Option<TokenRedirect>)
    requires
        has_access_token_param(query@) ==> access_token_params_complete(query@),
    ensures
        ({
            let (token, rest) = token_and_query(split_at_char(query@, '&'));
            let cookie = cookie_text("access_token"@, token, true, seq!['/'] + cookie_lapp(path@), host@, 315360000);
            match r {
                Some(redirect) => {
                    &&& has_access_token_param(query@)
                    &&& is_header_value(vstd::utf8::encode_utf8(cookie))
                    &&& redirect.location@ == path@ + rest
                    &&& redirect.set_cookie@ == cookie
                },
                None => !has_access_token_param(query@) || !is_header_value(vstd::utf8::encode_utf8(cookie)),
            }
        }),
{
    let v = chars_of(query);
    if !carries_access_token(&v) {
        return None;
    }
    let (token, rest) = take_access_token(&v);
    let segment = lapp_name_of_path(path);
    let mut cookie_path = String::new();
    crate::text::push_char(&mut cookie_path, '/');
    if segment.as_str().unicode_len() == 0 {
        cookie_path.append(crate::lapp::main_name());
    } else {
        cookie_path.append(segment.as_str());
    }
    let token_text = string_of_range(&token, 0, token.len());
    assert(token@.subrange(0, token@.len() as int) =~= token@);
    let cookie = build_cookie("access_token", token_text.as_str(), host, cookie_path.as_str(), true, access_token_max_age_secs());
    if !is_valid_header_text(cookie.as_str()) {
        return None;
    }
    let rest_text = string_of_range(&rest, 0, rest.len());
    assert(rest@.subrange(0, rest@.len() as int) =~= rest@);
    let mut location = path.to_owned();
    location.append(rest_text.as_str());
    Some(TokenRedirect { location, set_cookie: cookie })
}

// ---------------------------------------------------------------------------
// Access check
// ---------------------------------------------------------------------------

/// The access token of the first `Cookie` header that is readable text and
/// parses as the cookie `access_token`; nothing where there is none.
pub open spec fn token_from_cookies(values: Seq<Seq<u8>>) -> Seq<char>
    decreases values.len(),
{
    if values.len() == 0 {
        Seq::empty()
    } else {
        match header_text(values[0]) {
            Some(text) => match cookie_parse(text) {
                Some((name, value)) => if name == "access_token"@ {
                    value
                } else {
                    token_from_cookies(values.drop_first())
                },
                None => token_from_cookies(values.drop_first()),
            },
            None => token_from_cookies(values.drop_first()),
        }
    }
}

pub open spec fn bytes_views(values: Seq<Vec<u8>>) -> Seq<Seq<u8>> {
    values.map_values(|v: Vec<u8>| v@)
}

/// The access token that the request's `Cookie` headers carry.
pub fn access_token_from_cookies(values: &Vec<Vec<u8>>) -> (r: String)
    ensures
        r@ == token_from_cookies(bytes_views(values@)),
{
    let key = chars_of("access_token");
    let n = values.len();
    let ghost all = bytes_views(values@);
    assert(all.subrange(0, n as int) =~= all);
    for i in 0..n
        invariant
            n == values@.len(),
            all == bytes_views(values@),
            key@ == "access_token"@,
            token_from_cookies(all) == token_from_cookies(all.subrange(i as int, n as int)),
    {
        let ghost tail = all.subrange(i as int, n as int);
        assert(tail[0] == values@[i as int]@);
        assert(tail.drop_first() =~= all.subrange(i + 1, n as int));
        if let Some(text) = header_value_text(values[i].as_slice()) {
            if let Some((name, value)) = parse_cookie(text.as_str()) {
                let name_chars = chars_of(name.as_str());
                if range_eq(&name_chars, 0, name_chars.len(), &key) {
                    assert(name_chars@.subrange(0, name_chars@.len() as int) =~= name_chars@);
                    return value;
                }
                assert(name_chars@.subrange(0, name_chars@.len() as int) =~= name_chars@);
            }
        }
    }
    assert(all.subrange(n as int, n as int) =~= Seq::<Seq<u8>>::empty());
    String::new()
}

/// Whether a request may go on.
#[derive(Debug, Clone, Copy, PartialEq, Eq, Structural)]
pub enum Access {
    Granted,
    Forbidden,
}

pub open spec fn token_or_empty(t: Option<String>) -> Seq<char> {
    match t {
        Some(t) => t@,
        None => Seq::empty(),
    }
}

/// The access check: requests to the root, to `static` and to `favicon.ico`
/// pass; the main lapp wants the server's token; any other lapp wants its
/// own token (none configured is the empty token) and must be known.
pub fn check_access(
    manager: &LappsManager,
    path: &str,
    cookie_values: &Vec<Vec<u8>>,
    laplace_access_token: &str,
) -> (r: Result<Access, ServerError>)
    requires
        manager.wf(),
    ensures
        ({
            let name = first_segment(path@);
            let token = token_from_cookies(bytes_views(cookie_values@));
            if name.len() == 0 || name == "static"@ || name == "favicon.ico"@ {
                r == Ok::<Access, ServerError>(Access::Granted)
            } else if name == "laplace"@ {
                r == Ok::<Access, ServerError>(if token == laplace_access_token@ { Access::Granted } else { Access::Forbidden })
            } else if !manager.has_lapp(name) {
                r matches Err(ServerError::LappNotFound(n)) && n@ == name
            } else {
                r == Ok::<Access, ServerError>(
                    if token == token_or_empty(manager.settings_of(name).application.access_token) {
                        Access::Granted
                    } else {
                        Access::Forbidden
                    },
                )
            }
        }),
{
    let lapp_name = lapp_name_of_path(path);
    if lapp_name.as_str().unicode_len() == 0 || str_eq(lapp_name.as_str(), "static") || str_eq(lapp_name.as_str(), "favicon.ico") {
        return Ok(Access::Granted);
    }
    let access_token = access_token_from_cookies(cookie_values);
    if crate::lapp::is_main(lapp_name.as_str()) {
        if str_eq(access_token.as_str(), laplace_access_token) {
            return Ok(Access::Granted);
        } else {
            return Ok(Access::Forbidden);
        }
    }
    let settings = manager.lapp_settings(lapp_name.as_str())?;
    let granted = match &settings.application.access_token {
        Some(expected) => str_eq(access_token.as_str(), expected.as_str()),
        None => {
            let empty = access_token.as_str().unicode_len() == 0;
            assert(empty ==> access_token@ =~= Seq::<char>::empty());
            empty
        },
    };
    if granted {
        Ok(Access::Granted)
    } else {
        Ok(Access::Forbidden)
    }
}

/// A self-signed certificate is made only where neither the certificate
/// nor the private key file exists.
pub fn needs_self_signed_certificate(certificate_exists: bool, private_key_exists: bool) -> (r: bool)
    ensures
        r == (!certificate_exists && !private_key_exists),
{
    !certificate_exists && !private_key_exists
}

/// The private key used for TLS: the first one read from the key file;
/// `MissingPrivateKey` where the file holds none.
pub fn first_private_key(keys: Vec<Vec<u8>>) -> (r: Result<Vec<u8>, AppError>)
    ensures
        keys@.len() > 0 ==> (r matches Ok(k) && k@ == keys@[0]@),
        keys@.len() == 0 ==> r == Err::<Vec<u8>, AppError>(AppError::MissingPrivateKey),
{
    let mut keys = keys;
    if keys.len() > 0 {
        Ok(keys.swap_remove(0))
    } else {
        Err(AppError::MissingPrivateKey)
    }
}

// ---------------------------------------------------------------------------
// The redirect takes the token out of the query
// ---------------------------------------------------------------------------

proof fn lemma_split_pieces(s: Seq<char>, c: char)
    ensures
        forall|k: int, j: int| 0 <= k < split_at_char(s, c).len() && 0 <= j < split_at_char(s, c)[k].len()
            ==> #[trigger] split_at_char(s, c)[k][j] != c,
    decreases s.len(),
{
    let i = find_char(s, c);
    lemma_find_char_bounds(s, c);
    if 0 <= i < s.len() {
        let rest = s.subrange(i + 1, s.len() as int);
        lemma_split_pieces(rest, c);
        let parts = split_at_char(s, c);
        assert(parts == seq![s.subrange(0, i)] + split_at_char(rest, c));
        assert forall|k: int, j: int| 0 <= k < parts.len() && 0 <= j < parts[k].len() implies #[trigger] parts[k][j] != c by {
            if k == 0 {
                assert(parts[0] == s.subrange(0, i));
                assert(s.subrange(0, i)[j] == s[j]);
            } else {
                assert(parts[k] == split_at_char(rest, c)[k - 1]);
            }
        }
    }
}

/// A parameter that starts with `access_token=` is keyed `access_token`.
proof fn lemma_token_prefix_key(p: Seq<char>)
    requires
        p.len() >= 13,
        p.subrange(0, 13) == "access_token="@,
    ensures
        param_key(p) == "access_token"@,
{
    reveal_strlit("access_token=");
    reveal_strlit("access_token");
    assert forall|j: int| 0 <= j < 12 implies p[j] != '=' by {
        assert(p.subrange(0, 13)[j] == p[j]);
    }
    assert(p.subrange(0, 13)[12] == p[12]);
    lemma_find_char(p, '=', 12);
    assert(p.subrange(0, 12) =~= "access_token"@);
}

/// A parameter without `&` that carries an access token is keyed `access_token`.
proof fn lemma_piece_token(p: Seq<char>)
    requires
        forall|j: int| 0 <= j < p.len() ==> p[j] != '&',
        has_access_token_param(p),
    ensures
        param_key(p) == "access_token"@,
{
    reveal_strlit("&access_token=");
    if exists|i: int| 0 <= i && i + 14 <= p.len() && #[trigger] p.subrange(i, i + 14) == "&access_token="@ {
        let i = choose|i: int| 0 <= i && i + 14 <= p.len() && #[trigger] p.subrange(i, i + 14) == "&access_token="@;
        assert(p.subrange(i, i + 14)[0] == p[i]);
        assert(false);
    } else {
        lemma_token_prefix_key(p);
    }
}

/// Joining a query without a token and a parameter without `&` that is not
/// keyed `access_token` gives a query without a token.
proof fn lemma_join_keeps_out_token(a: Seq<char>, p: Seq<char>)
    requires
        !has_access_token_param(a),
        forall|j: int| 0 <= j < p.len() ==> p[j] != '&',
        param_key(p) != "access_token"@,
    ensures
        !has_access_token_param(a + seq!['&'] + p),
{
    reveal_strlit("access_token=");
    reveal_strlit("&access_token=");
    let q = a + seq!['&'] + p;
    let n = a.len() as int;
    assert(q[n] == '&');
    if q.len() >= 13 && q.subrange(0, 13) == "access_token="@ {
        if n >= 13 {
            assert(a.subrange(0, 13) =~= q.subrange(0, 13));
        } else {
            assert(q.subrange(0, 13)[n] == q[n]);
        }
        assert(false);
    }
    if exists|i: int| 0 <= i && i + 14 <= q.len() && #[trigger] q.subrange(i, i + 14) == "&access_token="@ {
        let i = choose|i: int| 0 <= i && i + 14 <= q.len() && #[trigger] q.subrange(i, i + 14) == "&access_token="@;
        let w = q.subrange(i, i + 14);
        if i + 14 <= n {
            assert(a.subrange(i, i + 14) =~= w);
            assert(false);
        } else if i == n {
            assert(p.len() >= 13);
            assert(p.subrange(0, 13) =~= w.subrange(1, 14));
            assert(w.subrange(1, 14) =~= "access_token="@);
            lemma_token_prefix_key(p);
            assert(false);
        } else if i < n {
            assert(w[n - i] == q[n]);
            assert(false);
        } else {
            assert(w[0] == q[i]);
            assert(q[i] == p[i - n - 1]);
            assert(false);
        }
    }
}

/// The query left after the token is taken out: empty, or `?` and
/// parameters none of which carries a token.
proof fn lemma_rest_has_no_token(params: Seq<Seq<char>>)
    requires
        forall|k: int, j: int| 0 <= k < params.len() && 0 <= j < params[k].len() ==> #[trigger] params[k][j] != '&',
    ensures
        ({
            let rest = token_and_query(params).1;
            rest.len() == 0 || (rest[0] == '?' && !has_access_token_param(rest.subrange(1, rest.len() as int)))
        }),
    decreases params.len(),
{
    if params.len() > 0 {
        let init = params.drop_last();
        assert forall|k: int, j: int| 0 <= k < init.len() && 0 <= j < init[k].len() implies #[trigger] init[k][j] != '&' by {
            assert(init[k] == params[k]);
        }
        lemma_rest_has_no_token(init);
        let (t, q) = token_and_query(init);
        let p = params.last();
        assert(p == params[params.len() - 1]);
        assert forall|j: int| 0 <= j < p.len() implies p[j] != '&' by {
            assert(params[params.len() - 1][j] != '&');
        }
        if param_key(p) != "access_token"@ {
            let rest = q + seq![if q.len() == 0 { '?' } else { '&' }] + p;
            if q.len() == 0 {
                assert(rest.subrange(1, rest.len() as int) =~= p);
                if has_access_token_param(p) {
                    lemma_piece_token(p);
                }
            } else {
                let a = q.subrange(1, q.len() as int);
                assert(rest.subrange(1, rest.len() as int) =~= a + seq!['&'] + p);
                lemma_join_keeps_out_token(a, p);
            }
        }
    }
}

/// After the redirect, the query the request is sent back with carries no
/// access token, so the redirected request is not redirected again.
pub proof fn lemma_redirect_drops_token(query: Seq<char>)
    ensures
        ({
            let rest = token_and_query(split_at_char(query, '&')).1;
            rest.len() == 0 || (rest[0] == '?' && !has_access_token_param(rest.subrange(1, rest.len() as int)))
        }),
{
    lemma_split_pieces(query, '&');
    lemma_rest_has_no_token(split_at_char(query, '&'));
}

} // verus!
