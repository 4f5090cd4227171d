//! Turn address-bar text into a URL: full URLs and bare domains navigate
//! directly; anything else becomes a web search with the chosen engine.
//! Also: internal-page detection (is this URL one of our bundled pages?).

use crate::addr::{
    address, gap, ip, is_ip, is_ipv4, is_ipv6, is_local_ipv4, is_loopback_ipv6, is_octet, local_ipv4,
    loopback_ipv6, octet,
};
use crate::number::{all_digits, digits, lemma_digits, only_digits, value};
use crate::text::{
    any_space, ascii_lower, before, chars_of, digit, find_first, find_last, first_of, has_prefix,
    is_digit, is_letter, is_space, joined, last_of, law_join_undoes_split, law_split_undoes_join,
    lemma_first_of, lemma_joined_all,
    lemma_trimmed_same, letter, lower, same_ignoring_case, split, split_on, string_of, text_eq,
    texts, trim, trimmed,
};
use crate::web::{
    base_name, form_decode, form_encode, form_encoded, form_pairs, https_url, name_after_slash,
    opt_text, opt_url, pair_texts, parse_url, plain_host, plain_key, plain_path, plain_query,
    url_parsed, UrlParts, WebUrl,
};
use vstd::prelude::*;
use vstd::slice::slice_subrange;

verus! {

/// Internal home/new-tab page.
pub const NEW_TAB_PAGE: &'static str = "newtab.html";

pub const SETTINGS_PAGE: &'static str = "settings.html";

pub const HISTORY_PAGE: &'static str = "history.html";

pub const SOURCE_PAGE: &'static str = "source.html";

// ---- hosts --------------------------------------------------------------

/// What stands before the path, query and fragment.
pub open spec fn authority(s: Seq<char>) -> Seq<char> {
    before(s, seq!['/', '?', '#'])
}

/// An authority without a port at its end.
pub open spec fn without_port(a: Seq<char>) -> Seq<char> {
    let k = last_of(a, ':');
    if k >= 0 && all_digits(a.skip(k + 1)) {
        a.take(k)
    } else {
        a
    }
}

pub open spec fn is_label(l: Seq<char>) -> bool {
    &&& l.len() > 0
    &&& forall|i: int|
        0 <= i < l.len() ==> is_letter(#[trigger] l[i]) || is_digit(l[i]) || l[i] == '-'
}

pub open spec fn is_tld(l: Seq<char>) -> bool {
    l.len() >= 2 && forall|i: int| 0 <= i < l.len() ==> is_letter(#[trigger] l[i])
}

/// At least two labels, the last of them two letters or more.
pub open spec fn is_domain(host: Seq<char>) -> bool {
    let f = split(host, '.');
    &&& f.len() >= 2
    &&& is_tld(f.last())
    &&& forall|i: int| 0 <= i < f.len() - 1 ==> is_label(#[trigger] f[i])
}

pub open spec fn is_localhost(host: Seq<char>) -> bool {
    ascii_lower(host) == ascii_lower("localhost"@)
}

/// Is the text meant as a host (`example.com`, `localhost:8080`,
/// `192.168.1.1`, `[::1]`) rather than as a search (`1.5`, `e.g.`)?
pub open spec fn is_host_like(s: Seq<char>) -> bool {
    let a = authority(s);
    if a.len() > 0 && a[0] == '[' {
        a.contains(']')
    } else {
        let host = without_port(a);
        is_localhost(host) || is_ip(host) || is_domain(host)
    }
}

/// The text between the brackets of an authority that begins with one.
pub open spec fn bracketed(a: Seq<char>) -> Seq<char> {
    before(a.skip(1), seq![']'])
}

/// Is the host of a bare text a loopback, private or link-local one? The host is
/// the literal between brackets, or what stands before the first colon, which is
/// never an IPv6 address.
pub open spec fn is_near(s: Seq<char>) -> bool {
    let a = authority(s);
    if a.len() > 0 && a[0] == '[' {
        a.contains(']') && is_loopback_ipv6(bracketed(a))
    } else {
        let host = before(a, seq![':']);
        is_localhost(host) || is_local_ipv4(host)
    }
}

/// Plain `http` for loopback, private and link-local hosts, `https` for all
/// others.
pub open spec fn scheme_text(s: Seq<char>) -> Seq<char> {
    if is_near(s) {
        "http"@
    } else {
        "https"@
    }
}

fn label(l: &[char]) -> (r: bool)
    ensures
        r == is_label(l@),
{
    if l.len() == 0 {
        return false;
    }
    let mut i: usize = 0;
    while i < l.len()
        invariant
            i <= l@.len(),
            forall|j: int|
                0 <= j < i ==> is_letter(#[trigger] l@[j]) || is_digit(l@[j]) || l@[j] == '-',
        decreases l@.len() - i,
    {
        if !(letter(l[i]) || digit(l[i]) || l[i] == '-') {
            return false;
        }
        i += 1;
    }
    true
}

fn tld(l: &[char]) -> (r: bool)
    ensures
        r == is_tld(l@),
{
    if l.len() < 2 {
        return false;
    }
    let mut i: usize = 0;
    while i < l.len()
        invariant
            i <= l@.len(),
            forall|j: int| 0 <= j < i ==> is_letter(#[trigger] l@[j]),
        decreases l@.len() - i,
    {
        if !letter(l[i]) {
            return false;
        }
        i += 1;
    }
    true
}

fn domain(host: &[char]) -> (r: bool)
    ensures
        r == is_domain(host@),
{
    let f = split_on(host, '.');
    let ghost t = texts(f@);
    proof {
        assert(t.len() == f@.len());
        assert(forall|i: int| 0 <= i < f@.len() ==> t[i] == (#[trigger] f@[i])@);
    }
    let n = f.len();
    if n < 2 || !tld(f[n - 1].as_slice()) {
        assert(n >= 2 ==> t.last() == f@[n - 1]@);
        return false;
    }
    let mut i: usize = 0;
    while i < n - 1
        invariant
            n == f@.len(),
            2 <= n,
            i <= n - 1,
            t == texts(f@),
            t == split(host@, '.'),
            t.len() == n,
            forall|j: int| 0 <= j < n ==> t[j] == (#[trigger] f@[j])@,
            forall|j: int| 0 <= j < i ==> is_label(#[trigger] t[j]),
        decreases n - i,
    {
        if !label(f[i].as_slice()) {
            assert(!is_label(t[i as int]));
            return false;
        }
        i += 1;
    }
    assert(t.last() == f@[n - 1]@);
    true
}

fn localhost(host: &[char]) -> (r: bool)
    ensures
        r == is_localhost(host@),
{
    same_ignoring_case(host, chars_of("localhost").as_slice())
}

fn has_char(s: &[char], c: char) -> (r: bool)
    ensures
        r == s@.contains(c),
{
    let mut i: usize = 0;
    while i < s.len()
        invariant
            i <= s@.len(),
            forall|j: int| 0 <= j < i ==> s@[j] != c,
        decreases s@.len() - i,
    {
        if s[i] == c {
            return true;
        }
        i += 1;
    }
    false
}

fn authority_of(s: &[char]) -> (r: &[char])
    ensures
        r@ == authority(s@),
{
    let seps = vec!['/', '?', '#'];
    assert(seps@ == seq!['/', '?', '#']);
    let end = find_first(s, seps.as_slice());
    slice_subrange(s, 0, end)
}

fn portless(a: &[char]) -> (r: &[char])
    ensures
        r@ == without_port(a@),
{
    let n = a.len();
    match find_last(a, ':') {
        Some(k) => {
            let port = slice_subrange(a, k + 1, n);
            assert(port@ == a@.skip(k + 1));
            if only_digits(port) {
                slice_subrange(a, 0, k)
            } else {
                a
            }
        },
        None => a,
    }
}

/// Does `s` (no scheme, no white space) look like something the user means as
/// a host?
pub fn looks_like_host(s: &[char]) -> (r: bool)
    ensures
        r == is_host_like(s@),
{
    let a = authority_of(s);
    if a.len() > 0 && a[0] == '[' {
        return has_char(a, ']');
    }
    let host = portless(a);
    localhost(host) || ip(host) || domain(host)
}

/// Scheme for a bare host: plain `http` for loopback and private addresses
/// (servers there rarely have a certificate), `https` for everything else.
pub fn scheme_for(host: &[char]) -> (r: &'static str)
    ensures
        r@ == scheme_text(host@),
{
    let a = authority_of(host);
    let near = if a.len() > 0 && a[0] == '[' {
        let rest = slice_subrange(a, 1, a.len());
        let close = vec![']'];
        assert(close@ == seq![']']);
        let end = find_first(rest, close.as_slice());
        assert(rest@ == a@.skip(1));
        has_char(a, ']') && loopback_ipv6(slice_subrange(rest, 0, end))
    } else {
        let colon = vec![':'];
        assert(colon@ == seq![':']);
        let end = find_first(a, colon.as_slice());
        let bare = slice_subrange(a, 0, end);
        localhost(bare) || local_ipv4(bare)
    };
    if near {
        "http"
    } else {
        "https"
    }
}

// ---- searches -----------------------------------------------------------

/// Host, path and query key of an engine's results page.
pub open spec fn engine_parts(engine: Seq<char>) -> (Seq<char>, Seq<char>, Seq<char>) {
    if engine == "google"@ {
        ("www.google.com"@, "/search"@, "q"@)
    } else if engine == "bing"@ {
        ("www.bing.com"@, "/search"@, "q"@)
    } else if engine == "brave"@ {
        ("search.brave.com"@, "/search"@, "q"@)
    } else if engine == "ecosia"@ {
        ("www.ecosia.org"@, "/search"@, "q"@)
    } else if engine == "startpage"@ {
        ("www.startpage.com"@, "/sp/search"@, "query"@)
    } else if engine == "yahoo"@ {
        ("search.yahoo.com"@, "/search"@, "p"@)
    } else {
        ("duckduckgo.com"@, "/"@, "q"@)
    }
}

/// The URL of a search for `terms`.
pub open spec fn search_text(engine: Seq<char>, terms: Seq<char>) -> Seq<char> {
    let (host, path, key) = engine_parts(engine);
    https_url(host, path, key + "="@ + form_encoded(terms))
}

/// Host, path and query key of an engine's results page; an unknown engine is
/// DuckDuckGo.
pub fn search_template(engine: &str) -> (r: (&'static str, &'static str, &'static str))
    ensures
        (r.0@, r.1@, r.2@) == engine_parts(engine@),
{
    if text_eq(engine, "google") {
        ("www.google.com", "/search", "q")
    } else if text_eq(engine, "bing") {
        ("www.bing.com", "/search", "q")
    } else if text_eq(engine, "brave") {
        ("search.brave.com", "/search", "q")
    } else if text_eq(engine, "ecosia") {
        ("www.ecosia.org", "/search", "q")
    } else if text_eq(engine, "startpage") {
        ("www.startpage.com", "/sp/search", "query")
    } else if text_eq(engine, "yahoo") {
        ("search.yahoo.com", "/search", "p")
    } else {
        ("duckduckgo.com", "/", "q")
    }
}

proof fn lemma_engine_parts(engine: Seq<char>)
    ensures
        plain_host(engine_parts(engine).0),
        plain_path(engine_parts(engine).1),
        plain_key(engine_parts(engine).2),
{
    assert(plain_host("www.google.com"@)) by {
        reveal_strlit("www.google.com");
        assert("www.google.com"@ =~= seq!['w', 'w', 'w', '.', 'g', 'o', 'o', 'g', 'l', 'e', '.', 'c', 'o', 'm']);
    }
    assert(plain_host("www.bing.com"@)) by {
        reveal_strlit("www.bing.com");
        assert("www.bing.com"@ =~= seq!['w', 'w', 'w', '.', 'b', 'i', 'n', 'g', '.', 'c', 'o', 'm']);
    }
    assert(plain_host("search.brave.com"@)) by {
        reveal_strlit("search.brave.com");
        assert("search.brave.com"@ =~= seq!['s', 'e', 'a', 'r', 'c', 'h', '.', 'b', 'r', 'a', 'v', 'e', '.', 'c', 'o', 'm']);
    }
    assert(plain_host("www.ecosia.org"@)) by {
        reveal_strlit("www.ecosia.org");
        assert("www.ecosia.org"@ =~= seq!['w', 'w', 'w', '.', 'e', 'c', 'o', 's', 'i', 'a', '.', 'o', 'r', 'g']);
    }
    assert(plain_host("www.startpage.com"@)) by {
        reveal_strlit("www.startpage.com");
        assert("www.startpage.com"@ =~= seq!['w', 'w', 'w', '.', 's', 't', 'a', 'r', 't', 'p', 'a', 'g', 'e', '.', 'c', 'o', 'm']);
    }
    assert(plain_host("search.yahoo.com"@)) by {
        reveal_strlit("search.yahoo.com");
        assert("search.yahoo.com"@ =~= seq!['s', 'e', 'a', 'r', 'c', 'h', '.', 'y', 'a', 'h', 'o', 'o', '.', 'c', 'o', 'm']);
    }
    assert(plain_host("duckduckgo.com"@)) by {
        reveal_strlit("duckduckgo.com");
        assert("duckduckgo.com"@ =~= seq!['d', 'u', 'c', 'k', 'd', 'u', 'c', 'k', 'g', 'o', '.', 'c', 'o', 'm']);
    }
    assert(plain_path("/search"@)) by {
        reveal_strlit("/search");
        assert("/search"@ =~= seq!['/', 's', 'e', 'a', 'r', 'c', 'h']);
    }
    assert(plain_path("/sp/search"@)) by {
        reveal_strlit("/sp/search");
        assert("/sp/search"@ =~= seq!['/', 's', 'p', '/', 's', 'e', 'a', 'r', 'c', 'h']);
    }
    assert(plain_path("/"@)) by {
        reveal_strlit("/");
        assert("/"@ =~= seq!['/']);
    }
    assert(plain_key("q"@)) by {
        reveal_strlit("q");
        assert("q"@ =~= seq!['q']);
    }
    assert(plain_key("query"@)) by {
        reveal_strlit("query");
        assert("query"@ =~= seq!['q', 'u', 'e', 'r', 'y']);
    }
    assert(plain_key("p"@)) by {
        reveal_strlit("p");
        assert("p"@ =~= seq!['p']);
    }
}

proof fn lemma_search_query_plain(key: Seq<char>, encoded: Seq<char>)
    requires
        plain_key(key),
        plain_query(encoded),
    ensures
        plain_query(key + "="@ + encoded),
{
    reveal_strlit("=");
    let q = key + "="@ + encoded;
    assert forall|i: int| 0 <= i < q.len() implies crate::web::is_form_char(#[trigger] q[i]) by {
        if i < key.len() {
            assert(q[i] == key[i]);
        } else if i == key.len() {
            assert(q[i] == "="@[0]);
        } else {
            assert(q[i] == encoded[i - key.len() - 1]);
        }
    }
}

/// The query key of an engine's results page at this host and path.
pub open spec fn results_key(host: Seq<char>, path: Seq<char>) -> Option<Seq<char>> {
    if host == "www.startpage.com"@ && path == "/sp/search"@ {
        Some("query"@)
    } else if host == "search.yahoo.com"@ && path == "/search"@ {
        Some("p"@)
    } else if (host == "www.google.com"@ || host == "www.bing.com"@ || host == "search.brave.com"@
        || host == "www.ecosia.org"@) && path == "/search"@ {
        Some("q"@)
    } else if host == "duckduckgo.com"@ && path == "/"@ {
        Some("q"@)
    } else {
        None
    }
}

/// The value of the first pair with this name.
pub open spec fn first_value(pairs: Seq<(Seq<char>, Seq<char>)>, key: Seq<char>) -> Option<Seq<char>>
    decreases pairs.len(),
{
    if pairs.len() == 0 {
        None
    } else if pairs[0].0 == key {
        Some(pairs[0].1)
    } else {
        first_value(pairs.skip(1), key)
    }
}

/// The terms of a search, given the parts of its results page's URL and the
/// decoded pairs of its query.
pub open spec fn terms_in(
    host: Seq<char>,
    path: Seq<char>,
    pairs: Seq<(Seq<char>, Seq<char>)>,
) -> Option<Seq<char>> {
    match results_key(host, path) {
        Some(key) => match first_value(pairs, key) {
            Some(v) if v.len() > 0 => Some(v),
            _ => None,
        },
        None => None,
    }
}

/// The terms of a past web search, if the URL is an engine's results page.
pub open spec fn search_terms(url: Seq<char>) -> Option<Seq<char>> {
    match url_parsed(url) {
        Some(u) => match (u.host, u.query) {
            (Some(host), Some(query)) => terms_in(host, u.path, form_pairs(query)),
            _ => None,
        },
        None => None,
    }
}

fn key_of(host: &str, path: &str) -> (r: Option<&'static str>)
    ensures
        match r {
            Some(k) => results_key(host@, path@) == Some(k@),
            None => results_key(host@, path@) is None,
        },
{
    if text_eq(host, "www.startpage.com") && text_eq(path, "/sp/search") {
        Some("query")
    } else if text_eq(host, "search.yahoo.com") && text_eq(path, "/search") {
        Some("p")
    } else if (text_eq(host, "www.google.com") || text_eq(host, "www.bing.com") || text_eq(
        host,
        "search.brave.com",
    ) || text_eq(host, "www.ecosia.org")) && text_eq(path, "/search") {
        Some("q")
    } else if text_eq(host, "duckduckgo.com") && text_eq(path, "/") {
        Some("q")
    } else {
        None
    }
}

/// The search terms among the decoded pairs of a results page's query.
pub fn terms_among(host: &str, path: &str, pairs: &Vec<(String, String)>) -> (r: Option<String>)
    ensures
        opt_text(r) == terms_in(host@, path@, pair_texts(pairs@)),
{
    let key = match key_of(host, path) {
        Some(k) => k,
        None => return None,
    };
    let ghost all = pair_texts(pairs@);
    let mut i: usize = 0;
    assert(all.skip(0) == all);
    while i < pairs.len()
        invariant
            i <= pairs@.len(),
            all == pair_texts(pairs@),
            first_value(all, key@) == first_value(all.skip(i as int), key@),
            results_key(host@, path@) == Some(key@),
        decreases pairs@.len() - i,
    {
        let p = &pairs[i];
        proof {
            assert(all.skip(i as int)[0] == (p.0@, p.1@));
            assert(all.skip(i as int).skip(1) == all.skip(i + 1));
        }
        if text_eq(p.0.as_str(), key) {
            if p.1.as_str().is_empty() {
                return None;
            }
            return Some(p.1.clone());
        }
        i += 1;
    }
    None
}

/// The terms of a past web search, if `url` is a results page of one of the
/// engines.
pub fn search_query_of(url: &str) -> (r: Option<String>)
    ensures
        opt_text(r) == search_terms(url@),
{
    match parse_url(url) {
        Some(u) => match (u.host, u.query) {
            (Some(host), Some(query)) => {
                let pairs = form_decode(query.as_str());
                terms_among(host.as_str(), u.path.as_str(), &pairs)
            },
            _ => None,
        },
        None => None,
    }
}

proof fn lemma_engine_key(engine: Seq<char>)
    ensures
        results_key(engine_parts(engine).0, engine_parts(engine).1) == Some(
            engine_parts(engine).2,
        ),
{
    reveal_strlit("www.google.com");
    reveal_strlit("www.bing.com");
    reveal_strlit("search.brave.com");
    reveal_strlit("www.ecosia.org");
    reveal_strlit("www.startpage.com");
    reveal_strlit("search.yahoo.com");
    reveal_strlit("duckduckgo.com");
    reveal_strlit("/search");
    reveal_strlit("/sp/search");
    reveal_strlit("/");
    assert("www.google.com"@.len() == 14);
    assert("www.bing.com"@.len() == 12);
    assert("search.brave.com"@.len() == 16);
    assert("www.ecosia.org"@.len() == 14);
    assert("www.startpage.com"@.len() == 17);
    assert("search.yahoo.com"@.len() == 16);
    assert("duckduckgo.com"@.len() == 14);
    assert("/search"@.len() == 7);
    assert("/sp/search"@.len() == 10);
    assert("/"@.len() == 1);
    assert("search.yahoo.com"@[7] != "search.brave.com"@[7]);
}

/// The parts of the URL of a search for `terms`.
pub open spec fn search_parts(engine: Seq<char>, terms: Seq<char>) -> UrlParts {
    let (host, path, key) = engine_parts(engine);
    UrlParts {
        href: search_text(engine, terms),
        scheme: "https"@,
        host: Some(host),
        path,
        query: Some(key + "="@ + form_encoded(terms)),
    }
}

/// The URL of a web search for `terms` with `engine`. Every text can be
/// searched for, and the terms of the search can be read back off its URL.
pub fn search_url(terms: &str, engine: &str) -> (r: Option<WebUrl>)
    ensures
        opt_url(r) == Some(search_parts(engine@, terms@)),
        url_parsed(search_text(engine@, terms@)) == opt_url(r),
        terms@.len() > 0 ==> search_terms(search_text(engine@, terms@)) == Some(terms@),
{
    let (host, path, key) = search_template(engine);
    let encoded = form_encode(terms);
    let mut s = "https://".to_owned();
    s.append(host);
    s.append(path);
    s.append("?");
    s.append(key);
    s.append("=");
    s.append(encoded.as_str());
    proof {
        let query = key@ + "="@ + encoded@;
        assert(s@ =~= https_url(host@, path@, query));
        lemma_engine_parts(engine@);
        lemma_search_query_plain(key@, encoded@);
        lemma_engine_key(engine@);
        reveal_with_fuel(first_value, 2);
    }
    parse_url(s.as_str())
}

// ---- the address bar ----------------------------------------------------

/// The schemes of texts that are taken as full URLs.
pub open spec fn is_web_scheme(s: Seq<char>) -> bool {
    s == "http"@ || s == "https"@ || s == "file"@ || s == "about"@ || s == "data"@
}

pub open spec fn spaceless(s: Seq<char>) -> bool {
    forall|i: int| 0 <= i < s.len() ==> !is_space(#[trigger] s[i])
}

/// The URL of a bare host, if the text is one.
pub open spec fn host_url(s: Seq<char>) -> Option<UrlParts> {
    if spaceless(s) && is_host_like(s) {
        url_parsed(scheme_text(s) + "://"@ + s)
    } else {
        None
    }
}

/// Where address-bar text leads: nowhere when it is blank; to the URL that it
/// is; to the host that it names; else to a search.
pub open spec fn destination(input: Seq<char>, engine: Seq<char>) -> Option<UrlParts> {
    let s = trimmed(input);
    if s.len() == 0 {
        None
    } else {
        match url_parsed(s) {
            Some(u) if is_web_scheme(u.scheme) => Some(u),
            _ => match host_url(s) {
                Some(u) => Some(u),
                None => Some(search_parts(engine, s)),
            },
        }
    }
}

fn web_scheme(s: &str) -> (r: bool)
    ensures
        r == is_web_scheme(s@),
{
    text_eq(s, "http") || text_eq(s, "https") || text_eq(s, "file") || text_eq(s, "about")
        || text_eq(s, "data")
}

/// What [`to_url`] does with trimmed text once the `url` crate has said
/// whether the text parses as it stands (`full`) and as a bare host behind a
/// scheme (`hosted`).
pub fn choose_url(
    s: &[char],
    full: Option<WebUrl>,
    hosted: Option<WebUrl>,
    engine: &str,
) -> (r: Option<WebUrl>)
    requires
        s@.len() > 0,
    ensures
        opt_url(r) == (match full {
            Some(u) if is_web_scheme(u@.scheme) => Some(u@),
            _ => match hosted {
                Some(u) if spaceless(s@) && is_host_like(s@) => Some(u@),
                _ => Some(search_parts(engine@, s@)),
            },
        }),
{
    if let Some(u) = full {
        if web_scheme(u.scheme.as_str()) {
            return Some(u);
        }
    }
    if let Some(u) = hosted {
        if !any_space(s) && looks_like_host(s) {
            return Some(u);
        }
    }
    search_url(string_of(s).as_str(), engine)
}

/// Parse address-bar `input` into a URL, using `engine` for searches.
pub fn to_url(input: &str, engine: &str) -> (r: Option<WebUrl>)
    ensures
        opt_url(r) == destination(input@, engine@),
        r matches Some(u) ==> is_web_scheme(u@.scheme),
{
    let all = chars_of(input);
    let s = trim(all.as_slice());
    if s.len() == 0 {
        return None;
    }
    let text = string_of(s);
    let mut candidate = scheme_for(s).to_owned();
    candidate.append("://");
    candidate.append(text.as_str());
    let full = parse_url(text.as_str());
    let hosted = parse_url(candidate.as_str());
    proof {
        lemma_scheme_kept(s@);
        assert(candidate@ == scheme_text(s@) + "://"@ + s@);
    }
    choose_url(s, full, hosted, engine)
}

/// A bare host behind its scheme starts with `http://` or `https://`.
proof fn lemma_scheme_kept(s: Seq<char>)
    ensures
        has_prefix(scheme_text(s) + "://"@ + s, "http://"@) || has_prefix(
            scheme_text(s) + "://"@ + s,
            "https://"@,
        ),
{
    reveal_strlit("http");
    reveal_strlit("https");
    reveal_strlit("://");
    reveal_strlit("http://");
    reveal_strlit("https://");
    let t = scheme_text(s) + "://"@ + s;
    if scheme_text(s) == "http"@ {
        assert(t.take(7) =~= "http://"@);
    } else {
        assert(t.take(8) =~= "https://"@);
    }
}

// ---- internal pages -----------------------------------------------------

/// Internal pages are served from the app origin only: `tauri://localhost`,
/// or `tauri.localhost` over `http` or `https`.
pub open spec fn is_app_origin(scheme: Seq<char>, host: Option<Seq<char>>) -> bool {
    ||| scheme == "tauri"@ && host == Some("localhost"@)
    ||| (scheme == "http"@ || scheme == "https"@) && host == Some("tauri.localhost"@)
}

/// Path of the URL, if it is on the app origin.
pub open spec fn app_path_of(url: Seq<char>) -> Option<Seq<char>> {
    match url_parsed(url) {
        Some(u) if is_app_origin(u.scheme, u.host) => Some(u.path),
        _ => None,
    }
}

pub open spec fn is_internal_url(url: Seq<char>) -> bool {
    url.len() == 0 || app_path_of(url) is Some
}

/// The bundled page with this file name.
pub open spec fn bundled(name: Seq<char>) -> Option<Seq<char>> {
    if name == NEW_TAB_PAGE@ || name == SETTINGS_PAGE@ || name == HISTORY_PAGE@ || name
        == SOURCE_PAGE@ {
        Some(name)
    } else {
        None
    }
}

/// The bundled page that an internal URL points at.
pub open spec fn page_at(url: Seq<char>) -> Option<Seq<char>> {
    match app_path_of(url) {
        Some(path) => bundled(base_name(path)),
        None => None,
    }
}

/// Path of a parsed URL, if and only if it is on the app origin.
pub fn origin_path(u: &WebUrl) -> (r: Option<String>)
    ensures
        opt_text(r) == if is_app_origin(u@.scheme, u@.host) {
            Some(u@.path)
        } else {
            None::<Seq<char>>
        },
{
    let local = match &u.host {
        Some(host) => {
            let scheme = u.scheme.as_str();
            (text_eq(scheme, "tauri") && text_eq(host.as_str(), "localhost")) || ((text_eq(
                scheme,
                "http",
            ) || text_eq(scheme, "https")) && text_eq(host.as_str(), "tauri.localhost"))
        },
        None => false,
    };
    if local {
        Some(u.path.clone())
    } else {
        None
    }
}

fn app_path(url: &str) -> (r: Option<String>)
    ensures
        opt_text(r) == app_path_of(url@),
{
    match parse_url(url) {
        Some(u) => origin_path(&u),
        None => None,
    }
}

/// Is this URL one of our bundled internal pages rather than real web
/// content? An external page whose path happens to end in `settings.html` is
/// not.
pub fn is_internal(url: &str) -> (r: bool)
    ensures
        r == is_internal_url(url@),
{
    url.is_empty() || app_path(url).is_some()
}

/// The bundled page with this file name.
pub fn page_named(name: &str) -> (r: Option<&'static str>)
    ensures
        match r {
            Some(p) => bundled(name@) == Some(p@),
            None => bundled(name@) is None,
        },
{
    if text_eq(name, NEW_TAB_PAGE) {
        Some(NEW_TAB_PAGE)
    } else if text_eq(name, SETTINGS_PAGE) {
        Some(SETTINGS_PAGE)
    } else if text_eq(name, HISTORY_PAGE) {
        Some(HISTORY_PAGE)
    } else if text_eq(name, SOURCE_PAGE) {
        Some(SOURCE_PAGE)
    } else {
        None
    }
}

/// Which bundled page an internal URL points at, ignoring query and fragment.
/// `None` for anything else, all external URLs included.
pub fn page_of(url: &str) -> (r: Option<&'static str>)
    ensures
        match r {
            Some(p) => page_at(url@) == Some(p@),
            None => page_at(url@) is None,
        },
{
    match app_path(url) {
        Some(path) => page_named(name_after_slash(path.as_str()).as_str()),
        None => None,
    }
}

/// Only URLs on the app origin show a bundled page.
pub proof fn law_pages_are_internal(url: Seq<char>)
    ensures
        page_at(url) is Some ==> is_internal_url(url),
        is_internal_url(url) && url.len() > 0 ==> url_parsed(url) is Some && is_app_origin(
            url_parsed(url)->0.scheme,
            url_parsed(url)->0.host,
        ),
{
}

/// Address-bar text leads somewhere exactly when it is not blank.
pub proof fn law_every_text_leads_somewhere(input: Seq<char>, engine: Seq<char>)
    ensures
        destination(input, engine) is None <==> trimmed(input).len() == 0,
{
}

// ---- laws on hosts and schemes ------------------------------------------

/// A character of a host name's label.
pub open spec fn in_label(c: char) -> bool {
    'a' <= c <= 'z' || 'A' <= c <= 'Z' || '0' <= c <= '9' || c == '-'
}

/// Every label but the last is a row of letters, digits and hyphens; the last is
/// two letters or more.
pub open spec fn host_labels(ls: Seq<Seq<char>>) -> bool {
    &&& ls.len() >= 2
    &&& forall|i: int, k: int| 0 <= i < ls.len() && 0 <= k < ls[i].len() ==> in_label(#[trigger] ls[i][k])
    &&& forall|i: int| 0 <= i < ls.len() ==> (#[trigger] ls[i]).len() > 0
    &&& ls.last().len() >= 2
    &&& forall|k: int|
        0 <= k < ls.last().len() ==> 'a' <= #[trigger] ls.last()[k] <= 'z' || 'A' <= ls.last()[k] <= 'Z'
}

proof fn lemma_joined_chars(ls: Seq<Seq<char>>)
    requires
        forall|i: int, k: int|
            0 <= i < ls.len() && 0 <= k < ls[i].len() ==> in_label(#[trigger] ls[i][k]),
    ensures
        forall|k: int|
            0 <= k < joined(ls, '.').len() ==> in_label(#[trigger] joined(ls, '.')[k]) || joined(
                ls,
                '.',
            )[k] == '.',
        ls.len() >= 2 ==> joined(ls, '.').contains('.'),
    decreases ls.len(),
{
    if ls.len() == 1 {
        assert forall|k: int| 0 <= k < joined(ls, '.').len() implies in_label(
            #[trigger] joined(ls, '.')[k],
        ) by {
            assert(in_label(ls[0][k]));
        }
    }
    if ls.len() >= 2 {
        let m = ls.drop_last();
        assert forall|i: int, k: int| 0 <= i < m.len() && 0 <= k < m[i].len() implies in_label(
            #[trigger] m[i][k],
        ) by {
            assert(in_label(ls[i][k]));
        }
        lemma_joined_chars(m);
        let head = joined(m, '.');
        let s = joined(ls, '.');
        assert(s[head.len() as int] == '.');
        assert forall|k: int| 0 <= k < s.len() implies in_label(#[trigger] s[k]) || s[k] == '.' by {
            if k < head.len() {
                assert(s[k] == head[k]);
            } else if k > head.len() {
                assert(s[k] == ls[ls.len() - 1][k - head.len() - 1]);
            }
        }
    }
}

/// Text without any of the separators is all before the first of them.
proof fn lemma_before_all(s: Seq<char>, seps: Seq<char>)
    requires
        forall|k: int| 0 <= k < s.len() ==> !seps.contains(#[trigger] s[k]),
    ensures
        before(s, seps) == s,
{
    lemma_first_of(s, seps);
    let k = first_of(s, seps);
    if k < s.len() {
        assert(!seps.contains(s[k as int]));
    }
    assert(s.take(s.len() as int) =~= s);
}

/// ... and a separator behind it is the first.
proof fn lemma_before_sep(s: Seq<char>, rest: Seq<char>, seps: Seq<char>)
    requires
        forall|k: int| 0 <= k < s.len() ==> !seps.contains(#[trigger] s[k]),
        rest.len() == 0 || seps.contains(rest[0]),
    ensures
        before(s + rest, seps) == s,
{
    let t = s + rest;
    lemma_first_of(t, seps);
    let k = first_of(t, seps);
    if k < s.len() {
        assert(t[k as int] == s[k as int]);
    }
    if k > s.len() {
        assert(t[s.len() as int] == rest[0]);
    }
    assert(t.take(k as int) =~= s);
}

proof fn lemma_no_seps(s: Seq<char>, seps: Seq<char>)
    requires
        seps == seq!['/', '?', '#'] || seps == seq![':'],
        forall|k: int|
            0 <= k < s.len() ==> (#[trigger] s[k]) != '/' && s[k] != '?' && s[k] != '#' && s[k]
                != ':',
    ensures
        forall|k: int| 0 <= k < s.len() ==> !seps.contains(#[trigger] s[k]),
{
    assert forall|k: int| 0 <= k < s.len() implies !seps.contains(#[trigger] s[k]) by {
        if seps.contains(s[k]) {
            let i = choose|i: int| 0 <= i < seps.len() && seps[i] == s[k];
            assert(seps[i] == s[k]);
        }
    }
}

proof fn lemma_no_colon(s: Seq<char>)
    requires
        !s.contains(':'),
    ensures
        last_of(s, ':') == -1,
        without_port(s) == s,
    decreases s.len(),
{
    if s.len() > 0 {
        let m = s.drop_last();
        assert(s[s.len() - 1] != ':');
        assert(!m.contains(':')) by {
            if m.contains(':') {
                let i = choose|i: int| 0 <= i < m.len() && m[i] == ':';
                assert(s[i] == ':');
            }
        }
        lemma_no_colon(m);
    }
}

proof fn lemma_dotted_is_not_localhost(s: Seq<char>, dot: int)
    requires
        0 <= dot < s.len(),
        s[dot] == '.',
    ensures
        !is_localhost(s),
{
    reveal_strlit("localhost");
    let name = "localhost"@;
    assert(ascii_lower(name) =~= name);
    assert(name.len() == 9);
    assert(forall|k: int| 0 <= k < 9 ==> #[trigger] name[k] != '.');
    assert(ascii_lower(s).len() == s.len());
    assert(ascii_lower(s)[dot] == lower(s[dot]));
    if is_localhost(s) {
        assert(name[dot] == '.');
    }
}

/// Any two or more labels of letters, digits and hyphens with dots between them,
/// the last of two letters or more, name a host: such text is never searched for
/// where it can be visited, and it is visited over `https`.
pub proof fn law_dotted_names_are_hosts(ls: Seq<Seq<char>>, engine: Seq<char>)
    requires
        host_labels(ls),
    ensures
        is_host_like(joined(ls, '.')),
        scheme_text(joined(ls, '.')) == "https"@,
        url_parsed(joined(ls, '.')) is None && url_parsed("https://"@ + joined(ls, '.')) is Some
            ==> destination(joined(ls, '.'), engine) == url_parsed("https://"@ + joined(ls, '.')),
{
    let s = joined(ls, '.');
    assert forall|i: int| 0 <= i < ls.len() implies !(#[trigger] ls[i]).contains('.') by {
        if ls[i].contains('.') {
            let k = choose|k: int| 0 <= k < ls[i].len() && ls[i][k] == '.';
            assert(in_label(ls[i][k]));
        }
    }
    law_split_undoes_join(ls, '.');
    lemma_joined_chars(ls);
    let dot = choose|k: int| 0 <= k < s.len() && s[k] == '.';
    lemma_no_seps(s, seq!['/', '?', '#']);
    lemma_before_all(s, seq!['/', '?', '#']);
    lemma_no_seps(s, seq![':']);
    lemma_before_all(s, seq![':']);
    assert(!s.contains(':')) by {
        if s.contains(':') {
            let k = choose|k: int| 0 <= k < s.len() && s[k] == ':';
            assert(in_label(s[k]) || s[k] == '.');
        }
    }
    lemma_no_colon(s);
    assert(s[0] != '[');
    assert forall|i: int| 0 <= i < ls.len() - 1 implies is_label(#[trigger] ls[i]) by {
        assert forall|k: int| 0 <= k < ls[i].len() implies is_letter(#[trigger] ls[i][k])
            || is_digit(ls[i][k]) || ls[i][k] == '-' by {
            assert(in_label(ls[i][k]));
        }
    }
    assert(is_tld(ls.last()));
    assert(is_domain(s));
    assert(s.contains('.'));
    lemma_dotted_is_not_localhost(s, dot);
    assert(!is_local_ipv4(s)) by {
        if is_ipv4(s) {
            let last = ls[3];
            assert(is_octet(last));
            assert(is_digit(last[0]));
            assert(ls.last()[0] == last[0]);
        }
    }
    assert(spaceless(s)) by {
        assert forall|i: int| 0 <= i < s.len() implies !is_space(#[trigger] s[i]) by {
            assert(in_label(s[i]) || s[i] == '.');
        }
    }
    assert(!is_space(s[0]) && !is_space(s[s.len() - 1]));
    lemma_trimmed_same(s);
    reveal_strlit("https");
    reveal_strlit("://");
    reveal_strlit("https://");
    assert("https"@ + "://"@ + s =~= "https://"@ + s);
}

/// A port, a path, a query or a fragment behind a host changes neither that it is
/// one nor its scheme.
pub proof fn law_port_and_path_do_not_matter(host: Seq<char>, port: Seq<char>, rest: Seq<char>)
    requires
        host.len() > 0,
        host[0] != '[',
        forall|k: int|
            0 <= k < host.len() ==> (#[trigger] host[k]) != '/' && host[k] != '?' && host[k] != '#'
                && host[k] != ':',
        forall|k: int| 0 <= k < port.len() ==> '0' <= #[trigger] port[k] <= '9',
        rest.len() == 0 || rest[0] == '/' || rest[0] == '?' || rest[0] == '#',
    ensures
        is_host_like(host + rest) == is_host_like(host),
        is_host_like(host.push(':') + port + rest) == is_host_like(host),
        scheme_text(host + rest) == scheme_text(host),
        scheme_text(host.push(':') + port + rest) == scheme_text(host),
{
    let seps = seq!['/', '?', '#'];
    let colon = seq![':'];
    assert(seps[0] == '/' && seps[1] == '?' && seps[2] == '#' && colon[0] == ':');
    assert(seps.contains('/') && seps.contains('?') && seps.contains('#') && colon.contains(':'));
    lemma_no_seps(host, seps);
    lemma_no_seps(host, colon);
    lemma_before_all(host, seps);
    lemma_before_all(host, colon);
    lemma_before_sep(host, rest, seps);
    let full = host.push(':') + port;
    assert forall|k: int| 0 <= k < full.len() implies !seps.contains(#[trigger] full[k]) by {
        if seps.contains(full[k]) {
            let i = choose|i: int| 0 <= i < seps.len() && seps[i] == full[k];
            assert(i == 0 || i == 1 || i == 2);
            if k < host.len() {
                assert(full[k] == host[k]);
            } else if k > host.len() {
                assert(full[k] == port[k - host.len() - 1]);
            }
        }
    }
    lemma_before_sep(full, rest, seps);
    let tail = seq![':'] + port;
    assert(host + tail =~= full);
    lemma_before_sep(host, tail, colon);
    lemma_last_colon(host, port);
    assert(full.skip(host.len() as int + 1) =~= port);
    assert(full.take(host.len() as int) =~= host);
    assert(!host.contains(':')) by {
        if host.contains(':') {
            let i = choose|i: int| 0 <= i < host.len() && host[i] == ':';
            assert(host[i] != ':');
        }
    }
    lemma_no_colon(host);
    assert((host + rest)[0] == host[0]);
}

proof fn lemma_last_colon(host: Seq<char>, port: Seq<char>)
    requires
        forall|k: int| 0 <= k < port.len() ==> #[trigger] port[k] != ':',
    ensures
        last_of(host.push(':') + port, ':') == host.len(),
    decreases port.len(),
{
    let s = host.push(':') + port;
    if port.len() == 0 {
        assert(s =~= host.push(':'));
    } else {
        let m = port.drop_last();
        assert forall|k: int| 0 <= k < m.len() implies #[trigger] m[k] != ':' by {
            assert(m[k] == port[k]);
        }
        lemma_last_colon(host, m);
        assert(s.drop_last() =~= host.push(':') + m);
        assert(s.last() == port[port.len() - 1]);
    }
}

proof fn lemma_one_field(s: Seq<char>, sep: char)
    requires
        !s.contains(sep),
    ensures
        split(s, sep) == seq![s],
{
    law_split_undoes_join(seq![s], sep);
}

proof fn lemma_no_gap(s: Seq<char>)
    requires
        !s.contains(':'),
    ensures
        gap(s) == s.len(),
    decreases s.len(),
{
    if s.len() >= 2 {
        let t = s.skip(1);
        assert(s[0] != ':');
        assert(!t.contains(':')) by {
            if t.contains(':') {
                let i = choose|i: int| 0 <= i < t.len() && t[i] == ':';
                assert(s[i + 1] == ':');
            }
        }
        lemma_no_gap(t);
    }
}

/// No dot, colon or bracket is in the text.
pub open spec fn no_host_marks(s: Seq<char>) -> bool {
    forall|k: int| 0 <= k < s.len() ==> (#[trigger] s[k]) != '.' && s[k] != ':' && s[k] != '['
}

/// Text without a dot, a colon or a bracket that is not "localhost" is no host:
/// it is searched for, unless it is a full URL as it stands. So is text with
/// white space inside.
pub proof fn law_plain_words_are_searched(s: Seq<char>, engine: Seq<char>)
    requires
        trimmed(s) == s,
        s.len() > 0,
        url_parsed(s) is None,
        no_host_marks(s) || exists|k: int| 0 <= k < s.len() && is_space(#[trigger] s[k]),
        ascii_lower(authority(s)) != "localhost"@,
    ensures
        destination(s, engine) == Some(search_parts(engine, s)),
{
    if no_host_marks(s) {
        let a = authority(s);
        lemma_first_of(s, seq!['/', '?', '#']);
        assert forall|k: int| 0 <= k < a.len() implies (#[trigger] a[k]) != '.' && a[k] != ':'
            && a[k] != '[' by {
            assert(a[k] == s[k]);
        }
        assert(!a.contains('.') && !a.contains(':'));
        lemma_no_colon(a);
        lemma_one_field(a, '.');
        lemma_one_field(a, ':');
        lemma_no_gap(a);
        assert(!is_localhost(a)) by {
            reveal_strlit("localhost");
            assert(ascii_lower("localhost"@) =~= "localhost"@);
        }
        assert(!is_host_like(s));
    }
}

/// Any spelling of "localhost" is a host, and is visited over plain `http`.
pub proof fn law_localhost_is_near(s: Seq<char>)
    requires
        ascii_lower(s) == "localhost"@,
    ensures
        is_host_like(s),
        scheme_text(s) == "http"@,
{
    reveal_strlit("localhost");
    assert(ascii_lower("localhost"@) =~= "localhost"@);
    assert(s.len() == 9);
    assert forall|k: int| 0 <= k < s.len() implies (#[trigger] s[k]) != '/' && s[k] != '?' && s[k]
        != '#' && s[k] != ':' && s[k] != '[' by {
        assert(ascii_lower(s)[k] == lower(s[k]));
    }
    assert(!s.contains(':'));
    lemma_no_seps(s, seq!['/', '?', '#']);
    lemma_before_all(s, seq!['/', '?', '#']);
    lemma_no_seps(s, seq![':']);
    lemma_before_all(s, seq![':']);
    lemma_no_colon(s);
}

proof fn lemma_octet(n: nat)
    requires
        n <= 255,
    ensures
        is_octet(digits(n)),
        value(digits(n)) == n,
        !digits(n).contains('.'),
{
    lemma_digits(n);
    reveal_with_fuel(digits, 4);
    let f = digits(n);
    assert(f.len() <= 3);
    assert(f.len() > 1 ==> f[0] != '0');
    if f.contains('.') {
        let k = choose|k: int| 0 <= k < f.len() && f[k] == '.';
        assert(is_digit(f[k]));
    }
}

/// An address of four numbers is a host. It is visited over plain `http` exactly
/// where it is on the machine itself (127), in a private network (10, 192.168,
/// 172.16 to 172.31) or link-local (169.254).
pub proof fn law_private_addresses_are_near(a: nat, b: nat, c: nat, d: nat)
    requires
        a <= 255 && b <= 255 && c <= 255 && d <= 255,
    ensures
        is_host_like(joined(seq![digits(a), digits(b), digits(c), digits(d)], '.')),
        scheme_text(joined(seq![digits(a), digits(b), digits(c), digits(d)], '.')) == (if a == 127
            || a == 10 || (a == 192 && b == 168) || (a == 172 && b >= 16 && b < 32) || (a == 169
            && b == 254) {
            "http"@
        } else {
            "https"@
        }),
{
    lemma_octet(a);
    lemma_octet(b);
    lemma_octet(c);
    lemma_octet(d);
    let ls = seq![digits(a), digits(b), digits(c), digits(d)];
    let s = joined(ls, '.');
    assert forall|i: int| 0 <= i < ls.len() implies !(#[trigger] ls[i]).contains('.') by {
        assert(i == 0 || i == 1 || i == 2 || i == 3);
    }
    law_split_undoes_join(ls, '.');
    assert forall|i: int, k: int| 0 <= i < ls.len() && 0 <= k < ls[i].len() implies in_label(
        #[trigger] ls[i][k],
    ) by {
        assert(is_octet(ls[i]));
        assert(is_digit(ls[i][k]));
    }
    lemma_joined_chars(ls);
    lemma_no_seps(s, seq!['/', '?', '#']);
    lemma_before_all(s, seq!['/', '?', '#']);
    lemma_no_seps(s, seq![':']);
    lemma_before_all(s, seq![':']);
    assert(!s.contains(':')) by {
        if s.contains(':') {
            let k = choose|k: int| 0 <= k < s.len() && s[k] == ':';
            assert(in_label(s[k]) || s[k] == '.');
        }
    }
    lemma_no_colon(s);
    let dot = choose|k: int| 0 <= k < s.len() && s[k] == '.';
    assert(s[0] != '[');
    assert(s.contains('.'));
    lemma_dotted_is_not_localhost(s, dot);
    assert(split(s, '.')[0] == digits(a) && split(s, '.')[1] == digits(b) && split(s, '.')[2]
        == digits(c) && split(s, '.')[3] == digits(d));
    assert(is_ipv4(s));
    assert(octet(s, 0) == a && octet(s, 1) == b);
    reveal_strlit("http");
    reveal_strlit("https");
}

/// A bracketed address counts as near exactly where it is the loopback address.
pub proof fn law_bracketed_loopback_is_near(inner: Seq<char>, rest: Seq<char>)
    requires
        forall|k: int|
            0 <= k < inner.len() ==> (#[trigger] inner[k]) != '/' && inner[k] != '?' && inner[k]
                != '#' && inner[k] != ']',
        forall|k: int|
            0 <= k < rest.len() ==> (#[trigger] rest[k]) != '/' && rest[k] != '?' && rest[k] != '#',
    ensures
        is_host_like(seq!['['] + inner + seq![']'] + rest),
        (scheme_text(seq!['['] + inner + seq![']'] + rest) == "http"@) <==> is_ipv6(inner)
            && address(inner) == seq![0nat, 0, 0, 0, 0, 0, 0, 1],
{
    let s = seq!['['] + inner + seq![']'] + rest;
    let seps = seq!['/', '?', '#'];
    assert forall|k: int| 0 <= k < s.len() implies !seps.contains(#[trigger] s[k]) by {
        if seps.contains(s[k]) {
            let i = choose|i: int| 0 <= i < seps.len() && seps[i] == s[k];
            assert(i == 0 || i == 1 || i == 2);
            if 1 <= k < inner.len() + 1 {
                assert(s[k] == inner[k - 1]);
            } else if k > inner.len() + 1 {
                assert(s[k] == rest[k - inner.len() - 2]);
            }
        }
    }
    lemma_before_all(s, seps);
    assert(s[inner.len() as int + 1] == ']');
    assert(s.contains(']'));
    let close = seq![']'];
    assert(close[0] == ']');
    assert forall|k: int| 0 <= k < inner.len() implies !close.contains(#[trigger] inner[k]) by {
        if close.contains(inner[k]) {
            let i = choose|i: int| 0 <= i < close.len() && close[i] == inner[k];
            assert(i == 0);
        }
    }
    lemma_before_sep(inner, close + rest, close);
    assert(s.skip(1) =~= inner + (close + rest));
    reveal_strlit("http");
    reveal_strlit("https");
    assert("http"@.len() == 4 && "https"@.len() == 5);
}

/// Text that is a full URL with one of the web's schemes leads there as it
/// stands; with any other scheme it never does.
pub proof fn law_full_urls_pass_through(s: Seq<char>, u: UrlParts, engine: Seq<char>)
    requires
        trimmed(s) == s,
        s.len() > 0,
        url_parsed(s) == Some(u),
    ensures
        u.scheme == "http"@ || u.scheme == "https"@ || u.scheme == "file"@ || u.scheme == "about"@
            || u.scheme == "data"@ ==> destination(s, engine) == Some(u),
        u.scheme != "http"@ && u.scheme != "https"@ && u.scheme != "file"@ && u.scheme != "about"@
            && u.scheme != "data"@ && !is_host_like(s) ==> destination(s, engine) == Some(
            search_parts(engine, s),
        ),
{
}

/// The results pages of the search engines; an unknown engine is DuckDuckGo.
pub proof fn law_engines_have_their_pages(engine: Seq<char>, terms: Seq<char>)
    ensures
        search_text("google"@, terms) == "https://www.google.com/search?q="@ + form_encoded(terms),
        search_text("bing"@, terms) == "https://www.bing.com/search?q="@ + form_encoded(terms),
        search_text("brave"@, terms) == "https://search.brave.com/search?q="@ + form_encoded(terms),
        search_text("ecosia"@, terms) == "https://www.ecosia.org/search?q="@ + form_encoded(terms),
        search_text("startpage"@, terms) == "https://www.startpage.com/sp/search?query="@
            + form_encoded(terms),
        search_text("yahoo"@, terms) == "https://search.yahoo.com/search?p="@ + form_encoded(terms),
        engine != "google"@ && engine != "bing"@ && engine != "brave"@ && engine != "ecosia"@
            && engine != "startpage"@ && engine != "yahoo"@ ==> search_text(engine, terms)
            == "https://duckduckgo.com/?q="@ + form_encoded(terms),
{
    reveal_strlit("https://");
    reveal_strlit("?");
    reveal_strlit("=");
    reveal_strlit("q");
    reveal_strlit("p");
    reveal_strlit("query");
    reveal_strlit("/");
    reveal_strlit("/search");
    reveal_strlit("/sp/search");
    lemma_engine_names();
    assert(search_text("google"@, terms) =~= "https://www.google.com/search?q="@ + form_encoded(terms)) by {
        reveal_strlit("www.google.com");
        reveal_strlit("https://www.google.com/search?q=");
    }
    assert(search_text("bing"@, terms) =~= "https://www.bing.com/search?q="@ + form_encoded(terms)) by {
        reveal_strlit("www.bing.com");
        reveal_strlit("https://www.bing.com/search?q=");
    }
    assert(search_text("brave"@, terms) =~= "https://search.brave.com/search?q="@ + form_encoded(terms)) by {
        reveal_strlit("search.brave.com");
        reveal_strlit("https://search.brave.com/search?q=");
    }
    assert(search_text("ecosia"@, terms) =~= "https://www.ecosia.org/search?q="@ + form_encoded(terms)) by {
        reveal_strlit("www.ecosia.org");
        reveal_strlit("https://www.ecosia.org/search?q=");
    }
    assert(search_text("startpage"@, terms) =~= "https://www.startpage.com/sp/search?query="@ + form_encoded(terms)) by {
        reveal_strlit("www.startpage.com");
        reveal_strlit("https://www.startpage.com/sp/search?query=");
    }
    assert(search_text("yahoo"@, terms) =~= "https://search.yahoo.com/search?p="@ + form_encoded(terms)) by {
        reveal_strlit("search.yahoo.com");
        reveal_strlit("https://search.yahoo.com/search?p=");
    }
    if engine != "google"@ && engine != "bing"@ && engine != "brave"@ && engine != "ecosia"@
        && engine != "startpage"@ && engine != "yahoo"@ {
        assert(search_text(engine, terms) =~= "https://duckduckgo.com/?q="@ + form_encoded(terms)) by {
            reveal_strlit("duckduckgo.com");
            reveal_strlit("https://duckduckgo.com/?q=");
        }
    }
}

proof fn lemma_engine_names()
    ensures
        "bing"@ != "google"@,
        "brave"@ != "google"@ && "brave"@ != "bing"@,
        "ecosia"@ != "google"@ && "ecosia"@ != "bing"@ && "ecosia"@ != "brave"@,
        "startpage"@ != "google"@ && "startpage"@ != "bing"@ && "startpage"@ != "brave"@
            && "startpage"@ != "ecosia"@,
        "yahoo"@ != "google"@ && "yahoo"@ != "bing"@ && "yahoo"@ != "brave"@ && "yahoo"@
            != "ecosia"@ && "yahoo"@ != "startpage"@,
{
    reveal_strlit("google");
    reveal_strlit("bing");
    reveal_strlit("brave");
    reveal_strlit("ecosia");
    reveal_strlit("startpage");
    reveal_strlit("yahoo");
    assert("google"@[0] == 'g' && "bing"@.len() == 4 && "brave"@[0] == 'b' && "ecosia"@[0] == 'e'
        && "startpage"@[0] == 's' && "yahoo"@[0] == 'y');
    assert("brave"@.len() == 5);
}

/// A page of the app is internal only where the app itself served it, whatever
/// its path is called.
pub proof fn law_only_the_app_serves_pages(url: Seq<char>)
    requires
        url.len() > 0,
    ensures
        is_internal_url(url) <==> (url_parsed(url) matches Some(u) && ((u.scheme == "tauri"@
            && u.host == Some("localhost"@)) || (u.scheme == "http"@ && u.host == Some(
            "tauri.localhost"@,
        )) || (u.scheme == "https"@ && u.host == Some("tauri.localhost"@)))),
        page_at(url) matches Some(p) ==> is_internal_url(url) && (p == "newtab.html"@ || p
            == "settings.html"@ || p == "history.html"@ || p == "source.html"@) && p == base_name(
            url_parsed(url)->0.path,
        ),
        is_internal_url(url) && (base_name(url_parsed(url)->0.path) == "newtab.html"@ || base_name(
            url_parsed(url)->0.path,
        ) == "settings.html"@ || base_name(url_parsed(url)->0.path) == "history.html"@ || base_name(
            url_parsed(url)->0.path,
        ) == "source.html"@) ==> page_at(url) is Some,
{
}

/// Text with dots in it names no host where it is neither an address of four
/// numbers nor made of labels as host names are: not where a label is empty or
/// holds any character but letters, digits and hyphens, nor where the last one is
/// a single letter or holds anything but letters.
pub proof fn law_other_dotted_texts_are_no_hosts(ls: Seq<Seq<char>>)
    requires
        ls.len() >= 2,
        forall|i: int, k: int|
            0 <= i < ls.len() && 0 <= k < ls[i].len() ==> (#[trigger] ls[i][k]) != '.' && ls[i][k]
                != '/' && ls[i][k] != '?' && ls[i][k] != '#' && ls[i][k] != ':' && ls[i][k] != '[',
        !host_labels(ls),
        !is_ipv4(joined(ls, '.')),
    ensures
        !is_host_like(joined(ls, '.')),
{
    let s = joined(ls, '.');
    let p = |c: char| c != '/' && c != '?' && c != '#' && c != ':' && c != '[';
    lemma_joined_all(ls, '.', p);
    assert forall|k: int| 0 <= k < s.len() implies (#[trigger] s[k]) != '/' && s[k] != '?' && s[k]
        != '#' && s[k] != ':' && s[k] != '[' by {
        assert(p(s[k]) || s[k] == '.');
    }
    assert forall|i: int| 0 <= i < ls.len() implies !(#[trigger] ls[i]).contains('.') by {
        if ls[i].contains('.') {
            let k = choose|k: int| 0 <= k < ls[i].len() && ls[i][k] == '.';
            assert(ls[i][k] != '.');
        }
    }
    law_split_undoes_join(ls, '.');
    lemma_no_seps(s, seq!['/', '?', '#']);
    lemma_before_all(s, seq!['/', '?', '#']);
    assert(!s.contains(':'));
    lemma_no_colon(s);
    lemma_one_field(s, ':');
    lemma_no_gap(s);
    let dot = choose|k: int| 0 <= k < s.len() && s[k] == '.';
    lemma_dotted_is_not_localhost(s, dot);
    if is_domain(s) {
        assert forall|i: int, k: int| 0 <= i < ls.len() && 0 <= k < ls[i].len() implies in_label(
            #[trigger] ls[i][k],
        ) by {
            if i < ls.len() - 1 {
                assert(is_label(ls[i]));
            } else {
                assert(is_letter(ls.last()[k]));
            }
        }
        assert forall|i: int| 0 <= i < ls.len() implies (#[trigger] ls[i]).len() > 0 by {
            if i < ls.len() - 1 {
                assert(is_label(ls[i]));
            }
        }
        assert forall|k: int| 0 <= k < ls.last().len() implies 'a' <= #[trigger] ls.last()[k] <= 'z'
            || 'A' <= ls.last()[k] <= 'Z' by {
            assert(is_letter(ls.last()[k]));
        }
        assert(host_labels(ls));
    }
}

proof fn lemma_one_colon_no_gap(s: Seq<char>, at: int)
    requires
        forall|k: int| 0 <= k < s.len() && k != at ==> #[trigger] s[k] != ':',
    ensures
        gap(s) == s.len(),
    decreases s.len(),
{
    if s.len() >= 2 {
        let t = s.skip(1);
        assert(s[0] != ':' || s[1] != ':');
        assert forall|k: int| 0 <= k < t.len() && k != at - 1 implies #[trigger] t[k] != ':' by {
            assert(t[k] == s[k + 1]);
        }
        lemma_one_colon_no_gap(t, at - 1);
    }
}

/// What follows a colon is a port only where it is a number: with anything else
/// there the text names no host.
pub proof fn law_ports_are_numbers(host: Seq<char>, port: Seq<char>, at: int)
    requires
        host.len() > 0,
        forall|k: int|
            0 <= k < host.len() ==> (#[trigger] host[k]) != '/' && host[k] != '?' && host[k] != '#'
                && host[k] != ':' && host[k] != '[',
        forall|k: int|
            0 <= k < port.len() ==> (#[trigger] port[k]) != '/' && port[k] != '?' && port[k] != '#'
                && port[k] != ':',
        0 <= at < port.len(),
        !('0' <= port[at] <= '9'),
    ensures
        !is_host_like(host.push(':') + port),
{
    let s = host.push(':') + port;
    let n = host.len() as int;
    let seps = seq!['/', '?', '#'];
    assert forall|k: int| 0 <= k < s.len() implies !seps.contains(#[trigger] s[k]) by {
        if seps.contains(s[k]) {
            let i = choose|i: int| 0 <= i < seps.len() && seps[i] == s[k];
            assert(i == 0 || i == 1 || i == 2);
            if k < n {
                assert(s[k] == host[k]);
            } else if k > n {
                assert(s[k] == port[k - n - 1]);
            }
        }
    }
    lemma_before_all(s, seps);
    assert(s[0] == host[0]);
    lemma_last_colon(host, port);
    assert(s.skip(n + 1) =~= port);
    assert(!is_digit(port[at]));
    assert(!all_digits(port));
    assert(without_port(s) == s);
    assert(s[n] == ':');
    assert(!is_localhost(s)) by {
        reveal_strlit("localhost");
        let name = "localhost"@;
        assert(ascii_lower(name) =~= name);
        assert(forall|k: int| 0 <= k < 9 ==> #[trigger] name[k] != ':');
        assert(ascii_lower(s)[n] == lower(s[n]));
        if is_localhost(s) {
            assert(name[n] == ':');
        }
    }
    let f = split(s, '.');
    law_join_undoes_split(s, '.');
    if is_ipv4(s) || is_domain(s) {
        let p = |c: char| in_label(c);
        assert forall|i: int, k: int| 0 <= i < f.len() && 0 <= k < f[i].len() implies p(
            #[trigger] f[i][k],
        ) by {
            if is_ipv4(s) {
                assert(is_octet(f[i]));
                assert(is_digit(f[i][k]));
            } else if i < f.len() - 1 {
                assert(is_label(f[i]));
            } else {
                assert(is_letter(f.last()[k]));
            }
        }
        lemma_joined_all(f, '.', p);
        assert(p(s[n]) || s[n] == '.');
    }
    assert forall|k: int| 0 <= k < s.len() && k != n implies #[trigger] s[k] != ':' by {
        if k < n {
            assert(s[k] == host[k]);
        } else {
            assert(s[k] == port[k - n - 1]);
        }
    }
    lemma_one_colon_no_gap(s, n);
    let parts = seq![host, port];
    assert forall|i: int| 0 <= i < parts.len() implies !(#[trigger] parts[i]).contains(':') by {
        assert(i == 0 || i == 1);
    }
    law_split_undoes_join(parts, ':');
    assert(parts.drop_last() =~= seq![host]);
    assert(joined(parts.drop_last(), ':') == host);
    assert(joined(parts, ':') =~= s);
    assert(split(s, ':').len() == 2);
}

/// Text that is no full URL and names a host leads to that host, and text that
/// does neither is searched for with the chosen engine.
pub proof fn law_hosts_are_visited_and_the_rest_searched(
    s: Seq<char>,
    u: UrlParts,
    engine: Seq<char>,
)
    requires
        trimmed(s) == s,
        s.len() > 0,
        url_parsed(s) is None,
        forall|k: int| 0 <= k < s.len() ==> !is_space(#[trigger] s[k]),
        url_parsed(scheme_text(s) + "://"@ + s) == Some(u),
    ensures
        is_host_like(s) ==> destination(s, engine) == Some(u),
        !is_host_like(s) ==> (destination(s, engine) matches Some(v) && v.href == search_text(
            engine,
            s,
        )),
{
}

/// The results pages of the seven engines hold search terms, and no other page
/// does.
pub proof fn law_results_pages_hold_terms(host: Seq<char>, path: Seq<char>, k: Seq<char>)
    ensures
        results_key(host, path) == Some(k) ==> (host, path, k) == (
            "www.google.com"@,
            "/search"@,
            "q"@,
        ) || (host, path, k) == ("www.bing.com"@, "/search"@, "q"@) || (host, path, k) == (
            "search.brave.com"@,
            "/search"@,
            "q"@,
        ) || (host, path, k) == ("www.ecosia.org"@, "/search"@, "q"@) || (host, path, k) == (
            "www.startpage.com"@,
            "/sp/search"@,
            "query"@,
        ) || (host, path, k) == ("search.yahoo.com"@, "/search"@, "p"@) || (host, path, k) == (
            "duckduckgo.com"@,
            "/"@,
            "q"@,
        ),
        results_key(engine_parts(host).0, engine_parts(host).1) == Some(engine_parts(host).2),
{
    lemma_engine_key(host);
}

/// The terms of a search are the value of the first pair under the engine's key,
/// as long as it is not empty.
pub proof fn law_the_first_value_counts(
    host: Seq<char>,
    path: Seq<char>,
    pairs: Seq<(Seq<char>, Seq<char>)>,
    i: int,
)
    requires
        0 <= i < pairs.len(),
        results_key(host, path) == Some(pairs[i].0),
        forall|j: int| 0 <= j < i ==> (#[trigger] pairs[j]).0 != pairs[i].0,
    ensures
        pairs[i].1.len() > 0 ==> terms_in(host, path, pairs) == Some(pairs[i].1),
        pairs[i].1.len() == 0 ==> terms_in(host, path, pairs) is None,
    decreases pairs.len(),
{
    if i > 0 {
        let rest = pairs.skip(1);
        assert(pairs[0].0 != pairs[i].0);
        assert forall|j: int| 0 <= j < i - 1 implies (#[trigger] rest[j]).0 != rest[i - 1].0 by {
            assert(rest[j] == pairs[j + 1]);
        }
        law_the_first_value_counts(host, path, rest, i - 1);
    }
}

/// Without a pair under the key there are no terms.
pub proof fn law_no_value_no_terms(
    host: Seq<char>,
    path: Seq<char>,
    key: Seq<char>,
    pairs: Seq<(Seq<char>, Seq<char>)>,
)
    requires
        results_key(host, path) is Some ==> results_key(host, path) == Some(key),
        forall|j: int| 0 <= j < pairs.len() ==> (#[trigger] pairs[j]).0 != key,
    ensures
        terms_in(host, path, pairs) is None,
    decreases pairs.len(),
{
    if pairs.len() > 0 {
        let rest = pairs.skip(1);
        assert forall|j: int| 0 <= j < rest.len() implies (#[trigger] rest[j]).0 != key by {
            assert(rest[j] == pairs[j + 1]);
        }
        assert(pairs[0].0 != key);
        law_no_value_no_terms(host, path, key, rest);
    }
}

} // verus!
