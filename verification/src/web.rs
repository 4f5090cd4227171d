//! Web addresses: the boundary to the `url` crate, which parses URLs and reads
//! and writes form-encoded queries.

use crate::text::{ascii_lower, has_prefix, chars_of, find_last, is_digit, is_letter, last_of, lower_text, string_of};
use vstd::prelude::*;
use vstd::slice::slice_subrange;

verus! {

/// A parsed URL, taken apart.
pub struct WebUrl {
    /// The whole URL in its normal form.
    pub href: String,
    pub scheme: String,
    pub host: Option<String>,
    pub path: String,
    /// What stands between `?` and `#`.
    pub query: Option<String>,
}

/// The texts that a [`WebUrl`] holds.
pub struct UrlParts {
    pub href: Seq<char>,
    pub scheme: Seq<char>,
    pub host: Option<Seq<char>>,
    pub path: Seq<char>,
    pub query: Option<Seq<char>>,
}

/// The text behind an optional string.
pub open spec fn opt_text(s: Option<String>) -> Option<Seq<char>> {
    match s {
        Some(t) => Some(t@),
        None => None,
    }
}

impl View for WebUrl {
    type V = UrlParts;

    open spec fn view(&self) -> UrlParts {
        UrlParts {
            href: self.href@,
            scheme: self.scheme@,
            host: opt_text(self.host),
            path: self.path@,
            query: opt_text(self.query),
        }
    }
}

pub open spec fn opt_url(u: Option<WebUrl>) -> Option<UrlParts> {
    match u {
        Some(t) => Some(t@),
        None => None,
    }
}

/// What `url::Url::parse` makes of a text.
pub uninterp spec fn url_parsed(s: Seq<char>) -> Option<UrlParts>;

/// What `url::form_urlencoded::byte_serialize` makes of the UTF-8 bytes of a
/// text.
pub uninterp spec fn form_encoded(s: Seq<char>) -> Seq<char>;

/// The name-value pairs that `url::form_urlencoded::parse` reads.
pub uninterp spec fn form_pairs(s: Seq<char>) -> Seq<(Seq<char>, Seq<char>)>;

/// The characters that form encoding leaves in a text, and `=`.
pub open spec fn is_form_char(c: char) -> bool {
    ||| is_digit(c)
    ||| is_letter(c)
    ||| c == '*' || c == '-' || c == '.' || c == '_' || c == '+' || c == '%' || c == '='
}

pub open spec fn is_small(c: char) -> bool {
    'a' <= c <= 'z'
}

/// A short host of non-empty lower-case labels.
pub open spec fn plain_host(h: Seq<char>) -> bool {
    &&& h.len() < 256
    &&& forall|i: int| 0 <= i < h.len() ==> is_small(#[trigger] h[i]) || h[i] == '.'
    &&& h.len() > 0 && h[0] != '.' && h.last() != '.'
    &&& forall|i: int| 0 < i < h.len() && h[i] == '.' ==> #[trigger] h[i - 1] != '.'
}

/// A short path of lower-case letters.
pub open spec fn plain_path(p: Seq<char>) -> bool {
    &&& 0 < p.len() < 256
    &&& p[0] == '/'
    &&& forall|i: int| 0 <= i < p.len() ==> is_small(#[trigger] p[i]) || p[i] == '/'
}

pub open spec fn plain_query(q: Seq<char>) -> bool {
    forall|i: int| 0 <= i < q.len() ==> is_form_char(#[trigger] q[i])
}

pub open spec fn plain_key(k: Seq<char>) -> bool {
    k.len() > 0 && forall|i: int| 0 <= i < k.len() ==> is_small(#[trigger] k[i])
}

/// The text of an `https` URL made of a host, a path and a query.
pub open spec fn https_url(host: Seq<char>, path: Seq<char>, query: Seq<char>) -> Seq<char> {
    "https://"@ + host + path + "?"@ + query
}

/// `url::Url::parse`, with the parts of the result read off. The contract
/// says that the result depends on the text alone, that a text which starts
/// with `http://` or `https://` keeps that scheme, and that an `https` URL of
/// plain characters parses to exactly the parts that it is written with. How
/// other texts are normalised or refused is left to the crate.
#[verifier::external_body]
pub(crate) fn parse_url(s: &str) -> (r: Option<WebUrl>)
    ensures
        opt_url(r) == url_parsed(s@),
        r matches Some(u) ==> {
            &&& (has_prefix(s@, "http://"@) ==> u@.scheme == "http"@)
            &&& (has_prefix(s@, "https://"@) ==> u@.scheme == "https"@)
        },
        forall|host: Seq<char>, path: Seq<char>, query: Seq<char>|
            plain_host(host) && plain_path(path) && plain_query(query) && s@ == #[trigger] https_url(
                host,
                path,
                query,
            ) ==> opt_url(r) == Some(
                UrlParts {
                    href: s@,
                    scheme: "https"@,
                    host: Some(host),
                    path,
                    query: Some(query),
                },
            ),
{
    url::Url::parse(s).ok().map(
        |u|
            WebUrl {
                href: u.to_string(),
                scheme: u.scheme().to_string(),
                host: u.host_str().map(|h| h.to_string()),
                path: u.path().to_string(),
                query: u.query().map(|q| q.to_string()),
            },
    )
}

/// `url::form_urlencoded::byte_serialize` on the UTF-8 bytes of a text. The
/// contract says that the result depends on the text alone, holds only the
/// characters that form encoding leaves, and is read back as the same text
/// when it is the value of a query of one pair.
#[verifier::external_body]
pub(crate) fn form_encode(s: &str) -> (r: String)
    ensures
        r@ == form_encoded(s@),
        plain_query(r@),
        forall|key: Seq<char>|
            plain_key(key) ==> #[trigger] form_pairs(key + "="@ + r@) == seq![(key, s@)],
{
    url::form_urlencoded::byte_serialize(s.as_bytes()).collect()
}

/// The texts that a vector of pairs stands for.
pub open spec fn pair_texts(v: Seq<(String, String)>) -> Seq<(Seq<char>, Seq<char>)> {
    v.map_values(|p: (String, String)| (p.0@, p.1@))
}

/// `url::form_urlencoded::parse`: the pairs of a query, decoded. The contract
/// says that they depend on the text alone.
#[verifier::external_body]
pub(crate) fn form_decode(s: &str) -> (r: Vec<(String, String)>)
    ensures
        pair_texts(r@) == form_pairs(s@),
{
    url::form_urlencoded::parse(s.as_bytes()).into_owned().collect()
}

impl WebUrl {
    /// The whole URL.
    pub fn as_str(&self) -> (r: &str)
        ensures
            r@ == self@.href,
    {
        self.href.as_str()
    }
}

/// What stands after the last slash of a text.
pub open spec fn base_name(path: Seq<char>) -> Seq<char> {
    path.skip(last_of(path, '/') + 1)
}

/// What stands after the last slash of a text.
pub fn name_after_slash(path: &str) -> (r: String)
    ensures
        r@ == base_name(path@),
{
    let c = chars_of(path);
    let n = c.len();
    match find_last(c.as_slice(), '/') {
        Some(i) => {
            let s = slice_subrange(c.as_slice(), i + 1, n);
            assert(s@ == c@.skip(i + 1));
            string_of(s)
        },
        None => {
            assert(c@.skip(0) == c@);
            string_of(c.as_slice())
        },
    }
}

/// The host of a URL, in lower case, given what the URL parses to.
pub open spec fn host_given(parsed: Option<UrlParts>) -> Option<Seq<char>> {
    match parsed {
        Some(u) => match u.host {
            Some(h) => Some(ascii_lower(h)),
            None => None,
        },
        None => None,
    }
}

/// The host of a URL, in lower case.
pub open spec fn host_text(url: Seq<char>) -> Option<Seq<char>> {
    host_given(url_parsed(url))
}

/// Host of a URL, if it has one, in lower case.
pub fn host_of(url: &str) -> (r: Option<String>)
    ensures
        opt_text(r) == host_text(url@),
{
    host_in(parse_url(url))
}

/// The host of a URL, given what the URL parses to.
pub fn host_in(parsed: Option<WebUrl>) -> (r: Option<String>)
    ensures
        opt_text(r) == host_given(opt_url(parsed)),
{
    match parsed {
        Some(u) => match u.host {
            Some(h) => Some(string_of(lower_text(chars_of(h.as_str()).as_slice()).as_slice())),
            None => None,
        },
        None => None,
    }
}

/// The host of a URL does not depend on the case in which it is written, and
/// comes in small letters.
pub proof fn law_hosts_are_in_lower_case(u: UrlParts, h: Seq<char>, i: int)
    requires
        u.host == Some(h),
        0 <= i < h.len(),
    ensures
        host_given(Some(u)) matches Some(host) && host.len() == h.len() && !('A' <= host[i] <= 'Z')
            && (!('A' <= h[i] <= 'Z') ==> host[i] == h[i]) && ('A' <= h[i] <= 'Z' ==> host[i] as u32
            == h[i] as u32 + 32),
        host_given(None) is None,
        host_given(Some(UrlParts { host: None, ..u })) is None,
{
}

/// What stands after the last slash is the whole text where there is none.
pub proof fn law_names_stand_after_the_last_slash(dir: Seq<char>, name: Seq<char>)
    requires
        !name.contains('/'),
    ensures
        base_name(dir + seq!['/'] + name) == name,
        base_name(name) == name,
    decreases name.len(),
{
    let s = dir + seq!['/'] + name;
    if name.len() == 0 {
        assert(s.last() == '/');
        assert(base_name(s) =~= name);
        assert(base_name(name) =~= name);
    } else {
        let init = name.drop_last();
        assert(name[name.len() - 1] != '/');
        assert forall|k: int| 0 <= k < init.len() implies init[k] != '/' by {
            assert(name[k] != '/');
        }
        law_names_stand_after_the_last_slash(dir, init);
        let t = dir + seq!['/'] + init;
        assert(s.drop_last() =~= t);
        lemma_last_of(t, '/');
        lemma_last_of(init, '/');
        assert(base_name(t).len() == t.len() - last_of(t, '/') - 1);
        assert(base_name(init).len() == init.len() - last_of(init, '/') - 1);
        assert(last_of(s, '/') == last_of(t, '/'));
        assert(last_of(name, '/') == last_of(init, '/'));
        assert(base_name(s) =~= name);
        assert(base_name(name) =~= name);
    }
}

proof fn lemma_last_of(s: Seq<char>, c: char)
    ensures
        -1 <= last_of(s, c) < s.len(),
    decreases s.len(),
{
    if s.len() > 0 {
        lemma_last_of(s.drop_last(), c);
    }
}

} // verus!
