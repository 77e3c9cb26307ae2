//! URL classification: resolving links, telling listing pages and junk pages
//! from articles, and the canonical form used to compare links.

use crate::text::{str_eq, ascii_lower, ascii_lower_exec, all_ascii, chars_of, lower_of, occurs_at,
    occurs_at_exec, seq_contains, contains_seq, string_of, to_lower, trim, trim_spec};
use vstd::prelude::*;

verus! {

/// A parsed absolute URL, with the parts that the rules read held as text.
pub struct WebUrl {
    /// The whole URL as `url` serializes it.
    pub href: String,
    /// The host when it is a domain name (not an IP address).
    pub domain: Option<String>,
    /// The host in any form.
    pub host: Option<String>,
    /// The percent-encoded path.
    pub path: String,
    /// The percent-encoded query, without the `?`.
    pub query: Option<String>,
}

/// The text parts of a URL.
pub struct UrlView {
    pub href: Seq<char>,
    pub domain: Option<Seq<char>>,
    pub host: Option<Seq<char>>,
    pub path: Seq<char>,
    pub query: Option<Seq<char>>,
}

pub open spec fn opt_view(o: Option<String>) -> Option<Seq<char>> {
    match o {
        Some(s) => Some(s@),
        None => None,
    }
}

impl View for WebUrl {
    type V = UrlView;

    open spec fn view(&self) -> UrlView {
        UrlView {
            href: self.href@,
            domain: opt_view(self.domain),
            host: opt_view(self.host),
            path: self.path@,
            query: opt_view(self.query),
        }
    }
}

pub open spec fn opt_url_view(o: Option<WebUrl>) -> Option<UrlView> {
    match o {
        Some(u) => Some(u@),
        None => None,
    }
}

/// What `url` documents of every URL it hands out: path and query are
/// percent-encoded ASCII.
pub open spec fn url_shape(u: UrlView) -> bool {
    all_ascii(u.path) && (u.query matches Some(q) ==> all_ascii(q))
}

/// What `url::Url::parse` gives for the text.
pub uninterp spec fn url_parse_of(s: Seq<char>) -> Option<UrlView>;

/// What `url::Url::join` gives for the URL that `base` parses to and the text.
pub uninterp spec fn url_join_of(base: Seq<char>, s: Seq<char>) -> Option<UrlView>;

/// What `url::Url::set_fragment(None)` leaves of the URL that `href` parses to.
pub uninterp spec fn url_without_fragment_of(href: Seq<char>) -> Option<UrlView>;

/// What `url::Url::set_query` leaves of the URL that `href` parses to.
pub uninterp spec fn url_with_query_of(href: Seq<char>, q: Option<Seq<char>>) -> Option<UrlView>;

/// What `form_urlencoded::parse` decodes the text to: key and value pairs.
pub uninterp spec fn query_pairs_of(q: Seq<char>) -> Seq<(Seq<char>, Seq<char>)>;

/// What `form_urlencoded::Serializer` writes for the pairs.
pub uninterp spec fn encode_pairs_of(p: Seq<(Seq<char>, Seq<char>)>) -> Seq<char>;

pub open spec fn pairs_view(v: Seq<(String, String)>) -> Seq<(Seq<char>, Seq<char>)> {
    v.map_values(|p: (String, String)| (p.0@, p.1@))
}

/// Relies on `url::Url::parse`, whose docs give the path and the query as
/// percent-encoded ASCII.
#[verifier::external_body]
fn url_parse(s: &str) -> (r: Option<WebUrl>)
    ensures
        opt_url_view(r) == url_parse_of(s@),
        r matches Some(u) ==> url_shape(u@),
{
    let u = url::Url::parse(s).ok()?;
    Some(WebUrl { href: u.as_str().to_string(), domain: u.domain().map(String::from),
        host: u.host_str().map(String::from), path: u.path().to_string(),
        query: u.query().map(String::from) })
}

/// Parses an absolute URL.
pub fn parse_url(s: &str) -> (r: Option<WebUrl>)
    ensures
        opt_url_view(r) == url_parse_of(s@),
        r matches Some(u) ==> url_shape(u@),
{
    url_parse(s)
}

/// Relies on `url::Url::parse` and `url::Url::join`: `s` resolved against the
/// URL that `base.href` parses to.
#[verifier::external_body]
pub(crate) fn join_url(base: &WebUrl, s: &str) -> (r: Option<WebUrl>)
    ensures
        opt_url_view(r) == url_join_of(base.href@, s@),
        r matches Some(u) ==> url_shape(u@),
{
    let u = url::Url::parse(&base.href).ok()?.join(s).ok()?;
    Some(WebUrl { href: u.as_str().to_string(), domain: u.domain().map(String::from),
        host: u.host_str().map(String::from), path: u.path().to_string(),
        query: u.query().map(String::from) })
}

/// Relies on `url::Url::parse` and `url::Url::set_fragment` with `None`: the
/// URL that `href` parses to, without its fragment.
#[verifier::external_body]
fn without_fragment(href: &str) -> (r: Option<WebUrl>)
    ensures
        opt_url_view(r) == url_without_fragment_of(href@),
        r matches Some(u) ==> url_shape(u@),
{
    let mut u = url::Url::parse(href).ok()?;
    u.set_fragment(None);
    Some(WebUrl { href: u.as_str().to_string(), domain: u.domain().map(String::from),
        host: u.host_str().map(String::from), path: u.path().to_string(),
        query: u.query().map(String::from) })
}

/// Relies on `url::Url::parse` and `url::Url::set_query`: the URL that `href`
/// parses to, with its query replaced.
#[verifier::external_body]
fn with_query(href: &str, q: Option<String>) -> (r: Option<WebUrl>)
    ensures
        opt_url_view(r) == url_with_query_of(href@, opt_view(q)),
        r matches Some(u) ==> url_shape(u@),
{
    let mut u = url::Url::parse(href).ok()?;
    u.set_query(q.as_deref());
    Some(WebUrl { href: u.as_str().to_string(), domain: u.domain().map(String::from),
        host: u.host_str().map(String::from), path: u.path().to_string(),
        query: u.query().map(String::from) })
}

/// Relies on `form_urlencoded::parse`: the decoded pairs of a query string.
#[verifier::external_body]
fn query_pairs(q: &str) -> (r: Vec<(String, String)>)
    ensures
        pairs_view(r@) == query_pairs_of(q@),
{
    url::form_urlencoded::parse(q.as_bytes()).into_owned().collect()
}

/// Relies on `form_urlencoded::Serializer`: the pairs encoded as a query string.
#[verifier::external_body]
fn encode_pairs(p: &Vec<(String, String)>) -> (r: String)
    ensures
        r@ == encode_pairs_of(pairs_view(p@)),
{
    url::form_urlencoded::Serializer::new(String::new()).extend_pairs(p.iter()).finish()
}

/// Some word of `ws` occurs in `s`.
pub open spec fn contains_any(s: Seq<char>, ws: Seq<Seq<char>>) -> bool {
    exists|k: int| 0 <= k < ws.len() && seq_contains(s, #[trigger] ws[k])
}

pub open spec fn words_view(ws: Seq<&str>) -> Seq<Seq<char>> {
    ws.map_values(|w: &str| w@)
}

/// Whether some word of `ws` occurs in `s`.
pub fn contains_any_exec(s: &Vec<char>, ws: &Vec<&str>) -> (r: bool)
    ensures
        r == contains_any(s@, words_view(ws@)),
{
    let mut k: usize = 0;
    while k < ws.len()
        invariant
            k <= ws.len(),
            forall|j: int| 0 <= j < k ==> !seq_contains(s@, #[trigger] words_view(ws@)[j]),
        decreases ws.len() - k,
    {
        let w = chars_of(ws[k]);
        if contains_seq(s, &w) {
            assert(words_view(ws@)[k as int] == w@);
            return true;
        }
        k = k + 1;
    }
    false
}

pub open spec fn is_digit(c: char) -> bool {
    '0' <= c && c <= '9'
}

/// `n` decimal digits stand in `s` from position `i`.
pub open spec fn digits_at(s: Seq<char>, i: int, n: int) -> bool {
    0 <= i && i + n <= s.len() && forall|k: int| i <= k < i + n ==> is_digit(#[trigger] s[k])
}

fn digits_at_exec(s: &Vec<char>, i: usize, n: usize) -> (r: bool)
    ensures
        r == digits_at(s@, i as int, n as int),
{
    if i > s.len() || n > s.len() - i {
        return false;
    }
    let mut k: usize = i;
    while k < i + n
        invariant
            i <= k <= i + n <= s.len(),
            forall|j: int| i <= j < k ==> is_digit(#[trigger] s@[j]),
        decreases i + n - k,
    {
        if !('0' <= s[k] && s[k] <= '9') {
            return false;
        }
        k = k + 1;
    }
    true
}

/// `/YYYY/M/D/` stands at `i` with a month of `a` digits and a day of `b`.
pub open spec fn date_shape(s: Seq<char>, i: int, a: int, b: int) -> bool {
    &&& 0 <= i && i + 8 + a + b <= s.len()
    &&& s[i] == '/' && digits_at(s, i + 1, 4) && s[i + 5] == '/'
    &&& digits_at(s, i + 6, a) && s[i + 6 + a] == '/'
    &&& digits_at(s, i + 7 + a, b) && s[i + 7 + a + b] == '/'
}

/// A date segment `/YYYY/M/D/` (month and day of one or two digits) at `i`.
pub open spec fn date_at(s: Seq<char>, i: int) -> bool {
    date_shape(s, i, 1, 1) || date_shape(s, i, 1, 2) || date_shape(s, i, 2, 1) || date_shape(s, i, 2, 2)
}

/// `s` holds a date segment `/YYYY/M/D/`.
pub open spec fn has_date_segment(s: Seq<char>) -> bool {
    exists|i: int| date_at(s, i)
}

/// An ISO date `/YYYY-MM-DD` at `i`.
pub open spec fn iso_date_at(s: Seq<char>, i: int) -> bool {
    &&& 0 <= i && i + 11 <= s.len()
    &&& s[i] == '/' && digits_at(s, i + 1, 4) && s[i + 5] == '-'
    &&& digits_at(s, i + 6, 2) && s[i + 8] == '-' && digits_at(s, i + 9, 2)
}

fn date_shape_exec(s: &Vec<char>, i: usize, a: usize, b: usize) -> (r: bool)
    requires
        1 <= a <= 2,
        1 <= b <= 2,
    ensures
        r == date_shape(s@, i as int, a as int, b as int),
{
    if i >= s.len() || 8 + a + b > s.len() - i {
        return false;
    }
    s[i] == '/' && digits_at_exec(s, i + 1, 4) && s[i + 5] == '/' && digits_at_exec(s, i + 6, a)
        && s[i + 6 + a] == '/' && digits_at_exec(s, i + 7 + a, b) && s[i + 7 + a + b] == '/'
}

fn iso_date_at_exec(s: &Vec<char>, i: usize) -> (r: bool)
    ensures
        r == iso_date_at(s@, i as int),
{
    if i >= s.len() || 11 > s.len() - i {
        return false;
    }
    s[i] == '/' && digits_at_exec(s, i + 1, 4) && s[i + 5] == '-' && digits_at_exec(s, i + 6, 2)
        && s[i + 8] == '-' && digits_at_exec(s, i + 9, 2)
}

/// Whether `s` holds a date segment `/YYYY/M/D/`.
pub fn has_date_segment_exec(s: &Vec<char>) -> (r: bool)
    ensures
        r == has_date_segment(s@),
{
    let mut i: usize = 0;
    while i < s.len()
        invariant
            i <= s.len(),
            forall|j: int| 0 <= j < i ==> !date_at(s@, j),
        decreases s.len() - i,
    {
        if date_shape_exec(s, i, 1, 1) || date_shape_exec(s, i, 1, 2) || date_shape_exec(s, i, 2, 1)
            || date_shape_exec(s, i, 2, 2) {
            assert(date_at(s@, i as int));
            return true;
        }
        i = i + 1;
    }
    assert forall|j: int| !date_at(s@, j) by {
        if j >= s.len() || j < 0 {
        }
    }
    false
}

/// Whether `s` holds an ISO date `/YYYY-MM-DD`.
fn has_iso_date_exec(s: &Vec<char>) -> (r: bool)
    ensures
        r == exists|i: int| iso_date_at(s@, i),
{
    let mut i: usize = 0;
    while i < s.len()
        invariant
            i <= s.len(),
            forall|j: int| 0 <= j < i ==> !iso_date_at(s@, j),
        decreases s.len() - i,
    {
        if iso_date_at_exec(s, i) {
            assert(iso_date_at(s@, i as int));
            return true;
        }
        i = i + 1;
    }
    assert forall|j: int| !iso_date_at(s@, j) by {
        if j >= s.len() || j < 0 {
        }
    }
    false
}

/// The path tokens that mark an article; `/entry/` counts where `entry` holds.
pub open spec fn article_words(entry: bool) -> Seq<Seq<char>> {
    if entry {
        seq!["/article/"@, "/articles/"@, "/story/"@, "/stories/"@, "/entry/"@]
    } else {
        seq!["/article/"@, "/articles/"@, "/story/"@, "/stories/"@]
    }
}

/// `s` names an article: an article token (ASCII case ignored) or an ISO date.
pub open spec fn has_article_token(s: Seq<char>, entry: bool) -> bool {
    contains_any(ascii_lower(s), article_words(entry)) || exists|i: int| iso_date_at(s, i)
}

/// Whether `s` holds an article token or an ISO date.
pub fn has_article_token_exec(s: &Vec<char>, entry: bool) -> (r: bool)
    ensures
        r == has_article_token(s@, entry),
{
    let low = ascii_lower_exec(s);
    let ws = if entry {
        vec!["/article/", "/articles/", "/story/", "/stories/", "/entry/"]
    } else {
        vec!["/article/", "/articles/", "/story/", "/stories/"]
    };
    assert(words_view(ws@) =~= article_words(entry));
    contains_any_exec(&low, &ws) || has_iso_date_exec(s)
}

/// The number of non-empty `/`-separated segments of `s`.
pub open spec fn segment_count(s: Seq<char>) -> nat
    decreases s.len(),
{
    if s.len() == 0 {
        0
    } else {
        segment_count(s.drop_last()) + if s.last() != '/' && (s.len() == 1 || s[s.len() - 2] == '/') {
            1nat
        } else {
            0nat
        }
    }
}

fn segment_count_exec(s: &Vec<char>) -> (r: usize)
    ensures
        r == segment_count(s@),
{
    let mut n: usize = 0;
    let mut i: usize = 0;
    while i < s.len()
        invariant
            i <= s.len(),
            n <= i,
            n == segment_count(s@.subrange(0, i as int)),
        decreases s.len() - i,
    {
        assert(s@.subrange(0, i + 1).drop_last() =~= s@.subrange(0, i as int));
        if s[i] != '/' && (i == 0 || s[i - 1] == '/') {
            n = n + 1;
        }
        i = i + 1;
    }
    assert(s@.subrange(0, s.len() as int) =~= s@);
    n
}

/// Path words that mark a section index.
pub open spec fn section_words() -> Seq<Seq<char>> {
    seq!["/news"@, "/section/"@, "/category/"@, "/topic/"@, "/topics/"@, "/tag/"@, "/tags/"@]
}

/// A listing page of the same site as `base`: its root, a section path, or a
/// short path (two segments at most) with no date and no article token.
pub open spec fn is_listing_spec(u: UrlView, base: UrlView) -> bool {
    &&& u.domain == base.domain
    &&& {
        ||| u.path.len() == 0
        ||| (u.path.len() == 1 && u.path[0] == '/')
        ||| contains_any(ascii_lower(u.path), section_words())
        ||| (segment_count(u.path) <= 2 && !has_date_segment(u.path) && !has_article_token(u.path, true))
    }
}

fn same_opt_string(a: &Option<String>, b: &Option<String>) -> (r: bool)
    ensures
        r == (opt_view(*a) == opt_view(*b)),
{
    match (a, b) {
        (Some(x), Some(y)) => {
            let xv = chars_of(x.as_str());
            let yv = chars_of(y.as_str());
            crate::text::same_chars(&xv, &yv)
        },
        (None, None) => true,
        _ => false,
    }
}

/// Whether `u` is a listing page (a section or index) of the site of `base`.
pub fn is_listing_page(u: &WebUrl, base: &WebUrl) -> (r: bool)
    ensures
        r == is_listing_spec(u@, base@),
{
    if !same_opt_string(&u.domain, &base.domain) {
        return false;
    }
    let path = chars_of(u.path.as_str());
    if path.len() == 0 || (path.len() == 1 && path[0] == '/') {
        return true;
    }
    let low = ascii_lower_exec(&path);
    let ws = vec!["/news", "/section/", "/category/", "/topic/", "/topics/", "/tag/", "/tags/"];
    assert(words_view(ws@) =~= section_words());
    if contains_any_exec(&low, &ws) {
        return true;
    }
    segment_count_exec(&path) <= 2 && !has_date_segment_exec(&path) && !has_article_token_exec(&path, true)
}

/// Words of a path or query that mark a page that is not an article.
pub open spec fn junk_words() -> Seq<Seq<char>> {
    seq!["newsletter"@, "subscribe"@, "signup"@, "quizzes"@, "quiz"@, "jobs"@, "careers"@,
        "advert"@, "ads"@, "promo"@, "privacy"@, "terms"@, "about"@, "login"@, "signin"@,
        "store"@, "subscriptions"@, "donate"@]
}

/// A junk page: a junk word in the path or the query, ASCII case ignored.
pub open spec fn is_blacklisted_spec(u: UrlView) -> bool {
    contains_any(ascii_lower(u.path), junk_words())
        || (u.query matches Some(q) && contains_any(ascii_lower(q), junk_words()))
}

fn junk_words_exec() -> (r: Vec<&'static str>)
    ensures
        words_view(r@) == junk_words(),
{
    let ws = vec!["newsletter", "subscribe", "signup", "quizzes", "quiz", "jobs", "careers",
        "advert", "ads", "promo", "privacy", "terms", "about", "login", "signin",
        "store", "subscriptions", "donate"];
    assert(words_view(ws@) =~= junk_words());
    ws
}

/// Whether `u` points at a page that is never an article (newsletter, jobs,
/// login, store and the like).
pub fn is_blacklisted_url(u: &WebUrl) -> (r: bool)
    ensures
        r == is_blacklisted_spec(u@),
{
    let ws = junk_words_exec();
    let path = ascii_lower_exec(&chars_of(u.path.as_str()));
    if contains_any_exec(&path, &ws) {
        return true;
    }
    match &u.query {
        Some(q) => contains_any_exec(&ascii_lower_exec(&chars_of(q.as_str())), &ws),
        None => false,
    }
}

/// A query key used only for tracking: `utm_*`, `fbclid` or `gclid`, in any case.
pub open spec fn is_tracking_key(k: Seq<char>) -> bool {
    let l = lower_of(k);
    (l.len() >= 4 && l.subrange(0, 4) == "utm_"@) || l == "fbclid"@ || l == "gclid"@
}

/// The pairs whose key is not a tracking key, in their order.
pub open spec fn keep_pairs(p: Seq<(Seq<char>, Seq<char>)>) -> Seq<(Seq<char>, Seq<char>)>
    decreases p.len(),
{
    if p.len() == 0 {
        p
    } else if is_tracking_key(p.last().0) {
        keep_pairs(p.drop_last())
    } else {
        keep_pairs(p.drop_last()).push(p.last())
    }
}

/// The canonical form of a link: without fragment and tracking parameters, as
/// `url` serializes it; text that is no URL (or whose serialization does not
/// parse again) stays as it is.
pub open spec fn canonical_spec(s: Seq<char>) -> Seq<char> {
    match url_parse_of(s) {
        None => s,
        Some(u) => match url_without_fragment_of(u.href) {
            None => s,
            Some(f) => match f.query {
                None => f.href,
                Some(q) => {
                    let kept = keep_pairs(query_pairs_of(q));
                    match url_with_query_of(f.href, if kept.len() == 0 { None } else { Some(encode_pairs_of(kept)) }) {
                        Some(w) => w.href,
                        None => s,
                    }
                },
            },
        },
    }
}

fn is_tracking_key_exec(k: &str) -> (r: bool)
    ensures
        r == is_tracking_key(k@),
{
    let low = to_lower(k);
    let lv = chars_of(low.as_str());
    proof { reveal_strlit("utm_"); }
    crate::text::starts_with_str(&lv, "utm_") || str_eq(low.as_str(), "fbclid") || str_eq(low.as_str(), "gclid")
}

fn keep_pairs_exec(p: Vec<(String, String)>) -> (r: Vec<(String, String)>)
    ensures
        pairs_view(r@) == keep_pairs(pairs_view(p@)),
{
    let mut out: Vec<(String, String)> = Vec::new();
    let mut i: usize = 0;
    while i < p.len()
        invariant
            i <= p.len(),
            pairs_view(out@) == keep_pairs(pairs_view(p@.subrange(0, i as int))),
        decreases p.len() - i,
    {
        assert(pairs_view(p@.subrange(0, i + 1)).drop_last() =~= pairs_view(p@.subrange(0, i as int)));
        let pair = &p[i];
        if !is_tracking_key_exec(pair.0.as_str()) {
            let kept = (pair.0.clone(), pair.1.clone());
            out.push(kept);
            assert(pairs_view(out@) =~= keep_pairs(pairs_view(p@.subrange(0, i as int))).push((p@[i as int].0@, p@[i as int].1@)));
        }
        i = i + 1;
    }
    assert(p@.subrange(0, p.len() as int) =~= p@);
    out
}

/// Dropping tracking pairs twice drops nothing more.
pub proof fn lemma_keep_pairs_idempotent(p: Seq<(Seq<char>, Seq<char>)>)
    ensures
        keep_pairs(keep_pairs(p)) == keep_pairs(p),
    decreases p.len(),
{
    if p.len() > 0 {
        lemma_keep_pairs_idempotent(p.drop_last());
        if !is_tracking_key(p.last().0) {
            let k = keep_pairs(p.drop_last()).push(p.last());
            assert(k.drop_last() =~= keep_pairs(p.drop_last()));
        }
    }
}

/// The canonical form of a link, used only to compare links: the fragment and
/// the tracking parameters are dropped. Text that does not parse is returned
/// unchanged.
pub fn canonicalize_url_str(s: &str) -> (r: String)
    ensures
        r@ == canonical_spec(s@),
{
    let unchanged = string_of(&chars_of(s));
    let u = match parse_url(s) {
        None => return unchanged,
        Some(u) => u,
    };
    let f = match without_fragment(u.href.as_str()) {
        None => return unchanged,
        Some(f) => f,
    };
    match &f.query {
        None => f.href,
        Some(q) => {
            let pairs = query_pairs(q.as_str());
            let kept = keep_pairs_exec(pairs);
            let nq = if kept.len() == 0 {
                None
            } else {
                Some(encode_pairs(&kept))
            };
            match with_query(f.href.as_str(), nq) {
                Some(w) => w.href,
                None => unchanged,
            }
        },
    }
}

/// No pair kept by canonicalization has a tracking key.
pub proof fn lemma_keep_pairs_untracked(p: Seq<(Seq<char>, Seq<char>)>)
    ensures
        forall|i: int| 0 <= i < keep_pairs(p).len() ==> !is_tracking_key(#[trigger] keep_pairs(p)[i].0),
    decreases p.len(),
{
    if p.len() > 0 {
        lemma_keep_pairs_untracked(p.drop_last());
        let prev = keep_pairs(p.drop_last());
        if !is_tracking_key(p.last().0) {
            assert forall|i: int| 0 <= i < keep_pairs(p).len() implies !is_tracking_key(#[trigger] keep_pairs(p)[i].0) by {
                if i < prev.len() {
                    assert(keep_pairs(p)[i] == prev[i]);
                }
            }
        }
    }
}

/// The value of the first pair keyed `url` or `u` whose value is itself a URL.
pub open spec fn first_wrapped(p: Seq<(Seq<char>, Seq<char>)>) -> Option<Seq<char>>
    decreases p.len(),
{
    if p.len() == 0 {
        None
    } else if (p[0].0 == "url"@ || p[0].0 == "u"@) && url_parse_of(p[0].1) is Some {
        Some(p[0].1)
    } else {
        first_wrapped(p.drop_first())
    }
}

/// The URL that a redirect or tracking link wraps in its `url` or `u`
/// parameter; a parameter value that is no URL wraps nothing.
pub open spec fn inner_url_spec(u: UrlView) -> Option<Seq<char>> {
    match u.query {
        None => None,
        Some(q) => first_wrapped(query_pairs_of(q)),
    }
}

/// The decoded value of the first query parameter named `url` or `u` whose
/// value is itself a URL.
pub fn extract_inner_query_url(u: &WebUrl) -> (r: Option<String>)
    ensures
        opt_view(r) == inner_url_spec(u@),
{
    match &u.query {
        None => None,
        Some(q) => {
            let pairs = query_pairs(q.as_str());
            let mut i: usize = 0;
            assert(pairs_view(pairs@).subrange(0, pairs@.len() as int) =~= pairs_view(pairs@));
            while i < pairs.len()
                invariant
                    i <= pairs.len(),
                    u@.query == Some(q@),
                    pairs_view(pairs@) == query_pairs_of(q@),
                    first_wrapped(pairs_view(pairs@)) == first_wrapped(pairs_view(pairs@).subrange(i as int, pairs@.len() as int)),
                decreases pairs.len() - i,
            {
                let ghost rest = pairs_view(pairs@).subrange(i as int, pairs@.len() as int);
                assert(rest.drop_first() =~= pairs_view(pairs@).subrange(i + 1, pairs@.len() as int));
                let k = pairs[i].0.as_str();
                assert(rest[0] == (pairs@[i as int].0@, pairs@[i as int].1@));
                if (str_eq(k, "url") || str_eq(k, "u")) && parse_url(pairs[i].1.as_str()).is_some() {
                    assert(rest.len() > 0);
                    assert(first_wrapped(rest) == Some(pairs@[i as int].1@));
                    let v = pairs[i].1.clone();
                    return Some(v);
                }
                i = i + 1;
            }
            None
        },
    }
}

/// A parsed link, or the link it wraps.
pub open spec fn unwrapped_spec(u: UrlView) -> Seq<char> {
    match inner_url_spec(u) {
        Some(i) => i,
        None => u.href,
    }
}

/// The first position where `p` occurs in `s` at `i` or later.
pub open spec fn find_from(s: Seq<char>, p: Seq<char>, i: int) -> Option<int>
    decreases s.len() + 1 - i,
{
    if i < 0 || i + p.len() > s.len() {
        None
    } else if occurs_at(s, p, i) {
        Some(i)
    } else {
        find_from(s, p, i + 1)
    }
}

fn find_str(s: &Vec<char>, p: &str) -> (r: Option<usize>)
    ensures
        match r {
            Some(i) => find_from(s@, p@, 0) == Some(i as int) && occurs_at(s@, p@, i as int),
            None => find_from(s@, p@, 0) is None,
        },
{
    let pv = chars_of(p);
    let mut i: usize = 0;
    while i <= s.len() && pv.len() <= s.len() - i
        invariant
            i <= s.len(),
            find_from(s@, p@, 0) == find_from(s@, p@, i as int),
            pv@ == p@,
        decreases s.len() - i,
    {
        if occurs_at_exec(s, &pv, i) {
            return Some(i);
        }
        if i == s.len() {
            assert(pv@.len() == 0 ==> s@.subrange(i as int, i as int) =~= pv@);
            return None;
        }
        i = i + 1;
    }
    None
}

/// Where a link leads: the text parsed as an absolute URL, else resolved
/// against `base`, then unwrapped where it wraps another URL; as a last resort
/// the decoded value after an embedded `url=`. Empty text leads nowhere.
pub open spec fn resolve_spec(base: UrlView, raw: Seq<char>) -> Option<Seq<char>> {
    let s = trim_spec(raw);
    if s.len() == 0 {
        None
    } else {
        match url_parse_of(s) {
            Some(u) => Some(unwrapped_spec(u)),
            None => match url_join_of(base.href, s) {
                Some(u) => Some(unwrapped_spec(u)),
                None => match find_from(s, "url="@, 0) {
                    Some(i) => {
                        let pairs = query_pairs_of(s.subrange(i + 4, s.len() as int));
                        if pairs.len() > 0 { Some(pairs[0].1) } else { None }
                    },
                    None => None,
                },
            },
        }
    }
}

/// Resolves a link found on the page at `base` (see `resolve_spec`).
pub fn normalize_maybe_url(base: &WebUrl, raw: &str) -> (r: Option<String>)
    ensures
        opt_view(r) == resolve_spec(base@, raw@),
{
    let sv = trim(&chars_of(raw));
    if sv.len() == 0 {
        return None;
    }
    let s = string_of(&sv);
    if let Some(u) = parse_url(s.as_str()) {
        return match extract_inner_query_url(&u) {
            Some(inner) => Some(inner),
            None => Some(u.href),
        };
    }
    if let Some(u) = join_url(base, s.as_str()) {
        return match extract_inner_query_url(&u) {
            Some(inner) => Some(inner),
            None => Some(u.href),
        };
    }
    match find_str(&sv, "url=") {
        Some(i) => {
            proof { reveal_strlit("url="); }
            let mut after: Vec<char> = Vec::new();
            let mut k: usize = i + 4;
            while k < sv.len()
                invariant
                    i + 4 <= k <= sv.len(),
                    after@ =~= sv@.subrange(i + 4, k as int),
                decreases sv.len() - k,
            {
                after.push(sv[k]);
                k = k + 1;
            }
            let pairs = query_pairs(string_of(&after).as_str());
            if pairs.len() > 0 {
                Some(pairs[0].1.clone())
            } else {
                None
            }
        },
        None => None,
    }
}

/// A URL whose path holds `newsletter`, in any ASCII case, is a junk page.
pub proof fn lemma_newsletter_is_junk(u: UrlView)
    requires
        seq_contains(ascii_lower(u.path), "newsletter"@),
    ensures
        is_blacklisted_spec(u),
{
    assert(junk_words()[0] == "newsletter"@);
}

/// The root of a site, and any path holding `/news` (ASCII case ignored), is a
/// listing page of any URL of the same domain, whatever its segment count.
pub proof fn lemma_root_and_news_are_listings(u: UrlView, base: UrlView)
    requires
        u.domain == base.domain,
        u.path.len() == 0 || (u.path.len() == 1 && u.path[0] == '/')
            || seq_contains(ascii_lower(u.path), "/news"@),
    ensures
        is_listing_spec(u, base),
{
    assert(section_words()[0] == "/news"@);
}

/// A dated four-segment article path, `/2024/05/01/story-title`, is never a
/// listing page.
pub proof fn lemma_dated_story_not_listing(u: UrlView, base: UrlView)
    requires
        u.path == "/2024/05/01/story-title"@,
    ensures
        !is_listing_spec(u, base),
{
    reveal_strlit("/2024/05/01/story-title");
    let p = u.path;
    assert(p.len() == 23);
    assert(ascii_lower(p) =~= p);
    assert forall|k: int| 0 <= k < section_words().len() implies !seq_contains(p, #[trigger] section_words()[k]) by {
        let w = section_words()[k];
        reveal_strlit("/news");
        reveal_strlit("/section/");
        reveal_strlit("/category/");
        reveal_strlit("/topic/");
        reveal_strlit("/topics/");
        reveal_strlit("/tag/");
        reveal_strlit("/tags/");
        assert forall|i: int| !occurs_at(p, w, i) by {
            if occurs_at(p, w, i) {
                assert(p.subrange(i, i + w.len())[0] == w[0]);
                assert(p.subrange(i, i + w.len())[1] == w[1]);
                assert(p.subrange(i, i + w.len())[2] == w[2]);
                assert(p[i] == '/');
                assert(i == 0 || i == 5 || i == 8 || i == 11);
            }
        }
    }
    reveal_with_fuel(segment_count, 24);
    assert(segment_count(p) >= 3);
}

/// A URL of another domain is never a listing page.
pub proof fn lemma_other_domain_not_listing(u: UrlView, base: UrlView)
    requires
        u.domain != base.domain,
    ensures
        !is_listing_spec(u, base),
{
}

/// Whether the literal `p` occurs in `s` at `i`.
pub fn occurs_at_str(s: &Vec<char>, p: &str, i: usize) -> (r: bool)
    ensures
        r == occurs_at(s@, p@, i as int),
{
    occurs_at_exec(s, &chars_of(p), i)
}

/// How many decimal digits end `s`.
pub open spec fn trailing_digits(s: Seq<char>) -> nat
    decreases s.len(),
{
    if s.len() > 0 && is_digit(s.last()) {
        trailing_digits(s.drop_last()) + 1
    } else {
        0
    }
}

/// The position of the last `/` of `s`, or -1.
pub open spec fn last_slash(s: Seq<char>) -> int
    decreases s.len(),
{
    if s.len() == 0 {
        -1
    } else if s.last() == '/' {
        s.len() - 1
    } else {
        last_slash(s.drop_last())
    }
}

/// The entry shape of one publisher: the last segment follows `/entry/`,
/// holds something before an `_`, and ends in `_` and digits.
pub open spec fn is_entry_url(s: Seq<char>) -> bool {
    let d = s.len() - trailing_digits(s);
    let l = last_slash(s);
    &&& trailing_digits(s) > 0
    &&& d >= 1 && s[d - 1] == '_'
    &&& l >= 6 && occurs_at(s, "/entry/"@, l - 6)
    &&& l + 1 < d - 1
}

/// Whether `s` has the publisher's entry shape (see `is_entry_url`).
pub fn is_entry_url_exec(s: &Vec<char>) -> (r: bool)
    ensures
        r == is_entry_url(s@),
{
    let mut d: usize = s.len();
    assert(s@.subrange(0, s.len() as int) =~= s@);
    while d > 0 && '0' <= s[d - 1] && s[d - 1] <= '9'
        invariant
            d <= s.len(),
            trailing_digits(s@) == trailing_digits(s@.subrange(0, d as int)) + (s.len() - d),
        decreases d,
    {
        assert(s@.subrange(0, d as int).drop_last() =~= s@.subrange(0, d - 1));
        d = d - 1;
    }
    assert(s@.subrange(0, s.len() as int) =~= s@);
    let mut l: usize = s.len();
    while l > 0 && s[l - 1] != '/'
        invariant
            l <= s.len(),
            last_slash(s@) == last_slash(s@.subrange(0, l as int)),
        decreases l,
    {
        assert(s@.subrange(0, l as int).drop_last() =~= s@.subrange(0, l - 1));
        l = l - 1;
    }
    if l > 0 {
        assert(s@.subrange(0, l as int).drop_last() =~= s@.subrange(0, l - 1));
    }
    // `l` is one past the last slash here
    if d == s.len() || d < 1 || s[d - 1] != '_' || l < 7 {
        return false;
    }
    occurs_at_str(s, "/entry/", l - 7) && l < d - 1
}

/// The comma-separated parts of `s`, as `str::split(',')` gives them.
pub open spec fn split_commas(s: Seq<char>) -> Seq<Seq<char>>
    decreases s.len(),
{
    if s.len() == 0 {
        seq![Seq::empty()]
    } else {
        let prev = split_commas(s.drop_last());
        if s.last() == ',' {
            prev.push(Seq::empty())
        } else {
            prev.update(prev.len() - 1, prev.last().push(s.last()))
        }
    }
}

proof fn lemma_split_nonempty(s: Seq<char>)
    ensures
        split_commas(s).len() > 0,
    decreases s.len(),
{
    if s.len() > 0 {
        lemma_split_nonempty(s.drop_last());
    }
}

/// The host matches an allowlist entry: the same name (ASCII case ignored),
/// or a subdomain of it.
pub open spec fn host_matches(h: Seq<char>, p: Seq<char>) -> bool {
    ascii_lower(h) == ascii_lower(p) || {
        let suffix = seq!['.'] + p;
        let lh = lower_of(h);
        suffix.len() <= lh.len() && lh.subrange(lh.len() - suffix.len(), lh.len() as int) == suffix
    }
}

/// The URL's host is on the comma-separated allowlist (entries trimmed and
/// compared in lower case; empty entries ignored).
pub open spec fn allowed_spec(u: UrlView, allowlist: Seq<char>) -> bool {
    match u.host {
        None => false,
        Some(h) => exists|k: int| 0 <= k < split_commas(allowlist).len() && {
            let p = lower_of(trim_spec(#[trigger] split_commas(allowlist)[k]));
            p.len() > 0 && host_matches(h, p)
        },
    }
}

fn split_commas_exec(s: &Vec<char>) -> (r: Vec<Vec<char>>)
    ensures
        r@.map_values(|v: Vec<char>| v@) == split_commas(s@),
{
    let mut out: Vec<Vec<char>> = Vec::new();
    out.push(Vec::new());
    assert(out@.map_values(|v: Vec<char>| v@) =~= split_commas(s@.subrange(0, 0)));
    let mut i: usize = 0;
    while i < s.len()
        invariant
            i <= s.len(),
            out@.len() > 0,
            out@.map_values(|v: Vec<char>| v@) == split_commas(s@.subrange(0, i as int)),
        decreases s.len() - i,
    {
        assert(s@.subrange(0, i + 1).drop_last() =~= s@.subrange(0, i as int));
        let ghost prev = out@.map_values(|v: Vec<char>| v@);
        if s[i] == ',' {
            out.push(Vec::new());
            assert(out@.map_values(|v: Vec<char>| v@) =~= prev.push(Seq::empty()));
        } else {
            let last = out.len() - 1;
            let mut cur = out.pop().unwrap();
            cur.push(s[i]);
            out.push(cur);
            assert(out@.map_values(|v: Vec<char>| v@) =~= prev.update(last as int, prev.last().push(s@[i as int])));
        }
        i = i + 1;
    }
    assert(s@.subrange(0, s.len() as int) =~= s@);
    out
}

/// Whether the URL's host is on the comma-separated allowlist of domains
/// exempt from paywall skipping.
pub fn allowed_domain(u: &WebUrl, allowlist: &str) -> (r: bool)
    ensures
        r == allowed_spec(u@, allowlist@),
{
    let h = match &u.host {
        None => return false,
        Some(h) => h,
    };
    let hv = chars_of(h.as_str());
    let hl = ascii_lower_exec(&hv);
    let hlow = chars_of(to_lower(h.as_str()).as_str());
    let parts = split_commas_exec(&chars_of(allowlist));
    let ghost pv = parts@.map_values(|v: Vec<char>| v@);
    let mut k: usize = 0;
    while k < parts.len()
        invariant
            k <= parts.len(),
            pv == parts@.map_values(|v: Vec<char>| v@),
            pv == split_commas(allowlist@),
            u@.host == Some(h@),
            hv@ == h@,
            hl@ == ascii_lower(h@),
            hlow@ == lower_of(h@),
            forall|j: int| 0 <= j < k ==> !({
                let p = lower_of(trim_spec(#[trigger] pv[j]));
                p.len() > 0 && host_matches(h@, p)
            }),
        decreases parts.len() - k,
    {
        let t = trim(&parts[k]);
        let p = chars_of(to_lower(string_of(&t).as_str()).as_str());
        if p.len() > 0 {
            let pl = ascii_lower_exec(&p);
            let mut suffix: Vec<char> = vec!['.'];
            let mut pc = p.clone();
            suffix.append(&mut pc);
            assert(suffix@ =~= seq!['.'] + p@);
            let ends = suffix.len() <= hlow.len()
                && crate::text::same_chars(&tail(&hlow, suffix.len()), &suffix);
            if crate::text::same_chars(&hl, &pl) || ends {
                assert(pv[k as int] == parts@[k as int]@);
                assert(p@ == lower_of(trim_spec(pv[k as int])));
                assert(host_matches(h@, p@));
                return true;
            }
        }
        k = k + 1;
    }
    false
}

/// The last `n` characters of `s`.
fn tail(s: &Vec<char>, n: usize) -> (r: Vec<char>)
    requires
        n <= s.len(),
    ensures
        r@ == s@.subrange(s.len() - n, s.len() as int),
{
    let mut out: Vec<char> = Vec::new();
    let mut i: usize = s.len() - n;
    while i < s.len()
        invariant
            n <= s.len(),
            s.len() - n <= i <= s.len(),
            out@ =~= s@.subrange(s.len() - n, i as int),
        decreases s.len() - i,
    {
        out.push(s[i]);
        i = i + 1;
    }
    out
}

} // verus!
