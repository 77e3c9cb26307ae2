//! The heuristic extractor: feed links, error pages, `<article>` elements,
//! related-article sections, scored candidate links and single fetched pages.

use crate::dom::{
    attr_exec, attr_of, join_first, join_spaced, parent_of, select_named, select_named_exec, strs_view,
    texts_exec, texts_in, DomNode, NodeKind,
};
use crate::item::{items_view, links_of, Item, ItemView};
use crate::jsonld::{extract_from_json_ld, jsonld_blocks_spec, strings_view};
use crate::text::{
    ascii_lower, ascii_lower_exec, chars_of, contains_str, ends_with_str, fix_mojibake, lower_of,
    normalize_spec, occurs_at, occurs_at_exec, seq_contains, str_eq, string_of, to_lower, trim, trim_spec,
};
use crate::urls::{
    canonical_spec, canonicalize_url_str, contains_any, contains_any_exec, has_article_token,
    has_article_token_exec, has_date_segment, has_date_segment_exec, is_blacklisted_spec, is_blacklisted_url,
    is_entry_url, is_entry_url_exec, is_listing_page, is_listing_spec, join_url, normalize_maybe_url, opt_view,
    parse_url, resolve_spec, url_join_of, url_parse_of, words_view, UrlView, WebUrl,
};
use vstd::prelude::*;

verus! {

/// Title and description words of error, placeholder and sign-in pages.
pub open spec fn error_title_words() -> Seq<Seq<char>> {
    seq!["uh-oh"@, "uh oh"@, "error"@, "404"@, "page not found"@, "not found"@, "we're sorry"@,
        "sorry"@, "login"@, "log in"@, "sign in"@, "sign-in"@, "sign in to"@]
}

/// Body phrases of error pages.
pub open spec fn error_body_words() -> Seq<Seq<char>> {
    seq!["uh-oh"@, "page not found"@, "an error occurred"@, "we\u{2019}re sorry"@, "we're sorry"@,
        "we are sorry"@, "sorry, an error"@]
}

/// How many of the body's text pieces the error scan reads.
pub const BODY_SCAN_TEXTS: usize = 200;

pub open spec fn min_int(a: int, b: int) -> int {
    if a < b { a } else { b }
}

/// The first text pieces of the first `<body>`, joined with spaces.
pub open spec fn body_text(nodes: Seq<DomNode>) -> Option<Seq<char>> {
    let b = select_named(nodes, 0, seq!["body"@]);
    if b.len() > 0 {
        let ts = texts_in(nodes, b[0]);
        Some(join_spaced(ts.take(min_int(BODY_SCAN_TEXTS as int, ts.len() as int))))
    } else {
        None
    }
}

/// An error or placeholder page: its title or its description holds an
/// error phrase, or the start of its body holds an error sentence (all in
/// lower case).
pub open spec fn is_error_spec(nodes: Seq<DomNode>, title: Seq<char>, desc: Option<Seq<char>>) -> bool {
    ||| contains_any(lower_of(title), error_title_words())
    ||| (desc matches Some(d) && contains_any(lower_of(d), error_title_words()))
    ||| (body_text(nodes) matches Some(t) && contains_any(lower_of(t), error_body_words()))
}

fn lower_chars(s: &str) -> (r: Vec<char>)
    ensures
        r@ == lower_of(s@),
{
    chars_of(to_lower(s).as_str())
}

/// Whether the page, with the given title and description, is an error or
/// placeholder page rather than an article.
pub fn is_error_page(nodes: &Vec<DomNode>, title: &str, desc: &Option<String>) -> (r: bool)
    ensures
        r == is_error_spec(nodes@, title@, opt_view(*desc)),
{
    let lt = lower_chars(title);
    let tw = vec!["uh-oh", "uh oh", "error", "404", "page not found", "not found", "we're sorry",
        "sorry", "login", "log in", "sign in", "sign-in", "sign in to"];
    assert(words_view(tw@) =~= error_title_words());
    if contains_any_exec(&lt, &tw) {
        return true;
    }
    if let Some(d) = desc {
        let ld = lower_chars(d.as_str());
        if contains_any_exec(&ld, &tw) {
            return true;
        }
    }
    let bn = vec!["body"];
    assert(strs_view(bn@) =~= seq!["body"@]);
    let bodies = select_named_exec(nodes, 0, &bn);
    if bodies.len() > 0 {
        let ts = texts_exec(nodes, bodies[0]);
        let joined = join_first(&ts, BODY_SCAN_TEXTS);
        let lb = lower_chars(string_of(&joined).as_str());
        let bw = vec!["uh-oh", "page not found", "an error occurred", "we\u{2019}re sorry",
            "we're sorry", "we are sorry", "sorry, an error"];
        assert(words_view(bw@) =~= error_body_words());
        return contains_any_exec(&lb, &bw);
    }
    false
}

/// The feed that a `<link rel="alternate">` element among `links` announces:
/// the first whose `type` names RSS or Atom and whose `href` resolves.
pub open spec fn feed_in(nodes: Seq<DomNode>, base: UrlView, links: Seq<int>) -> Option<UrlView>
    decreases links.len(),
{
    if links.len() == 0 {
        None
    } else {
        let n = nodes[links[0]];
        let found = if attr_of(n, "rel"@) == Some("alternate"@) {
            match (attr_of(n, "type"@), attr_of(n, "href"@)) {
                (Some(t), Some(h)) => if seq_contains(t, "rss"@) || seq_contains(t, "atom"@) {
                    url_join_of(base.href, h)
                } else {
                    None
                },
                _ => None,
            }
        } else {
            None
        };
        match found {
            Some(u) => Some(u),
            None => feed_in(nodes, base, links.drop_first()),
        }
    }
}

pub open spec fn opt_url(o: Option<WebUrl>) -> Option<UrlView> {
    match o {
        Some(u) => Some(u@),
        None => None,
    }
}

/// The RSS or Atom feed the page links to, resolved against `base`.
pub fn find_linked_feed(nodes: &Vec<DomNode>, base: &WebUrl) -> (r: Option<WebUrl>)
    ensures
        opt_url(r) == feed_in(nodes@, base@, select_named(nodes@, 0, seq!["link"@])),
{
    let ln = vec!["link"];
    assert(strs_view(ln@) =~= seq!["link"@]);
    let links = select_named_exec(nodes, 0, &ln);
    let ghost all = links@.map_values(|i: usize| i as int);
    let mut k: usize = 0;
    assert(all.subrange(0, all.len() as int) =~= all);
    while k < links.len()
        invariant
            k <= links.len(),
            all == links@.map_values(|i: usize| i as int),
            all == select_named(nodes@, 0, seq!["link"@]),
            forall|j: int| 0 <= j < links@.len() ==> links@[j] < nodes@.len(),
            feed_in(nodes@, base@, all) == feed_in(nodes@, base@, all.subrange(k as int, all.len() as int)),
        decreases links.len() - k,
    {
        let ghost rest = all.subrange(k as int, all.len() as int);
        assert(rest.drop_first() =~= all.subrange(k + 1, all.len() as int));
        assert(rest[0] == links@[k as int] as int);
        let n = &nodes[links[k]];
        let mut found: Option<WebUrl> = None;
        if let Some(rel) = attr_exec(n, "rel") {
            if str_eq(rel.as_str(), "alternate") {
                if let (Some(t), Some(h)) = (attr_exec(n, "type"), attr_exec(n, "href")) {
                    let tv = chars_of(t.as_str());
                    if contains_str(&tv, "rss") || contains_str(&tv, "atom") {
                        found = join_url(base, h.as_str());
                    }
                }
            }
        }
        if found.is_some() {
            return found;
        }
        k = k + 1;
    }
    None
}

/// A `<meta>` element that marks a single article: `og:type` naming an
/// article, or a publish time.
pub open spec fn marks_article(n: DomNode) -> bool {
    let name = match attr_of(n, "property"@) {
        Some(p) => Some(p),
        None => attr_of(n, "name"@),
    };
    match name {
        Some(nm) => {
            let nl = lower_of(nm);
            ||| (nl == "og:type"@ && (attr_of(n, "content"@) matches Some(c) && seq_contains(lower_of(c), "article"@)))
            ||| nl == "article:published_time"@
            ||| nl == "pubdate"@
        },
        None => false,
    }
}

/// The page describes one article: some `<meta>` element marks it so.
pub open spec fn looks_single_spec(nodes: Seq<DomNode>) -> bool {
    let metas = select_named(nodes, 0, seq!["meta"@]);
    exists|k: int| 0 <= k < metas.len() && marks_article(nodes[#[trigger] metas[k]])
}

fn marks_article_exec(n: &DomNode) -> (r: bool)
    ensures
        r == marks_article(*n),
{
    let name = match attr_exec(n, "property") {
        Some(p) => Some(p),
        None => attr_exec(n, "name"),
    };
    match name {
        Some(nm) => {
            let nl = to_lower(nm.as_str());
            if str_eq(nl.as_str(), "og:type") {
                if let Some(c) = attr_exec(n, "content") {
                    let cl = lower_chars(c.as_str());
                    if contains_str(&cl, "article") {
                        return true;
                    }
                }
            }
            str_eq(nl.as_str(), "article:published_time") || str_eq(nl.as_str(), "pubdate")
        },
        None => false,
    }
}

/// Whether the page's metadata says it is a single article.
pub fn looks_like_single_article(nodes: &Vec<DomNode>) -> (r: bool)
    ensures
        r == looks_single_spec(nodes@),
{
    let mn = vec!["meta"];
    assert(strs_view(mn@) =~= seq!["meta"@]);
    let metas = select_named_exec(nodes, 0, &mn);
    let ghost all = metas@.map_values(|i: usize| i as int);
    let mut k: usize = 0;
    while k < metas.len()
        invariant
            k <= metas.len(),
            all == metas@.map_values(|i: usize| i as int),
            all == select_named(nodes@, 0, seq!["meta"@]),
            forall|j: int| 0 <= j < metas@.len() ==> metas@[j] < nodes@.len(),
            forall|j: int| 0 <= j < k ==> !marks_article(nodes@[#[trigger] all[j]]),
        decreases metas.len() - k,
    {
        if marks_article_exec(&nodes[metas[k]]) {
            assert(marks_article(nodes@[all[k as int]]));
            return true;
        }
        k = k + 1;
    }
    false
}

/// The texts of the JSON-LD scripts among `scripts`: a `<script>` typed
/// `application/ld+json` whose first child is text.
pub open spec fn ld_texts_of(nodes: Seq<DomNode>, scripts: Seq<int>) -> Seq<Seq<char>>
    decreases scripts.len(),
{
    if scripts.len() == 0 {
        Seq::empty()
    } else {
        let s = scripts[0];
        let rest = ld_texts_of(nodes, scripts.drop_first());
        if attr_of(nodes[s], "type"@) == Some("application/ld+json"@) && s + 1 < nodes.len()
            && nodes[s + 1].parent == Some(s as usize) {
            match nodes[s + 1].kind {
                NodeKind::Text(t) => seq![t@] + rest,
                _ => rest,
            }
        } else {
            rest
        }
    }
}

/// The texts of the page's JSON-LD scripts, in document order.
pub open spec fn ld_texts(nodes: Seq<DomNode>) -> Seq<Seq<char>> {
    ld_texts_of(nodes, select_named(nodes, 0, seq!["script"@]))
}

/// The texts of the page's JSON-LD scripts, in document order.
pub fn ld_blocks(nodes: &Vec<DomNode>) -> (r: Vec<String>)
    ensures
        strings_view(r@) == ld_texts(nodes@),
{
    let sn = vec!["script"];
    assert(strs_view(sn@) =~= seq!["script"@]);
    let scripts = select_named_exec(nodes, 0, &sn);
    let ghost all = scripts@.map_values(|i: usize| i as int);
    let mut out: Vec<String> = Vec::new();
    let mut k: usize = scripts.len();
    assert(all.subrange(k as int, all.len() as int) =~= Seq::<int>::empty());
    while k > 0
        invariant
            k <= scripts.len(),
            all == scripts@.map_values(|i: usize| i as int),
            forall|j: int| 0 <= j < scripts@.len() ==> scripts@[j] < nodes@.len(),
            strings_view(out@) == ld_texts_of(nodes@, all.subrange(k as int, all.len() as int)),
        decreases k,
    {
        k = k - 1;
        let ghost rest = all.subrange(k as int, all.len() as int);
        assert(rest.drop_first() =~= all.subrange(k + 1, all.len() as int));
        let s = scripts[k];
        assert(s < nodes@.len());
        if let Some(t) = attr_exec(&nodes[s], "type") {
            if str_eq(t.as_str(), "application/ld+json") && s < nodes.len() - 1 && nodes[s + 1].parent == Some(s) {
                if let NodeKind::Text(txt) = &nodes[s + 1].kind {
                    let ghost prev = out@;
                    out.insert(0, txt.clone());
                    assert(strings_view(out@) =~= seq![txt@] + strings_view(prev));
                }
            }
        }
    }
    assert(all.subrange(0, all.len() as int) =~= all);
    out
}

/// What the `<meta>` elements give: title, description, image, publish date.
pub type MetaFields = (Option<Seq<char>>, Option<Seq<char>>, Option<Seq<char>>, Option<Seq<char>>);

/// The field a `<meta>` key feeds: 0 title, 1 description, 2 image, 3 date.
pub open spec fn meta_slot(key: Seq<char>) -> int {
    if key == "og:title"@ || key == "twitter:title"@ || key == "title"@ {
        0
    } else if key == "og:description"@ || key == "twitter:description"@ || key == "description"@ {
        1
    } else if key == "og:image"@ || key == "twitter:image"@ || key == "image"@ {
        2
    } else if key == "article:published_time"@ || key == "pubdate"@ || key == "date"@ {
        3
    } else {
        4
    }
}

/// The fields after one more `<meta>` element: the first value for each
/// field wins; text is normalized, images resolved against `cand`.
pub open spec fn meta_step(n: DomNode, cand: UrlView, acc: MetaFields) -> MetaFields {
    let name = match attr_of(n, "property"@) {
        Some(p) => Some(p),
        None => attr_of(n, "name"@),
    };
    match (name, attr_of(n, "content"@)) {
        (Some(nm), Some(c)) => {
            let slot = meta_slot(lower_of(nm));
            if slot == 0 && acc.0 is None {
                (Some(normalize_spec(c)), acc.1, acc.2, acc.3)
            } else if slot == 1 && acc.1 is None {
                (acc.0, Some(normalize_spec(c)), acc.2, acc.3)
            } else if slot == 2 && acc.2 is None {
                (acc.0, acc.1, resolve_spec(cand, c), acc.3)
            } else if slot == 3 && acc.3 is None {
                (acc.0, acc.1, acc.2, Some(c))
            } else {
                acc
            }
        },
        _ => acc,
    }
}

/// The fields read from the `<meta>` elements at `metas`, in order.
pub open spec fn meta_fold(nodes: Seq<DomNode>, cand: UrlView, metas: Seq<int>, acc: MetaFields) -> MetaFields
    decreases metas.len(),
{
    if metas.len() == 0 {
        acc
    } else {
        meta_fold(nodes, cand, metas.drop_first(), meta_step(nodes[metas[0]], cand, acc))
    }
}

fn meta_slot_exec(key: &str) -> (r: usize)
    ensures
        r as int == meta_slot(key@),
{
    if str_eq(key, "og:title") || str_eq(key, "twitter:title") || str_eq(key, "title") {
        0
    } else if str_eq(key, "og:description") || str_eq(key, "twitter:description") || str_eq(key, "description") {
        1
    } else if str_eq(key, "og:image") || str_eq(key, "twitter:image") || str_eq(key, "image") {
        2
    } else if str_eq(key, "article:published_time") || str_eq(key, "pubdate") || str_eq(key, "date") {
        3
    } else {
        4
    }
}

fn first_text_in(nodes: &Vec<DomNode>, a: usize, names: &Vec<&str>) -> (r: Option<String>)
    ensures
        opt_view(r) == first_text_at(nodes@, a as int, strs_view(names@)),
{
    let hs = select_named_exec(nodes, a, names);
    if hs.len() > 0 {
        let ts = texts_exec(nodes, hs[0]);
        if ts.len() > 0 {
            assert(ts@.map_values(|s: String| s@)[0] == ts@[0]@);
            let t = trim(&chars_of(ts[0].as_str()));
            return Some(fix_mojibake(string_of(&t).as_str()));
        }
    }
    None
}

/// The `src` of the first `<img>`, resolved against `cand`.
pub open spec fn first_image(nodes: Seq<DomNode>, cand: UrlView) -> Option<Seq<char>> {
    let imgs = select_named(nodes, 0, seq!["img"@]);
    if imgs.len() > 0 {
        match attr_of(nodes[imgs[0]], "src"@) {
            Some(src) => resolve_spec(cand, src),
            None => None,
        }
    } else {
        None
    }
}

/// Whether an entry linking to `link` passes the link checks: a link that
/// parses must be neither junk nor a listing page of `base`.
pub open spec fn link_ok(link: Seq<char>, base: UrlView) -> bool {
    match url_parse_of(link) {
        Some(u) => !is_blacklisted_spec(u) && !is_listing_spec(u, base),
        None => true,
    }
}

/// The entry of a fetched page `cand` found from `base`: the last JSON-LD
/// entry, where its title is not empty, the page is no error page and its
/// link passes the link checks; else from the metadata (title from meta tags,
/// else the first `<h1>`/`<h2>`, else `<title>`), kept only when that title is
/// not empty, the page is no error page and its link passes the link checks.
pub open spec fn doc_item_spec(nodes: Seq<DomNode>, cand: UrlView, base: UrlView) -> Option<ItemView> {
    let from_ld = match jsonld_blocks_spec(ld_texts(nodes), cand) {
        Some(v) if v.len() > 0 => {
            let it = v.last();
            let it2 = if it.link.len() == 0 { ItemView { link: cand.href, ..it } } else { it };
            if it2.title.len() > 0 && !is_error_spec(nodes, it2.title, it2.description) && link_ok(it2.link, base) {
                Some(it2)
            } else {
                None
            }
        },
        _ => None,
    };
    match from_ld {
        Some(it) => Some(it),
        None => {
            let m = meta_fold(nodes, cand, select_named(nodes, 0, seq!["meta"@]), (None, None, None, None));
            let title = match m.0 {
                Some(t) => Some(t),
                None => match first_text_at(nodes, 0, seq!["h1"@, "h2"@]) {
                    Some(t) => Some(t),
                    None => first_text_at(nodes, 0, seq!["title"@]),
                },
            };
            let image = match m.2 {
                Some(i) => Some(i),
                None => first_image(nodes, cand),
            };
            match title {
                Some(t) => if t.len() > 0 && !is_error_spec(nodes, t, m.1) && link_ok(cand.href, base) {
                    Some(ItemView { title: t, link: cand.href, description: m.1, pub_date: m.3, image })
                } else {
                    None
                },
                None => None,
            }
        },
    }
}

/// Whether an entry linking to `link` passes the link checks.
pub(crate) fn link_ok_exec(link: &str, base: &WebUrl) -> (r: bool)
    ensures
        r == link_ok(link@, base@),
{
    match parse_url(link) {
        Some(u) => !is_blacklisted_url(&u) && !is_listing_page(&u, base),
        None => true,
    }
}

fn meta_fields(nodes: &Vec<DomNode>, cand: &WebUrl) -> (r: (Option<String>, Option<String>, Option<String>, Option<String>))
    ensures
        (opt_view(r.0), opt_view(r.1), opt_view(r.2), opt_view(r.3))
            == meta_fold(nodes@, cand@, select_named(nodes@, 0, seq!["meta"@]), (None, None, None, None)),
{
    let mn = vec!["meta"];
    assert(strs_view(mn@) =~= seq!["meta"@]);
    let metas = select_named_exec(nodes, 0, &mn);
    let ghost all = metas@.map_values(|i: usize| i as int);
    let mut title: Option<String> = None;
    let mut desc: Option<String> = None;
    let mut image: Option<String> = None;
    let mut date: Option<String> = None;
    let mut k: usize = 0;
    assert(all.subrange(0, all.len() as int) =~= all);
    while k < metas.len()
        invariant
            k <= metas.len(),
            all == metas@.map_values(|i: usize| i as int),
            forall|j: int| 0 <= j < metas@.len() ==> metas@[j] < nodes@.len(),
            meta_fold(nodes@, cand@, all, (None, None, None, None)) == meta_fold(nodes@, cand@,
                all.subrange(k as int, all.len() as int), (opt_view(title), opt_view(desc), opt_view(image), opt_view(date))),
        decreases metas.len() - k,
    {
        let ghost rest = all.subrange(k as int, all.len() as int);
        assert(rest.drop_first() =~= all.subrange(k + 1, all.len() as int));
        assert(rest[0] == metas@[k as int] as int);
        let n = &nodes[metas[k]];
        let name = match attr_exec(n, "property") {
            Some(p) => Some(p),
            None => attr_exec(n, "name"),
        };
        if let (Some(nm), Some(c)) = (name, attr_exec(n, "content")) {
            let slot = meta_slot_exec(to_lower(nm.as_str()).as_str());
            if slot == 0 && title.is_none() {
                title = Some(fix_mojibake(c.as_str()));
            } else if slot == 1 && desc.is_none() {
                desc = Some(fix_mojibake(c.as_str()));
            } else if slot == 2 && image.is_none() {
                image = normalize_maybe_url(cand, c.as_str());
            } else if slot == 3 && date.is_none() {
                date = Some(c.clone());
            }
        }
        k = k + 1;
    }
    (title, desc, image, date)
}

/// The entry of the fetched page `cand` (see `doc_item_spec`).
pub fn item_from_doc(nodes: &Vec<DomNode>, cand: &WebUrl, base: &WebUrl) -> (r: Option<Item>)
    ensures
        match r {
            Some(it) => doc_item_spec(nodes@, cand@, base@) == Some(it@),
            None => doc_item_spec(nodes@, cand@, base@) is None,
        },
{
    let blocks = ld_blocks(nodes);
    if let Some(mut jitems) = extract_from_json_ld(&blocks, cand) {
        if let Some(mut it) = jitems.pop() {
            if chars_of(it.link.as_str()).len() == 0 {
                it.link = cand.href.clone();
            }
            if chars_of(it.title.as_str()).len() > 0 && !is_error_page(nodes, it.title.as_str(), &it.description)
                && link_ok_exec(it.link.as_str(), base) {
                return Some(it);
            }
        }
    }
    let (mtitle, desc, mimage, date) = meta_fields(nodes, cand);
    let title = match mtitle {
        Some(t) => Some(t),
        None => {
            let hn = vec!["h1", "h2"];
            assert(strs_view(hn@) =~= seq!["h1"@, "h2"@]);
            match first_text_in(nodes, 0, &hn) {
                Some(t) => Some(t),
                None => {
                    let tn = vec!["title"];
                    assert(strs_view(tn@) =~= seq!["title"@]);
                    first_text_in(nodes, 0, &tn)
                },
            }
        },
    };
    let image = match mimage {
        Some(i) => Some(i),
        None => {
            let inm = vec!["img"];
            assert(strs_view(inm@) =~= seq!["img"@]);
            let imgs = select_named_exec(nodes, 0, &inm);
            if imgs.len() > 0 {
                match attr_exec(&nodes[imgs[0]], "src") {
                    Some(src) => normalize_maybe_url(cand, src.as_str()),
                    None => None,
                }
            } else {
                None
            }
        },
    };
    match title {
        Some(t) => {
            if chars_of(t.as_str()).len() > 0 && !is_error_page(nodes, t.as_str(), &desc)
                && link_ok_exec(cand.href.as_str(), base) {
                Some(Item { title: t, link: cand.href.clone(), description: desc, pub_date: date, image })
            } else {
                None
            }
        },
        None => None,
    }
}

/// Adds the entry of the fetched page `cand`, where it has one.
pub fn extract_item_from_doc(nodes: &Vec<DomNode>, cand: &WebUrl, base: &WebUrl, items: &mut Vec<Item>)
    ensures
        items_view(final(items)@) == items_view(old(items)@) + match doc_item_spec(nodes@, cand@, base@) {
            Some(it) => seq![it],
            None => Seq::<ItemView>::empty(),
        },
{
    let ghost before = items@;
    match item_from_doc(nodes, cand, base) {
        Some(it) => {
            items.push(it);
            assert(items_view(items@) =~= items_view(before) + seq![it@]);
        },
        None => {
            assert(items_view(items@) =~= items_view(before) + Seq::<ItemView>::empty());
        },
    }
}

/// Title words of promotions.
pub open spec fn promo_words() -> Seq<Seq<char>> {
    seq!["subscribe"@, "subscription"@, "donate"@, "support"@, "newsletter"@, "become a member"@,
        "subscribe to"@, "subscribe now"@]
}

/// Path words of shop and donation pages.
pub open spec fn shop_words() -> Seq<Seq<char>> {
    seq!["/store"@, "/subscribe"@, "/subscriptions"@, "/donate"@]
}

/// The checks of one entry on its own: where its canonical link parses, it is
/// no junk page, no listing page of `base` and no shop page; its title (in
/// lower case) is no promotion.
pub open spec fn passes_filter(it: ItemView, base: UrlView) -> bool {
    &&& match url_parse_of(canonical_spec(it.link)) {
        Some(u) => !is_blacklisted_spec(u) && !is_listing_spec(u, base)
            && !contains_any(ascii_lower(u.path), shop_words()),
        None => true,
    }
    &&& !contains_any(lower_of(it.title), promo_words())
}

/// The entries that pass the checks and whose canonical link is not in
/// `seen` nor on an earlier kept entry, in their order.
pub open spec fn filter_spec(items: Seq<ItemView>, base: UrlView, seen: Seq<Seq<char>>) -> Seq<ItemView>
    decreases items.len(),
{
    if items.len() == 0 {
        Seq::empty()
    } else {
        let it = items[0];
        let c = canonical_spec(it.link);
        if passes_filter(it, base) && !seen.contains(c) {
            seq![it] + filter_spec(items.drop_first(), base, seen.push(c))
        } else {
            filter_spec(items.drop_first(), base, seen)
        }
    }
}

fn passes_filter_exec(it: &Item, canon: &String, base: &WebUrl) -> (r: bool)
    requires
        canon@ == canonical_spec(it.link@),
    ensures
        r == passes_filter(it@, base@),
{
    if let Some(u) = parse_url(canon.as_str()) {
        if is_blacklisted_url(&u) || is_listing_page(&u, base) {
            return false;
        }
        let pl = ascii_lower_exec(&chars_of(u.path.as_str()));
        let sw = vec!["/store", "/subscribe", "/subscriptions", "/donate"];
        assert(words_view(sw@) =~= shop_words());
        if contains_any_exec(&pl, &sw) {
            return false;
        }
    }
    let tl = lower_chars(it.title.as_str());
    let pw = vec!["subscribe", "subscription", "donate", "support", "newsletter", "become a member",
        "subscribe to", "subscribe now"];
    assert(words_view(pw@) =~= promo_words());
    !contains_any_exec(&tl, &pw)
}

fn seen_contains(seen: &Vec<String>, c: &String) -> (r: bool)
    ensures
        r == strings_view(seen@).contains(c@),
{
    let mut k: usize = 0;
    while k < seen.len()
        invariant
            k <= seen.len(),
            forall|j: int| 0 <= j < k ==> strings_view(seen@)[j] != c@,
        decreases seen.len() - k,
    {
        if str_eq(seen[k].as_str(), c.as_str()) {
            assert(strings_view(seen@)[k as int] == c@);
            return true;
        }
        k = k + 1;
    }
    false
}

/// Drops junk, listing, shop and promotional entries and every entry whose
/// canonical link an earlier kept entry already has; the rest keep their order.
pub fn filter_items(base: &WebUrl, items: &mut Vec<Item>)
    ensures
        items_view(final(items)@) == filter_spec(items_view(old(items)@), base@, Seq::empty()),
{
    let mut src: Vec<Item> = Vec::new();
    std::mem::swap(items, &mut src);
    let ghost all = items_view(src@);
    let mut seen: Vec<String> = Vec::new();
    assert(items_view(items@) =~= Seq::<ItemView>::empty());
    assert(strings_view(seen@) =~= Seq::<Seq<char>>::empty());
    while src.len() > 0
        invariant
            filter_spec(all, base@, Seq::empty()) == items_view(items@) + filter_spec(
                items_view(src@), base@, strings_view(seen@)),
        decreases src.len(),
    {
        let ghost whole = items_view(src@);
        let it = src.remove(0);
        assert(whole.drop_first() =~= items_view(src@));
        assert(whole[0] == it@);
        let canon = canonicalize_url_str(it.link.as_str());
        let keep = passes_filter_exec(&it, &canon, base) && !seen_contains(&seen, &canon);
        let ghost prev_items = items_view(items@);
        if keep {
            let ghost prev_seen = seen@;
            seen.push(canon);
            assert(strings_view(seen@) =~= strings_view(prev_seen).push(canonical_spec(it@.link)));
            items.push(it);
            assert(items_view(items@) =~= prev_items + seq![it@]);
        }
    }
    assert(items_view(src@) =~= Seq::<ItemView>::empty());
    assert(items_view(items@) + Seq::<ItemView>::empty() =~= items_view(items@));
}

/// Filtering keeps at most one entry per canonical link, none of whose
/// canonical link was seen before, and only entries that pass the checks.
pub proof fn lemma_filter_distinct(items: Seq<ItemView>, base: UrlView, seen: Seq<Seq<char>>)
    ensures
        forall|i: int, j: int| 0 <= i < j < filter_spec(items, base, seen).len() ==>
            canonical_spec(#[trigger] filter_spec(items, base, seen)[i].link)
                != canonical_spec(#[trigger] filter_spec(items, base, seen)[j].link),
        forall|i: int| 0 <= i < filter_spec(items, base, seen).len() ==>
            !seen.contains(canonical_spec(#[trigger] filter_spec(items, base, seen)[i].link))
            && passes_filter(filter_spec(items, base, seen)[i], base),
    decreases items.len(),
{
    if items.len() > 0 {
        let it = items[0];
        let c = canonical_spec(it.link);
        if passes_filter(it, base) && !seen.contains(c) {
            let rest = filter_spec(items.drop_first(), base, seen.push(c));
            lemma_filter_distinct(items.drop_first(), base, seen.push(c));
            let out = filter_spec(items, base, seen);
            assert(out == seq![it] + rest);
            assert forall|i: int| 0 <= i < rest.len() implies !seen.contains(canonical_spec(#[trigger] rest[i].link))
                && canonical_spec(rest[i].link) != c by {
                assert(!seen.push(c).contains(canonical_spec(rest[i].link)));
                if seen.contains(canonical_spec(rest[i].link)) {
                    let k = choose|k: int| 0 <= k < seen.len() && seen[k] == canonical_spec(rest[i].link);
                    assert(seen.push(c)[k] == seen[k]);
                }
                assert(seen.push(c)[seen.len() as int] == c);
            }
            assert forall|i: int, j: int| 0 <= i < j < out.len() implies
                canonical_spec(#[trigger] out[i].link) != canonical_spec(#[trigger] out[j].link) by {
                if i == 0 {
                    assert(out[j] == rest[j - 1]);
                } else {
                    assert(out[i] == rest[i - 1] && out[j] == rest[j - 1]);
                }
            }
            assert forall|i: int| 0 <= i < out.len() implies !seen.contains(canonical_spec(#[trigger] out[i].link))
                && passes_filter(out[i], base) by {
                if i > 0 {
                    assert(out[i] == rest[i - 1]);
                }
            }
        } else {
            lemma_filter_distinct(items.drop_first(), base, seen);
        }
    }
}

/// First seen wins: an entry that passes the checks and whose canonical link
/// is neither in `seen` nor on an earlier entry that passes the checks is kept.
pub proof fn lemma_filter_keeps_first_seen(items: Seq<ItemView>, base: UrlView, seen: Seq<Seq<char>>, i: int)
    requires
        0 <= i < items.len(),
        passes_filter(items[i], base),
        !seen.contains(canonical_spec(items[i].link)),
        forall|k: int| 0 <= k < i && passes_filter(#[trigger] items[k], base) ==>
            canonical_spec(items[k].link) != canonical_spec(items[i].link),
    ensures
        filter_spec(items, base, seen).contains(items[i]),
    decreases items.len(),
{
    let x = items[0];
    let cx = canonical_spec(x.link);
    let rest = items.drop_first();
    let out = filter_spec(items, base, seen);
    if i == 0 {
        assert(out[0] == x);
    } else {
        assert(rest[i - 1] == items[i]);
        assert forall|k: int| 0 <= k < i - 1 && passes_filter(#[trigger] rest[k], base) implies
            canonical_spec(rest[k].link) != canonical_spec(rest[i - 1].link) by {
            assert(rest[k] == items[k + 1]);
        }
        if passes_filter(x, base) && !seen.contains(cx) {
            assert(cx != canonical_spec(items[i].link));
            if seen.push(cx).contains(canonical_spec(items[i].link)) {
                let k = choose|k: int| 0 <= k < seen.push(cx).len() && seen.push(cx)[k] == canonical_spec(items[i].link);
                if k < seen.len() {
                    assert(seen[k] == seen.push(cx)[k]);
                }
            }
            lemma_filter_keeps_first_seen(rest, base, seen.push(cx), i - 1);
            let tail = filter_spec(rest, base, seen.push(cx));
            let j = choose|j: int| 0 <= j < tail.len() && tail[j] == items[i];
            assert(out == seq![x] + tail);
            assert(out[j + 1] == items[i]);
        } else {
            lemma_filter_keeps_first_seen(rest, base, seen, i - 1);
        }
    }
}

/// Every entry that survives filtering is an entry of the input.
pub proof fn lemma_filter_from_input(items: Seq<ItemView>, base: UrlView, seen: Seq<Seq<char>>)
    ensures
        forall|j: int| 0 <= j < filter_spec(items, base, seen).len() ==>
            items.contains(#[trigger] filter_spec(items, base, seen)[j]),
    decreases items.len(),
{
    if items.len() > 0 {
        let x = items[0];
        let cx = canonical_spec(x.link);
        let rest = items.drop_first();
        let out = filter_spec(items, base, seen);
        let seen2 = if passes_filter(x, base) && !seen.contains(cx) { seen.push(cx) } else { seen };
        lemma_filter_from_input(rest, base, seen2);
        let tail = filter_spec(rest, base, seen2);
        assert forall|j: int| 0 <= j < out.len() implies items.contains(#[trigger] out[j]) by {
            if passes_filter(x, base) && !seen.contains(cx) {
                assert(out == seq![x] + tail);
                if j == 0 {
                    assert(items[0] == out[j]);
                } else {
                    assert(out[j] == tail[j - 1]);
                    let k = choose|k: int| 0 <= k < rest.len() && rest[k] == tail[j - 1];
                    assert(items[k + 1] == rest[k]);
                }
            } else {
                assert(out[j] == tail[j]);
                let k = choose|k: int| 0 <= k < rest.len() && rest[k] == tail[j];
                assert(items[k + 1] == rest[k]);
            }
        }
    }
}

/// No entry that survives filtering has a canonical link whose path holds
/// `newsletter`, in any ASCII case.
pub proof fn lemma_filter_drops_newsletter(items: Seq<ItemView>, base: UrlView, i: int, u: UrlView)
    requires
        0 <= i < filter_spec(items, base, Seq::empty()).len(),
        url_parse_of(canonical_spec(filter_spec(items, base, Seq::empty())[i].link)) == Some(u),
    ensures
        !seq_contains(ascii_lower(u.path), "newsletter"@),
{
    lemma_filter_distinct(items, base, Seq::empty());
    if seq_contains(ascii_lower(u.path), "newsletter"@) {
        crate::urls::lemma_newsletter_is_junk(u);
    }
}

/// The first text inside the first element inside node `a` named in
/// `names`, trimmed and normalized.
pub open spec fn first_text_at(nodes: Seq<DomNode>, a: int, names: Seq<Seq<char>>) -> Option<Seq<char>> {
    let hs = select_named(nodes, a, names);
    if hs.len() > 0 && texts_in(nodes, hs[0]).len() > 0 {
        Some(normalize_spec(trim_spec(texts_in(nodes, hs[0])[0])))
    } else {
        None
    }
}

/// The resolved `href` of the first anchor inside node `a`, else the page.
pub open spec fn first_link_at(nodes: Seq<DomNode>, a: int, base: UrlView) -> Seq<char> {
    let anchors = select_named(nodes, a, seq!["a"@]);
    if anchors.len() > 0 {
        match attr_of(nodes[anchors[0]], "href"@) {
            Some(h) => match url_join_of(base.href, h) {
                Some(u) => u.href,
                None => base.href,
            },
            None => base.href,
        }
    } else {
        base.href
    }
}

/// All the text inside the first `<p>` inside node `a`, normalized.
pub open spec fn first_para_at(nodes: Seq<DomNode>, a: int) -> Option<Seq<char>> {
    let ps = select_named(nodes, a, seq!["p"@]);
    if ps.len() > 0 {
        Some(normalize_spec(join_spaced(texts_in(nodes, ps[0]))))
    } else {
        None
    }
}

/// The entry of one `<article>` element: first heading as title (required,
/// non-empty), first anchor as link (else the page), first paragraph as
/// description; none for an error page or a link that fails the link checks.
pub open spec fn article_item(nodes: Seq<DomNode>, base: UrlView, art: int) -> Option<ItemView> {
    match first_text_at(nodes, art, seq!["h1"@, "h2"@, "h3"@]) {
        None => None,
        Some(title) => {
            let link = first_link_at(nodes, art, base);
            let desc = first_para_at(nodes, art);
            if trim_spec(title).len() == 0 || is_error_spec(nodes, title, desc) || !link_ok(link, base) {
                None
            } else {
                Some(ItemView { title, link, description: desc, pub_date: None, image: None })
            }
        },
    }
}

/// The entries of `xs` in order, as long as fewer than `max` are held
/// (`have` already are).
pub open spec fn take_capped(xs: Seq<Option<ItemView>>, have: int, max: int) -> Seq<ItemView>
    decreases xs.len(),
{
    if xs.len() == 0 || have >= max {
        Seq::empty()
    } else {
        match xs[0] {
            Some(it) => seq![it] + take_capped(xs.drop_first(), have + 1, max),
            None => take_capped(xs.drop_first(), have, max),
        }
    }
}

/// How many `<article>` elements are read.
pub const MAX_ARTICLE_ELEMENTS: usize = 50;

/// The page's first `<article>` elements, as many as are read.
pub open spec fn article_elements(nodes: Seq<DomNode>) -> Seq<int> {
    let arts = select_named(nodes, 0, seq!["article"@]);
    arts.take(min_int(MAX_ARTICLE_ELEMENTS as int, arts.len() as int))
}

fn first_link_exec(nodes: &Vec<DomNode>, a: usize, base: &WebUrl) -> (r: String)
    ensures
        r@ == first_link_at(nodes@, a as int, base@),
{
    let an = vec!["a"];
    assert(strs_view(an@) =~= seq!["a"@]);
    let anchors = select_named_exec(nodes, a, &an);
    if anchors.len() > 0 {
        if let Some(h) = attr_exec(&nodes[anchors[0]], "href") {
            if let Some(u) = join_url(base, h.as_str()) {
                return u.href;
            }
        }
    }
    base.href.clone()
}

fn first_para_exec(nodes: &Vec<DomNode>, a: usize) -> (r: Option<String>)
    ensures
        opt_view(r) == first_para_at(nodes@, a as int),
{
    let pn = vec!["p"];
    assert(strs_view(pn@) =~= seq!["p"@]);
    let ps = select_named_exec(nodes, a, &pn);
    if ps.len() > 0 {
        let ts = texts_exec(nodes, ps[0]);
        let joined = join_first(&ts, ts.len());
        assert(ts@.map_values(|s: String| s@).take(ts@.len() as int) =~= ts@.map_values(|s: String| s@));
        Some(fix_mojibake(string_of(&joined).as_str()))
    } else {
        None
    }
}

fn article_item_exec(nodes: &Vec<DomNode>, base: &WebUrl, art: usize) -> (r: Option<Item>)
    ensures
        match r {
            Some(it) => article_item(nodes@, base@, art as int) == Some(it@),
            None => article_item(nodes@, base@, art as int) is None,
        },
{
    let hn = vec!["h1", "h2", "h3"];
    assert(strs_view(hn@) =~= seq!["h1"@, "h2"@, "h3"@]);
    match first_text_in(nodes, art, &hn) {
        None => None,
        Some(title) => {
            let link = first_link_exec(nodes, art, base);
            let desc = first_para_exec(nodes, art);
            if trim(&chars_of(title.as_str())).len() == 0 || is_error_page(nodes, title.as_str(), &desc)
                || !link_ok_exec(link.as_str(), base) {
                None
            } else {
                Some(Item { title, link, description: desc, pub_date: None, image: None })
            }
        },
    }
}

/// Adds the entries of the page's `<article>` elements (at most
/// `MAX_ARTICLE_ELEMENTS` read) until `max_pages` entries are held.
pub fn extract_article_elements(nodes: &Vec<DomNode>, base: &WebUrl, max_pages: usize, items: &mut Vec<Item>)
    ensures
        items_view(final(items)@) == items_view(old(items)@) + take_capped(
            article_elements(nodes@).map_values(|a: int| article_item(nodes@, base@, a)),
            old(items)@.len() as int, max_pages as int),
{
    let an = vec!["article"];
    assert(strs_view(an@) =~= seq!["article"@]);
    let arts = select_named_exec(nodes, 0, &an);
    let n = if arts.len() < MAX_ARTICLE_ELEMENTS { arts.len() } else { MAX_ARTICLE_ELEMENTS };
    let ghost xs = article_elements(nodes@).map_values(|a: int| article_item(nodes@, base@, a));
    let ghost start = items_view(items@);
    let ghost h0 = items@.len() as int;
    assert(xs.subrange(0, n as int) =~= xs);
    let mut k: usize = 0;
    while k < n
        invariant
            n <= arts.len(),
            k <= n,
            xs.len() == n,
            forall|j: int| 0 <= j < n ==> #[trigger] xs[j] == article_item(nodes@, base@, arts@[j] as int),
            forall|j: int| 0 <= j < arts@.len() ==> arts@[j] < nodes@.len(),
            start + take_capped(xs, h0, max_pages as int) == items_view(items@) + take_capped(
                xs.subrange(k as int, n as int), items@.len() as int, max_pages as int),
        ensures
            k <= n,
            start + take_capped(xs, h0, max_pages as int) == items_view(items@) + take_capped(
                xs.subrange(k as int, n as int), items@.len() as int, max_pages as int),
            k == n || items@.len() >= max_pages,
        decreases n - k,
    {
        let ghost rest = xs.subrange(k as int, n as int);
        assert(rest.drop_first() =~= xs.subrange(k + 1, n as int));
        if items.len() >= max_pages {
            break;
        }
        let ghost before = items_view(items@);
        match article_item_exec(nodes, base, arts[k]) {
            Some(it) => {
                items.push(it);
                assert(items_view(items@) =~= before + seq![it@]);
                assert(before + (seq![it@] + take_capped(rest.drop_first(), items@.len() as int, max_pages as int))
                    =~= items_view(items@) + take_capped(rest.drop_first(), items@.len() as int, max_pages as int));
            },
            None => {},
        }
        k = k + 1;
    }
    assert(take_capped(xs.subrange(k as int, n as int), items@.len() as int, max_pages as int) == Seq::<ItemView>::empty());
    assert(items_view(items@) + Seq::<ItemView>::empty() =~= items_view(items@));
}

/// Class words of the containers that hold article teasers.
pub open spec fn card_words() -> Seq<Seq<char>> {
    seq!["card"@, "teaser"@, "promo"@, "headline"@, "story"@, "article"@]
}

/// One of the `depth` nearest ancestors of node `j` has a class (in lower
/// case) holding a card word.
pub open spec fn card_ancestor(nodes: Seq<DomNode>, j: int, depth: nat) -> bool
    decreases depth,
{
    if depth == 0 {
        false
    } else {
        match parent_of(nodes, j) {
            None => false,
            Some(p) => (attr_of(nodes[p], "class"@) matches Some(c) && contains_any(lower_of(c), card_words()))
                || card_ancestor(nodes, p, (depth - 1) as nat),
        }
    }
}

/// How many ancestors of an anchor are looked at for a card class.
pub const CARD_DEPTH: usize = 4;

/// Anchor text longer than this many characters marks an article link.
pub const LONG_LINK_TEXT: usize = 25;

/// An anchor `a` whose resolved URL is `abs` looks like an article link: a
/// date or article token in the URL, long text, an image inside, or a card
/// ancestor. On the one publisher's site its entry shape always counts and
/// its generic listing endings never do.
pub open spec fn article_like(nodes: Seq<DomNode>, base: UrlView, a: int, abs: UrlView) -> bool {
    let s = abs.href;
    let text = normalize_spec(trim_spec(join_spaced(texts_in(nodes, a))));
    let plain = has_date_segment(s) || has_article_token(s, false) || text.len() > LONG_LINK_TEXT
        || select_named(nodes, a, seq!["img"@]).len() > 0 || card_ancestor(nodes, a, CARD_DEPTH as nat);
    match base.host {
        Some(h) => if seq_contains(lower_of(h), "huffpost"@) {
            if is_entry_url(s) {
                true
            } else if ends_with(s, "/news"@) || ends_with(s, "/news/"@) || ends_with(s, "/all"@) {
                false
            } else {
                plain
            }
        } else {
            plain
        },
        None => plain,
    }
}

pub open spec fn ends_with(s: Seq<char>, p: Seq<char>) -> bool {
    p.len() <= s.len() && s.subrange(s.len() - p.len(), s.len() as int) == p
}

pub open spec fn hrefs(v: Seq<UrlView>) -> Seq<Seq<char>> {
    v.map_values(|u: UrlView| u.href)
}

/// The candidate an anchor adds to `acc`: its `href` resolved against the
/// page, of the page's domain, not already held, article-like and no junk.
pub open spec fn candidate_at(nodes: Seq<DomNode>, base: UrlView, a: int, acc: Seq<UrlView>) -> Option<UrlView> {
    match attr_of(nodes[a], "href"@) {
        None => None,
        Some(h) => match url_join_of(base.href, h) {
            None => None,
            Some(abs) => if abs.domain != base.domain || hrefs(acc).contains(abs.href) {
                None
            } else if article_like(nodes, base, a, abs) && !is_blacklisted_spec(abs) {
                Some(abs)
            } else {
                None
            },
        },
    }
}

/// The candidates from the anchors in order, as long as fewer than `max` are held.
pub open spec fn cand_fold(nodes: Seq<DomNode>, base: UrlView, anchors: Seq<int>, acc: Seq<UrlView>, max: int) -> Seq<UrlView>
    decreases anchors.len(),
{
    if anchors.len() == 0 || acc.len() >= max {
        acc
    } else {
        match candidate_at(nodes, base, anchors[0], acc) {
            Some(u) => cand_fold(nodes, base, anchors.drop_first(), acc.push(u), max),
            None => cand_fold(nodes, base, anchors.drop_first(), acc, max),
        }
    }
}

/// How many anchors are scanned for candidates.
pub const MAX_SCANNED_ANCHORS: usize = 2000;

/// The page's first anchors, as many as are scanned.
pub open spec fn scanned_anchors(nodes: Seq<DomNode>) -> Seq<int> {
    let all = select_named(nodes, 0, seq!["a"@]);
    all.take(min_int(MAX_SCANNED_ANCHORS as int, all.len() as int))
}

fn card_ancestor_exec(nodes: &Vec<DomNode>, j: usize) -> (r: bool)
    ensures
        r == card_ancestor(nodes@, j as int, CARD_DEPTH as nat),
{
    let mut cur = j;
    let mut depth: usize = CARD_DEPTH;
    let cw = vec!["card", "teaser", "promo", "headline", "story", "article"];
    assert(words_view(cw@) =~= card_words());
    while depth > 0
        invariant
            depth <= CARD_DEPTH,
            words_view(cw@) == card_words(),
            card_ancestor(nodes@, j as int, CARD_DEPTH as nat) == card_ancestor(nodes@, cur as int, depth as nat),
        decreases depth,
    {
        match crate::dom::parent_of_exec(nodes, cur) {
            None => return false,
            Some(p) => {
                if let Some(c) = attr_exec(&nodes[p], "class") {
                    if contains_any_exec(&lower_chars(c.as_str()), &cw) {
                        return true;
                    }
                }
                cur = p;
                depth = depth - 1;
            },
        }
    }
    false
}

fn article_like_exec(nodes: &Vec<DomNode>, base: &WebUrl, a: usize, abs: &WebUrl) -> (r: bool)
    requires
        a < nodes@.len(),
    ensures
        r == article_like(nodes@, base@, a as int, abs@),
{
    let s = chars_of(abs.href.as_str());
    let ts = texts_exec(nodes, a);
    let joined = join_first(&ts, ts.len());
    assert(ts@.map_values(|x: String| x@).take(ts@.len() as int) =~= ts@.map_values(|x: String| x@));
    let text = fix_mojibake(string_of(&trim(&joined)).as_str());
    let inm = vec!["img"];
    assert(strs_view(inm@) =~= seq!["img"@]);
    let plain = has_date_segment_exec(&s) || has_article_token_exec(&s, false)
        || chars_of(text.as_str()).len() > LONG_LINK_TEXT || select_named_exec(nodes, a, &inm).len() > 0
        || card_ancestor_exec(nodes, a);
    match &base.host {
        Some(h) => {
            if contains_str(&lower_chars(h.as_str()), "huffpost") {
                if is_entry_url_exec(&s) {
                    true
                } else if ends_with_str(&s, "/news") || ends_with_str(&s, "/news/") || ends_with_str(&s, "/all") {
                    false
                } else {
                    plain
                }
            } else {
                plain
            }
        },
        None => plain,
    }
}

fn held(acc: &Vec<WebUrl>, s: &String) -> (r: bool)
    ensures
        r == hrefs(acc@.map_values(|u: WebUrl| u@)).contains(s@),
{
    let ghost hv = hrefs(acc@.map_values(|u: WebUrl| u@));
    let mut k: usize = 0;
    while k < acc.len()
        invariant
            k <= acc.len(),
            hv == hrefs(acc@.map_values(|u: WebUrl| u@)),
            forall|j: int| 0 <= j < k ==> hv[j] != s@,
        decreases acc.len() - k,
    {
        if str_eq(acc[k].href.as_str(), s.as_str()) {
            assert(hv[k as int] == s@);
            return true;
        }
        k = k + 1;
    }
    false
}

/// Whether two URLs have the same domain (or both none).
pub(crate) fn same_domain(a: &WebUrl, b: &WebUrl) -> (r: bool)
    ensures
        r == (a@.domain == b@.domain),
{
    match (&a.domain, &b.domain) {
        (Some(x), Some(y)) => str_eq(x.as_str(), y.as_str()),
        (None, None) => true,
        _ => false,
    }
}

fn candidate_at_exec(nodes: &Vec<DomNode>, base: &WebUrl, a: usize, acc: &Vec<WebUrl>) -> (r: Option<WebUrl>)
    requires
        a < nodes@.len(),
    ensures
        opt_url(r) == candidate_at(nodes@, base@, a as int, acc@.map_values(|u: WebUrl| u@)),
{
    match attr_exec(&nodes[a], "href") {
        None => None,
        Some(h) => match join_url(base, h.as_str()) {
            None => None,
            Some(abs) => {
                if !same_domain(&abs, base) || held(acc, &abs.href) {
                    None
                } else if article_like_exec(nodes, base, a, &abs) && !is_blacklisted_url(&abs) {
                    Some(abs)
                } else {
                    None
                }
            },
        },
    }
}

/// The article-like links of the page's own domain (first
/// `MAX_SCANNED_ANCHORS` anchors), without repeats, until `max_pages` are found.
pub fn build_candidate_list(nodes: &Vec<DomNode>, base: &WebUrl, max_pages: usize) -> (r: Vec<WebUrl>)
    ensures
        r@.map_values(|u: WebUrl| u@) == cand_fold(nodes@, base@, scanned_anchors(nodes@), Seq::empty(), max_pages as int),
{
    let an = vec!["a"];
    assert(strs_view(an@) =~= seq!["a"@]);
    let anchors = select_named_exec(nodes, 0, &an);
    let n = if anchors.len() < MAX_SCANNED_ANCHORS { anchors.len() } else { MAX_SCANNED_ANCHORS };
    let ghost xs = scanned_anchors(nodes@);
    assert(xs.subrange(0, n as int) =~= xs);
    let mut out: Vec<WebUrl> = Vec::new();
    let mut k: usize = 0;
    assert(out@.map_values(|u: WebUrl| u@) =~= Seq::<UrlView>::empty());
    while k < n
        invariant
            n <= anchors.len(),
            k <= n,
            xs.len() == n,
            xs == scanned_anchors(nodes@),
            forall|j: int| 0 <= j < n ==> #[trigger] xs[j] == anchors@[j] as int,
            forall|j: int| 0 <= j < anchors@.len() ==> anchors@[j] < nodes@.len(),
            cand_fold(nodes@, base@, xs, Seq::empty(), max_pages as int) == cand_fold(nodes@, base@,
                xs.subrange(k as int, n as int), out@.map_values(|u: WebUrl| u@), max_pages as int),
        decreases n - k,
    {
        let ghost rest = xs.subrange(k as int, n as int);
        assert(rest.drop_first() =~= xs.subrange(k + 1, n as int));
        let ghost before = out@.map_values(|u: WebUrl| u@);
        assert(rest[0] == anchors@[k as int] as int);
        if out.len() >= max_pages {
            return out;
        }
        match candidate_at_exec(nodes, base, anchors[k], &out) {
            Some(u) => {
                out.push(u);
                assert(out@.map_values(|u: WebUrl| u@) =~= before.push(u@));
            },
            None => {},
        }
        k = k + 1;
    }
    out
}

/// HTML's ASCII white space, which separates class names.
pub open spec fn is_html_space(c: char) -> bool {
    c == ' ' || c == '\t' || c == '\n' || c == '\x0C' || c == '\r'
}

/// Class name `c` stands in the class list `v` at position `i`.
pub open spec fn class_at(v: Seq<char>, c: Seq<char>, i: int) -> bool {
    &&& occurs_at(v, c, i)
    &&& (i == 0 || is_html_space(v[i - 1]))
    &&& (i + c.len() == v.len() || is_html_space(v[i + c.len()]))
}

/// The class list `v` holds the class name `c`.
pub open spec fn class_listed(v: Seq<char>, c: Seq<char>) -> bool {
    c.len() > 0 && exists|i: int| #[trigger] class_at(v, c, i)
}

/// Node `n` is an element with class name `c`.
pub open spec fn has_class(n: DomNode, c: Seq<char>) -> bool {
    match attr_of(n, "class"@) {
        Some(v) => class_listed(v, c),
        None => false,
    }
}

fn has_class_exec(n: &DomNode, c: &str) -> (r: bool)
    ensures
        r == has_class(*n, c@),
{
    let cv = chars_of(c);
    if cv.len() == 0 {
        return false;
    }
    match attr_exec(n, "class") {
        None => false,
        Some(v) => {
            let vv = chars_of(v.as_str());
            let mut i: usize = 0;
            while i < vv.len()
                invariant
                    i <= vv.len(),
                    cv@ == c@,
                    cv@.len() > 0,
                    attr_of(*n, "class"@) == Some(vv@),
                    forall|j: int| 0 <= j < i ==> !#[trigger] class_at(vv@, c@, j),
                decreases vv.len() - i,
            {
                let c2 = cv.len();
                if occurs_at_exec(&vv, &cv, i) && (i == 0 || is_html_space_exec(vv[i - 1]))
                    && (i + c2 == vv.len() || is_html_space_exec(vv[i + c2])) {
                    assert(class_at(vv@, c@, i as int));
                    assert(class_listed(vv@, c@));
                    return true;
                }
                i = i + 1;
            }
            assert forall|j: int| !class_at(vv@, c@, j) by {
                if j >= vv@.len() && occurs_at(vv@, c@, j) {
                    assert(c@.len() == 0);
                }
            }
            false
        },
    }
}

fn is_html_space_exec(c: char) -> (r: bool)
    ensures
        r == is_html_space(c),
{
    c == ' ' || c == '\t' || c == '\n' || c == '\x0C' || c == '\r'
}

/// The elements below position `hi` with class name `c`, in document order.
pub open spec fn classed_below(nodes: Seq<DomNode>, c: Seq<char>, hi: int) -> Seq<int>
    decreases hi,
{
    if hi <= 0 {
        Seq::empty()
    } else {
        let prev = classed_below(nodes, c, hi - 1);
        if hi - 1 < nodes.len() && has_class(nodes[hi - 1], c) {
            prev.push(hi - 1)
        } else {
            prev
        }
    }
}

/// The anchors inside each of the containers, container by container.
pub open spec fn anchors_in(nodes: Seq<DomNode>, conts: Seq<int>) -> Seq<int>
    decreases conts.len(),
{
    if conts.len() == 0 {
        Seq::empty()
    } else {
        anchors_in(nodes, conts.drop_last()) + select_named(nodes, conts.last(), seq!["a"@])
    }
}

/// The class names of related-content sections, in the order they are read.
pub open spec fn related_classes() -> Seq<Seq<char>> {
    seq!["related"@, "related-articles"@, "related-content"@, "more-from"@, "more-articles"@,
        "promo-list"@, "card-list"@]
}

/// The anchors of the related-content sections: class by class, container by
/// container.
pub open spec fn related_anchor_list(nodes: Seq<DomNode>, classes: Seq<Seq<char>>) -> Seq<int>
    decreases classes.len(),
{
    if classes.len() == 0 {
        Seq::empty()
    } else {
        related_anchor_list(nodes, classes.drop_last()) + anchors_in(nodes,
            classed_below(nodes, classes.last(), nodes.len() as int))
    }
}

/// The entry an anchor of a related section adds to `items`: a link of the
/// page's domain not yet held, no junk or listing page, with a non-empty
/// title that is no error title.
pub open spec fn related_step(nodes: Seq<DomNode>, base: UrlView, a: int, items: Seq<ItemView>) -> Option<ItemView> {
    match attr_of(nodes[a], "href"@) {
        None => None,
        Some(h) => match url_join_of(base.href, h) {
            None => None,
            Some(abs) => {
                let title = normalize_spec(trim_spec(join_spaced(texts_in(nodes, a))));
                if abs.domain != base.domain || links_of(items).contains(abs.href)
                    || is_blacklisted_spec(abs) || is_listing_spec(abs, base) || title.len() == 0
                    || is_error_spec(nodes, title, None) {
                    None
                } else {
                    Some(ItemView { title, link: abs.href, description: None, pub_date: None, image: None })
                }
            },
        },
    }
}

/// The entries from the anchors in order, as long as fewer than `max` are held.
pub open spec fn related_fold(nodes: Seq<DomNode>, base: UrlView, anchors: Seq<int>, items: Seq<ItemView>, max: int) -> Seq<ItemView>
    decreases anchors.len(),
{
    if anchors.len() == 0 || items.len() >= max {
        items
    } else {
        match related_step(nodes, base, anchors[0], items) {
            Some(it) => related_fold(nodes, base, anchors.drop_first(), items.push(it), max),
            None => related_fold(nodes, base, anchors.drop_first(), items, max),
        }
    }
}

fn classed_exec(nodes: &Vec<DomNode>, c: &str) -> (r: Vec<usize>)
    ensures
        r@.map_values(|i: usize| i as int) == classed_below(nodes@, c@, nodes@.len() as int),
        forall|k: int| 0 <= k < r@.len() ==> r@[k] < nodes@.len(),
{
    let mut out: Vec<usize> = Vec::new();
    let mut j: usize = 0;
    while j < nodes.len()
        invariant
            j <= nodes.len(),
            out@.map_values(|i: usize| i as int) == classed_below(nodes@, c@, j as int),
            forall|k: int| 0 <= k < out@.len() ==> out@[k] < nodes@.len(),
        decreases nodes.len() - j,
    {
        if has_class_exec(&nodes[j], c) {
            let ghost prev = out@;
            out.push(j);
            assert(out@.map_values(|i: usize| i as int) =~= prev.map_values(|i: usize| i as int).push(j as int));
        }
        j = j + 1;
    }
    out
}

fn related_anchors_exec(nodes: &Vec<DomNode>) -> (r: Vec<usize>)
    ensures
        r@.map_values(|i: usize| i as int) == related_anchor_list(nodes@, related_classes()),
        forall|k: int| 0 <= k < r@.len() ==> r@[k] < nodes@.len(),
{
    let names = vec!["related", "related-articles", "related-content", "more-from", "more-articles",
        "promo-list", "card-list"];
    assert(strs_view(names@) =~= related_classes());
    let an = vec!["a"];
    assert(strs_view(an@) =~= seq!["a"@]);
    let mut out: Vec<usize> = Vec::new();
    let mut ci: usize = 0;
    assert(related_classes().take(0) =~= Seq::<Seq<char>>::empty());
    while ci < names.len()
        invariant
            ci <= names.len(),
            names.len() == 7,
            strs_view(names@) == related_classes(),
            strs_view(an@) == seq!["a"@],
            out@.map_values(|i: usize| i as int) == related_anchor_list(nodes@, related_classes().take(ci as int)),
            forall|k: int| 0 <= k < out@.len() ==> out@[k] < nodes@.len(),
        decreases names.len() - ci,
    {
        assert(related_classes().take(ci + 1).drop_last() =~= related_classes().take(ci as int));
        let conts = classed_exec(nodes, names[ci]);
        let ghost cv = conts@.map_values(|i: usize| i as int);
        let ghost base_part = out@.map_values(|i: usize| i as int);
        let mut k: usize = 0;
        assert(cv.take(0) =~= Seq::<int>::empty());
        assert(base_part + anchors_in(nodes@, cv.take(0)) =~= base_part);
        while k < conts.len()
            invariant
                k <= conts.len(),
                cv == conts@.map_values(|i: usize| i as int),
                strs_view(an@) == seq!["a"@],
                forall|q: int| 0 <= q < conts@.len() ==> conts@[q] < nodes@.len(),
                out@.map_values(|i: usize| i as int) == base_part + anchors_in(nodes@, cv.take(k as int)),
                forall|q: int| 0 <= q < out@.len() ==> out@[q] < nodes@.len(),
            decreases conts.len() - k,
        {
            assert(cv.take(k + 1).drop_last() =~= cv.take(k as int));
            let mut sel = select_named_exec(nodes, conts[k], &an);
            let ghost prev = out@;
            let ghost sv = sel@;
            out.append(&mut sel);
            assert(out@.map_values(|i: usize| i as int) =~= prev.map_values(|i: usize| i as int) + sv.map_values(|i: usize| i as int));
            assert(out@ =~= prev + sv);
            k = k + 1;
        }
        assert(cv.take(conts.len() as int) =~= cv);
        ci = ci + 1;
    }
    assert(related_classes().take(7) =~= related_classes());
    out
}

fn related_step_exec(nodes: &Vec<DomNode>, base: &WebUrl, a: usize, items: &Vec<Item>) -> (r: Option<Item>)
    requires
        a < nodes@.len(),
    ensures
        match r {
            Some(it) => related_step(nodes@, base@, a as int, items_view(items@)) == Some(it@),
            None => related_step(nodes@, base@, a as int, items_view(items@)) is None,
        },
{
    match attr_exec(&nodes[a], "href") {
        None => None,
        Some(h) => match join_url(base, h.as_str()) {
            None => None,
            Some(abs) => {
                let ts = texts_exec(nodes, a);
                let joined = join_first(&ts, ts.len());
                assert(ts@.map_values(|x: String| x@).take(ts@.len() as int) =~= ts@.map_values(|x: String| x@));
                let title = fix_mojibake(string_of(&trim(&joined)).as_str());
                if !same_domain(&abs, base) || has_link(items, &abs.href) || is_blacklisted_url(&abs)
                    || is_listing_page(&abs, base) || chars_of(title.as_str()).len() == 0
                    || is_error_page(nodes, title.as_str(), &None) {
                    None
                } else {
                    Some(Item { title, link: abs.href, description: None, pub_date: None, image: None })
                }
            },
        },
    }
}

/// Whether some entry links exactly to `s`.
pub(crate) fn has_link(items: &Vec<Item>, s: &String) -> (r: bool)
    ensures
        r == links_of(items_view(items@)).contains(s@),
{
    let ghost lv = links_of(items_view(items@));
    let mut k: usize = 0;
    while k < items.len()
        invariant
            k <= items.len(),
            lv == links_of(items_view(items@)),
            forall|j: int| 0 <= j < k ==> lv[j] != s@,
        decreases items.len() - k,
    {
        if str_eq(items[k].link.as_str(), s.as_str()) {
            assert(lv[k as int] == s@);
            return true;
        }
        k = k + 1;
    }
    false
}

/// Adds entries from the page's related-content sections until `max_pages`
/// entries are held.
pub fn extract_related_articles(nodes: &Vec<DomNode>, base: &WebUrl, max_pages: usize, items: &mut Vec<Item>)
    ensures
        items_view(final(items)@) == related_fold(nodes@, base@, related_anchor_list(nodes@, related_classes()),
            items_view(old(items)@), max_pages as int),
{
    let anchors = related_anchors_exec(nodes);
    let ghost xs = anchors@.map_values(|i: usize| i as int);
    let ghost target = related_fold(nodes@, base@, xs, items_view(items@), max_pages as int);
    assert(xs.subrange(0, xs.len() as int) =~= xs);
    let mut k: usize = 0;
    while k < anchors.len()
        invariant
            k <= anchors.len(),
            xs == anchors@.map_values(|i: usize| i as int),
            forall|q: int| 0 <= q < anchors@.len() ==> anchors@[q] < nodes@.len(),
            xs == related_anchor_list(nodes@, related_classes()),
            target == related_fold(nodes@, base@, related_anchor_list(nodes@, related_classes()),
                items_view(old(items)@), max_pages as int),
            target == related_fold(nodes@, base@, xs.subrange(k as int, xs.len() as int), items_view(items@), max_pages as int),
        decreases anchors.len() - k,
    {
        let ghost rest = xs.subrange(k as int, xs.len() as int);
        assert(rest.drop_first() =~= xs.subrange(k + 1, xs.len() as int));
        assert(rest[0] == anchors@[k as int] as int);
        if items.len() >= max_pages {
            assert(target == items_view(items@));
            return;
        }
        let ghost before = items_view(items@);
        if let Some(it) = related_step_exec(nodes, base, anchors[k], items) {
            items.push(it);
            assert(items_view(items@) =~= before.push(it@));
        }
        k = k + 1;
    }
    assert(target == items_view(items@));
}

} // verus!
