//! The stages that run on the start page, and the decisions of the crawl
//! that follows: which candidate to fetch how, which links of a listing page
//! to follow, and how long to wait before a retry.

use crate::dom::{attr_exec, attr_of, named_below, named_in, select_named, select_named_exec, strs_view, DomNode};
use crate::extract::{
    anchors_in, classed_below,
    feed_in, filter_items, filter_spec, find_linked_feed,
    article_elements, article_item, build_candidate_list, cand_fold, extract_article_elements,
    extract_related_articles, is_error_page, is_error_spec, ld_blocks, ld_texts, link_ok, looks_like_single_article,
    looks_single_spec, related_anchor_list, related_classes, related_fold, scanned_anchors, take_capped,
};
use crate::item::{items_view, links_of, Item, ItemView};
use crate::jsonld::{extract_from_json_ld, jsonld_blocks_spec};
use crate::text::chars_of;
use crate::urls::{
    has_article_token, has_article_token_exec, has_date_segment, has_date_segment_exec, is_listing_page,
    is_listing_spec, join_url, url_join_of, UrlView, WebUrl,
};
use vstd::prelude::*;

verus! {

/// The JSON-LD entries that are kept on the start page: no error page, and a
/// link that passes the link checks.
pub open spec fn keep_structured(nodes: Seq<DomNode>, base: UrlView, items: Seq<ItemView>) -> Seq<ItemView>
    decreases items.len(),
{
    if items.len() == 0 {
        items
    } else {
        let prev = keep_structured(nodes, base, items.drop_last());
        let it = items.last();
        if !is_error_spec(nodes, it.title, it.description) && link_ok(it.link, base) {
            prev.push(it)
        } else {
            prev
        }
    }
}

/// The entries the start page's JSON-LD gives, once checked.
pub open spec fn structured_spec(nodes: Seq<DomNode>, base: UrlView) -> Seq<ItemView> {
    match jsonld_blocks_spec(ld_texts(nodes), base) {
        Some(v) => keep_structured(nodes, base, v),
        None => Seq::empty(),
    }
}

/// The entries of the start page's JSON-LD blocks that are no error pages
/// and whose links pass the link checks.
pub fn structured_items(nodes: &Vec<DomNode>, base: &WebUrl) -> (r: Vec<Item>)
    ensures
        items_view(r@) == structured_spec(nodes@, base@),
{
    let blocks = ld_blocks(nodes);
    let mut out: Vec<Item> = Vec::new();
    match extract_from_json_ld(&blocks, base) {
        None => {
            assert(items_view(out@) =~= Seq::<ItemView>::empty());
            out
        },
        Some(mut found) => {
            let ghost all = items_view(found@);
            let ghost k0 = found@.len();
            let kn = found.len();
            assert(kn == k0);
            let mut i: usize = 0;
            assert(all.take(0) =~= Seq::<ItemView>::empty());
            assert(items_view(out@) =~= Seq::<ItemView>::empty());
            assert(all.subrange(0, k0 as int) =~= all);
            while found.len() > 0
                invariant
                    i + found@.len() == k0,
                    k0 <= usize::MAX,
                    all.len() == k0,
                    items_view(found@) == all.subrange(i as int, k0 as int),
                    items_view(out@) == keep_structured(nodes@, base@, all.take(i as int)),
                decreases found.len(),
            {
                let ghost whole = items_view(found@);
                let it = found.remove(0);
                assert(whole.drop_first() =~= items_view(found@));
                assert(whole[0] == it@);
                assert(whole[0] == all[i as int]);
                assert(whole.drop_first() =~= all.subrange(i + 1, k0 as int));
                assert(all.take(i + 1).drop_last() =~= all.take(i as int));
                let ok = !is_error_page(nodes, it.title.as_str(), &it.description)
                    && crate::extract::link_ok_exec(it.link.as_str(), base);
                if ok {
                    let ghost prev = items_view(out@);
                    out.push(it);
                    assert(items_view(out@) =~= prev.push(all[i as int]));
                }
                i = i + 1;
            }
            assert(all.take(k0 as int) =~= all);
            out
        },
    }
}

/// What the start page gives without fetching: its entries and, unless
/// the `<article>` elements already gave `max` entries, the candidate links
/// to fetch.
pub struct LocalStages {
    pub items: Vec<Item>,
    pub candidates: Vec<WebUrl>,
    /// The `<article>` elements filled the feed: nothing is to be fetched.
    pub done: bool,
}

/// The entries of the start page's `<article>` elements.
pub open spec fn article_stage(nodes: Seq<DomNode>, base: UrlView, max: int) -> Seq<ItemView> {
    take_capped(article_elements(nodes).map_values(|a: int| article_item(nodes, base, a)), 0, max)
}

/// What `local_stages` gives for the page: the `<article>` entries; when
/// they reach `max` (and are some) nothing more and no candidates; else the
/// related-section entries on top (for a page that looks like a single
/// article) and the scored candidate links.
pub open spec fn local_stages_ok(nodes: Seq<DomNode>, base: UrlView, max_pages: int, r: LocalStages) -> bool {
    ({
        let first = article_stage(nodes, base, max_pages);
        if first.len() >= max_pages && first.len() > 0 {
            r.done && items_view(r.items@) == first && r.candidates@.len() == 0
        } else {
            &&& !r.done
            &&& items_view(r.items@) == (if looks_single_spec(nodes) {
                related_fold(nodes, base, related_anchor_list(nodes, related_classes()), first, max_pages)
            } else {
                first
            })
            &&& r.candidates@.map_values(|u: WebUrl| u@) == cand_fold(nodes, base, scanned_anchors(nodes),
                Seq::empty(), max_pages)
        }
    })
}

/// Runs the stages that need no fetch: `<article>` elements; then, unless
/// they gave `max_pages` entries, related sections (on a page that looks
/// like a single article) and the scored candidate links.
pub fn local_stages(nodes: &Vec<DomNode>, base: &WebUrl, max_pages: usize) -> (r: LocalStages)
    ensures
        local_stages_ok(nodes@, base@, max_pages as int, r),
{
    let mut items: Vec<Item> = Vec::new();
    extract_article_elements(nodes, base, max_pages, &mut items);
    assert(items_view(Seq::<Item>::empty()) =~= Seq::<ItemView>::empty());
    assert(Seq::<ItemView>::empty() + article_stage(nodes@, base@, max_pages as int) =~= article_stage(nodes@, base@, max_pages as int));
    if items.len() >= max_pages && items.len() > 0 {
        return LocalStages { items, candidates: Vec::new(), done: true };
    }
    if looks_like_single_article(nodes) {
        extract_related_articles(nodes, base, max_pages, &mut items);
    }
    let candidates = build_candidate_list(nodes, base, max_pages);
    LocalStages { items, candidates, done: false }
}

/// What to do with one candidate link.
pub enum CandidateAction {
    /// Enough entries are held: the crawl ends.
    Stop,
    /// A listing page: fetch it and follow its article links.
    FetchListing,
    /// Fetch the page and read one entry from it.
    FetchArticle,
}

/// What to do with the candidate `cand` while `have` entries are held.
pub fn plan_candidate(have: usize, max_pages: usize, cand: &WebUrl, base: &WebUrl) -> (r: CandidateAction)
    ensures
        have >= max_pages ==> r is Stop,
        have < max_pages && is_listing_spec(cand@, base@) ==> r is FetchListing,
        have < max_pages && !is_listing_spec(cand@, base@) ==> r is FetchArticle,
{
    if have >= max_pages {
        CandidateAction::Stop
    } else if is_listing_page(cand, base) {
        CandidateAction::FetchListing
    } else {
        CandidateAction::FetchArticle
    }
}

/// The article an anchor of the listing page `page` leads to: a link of the
/// start page's domain that no held entry has, with a date or article token
/// or an image inside the anchor.
pub open spec fn listing_target(nodes: Seq<DomNode>, page: UrlView, base: UrlView, links: Seq<Seq<char>>, a: int) -> Option<UrlView> {
    match attr_of(nodes[a], "href"@) {
        None => None,
        Some(h) => match url_join_of(page.href, h) {
            None => None,
            Some(abs) => if abs.domain == base.domain && !links.contains(abs.href) && (has_date_segment(abs.href)
                || has_article_token(abs.href, false) || select_named(nodes, a, seq!["img"@]).len() > 0) {
                Some(abs)
            } else {
                None
            },
        },
    }
}

/// The next anchor of the listing page `page`, from position `from` of its
/// anchors on, whose article is to be fetched, with that article's URL; none
/// once `max_pages` entries are held or no anchor is left.
pub fn next_listing_anchor(nodes: &Vec<DomNode>, page: &WebUrl, base: &WebUrl, items: &Vec<Item>, from: usize,
    max_pages: usize) -> (r: Option<(usize, WebUrl)>)
    ensures
        ({
            let anchors = select_named(nodes@, 0, seq!["a"@]);
            let links = links_of(items_view(items@));
            match r {
                Some((k, u)) => items@.len() < max_pages && from <= k < anchors.len()
                    && listing_target(nodes@, page@, base@, links, anchors[k as int]) == Some(u@)
                    && forall|j: int| from <= j < k ==> listing_target(nodes@, page@, base@, links, #[trigger] anchors[j]) is None,
                None => items@.len() >= max_pages
                    || forall|j: int| from <= j < anchors.len() ==> listing_target(nodes@, page@, base@, links, #[trigger] anchors[j]) is None,
            }
        }),
{
    if items.len() >= max_pages {
        return None;
    }
    let an = vec!["a"];
    assert(strs_view(an@) =~= seq!["a"@]);
    let anchors = select_named_exec(nodes, 0, &an);
    let ghost av = anchors@.map_values(|i: usize| i as int);
    let ghost links = links_of(items_view(items@));
    let inm = vec!["img"];
    assert(strs_view(inm@) =~= seq!["img"@]);
    let mut k: usize = from;
    while k < anchors.len()
        invariant
            from <= k || k >= anchors.len(),
            items@.len() < max_pages,
            av == anchors@.map_values(|i: usize| i as int),
            av == select_named(nodes@, 0, seq!["a"@]),
            strs_view(inm@) == seq!["img"@],
            links == links_of(items_view(items@)),
            forall|q: int| 0 <= q < anchors@.len() ==> anchors@[q] < nodes@.len(),
            forall|j: int| from <= j < k ==> listing_target(nodes@, page@, base@, links, #[trigger] av[j]) is None,
        decreases anchors.len() - k,
    {
        let a = anchors[k];
        assert(av[k as int] == a as int);
        if let Some(h) = attr_exec(&nodes[a], "href") {
            if let Some(abs) = join_url(page, h.as_str()) {
                let s = chars_of(abs.href.as_str());
                if crate::extract::same_domain(&abs, base) && !crate::extract::has_link(items, &abs.href)
                    && (has_date_segment_exec(&s) || has_article_token_exec(&s, false)
                    || select_named_exec(nodes, a, &inm).len() > 0) {
                    assert(listing_target(nodes@, page@, base@, links, a as int) == Some(abs@));
                    assert(from <= k);
                    return Some((k, abs));
                }
            }
        }
        k = k + 1;
    }
    None
}

/// How many times a failed fetch of a listing page's article is retried.
pub const MAX_RETRIES: u32 = 2;

pub open spec fn pow2(n: nat) -> nat
    decreases n,
{
    if n == 0 { 1 } else { 2 * pow2((n - 1) as nat) }
}

/// The wait before retry `attempt` (0 for the first try): one second,
/// doubled at each retry, at most ten seconds.
pub open spec fn backoff_spec(attempt: nat) -> nat {
    if attempt == 0 {
        0
    } else if 1000 * pow2((attempt - 1) as nat) < 10000 {
        1000 * pow2((attempt - 1) as nat)
    } else {
        10000
    }
}

proof fn lemma_pow2_grows(a: nat, b: nat)
    requires
        a <= b,
    ensures
        pow2(a) <= pow2(b),
    decreases b - a,
{
    if a < b {
        lemma_pow2_grows(a, (b - 1) as nat);
    }
}

/// The wait in milliseconds before retry `attempt` (see `backoff_spec`).
pub fn backoff_ms(attempt: u32) -> (r: u64)
    ensures
        r == backoff_spec(attempt as nat),
{
    if attempt == 0 {
        return 0;
    }
    let mut b: u64 = 1000;
    let mut k: u32 = 1;
    while k < attempt && b < 10000
        invariant
            1 <= k <= attempt,
            b == 1000 * pow2((k - 1) as nat),
            b < 20000,
        decreases attempt - k,
    {
        b = b * 2;
        k = k + 1;
    }
    if b >= 10000 {
        proof {
            lemma_pow2_grows((k - 1) as nat, (attempt - 1) as nat);
        }
        10000
    } else {
        b
    }
}

/// Why a run gives no feed.
pub enum RunError {
    /// No stage found any entry.
    NoArticles,
}

/// The decision on the fetched start page, in the order of the stages.
pub enum StartStep {
    /// Fetch the feed the page announces and hand it out as it is.
    FetchFeed(WebUrl),
    /// Write a feed of these entries from the page's structured data.
    Emit(Vec<Item>),
    /// Crawl on from what the page gives without fetching.
    Crawl(LocalStages),
}

/// The first stage that has something to offer: an announced feed (unless
/// fetching it already failed), else the checked structured-data entries,
/// else the stages that need no fetch.
pub fn start_step(nodes: &Vec<DomNode>, base: &WebUrl, max_pages: usize, feed_failed: bool) -> (r: StartStep)
    ensures
        ({
            let feed = feed_in(nodes@, base@, select_named(nodes@, 0, seq!["link"@]));
            match r {
                StartStep::FetchFeed(u) => !feed_failed && feed == Some(u@),
                StartStep::Emit(v) => (feed_failed || feed is None) && v@.len() > 0
                    && items_view(v@) == structured_spec(nodes@, base@),
                StartStep::Crawl(l) => (feed_failed || feed is None) && structured_spec(nodes@, base@).len() == 0
                    && local_stages_ok(nodes@, base@, max_pages as int, l),
            }
        }),
{
    if !feed_failed {
        if let Some(u) = find_linked_feed(nodes, base) {
            return StartStep::FetchFeed(u);
        }
    }
    let items = structured_items(nodes, base);
    if items.len() > 0 {
        return StartStep::Emit(items);
    }
    StartStep::Crawl(local_stages(nodes, base, max_pages))
}

/// The entries a crawl ends with: filtered and deduplicated unless the
/// `<article>` elements alone filled the feed (`done`).
pub open spec fn crawl_result(base: UrlView, done: bool, items: Seq<ItemView>) -> Seq<ItemView> {
    if done { items } else { filter_spec(items, base, Seq::empty()) }
}

/// Ends a crawl: filters the entries (unless `done`), and fails with
/// `NoArticles` when none is left.
pub fn finish_crawl(base: &WebUrl, done: bool, items: Vec<Item>) -> (r: Result<Vec<Item>, RunError>)
    ensures
        match r {
            Ok(v) => v@.len() > 0 && items_view(v@) == crawl_result(base@, done, items_view(items@)),
            Err(_) => crawl_result(base@, done, items_view(items@)).len() == 0,
        },
{
    let mut items = items;
    if !done {
        filter_items(base, &mut items);
    }
    if items.len() == 0 {
        Err(RunError::NoArticles)
    } else {
        Ok(items)
    }
}

/// No node of the page is an element named `name`.
pub open spec fn lacks_element(nodes: Seq<DomNode>, name: Seq<char>) -> bool {
    forall|j: int| 0 <= j < nodes.len() ==> !named_in(#[trigger] nodes[j], seq![name])
}

proof fn lemma_select_none(nodes: Seq<DomNode>, a: int, name: Seq<char>, hi: int)
    requires
        lacks_element(nodes, name),
    ensures
        named_below(nodes, a, seq![name], hi).len() == 0,
    decreases hi,
{
    if hi > 0 {
        lemma_select_none(nodes, a, name, hi - 1);
        if hi - 1 < nodes.len() {
            assert(!named_in(nodes[hi - 1], seq![name]));
        }
    }
}

proof fn lemma_anchors_in_none(nodes: Seq<DomNode>, conts: Seq<int>)
    requires
        lacks_element(nodes, "a"@),
    ensures
        anchors_in(nodes, conts).len() == 0,
    decreases conts.len(),
{
    if conts.len() > 0 {
        lemma_anchors_in_none(nodes, conts.drop_last());
        lemma_select_none(nodes, conts.last(), "a"@, nodes.len() as int);
    }
}

proof fn lemma_related_none(nodes: Seq<DomNode>, classes: Seq<Seq<char>>)
    requires
        lacks_element(nodes, "a"@),
    ensures
        related_anchor_list(nodes, classes).len() == 0,
    decreases classes.len(),
{
    if classes.len() > 0 {
        lemma_related_none(nodes, classes.drop_last());
        lemma_anchors_in_none(nodes, classed_below(nodes, classes.last(), nodes.len() as int));
    }
}

/// A page with no `<article>` and no `<a>` element gives, without fetching,
/// no entry and no candidate, so the crawl ends with no articles.
pub proof fn lemma_bare_page_yields_nothing(nodes: Seq<DomNode>, base: UrlView, max_pages: int, r: LocalStages)
    requires
        lacks_element(nodes, "article"@),
        lacks_element(nodes, "a"@),
        local_stages_ok(nodes, base, max_pages, r),
    ensures
        r.items@.len() == 0,
        r.candidates@.len() == 0,
        crawl_result(base, r.done, items_view(r.items@)).len() == 0,
{
    lemma_select_none(nodes, 0, "article"@, nodes.len() as int);
    lemma_select_none(nodes, 0, "a"@, nodes.len() as int);
    lemma_related_none(nodes, related_classes());
    let arts = article_elements(nodes);
    assert(arts.len() == 0);
    let xs = arts.map_values(|a: int| article_item(nodes, base, a));
    assert(take_capped(xs, 0, max_pages) =~= Seq::<ItemView>::empty());
    assert(scanned_anchors(nodes).len() == 0);
    let first = article_stage(nodes, base, max_pages);
    assert(first.len() == 0);
    assert(related_fold(nodes, base, related_anchor_list(nodes, related_classes()), first, max_pages) == first);
    assert(cand_fold(nodes, base, scanned_anchors(nodes), Seq::empty(), max_pages) == Seq::<UrlView>::empty());
    assert(r.candidates@.map_values(|u: WebUrl| u@).len() == r.candidates@.len());
    assert(items_view(r.items@).len() == r.items@.len());
    assert(filter_spec(items_view(r.items@), base, Seq::empty()) == Seq::<ItemView>::empty());
}

} // verus!
