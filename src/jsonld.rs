//! Items read from the page's embedded JSON-LD blocks.

use crate::item::{items_view, Item, ItemView};
use crate::text::{chars_of, fix_mojibake, lower_of, normalize_spec, str_eq, to_lower};
use crate::urls::{contains_any, contains_any_exec, normalize_maybe_url, opt_view, resolve_spec,
    words_view, UrlView, WebUrl};
use vstd::prelude::*;

verus! {

/// A JSON value. Numbers are kept without their value: nothing here reads one.
pub enum Json {
    Null,
    Bool(bool),
    Number,
    Str(String),
    Array(Vec<Json>),
    Object(Vec<(String, Json)>),
}

#[verifier::external_type_specification]
#[verifier::external_body]
pub struct ExJsonValue(serde_json::Value);

/// What `serde_json::from_str` reads from the text, as a `Json`.
pub uninterp spec fn json_parse_of(s: Seq<char>) -> Option<Json>;

/// Copies a `serde_json::Value` into a `Json`, variant by variant.
#[verifier::external_body]
fn json_from_value(v: serde_json::Value) -> Json {
    match v {
        serde_json::Value::Null => Json::Null,
        serde_json::Value::Bool(b) => Json::Bool(b),
        serde_json::Value::Number(_) => Json::Number,
        serde_json::Value::String(s) => Json::Str(s),
        serde_json::Value::Array(a) => Json::Array(a.into_iter().map(json_from_value).collect()),
        serde_json::Value::Object(m) => Json::Object(m.into_iter().map(|(k, v)| (k, json_from_value(v))).collect()),
    }
}

/// Relies on `serde_json::from_str`: the JSON document in the text, if it is one.
#[verifier::external_body]
fn parse_json(s: &str) -> (r: Option<Json>)
    ensures
        r == json_parse_of(s@),
{
    serde_json::from_str::<serde_json::Value>(s).ok().map(json_from_value)
}

/// The value of the first member named `key`.
pub open spec fn obj_get(f: Seq<(String, Json)>, key: Seq<char>) -> Option<Json>
    decreases f.len(),
{
    if f.len() == 0 {
        None
    } else if f[0].0@ == key {
        Some(f[0].1)
    } else {
        obj_get(f.drop_first(), key)
    }
}

/// The string value of the member named `key`.
pub open spec fn str_field(f: Seq<(String, Json)>, key: Seq<char>) -> Option<Seq<char>> {
    match obj_get(f, key) {
        Some(Json::Str(s)) => Some(s@),
        _ => None,
    }
}

fn obj_get_exec<'a>(f: &'a Vec<(String, Json)>, key: &str) -> (r: Option<&'a Json>)
    ensures
        match r {
            Some(j) => obj_get(f@, key@) == Some(*j),
            None => obj_get(f@, key@) is None,
        },
{
    let mut i: usize = 0;
    assert(f@.subrange(0, f@.len() as int) =~= f@);
    while i < f.len()
        invariant
            i <= f.len(),
            obj_get(f@, key@) == obj_get(f@.subrange(i as int, f@.len() as int), key@),
        decreases f.len() - i,
    {
        let ghost rest = f@.subrange(i as int, f@.len() as int);
        assert(rest.drop_first() =~= f@.subrange(i + 1, f@.len() as int));
        if str_eq(f[i].0.as_str(), key) {
            return Some(&f[i].1);
        }
        i = i + 1;
    }
    None
}

fn str_field_exec<'a>(f: &'a Vec<(String, Json)>, key: &str) -> (r: Option<&'a String>)
    ensures
        match r {
            Some(s) => str_field(f@, key@) == Some(s@),
            None => str_field(f@, key@) is None,
        },
{
    match obj_get_exec(f, key) {
        Some(Json::Str(s)) => Some(s),
        _ => None,
    }
}

/// Type names that mark an article.
pub open spec fn article_type_words() -> Seq<Seq<char>> {
    seq!["article"@, "newsarticle"@, "report"@]
}

/// A type name that marks an article, compared in lower case.
pub open spec fn is_article_type(s: Seq<char>) -> bool {
    contains_any(lower_of(s), article_type_words())
}

fn is_article_type_exec(s: &str) -> (r: bool)
    ensures
        r == is_article_type(s@),
{
    let low = chars_of(to_lower(s).as_str());
    let ws = vec!["article", "newsarticle", "report"];
    assert(words_view(ws@) =~= article_type_words());
    contains_any_exec(&low, &ws)
}

/// The type member: `@type`, else `type`.
pub open spec fn type_field(f: Seq<(String, Json)>) -> Option<Json> {
    match obj_get(f, "@type"@) {
        Some(t) => Some(t),
        None => obj_get(f, "type"@),
    }
}

/// An object whose type (a string or an array of strings) names an article.
pub open spec fn is_article_node_spec(v: Json) -> bool {
    match v {
        Json::Object(f) => match type_field(f@) {
            Some(Json::Str(s)) => is_article_type(s@),
            Some(Json::Array(a)) => exists|i: int|
                0 <= i < a@.len() && (#[trigger] a@[i] matches Json::Str(s) && is_article_type(s@)),
            _ => false,
        },
        _ => false,
    }
}

/// Whether `v` is an object whose type names an article.
pub fn is_jsonld_article_node(v: &Json) -> (r: bool)
    ensures
        r == is_article_node_spec(*v),
{
    match v {
        Json::Object(f) => {
            let t = match obj_get_exec(f, "@type") {
                Some(t) => Some(t),
                None => obj_get_exec(f, "type"),
            };
            match t {
                Some(Json::Str(s)) => is_article_type_exec(s.as_str()),
                Some(Json::Array(a)) => {
                    let mut i: usize = 0;
                    while i < a.len()
                        invariant
                            i <= a.len(),
                            *v == Json::Object(*f),
                            type_field(f@) == Some(Json::Array(*a)),
                            forall|j: int| 0 <= j < i ==> !(#[trigger] a@[j] matches Json::Str(s) && is_article_type(s@)),
                        decreases a.len() - i,
                    {
                        if let Json::Str(s) = &a[i] {
                            if is_article_type_exec(s.as_str()) {
                                assert(a@[i as int] == Json::Str(*s));
                                return true;
                            }
                        }
                        i = i + 1;
                    }
                    false
                },
                _ => false,
            }
        },
        _ => false,
    }
}

pub open spec fn opt_normalize(o: Option<Seq<char>>) -> Option<Seq<char>> {
    match o {
        Some(s) => Some(normalize_spec(s)),
        None => None,
    }
}

/// A link field resolved against the page, or nothing.
pub open spec fn opt_resolve(base: UrlView, o: Option<Seq<char>>) -> Option<Seq<char>> {
    match o {
        Some(s) => resolve_spec(base, s),
        None => None,
    }
}

/// The image of a node: a string, an object's `url`, or an array's first
/// string, resolved against the page.
pub open spec fn image_spec(f: Seq<(String, Json)>, base: UrlView) -> Option<Seq<char>> {
    match obj_get(f, "image"@) {
        Some(Json::Str(s)) => resolve_spec(base, s@),
        Some(Json::Object(g)) => opt_resolve(base, str_field(g@, "url"@)),
        Some(Json::Array(a)) => if a@.len() > 0 {
            match a@[0] {
                Json::Str(s) => resolve_spec(base, s@),
                _ => None,
            }
        } else {
            None
        },
        _ => None,
    }
}

/// The entry a node describes: title from `headline` else `name` (required),
/// link from `url` (else the page), description, publish date as written,
/// and image. Text fields are normalized; a title that normalizes to nothing
/// drops the node.
pub open spec fn jsonld_item_spec(v: Json, base: UrlView) -> Option<ItemView> {
    match v {
        Json::Object(f) => {
            let t = match str_field(f@, "headline"@) {
                Some(h) => Some(h),
                None => str_field(f@, "name"@),
            };
            match t {
                None => None,
                Some(t) => if normalize_spec(t).len() == 0 { None } else { Some(ItemView {
                    title: normalize_spec(t),
                    link: match opt_resolve(base, str_field(f@, "url"@)) {
                        Some(l) => l,
                        None => base.href,
                    },
                    description: opt_normalize(str_field(f@, "description"@)),
                    pub_date: str_field(f@, "datePublished"@),
                    image: image_spec(f@, base),
                }) },
            }
        },
        _ => None,
    }
}

fn resolve_opt(base: &WebUrl, o: Option<&String>) -> (r: Option<String>)
    ensures
        opt_view(r) == opt_resolve(base@, match o { Some(s) => Some(s@), None => None }),
{
    match o {
        Some(s) => normalize_maybe_url(base, s.as_str()),
        None => None,
    }
}

fn image_of(f: &Vec<(String, Json)>, base: &WebUrl) -> (r: Option<String>)
    ensures
        opt_view(r) == image_spec(f@, base@),
{
    match obj_get_exec(f, "image") {
        Some(Json::Str(s)) => normalize_maybe_url(base, s.as_str()),
        Some(Json::Object(g)) => resolve_opt(base, str_field_exec(g, "url")),
        Some(Json::Array(a)) => {
            if a.len() > 0 {
                match &a[0] {
                    Json::Str(s) => normalize_maybe_url(base, s.as_str()),
                    _ => None,
                }
            } else {
                None
            }
        },
        _ => None,
    }
}

/// The entry that a JSON-LD node describes (see `jsonld_item_spec`).
pub fn json_ld_to_item(v: &Json, base: &WebUrl) -> (r: Option<Item>)
    ensures
        match r {
            Some(it) => jsonld_item_spec(*v, base@) == Some(it@),
            None => jsonld_item_spec(*v, base@) is None,
        },
{
    match v {
        Json::Object(f) => {
            let t = match str_field_exec(f, "headline") {
                Some(h) => Some(h),
                None => str_field_exec(f, "name"),
            };
            match t {
                None => None,
                Some(t) => {
                    let title = fix_mojibake(t.as_str());
                    if chars_of(title.as_str()).len() == 0 {
                        return None;
                    }
                    let link = match resolve_opt(base, str_field_exec(f, "url")) {
                        Some(l) => l,
                        None => base.href.clone(),
                    };
                    let description = match str_field_exec(f, "description") {
                        Some(d) => Some(fix_mojibake(d.as_str())),
                        None => None,
                    };
                    let pub_date = match str_field_exec(f, "datePublished") {
                        Some(d) => Some(d.clone()),
                        None => None,
                    };
                    let image = image_of(f, base);
                    Some(Item { title, link, description, pub_date, image })
                },
            }
        },
        _ => None,
    }
}

/// The entries of the article nodes among `a`, in order; nodes without a
/// title are left out.
pub open spec fn convert_all(a: Seq<Json>, base: UrlView) -> Seq<ItemView>
    decreases a.len(),
{
    if a.len() == 0 {
        Seq::empty()
    } else {
        let prev = convert_all(a.drop_last(), base);
        if is_article_node_spec(a.last()) {
            match jsonld_item_spec(a.last(), base) {
                Some(it) => prev.push(it),
                None => prev,
            }
        } else {
            prev
        }
    }
}

fn convert_all_exec(a: &Vec<Json>, base: &WebUrl) -> (r: Vec<Item>)
    ensures
        items_view(r@) == convert_all(a@, base@),
{
    let mut out: Vec<Item> = Vec::new();
    let mut i: usize = 0;
    while i < a.len()
        invariant
            i <= a.len(),
            items_view(out@) == convert_all(a@.subrange(0, i as int), base@),
        decreases a.len() - i,
    {
        assert(a@.subrange(0, i + 1).drop_last() =~= a@.subrange(0, i as int));
        if is_jsonld_article_node(&a[i]) {
            if let Some(it) = json_ld_to_item(&a[i], base) {
                let ghost prev = out@;
                out.push(it);
                assert(items_view(out@) =~= items_view(prev).push(it@));
            }
        }
        i = i + 1;
    }
    assert(a@.subrange(0, a.len() as int) =~= a@);
    out
}

/// The single entry of node `v` where it is an article node.
pub open spec fn node_items(v: Json, base: UrlView) -> Seq<ItemView> {
    if is_article_node_spec(v) {
        match jsonld_item_spec(v, base) {
            Some(it) => seq![it],
            None => Seq::empty(),
        }
    } else {
        Seq::empty()
    }
}

/// The entries of one JSON-LD document, searched in order: the article
/// members of a `@graph` array, else the root object, else the article
/// elements of a root array, else the root's `mainEntityOfPage`.
pub open spec fn block_items(j: Json, base: UrlView) -> Seq<ItemView> {
    let graph = match j {
        Json::Object(f) => match obj_get(f@, "@graph"@) {
            Some(Json::Array(a)) => convert_all(a@, base),
            _ => Seq::empty(),
        },
        _ => Seq::empty(),
    };
    let root = if graph.len() == 0 && j is Object { node_items(j, base) } else { graph };
    let arr = if root.len() == 0 {
        match j {
            Json::Array(a) => convert_all(a@, base),
            _ => root,
        }
    } else {
        root
    };
    if arr.len() > 0 {
        arr
    } else {
        match j {
            Json::Object(f) => match obj_get(f@, "mainEntityOfPage"@) {
                Some(me) => node_items(me, base),
                None => Seq::empty(),
            },
            _ => Seq::empty(),
        }
    }
}

fn node_items_exec(v: &Json, base: &WebUrl) -> (r: Vec<Item>)
    ensures
        items_view(r@) == node_items(*v, base@),
{
    let mut out: Vec<Item> = Vec::new();
    if is_jsonld_article_node(v) {
        if let Some(it) = json_ld_to_item(v, base) {
            out.push(it);
            assert(items_view(out@) =~= seq![it@]);
        }
    }
    assert(out@.len() == 0 ==> items_view(out@) =~= Seq::<ItemView>::empty());
    out
}

fn block_items_exec(j: &Json, base: &WebUrl) -> (r: Vec<Item>)
    ensures
        items_view(r@) == block_items(*j, base@),
{
    let mut items: Vec<Item> = Vec::new();
    if let Json::Object(f) = j {
        if let Some(Json::Array(a)) = obj_get_exec(f, "@graph") {
            items = convert_all_exec(a, base);
        }
        if items.len() == 0 {
            items = node_items_exec(j, base);
        }
    }
    if items.len() == 0 {
        if let Json::Array(a) = j {
            items = convert_all_exec(a, base);
        }
    }
    if items.len() > 0 {
        return items;
    }
    if let Json::Object(f) = j {
        if let Some(me) = obj_get_exec(f, "mainEntityOfPage") {
            return node_items_exec(me, base);
        }
    }
    assert(items_view(items@) =~= Seq::<ItemView>::empty());
    items
}

/// The entries of the first block that parses as JSON and yields any.
pub open spec fn jsonld_blocks_spec(blocks: Seq<Seq<char>>, base: UrlView) -> Option<Seq<ItemView>>
    decreases blocks.len(),
{
    if blocks.len() == 0 {
        None
    } else {
        match json_parse_of(blocks[0]) {
            Some(j) if block_items(j, base).len() > 0 => Some(block_items(j, base)),
            _ => jsonld_blocks_spec(blocks.drop_first(), base),
        }
    }
}

pub open spec fn strings_view(v: Seq<String>) -> Seq<Seq<char>> {
    v.map_values(|s: String| s@)
}

/// Items from the page's JSON-LD blocks (the texts of its
/// `application/ld+json` scripts): those of the first block that yields any.
pub fn extract_from_json_ld(blocks: &Vec<String>, base: &WebUrl) -> (r: Option<Vec<Item>>)
    ensures
        match r {
            Some(v) => jsonld_blocks_spec(strings_view(blocks@), base@) == Some(items_view(v@)),
            None => jsonld_blocks_spec(strings_view(blocks@), base@) is None,
        },
{
    let mut i: usize = 0;
    assert(strings_view(blocks@).subrange(0, blocks@.len() as int) =~= strings_view(blocks@));
    while i < blocks.len()
        invariant
            i <= blocks.len(),
            jsonld_blocks_spec(strings_view(blocks@), base@) == jsonld_blocks_spec(
                strings_view(blocks@).subrange(i as int, blocks@.len() as int), base@),
        decreases blocks.len() - i,
    {
        let ghost rest = strings_view(blocks@).subrange(i as int, blocks@.len() as int);
        assert(rest.drop_first() =~= strings_view(blocks@).subrange(i + 1, blocks@.len() as int));
        assert(rest[0] == blocks@[i as int]@);
        if let Some(j) = parse_json(blocks[i].as_str()) {
            let items = block_items_exec(&j, base);
            if items.len() > 0 {
                return Some(items);
            }
        }
        i = i + 1;
    }
    None
}

} // verus!
