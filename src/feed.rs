//! The RSS document: text sanitising, date formatting and rendering.

use crate::item::{items_view, Item, ItemView};
use crate::text::{chars_of, string_of, MAX_TEXT_LEN};
use crate::urls::{digits_at, is_digit, opt_view, UrlView, WebUrl};
use vstd::prelude::*;

verus! {

/// What `html_escape::decode_html_entities` gives for the text.
pub uninterp spec fn entities_decoded_of(s: Seq<char>) -> Seq<char>;

/// Relies on `html_escape::decode_html_entities`: named and numeric
/// references decoded, a function of the text alone.
#[verifier::external_body]
fn decode_entities(s: &str) -> (r: String)
    ensures
        r@ == entities_decoded_of(s@),
{
    html_escape::decode_html_entities(s).into_owned()
}

/// A character the feed keeps: tab, line feed, carriage return, or any
/// character that is no control character (U+0000..U+001F, U+007F..U+009F).
pub open spec fn xml_char_ok(c: char) -> bool {
    c == '\t' || c == '\n' || c == '\r' || ((c as u32) >= 0x20 && !(0x7F <= (c as u32) && (c as u32) <= 0x9F))
}

/// The characters of `s` that XML text may hold, in order.
pub open spec fn keep_xml_chars(s: Seq<char>) -> Seq<char>
    decreases s.len(),
{
    if s.len() == 0 {
        s
    } else if xml_char_ok(s.last()) {
        keep_xml_chars(s.drop_last()).push(s.last())
    } else {
        keep_xml_chars(s.drop_last())
    }
}

/// Text ready for the feed: entities decoded once, control characters
/// dropped, cut after `MAX_TEXT_LEN` characters with a marker.
pub open spec fn sanitize_spec(s: Seq<char>) -> Seq<char> {
    let t = keep_xml_chars(entities_decoded_of(s));
    if t.len() > MAX_TEXT_LEN {
        t.take(MAX_TEXT_LEN as int) + "\u{2026} (truncated)"@
    } else {
        t
    }
}

/// Decodes HTML entities once, drops the control characters XML refuses and
/// cuts the text after `MAX_TEXT_LEN` characters with a marker.
pub fn sanitize_text(s: &str) -> (r: Vec<char>)
    ensures
        r@ == sanitize_spec(s@),
{
    let d = chars_of(decode_entities(s).as_str());
    let mut out: Vec<char> = Vec::new();
    let mut i: usize = 0;
    while i < d.len()
        invariant
            i <= d.len(),
            out@ == keep_xml_chars(d@.subrange(0, i as int)),
        decreases d.len() - i,
    {
        assert(d@.subrange(0, i + 1).drop_last() =~= d@.subrange(0, i as int));
        let c = d[i];
        let u = c as u32;
        if c == '\t' || c == '\n' || c == '\r' || (u >= 0x20 && !(0x7F <= u && u <= 0x9F)) {
            out.push(c);
        }
        i = i + 1;
    }
    assert(d@.subrange(0, d.len() as int) =~= d@);
    if out.len() > MAX_TEXT_LEN {
        out.truncate(MAX_TEXT_LEN);
        let mut tail = chars_of("\u{2026} (truncated)");
        out.append(&mut tail);
    }
    out
}

/// The XML escape of one character, as `quick_xml::escape::escape` writes it.
pub open spec fn xml_escape_char(c: char) -> Seq<char> {
    if c == '<' {
        "&lt;"@
    } else if c == '>' {
        "&gt;"@
    } else if c == '&' {
        "&amp;"@
    } else if c == '\'' {
        "&apos;"@
    } else if c == '"' {
        "&quot;"@
    } else {
        seq![c]
    }
}

/// `s` with `<`, `>`, `&`, `'` and `"` escaped.
pub open spec fn xml_escape_spec(s: Seq<char>) -> Seq<char>
    decreases s.len(),
{
    if s.len() == 0 {
        s
    } else {
        xml_escape_spec(s.drop_last()) + xml_escape_char(s.last())
    }
}

/// Relies on `quick_xml::escape::escape`, which replaces exactly `<`, `>`,
/// `&`, `'` and `"` by their entities.
#[verifier::external_body]
fn escape_xml(s: &str) -> (r: String)
    ensures
        r@ == xml_escape_spec(s@),
{
    quick_xml::escape::escape(s).into_owned()
}

/// What chrono renders, in RFC 2822, for a text it parses as RFC 3339.
pub uninterp spec fn rfc3339_as_rfc2822(s: Seq<char>) -> Option<Seq<char>>;

/// What chrono renders, in RFC 2822, for a text it parses as RFC 2822.
pub uninterp spec fn rfc2822_as_rfc2822(s: Seq<char>) -> Option<Seq<char>>;

/// Relies on `DateTime::parse_from_rfc3339` and `DateTime::to_rfc2822`; the
/// four-digit year of RFC 3339 keeps `to_rfc2822` from panicking.
#[verifier::external_body]
fn reformat_rfc3339(s: &str) -> (r: Option<String>)
    ensures
        opt_view(r) == rfc3339_as_rfc2822(s@),
{
    chrono::DateTime::parse_from_rfc3339(s).ok().map(|d| d.to_rfc2822())
}

/// Five digits in a row stand in `s`.
pub open spec fn has_long_number(s: Seq<char>) -> bool {
    exists|i: int| #[trigger] digits_at(s, i, 5)
}

/// Relies on `DateTime::parse_from_rfc2822` and `DateTime::to_rfc2822`.
/// `to_rfc2822` panics on a year of more than four digits, which the
/// parser's only unbounded number can give: such texts are left out.
#[verifier::external_body]
fn reformat_rfc2822(s: &str) -> (r: Option<String>)
    requires
        !has_long_number(s@),
    ensures
        opt_view(r) == rfc2822_as_rfc2822(s@),
{
    chrono::DateTime::parse_from_rfc2822(s).ok().map(|d| d.to_rfc2822())
}

fn has_long_number_exec(s: &Vec<char>) -> (r: bool)
    ensures
        r == has_long_number(s@),
{
    let mut run: usize = 0;
    let mut i: usize = 0;
    while i < s.len()
        invariant
            i <= s.len(),
            run <= i,
            run < 5,
            forall|k: int| i - run <= k < i ==> is_digit(#[trigger] s@[k]),
            i - run == 0 || !is_digit(s@[i - run - 1]),
            forall|j: int| 0 <= j && j + 5 <= i ==> !#[trigger] digits_at(s@, j, 5),
        decreases s.len() - i,
    {
        if '0' <= s[i] && s[i] <= '9' {
            run = run + 1;
            if run == 5 {
                assert(digits_at(s@, i + 1 - 5, 5));
                return true;
            }
        } else {
            run = 0;
        }
        i = i + 1;
        assert forall|j: int| 0 <= j && j + 5 <= i implies !#[trigger] digits_at(s@, j, 5) by {
            if j + 5 == i {
                assert(!is_digit(s@[i - run - 1]));
            }
        }
    }
    assert forall|j: int| !#[trigger] digits_at(s@, j, 5) by {
    }
    false
}

/// A publish date as the feed writes it: RFC 3339 or RFC 2822 input
/// re-rendered in RFC 2822, anything else as it was written.
pub open spec fn pub_date_spec(raw: Seq<char>) -> Seq<char> {
    match rfc3339_as_rfc2822(raw) {
        Some(d) => d,
        None => if has_long_number(raw) {
            raw
        } else {
            match rfc2822_as_rfc2822(raw) {
                Some(d) => d,
                None => raw,
            }
        },
    }
}

/// Renders a publish date in RFC 2822 where it can be read (see `pub_date_spec`).
pub fn format_pub_date(raw: &str) -> (r: String)
    ensures
        r@ == pub_date_spec(raw@),
{
    if let Some(d) = reformat_rfc3339(raw) {
        return d;
    }
    let rv = chars_of(raw);
    if has_long_number_exec(&rv) {
        return string_of(&rv);
    }
    match reformat_rfc2822(raw) {
        Some(d) => d,
        None => string_of(&rv),
    }
}

/// `n` spaces.
pub open spec fn spaces(n: nat) -> Seq<char> {
    Seq::new(n, |i: int| ' ')
}

/// One text element on its own line, indented two spaces per level, its
/// text sanitized and escaped.
pub open spec fn text_element(depth: nat, name: Seq<char>, text: Seq<char>) -> Seq<char> {
    "\n"@ + spaces(2 * depth) + "<"@ + name + ">"@ + xml_escape_spec(sanitize_spec(text)) + "</"@ + name + ">"@
}

/// An optional text element: nothing where the field is absent.
pub open spec fn opt_element(depth: nat, name: Seq<char>, text: Option<Seq<char>>) -> Seq<char> {
    match text {
        Some(t) => text_element(depth, name, t),
        None => Seq::empty(),
    }
}

/// The `<item>` of one entry: title, link, description, publish date and
/// image enclosure, each where present.
pub open spec fn item_xml(it: ItemView) -> Seq<char> {
    "\n    <item>"@ + text_element(3, "title"@, it.title) + text_element(3, "link"@, it.link)
        + opt_element(3, "description"@, it.description)
        + opt_element(3, "pubDate"@, match it.pub_date { Some(d) => Some(pub_date_spec(d)), None => None })
        + match it.image {
            Some(i) => "\n      <enclosure url=\""@ + xml_escape_spec(i) + "\"/>"@,
            None => Seq::empty(),
        }
        + "\n    </item>"@
}

/// The `<item>`s of the entries, in order.
pub open spec fn items_xml(items: Seq<ItemView>) -> Seq<char>
    decreases items.len(),
{
    if items.len() == 0 {
        Seq::empty()
    } else {
        items_xml(items.drop_last()) + item_xml(items.last())
    }
}

/// The channel title: the page's host, else its whole URL.
pub open spec fn channel_title(base: UrlView) -> Seq<char> {
    "Feed for "@ + match base.host {
        Some(h) => h,
        None => base.href,
    }
}

/// The RSS 2.0 document for the page `base` and its entries.
pub open spec fn rss_spec(base: UrlView, items: Seq<ItemView>) -> Seq<char> {
    "<?xml version=\"1.0\" encoding=\"utf-8\"?>"@ + "\n<rss version=\"2.0\">"@ + "\n  <channel>"@
        + text_element(2, "title"@, channel_title(base)) + text_element(2, "link"@, base.href)
        + text_element(2, "description"@, "Generated by html2rss"@) + items_xml(items)
        + "\n  </channel>"@ + "\n</rss>"@
}

fn push_str(out: &mut Vec<char>, s: &str)
    ensures
        final(out)@ == old(out)@ + s@,
{
    let mut v = chars_of(s);
    out.append(&mut v);
}

fn push_text_element(out: &mut Vec<char>, depth: usize, name: &str, text: &str)
    requires
        depth <= 3,
    ensures
        final(out)@ == old(out)@ + text_element(depth as nat, name@, text@),
{
    let ghost start = out@;
    push_str(out, "\n");
    let mut k: usize = 0;
    while k < 2 * depth
        invariant
            k <= 2 * depth,
            depth <= 3,
            out@ == start + "\n"@ + spaces(k as nat),
        decreases 2 * depth - k,
    {
        out.push(' ');
        assert(spaces((k + 1) as nat) =~= spaces(k as nat).push(' '));
        k = k + 1;
    }
    push_str(out, "<");
    push_str(out, name);
    push_str(out, ">");
    let clean = string_of(&sanitize_text(text));
    let esc = escape_xml(clean.as_str());
    push_str(out, esc.as_str());
    push_str(out, "</");
    push_str(out, name);
    push_str(out, ">");
    assert(out@ =~= start + text_element(depth as nat, name@, text@));
}

fn push_item(out: &mut Vec<char>, it: &Item)
    ensures
        final(out)@ == old(out)@ + item_xml(it@),
{
    let ghost start = out@;
    push_str(out, "\n    <item>");
    push_text_element(out, 3, "title", it.title.as_str());
    push_text_element(out, 3, "link", it.link.as_str());
    let ghost mid = out@;
    if let Some(d) = &it.description {
        push_text_element(out, 3, "description", d.as_str());
    }
    assert(out@ =~= mid + opt_element(3, "description"@, it@.description));
    let ghost mid2 = out@;
    if let Some(d) = &it.pub_date {
        let f = format_pub_date(d.as_str());
        push_text_element(out, 3, "pubDate", f.as_str());
    }
    assert(out@ =~= mid2 + opt_element(3, "pubDate"@, match it@.pub_date { Some(d) => Some(pub_date_spec(d)), None => None }));
    let ghost mid3 = out@;
    if let Some(i) = &it.image {
        push_str(out, "\n      <enclosure url=\"");
        let esc = escape_xml(i.as_str());
        push_str(out, esc.as_str());
        push_str(out, "\"/>");
    }
    let ghost img = match it@.image {
        Some(i) => "\n      <enclosure url=\""@ + xml_escape_spec(i) + "\"/>"@,
        None => Seq::empty(),
    };
    assert(out@ =~= mid3 + img);
    push_str(out, "\n    </item>");
    assert(out@ =~= start + item_xml(it@));
}

/// The RSS 2.0 document for the page `base` and its entries.
pub fn render_rss(base: &WebUrl, items: &Vec<Item>) -> (r: String)
    ensures
        r@ == rss_spec(base@, items_view(items@)),
{
    let mut out: Vec<char> = Vec::new();
    push_str(&mut out, "<?xml version=\"1.0\" encoding=\"utf-8\"?>");
    push_str(&mut out, "\n<rss version=\"2.0\">");
    push_str(&mut out, "\n  <channel>");
    let mut title = chars_of("Feed for ");
    let mut host = match &base.host {
        Some(h) => chars_of(h.as_str()),
        None => chars_of(base.href.as_str()),
    };
    title.append(&mut host);
    let ts = string_of(&title);
    push_text_element(&mut out, 2, "title", ts.as_str());
    push_text_element(&mut out, 2, "link", base.href.as_str());
    push_text_element(&mut out, 2, "description", "Generated by html2rss");
    let ghost head = out@;
    let mut k: usize = 0;
    while k < items.len()
        invariant
            k <= items.len(),
            out@ == head + items_xml(items_view(items@).take(k as int)),
        decreases items.len() - k,
    {
        assert(items_view(items@).take(k + 1).drop_last() =~= items_view(items@).take(k as int));
        push_item(&mut out, &items[k]);
        k = k + 1;
    }
    assert(items_view(items@).take(items.len() as int) =~= items_view(items@));
    push_str(&mut out, "\n  </channel>");
    push_str(&mut out, "\n</rss>");
    string_of(&out)
}

} // verus!
