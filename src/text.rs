//! Character-level text handling: substring search, whitespace tidying,
//! repair of mis-decoded text and sanitising for the feed.

use unicode_normalization::UnicodeNormalization;
use vstd::prelude::*;
use vstd::utf8::{decode_utf8, encode_utf8, valid_utf8};

verus! {

/// Text fields longer than this many characters are cut in the feed.
pub const MAX_TEXT_LEN: usize = 4096;

/// `p` occurs in `s` starting at position `i`.
pub open spec fn occurs_at(s: Seq<char>, p: Seq<char>, i: int) -> bool {
    0 <= i && i + p.len() <= s.len() && s.subrange(i, i + p.len()) == p
}

/// `p` occurs somewhere in `s`.
pub open spec fn seq_contains(s: Seq<char>, p: Seq<char>) -> bool {
    exists|i: int| occurs_at(s, p, i)
}

/// Relies on `str::chars`: the characters of the string, in order.
#[verifier::external_body]
pub(crate) fn chars_of(s: &str) -> (r: Vec<char>)
    ensures
        r@ == s@,
{
    s.chars().collect()
}

/// Relies on collecting characters into a `String`: the same characters.
#[verifier::external_body]
pub(crate) fn string_of(v: &Vec<char>) -> (r: String)
    ensures
        r@ == v@,
{
    v.iter().collect()
}

/// What `str::to_lowercase` returns for the given characters.
pub uninterp spec fn lower_of(s: Seq<char>) -> Seq<char>;

/// Relies on `str::to_lowercase`: the result depends on the characters alone.
#[verifier::external_body]
pub(crate) fn to_lower(s: &str) -> (r: String)
    ensures
        r@ == lower_of(s@),
{
    s.to_lowercase()
}

/// Whether `p` occurs in `s` at position `i`.
pub fn occurs_at_exec(s: &Vec<char>, p: &Vec<char>, i: usize) -> (r: bool)
    ensures
        r == occurs_at(s@, p@, i as int),
{
    if i > s.len() || p.len() > s.len() - i {
        return false;
    }
    let mut k: usize = 0;
    while k < p.len()
        invariant
            i + p.len() <= s.len(),
            k <= p.len(),
            forall|j: int| 0 <= j < k ==> s@[i + j] == p@[j],
        decreases p.len() - k,
    {
        if s[i + k] != p[k] {
            assert(s@.subrange(i as int, i + p.len())[k as int] != p@[k as int]);
            return false;
        }
        k = k + 1;
    }
    assert(s@.subrange(i as int, i + p.len()) =~= p@);
    true
}

/// Whether `p` occurs anywhere in `s`.
pub fn contains_seq(s: &Vec<char>, p: &Vec<char>) -> (r: bool)
    ensures
        r == seq_contains(s@, p@),
{
    if p.len() > s.len() {
        return false;
    }
    let last = s.len() - p.len();
    let mut i: usize = 0;
    while i < last
        invariant
            last == s.len() - p.len(),
            i <= last,
            forall|j: int| 0 <= j < i ==> !occurs_at(s@, p@, j),
        decreases last - i,
    {
        if occurs_at_exec(s, p, i) {
            return true;
        }
        i = i + 1;
    }
    if occurs_at_exec(s, p, last) {
        return true;
    }
    proof { true_if_never(s@, p@); }
    false
}

proof fn true_if_never(s: Seq<char>, p: Seq<char>)
    requires
        p.len() <= s.len(),
        forall|j: int| 0 <= j < s.len() - p.len() + 1 ==> !occurs_at(s, p, j),
    ensures
        !seq_contains(s, p),
{
}

/// Whether the literal `p` occurs in `s`.
pub fn contains_str(s: &Vec<char>, p: &str) -> (r: bool)
    ensures
        r == seq_contains(s@, p@),
{
    let pv = chars_of(p);
    contains_seq(s, &pv)
}

/// Whether `s` begins with the literal `p`.
pub fn starts_with_str(s: &Vec<char>, p: &str) -> (r: bool)
    ensures
        r == (p@.len() <= s@.len() && s@.subrange(0, p@.len() as int) == p@),
{
    let pv = chars_of(p);
    occurs_at_exec(s, &pv, 0)
}

/// Whether `s` ends with the literal `p`.
pub fn ends_with_str(s: &Vec<char>, p: &str) -> (r: bool)
    ensures
        r == (p@.len() <= s@.len() && s@.subrange(s@.len() - p@.len(), s@.len() as int) == p@),
{
    let pv = chars_of(p);
    if pv.len() > s.len() {
        return false;
    }
    occurs_at_exec(s, &pv, s.len() - pv.len())
}

/// The Unicode `White_Space` characters, which `char::is_whitespace` and the
/// `\s` class of regular expressions both stand for.
pub open spec fn is_space_spec(c: char) -> bool {
    let u = c as u32;
    (0x09 <= u && u <= 0x0D) || u == 0x20 || u == 0x85 || u == 0xA0 || u == 0x1680
        || (0x2000 <= u && u <= 0x200A) || u == 0x2028 || u == 0x2029 || u == 0x202F
        || u == 0x205F || u == 0x3000
}

/// Whether `c` is Unicode white space.
pub fn is_space(c: char) -> (r: bool)
    ensures
        r == is_space_spec(c),
{
    let u = c as u32;
    (0x09 <= u && u <= 0x0D) || u == 0x20 || u == 0x85 || u == 0xA0 || u == 0x1680
        || (0x2000 <= u && u <= 0x200A) || u == 0x2028 || u == 0x2029 || u == 0x202F
        || u == 0x205F || u == 0x3000
}

/// Reading `s` left to right: the text kept so far, and whether a run of white
/// space is waiting to become a single space before the next visible character.
pub open spec fn squash_state(s: Seq<char>) -> (Seq<char>, bool)
    decreases s.len(),
{
    if s.len() == 0 {
        (Seq::empty(), false)
    } else {
        let prev = squash_state(s.drop_last());
        let c = s.last();
        if is_space_spec(c) {
            (prev.0, prev.0.len() > 0)
        } else if prev.1 {
            (prev.0.push(' ').push(c), false)
        } else {
            (prev.0.push(c), false)
        }
    }
}

/// `s` with every run of white space replaced by one space, and no white space
/// at either end.
pub open spec fn squash_spec(s: Seq<char>) -> Seq<char> {
    squash_state(s).0
}

/// Text as `squash_spec` leaves it: its only white space is single spaces
/// between visible characters.
pub open spec fn is_tidy(t: Seq<char>) -> bool {
    &&& forall|i: int| 0 <= i < t.len() && is_space_spec(#[trigger] t[i]) ==> t[i] == ' '
    &&& t.len() > 0 ==> t[0] != ' ' && t.last() != ' '
    &&& forall|i: int| 0 <= i < t.len() - 1 && #[trigger] t[i] == ' ' ==> t[i + 1] != ' '
}

/// Collapses white-space runs to one space and trims both ends.
pub fn squash(s: &Vec<char>) -> (r: Vec<char>)
    ensures
        r@ == squash_spec(s@),
{
    let mut out: Vec<char> = Vec::new();
    let mut pending = false;
    let mut i: usize = 0;
    while i < s.len()
        invariant
            i <= s.len(),
            (out@, pending) == squash_state(s@.subrange(0, i as int)),
        decreases s.len() - i,
    {
        let c = s[i];
        assert(s@.subrange(0, i + 1).drop_last() =~= s@.subrange(0, i as int));
        if is_space(c) {
            pending = out.len() > 0;
        } else {
            if pending {
                out.push(' ');
            }
            out.push(c);
            pending = false;
        }
        i = i + 1;
    }
    assert(s@.subrange(0, s.len() as int) =~= s@);
    out
}

proof fn lemma_squash_state_tidy(s: Seq<char>)
    ensures
        is_tidy(squash_state(s).0),
        squash_state(s).1 ==> squash_state(s).0.len() > 0,
    decreases s.len(),
{
    if s.len() > 0 {
        lemma_squash_state_tidy(s.drop_last());
        let prev = squash_state(s.drop_last()).0;
        let out = squash_state(s).0;
        assert forall|i: int| 0 <= i < out.len() - 1 && #[trigger] out[i] == ' ' implies out[i + 1] != ' ' by {
            if i < prev.len() - 1 {
                assert(out[i] == prev[i] && out[i + 1] == prev[i + 1]);
            }
        }
        assert forall|i: int| 0 <= i < out.len() && is_space_spec(#[trigger] out[i]) implies out[i] == ' ' by {
            if i < prev.len() {
                assert(out[i] == prev[i]);
            }
        }
    }
}

proof fn lemma_squash_prefix_of_tidy(t: Seq<char>, k: int)
    requires
        is_tidy(t),
        0 <= k <= t.len(),
    ensures
        squash_state(t.subrange(0, k)) == (if k > 0 && t[k - 1] == ' ' {
            (t.subrange(0, k - 1), true)
        } else {
            (t.subrange(0, k), false)
        }),
    decreases k,
{
    if k > 0 {
        let pre = t.subrange(0, k);
        assert(pre.drop_last() =~= t.subrange(0, k - 1));
        lemma_squash_prefix_of_tidy(t, k - 1);
        if t[k - 1] == ' ' {
            assert(k - 1 > 0);
            assert(t[k - 2] != ' ');
        } else {
            assert(!is_space_spec(t[k - 1]));
            if k - 1 > 0 && t[k - 2] == ' ' {
                assert(t.subrange(0, k - 2).push(' ').push(t[k - 1]) =~= pre);
            } else {
                assert(t.subrange(0, k - 1).push(t[k - 1]) =~= pre);
            }
        }
    }
}

/// Squashing tidy text leaves it as it is.
pub proof fn lemma_squash_tidy_fixed(t: Seq<char>)
    requires
        is_tidy(t),
    ensures
        squash_spec(t) == t,
{
    lemma_squash_prefix_of_tidy(t, t.len() as int);
    assert(t.subrange(0, t.len() as int) =~= t);
}

/// Collapsing and trimming white space is idempotent: a second pass changes
/// nothing.
pub proof fn lemma_squash_idempotent(s: Seq<char>)
    ensures
        squash_spec(squash_spec(s)) == squash_spec(s),
{
    lemma_squash_state_tidy(s);
    lemma_squash_tidy_fixed(squash_spec(s));
}

/// What `unicode_normalization`'s NFKC iterator yields for the given characters.
pub uninterp spec fn nfkc_of(s: Seq<char>) -> Seq<char>;

/// Relies on `UnicodeNormalization::nfkc`: compatibility decomposition followed
/// by canonical composition, a function of the characters alone.
#[verifier::external_body]
fn nfkc(s: &str) -> (r: String)
    ensures
        r@ == nfkc_of(s@),
{
    s.nfkc().collect::<String>()
}

/// What `encoding_rs::WINDOWS_1252` decodes the given bytes to.
pub uninterp spec fn windows_1252_of(b: Seq<u8>) -> Seq<char>;

/// Relies on `Encoding::decode_without_bom_handling` of `encoding_rs::WINDOWS_1252`:
/// decodes every byte, so the result depends on the bytes alone.
#[verifier::external_body]
fn decode_windows_1252(b: &Vec<u8>) -> (r: String)
    ensures
        r@ == windows_1252_of(b@),
{
    encoding_rs::WINDOWS_1252.decode_without_bom_handling(b).0.into_owned()
}

/// Relies on `String::from_utf8`: succeeds exactly on valid UTF-8 and then
/// holds the characters it encodes.
#[verifier::external_body]
fn decode_utf8_bytes(b: Vec<u8>) -> (r: Option<String>)
    ensures
        r is Some <==> valid_utf8(b@),
        r matches Some(t) ==> t@ == decode_utf8(b@),
{
    String::from_utf8(b).ok()
}

/// Relies on `char::encode_utf8`: the UTF-8 encoding of one character.
#[verifier::external_body]
fn utf8_of_char(c: char) -> (r: Vec<u8>)
    ensures
        r@ == encode_utf8(seq![c]),
{
    let mut buf = [0u8; 4];
    c.encode_utf8(&mut buf).as_bytes().to_vec()
}

/// The bytes of one character when it is taken for a byte of a single-byte
/// encoding: the character itself up to U+00FF, else its UTF-8 form.
pub open spec fn char_bytes(c: char) -> Seq<u8> {
    if (c as u32) <= 0xFF {
        seq![(c as u32) as u8]
    } else {
        encode_utf8(seq![c])
    }
}

/// The byte sequence of `s` read character by character with `char_bytes`.
pub open spec fn latin_bytes(s: Seq<char>) -> Seq<u8>
    decreases s.len(),
{
    if s.len() == 0 {
        Seq::empty()
    } else {
        latin_bytes(s.drop_last()) + char_bytes(s.last())
    }
}

/// The characters that give away text decoded with the wrong encoding.
pub open spec fn has_marker(s: Seq<char>) -> bool {
    s.contains('\u{C3}') || s.contains('\u{E2}') || s.contains('\u{FFFD}')
}

/// One repair pass: the bytes of `s` decoded as UTF-8, or as Windows-1252 where
/// they are not valid UTF-8 or UTF-8 gives `s` back.
pub open spec fn repair_step(s: Seq<char>) -> Seq<char> {
    let b = latin_bytes(s);
    if valid_utf8(b) && decode_utf8(b) != s {
        decode_utf8(b)
    } else {
        windows_1252_of(b)
    }
}

/// Up to `passes` repair passes, stopping at a pass that changes nothing or
/// leaves no marker.
pub open spec fn repair(s: Seq<char>, passes: nat) -> Seq<char>
    decreases passes,
{
    if passes == 0 {
        s
    } else {
        let next = repair_step(s);
        if next == s || !has_marker(next) {
            next
        } else {
            repair(next, (passes - 1) as nat)
        }
    }
}

/// Repaired and normalized text: repair only where a marker shows, then NFKC,
/// then white space collapsed and trimmed (U+00A0 is white space, so it
/// becomes a plain space).
pub open spec fn normalize_spec(s: Seq<char>) -> Seq<char> {
    squash_spec(nfkc_of(if has_marker(s) { repair(s, 3) } else { s }))
}

/// Whether two character vectors hold the same characters.
pub fn same_chars(a: &Vec<char>, b: &Vec<char>) -> (r: bool)
    ensures
        r == (a@ == b@),
{
    if a.len() != b.len() {
        return false;
    }
    let mut i: usize = 0;
    while i < a.len()
        invariant
            a.len() == b.len(),
            i <= a.len(),
            forall|j: int| 0 <= j < i ==> a@[j] == b@[j],
        decreases a.len() - i,
    {
        if a[i] != b[i] {
            return false;
        }
        i = i + 1;
    }
    assert(a@ =~= b@);
    true
}

/// Whether two strings hold the same characters.
pub fn str_eq(a: &str, b: &str) -> (r: bool)
    ensures
        r == (a@ == b@),
{
    same_chars(&chars_of(a), &chars_of(b))
}

fn has_marker_exec(v: &Vec<char>) -> (r: bool)
    ensures
        r == has_marker(v@),
{
    let mut i: usize = 0;
    while i < v.len()
        invariant
            i <= v.len(),
            forall|j: int| 0 <= j < i ==> v@[j] != '\u{C3}' && v@[j] != '\u{E2}' && v@[j] != '\u{FFFD}',
        decreases v.len() - i,
    {
        let c = v[i];
        if c == '\u{C3}' || c == '\u{E2}' || c == '\u{FFFD}' {
            assert(v@[i as int] == c);
            return true;
        }
        i = i + 1;
    }
    false
}

fn latin_bytes_exec(v: &Vec<char>) -> (r: Vec<u8>)
    ensures
        r@ == latin_bytes(v@),
{
    let mut out: Vec<u8> = Vec::new();
    let mut i: usize = 0;
    while i < v.len()
        invariant
            i <= v.len(),
            out@ == latin_bytes(v@.subrange(0, i as int)),
        decreases v.len() - i,
    {
        let c = v[i];
        assert(v@.subrange(0, i + 1).drop_last() =~= v@.subrange(0, i as int));
        let code = c as u32;
        if code <= 0xFF {
            out.push(code as u8);
            assert(out@ =~= latin_bytes(v@.subrange(0, i + 1)));
        } else {
            let mut enc = utf8_of_char(c);
            out.append(&mut enc);
        }
        i = i + 1;
    }
    assert(v@.subrange(0, v.len() as int) =~= v@);
    out
}

fn repair_step_exec(v: &Vec<char>) -> (r: Vec<char>)
    ensures
        r@ == repair_step(v@),
{
    let b = latin_bytes_exec(v);
    let fallback = decode_windows_1252(&b);
    match decode_utf8_bytes(b) {
        Some(t) => {
            let tv = chars_of(t.as_str());
            if same_chars(&tv, v) {
                chars_of(fallback.as_str())
            } else {
                tv
            }
        },
        None => chars_of(fallback.as_str()),
    }
}

/// Repairs text that was decoded with the wrong encoding, then normalizes it:
/// NFKC, white space collapsed to single spaces, both ends trimmed. Never fails.
pub fn fix_mojibake(s: &str) -> (r: String)
    ensures
        r@ == normalize_spec(s@),
{
    let mut cur = chars_of(s);
    if has_marker_exec(&cur) {
        let mut passes: usize = 3;
        let ghost start = s@;
        while passes > 0
            invariant_except_break
                repair(start, 3) == repair(cur@, passes as nat),
            invariant
                passes <= 3,
            ensures
                cur@ == repair(start, 3),
            decreases passes,
        {
            let next = repair_step_exec(&cur);
            let stop = same_chars(&next, &cur) || !has_marker_exec(&next);
            cur = next;
            if stop {
                break;
            }
            passes = passes - 1;
        }
    }
    assert(cur@ == (if has_marker(s@) { repair(s@, 3) } else { s@ }));
    let joined = string_of(&cur);
    let n = nfkc(joined.as_str());
    let nv = chars_of(n.as_str());
    let out = squash(&nv);
    string_of(&out)
}

/// ASCII letters made lower case; every other character kept.
pub open spec fn ascii_lower_char(c: char) -> char {
    if 'A' <= c && c <= 'Z' {
        ((c as u32) + 32) as char
    } else {
        c
    }
}

/// `s` with its ASCII letters made lower case.
pub open spec fn ascii_lower(s: Seq<char>) -> Seq<char> {
    s.map_values(|c: char| ascii_lower_char(c))
}

/// Every character of `s` is ASCII.
pub open spec fn all_ascii(s: Seq<char>) -> bool {
    forall|i: int| 0 <= i < s.len() ==> (#[trigger] s[i] as u32) < 128
}

/// `s` with its ASCII letters made lower case.
pub fn ascii_lower_exec(s: &Vec<char>) -> (r: Vec<char>)
    ensures
        r@ == ascii_lower(s@),
{
    let mut out: Vec<char> = Vec::new();
    let mut i: usize = 0;
    while i < s.len()
        invariant
            i <= s.len(),
            out@ =~= ascii_lower(s@.subrange(0, i as int)),
        decreases s.len() - i,
    {
        let c = s[i];
        let l = if 'A' <= c && c <= 'Z' {
            char_from_u32((c as u32) + 32)
        } else {
            c
        };
        out.push(l);
        i = i + 1;
    }
    assert(s@.subrange(0, s.len() as int) =~= s@);
    out
}

/// The character with the given code point, which must be one.
fn char_from_u32(u: u32) -> (r: char)
    requires
        0x41 + 32 <= u <= 0x5A + 32,
    ensures
        r == u as char,
{
    let c = if u == 0x61 { 'a' } else if u == 0x62 { 'b' } else if u == 0x63 { 'c' } else if u == 0x64 { 'd' }
        else if u == 0x65 { 'e' } else if u == 0x66 { 'f' } else if u == 0x67 { 'g' } else if u == 0x68 { 'h' }
        else if u == 0x69 { 'i' } else if u == 0x6A { 'j' } else if u == 0x6B { 'k' } else if u == 0x6C { 'l' }
        else if u == 0x6D { 'm' } else if u == 0x6E { 'n' } else if u == 0x6F { 'o' } else if u == 0x70 { 'p' }
        else if u == 0x71 { 'q' } else if u == 0x72 { 'r' } else if u == 0x73 { 's' } else if u == 0x74 { 't' }
        else if u == 0x75 { 'u' } else if u == 0x76 { 'v' } else if u == 0x77 { 'w' } else if u == 0x78 { 'x' }
        else if u == 0x79 { 'y' } else { 'z' };
    c
}

/// `s` without its leading white space.
pub open spec fn trim_start_spec(s: Seq<char>) -> Seq<char>
    decreases s.len(),
{
    if s.len() > 0 && is_space_spec(s[0]) {
        trim_start_spec(s.drop_first())
    } else {
        s
    }
}

/// `s` without its trailing white space.
pub open spec fn trim_end_spec(s: Seq<char>) -> Seq<char>
    decreases s.len(),
{
    if s.len() > 0 && is_space_spec(s.last()) {
        trim_end_spec(s.drop_last())
    } else {
        s
    }
}

/// `s` without white space at either end.
pub open spec fn trim_spec(s: Seq<char>) -> Seq<char> {
    trim_end_spec(trim_start_spec(s))
}

/// Removes white space at both ends.
pub fn trim(s: &Vec<char>) -> (r: Vec<char>)
    ensures
        r@ == trim_spec(s@),
{
    let mut i: usize = 0;
    assert(s@ =~= s@.subrange(0, s.len() as int));
    while i < s.len() && is_space(s[i])
        invariant
            i <= s.len(),
            trim_start_spec(s@) == trim_start_spec(s@.subrange(i as int, s.len() as int)),
        decreases s.len() - i,
    {
        assert(s@.subrange(i as int, s.len() as int).drop_first() =~= s@.subrange(i + 1, s.len() as int));
        i = i + 1;
    }
    let mut j: usize = s.len();
    while j > i && is_space(s[j - 1])
        invariant
            i <= j <= s.len(),
            trim_end_spec(s@.subrange(i as int, s.len() as int)) == trim_end_spec(s@.subrange(i as int, j as int)),
        decreases j,
    {
        assert(s@.subrange(i as int, j as int).drop_last() =~= s@.subrange(i as int, j - 1));
        j = j - 1;
    }
    let mut out: Vec<char> = Vec::new();
    let mut k: usize = i;
    while k < j
        invariant
            i <= k <= j <= s.len(),
            out@ =~= s@.subrange(i as int, k as int),
        decreases j - k,
    {
        out.push(s[k]);
        k = k + 1;
    }
    out
}

/// Normalized text is tidy, and tidying it again changes nothing: a second
/// normalization can differ from the first only through its repair and
/// NFKC steps.
pub proof fn lemma_normalized_is_tidy(s: Seq<char>)
    ensures
        is_tidy(normalize_spec(s)),
        squash_spec(normalize_spec(s)) == normalize_spec(s),
{
    let t = nfkc_of(if has_marker(s) { repair(s, 3) } else { s });
    lemma_squash_state_tidy(t);
    lemma_squash_tidy_fixed(normalize_spec(s));
}

/// Normalizing normalized text changes nothing, where that text shows no
/// marker (so no repair runs) and NFKC leaves it as it is.
pub proof fn lemma_normalize_idempotent(s: Seq<char>)
    requires
        !has_marker(normalize_spec(s)),
        nfkc_of(normalize_spec(s)) == normalize_spec(s),
    ensures
        normalize_spec(normalize_spec(s)) == normalize_spec(s),
{
    lemma_normalized_is_tidy(s);
}

/// The characters that bytes give when each is read as one character
/// (ISO-8859-1), as text is when UTF-8 is decoded with the wrong encoding.
pub open spec fn latin_chars(b: Seq<u8>) -> Seq<char> {
    b.map_values(|x: u8| (x as u32) as char)
}

proof fn lemma_latin_bytes_of_latin_chars(b: Seq<u8>)
    ensures
        latin_bytes(latin_chars(b)) == b,
    decreases b.len(),
{
    if b.len() > 0 {
        lemma_latin_bytes_of_latin_chars(b.drop_last());
        assert(latin_chars(b).drop_last() =~= latin_chars(b.drop_last()));
        let x = b.last();
        assert(((x as u32) as char) as u32 == x as u32);
        assert(char_bytes(latin_chars(b).last()) =~= seq![x]);
        assert(b.drop_last().push(x) =~= b);
    }
}

/// Text whose UTF-8 bytes were read one byte per character is repaired to the
/// text itself, where the text is already normalized and shows no marker while
/// the misread form does.
pub proof fn lemma_mojibake_round_trip(t: Seq<char>)
    requires
        normalize_spec(t) == t,
        !has_marker(t),
        has_marker(latin_chars(encode_utf8(t))),
    ensures
        normalize_spec(latin_chars(encode_utf8(t))) == t,
{
    let s = latin_chars(encode_utf8(t));
    lemma_latin_bytes_of_latin_chars(encode_utf8(t));
    vstd::utf8::encode_utf8_valid_utf8(t);
    vstd::utf8::encode_utf8_decode_utf8(t);
    assert(s != t);
    assert(repair_step(s) == t);
    assert(repair(s, 3) == t);
}

} // verus!
