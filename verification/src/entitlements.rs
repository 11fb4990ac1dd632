//! Entitlements read from the XML property list that `codesign` prints.
//!
//! The property list is read the simple way the scanner always did: the outer
//! `<dict>` runs from the first `<dict>` to the last `</dict>`; inside it, each
//! `<key>` is followed by one value. Booleans, strings and integers keep their
//! value; arrays and nested dictionaries are kept as a one-line summary string;
//! an unknown element becomes `[unknown]`. A later duplicate key replaces the
//! earlier value, as inserting into a map does.

use vstd::prelude::*;
use crate::numeric::{parse_i64, parse_i64_spec};
use vstd::string::StringExecFns;
use crate::text::{
    chars_of, find, find_chars, find_from, find_chars_from, is_ws, lemma_find, lemma_find_from, lemma_rfind_upto,
    occurs_at, opt_int, push_chars, push_str, rfind, rfind_chars, skip_whitespace, skip_ws, slice_chars,
    starts_with, starts_with_chars, string_of, trim, trim_chars,
};

verus! {

broadcast use vstd::string::group_string_axioms;

/// The value of one entitlement.
#[derive(Debug, Clone, PartialEq)]
pub enum PlistValue {
    Bool(bool),
    Str(String),
    Int(i64),
}

/// The mathematical value of an entitlement.
pub enum ValueV {
    Bool(bool),
    Str(Seq<char>),
    Int(i64),
}

impl View for PlistValue {
    type V = ValueV;

    open spec fn view(&self) -> ValueV {
        match self {
            PlistValue::Bool(b) => ValueV::Bool(*b),
            PlistValue::Str(s) => ValueV::Str(s@),
            PlistValue::Int(n) => ValueV::Int(*n),
        }
    }
}

/// Entitlements of one binary, in the order their keys were first seen.
#[derive(Debug, Clone)]
pub struct EntitlementMap {
    pub entries: Vec<(String, PlistValue)>,
}

/// A list of key/value pairs, in order.
pub type Entries = Seq<(Seq<char>, ValueV)>;

pub open spec fn entries_view(v: Seq<(String, PlistValue)>) -> Entries {
    v.map_values(|e: (String, PlistValue)| (e.0@, e.1@))
}

impl View for EntitlementMap {
    type V = Entries;

    open spec fn view(&self) -> Entries {
        entries_view(self.entries@)
    }
}

/// Position of key `k` in `m`, searching from `i`.
pub open spec fn key_pos(m: Entries, k: Seq<char>, i: int) -> Option<int>
    decreases m.len() - i,
{
    if i < 0 || i >= m.len() {
        None
    } else if m[i].0 == k {
        Some(i)
    } else {
        key_pos(m, k, i + 1)
    }
}

/// Map insertion on a key/value list: replaces the value of `k`, or appends `(k, v)`.
pub open spec fn assoc_insert(m: Entries, k: Seq<char>, v: ValueV) -> Entries {
    match key_pos(m, k, 0) {
        Some(i) => m.update(i, (k, v)),
        None => m.push((k, v)),
    }
}

/// No key occurs twice.
pub open spec fn keys_distinct(m: Entries) -> bool {
    forall|a: int, b: int| 0 <= a < b < m.len() ==> m[a].0 != m[b].0
}

/// The keys, in order.
pub open spec fn keys_of(m: Entries) -> Seq<Seq<char>> {
    m.map_values(|e: (Seq<char>, ValueV)| e.0)
}

pub proof fn lemma_key_pos(m: Entries, k: Seq<char>, i: int)
    requires
        0 <= i,
    ensures
        match key_pos(m, k, i) {
            Some(p) => i <= p < m.len() && m[p].0 == k,
            None => forall|l: int| i <= l < m.len() ==> m[l].0 != k,
        },
    decreases m.len() - i,
{
    if i < m.len() && m[i].0 != k {
        lemma_key_pos(m, k, i + 1);
    }
}

/// Inserting keeps keys distinct.
pub proof fn lemma_assoc_insert_distinct(m: Entries, k: Seq<char>, v: ValueV)
    requires
        keys_distinct(m),
    ensures
        keys_distinct(assoc_insert(m, k, v)),
        assoc_insert(m, k, v).len() == m.len() + (if key_pos(m, k, 0) is Some { 0int } else { 1int }),
{
    lemma_key_pos(m, k, 0);
}

/// Why a property list could not be read.
#[derive(Debug, Clone, Copy, PartialEq, Eq)]
pub enum PlistError {
    /// No `<dict>` in the text.
    NoDict,
    /// A `<dict>` with no `</dict>`.
    UnclosedDict,
}

/// The message the scanner reports for a property list it cannot read.
pub open spec fn plist_error_text(e: PlistError) -> Seq<char> {
    match e {
        PlistError::NoDict => "No dict found in plist"@,
        PlistError::UnclosedDict => "Unclosed dict in plist"@,
    }
}

impl PlistError {
    /// The message the scanner reports (see `plist_error_text`).
    pub fn message(&self) -> (s: &'static str)
        ensures
            s@ == plist_error_text(*self),
    {
        match self {
            PlistError::NoDict => "No dict found in plist",
            PlistError::UnclosedDict => "Unclosed dict in plist",
        }
    }
}

/// The value that follows a key: leading whitespace, then one element.
/// Gives the value and how many characters of `rest` it used.
pub open spec fn parse_value_spec(rest: Seq<char>) -> Option<(ValueV, int)> {
    let off = skip_ws(rest, 0);
    let t = rest.skip(off);
    if starts_with(t, "<true/>"@) {
        Some((ValueV::Bool(true), off + 7))
    } else if starts_with(t, "<false/>"@) {
        Some((ValueV::Bool(false), off + 8))
    } else if starts_with(t, "<string>"@) {
        match find(t, "</string>"@) {
            Some(e) => Some((ValueV::Str(t.subrange(8, e)), off + e + 9)),
            None => None,
        }
    } else if starts_with(t, "<integer>"@) {
        match find(t, "</integer>"@) {
            Some(e) => {
                let d = t.subrange(9, e);
                Some(
                    (
                        match parse_i64_spec(d) {
                            Some(x) => ValueV::Int(x),
                            None => ValueV::Str(d),
                        },
                        off + e + 10,
                    ),
                )
            },
            None => None,
        }
    } else if starts_with(t, "<array>"@) {
        match find(t, "</array>"@) {
            Some(e) => Some((ValueV::Str("[array: "@ + trim(t.subrange(7, e)) + "]"@), off + e + 8)),
            None => None,
        }
    } else if starts_with(t, "<dict>"@) {
        match find(t, "</dict>"@) {
            Some(e) => Some((ValueV::Str("[dict: "@ + trim(t.subrange(6, e)) + "]"@), off + e + 7)),
            None => None,
        }
    } else {
        match find(t, ">"@) {
            Some(e) => Some((ValueV::Str("[unknown]"@), off + e + 1)),
            None => None,
        }
    }
}


/// An opening tag: `<` first, no other `<`, and not a closing tag.
pub open spec fn is_open_tag(a: Seq<char>) -> bool {
    &&& a.len() >= 2
    &&& a[0] == '<'
    &&& a[1] != '/'
    &&& forall|k: int| 1 <= k < a.len() ==> a[k] != '<'
}

/// A closing tag: starts with `</`.
pub open spec fn is_close_tag(n: Seq<char>) -> bool {
    n.len() >= 2 && n[0] == '<' && n[1] == '/'
}

/// A closing tag found at or after an opening tag starts after the whole opening tag.
pub proof fn lemma_close_after_open(h: Seq<char>, at: int, a: Seq<char>, n: Seq<char>, e: int)
    requires
        occurs_at(h, a, at),
        occurs_at(h, n, e),
        at <= e,
        is_open_tag(a),
        is_close_tag(n),
    ensures
        e >= at + a.len(),
{
    if e < at + a.len() {
        assert(h.subrange(e, e + n.len())[0] == h[e]);
        assert(h.subrange(at, at + a.len())[e - at] == h[e]);
        if e == at {
            assert(h.subrange(e, e + n.len())[1] == h[e + 1]);
            assert(h.subrange(at, at + a.len())[1] == h[at + 1]);
        } else {
            assert(a[e - at] != '<');
        }
    }
}

/// Where the closing tag `close` of the element that `t` starts with stands.
fn find_close(t: &[char], open: &[char], close: &[char]) -> (r: Option<usize>)
    requires
        starts_with(t@, open@),
        is_open_tag(open@),
        is_close_tag(close@),
    ensures
        opt_int(r) == find(t@, close@),
        r matches Some(e) ==> open@.len() <= e && e + close@.len() <= t@.len(),
{
    let r = find_chars(t, close);
    proof {
        lemma_find(t@, close@);
        if let Some(e) = r {
            lemma_close_after_open(t@, 0, open@, close@, e as int);
        }
    }
    r
}

pub proof fn lemma_tags()
    ensures
        "<true/>"@.len() == 7,
        "<false/>"@.len() == 8,
        "<string>"@.len() == 8,
        "</string>"@.len() == 9,
        "<integer>"@.len() == 9,
        "</integer>"@.len() == 10,
        "<array>"@.len() == 7,
        "</array>"@.len() == 8,
        "<dict>"@.len() == 6,
        "</dict>"@.len() == 7,
        "<key>"@.len() == 5,
        "</key>"@.len() == 6,
        ">"@.len() == 1,
        is_open_tag("<string>"@),
        is_open_tag("<integer>"@),
        is_open_tag("<array>"@),
        is_open_tag("<dict>"@),
        is_open_tag("<key>"@),
        is_close_tag("</string>"@),
        is_close_tag("</integer>"@),
        is_close_tag("</array>"@),
        is_close_tag("</dict>"@),
        is_close_tag("</key>"@),
{
    reveal_strlit("<true/>");
    reveal_strlit("<false/>");
    reveal_strlit("<string>");
    reveal_strlit("</string>");
    reveal_strlit("<integer>");
    reveal_strlit("</integer>");
    reveal_strlit("<array>");
    reveal_strlit("</array>");
    reveal_strlit("<dict>");
    reveal_strlit("</dict>");
    reveal_strlit("<key>");
    reveal_strlit("</key>");
    reveal_strlit(">");
}

/// `"[label" + trim(inner) + "]"`, the summary kept for arrays and nested dictionaries.
fn summary(label: &str, inner: &[char]) -> (s: String)
    ensures
        s@ == label@ + trim(inner@) + "]"@,
{
    let mut s = String::new();
    push_str(&mut s, label);
    let tr = trim_chars(inner);
    push_chars(&mut s, tr.as_slice());
    push_str(&mut s, "]");
    s
}

/// Reads the value that follows a key (see `parse_value_spec`).
pub fn parse_next_plist_value(rest: &[char]) -> (r: Option<(PlistValue, usize)>)
    ensures
        match r {
            Some((v, u)) => parse_value_spec(rest@) == Some((v@, u as int)),
            None => parse_value_spec(rest@) is None,
        },
{
    proof {
        lemma_tags();
    }
    let off = skip_whitespace(rest, 0);
    let t = slice_chars(rest, off, rest.len());
    assert(t@ =~= rest@.skip(off as int));
    let ts = t.as_slice();
    let tag = chars_of("<true/>");
    if starts_with_chars(ts, tag.as_slice()) {
        return Some((PlistValue::Bool(true), off + 7));
    }
    let tag = chars_of("<false/>");
    if starts_with_chars(ts, tag.as_slice()) {
        return Some((PlistValue::Bool(false), off + 8));
    }
    let tag = chars_of("<string>");
    if starts_with_chars(ts, tag.as_slice()) {
        let close = chars_of("</string>");
        match find_close(ts, tag.as_slice(), close.as_slice()) {
            Some(e) => {
                let inner = slice_chars(ts, 8, e);
                return Some((PlistValue::Str(string_of(inner.as_slice())), off + e + 9));
            },
            None => {
                return None;
            },
        }
    }
    let tag = chars_of("<integer>");
    if starts_with_chars(ts, tag.as_slice()) {
        let close = chars_of("</integer>");
        match find_close(ts, tag.as_slice(), close.as_slice()) {
            Some(e) => {
                let inner = slice_chars(ts, 9, e);
                let v = match parse_i64(inner.as_slice()) {
                    Some(x) => PlistValue::Int(x),
                    None => PlistValue::Str(string_of(inner.as_slice())),
                };
                return Some((v, off + e + 10));
            },
            None => {
                return None;
            },
        }
    }
    let tag = chars_of("<array>");
    if starts_with_chars(ts, tag.as_slice()) {
        let close = chars_of("</array>");
        match find_close(ts, tag.as_slice(), close.as_slice()) {
            Some(e) => {
                let inner = slice_chars(ts, 7, e);
                return Some((PlistValue::Str(summary("[array: ", inner.as_slice())), off + e + 8));
            },
            None => {
                return None;
            },
        }
    }
    let tag = chars_of("<dict>");
    if starts_with_chars(ts, tag.as_slice()) {
        let close = chars_of("</dict>");
        match find_close(ts, tag.as_slice(), close.as_slice()) {
            Some(e) => {
                let inner = slice_chars(ts, 6, e);
                return Some((PlistValue::Str(summary("[dict: ", inner.as_slice())), off + e + 7));
            },
            None => {
                return None;
            },
        }
    }
    let gt = chars_of(">");
    match find_chars(ts, gt.as_slice()) {
        Some(e) => {
            proof {
                lemma_find(t@, gt@);
            }
            let unknown = String::from_str("[unknown]");
            Some((PlistValue::Str(unknown), off + e + 1))
        },
        None => None,
    }
}

pub proof fn lemma_skip_ws_bounds(s: Seq<char>, i: int)
    requires
        0 <= i <= s.len(),
    ensures
        i <= skip_ws(s, i) <= s.len(),
    decreases s.len() - i,
{
    if i < s.len() && is_ws(s[i]) {
        lemma_skip_ws_bounds(s, i + 1);
    }
}

/// A value uses at most what is left of the text.
pub proof fn lemma_parse_value_used(rest: Seq<char>)
    ensures
        parse_value_spec(rest) matches Some((v, u)) ==> 0 <= u <= rest.len(),
{
    lemma_tags();
    lemma_skip_ws_bounds(rest, 0);
    let off = skip_ws(rest, 0);
    let t = rest.skip(off);
    lemma_find(t, "</string>"@);
    lemma_find(t, "</integer>"@);
    lemma_find(t, "</array>"@);
    lemma_find(t, "</dict>"@);
    lemma_find(t, ">"@);
}

/// The entries read from the inside of the outer dictionary, from position `pos` on,
/// added to `acc`.
pub open spec fn dict_from(c: Seq<char>, pos: int, acc: Entries) -> Entries
    decreases c.len() - pos,
{
    if pos < 0 || pos >= c.len() {
        acc
    } else {
        match find_from(c, "<key>"@, pos) {
            None => acc,
            Some(ks) => match find_from(c, "</key>"@, ks + 5) {
                None => acc,
                Some(ke) => match parse_value_spec(c.skip(ke + 6)) {
                    None => acc,
                    Some((v, used)) => {
                        proof {
                            lemma_tags();
                            lemma_find_from(c, "<key>"@, pos);
                            lemma_find_from(c, "</key>"@, ks + 5);
                            lemma_parse_value_used(c.skip(ke + 6));
                        }
                        dict_from(c, ke + 6 + used, assoc_insert(acc, trim(c.subrange(ks + 5, ke)), v))
                    },
                },
            },
        }
    }
}

/// The entitlements of a property list text, or why it cannot be read.
pub open spec fn parse_plist_spec(xml: Seq<char>) -> Result<Entries, PlistError> {
    if trim(xml).len() == 0 {
        Ok(Seq::empty())
    } else {
        match find(xml, "<dict>"@) {
            None => Err(PlistError::NoDict),
            Some(ds) => match rfind(xml, "</dict>"@) {
                None => Err(PlistError::UnclosedDict),
                Some(de) => if ds >= de {
                    Ok(Seq::empty())
                } else {
                    Ok(dict_from(xml.subrange(ds + 6, de), 0, Seq::empty()))
                },
            },
        }
    }
}

impl EntitlementMap {
    /// An empty map.
    pub fn new() -> (m: Self)
        ensures
            m@ == Seq::<(Seq<char>, ValueV)>::empty(),
    {
        EntitlementMap { entries: Vec::new() }
    }

    /// Number of entitlements.
    pub fn len(&self) -> (n: usize)
        ensures
            n == self@.len(),
    {
        self.entries.len()
    }

    /// Sets the value of `key`, keeping its place if it is already there.
    pub fn insert(&mut self, key: String, value: PlistValue)
        requires
            keys_distinct(old(self)@),
        ensures
            final(self)@ == assoc_insert(old(self)@, key@, value@),
            keys_distinct(final(self)@),
    {
        proof {
            lemma_key_pos(self@, key@, 0);
            lemma_assoc_insert_distinct(self@, key@, value@);
        }
        let ghost m0 = self@;
        let mut i: usize = 0;
        while i < self.entries.len()
            invariant
                i <= self.entries@.len(),
                self@ == m0,
                m0 == old(self)@,
                keys_distinct(m0),
                forall|l: int| 0 <= l < i ==> m0[l].0 != key@,
                key_pos(m0, key@, 0) == key_pos(m0, key@, i as int),
            decreases self.entries@.len() - i,
        {
            if self.entries[i].0 == key {
                assert(m0[i as int].0 == key@);
                assert(key_pos(m0, key@, i as int) == Some(i as int));
                self.entries.set(i, (key, value));
                assert(self@ =~= m0.update(i as int, (key@, value@)));
                return;
            }
            i = i + 1;
        }
        self.entries.push((key, value));
        assert(self@ =~= m0.push((key@, value@)));
    }

    /// The keys, in order.
    pub fn keys(&self) -> (v: Vec<String>)
        ensures
            v@.map_values(|s: String| s@) == keys_of(self@),
    {
        let mut v: Vec<String> = Vec::new();
        let mut i: usize = 0;
        while i < self.entries.len()
            invariant
                i <= self.entries@.len(),
                v@.len() == i,
                forall|l: int| 0 <= l < i ==> #[trigger] v@[l]@ == self@[l].0,
            decreases self.entries@.len() - i,
        {
            v.push(self.entries[i].0.clone());
            i = i + 1;
        }
        assert(v@.map_values(|s: String| s@) =~= keys_of(self@));
        v
    }
}

/// Reads the entries inside the outer dictionary (see `dict_from`).
pub fn parse_plist_dict(content: &[char]) -> (m: EntitlementMap)
    ensures
        m@ == dict_from(content@, 0, Seq::empty()),
        keys_distinct(m@),
{
    proof {
        lemma_tags();
    }
    let ko = chars_of("<key>");
    let kc = chars_of("</key>");
    let mut map = EntitlementMap::new();
    let mut pos: usize = 0;
    loop
        invariant
            pos <= content@.len(),
            ko@ == "<key>"@,
            kc@ == "</key>"@,
            "<key>"@.len() == 5,
            "</key>"@.len() == 6,
            dict_from(content@, pos as int, map@) == dict_from(content@, 0, Seq::empty()),
            keys_distinct(map@),
        decreases content@.len() - pos,
    {
        if pos >= content.len() {
            return map;
        }
        let ks = match find_chars_from(content, ko.as_slice(), pos) {
            Some(k) => k,
            None => {
                return map;
            },
        };
        proof {
            lemma_find_from(content@, ko@, pos as int);
        }
        let ka = ks + 5;
        let ke = match find_chars_from(content, kc.as_slice(), ka) {
            Some(k) => k,
            None => {
                return map;
            },
        };
        proof {
            lemma_find_from(content@, kc@, ka as int);
        }
        let raw_key = slice_chars(content, ka, ke);
        let key_chars = trim_chars(raw_key.as_slice());
        let key = string_of(key_chars.as_slice());
        let vp = ke + 6;
        let rest = slice_chars(content, vp, content.len());
        assert(rest@ =~= content@.skip(vp as int));
        proof {
            lemma_parse_value_used(rest@);
        }
        match parse_next_plist_value(rest.as_slice()) {
            None => {
                return map;
            },
            Some((v, used)) => {
                map.insert(key, v);
                pos = vp + used;
            },
        }
    }
}

/// Reads the entitlements from the XML property list that `codesign` prints
/// (see `parse_plist_spec`). Blank text holds no entitlements.
pub fn parse_entitlements_plist(xml_content: &str) -> (r: Result<EntitlementMap, PlistError>)
    ensures
        match r {
            Ok(m) => parse_plist_spec(xml_content@) == Ok::<Entries, PlistError>(m@) && keys_distinct(m@),
            Err(e) => parse_plist_spec(xml_content@) == Err::<Entries, PlistError>(e),
        },
{
    proof {
        lemma_tags();
    }
    let xml = chars_of(xml_content);
    let trimmed = trim_chars(xml.as_slice());
    if trimmed.len() == 0 {
        return Ok(EntitlementMap::new());
    }
    let open = chars_of("<dict>");
    let close = chars_of("</dict>");
    let ds = match find_chars(xml.as_slice(), open.as_slice()) {
        Some(d) => d,
        None => {
            return Err(PlistError::NoDict);
        },
    };
    let de = match rfind_chars(xml.as_slice(), close.as_slice()) {
        Some(d) => d,
        None => {
            return Err(PlistError::UnclosedDict);
        },
    };
    if ds >= de {
        return Ok(EntitlementMap::new());
    }
    proof {
        lemma_find(xml@, open@);
        lemma_rfind_upto(xml@, close@, xml@.len() - close@.len());
        lemma_close_after_open(xml@, ds as int, open@, close@, de as int);
    }
    let inner = slice_chars(xml.as_slice(), ds + 6, de);
    Ok(parse_plist_dict(inner.as_slice()))
}

} // verus!
