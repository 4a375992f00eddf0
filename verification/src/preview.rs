//! Serves a delivered product to its own frame: which products may be staged, where their frame
//! loads, which policy travels with them, which byte range a frame asked for, and which staged
//! products stay ready.

use vstd::prelude::*;
use crate::number::{decimal, parse_usize};
use crate::text::{
    chars_of, has_prefix, is_whitespace, is_whitespace_spec, lower_text, push_text, same_text,
    slice_text, starts_with, string_of, trim, trimmed,
};

verus! {

/// One page of products stays ready to open; older bytes leave once either bound is passed.
pub const MAX_ITEMS: usize = 24;
pub const MAX_BYTES: usize = 100663296;
pub const MAX_ID: usize = 80;

pub open spec fn id_char(c: char) -> bool {
    ('0' <= c && c <= '9') || ('a' <= c && c <= 'z') || ('A' <= c && c <= 'Z') || c == '-' || c
        == '_'
}

/// A product identity a frame may name.
pub open spec fn product_id(s: Seq<char>) -> bool {
    0 < s.len() <= MAX_ID && forall|i: int| 0 <= i < s.len() ==> id_char(#[trigger] s[i])
}

/// ValidId accepts only short URL-safe product identities.
pub fn valid_id(id: &str) -> (r: bool)
    ensures
        r == product_id(id@),
{
    let v = chars_of(id);
    if v.len() == 0 || v.len() > MAX_ID {
        return false;
    }
    let mut i: usize = 0;
    while i < v.len()
        invariant
            v@ == id@,
            i <= v@.len(),
            forall|k: int| 0 <= k < i ==> id_char(#[trigger] v@[k]),
        decreases v.len() - i,
    {
        let c = v[i];
        if !(('0' <= c && c <= '9') || ('a' <= c && c <= 'z') || ('A' <= c && c <= 'Z') || c == '-'
            || c == '_') {
            return false;
        }
        i = i + 1;
    }
    true
}

/// The frame URL for one product, in the form the platform's webview serves the scheme: an
/// `http` host on Windows, the scheme itself elsewhere.
pub open spec fn frame_url_text(id: Seq<char>, windows: bool) -> Seq<char> {
    if windows {
        "http://preview.localhost/"@ + id
    } else {
        "preview://localhost/"@ + id
    }
}

pub fn frame_url(id: &str, windows: bool) -> (r: String)
    ensures
        r@ == frame_url_text(id@, windows),
{
    let mut out: Vec<char> = Vec::new();
    if windows {
        push_text(&mut out, "http://preview.localhost/");
    } else {
        push_text(&mut out, "preview://localhost/");
    }
    push_text(&mut out, id);
    string_of(out.as_slice())
}

/// The pieces of `s` between its separators, as `str::split` yields them.
pub open spec fn split_on(s: Seq<char>, sep: char) -> Seq<Seq<char>>
    decreases s.len(),
{
    match crate::text::first_index(s, sep) {
        Some(i) => {
            proof {
                crate::text::lemma_first_index(s, sep);
            }
            seq![s.subrange(0, i)] + split_on(s.subrange(i + 1, s.len() as int), sep)
        },
        None => seq![s],
    }
}

/// The length of the first word of a text that starts with no white space.
pub open spec fn word_end(s: Seq<char>) -> int
    decreases s.len(),
{
    if s.len() == 0 || is_whitespace_spec(s[0]) {
        0
    } else {
        1 + word_end(s.drop_first())
    }
}

/// A directive that survives framing: not empty, and not the page's own framing rule.
pub open spec fn kept_directive(d: Seq<char>) -> bool {
    d.len() != 0 && lower_text(d.subrange(0, word_end(d))) != "frame-ancestors"@
}

/// The surviving directives, trimmed, in order.
pub open spec fn kept_directives(parts: Seq<Seq<char>>) -> Seq<Seq<char>>
    decreases parts.len(),
{
    if parts.len() == 0 {
        Seq::empty()
    } else {
        let prev = kept_directives(parts.drop_last());
        let d = trimmed(parts.last());
        if kept_directive(d) {
            prev.push(d)
        } else {
            prev
        }
    }
}

/// The pieces joined by `sep`.
pub open spec fn joined(parts: Seq<Seq<char>>, sep: Seq<char>) -> Seq<char>
    decreases parts.len(),
{
    if parts.len() == 0 {
        Seq::empty()
    } else if parts.len() == 1 {
        parts[0]
    } else {
        joined(parts.drop_last(), sep) + sep + parts.last()
    }
}

/// A product's own policy, with only the page's framing rule dropped.
pub open spec fn framed(value: Seq<char>) -> Option<Seq<char>> {
    let kept = kept_directives(split_on(value, ';'));
    if kept.len() == 0 {
        None
    } else {
        Some(joined(kept, "; "@))
    }
}

pub open spec fn texts_of(v: Seq<String>) -> Seq<Seq<char>> {
    v.map_values(|s: String| s@)
}

/// `str::split` on one separator character.
pub fn split_text(value: &str, sep: char) -> (r: Vec<String>)
    ensures
        texts_of(r@) == split_on(value@, sep),
{
    let v = chars_of(value);
    let mut out: Vec<String> = Vec::new();
    let mut start: usize = 0;
    let mut i: usize = 0;
    proof {
        assert(v@.subrange(0, v@.len() as int) =~= v@);
        assert(texts_of(out@) =~= Seq::<Seq<char>>::empty());
    }
    while i < v.len()
        invariant
            v@ == value@,
            start <= i <= v@.len(),
            forall|k: int| start <= k < i ==> v@[k] != sep,
            split_on(v@, sep) == texts_of(out@) + split_on(v@.subrange(start as int, v@.len() as int), sep),
        decreases v.len() - i,
    {
        if v[i] == sep {
            let piece = slice_text(&v, start, i);
            let ghost rest = v@.subrange(start as int, v@.len() as int);
            proof {
                crate::text::lemma_first_index(rest, sep);
                assert(rest[i - start] == sep);
                assert forall|k: int| 0 <= k < i - start implies rest[k] != sep by {
                    assert(rest[k] == v@[start + k]);
                }
                assert(crate::text::first_index(rest, sep) == Some(i - start));
                assert(rest.subrange(0, i - start) =~= piece@);
                assert(rest.subrange(i - start + 1, rest.len() as int) =~= v@.subrange(
                    i + 1,
                    v@.len() as int,
                ));
            }
            let ghost o0 = texts_of(out@);
            out.push(piece);
            proof {
                assert(texts_of(out@) =~= o0.push(piece@));
                assert(o0.push(piece@) + split_on(v@.subrange(i + 1, v@.len() as int), sep) =~= o0
                    + split_on(rest, sep));
            }
            start = i + 1;
        }
        i = i + 1;
    }
    let piece = slice_text(&v, start, v.len());
    let ghost rest = v@.subrange(start as int, v@.len() as int);
    proof {
        crate::text::lemma_first_index(rest, sep);
        assert forall|k: int| 0 <= k < rest.len() implies rest[k] != sep by {
            assert(rest[k] == v@[start + k]);
        }
        assert(crate::text::first_index(rest, sep) is None);
    }
    let ghost o0 = texts_of(out@);
    out.push(piece);
    proof {
        assert(texts_of(out@) =~= o0.push(piece@));
        assert(piece@ =~= rest);
    }
    out
}

proof fn lemma_word_end(s: Seq<char>)
    ensures
        0 <= word_end(s) <= s.len(),
        forall|k: int| 0 <= k < word_end(s) ==> !is_whitespace_spec(#[trigger] s[k]),
        word_end(s) < s.len() ==> is_whitespace_spec(s[word_end(s)]),
    decreases s.len(),
{
    if s.len() > 0 && !is_whitespace_spec(s[0]) {
        lemma_word_end(s.drop_first());
        assert forall|k: int| 0 <= k < word_end(s) implies !is_whitespace_spec(#[trigger] s[k]) by {
            if k > 0 {
                assert(s[k] == s.drop_first()[k - 1]);
            }
        }
    }
}

/// Whether one trimmed directive survives framing.
fn keeps(d: &str) -> (r: bool)
    ensures
        r == kept_directive(d@),
{
    let v = chars_of(d);
    if v.len() == 0 {
        return false;
    }
    let mut end: usize = 0;
    proof {
        lemma_word_end(v@);
    }
    while end < v.len() && !is_whitespace(v[end])
        invariant
            v@ == d@,
            end <= word_end(v@),
            0 <= word_end(v@) <= v@.len(),
            forall|k: int| 0 <= k < word_end(v@) ==> !is_whitespace_spec(#[trigger] v@[k]),
            word_end(v@) < v@.len() ==> is_whitespace_spec(v@[word_end(v@)]),
        decreases v.len() - end,
    {
        end = end + 1;
    }
    let word = slice_text(&v, 0, end);
    let lower = crate::text::lower_chars(word.as_str());
    let target = chars_of("frame-ancestors");
    !crate::text::same_chars(&lower, &target)
}

/// FramedPolicy keeps the product's own boundary; only the web page's framing rule is dropped,
/// because the frame that runs the card here is this app.
pub fn framed_policy(value: &str) -> (r: Option<String>)
    ensures
        crate::evidence::opt_text(r) == framed(value@),
{
    let parts = split_text(value, ';');
    let ghost all = texts_of(parts@);
    let mut kept: Vec<String> = Vec::new();
    let mut i: usize = 0;
    while i < parts.len()
        invariant
            i <= parts@.len(),
            all == texts_of(parts@),
            all == split_on(value@, ';'),
            texts_of(kept@) == kept_directives(all.take(i as int)),
        decreases parts.len() - i,
    {
        proof {
            assert(all.take(i + 1).drop_last() =~= all.take(i as int));
            assert(all.take(i + 1).last() == parts@[i as int]@);
        }
        let d = trim(parts[i].as_str());
        if keeps(d.as_str()) {
            let ghost k0 = texts_of(kept@);
            kept.push(d);
            assert(texts_of(kept@) =~= k0.push(d@));
        }
        i = i + 1;
    }
    proof {
        assert(all.take(parts@.len() as int) =~= all);
    }
    if kept.len() == 0 {
        return None;
    }
    let mut out: Vec<char> = Vec::new();
    push_text(&mut out, kept[0].as_str());
    let mut k: usize = 1;
    proof {
        assert(texts_of(kept@).take(1) =~= seq![texts_of(kept@)[0]]);
    }
    while k < kept.len()
        invariant
            1 <= k <= kept@.len(),
            out@ == joined(texts_of(kept@).take(k as int), "; "@),
        decreases kept.len() - k,
    {
        proof {
            assert(texts_of(kept@).take(k + 1).drop_last() =~= texts_of(kept@).take(k as int));
            assert(texts_of(kept@).take(k + 1).last() == kept@[k as int]@);
        }
        push_text(&mut out, "; ");
        push_text(&mut out, kept[k].as_str());
        k = k + 1;
    }
    proof {
        assert(texts_of(kept@).take(kept@.len() as int) =~= texts_of(kept@));
    }
    Some(string_of(out.as_slice()))
}

/// The one byte range a `Range` header asks of a body of `total` bytes, inclusive at both ends.
pub open spec fn span_of(value: Seq<char>, total: nat) -> Option<(nat, nat)> {
    let t = trimmed(value);
    if total == 0 || !starts_with(t, "bytes="@) {
        None
    } else {
        let spec = trimmed(t.subrange(6, t.len() as int));
        if crate::text::seq_contains(spec, ","@) {
            None
        } else {
            match crate::text::first_index(spec, '-') {
                None => None,
                Some(dash) => {
                    let from = trimmed(spec.subrange(0, dash));
                    let to = trimmed(spec.subrange(dash + 1, spec.len() as int));
                    if from.len() == 0 {
                        match decimal(to) {
                            Some(last) => if last > usize::MAX || last == 0 {
                                None
                            } else {
                                let n = if last < total {
                                    last
                                } else {
                                    total
                                };
                                Some(((total - n) as nat, (total - 1) as nat))
                            },
                            None => None,
                        }
                    } else {
                        match decimal(from) {
                            Some(start) => if start > usize::MAX {
                                None
                            } else {
                                let end: Option<nat> = if to.len() == 0 {
                                    Some((total - 1) as nat)
                                } else {
                                    match decimal(to) {
                                        Some(e) => if e > usize::MAX {
                                            None
                                        } else if e < total - 1 {
                                            Some(e)
                                        } else {
                                            Some((total - 1) as nat)
                                        },
                                        None => None,
                                    }
                                };
                                match end {
                                    Some(e) => if start <= e && start < total {
                                        Some((start, e))
                                    } else {
                                        None
                                    },
                                    None => None,
                                }
                            },
                            None => None,
                        }
                    }
                },
            }
        }
    }
}

/// Span keeps long video seekable inside the frame: one byte range, or none.
pub fn span(value: &str, total: usize) -> (r: Option<(usize, usize)>)
    ensures
        match span_of(value@, total as nat) {
            Some((a, b)) => r == Some((a as usize, b as usize)),
            None => r is None,
        },
{
    proof {
        reveal_strlit("bytes=");
        reveal_strlit(",");
    }
    if total == 0 {
        return None;
    }
    let t = trim(value);
    if !has_prefix(t.as_str(), "bytes=") {
        return None;
    }
    let tv = chars_of(t.as_str());
    let rest = slice_text(&tv, 6, tv.len());
    let spec = trim(rest.as_str());
    if crate::text::text_contains(spec.as_str(), ",") {
        return None;
    }
    let sv = chars_of(spec.as_str());
    let dash = match crate::text::find_char(&sv, '-') {
        Some(d) => d,
        None => return None,
    };
    proof {
        crate::text::lemma_first_index(sv@, '-');
    }
    let from_raw = slice_text(&sv, 0, dash);
    let to_raw = slice_text(&sv, dash + 1, sv.len());
    let from = trim(from_raw.as_str());
    let to = trim(to_raw.as_str());
    if chars_of(from.as_str()).len() == 0 {
        let last = match parse_usize(to.as_str()) {
            Some(l) => l,
            None => return None,
        };
        if last == 0 {
            return None;
        }
        let n = if last < total {
            last
        } else {
            total
        };
        return Some((total - n, total - 1));
    }
    let start = match parse_usize(from.as_str()) {
        Some(v) => v,
        None => return None,
    };
    let end = if chars_of(to.as_str()).len() == 0 {
        total - 1
    } else {
        match parse_usize(to.as_str()) {
            Some(e) => if e < total - 1 {
                e
            } else {
                total - 1
            },
            None => return None,
        }
    };
    if start <= end && start < total {
        Some((start, end))
    } else {
        None
    }
}

/// Staged holds one product's verified bytes for its frame.
pub struct Staged {
    pub sha256: String,
    pub media: String,
    pub policy: Option<String>,
    pub bytes: Vec<u8>,
}

pub struct StagedView {
    pub sha256: Seq<char>,
    pub media: Seq<char>,
    pub policy: Option<Seq<char>>,
    pub bytes: Seq<u8>,
}

impl View for Staged {
    type V = StagedView;

    open spec fn view(&self) -> StagedView {
        StagedView {
            sha256: self.sha256@,
            media: self.media@,
            policy: crate::evidence::opt_text(self.policy),
            bytes: self.bytes@,
        }
    }
}

/// The products ready to open, oldest first.
pub struct PreviewStore {
    items: Vec<(String, Staged)>,
}

/// The bytes a list of staged products holds.
pub open spec fn held(list: Seq<(Seq<char>, StagedView)>) -> int
    decreases list.len(),
{
    if list.len() == 0 {
        0
    } else {
        held(list.drop_last()) + list.last().1.bytes.len()
    }
}

/// `list` without the product named `id`.
pub open spec fn without(list: Seq<(Seq<char>, StagedView)>, id: Seq<char>) -> Seq<(Seq<char>, StagedView)> {
    if exists|i: int| 0 <= i < list.len() && (#[trigger] list[i]).0 == id {
        list.remove(choose|i: int| 0 <= i < list.len() && (#[trigger] list[i]).0 == id)
    } else {
        list
    }
}

/// The oldest products given up until the page fits both bounds; the newest always stays.
pub open spec fn evicted(list: Seq<(Seq<char>, StagedView)>) -> Seq<(Seq<char>, StagedView)>
    decreases list.len(),
{
    if list.len() > 1 && (list.len() > MAX_ITEMS || held(list) > MAX_BYTES) {
        evicted(list.drop_first())
    } else {
        list
    }
}

/// The page after one product was staged.
pub open spec fn kept_after(
    list: Seq<(Seq<char>, StagedView)>,
    id: Seq<char>,
    staged: StagedView,
) -> Seq<(Seq<char>, StagedView)> {
    evicted(without(list, id).push((id, staged)))
}

pub open spec fn distinct_ids(list: Seq<(Seq<char>, StagedView)>) -> bool {
    forall|a: int, b: int| 0 <= a < b < list.len() ==> (#[trigger] list[a]).0 != (#[trigger] list[b]).0
}

impl PreviewStore {
    pub closed spec fn page(&self) -> Seq<(Seq<char>, StagedView)> {
        self.items@.map_values(|e: (String, Staged)| (e.0@, e.1@))
    }

    /// An empty page.
    pub fn new() -> (r: Self)
        ensures
            r.page() == Seq::<(Seq<char>, StagedView)>::empty(),
    {
        let r = PreviewStore { items: Vec::new() };
        assert(r.page() =~= Seq::<(Seq<char>, StagedView)>::empty());
        r
    }

    fn index_of(&self, id: &str) -> (r: Option<usize>)
        ensures
            match r {
                Some(i) => i < self.page().len() && self.page()[i as int].0 == id@,
                None => forall|k: int| 0 <= k < self.page().len() ==> (#[trigger] self.page()[k]).0 != id@,
            },
    {
        let mut i: usize = 0;
        while i < self.items.len()
            invariant
                i <= self.items@.len(),
                forall|k: int| 0 <= k < i ==> (#[trigger] self.page()[k]).0 != id@,
            decreases self.items.len() - i,
        {
            if same_text(self.items[i].0.as_str(), id) {
                return Some(i);
            }
            i = i + 1;
        }
        None
    }

    /// Whether the page holds more than `limit` bytes.
    fn holds_over(&self, limit: usize) -> (r: bool)
        ensures
            r == (held(self.page()) > limit),
    {
        let mut total: usize = 0;
        let mut over = false;
        let mut i: usize = 0;
        proof {
            assert(self.page().take(0) =~= Seq::<(Seq<char>, StagedView)>::empty());
        }
        while i < self.items.len()
            invariant
                i <= self.items@.len(),
                !over ==> total == held(self.page().take(i as int)),
                over ==> held(self.page().take(i as int)) > limit,
            decreases self.items.len() - i,
        {
            proof {
                assert(self.page().take(i + 1).drop_last() =~= self.page().take(i as int));
                assert(self.page().take(i + 1).last() == self.page()[i as int]);
            }
            let n = self.items[i].1.bytes.len();
            if !over {
                if n > limit || total > limit - n {
                    over = true;
                } else {
                    total = total + n;
                }
            }
            i = i + 1;
        }
        proof {
            assert(self.page().take(self.items@.len() as int) =~= self.page());
        }
        over || total > limit
    }

    /// Ready reports whether these exact verified bytes are already staged.
    pub fn ready(&self, id: &str, sha256: &str) -> (r: bool)
        ensures
            r == exists|i: int|
                0 <= i < self.page().len() && (#[trigger] self.page()[i]).0 == id@ && self.page()[i].1.sha256
                    == sha256@,
    {
        let mut i: usize = 0;
        while i < self.items.len()
            invariant
                i <= self.items@.len(),
                forall|k: int|
                    0 <= k < i ==> !((#[trigger] self.page()[k]).0 == id@ && self.page()[k].1.sha256
                        == sha256@),
            decreases self.items.len() - i,
        {
            if same_text(self.items[i].0.as_str(), id) && same_text(
                self.items[i].1.sha256.as_str(),
                sha256,
            ) {
                assert(self.page()[i as int].0 == id@);
                return true;
            }
            i = i + 1;
        }
        false
    }

    /// Copy returns the media type, policy and bytes staged for one product.
    pub fn copy(&self, id: &str) -> (r: Option<(String, Option<String>, Vec<u8>)>)
        ensures
            match r {
                Some((media, policy, bytes)) => exists|i: int|
                    0 <= i < self.page().len() && (#[trigger] self.page()[i]).0 == id@
                        && self.page()[i].1.media == media@ && self.page()[i].1.policy
                        == crate::evidence::opt_text(policy) && self.page()[i].1.bytes == bytes@,
                None => forall|k: int| 0 <= k < self.page().len() ==> (#[trigger] self.page()[k]).0 != id@,
            },
    {
        match self.index_of(id) {
            Some(i) => {
                let item = &self.items[i].1;
                let mut bytes: Vec<u8> = Vec::new();
                let mut k: usize = 0;
                while k < item.bytes.len()
                    invariant
                        k <= item.bytes@.len(),
                        bytes@ == item.bytes@.subrange(0, k as int),
                    decreases item.bytes.len() - k,
                {
                    bytes.push(item.bytes[k]);
                    k = k + 1;
                    assert(bytes@ =~= item.bytes@.subrange(0, k as int));
                }
                assert(bytes@ =~= item.bytes@);
                Some((item.media.clone(), crate::state::copy_text(&item.policy), bytes))
            },
            None => None,
        }
    }

    /// Keep stages one product as the newest; the product just opened always stays, and only
    /// older bytes are given up once the page passes either bound.
    pub fn keep(&mut self, id: &str, staged: Staged)
        requires
            distinct_ids(old(self).page()),
        ensures
            final(self).page() == kept_after(old(self).page(), id@, staged@),
            distinct_ids(final(self).page()),
    {
        let ghost start = self.page();
        match self.index_of(id) {
            Some(i) => {
                let ghost p0 = self.page();
                let _ = self.items.remove(i);
                proof {
                    assert(self.page() =~= p0.remove(i as int));
                    let c = choose|k: int| 0 <= k < p0.len() && (#[trigger] p0[k]).0 == id@;
                    if c != i {
                        assert(p0[c].0 == p0[i as int].0);
                    }
                    assert(without(p0, id@) == p0.remove(i as int));
                }
            },
            None => {
                assert(without(start, id@) == start);
            },
        }
        let ghost mid = self.page();
        let ghost sv = staged@;
        self.items.push((id.to_owned(), staged));
        proof {
            assert(self.page() =~= mid.push((id@, sv)));
            assert(distinct_ids(self.page())) by {
                assert forall|a: int, b: int| 0 <= a < b < self.page().len() implies (#[trigger] self.page()[a]).0
                    != (#[trigger] self.page()[b]).0 by {
                    if b == mid.len() {
                        assert(self.page()[a] == mid[a]);
                        if mid[a].0 == id@ {
                            // `without` removed every entry of this id
                            assert(without(start, id@) == mid);
                            lemma_without_absent(start, id@, a);
                        }
                    } else {
                        assert(self.page()[a] == mid[a] && self.page()[b] == mid[b]);
                        lemma_without_distinct(start, id@, a, b);
                    }
                }
            }
        }
        while self.items.len() > 1 && (self.items.len() > MAX_ITEMS || self.holds_over(MAX_BYTES))
            invariant
                evicted(self.page()) == kept_after(start, id@, sv),
                distinct_ids(self.page()),
            decreases self.items.len(),
        {
            let ghost p0 = self.page();
            let _ = self.items.remove(0);
            proof {
                assert(self.page() =~= p0.drop_first());
                assert forall|a: int, b: int| 0 <= a < b < self.page().len() implies (#[trigger] self.page()[a]).0
                    != (#[trigger] self.page()[b]).0 by {
                    assert(self.page()[a] == p0[a + 1] && self.page()[b] == p0[b + 1]);
                }
            }
        }
    }
}

proof fn lemma_without_absent(list: Seq<(Seq<char>, StagedView)>, id: Seq<char>, a: int)
    requires
        distinct_ids(list),
        0 <= a < without(list, id).len(),
    ensures
        without(list, id)[a].0 != id,
{
    if exists|i: int| 0 <= i < list.len() && (#[trigger] list[i]).0 == id {
        let c = choose|i: int| 0 <= i < list.len() && (#[trigger] list[i]).0 == id;
        let j = if a < c { a } else { a + 1 };
        assert(without(list, id)[a] == list[j]);
        if list[j].0 == id {
            assert(list[j].0 == list[c].0);
        }
    }
}

proof fn lemma_without_distinct(list: Seq<(Seq<char>, StagedView)>, id: Seq<char>, a: int, b: int)
    requires
        distinct_ids(list),
        0 <= a < b < without(list, id).len(),
    ensures
        without(list, id)[a].0 != without(list, id)[b].0,
{
    if exists|i: int| 0 <= i < list.len() && (#[trigger] list[i]).0 == id {
        let c = choose|i: int| 0 <= i < list.len() && (#[trigger] list[i]).0 == id;
        let ja = if a < c { a } else { a + 1 };
        let jb = if b < c { b } else { b + 1 };
        assert(without(list, id)[a] == list[ja]);
        assert(without(list, id)[b] == list[jb]);
    }
}

/// The product just staged is always the newest one ready, and the page never holds more than
/// its bound of products unless that product alone passes the byte bound.
pub proof fn keep_law(list: Seq<(Seq<char>, StagedView)>, id: Seq<char>, staged: StagedView)
    ensures
        kept_after(list, id, staged).len() >= 1,
        kept_after(list, id, staged).last() == (id, staged),
        kept_after(list, id, staged).len() <= MAX_ITEMS,
        kept_after(list, id, staged).len() == 1 || held(kept_after(list, id, staged)) <= MAX_BYTES,
{
    lemma_evicted(without(list, id).push((id, staged)));
}

proof fn lemma_evicted(list: Seq<(Seq<char>, StagedView)>)
    requires
        list.len() >= 1,
    ensures
        evicted(list).len() >= 1,
        evicted(list).last() == list.last(),
        evicted(list).len() <= MAX_ITEMS || evicted(list).len() == 1,
        evicted(list).len() == 1 || held(evicted(list)) <= MAX_BYTES,
    decreases list.len(),
{
    if list.len() > 1 && (list.len() > MAX_ITEMS || held(list) > MAX_BYTES) {
        lemma_evicted(list.drop_first());
    }
}

/// A served range lies within the body.
pub proof fn lemma_span_bounds(value: Seq<char>, total: nat)
    ensures
        span_of(value, total) matches Some((a, b)) ==> a <= b < total,
{
}

/// A staged product's media type header is kept only up to this many bytes.
pub const MAX_MEDIA: usize = 128;
/// A staged product's own policy header is kept only up to this many bytes.
pub const MAX_POLICY: usize = 2048;

/// One response header's value as staging keeps it: trimmed, non-empty and within its bound.
pub open spec fn header_value_of(raw: Option<Seq<char>>, maximum: nat) -> Option<Seq<char>> {
    match raw {
        None => None,
        Some(v) => {
            let t = trimmed(v);
            if crate::work_state::protected::byte_len(t) != 0
                && crate::work_state::protected::byte_len(t) <= maximum {
                Some(t)
            } else {
                None
            }
        },
    }
}

pub open spec fn opt_view(o: Option<&str>) -> Option<Seq<char>> {
    match o {
        Some(v) => Some(v@),
        None => None,
    }
}

pub fn header_value(raw: Option<&str>, maximum: usize) -> (r: Option<String>)
    ensures
        crate::evidence::opt_text(r) == header_value_of(opt_view(raw), maximum as nat),
{
    match raw {
        None => None,
        Some(v) => {
            let t = trim(v);
            let n = t.as_str().len();
            assert(n == crate::work_state::protected::byte_len(t@));
            if n != 0 && n <= maximum {
                Some(t)
            } else {
                None
            }
        },
    }
}

/// Whether these exact verified bytes are already staged.
pub open spec fn ready_in(page: Seq<(Seq<char>, StagedView)>, id: Seq<char>, sha256: Seq<char>) -> bool {
    exists|i: int| 0 <= i < page.len() && (#[trigger] page[i]).0 == id && page[i].1.sha256 == sha256
}

/// How staging answers before any download: a product it may not name is refused, one already
/// staged opens at once, and nothing is fetched without a session.
pub open spec fn stage_opening(
    page: Seq<(Seq<char>, StagedView)>,
    id: Seq<char>,
    sha256: Seq<char>,
    signed_in: bool,
    windows: bool,
) -> Result<Option<(u16, Seq<char>)>, Seq<char>> {
    if !product_id(id) {
        Err("Product is not available"@)
    } else if ready_in(page, id, sha256) {
        Ok(Some((200u16, frame_url_text(id, windows))))
    } else if !signed_in {
        Ok(Some((401u16, Seq::empty())))
    } else {
        Ok(None)
    }
}

/// The staged product a successful download becomes.
pub open spec fn downloaded(
    sha256: Seq<char>,
    content_type: Option<Seq<char>>,
    csp: Option<Seq<char>>,
    bytes: Seq<u8>,
) -> StagedView {
    StagedView {
        sha256,
        media: match header_value_of(content_type, MAX_MEDIA as nat) {
            Some(m) => m,
            None => "application/octet-stream"@,
        },
        policy: match header_value_of(csp, MAX_POLICY as nat) {
            Some(v) => framed(v),
            None => None,
        },
        bytes,
    }
}

/// The path a frame request names, without its leading slashes.
pub open spec fn unslashed(s: Seq<char>) -> Seq<char>
    decreases s.len(),
{
    if s.len() > 0 && s[0] == '/' {
        unslashed(s.drop_first())
    } else {
        s
    }
}

/// One response to a frame's request.
pub struct PreviewResponse {
    pub status: u16,
    pub headers: Vec<(String, String)>,
    pub body: Vec<u8>,
}

pub open spec fn header_views(h: Seq<(String, String)>) -> Seq<(Seq<char>, Seq<char>)> {
    h.map_values(|p: (String, String)| (p.0@, p.1@))
}

/// The headers every served product carries, its own policy when it has one, and the range
/// served when a range was asked.
pub open spec fn served_headers(item: StagedView, wanted: Option<(nat, nat)>) -> Seq<(Seq<char>, Seq<char>)> {
    let base = seq![
        ("content-type"@, item.media),
        ("accept-ranges"@, "bytes"@),
        ("cache-control"@, "no-store"@),
        ("x-content-type-options"@, "nosniff"@),
    ];
    let with_policy = match item.policy {
        Some(p) => base.push(("content-security-policy"@, p)),
        None => base,
    };
    match wanted {
        Some((a, b)) => with_policy.push(
            (
                "content-range"@,
                "bytes "@ + crate::number::decimal_text(a) + "-"@ + crate::number::decimal_text(b)
                    + "/"@ + crate::number::decimal_text(item.bytes.len()),
            ),
        ),
        None => with_policy,
    }
}

/// Whether `r` serves `item` for a request that asked `range`.
pub open spec fn serves(r: PreviewResponse, item: StagedView, range: Option<Seq<char>>) -> bool {
    let wanted = match range {
        Some(v) => span_of(v, item.bytes.len()),
        None => None,
    };
    &&& header_views(r.headers@) == served_headers(item, wanted)
    &&& match wanted {
        Some((a, b)) => r.status == 206 && r.body@ == item.bytes.subrange(a as int, (b + 1) as int),
        None => r.status == 200 && r.body@ == item.bytes,
    }
}

fn unslashed_text(path: &str) -> (r: String)
    ensures
        r@ == unslashed(path@),
{
    let v = chars_of(path);
    let mut i: usize = 0;
    proof {
        assert(v@.subrange(0, v@.len() as int) =~= v@);
    }
    while i < v.len() && v[i] == '/'
        invariant
            v@ == path@,
            i <= v@.len(),
            unslashed(path@) == unslashed(v@.subrange(i as int, v@.len() as int)),
        decreases v.len() - i,
    {
        proof {
            assert(v@.subrange(i as int, v@.len() as int).drop_first() =~= v@.subrange(
                i + 1,
                v@.len() as int,
            ));
        }
        i = i + 1;
    }
    slice_text(&v, i, v.len())
}

fn pair(a: &str, b: String) -> (r: (String, String))
    ensures
        r.0@ == a@,
        r.1@ == b@,
{
    (a.to_string(), b)
}

impl PreviewStore {
    /// StageOpening answers a request to stage one product before anything is downloaded.
    pub fn stage_opening(&self, id: &str, sha256: &str, signed_in: bool, windows: bool) -> (r: Result<
        Option<(u16, String)>,
        String,
    >)
        ensures
            match stage_opening(self.page(), id@, sha256@, signed_in, windows) {
                Err(e) => r matches Err(m) && m@ == e,
                Ok(None) => r matches Ok(None),
                Ok(Some((status, url))) => r matches Ok(Some((s, u))) && s == status && u@ == url,
            },
    {
        if !valid_id(id) {
            return Err("Product is not available".to_string());
        }
        if self.ready(id, sha256) {
            return Ok(Some((200, frame_url(id, windows))));
        }
        if !signed_in {
            return Ok(Some((401, String::new())));
        }
        Ok(None)
    }

    /// StageDownloaded keeps what a successful download returned, with its own media type and
    /// framed policy, and names where its frame loads; a refused download is answered with its
    /// status and no frame.
    pub fn stage_downloaded(
        &mut self,
        id: &str,
        sha256: String,
        status: u16,
        success: bool,
        content_type: Option<&str>,
        csp: Option<&str>,
        bytes: Vec<u8>,
        windows: bool,
    ) -> (r: (u16, String))
        requires
            distinct_ids(old(self).page()),
        ensures
            distinct_ids(final(self).page()),
            !success ==> r.0 == status && r.1@ == Seq::<char>::empty() && final(self).page() == old(
                self,
            ).page(),
            success ==> r.0 == status && r.1@ == frame_url_text(id@, windows) && final(self).page()
                == kept_after(
                old(self).page(),
                id@,
                downloaded(sha256@, opt_view(content_type), opt_view(csp), bytes@),
            ),
    {
        if !success {
            return (status, String::new());
        }
        let media = match header_value(content_type, MAX_MEDIA) {
            Some(m) => m,
            None => "application/octet-stream".to_string(),
        };
        let policy = match header_value(csp, MAX_POLICY) {
            Some(v) => framed_policy(v.as_str()),
            None => None,
        };
        let staged = Staged { sha256, media, policy, bytes };
        self.keep(id, staged);
        (status, frame_url(id, windows))
    }

    /// Response answers one frame request for a staged product: the whole body, or the one range
    /// it asked for, with the product's own policy; an unknown product is not found.
    pub fn response(&self, path: &str, range: Option<&str>) -> (r: PreviewResponse)
        ensures
            (forall|k: int| 0 <= k < self.page().len() ==> (#[trigger] self.page()[k]).0 != unslashed(
                path@,
            )) ==> r.status == 404 && r.headers@.len() == 0 && r.body@.len() == 0,
            (exists|i: int| 0 <= i < self.page().len() && (#[trigger] self.page()[i]).0 == unslashed(
                path@,
            )) ==> exists|i: int|
                0 <= i < self.page().len() && (#[trigger] self.page()[i]).0 == unslashed(path@)
                    && serves(r, self.page()[i].1, opt_view(range)),
    {
        let id = unslashed_text(path);
        let (media, policy, bytes) = match self.copy(id.as_str()) {
            Some(found) => found,
            None => return PreviewResponse { status: 404, headers: Vec::new(), body: Vec::new() },
        };
        let ghost m = media@;
        let ghost pol = crate::evidence::opt_text(policy);
        let ghost all = bytes@;
        let total = bytes.len();
        let wanted = match range {
            Some(v) => span(v, total),
            None => None,
        };
        let ghost wanted_view: Option<(nat, nat)> = match range {
            Some(v) => span_of(v@, total as nat),
            None => None,
        };
        proof {
            match range {
                Some(v) => lemma_span_bounds(v@, total as nat),
                None => {},
            }
        }
        let mut headers: Vec<(String, String)> = Vec::new();
        headers.push(pair("content-type", media));
        headers.push(pair("accept-ranges", "bytes".to_string()));
        headers.push(pair("cache-control", "no-store".to_string()));
        headers.push(pair("x-content-type-options", "nosniff".to_string()));
        let ghost base = seq![
            ("content-type"@, m),
            ("accept-ranges"@, "bytes"@),
            ("cache-control"@, "no-store"@),
            ("x-content-type-options"@, "nosniff"@),
        ];
        assert(header_views(headers@) =~= base);
        match policy {
            Some(p) => {
                let ghost pv = p@;
                headers.push(pair("content-security-policy", p));
                assert(header_views(headers@) =~= base.push(("content-security-policy"@, pv)));
            },
            None => {},
        }
        let ghost with_policy = header_views(headers@);
        assert(with_policy == match pol {
            Some(p) => base.push(("content-security-policy"@, p)),
            None => base,
        });
        let r = match wanted {
            Some((start, end)) => {
                let mut text: Vec<char> = Vec::new();
                push_text(&mut text, "bytes ");
                crate::number::push_decimal(&mut text, start);
                push_text(&mut text, "-");
                crate::number::push_decimal(&mut text, end);
                push_text(&mut text, "/");
                crate::number::push_decimal(&mut text, total);
                let ghost range_text = text@;
                headers.push(pair("content-range", string_of(text.as_slice())));
                assert(header_views(headers@) =~= with_policy.push(("content-range"@, range_text)));
                let mut body: Vec<u8> = Vec::new();
                let mut k: usize = start;
                while k <= end
                    invariant
                        start <= end < bytes@.len(),
                        total == bytes@.len(),
                        start <= k <= end + 1,
                        body@ == bytes@.subrange(start as int, k as int),
                    decreases end + 1 - k,
                {
                    body.push(bytes[k]);
                    proof {
                        assert(bytes@.subrange(start as int, k + 1) =~= bytes@.subrange(
                            start as int,
                            k as int,
                        ).push(bytes@[k as int]));
                    }
                    k = k + 1;
                }
                PreviewResponse { status: 206, headers, body }
            },
            None => PreviewResponse { status: 200, headers, body: bytes },
        };
        proof {
            let i = choose|i: int|
                0 <= i < self.page().len() && (#[trigger] self.page()[i]).0 == id@
                    && self.page()[i].1.media == m && self.page()[i].1.policy == pol
                    && self.page()[i].1.bytes == all;
            assert(serves(r, self.page()[i].1, opt_view(range)));
        }
        r
    }
}

} // verus!
