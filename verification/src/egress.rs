//! One egress gate keeps ArchiGoat's own private facts out of public answers and artifacts.

use vstd::prelude::*;
use crate::text::{chars_of, is_control, is_control_spec, is_whitespace, is_whitespace_spec, push_text, string_of};
use crate::work_state::order::{id_less, less_than, lemma_less_total, lemma_less_transitive};
use crate::work_state::protected::byte_len;
use crate::text::same_text;

verus! {

/// The bytes of one text in UTF-8.
pub open spec fn utf8(s: Seq<char>) -> Seq<u8> {
    vstd::utf8::encode_utf8(s)
}

/// A non-empty `needle` occurs somewhere inside `hay`.
pub open spec fn bytes_contain(hay: Seq<u8>, needle: Seq<u8>) -> bool {
    needle.len() > 0 && exists|i: int|
        0 <= i && i + needle.len() <= hay.len() && #[trigger] hay.subrange(i, i + needle.len())
            == needle
}

/// Contains reports whether a non-empty needle occurs in the bytes.
pub fn contains(hay: &[u8], needle: &[u8]) -> (r: bool)
    ensures
        r == bytes_contain(hay@, needle@),
{
    if needle.len() == 0 || needle.len() > hay.len() {
        return false;
    }
    let last = hay.len() - needle.len();
    let mut i: usize = 0;
    while i <= last
        invariant
            last == hay@.len() - needle@.len(),
            0 < needle@.len() <= hay@.len(),
            hay@.len() == hay.len(),
            needle@.len() == needle.len(),
            i <= last + 1,
            forall|k: int| 0 <= k < i ==> #[trigger] hay@.subrange(k, k + needle@.len()) != needle@,
        decreases last + 1 - i,
    {
        let mut j: usize = 0;
        let mut matched = true;
        while j < needle.len() && matched
            invariant
                i <= last,
                last == hay@.len() - needle@.len(),
                hay@.len() == hay.len(),
                needle@.len() == needle.len(),
                j <= needle@.len(),
                matched ==> forall|k: int| 0 <= k < j ==> hay@[i + k] == needle@[k],
                !matched ==> hay@.subrange(i as int, i + needle@.len()) != needle@,
            decreases needle.len() - j + (if matched {
                1int
            } else {
                0
            }),
        {
            if hay[i + j] != needle[j] {
                matched = false;
                assert(hay@.subrange(i as int, i + needle@.len())[j as int] != needle@[j as int]);
            } else {
                j = j + 1;
            }
        }
        if matched {
            assert(hay@.subrange(i as int, i + needle@.len()) =~= needle@);
            return true;
        }
        i = i + 1;
    }
    false
}

/// Whether any private literal occurs in the bytes.
pub open spec fn exposes(bytes: Seq<u8>, needles: Seq<Seq<char>>) -> bool {
    exists|i: int| 0 <= i < needles.len() && bytes_contain(bytes, #[trigger] utf8(needles[i]))
}

pub open spec fn needle_texts(v: Seq<String>) -> Seq<Seq<char>> {
    v.map_values(|s: String| s@)
}

/// UnsafeBytes reports whether the bytes carry any private literal.
pub fn unsafe_bytes(bytes: &[u8], needles: &Vec<String>) -> (r: bool)
    ensures
        r == exposes(bytes@, needle_texts(needles@)),
{
    let mut i: usize = 0;
    while i < needles.len()
        invariant
            i <= needles@.len(),
            forall|k: int| 0 <= k < i ==> !bytes_contain(bytes@, #[trigger] utf8(needle_texts(needles@)[k])),
        decreases needles.len() - i,
    {
        let needle = needles[i].as_str().as_bytes();
        if contains(bytes, needle) {
            assert(utf8(needle_texts(needles@)[i as int]) == needle@);
            return true;
        }
        assert(utf8(needle_texts(needles@)[i as int]) == needle@);
        i = i + 1;
    }
    false
}

/// The words every private span is replaced by.
pub open spec fn redacted_text() -> Seq<char> {
    "[redacted]"@
}

/// Every occurrence of `pattern`, left to right and never overlapping, replaced by `with`.
pub open spec fn replace_all(s: Seq<char>, pattern: Seq<char>, with: Seq<char>) -> Seq<char>
    decreases s.len(),
{
    if pattern.len() == 0 || s.len() < pattern.len() {
        s
    } else if s.subrange(0, pattern.len() as int) == pattern {
        with + replace_all(s.subrange(pattern.len() as int, s.len() as int), pattern, with)
    } else {
        seq![s[0]] + replace_all(s.drop_first(), pattern, with)
    }
}

/// Whether `pattern` begins at position `i` of `s`.
pub(crate) fn matches_at(s: &Vec<char>, i: usize, pattern: &Vec<char>) -> (r: bool)
    requires
        i <= s@.len(),
    ensures
        r == (i + pattern@.len() <= s@.len() && s@.subrange(i as int, i + pattern@.len())
            == pattern@),
{
    if pattern.len() > s.len() - i {
        return false;
    }
    let mut j: usize = 0;
    while j < pattern.len()
        invariant
            i + pattern@.len() <= s@.len(),
            s@.len() == s.len(),
            pattern@.len() == pattern.len(),
            j <= pattern@.len(),
            forall|k: int| 0 <= k < j ==> s@[i + k] == pattern@[k],
        decreases pattern.len() - j,
    {
        if s[i + j] != pattern[j] {
            assert(s@.subrange(i as int, i + pattern@.len())[j as int] != pattern@[j as int]);
            return false;
        }
        j = j + 1;
    }
    assert(s@.subrange(i as int, i + pattern@.len()) =~= pattern@);
    true
}

/// `str::replace` of a non-empty pattern.
pub fn replace_text(s: &str, pattern: &str, with: &str) -> (r: String)
    ensures
        r@ == replace_all(s@, pattern@, with@),
{
    let v = chars_of(s);
    let p = chars_of(pattern);
    let w = chars_of(with);
    if p.len() == 0 {
        return string_of(v.as_slice());
    }
    let mut out: Vec<char> = Vec::new();
    let mut i: usize = 0;
    proof {
        assert(v@.subrange(0, v@.len() as int) =~= v@);
    }
    while i < v.len()
        invariant
            v@ == s@,
            p@ == pattern@,
            w@ == with@,
            p@.len() > 0,
            i <= v@.len(),
            out@ + replace_all(v@.subrange(i as int, v@.len() as int), p@, w@) == replace_all(
                s@,
                pattern@,
                with@,
            ),
        decreases v.len() - i,
    {
        let ghost rest = v@.subrange(i as int, v@.len() as int);
        if matches_at(&v, i, &p) {
            proof {
                assert(rest.subrange(0, p@.len() as int) =~= v@.subrange(i as int, i + p@.len()));
                assert(rest.subrange(p@.len() as int, rest.len() as int) =~= v@.subrange(
                    i + p@.len(),
                    v@.len() as int,
                ));
                assert(out@ + w@ + replace_all(v@.subrange(i + p@.len(), v@.len() as int), p@, w@)
                    =~= out@ + replace_all(rest, p@, w@));
            }
            let mut k: usize = 0;
            let ghost o0 = out@;
            while k < w.len()
                invariant
                    k <= w@.len(),
                    out@ == o0 + w@.subrange(0, k as int),
                decreases w.len() - k,
            {
                out.push(w[k]);
                k = k + 1;
                assert(out@ =~= o0 + w@.subrange(0, k as int));
            }
            assert(w@.subrange(0, w@.len() as int) =~= w@);
            i = i + p.len();
        } else {
            proof {
                if rest.len() >= p@.len() {
                    assert(rest.subrange(0, p@.len() as int) =~= v@.subrange(i as int, i + p@.len()));
                }
                assert(rest.drop_first() =~= v@.subrange(i + 1, v@.len() as int));
                assert(rest[0] == v@[i as int]);
                if rest.len() < p@.len() {
                    // the rest is copied as it is
                    assert(replace_all(rest, p@, w@) == rest);
                    assert(rest.len() >= 1);
                }
            }
            out.push(v[i]);
            proof {
                if rest.len() < p@.len() {
                    assert(replace_all(rest.drop_first(), p@, w@) == rest.drop_first());
                    assert(rest =~= seq![rest[0]] + rest.drop_first());
                }
                assert(out@ + replace_all(v@.subrange(i + 1, v@.len() as int), p@, w@) =~= (out@.drop_last()
                    + replace_all(rest, p@, w@)));
            }
            i = i + 1;
        }
    }
    proof {
        assert(v@.subrange(i as int, v@.len() as int) =~= Seq::<char>::empty());
        assert(out@ + Seq::<char>::empty() =~= out@);
    }
    string_of(out.as_slice())
}

/// A character that ends a machine path inside prose.
pub open spec fn path_stop(c: char) -> bool {
    is_whitespace_spec(c) || is_control_spec(c) || c == '"' || c == '\'' || c == '`' || c == '<'
        || c == '>' || c == '(' || c == ')' || c == '[' || c == ']' || c == '{' || c == '}' || c
        == ',' || c == ';'
}

/// The offset of the first path-ending character, or the length when there is none.
pub open spec fn first_stop(s: Seq<char>) -> int
    decreases s.len(),
{
    if s.len() == 0 {
        0
    } else if path_stop(s[0]) {
        0
    } else {
        1 + first_stop(s.drop_first())
    }
}

/// `c` equals the lowercase ASCII letter or sign `q`, ignoring ASCII case.
pub open spec fn ascii_ci(c: char, q: char) -> bool {
    crate::text::lower_char(c) == q
}

pub open spec fn starts_ci(s: Seq<char>, prefix: Seq<char>) -> bool {
    prefix.len() <= s.len() && forall|k: int| 0 <= k < prefix.len() ==> ascii_ci(#[trigger] s[k], prefix[k])
}

pub open spec fn mac_home() -> Seq<char> {
    seq!['/', 'U', 's', 'e', 'r', 's', '/']
}

pub open spec fn linux_home() -> Seq<char> {
    seq!['/', 'h', 'o', 'm', 'e', '/']
}

pub open spec fn mac_temp() -> Seq<char> {
    seq!['/', 'p', 'r', 'i', 'v', 'a', 't', 'e', '/', 'v', 'a', 'r', '/', 'f', 'o', 'l', 'd', 'e', 'r', 's', '/']
}

pub open spec fn windows_home() -> Seq<char> {
    seq!['c', ':', '\\', 'u', 's', 'e', 'r', 's', '\\']
}

pub open spec fn windows_home_slash() -> Seq<char> {
    seq!['c', ':', '/', 'u', 's', 'e', 'r', 's', '/']
}

/// The length of a home-directory prefix that opens `s`, if one does.
pub open spec fn path_prefix(s: Seq<char>) -> Option<int> {
    if crate::text::starts_with(s, mac_home()) {
        Some(7)
    } else if crate::text::starts_with(s, linux_home()) {
        Some(6)
    } else if crate::text::starts_with(s, mac_temp()) {
        Some(21)
    } else if starts_ci(s, windows_home()) || starts_ci(s, windows_home_slash()) {
        Some(9)
    } else {
        None
    }
}

/// `s` with every machine path, from its home-directory prefix to its first path-ending
/// character, replaced by the redaction mark.
pub open spec fn scrub(s: Seq<char>) -> Seq<char>
    decreases s.len(),
{
    if s.len() == 0 {
        Seq::empty()
    } else {
        match path_prefix(s) {
            Some(n) => if n <= s.len() {
                proof {
                    lemma_first_stop_bound(s.subrange(n, s.len() as int));
                }
                redacted_text() + scrub(s.subrange(n + first_stop(s.subrange(n, s.len() as int)), s.len() as int))
            } else {
                s
            },
            None => seq![s[0]] + scrub(s.drop_first()),
        }
    }
}

/// A path ends within the text it starts in.
pub proof fn lemma_first_stop_bound(s: Seq<char>)
    ensures
        0 <= first_stop(s) <= s.len(),
    decreases s.len(),
{
    if s.len() > 0 && !path_stop(s[0]) {
        lemma_first_stop_bound(s.drop_first());
    }
}

fn is_path_stop(c: char) -> (r: bool)
    ensures
        r == path_stop(c),
{
    is_whitespace(c) || is_control(c) || c == '"' || c == '\'' || c == '`' || c == '<' || c == '>'
        || c == '(' || c == ')' || c == '[' || c == ']' || c == '{' || c == '}' || c == ',' || c
        == ';'
}

/// MachinePathEnd finds where a machine path starting at `start` ends.
fn machine_path_end(v: &Vec<char>, start: usize) -> (r: usize)
    requires
        start <= v@.len(),
    ensures
        r == start + first_stop(v@.subrange(start as int, v@.len() as int)),
        start <= r <= v@.len(),
{
    let mut i: usize = start;
    proof {
        lemma_first_stop_bound(v@.subrange(start as int, v@.len() as int));
    }
    while i < v.len() && !is_path_stop(v[i])
        invariant
            start <= i <= v@.len(),
            first_stop(v@.subrange(start as int, v@.len() as int)) == (i - start) + first_stop(
                v@.subrange(i as int, v@.len() as int),
            ),
        decreases v.len() - i,
    {
        proof {
            assert(v@.subrange(i as int, v@.len() as int).drop_first() =~= v@.subrange(
                i + 1,
                v@.len() as int,
            ));
        }
        i = i + 1;
    }
    i
}

fn starts_ci_at(v: &Vec<char>, i: usize, prefix: &str) -> (r: bool)
    requires
        i <= v@.len(),
    ensures
        r == starts_ci(v@.subrange(i as int, v@.len() as int), prefix@),
{
    let p = chars_of(prefix);
    if p.len() > v.len() - i {
        return false;
    }
    let mut k: usize = 0;
    while k < p.len()
        invariant
            i + p@.len() <= v@.len(),
            v@.len() == v.len(),
            p@ == prefix@,
            k <= p@.len(),
            forall|j: int| 0 <= j < k ==> ascii_ci(v@[i + j], p@[j]),
        decreases p.len() - k,
    {
        if crate::text::to_lower_char(v[i + k]) != p[k] {
            assert(v@.subrange(i as int, v@.len() as int)[k as int] == v@[i + k]);
            return false;
        }
        k = k + 1;
    }
    assert forall|j: int| 0 <= j < p@.len() implies ascii_ci(
        #[trigger] v@.subrange(i as int, v@.len() as int)[j],
        prefix@[j],
    ) by {
        assert(v@.subrange(i as int, v@.len() as int)[j] == v@[i + j]);
    }
    true
}

/// MachinePathPrefix reports the home-directory prefix at position `i`, if any.
fn machine_path_prefix(v: &Vec<char>, i: usize) -> (r: Option<usize>)
    requires
        i <= v@.len(),
    ensures
        match r {
            Some(n) => path_prefix(v@.subrange(i as int, v@.len() as int)) == Some(n as int) && i
                + n <= v@.len(),
            None => path_prefix(v@.subrange(i as int, v@.len() as int)) is None,
        },
{
    let ghost rest = v@.subrange(i as int, v@.len() as int);
    let a = chars_of("/Users/");
    let b = chars_of("/home/");
    let c = chars_of("/private/var/folders/");
    proof {
        reveal_strlit("/Users/");
        reveal_strlit("/home/");
        reveal_strlit("/private/var/folders/");
        reveal_strlit("c:\\users\\");
        reveal_strlit("c:/users/");
    }
    if matches_at(v, i, &a) {
        assert(v@.subrange(i as int, i + a@.len()) == a@);
        assert(rest.subrange(0, 7) == a@);
        assert(mac_home().len() == 7);
        assert(rest.subrange(0, 7) == mac_home());
        assert(crate::text::starts_with(rest, mac_home()));
        return Some(7);
    }
    proof {
        assert(mac_home().len() == 7);
        assert(a@ == mac_home());
        assert(a@.len() == 7);
        if 7 <= rest.len() {
            assert(rest.subrange(0, 7) == v@.subrange(i as int, i + 7));
            assert(v@.subrange(i as int, i + 7) != a@);
            assert(rest.subrange(0, 7) != mac_home());
        }
        assert(!crate::text::starts_with(rest, mac_home()));
    }
    if matches_at(v, i, &b) {
        assert(v@.subrange(i as int, i + b@.len()) == b@);
        assert(rest.subrange(0, 6) == b@);
        assert(linux_home().len() == 6);
        assert(rest.subrange(0, 6) == linux_home());
        assert(crate::text::starts_with(rest, linux_home()));
        return Some(6);
    }
    proof {
        assert(linux_home().len() == 6);
        assert(b@ == linux_home());
        assert(b@.len() == 6);
        if 6 <= rest.len() {
            assert(rest.subrange(0, 6) == v@.subrange(i as int, i + 6));
            assert(v@.subrange(i as int, i + 6) != b@);
            assert(rest.subrange(0, 6) != linux_home());
        }
        assert(!crate::text::starts_with(rest, linux_home()));
    }
    if matches_at(v, i, &c) {
        assert(v@.subrange(i as int, i + c@.len()) == c@);
        assert(rest.subrange(0, 21) == c@);
        assert(mac_temp().len() == 21);
        assert(rest.subrange(0, 21) == mac_temp());
        assert(crate::text::starts_with(rest, mac_temp()));
        return Some(21);
    }
    proof {
        assert(mac_temp().len() == 21);
        assert(c@ == mac_temp());
        assert(c@.len() == 21);
        if 21 <= rest.len() {
            assert(rest.subrange(0, 21) == v@.subrange(i as int, i + 21));
            assert(v@.subrange(i as int, i + 21) != c@);
            assert(rest.subrange(0, 21) != mac_temp());
        }
        assert(!crate::text::starts_with(rest, mac_temp()));
    }
    if starts_ci_at(v, i, "c:\\users\\") || starts_ci_at(v, i, "c:/users/") {
        return Some(9);
    }
    None
}

/// RedactMachinePaths replaces every home-directory path with the redaction mark.
pub fn redact_machine_paths(value: &str) -> (r: String)
    ensures
        r@ == scrub(value@),
{
    let v = chars_of(value);
    let mut out: Vec<char> = Vec::new();
    let mut i: usize = 0;
    proof {
        assert(v@.subrange(0, v@.len() as int) =~= v@);
    }
    while i < v.len()
        invariant
            v@ == value@,
            i <= v@.len(),
            out@ + scrub(v@.subrange(i as int, v@.len() as int)) == scrub(value@),
        decreases v.len() - i,
    {
        let ghost rest = v@.subrange(i as int, v@.len() as int);
        match machine_path_prefix(&v, i) {
            Some(n) => {
                let ghost o0 = out@;
                let end = machine_path_end(&v, i + n);
                proof {
                    assert(rest.subrange(n as int, rest.len() as int) =~= v@.subrange(
                        i + n,
                        v@.len() as int,
                    ));
                    assert(rest.subrange(
                        n + first_stop(rest.subrange(n as int, rest.len() as int)),
                        rest.len() as int,
                    ) =~= v@.subrange(end as int, v@.len() as int));
                }
                push_text(&mut out, "[redacted]");
                i = end;
            },
            None => {
                proof {
                    assert(rest.drop_first() =~= v@.subrange(i + 1, v@.len() as int));
                }
                out.push(v[i]);
                proof {
                    assert(out@ + scrub(v@.subrange(i + 1, v@.len() as int)) =~= out@.drop_last() + scrub(
                        rest,
                    ));
                }
                i = i + 1;
            },
        }
    }
    proof {
        assert(v@.subrange(i as int, v@.len() as int) =~= Seq::<char>::empty());
        assert(out@ + Seq::<char>::empty() =~= out@);
    }
    string_of(out.as_slice())
}

/// Needles are tried longest first, ties broken by character order.
pub open spec fn needle_before(a: Seq<char>, b: Seq<char>) -> bool {
    byte_len(a) > byte_len(b) || (byte_len(a) == byte_len(b) && id_less(a, b))
}

/// Each needle strictly before the next, so none repeats.
pub open spec fn ordered(v: Seq<Seq<char>>) -> bool {
    forall|i: int, j: int| 0 <= i < j < v.len() ==> needle_before(#[trigger] v[i], #[trigger] v[j])
}

proof fn lemma_before_transitive(a: Seq<char>, b: Seq<char>, c: Seq<char>)
    requires
        needle_before(a, b),
        needle_before(b, c),
    ensures
        needle_before(a, c),
{
    if byte_len(a) == byte_len(b) && byte_len(b) == byte_len(c) {
        lemma_less_transitive(a, b, c);
    }
}

proof fn lemma_before_total(a: Seq<char>, b: Seq<char>)
    requires
        a != b,
    ensures
        needle_before(a, b) || needle_before(b, a),
{
    if byte_len(a) == byte_len(b) {
        lemma_less_total(a, b);
    }
}

fn before(a: &String, b: &String) -> (r: bool)
    ensures
        r == needle_before(a@, b@),
{
    let la = a.as_str().len();
    let lb = b.as_str().len();
    la > lb || (la == lb && less_than(a.as_str(), b.as_str()))
}

/// Inserts one needle where the order puts it, unless it is already present.
fn insert_needle(v: &mut Vec<String>, s: String)
    requires
        ordered(needle_texts(old(v)@)),
    ensures
        ordered(needle_texts(final(v)@)),
        forall|x: Seq<char>| #[trigger] needle_texts(final(v)@).contains(x) <==> (needle_texts(
            old(v)@,
        ).contains(x) || x == s@),
{
    let ghost old_v = needle_texts(v@);
    let mut p: usize = 0;
    while p < v.len() && before(&v[p], &s)
        invariant
            p <= v@.len(),
            old_v == needle_texts(v@),
            forall|k: int| 0 <= k < p ==> needle_before(#[trigger] old_v[k], s@),
        decreases v.len() - p,
    {
        p = p + 1;
    }
    if p < v.len() && same_text(v[p].as_str(), s.as_str()) {
        assert(old_v[p as int] == s@);
        assert forall|x: Seq<char>| #[trigger] needle_texts(v@).contains(x) <==> (old_v.contains(x)
            || x == s@) by {
            if x == s@ {
                assert(old_v[p as int] == x);
            }
        }
        return;
    }
    proof {
        if p < v@.len() {
            assert(!needle_before(old_v[p as int], s@));
            assert(old_v[p as int] != s@);
            lemma_before_total(old_v[p as int], s@);
        }
    }
    let ghost sv = s@;
    v.insert(p, s);
    let ghost new_v = needle_texts(v@);
    proof {
        assert(new_v =~= old_v.insert(p as int, sv));
        assert forall|i: int, j: int| 0 <= i < j < new_v.len() implies needle_before(
            #[trigger] new_v[i],
            #[trigger] new_v[j],
        ) by {
            if j < p {
                assert(new_v[i] == old_v[i] && new_v[j] == old_v[j]);
            } else if j == p {
                assert(new_v[i] == old_v[i]);
            } else if i < p {
                assert(new_v[i] == old_v[i] && new_v[j] == old_v[j - 1]);
                lemma_before_transitive(old_v[i], sv, old_v[p as int]);
                if j - 1 > p {
                    lemma_before_transitive(old_v[i], old_v[p as int], old_v[j - 1]);
                }
            } else if i == p {
                assert(new_v[j] == old_v[j - 1]);
                if j - 1 > p {
                    lemma_before_transitive(sv, old_v[p as int], old_v[j - 1]);
                }
            } else {
                assert(new_v[i] == old_v[i - 1] && new_v[j] == old_v[j - 1]);
            }
        }
        assert forall|x: Seq<char>| #[trigger] new_v.contains(x) <==> (old_v.contains(x) || x
            == sv) by {
            if new_v.contains(x) {
                let k = choose|k: int| 0 <= k < new_v.len() && new_v[k] == x;
                if k < p {
                    assert(old_v[k] == x);
                } else if k > p {
                    assert(old_v[k - 1] == x);
                }
            }
            if old_v.contains(x) {
                let k = choose|k: int| 0 <= k < old_v.len() && old_v[k] == x;
                if k < p {
                    assert(new_v[k] == x);
                } else {
                    assert(new_v[k + 1] == x);
                }
            }
            if x == sv {
                assert(new_v[p as int] == x);
            }
        }
    }
}

/// OrderNeedles sorts longest first and drops repeats.
pub fn order_needles(needles: &mut Vec<String>)
    ensures
        ordered(needle_texts(final(needles)@)),
        forall|x: Seq<char>| #[trigger] needle_texts(final(needles)@).contains(x) <==> needle_texts(
            old(needles)@,
        ).contains(x),
{
    let ghost given = needle_texts(needles@);
    let mut source: Vec<String> = Vec::new();
    std::mem::swap(&mut source, needles);
    let n = source.len();
    let mut i: usize = 0;
    while i < n
        invariant
            n == source@.len(),
            given == needle_texts(source@),
            i <= n,
            ordered(needle_texts(needles@)),
            forall|x: Seq<char>| #[trigger] needle_texts(needles@).contains(x) <==> given.take(
                i as int,
            ).contains(x),
        decreases n - i,
    {
        let item = source[i].clone();
        let ghost before = needle_texts(needles@);
        insert_needle(needles, item);
        proof {
            let t0 = given.take(i as int);
            let t1 = given.take(i + 1);
            assert forall|x: Seq<char>| #[trigger] t1.contains(x) <==> (t0.contains(x) || x
                == given[i as int]) by {
                if t1.contains(x) {
                    let k = choose|k: int| 0 <= k < t1.len() && t1[k] == x;
                    if k < i {
                        assert(t0[k] == x);
                    }
                }
                if t0.contains(x) {
                    let k = choose|k: int| 0 <= k < t0.len() && t0[k] == x;
                    assert(t1[k] == x);
                }
                if x == given[i as int] {
                    assert(t1[i as int] == x);
                }
            }
            assert(item@ == given[i as int]);
        }
        i = i + 1;
    }
    proof {
        assert(given.take(n as int) =~= given);
    }
}

/// The per-Work literal whose disclosure makes a leaked build contract mechanically visible.
pub open spec fn canary_text(runner_id: Seq<char>) -> Seq<char> {
    "ARCHIGOAT_BOUNDARY_CANARY_"@ + runner_id
}

/// A per-Work literal makes disclosure of any privileged build contract mechanically visible.
pub fn boundary_canary(runner_id: &str) -> (r: String)
    ensures
        r@ == canary_text(runner_id@),
{
    let mut out: Vec<char> = Vec::new();
    push_text(&mut out, "ARCHIGOAT_BOUNDARY_CANARY_");
    push_text(&mut out, runner_id);
    string_of(out.as_slice())
}

/// A short value is not a secret worth matching, and a huge one is not a literal.
pub open spec fn literal_sized(v: Seq<char>) -> bool {
    8 <= byte_len(v) && byte_len(v) <= 65536
}

/// PushLiteral keeps only values long enough to name something private.
fn push_literal(values: &mut Vec<String>, value: &str)
    ensures
        needle_texts(final(values)@) == (if literal_sized(value@) {
            needle_texts(old(values)@).push(value@)
        } else {
            needle_texts(old(values)@)
        }),
{
    let n = value.len();
    if n >= 8 && n <= 65536 {
        let ghost before = needle_texts(values@);
        values.push(value.to_owned());
        assert(needle_texts(values@) =~= before.push(value@));
    }
}

/// The credential-bearing variables always protected by name.
pub open spec fn secret_keys() -> Seq<Seq<char>> {
    seq![
        "HOME"@,
        "USERPROFILE"@,
        "APPDATA"@,
        "LOCALAPPDATA"@,
        "CODEX_HOME"@,
        "OPENAI_API_KEY"@,
        "CODEX_API_KEY"@,
        "CODEX_ACCESS_TOKEN"@,
        "ANTHROPIC_API_KEY"@,
        "CURSOR_API_KEY"@,
    ]
}

/// The words that mark any other variable as a credential.
pub open spec fn secret_markers() -> Seq<Seq<char>> {
    seq!["SECRET"@, "TOKEN"@, "PASSWORD"@, "API_KEY"@, "CREDENTIAL"@]
}

pub open spec fn upper_char(c: char) -> char {
    if 'a' <= c && c <= 'z' {
        ((c as u32) - 32) as char
    } else {
        c
    }
}

pub open spec fn upper_text(s: Seq<char>) -> Seq<char> {
    s.map_values(|c: char| upper_char(c))
}

/// Whether an environment variable holds a credential.
pub open spec fn secret_key(key: Seq<char>) -> bool {
    secret_keys().contains(key) || exists|i: int|
        0 <= i < secret_markers().len() && crate::text::seq_contains(
            upper_text(key),
            #[trigger] secret_markers()[i],
        )
}

/// This Work's three private roots.
pub open spec fn roots(session: Seq<char>, input_path: Seq<char>, freeze_root: Seq<char>) -> Seq<Seq<char>> {
    seq![session, input_path, freeze_root]
}

/// Whether `x` is one of this Work's protected literals.
pub open spec fn is_literal(
    x: Seq<char>,
    runner_id: Seq<char>,
    paths: Seq<Seq<char>>,
    env: Seq<(Seq<char>, Seq<char>)>,
) -> bool {
    ||| x == canary_text(runner_id)
    ||| (paths.contains(x) && literal_sized(x))
    ||| exists|i: int|
        0 <= i < env.len() && (#[trigger] env[i]).1 == x && secret_key(env[i].0) && literal_sized(x)
}

pub open spec fn env_view(env: Seq<(String, String)>) -> Seq<(Seq<char>, Seq<char>)> {
    env.map_values(|p: (String, String)| (p.0@, p.1@))
}

proof fn lemma_push_contains(s: Seq<Seq<char>>, v: Seq<char>, x: Seq<char>)
    ensures
        s.push(v).contains(x) <==> (s.contains(x) || x == v),
{
    if s.push(v).contains(x) {
        let k = choose|k: int| 0 <= k < s.push(v).len() && s.push(v)[k] == x;
        if k < s.len() {
            assert(s[k] == x);
        }
    }
    if s.contains(x) {
        let k = choose|k: int| 0 <= k < s.len() && s[k] == x;
        assert(s.push(v)[k] == x);
    }
    if x == v {
        assert(s.push(v)[s.len() as int] == x);
    }
}

/// What the canary and three conditional pushes leave.
proof fn lemma_pushes(c: Seq<char>, a: Seq<char>, b: Seq<char>, d: Seq<char>, base: Seq<Seq<char>>, x: Seq<char>)
    requires
        base == ({
            let s0 = seq![c];
            let s1 = if literal_sized(a) { s0.push(a) } else { s0 };
            let s2 = if literal_sized(b) { s1.push(b) } else { s1 };
            if literal_sized(d) { s2.push(d) } else { s2 }
        }),
    ensures
        base.contains(x) <==> (x == c || (x == a && literal_sized(a)) || (x == b && literal_sized(b))
            || (x == d && literal_sized(d))),
{
    let s0 = seq![c];
    let s1 = if literal_sized(a) { s0.push(a) } else { s0 };
    let s2 = if literal_sized(b) { s1.push(b) } else { s1 };
    assert(s0.contains(x) <==> x == c) by {
        if s0.contains(x) {
            let k = choose|k: int| 0 <= k < s0.len() && s0[k] == x;
        }
        if x == c {
            assert(s0[0] == x);
        }
    }
    if literal_sized(a) {
        lemma_push_contains(s0, a, x);
    }
    if literal_sized(b) {
        lemma_push_contains(s1, b, x);
    }
    if literal_sized(d) {
        lemma_push_contains(s2, d, x);
    }
}

pub(crate) fn upper_chars(s: &str) -> (r: Vec<char>)
    ensures
        r@ == upper_text(s@),
{
    let v = chars_of(s);
    let mut r: Vec<char> = Vec::new();
    let mut i: usize = 0;
    while i < v.len()
        invariant
            v@ == s@,
            i <= v.len(),
            r@ == upper_text(s@).subrange(0, i as int),
        decreases v.len() - i,
    {
        let c = v[i];
        let u = if 'a' <= c && c <= 'z' {
            ((c as u8) - 32) as char
        } else {
            c
        };
        r.push(u);
        i = i + 1;
        assert(r@ =~= upper_text(s@).subrange(0, i as int));
    }
    assert(r@ =~= upper_text(s@));
    r
}

fn is_secret_key(key: &str) -> (r: bool)
    ensures
        r == secret_key(key@),
{
    let keys: Vec<&str> = vec![
        "HOME",
        "USERPROFILE",
        "APPDATA",
        "LOCALAPPDATA",
        "CODEX_HOME",
        "OPENAI_API_KEY",
        "CODEX_API_KEY",
        "CODEX_ACCESS_TOKEN",
        "ANTHROPIC_API_KEY",
        "CURSOR_API_KEY",
    ];
    let mut i: usize = 0;
    while i < keys.len()
        invariant
            keys@.len() == 10,
            i <= 10,
            forall|k: int| 0 <= k < 10 ==> (#[trigger] keys@[k])@ == secret_keys()[k],
            forall|k: int| 0 <= k < i ==> secret_keys()[k] != key@,
        decreases 10 - i,
    {
        if same_text(keys[i], key) {
            assert(secret_keys()[i as int] == key@);
            return true;
        }
        i = i + 1;
    }
    assert(!secret_keys().contains(key@));
    let upper = upper_chars(key);
    let markers: Vec<&str> = vec!["SECRET", "TOKEN", "PASSWORD", "API_KEY", "CREDENTIAL"];
    let mut j: usize = 0;
    while j < markers.len()
        invariant
            markers@.len() == 5,
            j <= 5,
            upper@ == upper_text(key@),
            forall|k: int| 0 <= k < 5 ==> (#[trigger] markers@[k])@ == secret_markers()[k],
            forall|k: int| 0 <= k < j ==> !crate::text::seq_contains(upper_text(key@), #[trigger] secret_markers()[k]),
        decreases 5 - j,
    {
        let marker = chars_of(markers[j]);
        if crate::text::contains_chars(&upper, &marker) {
            assert(crate::text::seq_contains(upper_text(key@), secret_markers()[j as int]));
            return true;
        }
        j = j + 1;
    }
    false
}

/// ProtectedLiterals are ArchiGoat's own private facts: this Work's canary, its private roots,
/// and every credential in the environment `env`, longest first.
pub fn protected_literals(
    runner_id: &str,
    session: &str,
    input_path: &str,
    freeze_root: &str,
    env: &Vec<(String, String)>,
) -> (r: Vec<String>)
    ensures
        ordered(needle_texts(r@)),
        forall|x: Seq<char>| #[trigger] needle_texts(r@).contains(x) <==> is_literal(
            x,
            runner_id@,
            roots(session@, input_path@, freeze_root@),
            env_view(env@),
        ),
{
    let ghost paths = roots(session@, input_path@, freeze_root@);
    let ghost e = env_view(env@);
    let mut values: Vec<String> = Vec::new();
    values.push(boundary_canary(runner_id));
    assert(needle_texts(values@) =~= seq![canary_text(runner_id@)]);
    push_literal(&mut values, session);
    push_literal(&mut values, input_path);
    push_literal(&mut values, freeze_root);
    let ghost base = needle_texts(values@);
    proof {
        assert forall|x: Seq<char>| #[trigger] base.contains(x) <==> (x == canary_text(runner_id@)
            || (paths.contains(x) && literal_sized(x))) by {
            lemma_pushes(canary_text(runner_id@), session@, input_path@, freeze_root@, base, x);
            assert(paths[0] == session@ && paths[1] == input_path@ && paths[2] == freeze_root@);
            if paths.contains(x) {
                let k = choose|k: int| 0 <= k < paths.len() && paths[k] == x;
                assert(k == 0 || k == 1 || k == 2);
            }
            if x == session@ {
                assert(paths[0] == x);
            }
            if x == input_path@ {
                assert(paths[1] == x);
            }
            if x == freeze_root@ {
                assert(paths[2] == x);
            }
        }
    }
    let mut i: usize = 0;
    while i < env.len()
        invariant
            i <= env@.len(),
            e == env_view(env@),
            forall|x: Seq<char>| #[trigger] needle_texts(values@).contains(x) <==> (base.contains(x)
                || exists|t: int|
                0 <= t < i && (#[trigger] e[t]).1 == x && secret_key(e[t].0) && literal_sized(x)),
        decreases env.len() - i,
    {
        let ghost v0 = needle_texts(values@);
        if is_secret_key(env[i].0.as_str()) {
            push_literal(&mut values, env[i].1.as_str());
        }
        proof {
            assert(e[i as int] == (env@[i as int].0@, env@[i as int].1@));
            assert forall|x: Seq<char>| #[trigger] needle_texts(values@).contains(x) <==> (
            base.contains(x) || exists|t: int|
                0 <= t < i + 1 && (#[trigger] e[t]).1 == x && secret_key(e[t].0) && literal_sized(
                    x,
                )) by {
                if secret_key(e[i as int].0) && literal_sized(e[i as int].1) {
                    lemma_push_contains(v0, e[i as int].1, x);
                }
                if exists|t: int|
                    0 <= t < i + 1 && (#[trigger] e[t]).1 == x && secret_key(e[t].0)
                        && literal_sized(x) {
                    let t = choose|t: int|
                        0 <= t < i + 1 && (#[trigger] e[t]).1 == x && secret_key(e[t].0)
                            && literal_sized(x);
                    if t < i {
                        assert(v0.contains(x));
                    }
                }
                if v0.contains(x) && !base.contains(x) {
                    let t = choose|t: int|
                        0 <= t < i && (#[trigger] e[t]).1 == x && secret_key(e[t].0)
                            && literal_sized(x);
                    assert(0 <= t < i + 1);
                }
            }
        }
        i = i + 1;
    }
    order_needles(&mut values);
    values
}

/// The text after each needle, in order, was struck out.
pub open spec fn struck(value: Seq<char>, needles: Seq<Seq<char>>) -> Seq<char>
    decreases needles.len(),
{
    if needles.len() == 0 {
        value
    } else {
        let prev = struck(value, needles.drop_last());
        let n = needles.last();
        if n.len() != 0 && n != redacted_text() {
            replace_all(prev, n, redacted_text())
        } else {
            prev
        }
    }
}

/// RedactText strikes every needle out of the text, in needle order.
pub fn redact_text(value: &str, needles: &Vec<String>) -> (r: String)
    ensures
        r@ == struck(value@, needle_texts(needles@)),
{
    let ghost all = needle_texts(needles@);
    let mut out = value.to_owned();
    let mut i: usize = 0;
    while i < needles.len()
        invariant
            i <= needles@.len(),
            all == needle_texts(needles@),
            out@ == struck(value@, all.take(i as int)),
        decreases needles.len() - i,
    {
        proof {
            assert(all.take(i + 1).drop_last() =~= all.take(i as int));
            assert(all.take(i + 1).last() == needles@[i as int]@);
            reveal_strlit("[redacted]");
        }
        let literal = needles[i].as_str();
        if chars_of(literal).len() != 0 && !same_text(literal, "[redacted]") {
            out = replace_text(out.as_str(), literal, "[redacted]");
        }
        i = i + 1;
    }
    proof {
        assert(all.take(needles@.len() as int) =~= all);
    }
    out
}

/// AnswerNeedles joins the exact private facts a Work may never publish, longest first: its
/// protected literals and the continuation the daemon itself says.
pub fn answer_needles(
    runner_id: &str,
    session: &str,
    input_path: &str,
    freeze_root: &str,
    env: &Vec<(String, String)>,
) -> (r: Vec<String>)
    ensures
        ordered(needle_texts(r@)),
        forall|x: Seq<char>| #[trigger] needle_texts(r@).contains(x) <==> (is_literal(
            x,
            runner_id@,
            roots(session@, input_path@, freeze_root@),
            env_view(env@),
        ) || (x == crate::envelope::repair_continuation_text() && literal_sized(x))),
{
    let mut needles = protected_literals(runner_id, session, input_path, freeze_root, env);
    let ghost before = needle_texts(needles@);
    push_literal(&mut needles, crate::envelope::repair_continuation());
    let ghost pushed = needle_texts(needles@);
    order_needles(&mut needles);
    proof {
        assert forall|x: Seq<char>| #[trigger] needle_texts(needles@).contains(x) <==> (is_literal(
            x,
            runner_id@,
            roots(session@, input_path@, freeze_root@),
            env_view(env@),
        ) || (x == crate::envelope::repair_continuation_text() && literal_sized(x))) by {
            if literal_sized(crate::envelope::repair_continuation_text()) {
                lemma_push_contains(before, crate::envelope::repair_continuation_text(), x);
            }
            assert(pushed.contains(x) == needle_texts(needles@).contains(x));
        }
    }
    needles
}

/// SecretNeedles are the facts no product may ever carry: this Work's canary, its private roots
/// and every credential in its environment.
pub fn secret_needles(
    runner_id: &str,
    session: &str,
    input_path: &str,
    freeze_root: &str,
    env: &Vec<(String, String)>,
) -> (r: Vec<String>)
    ensures
        ordered(needle_texts(r@)),
        forall|x: Seq<char>| #[trigger] needle_texts(r@).contains(x) <==> is_literal(
            x,
            runner_id@,
            roots(session@, input_path@, freeze_root@),
            env_view(env@),
        ),
{
    let mut needles = protected_literals(runner_id, session, input_path, freeze_root, env);
    order_needles(&mut needles);
    needles
}

/// RedactAnswer removes only proven private spans before any Running snapshot can expose text:
/// first every machine path, then every private literal, longest first.
pub fn redact_answer(
    runner_id: &str,
    session: &str,
    input_path: &str,
    freeze_root: &str,
    answer: &str,
    env: &Vec<(String, String)>,
) -> (r: String)
    ensures
        exists|needles: Seq<Seq<char>>|
            #![trigger struck(scrub(answer@), needles)]
            r@ == struck(scrub(answer@), needles) && ordered(needles) && forall|x: Seq<char>|
                #[trigger] needles.contains(x) <==> (is_literal(
                    x,
                    runner_id@,
                    roots(session@, input_path@, freeze_root@),
                    env_view(env@),
                ) || (x == crate::envelope::repair_continuation_text() && literal_sized(x))),
{
    let needles = answer_needles(runner_id, session, input_path, freeze_root, env);
    let scrubbed = redact_machine_paths(answer);
    let r = redact_text(scrubbed.as_str(), &needles);
    assert(r@ == struck(scrub(answer@), needle_texts(needles@)));
    r
}

/// The repair instruction a crossing of the Work boundary answers with.
pub open spec fn boundary_repair_text() -> Seq<char> {
    "Delivery crossed the Work boundary; replace the final answer and every artifact with only the intended user result"@
}

/// ValidateEgress is the single path from native completion to Done, persistence, and upload.
/// It redacts the answer in place, then refuses delivery when an artifact's name carries a secret
/// or `content_unsafe[i]` reports that the `i`th artifact's bytes carry one or could not be read.
pub fn validate_egress(
    runner_id: &str,
    session: &str,
    input_path: &str,
    freeze_root: &str,
    answer: &mut Option<String>,
    artifact_names: &Vec<String>,
    content_unsafe: &Vec<bool>,
    env: &Vec<(String, String)>,
) -> (r: Result<(), String>)
    requires
        content_unsafe@.len() == artifact_names@.len(),
    ensures
        match *old(answer) {
            Some(a) => *final(answer) matches Some(b) && redact_answer_spec(
                runner_id@,
                session@,
                input_path@,
                freeze_root@,
                a@,
                env_view(env@),
                b@,
            ),
            None => *final(answer) is None,
        },
        r is Ok <==> !any_exposed(
            artifact_names@,
            content_unsafe@,
            runner_id@,
            roots(session@, input_path@, freeze_root@),
            env_view(env@),
        ),
        r matches Err(e) ==> e@ == boundary_repair_text(),
{
    let redacted: Option<String> = match answer {
        Some(a) => {
            let b = redact_answer(runner_id, session, input_path, freeze_root, a.as_str(), env);
            assert(redact_answer_spec(
                runner_id@,
                session@,
                input_path@,
                freeze_root@,
                a@,
                env_view(env@),
                b@,
            ));
            Some(b)
        },
        None => None,
    };
    *answer = redacted;
    let exposed = artifacts_exposed(
        runner_id,
        session,
        input_path,
        freeze_root,
        artifact_names,
        content_unsafe,
        env,
    );
    if exposed {
        return Err(
            "Delivery crossed the Work boundary; replace the final answer and every artifact with only the intended user result".to_owned(),
        );
    }
    Ok(())
}

/// Whether any artifact's name or bytes carry a secret.
fn artifacts_exposed(
    runner_id: &str,
    session: &str,
    input_path: &str,
    freeze_root: &str,
    artifact_names: &Vec<String>,
    content_unsafe: &Vec<bool>,
    env: &Vec<(String, String)>,
) -> (r: bool)
    requires
        content_unsafe@.len() == artifact_names@.len(),
    ensures
        r == any_exposed(
            artifact_names@,
            content_unsafe@,
            runner_id@,
            roots(session@, input_path@, freeze_root@),
            env_view(env@),
        ),
{
    let needles = secret_needles(runner_id, session, input_path, freeze_root, env);
    let mut i: usize = 0;
    while i < artifact_names.len()
        invariant
            i <= artifact_names@.len(),
            content_unsafe@.len() == artifact_names@.len(),
            ordered(needle_texts(needles@)),
            forall|x: Seq<char>| #[trigger] needle_texts(needles@).contains(x) <==> is_literal(
                x,
                runner_id@,
                roots(session@, input_path@, freeze_root@),
                env_view(env@),
            ),
            forall|k: int| 0 <= k < i ==> !#[trigger] content_unsafe@[k],
            forall|k: int|
                0 <= k < i ==> !#[trigger] name_exposes(
                    artifact_names@[k]@,
                    runner_id@,
                    roots(session@, input_path@, freeze_root@),
                    env_view(env@),
                ),
        decreases artifact_names.len() - i,
    {
        let name_bytes = artifact_names[i].as_str().as_bytes();
        assert(name_bytes@ == utf8(artifact_names@[i as int]@));
        let name_unsafe = unsafe_bytes(name_bytes, &needles);
        proof {
            lemma_exposes_set(
                utf8(artifact_names@[i as int]@),
                needle_texts(needles@),
                runner_id@,
                roots(session@, input_path@, freeze_root@),
                env_view(env@),
            );
        }
        assert(name_unsafe == name_exposes(
            artifact_names@[i as int]@,
            runner_id@,
            roots(session@, input_path@, freeze_root@),
            env_view(env@),
        ));
        if name_unsafe || content_unsafe[i] {
            return true;
        }
        i = i + 1;
    }
    assert forall|k: int| 0 <= k < artifact_names@.len() implies !(content_unsafe@[k] || #[trigger] name_exposes(
        artifact_names@[k]@,
        runner_id@,
        roots(session@, input_path@, freeze_root@),
        env_view(env@),
    )) by {
        assert(!content_unsafe@[k]);
    }
    false
}

/// Whether any artifact's name or bytes carry one of this Work's protected literals.
pub open spec fn any_exposed(
    names: Seq<String>,
    content_unsafe: Seq<bool>,
    runner_id: Seq<char>,
    paths: Seq<Seq<char>>,
    env: Seq<(Seq<char>, Seq<char>)>,
) -> bool {
    exists|i: int|
        0 <= i < names.len() && (content_unsafe[i] || #[trigger] name_exposes(
            names[i]@,
            runner_id,
            paths,
            env,
        ))
}

/// Whether a name's bytes carry any of this Work's protected literals.
pub open spec fn name_exposes(
    name: Seq<char>,
    runner_id: Seq<char>,
    paths: Seq<Seq<char>>,
    env: Seq<(Seq<char>, Seq<char>)>,
) -> bool {
    exists|x: Seq<char>| #[trigger] is_literal(x, runner_id, paths, env) && bytes_contain(utf8(name), utf8(x))
}

/// What redacting an answer leaves: its machine paths and private literals struck out.
pub open spec fn redact_answer_spec(
    runner_id: Seq<char>,
    session: Seq<char>,
    input_path: Seq<char>,
    freeze_root: Seq<char>,
    answer: Seq<char>,
    env: Seq<(Seq<char>, Seq<char>)>,
    result: Seq<char>,
) -> bool {
    exists|needles: Seq<Seq<char>>|
        #![trigger struck(scrub(answer), needles)]
        result == struck(scrub(answer), needles) && ordered(needles) && forall|x: Seq<char>|
            #[trigger] needles.contains(x) <==> (is_literal(
                x,
                runner_id,
                roots(session, input_path, freeze_root),
                env,
            ) || (x == crate::envelope::repair_continuation_text() && literal_sized(x)))
}

proof fn lemma_exposes_set(
    bytes: Seq<u8>,
    needles: Seq<Seq<char>>,
    runner_id: Seq<char>,
    paths: Seq<Seq<char>>,
    env: Seq<(Seq<char>, Seq<char>)>,
)
    requires
        forall|x: Seq<char>| #[trigger] needles.contains(x) <==> is_literal(x, runner_id, paths, env),
    ensures
        exposes(bytes, needles) <==> exists|x: Seq<char>|
            #[trigger] is_literal(x, runner_id, paths, env) && bytes_contain(bytes, utf8(x)),
{
    if exposes(bytes, needles) {
        let i = choose|i: int| 0 <= i < needles.len() && bytes_contain(bytes, #[trigger] utf8(needles[i]));
        assert(needles.contains(needles[i]));
    }
    if exists|x: Seq<char>| #[trigger] is_literal(x, runner_id, paths, env) && bytes_contain(bytes, utf8(x)) {
        let x = choose|x: Seq<char>| #[trigger] is_literal(x, runner_id, paths, env) && bytes_contain(bytes, utf8(x));
        assert(needles.contains(x));
        let i = choose|i: int| 0 <= i < needles.len() && needles[i] == x;
        assert(bytes_contain(bytes, utf8(needles[i])));
    }
}


/// Whether bytes carry one of this Work's protected literals.
pub open spec fn bytes_expose(
    bytes: Seq<u8>,
    runner_id: Seq<char>,
    paths: Seq<Seq<char>>,
    env: Seq<(Seq<char>, Seq<char>)>,
) -> bool {
    exists|x: Seq<char>| #[trigger] is_literal(x, runner_id, paths, env) && bytes_contain(bytes, utf8(x))
}

/// The content verdict of one frozen artifact: unsafe when it could not be read, or when its
/// bytes carry a protected literal.
pub open spec fn content_verdict(
    read: Result<Seq<u8>, ()>,
    runner_id: Seq<char>,
    paths: Seq<Seq<char>>,
    env: Seq<(Seq<char>, Seq<char>)>,
) -> bool {
    match read {
        Ok(b) => bytes_expose(b, runner_id, paths, env),
        Err(_) => true,
    }
}

pub open spec fn read_view(read: Result<Vec<u8>, String>) -> Result<Seq<u8>, ()> {
    match read {
        Ok(b) => Ok(b@),
        Err(_) => Err(()),
    }
}

/// ContentFlags gives `validate_egress` its per-artifact content verdicts: `reads[i]` is what
/// reading the `i`th frozen artifact returned.
pub fn content_flags(
    runner_id: &str,
    session: &str,
    input_path: &str,
    freeze_root: &str,
    reads: &Vec<Result<Vec<u8>, String>>,
    env: &Vec<(String, String)>,
) -> (r: Vec<bool>)
    ensures
        r@.len() == reads@.len(),
        forall|i: int|
            0 <= i < reads@.len() ==> #[trigger] r@[i] == content_verdict(
                read_view(reads@[i]),
                runner_id@,
                roots(session@, input_path@, freeze_root@),
                env_view(env@),
            ),
{
    let needles = secret_needles(runner_id, session, input_path, freeze_root, env);
    let mut flags: Vec<bool> = Vec::new();
    let mut i: usize = 0;
    while i < reads.len()
        invariant
            i <= reads@.len(),
            flags@.len() == i,
            forall|x: Seq<char>| #[trigger] needle_texts(needles@).contains(x) <==> is_literal(
                x,
                runner_id@,
                roots(session@, input_path@, freeze_root@),
                env_view(env@),
            ),
            forall|k: int|
                0 <= k < i ==> #[trigger] flags@[k] == content_verdict(
                    read_view(reads@[k]),
                    runner_id@,
                    roots(session@, input_path@, freeze_root@),
                    env_view(env@),
                ),
        decreases reads.len() - i,
    {
        let flag = match &reads[i] {
            Ok(bytes) => {
                let exposed = unsafe_bytes(bytes.as_slice(), &needles);
                proof {
                    lemma_exposes_set(
                        bytes@,
                        needle_texts(needles@),
                        runner_id@,
                        roots(session@, input_path@, freeze_root@),
                        env_view(env@),
                    );
                }
                exposed
            },
            Err(_) => true,
        };
        flags.push(flag);
        i = i + 1;
    }
    flags
}


/// A variable is a credential when its upper-cased name carries SECRET, TOKEN, PASSWORD, API_KEY
/// or CREDENTIAL anywhere: its value, when it is long enough to name something private, is one of
/// the Work's protected literals, so redaction strikes it and egress refuses it.
pub proof fn credential_names_protect_their_values(
    env: Seq<(Seq<char>, Seq<char>)>,
    i: int,
    runner_id: Seq<char>,
    paths: Seq<Seq<char>>,
)
    requires
        0 <= i < env.len(),
        literal_sized(env[i].1),
        crate::text::seq_contains(upper_text(env[i].0), "SECRET"@)
            || crate::text::seq_contains(upper_text(env[i].0), "TOKEN"@)
            || crate::text::seq_contains(upper_text(env[i].0), "PASSWORD"@)
            || crate::text::seq_contains(upper_text(env[i].0), "API_KEY"@)
            || crate::text::seq_contains(upper_text(env[i].0), "CREDENTIAL"@),
    ensures
        secret_key(env[i].0),
        is_literal(env[i].1, runner_id, paths, env),
{
    let u = upper_text(env[i].0);
    if crate::text::seq_contains(u, "SECRET"@) {
        assert(secret_markers()[0] == "SECRET"@);
    } else if crate::text::seq_contains(u, "TOKEN"@) {
        assert(secret_markers()[1] == "TOKEN"@);
    } else if crate::text::seq_contains(u, "PASSWORD"@) {
        assert(secret_markers()[2] == "PASSWORD"@);
    } else if crate::text::seq_contains(u, "API_KEY"@) {
        assert(secret_markers()[3] == "API_KEY"@);
    } else {
        assert(secret_markers()[4] == "CREDENTIAL"@);
    }
    assert(secret_key(env[i].0));
    assert(env[i].1 == (#[trigger] env[i]).1 && secret_key(env[i].0) && literal_sized(env[i].1));
}

/// The home and Provider credential variables are credentials by name, whatever they hold.
pub proof fn named_credentials_are_secret()
    ensures
        secret_key("HOME"@),
        secret_key("USERPROFILE"@),
        secret_key("APPDATA"@),
        secret_key("LOCALAPPDATA"@),
        secret_key("CODEX_HOME"@),
        secret_key("OPENAI_API_KEY"@),
        secret_key("CODEX_API_KEY"@),
        secret_key("CODEX_ACCESS_TOKEN"@),
        secret_key("ANTHROPIC_API_KEY"@),
        secret_key("CURSOR_API_KEY"@),
{
    assert(secret_keys()[0] == "HOME"@);
    assert(secret_keys()[1] == "USERPROFILE"@);
    assert(secret_keys()[2] == "APPDATA"@);
    assert(secret_keys()[3] == "LOCALAPPDATA"@);
    assert(secret_keys()[4] == "CODEX_HOME"@);
    assert(secret_keys()[5] == "OPENAI_API_KEY"@);
    assert(secret_keys()[6] == "CODEX_API_KEY"@);
    assert(secret_keys()[7] == "CODEX_ACCESS_TOKEN"@);
    assert(secret_keys()[8] == "ANTHROPIC_API_KEY"@);
    assert(secret_keys()[9] == "CURSOR_API_KEY"@);
}

} // verus!
