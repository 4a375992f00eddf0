//! Delivery receipts name each frozen product file safely and bind it to its exact bytes.

use vstd::prelude::*;
use crate::preview::{split_on, split_text, texts_of};
use crate::text::{chars_of, has_control, has_control_spec, is_blank, is_blank_spec, same_text, string_of};

verus! {

/// The SHA-256 digest of some bytes.
pub uninterp spec fn sha256_of(bytes: Seq<u8>) -> Seq<u8>;

/// Calls `sha2::Sha256::digest`. The contract names the digest and states its documented
/// length of 32 bytes.
#[verifier::external_body]
pub(crate) fn sha256(bytes: &[u8]) -> (r: Vec<u8>)
    ensures
        r@ == sha256_of(bytes@),
        r@.len() == 32,
{
    <sha2::Sha256 as sha2::Digest>::digest(bytes).to_vec()
}

pub open spec fn hex_digit(n: u8) -> char {
    if n < 10 {
        (('0' as u8) + n) as char
    } else {
        (('a' as u8) + n - 10) as char
    }
}

/// Lowercase hexadecimal, two digits per byte, most significant first.
pub open spec fn hex_text(bytes: Seq<u8>) -> Seq<char>
    decreases bytes.len(),
{
    if bytes.len() == 0 {
        Seq::empty()
    } else {
        hex_text(bytes.drop_last()) + seq![hex_digit(bytes.last() / 16), hex_digit(bytes.last() % 16)]
    }
}

fn hex_char(n: u8) -> (r: char)
    requires
        n < 16,
    ensures
        r == hex_digit(n),
{
    if n < 10 {
        (48u8 + n) as char
    } else {
        (97u8 + n - 10) as char
    }
}

/// Hex writes bytes as lowercase hexadecimal, as `{:x}` writes a digest.
pub fn hex(bytes: &[u8]) -> (r: String)
    ensures
        r@ == hex_text(bytes@),
{
    let mut out: Vec<char> = Vec::new();
    let mut i: usize = 0;
    while i < bytes.len()
        invariant
            i <= bytes@.len(),
            out@ == hex_text(bytes@.take(i as int)),
        decreases bytes.len() - i,
    {
        proof {
            assert(bytes@.take(i + 1).drop_last() =~= bytes@.take(i as int));
            assert(bytes@.take(i + 1).last() == bytes@[i as int]);
        }
        let b = bytes[i];
        out.push(hex_char(b / 16));
        out.push(hex_char(b % 16));
        i = i + 1;
    }
    proof {
        assert(bytes@.take(bytes@.len() as int) =~= bytes@);
    }
    string_of(out.as_slice())
}

/// Digest binds one frozen file to its length and lowercase SHA-256.
pub fn digest(bytes: &[u8]) -> (r: (u64, String))
    requires
        bytes@.len() <= u64::MAX,
    ensures
        r.0 == bytes@.len(),
        r.1@ == hex_text(sha256_of(bytes@)),
{
    let d = sha256(bytes);
    (bytes.len() as u64, hex(d.as_slice()))
}

/// The file name a protected tool output is kept under: the hex digest of its bytes.
pub fn protected_output_name(output: &str) -> (r: String)
    ensures
        r@ == hex_text(sha256_of(vstd::utf8::encode_utf8(output@))),
{
    let d = sha256(output.as_bytes());
    hex(d.as_slice())
}

/// A Work identity a receipt may name: neither blank nor carrying a control character.
pub fn valid_work(work_id: &str) -> (r: Result<(), String>)
    ensures
        r is Ok <==> (!is_blank_spec(work_id@) && !has_control_spec(work_id@)),
        r matches Err(e) ==> e@ == "Work identity is invalid"@,
{
    if is_blank(work_id) || has_control(work_id) {
        Err("Work identity is invalid".to_owned())
    } else {
        Ok(())
    }
}

/// A relative output name whose every component is an ordinary name: no root, no current or
/// parent directory, no control character.
pub open spec fn safe_name(name: Seq<char>) -> bool {
    let parts = split_on(name, '/');
    &&& name.len() != 0
    &&& !has_control_spec(name)
    &&& name[0] != '/'
    &&& parts[0] != "."@
    &&& forall|i: int| 0 <= i < parts.len() ==> #[trigger] parts[i] != ".."@
}

proof fn lemma_split_nonempty(s: Seq<char>, c: char)
    ensures
        split_on(s, c).len() >= 1,
        s.len() > 0 && s[0] != c ==> split_on(s, c)[0].len() > 0 || split_on(s, c)[0] == s.subrange(0, 0),
{
    crate::text::lemma_first_index(s, c);
}

/// SafeRelative refuses any output name that could leave its freeze root.
pub fn safe_relative(name: &str) -> (r: Result<String, String>)
    ensures
        safe_name(name@) ==> (r matches Ok(p) && p@ == name@),
        !safe_name(name@) ==> (r matches Err(e) && e@ == "Work output name is unsafe"@),
{
    let v = chars_of(name);
    if v.len() == 0 || has_control(name) || v[0] == '/' {
        return Err("Work output name is unsafe".to_owned());
    }
    let parts = split_text(name, '/');
    let ghost all = texts_of(parts@);
    proof {
        lemma_split_nonempty(name@, '/');
        reveal_strlit(".");
        reveal_strlit("..");
    }
    assert(all.len() >= 1);
    if same_text(parts[0].as_str(), ".") {
        assert(all[0] == "."@);
        return Err("Work output name is unsafe".to_owned());
    }
    let mut i: usize = 0;
    while i < parts.len()
        invariant
            i <= parts@.len(),
            all == texts_of(parts@),
            all == split_on(name@, '/'),
            forall|k: int| 0 <= k < i ==> #[trigger] all[k] != ".."@,
        decreases parts.len() - i,
    {
        if same_text(parts[i].as_str(), "..") {
            assert(all[i as int] == ".."@);
            return Err("Work output name is unsafe".to_owned());
        }
        i = i + 1;
    }
    Ok(name.to_owned())
}

/// `s` with every backslash written as a slash.
pub open spec fn slashed(s: Seq<char>) -> Seq<char> {
    s.map_values(|c: char| if c == '\\' { '/' } else { c })
}

/// PortableName writes an output's relative path with forward slashes and accepts it only when
/// it is safe.
pub fn portable_name(path: &str) -> (r: Result<String, String>)
    ensures
        safe_name(slashed(path@)) ==> (r matches Ok(p) && p@ == slashed(path@)),
        !safe_name(slashed(path@)) ==> (r matches Err(e) && e@ == "Work output name is unsafe"@),
{
    let v = chars_of(path);
    let mut out: Vec<char> = Vec::new();
    let mut i: usize = 0;
    while i < v.len()
        invariant
            v@ == path@,
            i <= v@.len(),
            out@ == slashed(path@).take(i as int),
        decreases v.len() - i,
    {
        let c = v[i];
        out.push(if c == '\\' { '/' } else { c });
        i = i + 1;
        assert(out@ =~= slashed(path@).take(i as int));
    }
    assert(out@ =~= slashed(path@));
    let name = string_of(out.as_slice());
    safe_relative(name.as_str())?;
    Ok(name)
}

/// The extension an output's file name carries, lowercased, if it has one: the text after the
/// last dot of the last path component, unless that dot begins the name.
pub open spec fn extension_of(path: Seq<char>) -> Option<Seq<char>> {
    let parts = split_on(path, '/');
    let file = parts.last();
    match last_dot(file) {
        Some(i) => if i == 0 || file == ".."@ {
            None
        } else {
            Some(crate::text::lower_text(file.subrange(i + 1, file.len() as int)))
        },
        None => None,
    }
}

/// The index of the last dot of a text, if any.
pub open spec fn last_dot(s: Seq<char>) -> Option<int>
    decreases s.len(),
{
    if s.len() == 0 {
        None
    } else if s.last() == '.' {
        Some(s.len() - 1)
    } else {
        last_dot(s.drop_last())
    }
}

/// The media type of an output by its extension.
pub open spec fn media_of(ext: Option<Seq<char>>) -> Seq<char> {
    match ext {
        Some(e) => if e == "png"@ {
            "image/png"@
        } else if e == "jpg"@ || e == "jpeg"@ {
            "image/jpeg"@
        } else if e == "gif"@ {
            "image/gif"@
        } else if e == "webp"@ {
            "image/webp"@
        } else if e == "svg"@ {
            "image/svg+xml"@
        } else if e == "pdf"@ {
            "application/pdf"@
        } else if e == "json"@ {
            "application/json"@
        } else if e == "csv"@ {
            "text/csv"@
        } else if e == "txt"@ {
            "text/plain"@
        } else if e == "md"@ {
            "text/markdown"@
        } else if e == "html"@ {
            "text/html"@
        } else if e == "zip"@ {
            "application/zip"@
        } else {
            "application/octet-stream"@
        },
        None => "application/octet-stream"@,
    }
}

proof fn lemma_last_dot(s: Seq<char>)
    ensures
        last_dot(s) matches Some(i) ==> 0 <= i < s.len() && s[i] == '.',
    decreases s.len(),
{
    if s.len() > 0 && s.last() != '.' {
        lemma_last_dot(s.drop_last());
    }
}

fn last_dot_of(v: &Vec<char>) -> (r: Option<usize>)
    ensures
        match r {
            Some(i) => last_dot(v@) == Some(i as int),
            None => last_dot(v@) is None,
        },
{
    let mut i: usize = v.len();
    proof {
        assert(v@.take(v@.len() as int) =~= v@);
    }
    while i > 0
        invariant
            i <= v@.len(),
            last_dot(v@) == last_dot(v@.take(i as int)),
        decreases i,
    {
        proof {
            assert(v@.take(i as int).last() == v@[i - 1]);
            assert(v@.take(i as int).drop_last() =~= v@.take(i - 1));
        }
        if v[i - 1] == '.' {
            return Some(i - 1);
        }
        i = i - 1;
    }
    None
}

/// Mime names the media type a receipt records for one relative output path.
pub fn mime(path: &str) -> (r: String)
    ensures
        r@ == media_of(extension_of(path@)),
{
    let parts = split_text(path, '/');
    proof {
        lemma_split_nonempty(path@, '/');
        reveal_strlit("..");
    }
    let ghost all = texts_of(parts@);
    let file = parts[parts.len() - 1].as_str();
    assert(file@ == all.last());
    let fv = chars_of(file);
    proof {
        lemma_last_dot(fv@);
    }
    let ext: Option<String> = match last_dot_of(&fv) {
        Some(i) => if i == 0 || same_text(file, "..") {
            None
        } else {
            let tail = crate::text::slice_text(&fv, i + 1, fv.len());
            Some(string_of(crate::text::lower_chars(tail.as_str()).as_slice()))
        },
        None => None,
    };
    let table: Vec<(&str, &str)> = vec![
        ("png", "image/png"),
        ("jpg", "image/jpeg"),
        ("jpeg", "image/jpeg"),
        ("gif", "image/gif"),
        ("webp", "image/webp"),
        ("svg", "image/svg+xml"),
        ("pdf", "application/pdf"),
        ("json", "application/json"),
        ("csv", "text/csv"),
        ("txt", "text/plain"),
        ("md", "text/markdown"),
        ("html", "text/html"),
        ("zip", "application/zip"),
    ];
    let e = match ext {
        Some(e) => e,
        None => return "application/octet-stream".to_owned(),
    };
    assert(extension_of(path@) == Some(e@));
    let mut i: usize = 0;
    while i < table.len()
        invariant
            table@.len() == 13,
            i <= 13,
            extension_of(path@) == Some(e@),
            table@[0].0@ == "png"@ && table@[0].1@ == "image/png"@,
            table@[1].0@ == "jpg"@ && table@[1].1@ == "image/jpeg"@,
            table@[2].0@ == "jpeg"@ && table@[2].1@ == "image/jpeg"@,
            table@[3].0@ == "gif"@ && table@[3].1@ == "image/gif"@,
            table@[4].0@ == "webp"@ && table@[4].1@ == "image/webp"@,
            table@[5].0@ == "svg"@ && table@[5].1@ == "image/svg+xml"@,
            table@[6].0@ == "pdf"@ && table@[6].1@ == "application/pdf"@,
            table@[7].0@ == "json"@ && table@[7].1@ == "application/json"@,
            table@[8].0@ == "csv"@ && table@[8].1@ == "text/csv"@,
            table@[9].0@ == "txt"@ && table@[9].1@ == "text/plain"@,
            table@[10].0@ == "md"@ && table@[10].1@ == "text/markdown"@,
            table@[11].0@ == "html"@ && table@[11].1@ == "text/html"@,
            table@[12].0@ == "zip"@ && table@[12].1@ == "application/zip"@,
            forall|k: int| 0 <= k < i ==> (#[trigger] table@[k]).0@ != e@,
        decreases 13 - i,
    {
        if same_text(table[i].0, e.as_str()) {
            return table[i].1.to_owned();
        }
        i = i + 1;
    }
    "application/octet-stream".to_owned()
}

/// One frozen output as its delivery manifest records it.
pub struct Receipt {
    pub work_id: String,
    pub name: String,
    pub sha256: String,
    pub bytes: u64,
    pub format: String,
    pub width: Option<u32>,
    pub height: Option<u32>,
}

/// `name` beneath `root`, as a path join writes it.
pub open spec fn joined_path(root: Seq<char>, name: Seq<char>) -> Seq<char> {
    if root.len() == 0 || root.last() == '/' {
        root + name
    } else {
        root + "/"@ + name
    }
}

pub(crate) fn join_path(root: &str, name: &str) -> (r: String)
    ensures
        r@ == joined_path(root@, name@),
{
    let v = chars_of(root);
    let mut out: Vec<char> = Vec::new();
    crate::text::push_text(&mut out, root);
    if v.len() != 0 && v[v.len() - 1] != '/' {
        crate::text::push_text(&mut out, "/");
    }
    crate::text::push_text(&mut out, name);
    string_of(out.as_slice())
}

/// The first reason receipt `i` cannot be trusted, if any: it names another Work or repeats an
/// earlier name, its name could leave the root, its file could not be read, or its bytes changed.
pub open spec fn receipt_fault(
    work_id: Seq<char>,
    receipts: Seq<Receipt>,
    found: Seq<Result<(u64, String), String>>,
    i: int,
) -> Option<Seq<char>> {
    let r = receipts[i];
    if r.work_id@ != work_id || exists|k: int| 0 <= k < i && #[trigger] receipts[k].name@ == r.name@ {
        Some("Frozen delivery ownership is invalid"@)
    } else if !safe_name(r.name@) {
        Some("Work output name is unsafe"@)
    } else {
        match found[i] {
            Err(e) => Some(e@),
            Ok((bytes, sha256)) => if bytes != r.bytes || sha256@ != r.sha256@ {
                Some("Frozen delivery bytes changed"@)
            } else {
                None
            },
        }
    }
}

/// Whether `f` is the fact receipt `r` proves beneath `root`.
pub open spec fn fact_of(f: crate::evidence::ArtifactFact, r: Receipt, root: Seq<char>) -> bool {
    &&& f.work_id == r.work_id
    &&& f.name == r.name
    &&& f.title@ == Seq::<char>::empty()
    &&& f.tags@.len() == 0
    &&& f.sha256 == r.sha256
    &&& f.bytes == r.bytes
    &&& f.format == r.format
    &&& f.width == r.width
    &&& f.height == r.height
    &&& f.freeze_root@ == root
    &&& f.frozen_path@ == joined_path(root, r.name@)
}

fn name_seen(facts: &Vec<crate::evidence::ArtifactFact>, name: &str) -> (r: bool)
    ensures
        r == exists|j: int| 0 <= j < facts@.len() && (#[trigger] facts@[j]).name@ == name@,
{
    let mut k: usize = 0;
    while k < facts.len()
        invariant
            k <= facts@.len(),
            forall|j: int| 0 <= j < k ==> (#[trigger] facts@[j]).name@ != name@,
        decreases facts.len() - k,
    {
        if same_text(facts[k].name.as_str(), name) {
            return true;
        }
        k = k + 1;
    }
    false
}

/// ReceiptFacts turns a delivery manifest into the facts a completion delivers, refusing at the
/// first receipt that cannot be trusted. `found[i]` is what reading the `i`th receipt's file
/// beneath `freeze_root` gave: its length and digest, or why it could not be read.
pub fn receipt_facts(
    work_id: &str,
    freeze_root: &str,
    receipts: Vec<Receipt>,
    found: Vec<Result<(u64, String), String>>,
) -> (r: Result<Vec<crate::evidence::ArtifactFact>, String>)
    requires
        found@.len() == receipts@.len(),
    ensures
        is_blank_spec(work_id@) || has_control_spec(work_id@) ==> (r matches Err(e) && e@
            == "Work identity is invalid"@),
        !(is_blank_spec(work_id@) || has_control_spec(work_id@)) ==> match r {
            Ok(facts) => facts@.len() == receipts@.len() && (forall|i: int|
                0 <= i < receipts@.len() ==> receipt_fault(work_id@, receipts@, found@, i) is None
                    && fact_of(#[trigger] facts@[i], receipts@[i], freeze_root@)),
            Err(e) => exists|i: int|
                0 <= i < receipts@.len() && (forall|k: int|
                    0 <= k < i ==> #[trigger] receipt_fault(work_id@, receipts@, found@, k) is None)
                    && receipt_fault(work_id@, receipts@, found@, i) == Some(e@),
        },
{
    valid_work(work_id)?;
    let ghost rs = receipts@;
    let ghost fs = found@;
    let n = receipts.len();
    let mut facts: Vec<crate::evidence::ArtifactFact> = Vec::new();
    let mut rest = receipts;
    let mut results = found;
    assert(rest@ =~= rs.skip(0));
    assert(results@ =~= fs.skip(0));
    let mut i: usize = 0;
    while i < n
        invariant
            n == rs.len(),
            fs.len() == rs.len(),
            rs == receipts@,
            fs == found@,
            !(is_blank_spec(work_id@) || has_control_spec(work_id@)),
            i <= n,
            rest@ == rs.skip(i as int),
            results@ == fs.skip(i as int),
            facts@.len() == i,
            forall|k: int|
                0 <= k < i ==> receipt_fault(work_id@, rs, fs, k) is None && fact_of(
                    #[trigger] facts@[k],
                    rs[k],
                    freeze_root@,
                ),
        decreases n - i,
    {
        let receipt = rest.remove(0);
        let result = results.remove(0);
        assert(receipt == rs[i as int]);
        assert(result == fs[i as int]);
        let seen = name_seen(&facts, receipt.name.as_str());
        proof {
            if seen {
                let j = choose|j: int| 0 <= j < facts@.len() && (#[trigger] facts@[j]).name@ == receipt.name@;
                assert(fact_of(facts@[j], rs[j], freeze_root@));
                assert(rs[j].name@ == receipt.name@);
            } else {
                assert forall|j: int| 0 <= j < i implies #[trigger] rs[j].name@ != receipt.name@ by {
                    assert(fact_of(facts@[j], rs[j], freeze_root@));
                }
            }
        }
        proof {
            assert forall|k: int| 0 <= k < i implies #[trigger] receipt_fault(work_id@, rs, fs, k)
                is None by {
                assert(fact_of(facts@[k], rs[k], freeze_root@));
            }
        }
        if !same_text(receipt.work_id.as_str(), work_id) || seen {
            assert(receipt_fault(work_id@, rs, fs, i as int) == Some("Frozen delivery ownership is invalid"@));
            return Err("Frozen delivery ownership is invalid".to_string());
        }
        let relative = match safe_relative(receipt.name.as_str()) {
            Ok(p) => p,
            Err(e) => {
                assert(receipt_fault(work_id@, rs, fs, i as int) == Some(e@));
                return Err(e);
            },
        };
        let (bytes, sha256) = match result {
            Ok(d) => d,
            Err(e) => {
                assert(receipt_fault(work_id@, rs, fs, i as int) == Some(e@));
                return Err(e);
            },
        };
        if bytes != receipt.bytes || !same_text(sha256.as_str(), receipt.sha256.as_str()) {
            assert(receipt_fault(work_id@, rs, fs, i as int) == Some("Frozen delivery bytes changed"@));
            return Err("Frozen delivery bytes changed".to_string());
        }
        let frozen_path = join_path(freeze_root, relative.as_str());
        let fact = crate::evidence::ArtifactFact {
            work_id: receipt.work_id,
            name: receipt.name,
            title: String::new(),
            tags: Vec::new(),
            sha256: receipt.sha256,
            bytes: receipt.bytes,
            format: receipt.format,
            width: receipt.width,
            height: receipt.height,
            freeze_root: freeze_root.to_string(),
            frozen_path,
        };
        facts.push(fact);
        assert(rest@ =~= rs.skip(i + 1));
        assert(results@ =~= fs.skip(i + 1));
        i = i + 1;
    }
    proof {
        assert forall|k: int| 0 <= k < receipts@.len() implies receipt_fault(work_id@, receipts@, found@, k)
            is None && fact_of(#[trigger] facts@[k], receipts@[k], freeze_root@) by {
            assert(fact_of(facts@[k], rs[k], freeze_root@));
        }
    }
    proof {
        assert forall|k: int| 0 <= k < receipts@.len() implies #[trigger] receipt_fault(
            work_id@,
            receipts@,
            found@,
            k,
        ) is None by {
            assert(fact_of(facts@[k], rs[k], freeze_root@));
        }
    }
    Ok(facts)
}

} // verus!
