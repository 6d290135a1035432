//! Client update planning: which manifest paths are safe to write, which
//! local files differ from the manifest, and the checks on downloaded files.
//!
//! Downloads, file reads and renames stay with the application; this module
//! decides on the values they give.

use vstd::prelude::*;
use sha2::Digest;
use crate::broker::hex_byte_text;
use crate::launcher::texts;
use crate::text::{lemma_split_on_extends, lemma_split_prefix_step, push_str, split_on, split_prefix};

verus! {

#[derive(Debug, Clone)]
pub struct UpdateManifest {
    pub version: String,
    pub released: String,
    pub notes: String,
    pub base_url: String,
    pub files: Vec<ManifestFile>,
}

#[derive(Debug, Clone)]
pub struct ManifestFile {
    pub path: String,
    pub size: u64,
    pub sha256: String,
}

/// The result of an update check.
#[derive(Debug, Clone)]
pub struct UpdateCheck {
    /// Version of the remote manifest.
    pub remote_version: String,
    /// Version of the local GGO CE build, if detected.
    pub local_version: Option<String>,
    /// The files to download, with why.
    pub changed: Vec<ChangedFile>,
    /// Total bytes to download.
    pub total_bytes: u64,
    /// The manifest, kept for applying.
    pub manifest: UpdateManifest,
}

#[derive(Debug, Clone)]
pub struct ChangedFile {
    pub path: String,
    pub size: u64,
    pub reason: ChangeReason,
}

#[derive(Debug, Clone, Copy, PartialEq, Eq, Structural)]
pub enum ChangeReason {
    Missing,
    SizeMismatch,
    HashMismatch,
}

/// A manifest path made safe: its segments, to be joined under the client
/// folder, and the same segments joined by `/` for the download URL.
#[derive(Debug, Clone)]
pub struct SafeManifestPath {
    pub segments: Vec<String>,
    pub url_path: String,
}

/// Characters allowed in a manifest path segment.
pub open spec fn is_safe_path_char(c: char) -> bool {
    ('a' <= c <= 'z') || ('A' <= c <= 'Z') || ('0' <= c <= '9') || c == '-' || c == '_' || c == '.'
}

pub fn is_safe_manifest_path_char(c: char) -> (b: bool)
    ensures
        b == is_safe_path_char(c),
{
    ('a' <= c && c <= 'z') || ('A' <= c && c <= 'Z') || ('0' <= c && c <= '9') || c == '-' || c
        == '_' || c == '.'
}

/// Whether every character of a segment is allowed.
pub open spec fn all_safe_chars(g: Seq<char>) -> bool {
    forall|i: int| 0 <= i < g.len() ==> is_safe_path_char(#[trigger] g[i])
}

/// A path with backslashes turned into slashes.
pub open spec fn normalized(s: Seq<char>) -> Seq<char> {
    s.map_values(|c: char| if c == '\\' { '/' } else { c })
}

/// A segment that is skipped: `.`.
pub open spec fn skipped_segment(g: Seq<char>) -> bool {
    g == "."@
}

/// What is wrong with a segment, if anything (`raw` is the whole path, for
/// the message).
pub open spec fn segment_error(g: Seq<char>, raw: Seq<char>) -> Option<Seq<char>> {
    if g.len() == 0 {
        Some("manifest path 빈 세그먼트 금지: "@ + raw)
    } else if skipped_segment(g) {
        None
    } else if g == ".."@ {
        Some("manifest path '..' 금지: "@ + raw)
    } else if g.len() == 2 && g[1] == ':' && (g[0] as int) < 128 {
        Some("manifest path drive prefix 금지: "@ + raw)
    } else if !all_safe_chars(g) {
        Some("manifest path 허용되지 않는 문자: "@ + raw)
    } else {
        None
    }
}

/// The first segment error among the first `n` segments.
pub open spec fn first_segment_error(segs: Seq<Seq<char>>, raw: Seq<char>, n: int) -> Option<Seq<char>>
    decreases n,
{
    if n <= 0 {
        None
    } else {
        match first_segment_error(segs, raw, n - 1) {
            Some(e) => Some(e),
            None => segment_error(segs[n - 1], raw),
        }
    }
}

/// Texts joined with `/`.
pub open spec fn join_slash(parts: Seq<Seq<char>>) -> Seq<char>
    decreases parts.len(),
{
    if parts.len() == 0 {
        Seq::empty()
    } else if parts.len() == 1 {
        parts[0]
    } else {
        join_slash(parts.drop_last()) + "/"@ + parts.last()
    }
}

pub open spec fn is_ascii_letter(c: char) -> bool {
    ('a' <= c <= 'z') || ('A' <= c <= 'Z')
}

/// The safe segments of a manifest path (`.` segments dropped), or why it
/// is refused: empty, absolute, with a drive or other prefix, with an empty
/// segment, with `..`, with a character
/// outside letters, digits, `-`, `_` and `.`, or with no segment left.
pub open spec fn sanitized(raw: Seq<char>) -> Result<Seq<Seq<char>>, Seq<char>> {
    let n = normalized(raw);
    let segs = split_on(n, '/');
    let kept = segs.filter(|g: Seq<char>| !skipped_segment(g));
    if raw.len() == 0 {
        Err("manifest path가 비어있음"@)
    } else if n[0] == '/' {
        Err("manifest path 절대경로 금지: "@ + raw)
    } else if n.len() >= 2 && is_ascii_letter(n[0]) && n[1] == ':' {
        Err("manifest path root/prefix 금지: "@ + raw)
    } else {
        match first_segment_error(segs, raw, segs.len() as int) {
            Some(e) => Err(e),
            None => if kept.len() == 0 {
                Err("manifest path 유효 세그먼트 없음: "@ + raw)
            } else {
                Ok(kept)
            },
        }
    }
}

proof fn lemma_no_segment_error(segs: Seq<Seq<char>>, raw: Seq<char>, n: int, i: int)
    requires
        first_segment_error(segs, raw, n) is None,
        0 <= i < n,
    ensures
        segment_error(segs[i], raw) is None,
    decreases n,
{
    if i < n - 1 {
        lemma_no_segment_error(segs, raw, n - 1, i);
    }
}

/// Every segment of an accepted manifest path is a plain name: not empty,
/// not `.` or `..`, and made only of letters, digits, `-`, `_` and `.`; so
/// the path, joined under the client folder, stays inside it.
pub proof fn lemma_sanitized_segments_are_safe(raw: Seq<char>)
    ensures
        sanitized(raw) matches Ok(segs) ==> {
            &&& segs.len() > 0
            &&& forall|k: int|
                0 <= k < segs.len() ==> {
                    &&& (#[trigger] segs[k]).len() > 0
                    &&& segs[k] != "."@
                    &&& segs[k] != ".."@
                    &&& all_safe_chars(segs[k])
                    &&& forall|i: int|
                        0 <= i < segs[k].len() ==> {
                            let c = #[trigger] segs[k][i];
                            ('a' <= c <= 'z') || ('A' <= c <= 'Z') || ('0' <= c <= '9') || c == '-' || c
                                == '_' || c == '.'
                        }
                }
        },
{
    if let Ok(kept) = sanitized(raw) {
        let n = normalized(raw);
        let segs = split_on(n, '/');
        let pred = |g: Seq<char>| !skipped_segment(g);
        assert(kept == segs.filter(pred));
        assert forall|k: int| 0 <= k < kept.len() implies {
            &&& (#[trigger] kept[k]).len() > 0
            &&& kept[k] != "."@
            &&& kept[k] != ".."@
            &&& all_safe_chars(kept[k])
        } by {
            let g = kept[k];
            segs.lemma_filter_pred(pred, k);
            assert(kept.contains(g));
            segs.lemma_filter_contains_rev(pred, g);
            let j = choose|j: int| 0 <= j < segs.len() && segs[j] == g;
            lemma_no_segment_error(segs, raw, segs.len() as int, j);
            assert forall|i: int| 0 <= i < g.len() implies is_safe_path_char(#[trigger] g[i]) by {}
        }
    }
}

fn error_with(prefix: &str, raw: &str) -> (r: String)
    ensures
        r@ == prefix@ + raw@,
{
    let mut e = String::from_str(prefix);
    push_str(&mut e, raw);
    e
}

fn check_segment(g: &String, raw: &str) -> (r: Result<bool, String>)
    ensures
        match segment_error(g@, raw@) {
            Some(e) => r matches Err(x) && x@ == e,
            None => r == Ok::<bool, String>(!skipped_segment(g@)),
        },
{
    proof {
        reveal_strlit(".");
        reveal_strlit("..");
    }
    let s = g.as_str();
    let n = s.unicode_len();
    if n == 0 {
        return Err(error_with("manifest path 빈 세그먼트 금지: ", raw));
    }
    if crate::text::str_eq(s, ".") {
        return Ok(false);
    }
    if crate::text::str_eq(s, "..") {
        return Err(error_with("manifest path '..' 금지: ", raw));
    }
    if n == 2 && s.get_char(1) == ':' && (s.get_char(0) as u32) < 128 {
        return Err(error_with("manifest path drive prefix 금지: ", raw));
    }
    let mut i: usize = 0;
    while i < n
        invariant
            n == g@.len(),
            s@ == g@,
            i <= n,
            !skipped_segment(g@),
            g@ != ".."@,
            !(g@.len() == 2 && g@[1] == ':' && (g@[0] as int) < 128),
            forall|j: int| 0 <= j < i ==> is_safe_path_char(#[trigger] g@[j]),
        decreases n - i,
    {
        if !is_safe_manifest_path_char(s.get_char(i)) {
            assert(!is_safe_path_char(g@[i as int]));
            assert(!all_safe_chars(g@));
            return Err(error_with("manifest path 허용되지 않는 문자: ", raw));
        }
        i = i + 1;
    }
    Ok(true)
}

/// Makes a manifest path safe to join under the client folder.
pub fn sanitize_manifest_path(raw: &str) -> (r: Result<SafeManifestPath, String>)
    ensures
        match sanitized(raw@) {
            Ok(segs) => r matches Ok(p) && texts(p.segments@) == segs && p.url_path@ == join_slash(segs),
            Err(e) => r matches Err(x) && x@ == e,
        },
{
    let n = raw.unicode_len();
    if n == 0 {
        return Err(String::from_str("manifest path가 비어있음"));
    }
    let ghost norm = normalized(raw@);
    let c0 = raw.get_char(0);
    if c0 == '/' || c0 == '\\' {
        return Err(error_with("manifest path 절대경로 금지: ", raw));
    }
    if n >= 2 && raw.get_char(1) == ':' && (('a' <= c0 && c0 <= 'z') || ('A' <= c0 && c0 <= 'Z')) {
        return Err(error_with("manifest path root/prefix 금지: ", raw));
    }
    let ghost pred = |g: Seq<char>| !skipped_segment(g);
    let mut kept: Vec<String> = Vec::new();
    let mut current = String::new();
    let mut i: usize = 0;
    assert(Seq::<Seq<char>>::empty().filter(pred) =~= Seq::<Seq<char>>::empty()) by {
        reveal(Seq::filter);
    }
    assert(norm[0] == (if raw@[0] == '\\' { '/' } else { raw@[0] }));
    assert(n >= 2 ==> norm[1] == (if raw@[1] == '\\' { '/' } else { raw@[1] }));
    while i < n
        invariant
            n == raw@.len(),
            norm == normalized(raw@),
            n > 0,
            norm[0] != '/',
            !(norm.len() >= 2 && is_ascii_letter(norm[0]) && norm[1] == ':'),
            i <= n,
            current@ == split_prefix(norm, '/', i as int).1,
            texts(kept@) == split_prefix(norm, '/', i as int).0.filter(pred),
            first_segment_error(split_prefix(norm, '/', i as int).0, raw@, split_prefix(norm, '/', i as int).0.len() as int) is None,
            forall|g: Seq<char>| #[trigger] pred(g) == !skipped_segment(g),
        decreases n - i,
    {
        let c0 = raw.get_char(i);
        let c = if c0 == '\\' {
            '/'
        } else {
            c0
        };
        assert(c == norm[i as int]);
        let ghost ps = split_prefix(norm, '/', i as int).0;
        let ghost cur = split_prefix(norm, '/', i as int).1;
        proof {
            lemma_split_prefix_step(norm, '/', i as int);
        }
        if c == '/' {
            let ghost before = texts(kept@);
            let ghost segs1 = ps.push(cur);
            proof {
                lemma_first_error_prefix(segs1, ps, raw@, ps.len() as int);
                assert(split_prefix(norm, '/', i as int + 1).0 == segs1);
                lemma_split_on_extends(norm, '/', i as int + 1);
                lemma_first_error_prefix(split_on(norm, '/'), segs1, raw@, ps.len() as int + 1);
            }
            match check_segment(&current, raw) {
                Err(e) => {
                    proof {
                        lemma_first_error_extends(split_on(norm, '/'), raw@, ps.len() as int + 1);
                    }
                    return Err(e);
                },
                Ok(keep) => {
                    proof {
                        lemma_filter_push(ps, cur, pred);
                    }
                    let seg = current;
                    current = String::new();
                    if keep {
                        kept.push(seg);
                        assert(texts(kept@) =~= before.push(seg@));
                    }
                },
            }
        } else {
            current.push(c);
        }
        i = i + 1;
    }
    let ghost ps = split_prefix(norm, '/', n as int).0;
    let ghost cur = split_prefix(norm, '/', n as int).1;
    let ghost before = texts(kept@);
    let ghost full = ps.push(cur);
    assert(split_on(norm, '/') == full);
    proof {
        lemma_first_error_prefix(full, ps, raw@, ps.len() as int);
    }
    match check_segment(&current, raw) {
        Err(e) => {
            return Err(e);
        },
        Ok(keep) => {
            proof {
                lemma_filter_push(ps, cur, pred);
            }
            if keep {
                kept.push(current);
                assert(texts(kept@) =~= before.push(cur));
            }
        },
    }
    assert(pred =~= (|g: Seq<char>| !skipped_segment(g)));
    if kept.len() == 0 {
        return Err(error_with("manifest path 유효 세그먼트 없음: ", raw));
    }
    let mut url_path = String::new();
    let mut k: usize = 0;
    let ghost ts = texts(kept@);
    while k < kept.len()
        invariant
            ts == texts(kept@),
            k <= kept@.len(),
            url_path@ == join_slash(ts.take(k as int)),
        decreases kept@.len() - k,
    {
        if k > 0 {
            push_str(&mut url_path, "/");
        }
        push_str(&mut url_path, kept[k].as_str());
        proof {
            reveal_strlit("/");
            let t = ts.take(k as int + 1);
            assert(t.drop_last() =~= ts.take(k as int));
            assert(t.last() == kept@[k as int]@);
        }
        assert(url_path@ =~= join_slash(ts.take(k as int + 1)));
        k = k + 1;
    }
    assert(ts.take(kept@.len() as int) =~= ts);
    Ok(SafeManifestPath { segments: kept, url_path })
}

proof fn lemma_filter_push(ps: Seq<Seq<char>>, g: Seq<char>, pred: spec_fn(Seq<char>) -> bool)
    ensures
        ps.push(g).filter(pred) == (if pred(g) {
            ps.filter(pred).push(g)
        } else {
            ps.filter(pred)
        }),
{
    reveal(Seq::filter);
    assert(ps.push(g).drop_last() =~= ps);
}

proof fn lemma_first_error_extends(segs: Seq<Seq<char>>, raw: Seq<char>, n: int)
    requires
        0 < n <= segs.len(),
        first_segment_error(segs, raw, n) is Some,
    ensures
        first_segment_error(segs, raw, segs.len() as int) == first_segment_error(segs, raw, n),
    decreases segs.len() - n,
{
    if n < segs.len() {
        lemma_first_error_extends_step(segs, raw, n, segs.len() as int);
    }
}

proof fn lemma_first_error_extends_step(segs: Seq<Seq<char>>, raw: Seq<char>, n: int, m: int)
    requires
        0 < n <= m <= segs.len(),
        first_segment_error(segs, raw, n) is Some,
    ensures
        first_segment_error(segs, raw, m) == first_segment_error(segs, raw, n),
    decreases m - n,
{
    if m > n {
        lemma_first_error_extends_step(segs, raw, n, m - 1);
    }
}

proof fn lemma_first_error_prefix(a: Seq<Seq<char>>, b: Seq<Seq<char>>, raw: Seq<char>, n: int)
    requires
        0 <= n <= a.len(),
        n <= b.len(),
        forall|j: int| 0 <= j < n ==> a[j] == b[j],
    ensures
        first_segment_error(a, raw, n) == first_segment_error(b, raw, n),
    decreases n,
{
    if n > 0 {
        lemma_first_error_prefix(a, b, raw, n - 1);
    }
}


/// The SHA-256 digest of some bytes.
pub uninterp spec fn sha256_of(bytes: Seq<u8>) -> Seq<u8>;

/// Calls `sha2::Sha256::digest`; the contract claims that the digest is a
/// function of the bytes alone and is 32 bytes long, as SHA-256 is.
#[verifier::external_body]
fn sha256_digest(bytes: &[u8]) -> (d: Vec<u8>)
    ensures
        d@ == sha256_of(bytes@),
        d@.len() == 32,
{
    sha2::Sha256::digest(bytes).to_vec()
}

/// The SHA-256 of some bytes as lower-case hex, as `{:x}` renders a digest.
pub fn sha256_hex(bytes: &[u8]) -> (s: String)
    ensures
        s@ == hex_byte_text(sha256_of(bytes@)),
        s@.len() == 64,
{
    let d = sha256_digest(bytes);
    crate::broker::hex_encode(d.as_slice())
}

/// A character with ASCII upper-case letters lowered.
pub open spec fn ascii_lower(c: char) -> char {
    if 'A' <= c <= 'Z' {
        ((c as u32) + 32) as char
    } else {
        c
    }
}

/// Equality ignoring ASCII case, as `str::eq_ignore_ascii_case` compares.
pub open spec fn eq_ignore_ascii_case(a: Seq<char>, b: Seq<char>) -> bool {
    a.len() == b.len() && forall|i: int| 0 <= i < a.len() ==> ascii_lower(#[trigger] a[i]) == ascii_lower(b[i])
}

fn lower_char(c: char) -> (r: char)
    ensures
        r == ascii_lower(c),
{
    if 'A' <= c && c <= 'Z' {
        ((c as u8) + 32) as char
    } else {
        c
    }
}

/// Compares two hash texts ignoring ASCII case.
pub fn hash_text_matches(a: &str, b: &str) -> (r: bool)
    ensures
        r == eq_ignore_ascii_case(a@, b@),
{
    let n = a.unicode_len();
    if n != b.unicode_len() {
        return false;
    }
    let mut i: usize = 0;
    while i < n
        invariant
            n == a@.len(),
            n == b@.len(),
            i <= n,
            forall|j: int| 0 <= j < i ==> ascii_lower(#[trigger] a@[j]) == ascii_lower(b@[j]),
        decreases n - i,
    {
        if lower_char(a.get_char(i)) != lower_char(b.get_char(i)) {
            return false;
        }
        i = i + 1;
    }
    true
}

/// Why a local file must be downloaded, if it must: it is missing, its
/// size differs, or its SHA-256 differs from the manifest's.
pub open spec fn change_reason(
    exists: bool,
    len: Result<u64, String>,
    contents: Result<Seq<u8>, String>,
    m: ManifestFile,
) -> Result<Option<ChangeReason>, Seq<char>> {
    if !exists {
        Ok(Some(ChangeReason::Missing))
    } else {
        match len {
            Err(e) => Err(e@),
            Ok(l) => if l != m.size {
                Ok(Some(ChangeReason::SizeMismatch))
            } else {
                match contents {
                    Err(e) => Err(e@),
                    Ok(bytes) => if !eq_ignore_ascii_case(hex_byte_text(sha256_of(bytes)), m.sha256@) {
                        Ok(Some(ChangeReason::HashMismatch))
                    } else {
                        Ok(None)
                    },
                }
            },
        }
    }
}

/// Checks one local file against its manifest entry, from whether it
/// exists, its length and its contents (each as reading them gave).
pub fn check_file(
    exists: bool,
    len: Result<u64, String>,
    contents: Result<Vec<u8>, String>,
    m: &ManifestFile,
) -> (r: Result<Option<ChangeReason>, String>)
    ensures
        match change_reason(
            exists,
            len,
            match contents {
                Ok(v) => Ok(v@),
                Err(e) => Err(e),
            },
            *m,
        ) {
            Ok(reason) => r == Ok::<Option<ChangeReason>, String>(reason),
            Err(e) => r matches Err(x) && x@ == e,
        },
{
    if !exists {
        return Ok(Some(ChangeReason::Missing));
    }
    let l = match len {
        Err(e) => {
            return Err(e);
        },
        Ok(l) => l,
    };
    if l != m.size {
        return Ok(Some(ChangeReason::SizeMismatch));
    }
    let bytes = match contents {
        Err(e) => {
            return Err(e);
        },
        Ok(b) => b,
    };
    let hash = sha256_hex(bytes.as_slice());
    if !hash_text_matches(hash.as_str(), m.sha256.as_str()) {
        return Ok(Some(ChangeReason::HashMismatch));
    }
    Ok(None)
}

/// Total size of the files.
pub open spec fn total_size(files: Seq<ManifestFile>) -> nat
    decreases files.len(),
{
    if files.len() == 0 {
        0
    } else {
        total_size(files.drop_last()) + files.last().size as nat
    }
}

/// The files to download: those with a change reason, in manifest order;
/// a file that could not be checked counts as missing.
pub open spec fn changes_of(files: Seq<ManifestFile>, outcomes: Seq<Result<Option<ChangeReason>, String>>) -> Seq<
    (Seq<char>, u64, ChangeReason),
>
    decreases files.len(),
{
    if files.len() == 0 || outcomes.len() != files.len() {
        Seq::empty()
    } else {
        let prev = changes_of(files.drop_last(), outcomes.drop_last());
        let f = files.last();
        match outcomes.last() {
            Ok(None) => prev,
            Ok(Some(reason)) => prev.push((f.path@, f.size, reason)),
            Err(_) => prev.push((f.path@, f.size, ChangeReason::Missing)),
        }
    }
}

/// The sum of the sizes of a change list.
pub open spec fn changes_size(cs: Seq<(Seq<char>, u64, ChangeReason)>) -> nat
    decreases cs.len(),
{
    if cs.len() == 0 {
        0
    } else {
        changes_size(cs.drop_last()) + cs.last().1 as nat
    }
}

/// A changed file as the check reports it.
pub open spec fn changed_view(c: ChangedFile) -> (Seq<char>, u64, ChangeReason) {
    (c.path@, c.size, c.reason)
}

proof fn lemma_changes_size_prefix(
    files: Seq<ManifestFile>,
    outcomes: Seq<Result<Option<ChangeReason>, String>>,
    n: int,
)
    requires
        outcomes.len() == files.len(),
        0 <= n <= files.len(),
    ensures
        changes_size(changes_of(files.take(n), outcomes.take(n))) <= changes_size(changes_of(files, outcomes)),
    decreases files.len() - n,
{
    if n < files.len() {
        lemma_changes_size_prefix(files, outcomes, n + 1);
        let ft = files.take(n + 1);
        let ot = outcomes.take(n + 1);
        assert(ft.drop_last() =~= files.take(n));
        assert(ot.drop_last() =~= outcomes.take(n));
        let prev = changes_of(files.take(n), outcomes.take(n));
        let f = ft.last();
        match ot.last() {
            Ok(None) => {},
            Ok(Some(reason)) => {
                assert(prev.push((f.path@, f.size, reason)).drop_last() =~= prev);
            },
            Err(_) => {
                assert(prev.push((f.path@, f.size, ChangeReason::Missing)).drop_last() =~= prev);
            },
        }
    } else {
        assert(files.take(n) =~= files);
        assert(outcomes.take(n) =~= outcomes);
    }
}

/// The update check of a manifest, from the outcome of checking each of
/// its files (in order) and the local version. Every manifest path must be
/// safe.
pub fn plan_update_check(
    manifest: UpdateManifest,
    local_version: Option<String>,
    outcomes: &Vec<Result<Option<ChangeReason>, String>>,
) -> (r: Result<UpdateCheck, String>)
    requires
        outcomes@.len() == manifest.files@.len(),
        changes_size(changes_of(manifest.files@, outcomes@)) <= u64::MAX,
    ensures
        match r {
            Ok(c) => {
                &&& forall|i: int| 0 <= i < manifest.files@.len() ==> sanitized(#[trigger] manifest.files@[i].path@) is Ok
                &&& c.changed@.map_values(|x: ChangedFile| changed_view(x)) == changes_of(manifest.files@, outcomes@)
                &&& c.total_bytes == changes_size(changes_of(manifest.files@, outcomes@))
                &&& c.remote_version@ == manifest.version@
                &&& c.local_version == local_version
                &&& c.manifest.files@ == manifest.files@
            },
            Err(e) => exists|i: int|
                0 <= i < manifest.files@.len() && sanitized(#[trigger] manifest.files@[i].path@) == Err::<
                    Seq<Seq<char>>,
                    Seq<char>,
                >(e@) && forall|j: int| 0 <= j < i ==> sanitized(#[trigger] manifest.files@[j].path@) is Ok,
        },
{
    let ghost files = manifest.files@;
    let ghost outs = outcomes@;
    let mut changed: Vec<ChangedFile> = Vec::new();
    let mut total: u64 = 0;
    let mut i: usize = 0;
    while i < manifest.files.len()
        invariant
            files == manifest.files@,
            outs == outcomes@,
            outs.len() == files.len(),
            changes_size(changes_of(files, outs)) <= u64::MAX,
            i <= files.len(),
            forall|j: int| 0 <= j < i ==> sanitized(#[trigger] files[j].path@) is Ok,
            changed@.map_values(|x: ChangedFile| changed_view(x)) == changes_of(files.take(i as int), outs.take(i as int)),
            total == changes_size(changes_of(files.take(i as int), outs.take(i as int))),
        decreases files.len() - i,
    {
        let f = &manifest.files[i];
        match sanitize_manifest_path(f.path.as_str()) {
            Err(e) => {
                return Err(e);
            },
            Ok(_) => {},
        }
        let ghost ft = files.take(i as int + 1);
        let ghost ot = outs.take(i as int + 1);
        let ghost prev = changes_of(files.take(i as int), outs.take(i as int));
        proof {
            assert(ft.drop_last() =~= files.take(i as int));
            assert(ot.drop_last() =~= outs.take(i as int));
            assert(ft.last() == files[i as int]);
            assert(ot.last() == outs[i as int]);
            lemma_changes_size_prefix(files, outs, i as int + 1);
            match outs[i as int] {
                Ok(None) => {},
                Ok(Some(reason)) => {
                    assert(prev.push((files[i as int].path@, files[i as int].size, reason)).drop_last() =~= prev);
                },
                Err(_) => {
                    assert(prev.push((files[i as int].path@, files[i as int].size, ChangeReason::Missing)).drop_last()
                        =~= prev);
                },
            }
        }
        let ghost before = changed@.map_values(|x: ChangedFile| changed_view(x));
        match &outcomes[i] {
            Ok(None) => {},
            Ok(Some(reason)) => {
                total = total + f.size;
                changed.push(ChangedFile { path: f.path.clone(), size: f.size, reason: *reason });
                assert(changed@.map_values(|x: ChangedFile| changed_view(x)) =~= before.push((f.path@, f.size, *reason)));
            },
            Err(_) => {
                total = total + f.size;
                changed.push(ChangedFile { path: f.path.clone(), size: f.size, reason: ChangeReason::Missing });
                assert(changed@.map_values(|x: ChangedFile| changed_view(x)) =~= before.push(
                    (f.path@, f.size, ChangeReason::Missing),
                ));
            },
        }
        i = i + 1;
    }
    assert(files.take(files.len() as int) =~= files);
    assert(outs.take(outs.len() as int) =~= outs);
    let remote_version = manifest.version.clone();
    Ok(UpdateCheck { remote_version, local_version, changed, total_bytes: total, manifest })
}

proof fn lemma_total_size_prefix(files: Seq<ManifestFile>, n: int)
    requires
        0 <= n <= files.len(),
    ensures
        total_size(files.take(n)) <= total_size(files),
    decreases files.len() - n,
{
    if n < files.len() {
        lemma_total_size_prefix(files, n + 1);
        assert(files.take(n + 1).drop_last() =~= files.take(n));
    } else {
        assert(files.take(n) =~= files);
    }
}

/// The check for a new install: every file of the manifest is missing.
pub fn install_check(manifest: UpdateManifest) -> (r: Result<UpdateCheck, String>)
    requires
        total_size(manifest.files@) <= u64::MAX,
    ensures
        match r {
            Ok(c) => {
                &&& c.changed@.len() == manifest.files@.len()
                &&& forall|i: int|
                    0 <= i < manifest.files@.len() ==> changed_view(#[trigger] c.changed@[i]) == (
                        manifest.files@[i].path@,
                        manifest.files@[i].size,
                        ChangeReason::Missing,
                    )
                &&& c.total_bytes == total_size(manifest.files@)
                &&& c.remote_version@ == manifest.version@
                &&& c.local_version is None
            },
            Err(e) => exists|i: int|
                0 <= i < manifest.files@.len() && sanitized(#[trigger] manifest.files@[i].path@) == Err::<
                    Seq<Seq<char>>,
                    Seq<char>,
                >(e@),
        },
{
    let ghost files = manifest.files@;
    let mut changed: Vec<ChangedFile> = Vec::new();
    let mut total: u64 = 0;
    let mut i: usize = 0;
    while i < manifest.files.len()
        invariant
            files == manifest.files@,
            total_size(files) <= u64::MAX,
            i <= files.len(),
            changed@.len() == i,
            forall|j: int|
                0 <= j < i ==> changed_view(#[trigger] changed@[j]) == (files[j].path@, files[j].size, ChangeReason::Missing),
            total == total_size(files.take(i as int)),
        decreases files.len() - i,
    {
        let f = &manifest.files[i];
        match sanitize_manifest_path(f.path.as_str()) {
            Err(e) => {
                return Err(e);
            },
            Ok(_) => {},
        }
        proof {
            assert(files.take(i as int + 1).drop_last() =~= files.take(i as int));
            lemma_total_size_prefix(files, i as int + 1);
        }
        total = total + f.size;
        changed.push(ChangedFile { path: f.path.clone(), size: f.size, reason: ChangeReason::Missing });
        i = i + 1;
    }
    assert(files.take(files.len() as int) =~= files);
    let remote_version = manifest.version.clone();
    Ok(UpdateCheck { remote_version, local_version: None, changed, total_bytes: total, manifest })
}

/// The SHA-256 the manifest gives for a path: that of its first entry with
/// the path, or empty.
pub open spec fn expected_hash_of(files: Seq<ManifestFile>, path: Seq<char>) -> Seq<char>
    decreases files.len(),
{
    if files.len() == 0 {
        Seq::empty()
    } else if files[0].path@ == path {
        files[0].sha256@
    } else {
        expected_hash_of(files.drop_first(), path)
    }
}

pub fn expected_hash(files: &Vec<ManifestFile>, path: &str) -> (r: String)
    ensures
        r@ == expected_hash_of(files@, path@),
{
    let mut i: usize = 0;
    assert(files@.skip(0) =~= files@);
    while i < files.len()
        invariant
            i <= files@.len(),
            expected_hash_of(files@, path@) == expected_hash_of(files@.skip(i as int), path@),
        decreases files@.len() - i,
    {
        assert(files@.skip(i as int).drop_first() =~= files@.skip(i as int + 1));
        if crate::text::str_eq(files[i].path.as_str(), path) {
            return files[i].sha256.clone();
        }
        i = i + 1;
    }
    String::new()
}

/// Checks a downloaded file against the manifest: its SHA-256 must match
/// the manifest's for its path (ignoring case).
pub fn verify_download(files: &Vec<ManifestFile>, path: &str, contents: &[u8]) -> (r: Result<(), String>)
    ensures
        r is Ok <==> eq_ignore_ascii_case(hex_byte_text(sha256_of(contents@)), expected_hash_of(files@, path@)),
        r matches Err(e) ==> e@ == "해시 불일치: "@ + path@ + " (expected="@ + expected_hash_of(files@, path@)
            + ", got="@ + hex_byte_text(sha256_of(contents@)) + ")"@,
{
    let actual = sha256_hex(contents);
    let expected = expected_hash(files, path);
    if hash_text_matches(actual.as_str(), expected.as_str()) {
        Ok(())
    } else {
        let mut e = String::from_str("해시 불일치: ");
        push_str(&mut e, path);
        push_str(&mut e, " (expected=");
        push_str(&mut e, expected.as_str());
        push_str(&mut e, ", got=");
        push_str(&mut e, actual.as_str());
        push_str(&mut e, ")");
        proof {
            reveal_strlit("해시 불일치: ");
            reveal_strlit(" (expected=");
            reveal_strlit(", got=");
            reveal_strlit(")");
        }
        Err(e)
    }
}


/// What `reqwest::Url::parse` makes of a text: the URL's scheme, host and
/// path, or the text of the parse error.
pub uninterp spec fn parsed_url(raw: Seq<char>) -> Result<(Seq<char>, Option<Seq<char>>, Seq<char>), Seq<char>>;

/// The text of the URL parsed from `raw` after `Url::set_path(path)`, or
/// the text of the parse error.
pub uninterp spec fn url_with_path(raw: Seq<char>, path: Seq<char>) -> Result<Seq<char>, Seq<char>>;

/// The text of the URL that `Url::join` resolves `relative` to against the
/// URL parsed from `base`, or the text of the error.
pub uninterp spec fn joined_url(base: Seq<char>, relative: Seq<char>) -> Result<Seq<char>, Seq<char>>;

pub open spec fn opt_string_view(o: Option<String>) -> Option<Seq<char>> {
    match o {
        Some(s) => Some(s@),
        None => None,
    }
}

pub open spec fn url_parts_view(r: Result<(String, Option<String>, String), String>) -> Result<
    (Seq<char>, Option<Seq<char>>, Seq<char>),
    Seq<char>,
> {
    match r {
        Ok(p) => Ok((p.0@, opt_string_view(p.1), p.2@)),
        Err(e) => Err(e@),
    }
}

pub open spec fn text_result_view(r: Result<String, String>) -> Result<Seq<char>, Seq<char>> {
    match r {
        Ok(s) => Ok(s@),
        Err(e) => Err(e@),
    }
}

/// Parses a URL with `reqwest::Url::parse` (the url crate's parser) and
/// hands back its scheme, host and path as text. The contract only ties the
/// outcome to the text parsed, under the name `parsed_url`.
#[verifier::external_body]
pub(crate) fn parse_url_parts(raw: &str) -> (r: Result<(String, Option<String>, String), String>)
    ensures
        url_parts_view(r) == parsed_url(raw@),
{
    match reqwest::Url::parse(raw) {
        Ok(u) => Ok((u.scheme().to_string(), u.host_str().map(str::to_string), u.path().to_string())),
        Err(e) => Err(e.to_string()),
    }
}

/// Parses `raw` with `reqwest::Url::parse`, sets its path with
/// `Url::set_path` and hands back the URL's text. The contract only ties
/// the outcome to the two arguments, under the name `url_with_path`.
#[verifier::external_body]
fn set_url_path(raw: &str, path: &str) -> (r: Result<String, String>)
    ensures
        text_result_view(r) == url_with_path(raw@, path@),
{
    let mut url = reqwest::Url::parse(raw).map_err(|e| e.to_string())?;
    url.set_path(path);
    Ok(url.to_string())
}

/// Resolves `relative` with `reqwest::Url::join` against the URL parsed
/// from `base` and hands back the result's text. The contract only ties the
/// outcome to the two arguments, under the name `joined_url`.
#[verifier::external_body]
fn join_url(base: &str, relative: &str) -> (r: Result<String, String>)
    ensures
        text_result_view(r) == joined_url(base@, relative@),
{
    let url = reqwest::Url::parse(base).map_err(|e| e.to_string())?;
    url.join(relative).map(|u| u.to_string()).map_err(|e| e.to_string())
}

/// The checks on a parsed manifest base URL: it must be https and have a
/// host. Gives the path to set on it (its path with a `/` added) when its
/// path does not end with `/`.
pub open spec fn manifest_base_check(parts: Result<(Seq<char>, Option<Seq<char>>, Seq<char>), Seq<char>>) -> Result<
    Option<Seq<char>>,
    Seq<char>,
> {
    match parts {
        Err(e) => Err("manifest base_url 오류: "@ + e),
        Ok((scheme, host, path)) => if scheme != "https"@ {
            Err("manifest base_url은 https://여야 합니다"@)
        } else if host is None {
            Err("manifest base_url에는 host가 필요합니다"@)
        } else if path.len() > 0 && path.last() == '/' {
            Ok(None)
        } else {
            Ok(Some(path + "/"@))
        },
    }
}

/// The base a manifest file's path is resolved against: the base URL
/// itself, or the base URL with the path to set.
pub open spec fn manifest_base_text(base: Seq<char>, path: Option<Seq<char>>) -> Result<Seq<char>, Seq<char>> {
    match path {
        None => Ok(base),
        Some(p) => match url_with_path(base, p) {
            Ok(t) => Ok(t),
            Err(e) => Err("manifest base_url 오류: "@ + e),
        },
    }
}

/// The download URL of a manifest file under the base URL.
pub open spec fn manifest_file_url(base: Seq<char>, url_path: Seq<char>) -> Result<Seq<char>, Seq<char>> {
    match manifest_base_check(parsed_url(base)) {
        Err(e) => Err(e),
        Ok(path) => match manifest_base_text(base, path) {
            Err(e) => Err(e),
            Ok(b) => match joined_url(b, url_path) {
                Ok(s) => Ok(s),
                Err(e) => Err("manifest 파일 URL 조합 실패: "@ + e),
            },
        },
    }
}

/// Checks what parsing the manifest base URL gave; see `manifest_base_check`.
pub fn check_manifest_base(parts: Result<(String, Option<String>, String), String>) -> (r: Result<
    Option<String>,
    String,
>)
    ensures
        match manifest_base_check(url_parts_view(parts)) {
            Ok(None) => r matches Ok(None),
            Ok(Some(p)) => r matches Ok(Some(q)) && q@ == p,
            Err(e) => r matches Err(x) && x@ == e,
        },
{
    proof {
        reveal_strlit("https");
        reveal_strlit("/");
    }
    match parts {
        Err(e) => {
            let x = error_with("manifest base_url 오류: ", e.as_str());
            assert(x@ == "manifest base_url 오류: "@ + e@);
            Err(x)
        },
        Ok((scheme, host, path)) => {
            if !crate::text::str_eq(scheme.as_str(), "https") {
                return Err(String::from_str("manifest base_url은 https://여야 합니다"));
            }
            if host.is_none() {
                return Err(String::from_str("manifest base_url에는 host가 필요합니다"));
            }
            let n = path.as_str().unicode_len();
            if n > 0 && path.as_str().get_char(n - 1) == '/' {
                Ok(None)
            } else {
                let mut p = path;
                let ghost before = p@;
                p.push('/');
                assert(p@ =~= before + "/"@);
                Ok(Some(p))
            }
        },
    }
}

/// The download URL of a manifest file: the base URL must be https with a
/// host; a base path without a trailing `/` gets one before the file's path
/// is resolved against it.
pub fn build_manifest_file_url(base_url: &str, safe_path: &SafeManifestPath) -> (r: Result<String, String>)
    ensures
        text_result_view(r) == manifest_file_url(base_url@, safe_path.url_path@),
{
    let parts = parse_url_parts(base_url);
    let path = match check_manifest_base(parts) {
        Ok(p) => p,
        Err(e) => return Err(e),
    };
    let base = match path {
        None => String::from_str(base_url),
        Some(p) => match set_url_path(base_url, p.as_str()) {
            Ok(t) => t,
            Err(e) => return Err(error_with("manifest base_url 오류: ", e.as_str())),
        },
    };
    match join_url(base.as_str(), safe_path.url_path.as_str()) {
        Ok(s) => Ok(s),
        Err(e) => Err(error_with("manifest 파일 URL 조합 실패: ", e.as_str())),
    }
}

proof fn lemma_filter_keeps_all(s: Seq<Seq<char>>, pred: spec_fn(Seq<char>) -> bool)
    requires
        forall|j: int| 0 <= j < s.len() ==> pred(#[trigger] s[j]),
    ensures
        s.filter(pred) == s,
    decreases s.len(),
{
    if s.len() > 0 {
        let r = s.drop_last();
        lemma_filter_keeps_all(r, pred);
        r.lemma_filter_push(s.last(), pred);
        assert(r.push(s.last()) =~= s);
    }
}

proof fn lemma_segments_without_error(segs: Seq<Seq<char>>, raw: Seq<char>, n: int)
    requires
        0 <= n <= segs.len(),
        forall|j: int| 0 <= j < n ==> segment_error(#[trigger] segs[j], raw) is None,
    ensures
        first_segment_error(segs, raw, n) is None,
    decreases n,
{
    if n > 0 {
        lemma_segments_without_error(segs, raw, n - 1);
    }
}

/// A manifest path made of plain segments is accepted as it is: when its
/// `/`-separated segments are all non-empty, none is `.` or `..`, and they
/// hold only ASCII letters, digits, `-`, `_` and `.`, the path's segments are
/// exactly those segments, in order.
pub proof fn lemma_plain_manifest_path_is_accepted(raw: Seq<char>)
    requires
        raw.len() > 0,
        raw[0] != '/',
        forall|i: int|
            0 <= i < raw.len() ==> {
                let c = #[trigger] raw[i];
                c == '/' || ('a' <= c <= 'z') || ('A' <= c <= 'Z') || ('0' <= c <= '9') || c == '-' || c
                    == '_' || c == '.'
            },
        forall|j: int|
            0 <= j < split_on(raw, '/').len() ==> {
                let g = #[trigger] split_on(raw, '/')[j];
                &&& g.len() > 0
                &&& g != "."@
                &&& g != ".."@
                &&& forall|k: int|
                    0 <= k < g.len() ==> {
                        let c = #[trigger] g[k];
                        ('a' <= c <= 'z') || ('A' <= c <= 'Z') || ('0' <= c <= '9') || c == '-' || c == '_'
                            || c == '.'
                    }
            },
    ensures
        sanitized(raw) == Ok::<Seq<Seq<char>>, Seq<char>>(split_on(raw, '/')),
{
    let n = normalized(raw);
    assert(n =~= raw) by {
        assert forall|i: int| 0 <= i < raw.len() implies n[i] == raw[i] by {
            assert(raw[i] != '\\');
        }
    }
    let segs = split_on(raw, '/');
    assert forall|j: int| 0 <= j < segs.len() implies segment_error(#[trigger] segs[j], raw) is None by {
        let g = segs[j];
        assert(g.len() > 0);
        if g.len() == 2 {
            assert(g[1] != ':');
        }
        assert(all_safe_chars(g));
    }
    lemma_segments_without_error(segs, raw, segs.len() as int);
    let pred = |g: Seq<char>| !skipped_segment(g);
    lemma_filter_keeps_all(segs, pred);
    if raw.len() >= 2 {
        assert(raw[1] != ':');
    }
}

/// Hashes are compared ignoring ASCII case and nothing else: a text equals
/// itself; texts of different lengths differ; a text equals the same text
/// with lower-case letters written in upper case; and two texts differ where
/// they hold different characters that are not letters (digits, say).
pub proof fn lemma_hash_comparison_ignores_only_ascii_case(a: Seq<char>, b: Seq<char>)
    ensures
        eq_ignore_ascii_case(a, a),
        eq_ignore_ascii_case(a, b) ==> a.len() == b.len(),
        a.len() == b.len() && (forall|i: int|
            0 <= i < a.len() ==> (#[trigger] b[i] == a[i] || ('a' <= a[i] <= 'z' && b[i] as u32 + 32 == a[i]
                as u32))) ==> eq_ignore_ascii_case(a, b),
        (exists|i: int|
            0 <= i < a.len() && i < b.len() && #[trigger] a[i] != b[i] && !('a' <= a[i] <= 'z') && !('A'
                <= a[i] <= 'Z') && !('a' <= b[i] <= 'z') && !('A' <= b[i] <= 'Z')) ==> !eq_ignore_ascii_case(a, b),
{
    if a.len() == b.len() && (forall|i: int|
        0 <= i < a.len() ==> (#[trigger] b[i] == a[i] || ('a' <= a[i] <= 'z' && b[i] as u32 + 32 == a[i]
            as u32))) {
        assert forall|i: int| 0 <= i < a.len() implies ascii_lower(#[trigger] a[i]) == ascii_lower(b[i]) by {
            if b[i] != a[i] {
                assert('A' <= b[i] <= 'Z');
                assert(((b[i] as u32) + 32) as char == a[i]);
            }
        }
    }
    if exists|i: int|
        0 <= i < a.len() && i < b.len() && #[trigger] a[i] != b[i] && !('a' <= a[i] <= 'z') && !('A' <= a[i]
            <= 'Z') && !('a' <= b[i] <= 'z') && !('A' <= b[i] <= 'Z') {
        let i = choose|i: int|
            0 <= i < a.len() && i < b.len() && #[trigger] a[i] != b[i] && !('a' <= a[i] <= 'z') && !('A'
                <= a[i] <= 'Z') && !('a' <= b[i] <= 'z') && !('A' <= b[i] <= 'Z');
        assert(ascii_lower(a[i]) == a[i]);
        assert(ascii_lower(b[i]) == b[i]);
    }
}

/// A local file is up to date exactly when it exists, its length is the
/// manifest size, it could be read, and its SHA-256 (as lower-case hex)
/// equals the manifest hash ignoring case. A missing file is reported
/// missing, and an existing file of another length has a size mismatch,
/// whatever its contents.
pub proof fn lemma_file_is_current_only_when_size_and_hash_match(
    exists: bool,
    len: Result<u64, String>,
    contents: Result<Seq<u8>, String>,
    m: ManifestFile,
)
    ensures
        change_reason(exists, len, contents, m) == Ok::<Option<ChangeReason>, Seq<char>>(None) <==> (exists
            && len == Ok::<u64, String>(m.size) && (contents matches Ok(bytes) && eq_ignore_ascii_case(
            hex_byte_text(sha256_of(bytes)),
            m.sha256@,
        ))),
        !exists ==> change_reason(exists, len, contents, m) == Ok::<Option<ChangeReason>, Seq<char>>(
            Some(ChangeReason::Missing),
        ),
        exists && (len matches Ok(l) && l != m.size) ==> change_reason(exists, len, contents, m) == Ok::<
            Option<ChangeReason>,
            Seq<char>,
        >(Some(ChangeReason::SizeMismatch)),
        exists && len == Ok::<u64, String>(m.size) && (contents matches Ok(bytes) && !eq_ignore_ascii_case(
            hex_byte_text(sha256_of(bytes)),
            m.sha256@,
        )) ==> change_reason(exists, len, contents, m) == Ok::<Option<ChangeReason>, Seq<char>>(
            Some(ChangeReason::HashMismatch),
        ),
{
}

/// A downloaded file is checked against the first manifest entry with its
/// path; a path the manifest does not list expects the empty hash.
pub proof fn lemma_expected_hash_is_first_entry(files: Seq<ManifestFile>, path: Seq<char>, i: int)
    ensures
        0 <= i < files.len() && files[i].path@ == path && (forall|j: int|
            0 <= j < i ==> (#[trigger] files[j]).path@ != path) ==> expected_hash_of(files, path)
            == files[i].sha256@,
        (forall|j: int| 0 <= j < files.len() ==> (#[trigger] files[j]).path@ != path) ==> expected_hash_of(
            files,
            path,
        ) == Seq::<char>::empty(),
    decreases files.len(),
{
    if files.len() > 0 {
        let rest = files.drop_first();
        lemma_expected_hash_is_first_entry(rest, path, i - 1);
        if 0 < i < files.len() && files[i].path@ == path && (forall|j: int|
            0 <= j < i ==> (#[trigger] files[j]).path@ != path) {
            assert(files[0].path@ != path);
            assert(rest[i - 1] == files[i]);
            assert forall|j: int| 0 <= j < i - 1 implies (#[trigger] rest[j]).path@ != path by {
                assert(rest[j] == files[j + 1]);
            }
        }
        if forall|j: int| 0 <= j < files.len() ==> (#[trigger] files[j]).path@ != path {
            assert(files[0].path@ != path);
            assert forall|j: int| 0 <= j < rest.len() implies (#[trigger] rest[j]).path@ != path by {
                assert(rest[j] == files[j + 1]);
            }
        }
    }
}

} // verus!
