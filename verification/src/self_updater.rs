//! Launcher self-update decisions: whether the remote launcher is newer,
//! whether its download may be used, and the helper script that swaps the
//! executable.

use vstd::prelude::*;
use crate::broker::{all_digits, digits_value, hex_byte_text, unsigned_body};
use crate::text::{push_str, seq_lt, split_on, split_text, str_lt};
use crate::updater::{ascii_lower, eq_ignore_ascii_case, hash_text_matches, sha256_hex, sha256_of};

verus! {

#[derive(Debug, Clone)]
pub struct LauncherManifest {
    pub version: String,
    pub released: String,
    pub notes: String,
    pub url: String,
    pub size: u64,
    pub sha256: String,
}

#[derive(Debug, Clone)]
pub struct SelfUpdateCheck {
    pub current_version: String,
    pub remote_version: String,
    pub update_available: bool,
    /// The manifest, when the remote launcher is newer (kept for applying).
    pub manifest: Option<LauncherManifest>,
}

/// What `str::parse::<u32>` accepts: an optional `+` and decimal digits of
/// a value that fits.
pub open spec fn parse_u32_text(s: Seq<char>) -> Option<u32> {
    let body = unsigned_body(s);
    if body.len() > 0 && all_digits(body) && digits_value(body) <= u32::MAX {
        Some(digits_value(body) as u32)
    } else {
        None
    }
}

/// The numeric parts of a dotted version, if every part is a number.
pub open spec fn version_parts_of(pieces: Seq<Seq<char>>) -> Option<Seq<u32>>
    decreases pieces.len(),
{
    if pieces.len() == 0 {
        Some(Seq::empty())
    } else {
        match (version_parts_of(pieces.drop_last()), parse_u32_text(pieces.last())) {
            (Some(p), Some(x)) => Some(p.push(x)),
            _ => None,
        }
    }
}

pub open spec fn version_parts(s: Seq<char>) -> Option<Seq<u32>> {
    version_parts_of(split_on(s, '.'))
}

/// Lexicographic order of number sequences (a proper prefix sorts first),
/// the order of `Vec<u32>`.
pub open spec fn parts_lt(a: Seq<u32>, b: Seq<u32>) -> bool
    decreases a.len(),
{
    if b.len() == 0 {
        false
    } else if a.len() == 0 {
        true
    } else if a[0] < b[0] {
        true
    } else if a[0] == b[0] {
        parts_lt(a.drop_first(), b.drop_first())
    } else {
        false
    }
}

proof fn lemma_parts_lt_asymmetric(a: Seq<u32>, b: Seq<u32>)
    ensures
        !parts_lt(a, a),
        !(parts_lt(a, b) && parts_lt(b, a)),
    decreases a.len(),
{
    if a.len() > 0 && b.len() > 0 {
        lemma_parts_lt_asymmetric(a.drop_first(), b.drop_first());
    }
    if a.len() > 0 {
        lemma_parts_lt_asymmetric(a.drop_first(), a.drop_first());
    }
}

/// Whether the remote version is newer: by numeric parts when both
/// versions are dotted numbers, otherwise by text order.
pub open spec fn is_newer_spec(remote: Seq<char>, current: Seq<char>) -> bool {
    match (version_parts(remote), version_parts(current)) {
        (Some(r), Some(c)) => parts_lt(c, r),
        _ => seq_lt(current, remote),
    }
}

proof fn lemma_digits_bound(s: Seq<char>, n: int)
    requires
        0 <= n <= s.len(),
        all_digits(s),
    ensures
        digits_value(s.take(n)) <= digits_value(s),
    decreases s.len() - n,
{
    if n < s.len() {
        lemma_digits_bound(s, n + 1);
        assert(s.take(n + 1).drop_last() =~= s.take(n));
    } else {
        assert(s.take(n) =~= s);
    }
}

/// Parses a decimal `u32` as `str::parse::<u32>` does.
pub fn parse_u32(text: &str) -> (r: Option<u32>)
    ensures
        r == parse_u32_text(text@),
{
    let n = text.unicode_len();
    let mut start: usize = 0;
    if n > 0 && text.get_char(0) == '+' {
        start = 1;
    }
    let ghost body = text@.skip(start as int);
    assert(body =~= unsigned_body(text@));
    if start >= n {
        return None;
    }
    let mut value: u32 = 0;
    let mut i: usize = start;
    while i < n
        invariant
            n == text@.len(),
            start <= i <= n,
            body == text@.skip(start as int),
            body == unsigned_body(text@),
            body.len() > 0,
            forall|j: int| 0 <= j < i - start ==> crate::broker::is_digit(#[trigger] body[j]),
            value == digits_value(body.take(i - start)),
        decreases n - i,
    {
        let c = text.get_char(i);
        if !('0' <= c && c <= '9') {
            assert(!crate::broker::is_digit(body[i - start]));
            assert(!all_digits(body));
            return None;
        }
        let d = (c as u32) - 48;
        proof {
            let t = body.take(i - start + 1);
            assert(t.drop_last() =~= body.take(i - start));
            assert(t.last() == c);
        }
        match value.checked_mul(10) {
            None => {
                proof {
                    if all_digits(body) {
                        lemma_digits_bound(body, i - start + 1);
                    }
                }
                return None;
            },
            Some(m) => match m.checked_add(d) {
                None => {
                    proof {
                        if all_digits(body) {
                            lemma_digits_bound(body, i - start + 1);
                        }
                    }
                    return None;
                },
                Some(v) => {
                    value = v;
                },
            },
        }
        i = i + 1;
    }
    assert(body.take(n - start) =~= body);
    Some(value)
}

fn version_numbers(s: &str) -> (r: Option<Vec<u32>>)
    ensures
        match r {
            Some(v) => version_parts(s@) == Some(v@),
            None => version_parts(s@) is None,
        },
{
    let pieces = split_text(s, '.');
    let ghost ps = pieces@.map_values(|x: String| x@);
    let mut out: Vec<u32> = Vec::new();
    let mut i: usize = 0;
    assert(ps.take(0) =~= Seq::<Seq<char>>::empty());
    while i < pieces.len()
        invariant
            ps == pieces@.map_values(|x: String| x@),
            ps == split_on(s@, '.'),
            i <= ps.len(),
            version_parts_of(ps.take(i as int)) == Some(out@),
        decreases ps.len() - i,
    {
        proof {
            let t = ps.take(i as int + 1);
            assert(t.drop_last() =~= ps.take(i as int));
            assert(t.last() == pieces@[i as int]@);
        }
        match parse_u32(pieces[i].as_str()) {
            None => {
                proof {
                    lemma_version_parts_none(ps, i as int + 1);
                }
                return None;
            },
            Some(x) => {
                out.push(x);
            },
        }
        i = i + 1;
    }
    assert(ps.take(ps.len() as int) =~= ps);
    Some(out)
}

proof fn lemma_version_parts_none(ps: Seq<Seq<char>>, n: int)
    requires
        0 < n <= ps.len(),
        version_parts_of(ps.take(n)) is None,
    ensures
        version_parts_of(ps) is None,
    decreases ps.len() - n,
{
    if n < ps.len() {
        assert(ps.take(n + 1).drop_last() =~= ps.take(n));
        lemma_version_parts_none(ps, n + 1);
    } else {
        assert(ps.take(n) =~= ps);
    }
}

fn parts_less(a: &Vec<u32>, b: &Vec<u32>) -> (r: bool)
    ensures
        r == parts_lt(a@, b@),
{
    let mut i: usize = 0;
    assert(a@.skip(0) =~= a@);
    assert(b@.skip(0) =~= b@);
    while i < a.len() && i < b.len()
        invariant
            i <= a@.len(),
            i <= b@.len(),
            forall|j: int| 0 <= j < i ==> a@[j] == b@[j],
            parts_lt(a@, b@) == parts_lt(a@.skip(i as int), b@.skip(i as int)),
        decreases a@.len() - i,
    {
        let x = a[i];
        let y = b[i];
        assert(a@.skip(i as int)[0] == x);
        assert(b@.skip(i as int)[0] == y);
        if x != y {
            return x < y;
        }
        assert(a@.skip(i as int).drop_first() =~= a@.skip(i as int + 1));
        assert(b@.skip(i as int).drop_first() =~= b@.skip(i as int + 1));
        i = i + 1;
    }
    i < b.len()
}

/// Whether the remote launcher version is newer than the current one.
pub fn is_newer(remote: &str, current: &str) -> (b: bool)
    ensures
        b == is_newer_spec(remote@, current@),
{
    match (version_numbers(remote), version_numbers(current)) {
        (Some(r), Some(c)) => parts_less(&c, &r),
        _ => str_lt(current, remote),
    }
}

/// The self-update check for a fetched manifest.
pub fn self_update_check(manifest: LauncherManifest, current_version: &str) -> (r: SelfUpdateCheck)
    ensures
        r.current_version@ == current_version@,
        r.remote_version@ == manifest.version@,
        r.update_available == is_newer_spec(manifest.version@, current_version@),
        r.update_available ==> r.manifest == Some(manifest),
        !r.update_available ==> r.manifest is None,
{
    let update_available = is_newer(manifest.version.as_str(), current_version);
    let remote_version = manifest.version.clone();
    SelfUpdateCheck {
        current_version: String::from_str(current_version),
        remote_version,
        update_available,
        manifest: if update_available {
            Some(manifest)
        } else {
            None
        },
    }
}

/// Whether a URL starts with `https://` (ignoring ASCII case).
pub open spec fn is_https_url(url: Seq<char>) -> bool {
    url.len() >= 8 && forall|i: int| 0 <= i < 8 ==> ascii_lower(#[trigger] url[i]) == "https://"@[i]
}

/// The launcher download must come over HTTPS.
pub fn require_https(url: &str) -> (r: Result<(), String>)
    ensures
        r is Ok <==> is_https_url(url@),
        r matches Err(e) ==> e@ == "런처 manifest url은 https://여야 합니다"@,
{
    let prefix = "https://";
    proof {
        reveal_strlit("https://");
    }
    if url.unicode_len() < 8 {
        return Err(String::from_str("런처 manifest url은 https://여야 합니다"));
    }
    let mut i: usize = 0;
    while i < 8
        invariant
            url@.len() >= 8,
            prefix@ == "https://"@,
            prefix@.len() == 8,
            i <= 8,
            forall|j: int| 0 <= j < i ==> ascii_lower(#[trigger] url@[j]) == "https://"@[j],
        decreases 8 - i,
    {
        let c = url.get_char(i);
        let lower = if 'A' <= c && c <= 'Z' {
            ((c as u8) + 32) as char
        } else {
            c
        };
        if lower != prefix.get_char(i) {
            return Err(String::from_str("런처 manifest url은 https://여야 합니다"));
        }
        i = i + 1;
    }
    Ok(())
}

/// Checks the downloaded launcher against the manifest's SHA-256.
pub fn verify_launcher_download(manifest: &LauncherManifest, contents: &[u8]) -> (r: Result<(), String>)
    ensures
        r is Ok <==> eq_ignore_ascii_case(hex_byte_text(sha256_of(contents@)), manifest.sha256@),
        r matches Err(e) ==> e@ == "해시 불일치 (expected="@ + manifest.sha256@ + ", got="@ + hex_byte_text(
            sha256_of(contents@),
        ) + ")"@,
{
    let actual = sha256_hex(contents);
    if hash_text_matches(actual.as_str(), manifest.sha256.as_str()) {
        Ok(())
    } else {
        let mut e = String::from_str("해시 불일치 (expected=");
        push_str(&mut e, manifest.sha256.as_str());
        push_str(&mut e, ", got=");
        push_str(&mut e, actual.as_str());
        push_str(&mut e, ")");
        proof {
            reveal_strlit("해시 불일치 (expected=");
            reveal_strlit(", got=");
            reveal_strlit(")");
        }
        Err(e)
    }
}

/// Texts joined with " | ".
pub open spec fn join_bars(parts: Seq<Seq<char>>) -> Seq<char>
    decreases parts.len(),
{
    if parts.len() == 0 {
        Seq::empty()
    } else if parts.len() == 1 {
        parts[0]
    } else {
        join_bars(parts.drop_last()) + " | "@ + parts.last()
    }
}

/// The error after every manifest source failed, with each source's error.
pub fn all_sources_failed(errors: &Vec<String>) -> (r: String)
    ensures
        r@ == "런처 manifest 가져오기 실패 (모든 소스): "@ + join_bars(errors@.map_values(|x: String| x@)),
{
    let ghost ts = errors@.map_values(|x: String| x@);
    let mut joined = String::new();
    let mut i: usize = 0;
    proof {
        reveal_strlit(" | ");
    }
    while i < errors.len()
        invariant
            ts == errors@.map_values(|x: String| x@),
            i <= ts.len(),
            joined@ == join_bars(ts.take(i as int)),
        decreases ts.len() - i,
    {
        if i > 0 {
            push_str(&mut joined, " | ");
        }
        push_str(&mut joined, errors[i].as_str());
        proof {
            let t = ts.take(i as int + 1);
            assert(t.drop_last() =~= ts.take(i as int));
            assert(t.last() == errors@[i as int]@);
        }
        assert(joined@ =~= join_bars(ts.take(i as int + 1)));
        i = i + 1;
    }
    assert(ts.take(ts.len() as int) =~= ts);
    let mut r = String::from_str("런처 manifest 가져오기 실패 (모든 소스): ");
    push_str(&mut r, joined.as_str());
    proof {
        reveal_strlit("런처 manifest 가져오기 실패 (모든 소스): ");
    }
    r
}

/// The batch script that swaps in the new launcher after this one exits:
/// it renames the running executable to `.old` (retrying while it is in
/// use), moves the new one in its place, restores the old one if that
/// fails, starts the new launcher and deletes itself. `current` is the
/// executable's path, `current_name` its file name, `new_exe` the download.
pub open spec fn updater_script_text(current: Seq<char>, current_name: Seq<char>, new_exe: Seq<char>) -> Seq<char> {
    let old = current + ".old"@;
    "@echo off\r\nsetlocal EnableExtensions EnableDelayedExpansion\r\nrem GGO Launcher 자기 업데이트 헬퍼\r\nrem 1. 런처 종료될 시간 확보\r\ntimeout /t 2 /nobreak >nul\r\nrem 2. 기존 exe → .old 로 rename (사용 중이면 retry)\r\nif exist \""@
        + old + "\" del /f /q \""@ + old + "\" >nul 2>&1\r\nset RETRY=0\r\n:retry_rename\r\nif exist \""@ + current
        + "\" (\r\nren \""@ + current + "\" \""@ + current_name + ".old\" >nul 2>&1\r\nif exist \""@ + current
        + "\" (\r\nset /a RETRY+=1\r\nif !RETRY! lss 10 (\r\ntimeout /t 1 /nobreak >nul\r\ngoto retry_rename\r\n) else (\r\necho [updater] 기존 exe rename 실패 - 수동 종료 후 재시도 필요\r\npause\r\nexit /b 1\r\n)\r\n)\r\n)\r\nrem 3. 새 exe move\r\nmove /y \""@
        + new_exe + "\" \""@ + current
        + "\" >nul\r\nif errorlevel 1 (\r\necho [updater] 파일 교체 실패 - 이전 버전 복구\r\nif exist \""@ + old
        + "\" ren \""@ + old + "\" \""@ + current_name
        + "\" >nul 2>&1\r\npause\r\nexit /b 1\r\n)\r\nrem 4. 이전 버전 삭제 (실패해도 무시)\r\nif exist \""@ + old
        + "\" del /f /q \""@ + old + "\" >nul 2>&1\r\nrem 5. 새 런처 실행\r\nstart \"\" \""@ + current
        + "\"\r\nrem 6. 자기 삭제\r\n(goto) 2>nul & del \"%~f0\"\r\n"@
}

/// Writes the swap script (see `updater_script_text`).
pub fn updater_script(current: &str, current_name: &str, new_exe: &str) -> (s: String)
    ensures
        s@ == updater_script_text(current@, current_name@, new_exe@),
{
    let mut old = String::from_str(current);
    push_str(&mut old, ".old");
    let old = old.as_str();
    let mut s = String::new();
    push_str(
        &mut s,
        "@echo off\r\nsetlocal EnableExtensions EnableDelayedExpansion\r\nrem GGO Launcher 자기 업데이트 헬퍼\r\nrem 1. 런처 종료될 시간 확보\r\ntimeout /t 2 /nobreak >nul\r\nrem 2. 기존 exe → .old 로 rename (사용 중이면 retry)\r\nif exist \"",
    );
    push_str(&mut s, old);
    push_str(&mut s, "\" del /f /q \"");
    push_str(&mut s, old);
    push_str(&mut s, "\" >nul 2>&1\r\nset RETRY=0\r\n:retry_rename\r\nif exist \"");
    push_str(&mut s, current);
    push_str(&mut s, "\" (\r\nren \"");
    push_str(&mut s, current);
    push_str(&mut s, "\" \"");
    push_str(&mut s, current_name);
    push_str(&mut s, ".old\" >nul 2>&1\r\nif exist \"");
    push_str(&mut s, current);
    push_str(
        &mut s,
        "\" (\r\nset /a RETRY+=1\r\nif !RETRY! lss 10 (\r\ntimeout /t 1 /nobreak >nul\r\ngoto retry_rename\r\n) else (\r\necho [updater] 기존 exe rename 실패 - 수동 종료 후 재시도 필요\r\npause\r\nexit /b 1\r\n)\r\n)\r\n)\r\nrem 3. 새 exe move\r\nmove /y \"",
    );
    push_str(&mut s, new_exe);
    push_str(&mut s, "\" \"");
    push_str(&mut s, current);
    push_str(
        &mut s,
        "\" >nul\r\nif errorlevel 1 (\r\necho [updater] 파일 교체 실패 - 이전 버전 복구\r\nif exist \"",
    );
    push_str(&mut s, old);
    push_str(&mut s, "\" ren \"");
    push_str(&mut s, old);
    push_str(&mut s, "\" \"");
    push_str(&mut s, current_name);
    push_str(
        &mut s,
        "\" >nul 2>&1\r\npause\r\nexit /b 1\r\n)\r\nrem 4. 이전 버전 삭제 (실패해도 무시)\r\nif exist \"",
    );
    push_str(&mut s, old);
    push_str(&mut s, "\" del /f /q \"");
    push_str(&mut s, old);
    push_str(&mut s, "\" >nul 2>&1\r\nrem 5. 새 런처 실행\r\nstart \"\" \"");
    push_str(&mut s, current);
    push_str(&mut s, "\"\r\nrem 6. 자기 삭제\r\n(goto) 2>nul & del \"%~f0\"\r\n");
    assert(s@ =~= updater_script_text(current@, current_name@, new_exe@));
    s
}


/// A version is never newer than itself, and of two versions at most one
/// is newer than the other.
pub proof fn lemma_is_newer_is_a_strict_order(a: Seq<char>, b: Seq<char>)
    ensures
        !is_newer_spec(a, a),
        !(is_newer_spec(a, b) && is_newer_spec(b, a)),
{
    crate::text::lemma_seq_lt_irreflexive(a, b);
    crate::text::lemma_seq_lt_irreflexive(b, a);
    match (version_parts(a), version_parts(b)) {
        (Some(x), Some(y)) => {
            lemma_parts_lt_asymmetric(x, y);
        },
        _ => {},
    }
    match version_parts(a) {
        Some(x) => lemma_parts_lt_asymmetric(x, x),
        None => {},
    }
}

proof fn lemma_parts_lt_at(a: Seq<u32>, b: Seq<u32>, k: int)
    requires
        0 <= k <= a.len(),
        k <= b.len(),
        forall|j: int| 0 <= j < k ==> a[j] == b[j],
        (k < a.len() && k < b.len() && a[k] < b[k]) || (k == a.len() && k < b.len()),
    ensures
        parts_lt(a, b),
    decreases k,
{
    if k > 0 {
        assert forall|j: int| 0 <= j < k - 1 implies a.drop_first()[j] == b.drop_first()[j] by {
            assert(a[j + 1] == b[j + 1]);
        }
        lemma_parts_lt_at(a.drop_first(), b.drop_first(), k - 1);
        assert(a[0] == b[0]);
    }
}

/// Dotted numeric versions are compared part by part, as numbers: the
/// remote version is newer when, at the first part where the two differ, its
/// number is larger, or when the current version is a proper prefix of it
/// (`1.2` < `1.2.1`); it is not newer when the current one is larger there.
pub proof fn lemma_newer_by_first_differing_part(
    remote: Seq<char>,
    current: Seq<char>,
    rp: Seq<u32>,
    cp: Seq<u32>,
    k: int,
)
    requires
        version_parts(remote) == Some(rp),
        version_parts(current) == Some(cp),
        0 <= k,
        forall|j: int| 0 <= j < k ==> j < rp.len() && j < cp.len() && cp[j] == rp[j],
    ensures
        (k < cp.len() && k < rp.len() && cp[k] < rp[k]) || (k == cp.len() && k < rp.len()) ==> is_newer_spec(
            remote,
            current,
        ),
        (k < cp.len() && k < rp.len() && rp[k] < cp[k]) || (k == rp.len() && k < cp.len()) ==> !is_newer_spec(
            remote,
            current,
        ),
{
    if (k < cp.len() && k < rp.len() && cp[k] < rp[k]) || (k == cp.len() && k < rp.len()) {
        lemma_parts_lt_at(cp, rp, k);
    }
    if (k < cp.len() && k < rp.len() && rp[k] < cp[k]) || (k == rp.len() && k < cp.len()) {
        assert forall|j: int| 0 <= j < k implies rp[j] == cp[j] by {}
        lemma_parts_lt_at(rp, cp, k);
        lemma_parts_lt_asymmetric(rp, cp);
    }
}

/// Version numbers read back as written: the decimal text of a number that
/// fits a `u32` parses to that number, with or without a leading `+`.
pub proof fn lemma_parse_u32_reads_decimal_text(n: nat)
    requires
        n <= u32::MAX,
    ensures
        parse_u32_text(crate::text::nat_digits(n)) == Some(n as u32),
        parse_u32_text(seq!['+'] + crate::text::nat_digits(n)) == Some(n as u32),
{
    crate::broker::lemma_parse_usize_reads_decimal_text(n);
}

} // verus!
