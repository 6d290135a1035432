//! What a chosen folder is, and which client versions it holds.
//!
//! Looking at the disk and reading file versions is done by the
//! application; this module decides on what it found.

use vstd::prelude::*;
use crate::text::{nat_digits, push_str, push_u64_digits, trimmed};

verus! {

#[derive(Debug, Clone, Copy, PartialEq, Eq, Structural)]
pub struct PathInfo {
    pub exists: bool,
    pub is_dir: bool,
    pub is_file: bool,
    /// Whether the folder looks like a UO client folder (a client
    /// executable or data file is present).
    pub valid_uo: bool,
    /// Whether the folder looks like a ClassicUO folder.
    pub valid_cuo: bool,
}

/// The files whose presence marks a UO client folder.
pub open spec fn uo_markers() -> Seq<Seq<char>> {
    seq!["client.exe"@, "Client.exe"@, "anim.idx"@, "art.mul"@]
}

/// The files whose presence marks a ClassicUO folder.
pub open spec fn cuo_markers() -> Seq<Seq<char>> {
    seq!["ClassicUO.exe"@, "classicuo.exe"@]
}

pub fn uo_marker_names() -> (r: Vec<&'static str>)
    ensures
        r@.map_values(|s: &'static str| s@) == uo_markers(),
{
    let v = vec!["client.exe", "Client.exe", "anim.idx", "art.mul"];
    assert(v@.map_values(|s: &'static str| s@) =~= uo_markers());
    v
}

pub fn cuo_marker_names() -> (r: Vec<&'static str>)
    ensures
        r@.map_values(|s: &'static str| s@) == cuo_markers(),
{
    let v = vec!["ClassicUO.exe", "classicuo.exe"];
    assert(v@.map_values(|s: &'static str| s@) =~= cuo_markers());
    v
}

fn any_true(v: &[bool]) -> (b: bool)
    ensures
        b == exists|i: int| 0 <= i < v@.len() && v@[i],
{
    let mut i: usize = 0;
    while i < v.len()
        invariant
            i <= v@.len(),
            forall|j: int| 0 <= j < i ==> !v@[j],
        decreases v@.len() - i,
    {
        if v[i] {
            return true;
        }
        i = i + 1;
    }
    false
}

/// What a path is, from what the disk showed: whether it exists, is a
/// folder or a file, and which marker files (in the order of
/// `uo_marker_names` and `cuo_marker_names`) it holds.
pub fn path_info(
    exists: bool,
    is_dir: bool,
    is_file: bool,
    uo_markers_found: &[bool],
    cuo_markers_found: &[bool],
) -> (p: PathInfo)
    ensures
        p.exists == exists,
        p.is_dir == is_dir,
        p.is_file == is_file,
        p.valid_uo == (is_dir && exists|i: int| 0 <= i < uo_markers_found@.len() && uo_markers_found@[i]),
        p.valid_cuo == (is_dir && exists|i: int| 0 <= i < cuo_markers_found@.len() && cuo_markers_found@[i]),
{
    let uo = any_true(uo_markers_found);
    let cuo = any_true(cuo_markers_found);
    PathInfo { exists, is_dir, is_file, valid_uo: is_dir && uo, valid_cuo: is_dir && cuo }
}

/// A version that means nothing: all zeros.
pub open spec fn is_default_version_text(v: Seq<char>) -> bool {
    v == "0.0.0.0"@ || v == "0.0.0"@ || v == "0.0"@
}

pub fn is_default_version(v: &str) -> (b: bool)
    ensures
        b == is_default_version_text(v@),
{
    crate::text::str_eq(v, "0.0.0.0") || crate::text::str_eq(v, "0.0.0") || crate::text::str_eq(v, "0.0")
}

/// The file version "major.minor.build.revision" of a version resource's
/// two 32-bit halves; none for 0.0.0.0.
pub open spec fn file_version_text(ms: u32, ls: u32) -> Option<Seq<char>> {
    if ms == 0 && ls == 0 {
        None
    } else {
        Some(
            nat_digits((ms / 65536) as nat) + "."@ + nat_digits((ms % 65536) as nat) + "."@ + nat_digits(
                (ls / 65536) as nat,
            ) + "."@ + nat_digits((ls % 65536) as nat),
        )
    }
}

pub fn format_file_version(ms: u32, ls: u32) -> (r: Option<String>)
    ensures
        match file_version_text(ms, ls) {
            Some(t) => r matches Some(s) && s@ == t,
            None => r is None,
        },
{
    if ms == 0 && ls == 0 {
        return None;
    }
    let mut s = String::new();
    push_u64_digits(&mut s, (ms / 65536) as u64);
    push_str(&mut s, ".");
    push_u64_digits(&mut s, (ms % 65536) as u64);
    push_str(&mut s, ".");
    push_u64_digits(&mut s, (ls / 65536) as u64);
    push_str(&mut s, ".");
    push_u64_digits(&mut s, (ls % 65536) as u64);
    proof {
        reveal_strlit(".");
    }
    assert(s@ =~= file_version_text(ms, ls)->Some_0);
    Some(s)
}

/// The characters before the first newline.
pub open spec fn first_line(s: Seq<char>) -> Seq<char> {
    if exists|i: int| 0 <= i < s.len() && s[i] == '\n' {
        let k = choose|k: int| 0 <= k < s.len() && s[k] == '\n' && forall|j: int| 0 <= j < k ==> s[j] != '\n';
        s.take(k)
    } else {
        s
    }
}

/// The version a `version.txt` gives: its first line, trimmed, if not empty.
pub open spec fn version_file_text(contents: Seq<char>) -> Option<Seq<char>> {
    let v = trimmed(first_line(contents));
    if v.len() > 0 {
        Some(v)
    } else {
        None
    }
}

fn newline_index(s: &str) -> (k: usize)
    ensures
        k <= s@.len(),
        k < s@.len() ==> s@[k as int] == '\n',
        forall|j: int| 0 <= j < k ==> s@[j] != '\n',
{
    let n = s.unicode_len();
    let mut k: usize = 0;
    while k < n
        invariant
            n == s@.len(),
            k <= n,
            forall|j: int| 0 <= j < k ==> s@[j] != '\n',
        decreases n - k,
    {
        if s.get_char(k) == '\n' {
            return k;
        }
        k = k + 1;
    }
    k
}

pub fn version_from_file(contents: &str) -> (r: Option<String>)
    ensures
        match version_file_text(contents@) {
            Some(v) => r matches Some(s) && s@ == v,
            None => r is None,
        },
{
    let k = newline_index(contents);
    let line = contents.substring_char(0, k);
    proof {
        let s = contents@;
        if exists|i: int| 0 <= i < s.len() && s[i] == '\n' {
            let c = choose|c: int| 0 <= c < s.len() && s[c] == '\n' && forall|j: int| 0 <= j < c ==> s[j] != '\n';
            if (k as int) < c {
                assert(s[k as int] != '\n');
            } else if c < k {
                assert(s[c] != '\n');
            }
        }
        assert(line@ =~= first_line(s));
    }
    let v = line.trim();
    if v.unicode_len() > 0 {
        Some(String::from_str(v))
    } else {
        None
    }
}

/// A read version that is not all zeros.
pub open spec fn usable_version(v: Option<Seq<char>>) -> bool {
    match v {
        Some(x) => !is_default_version_text(x),
        None => false,
    }
}

/// The GGO CE version of a client folder, by priority: a `version.txt`,
/// then the first cuo.dll version that is not all zeros, then the version
/// of the first ClassicUO executable found.
pub open spec fn ggoce_version(
    version_txt: Option<Seq<char>>,
    dll_versions: Seq<Option<Seq<char>>>,
    exe_version: Option<Option<Seq<char>>>,
) -> Option<Seq<char>> {
    match version_txt {
        Some(t) if version_file_text(t) is Some => version_file_text(t),
        _ => if exists|i: int| 0 <= i < dll_versions.len() && usable_version(dll_versions[i]) {
            let i = choose|i: int|
                0 <= i < dll_versions.len() && usable_version(dll_versions[i]) && forall|j: int|
                    0 <= j < i ==> !usable_version(dll_versions[j]);
            dll_versions[i]
        } else {
            match exe_version {
                Some(v) => v,
                None => None,
            }
        },
    }
}

/// Picks the GGO CE version from what was read: the contents of
/// `version.txt` (if it was read), the versions of the cuo.dll files found
/// (in name order) and the version of the first ClassicUO executable found.
pub fn choose_ggoce_version(
    version_txt: Option<String>,
    dll_versions: &Vec<Option<String>>,
    exe_version: Option<Option<String>>,
) -> (r: Option<String>)
    ensures
        crate::session::optional_text(r) == ggoce_version(
            crate::session::optional_text(version_txt),
            dll_versions@.map_values(|v: Option<String>| crate::session::optional_text(v)),
            match exe_version {
                Some(v) => Some(crate::session::optional_text(v)),
                None => None,
            },
        ),
{
    if let Some(t) = &version_txt {
        if let Some(v) = version_from_file(t.as_str()) {
            return Some(v);
        }
    }
    let ghost dv = dll_versions@.map_values(|v: Option<String>| crate::session::optional_text(v));
    let mut i: usize = 0;
    while i < dll_versions.len()
        invariant
            dv == dll_versions@.map_values(|v: Option<String>| crate::session::optional_text(v)),
            i <= dv.len(),
            match crate::session::optional_text(version_txt) {
                Some(t) => version_file_text(t) is None,
                None => true,
            },
            forall|j: int| 0 <= j < i ==> !usable_version(dv[j]),
        decreases dv.len() - i,
    {
        if let Some(v) = &dll_versions[i] {
            if !is_default_version(v.as_str()) {
                proof {
                    let w = i as int;
                    assert(usable_version(dv[w]));
                    let c = choose|c: int|
                        0 <= c < dv.len() && usable_version(dv[c]) && forall|j: int|
                            0 <= j < c ==> !usable_version(dv[j]);
                    if c < w {
                    } else if w < c {
                        assert(!usable_version(dv[w]));
                    }
                }
                return Some(v.clone());
            }
        }
        i = i + 1;
    }
    match exe_version {
        Some(v) => v,
        None => None,
    }
}

/// A `version.txt` gives its first line, trimmed: a first line holding a
/// version without surrounding whitespace is read as that version,
/// whatever follows the line break.
pub proof fn lemma_version_file_reads_first_line(v: Seq<char>, rest: Seq<char>)
    requires
        v.len() > 0,
        trimmed(v) == v,
        forall|i: int| 0 <= i < v.len() ==> #[trigger] v[i] != '\n',
    ensures
        version_file_text(v + seq!['\n'] + rest) == Some(v),
        version_file_text(v) == Some(v),
{
    let s = v + seq!['\n'] + rest;
    assert(s[v.len() as int] == '\n');
    let k = choose|k: int| 0 <= k < s.len() && s[k] == '\n' && forall|j: int| 0 <= j < k ==> s[j] != '\n';
    if k < v.len() {
        assert(s[k] == v[k]);
    } else if k > v.len() {
        assert(s[v.len() as int] != '\n');
    }
    assert(s.take(k) =~= v);
    assert(first_line(s) == v);
    assert(first_line(v) == v);
}

proof fn lemma_first_usable_exists(dv: Seq<Option<Seq<char>>>)
    requires
        exists|i: int| 0 <= i < dv.len() && usable_version(dv[i]),
    ensures
        exists|i: int|
            0 <= i < dv.len() && usable_version(dv[i]) && forall|j: int| 0 <= j < i ==> !usable_version(dv[j]),
    decreases dv.len(),
{
    let p = dv.drop_last();
    if exists|i: int| 0 <= i < p.len() && usable_version(p[i]) {
        lemma_first_usable_exists(p);
        let i = choose|i: int|
            0 <= i < p.len() && usable_version(p[i]) && forall|j: int| 0 <= j < i ==> !usable_version(p[j]);
        assert(dv[i] == p[i]);
        assert forall|j: int| 0 <= j < i implies !usable_version(dv[j]) by {
            assert(dv[j] == p[j]);
        }
    } else {
        let i = dv.len() - 1;
        assert forall|j: int| 0 <= j < i implies !usable_version(dv[j]) by {
            assert(dv[j] == p[j]);
        }
        let w = choose|w: int| 0 <= w < dv.len() && usable_version(dv[w]);
        if w < i {
            assert(dv[w] == p[w]);
        }
    }
}

/// The GGO CE version is read in order of priority: a `version.txt` with a
/// version wins; otherwise a cuo.dll version is taken only when it is not
/// all zeros (`0.0.0.0`, `0.0.0`, `0.0`), the first such one; otherwise the
/// executable's version.
pub proof fn lemma_ggoce_version_priority(
    version_txt: Option<Seq<char>>,
    dll_versions: Seq<Option<Seq<char>>>,
    exe_version: Option<Option<Seq<char>>>,
)
    ensures
        (version_txt matches Some(t) && version_file_text(t) is Some) ==> ggoce_version(
            version_txt,
            dll_versions,
            exe_version,
        ) == version_file_text(version_txt->Some_0),
        !(version_txt matches Some(t) && version_file_text(t) is Some) ==> (ggoce_version(
            version_txt,
            dll_versions,
            exe_version,
        ) matches Some(x) ==> (exists|i: int|
            0 <= i < dll_versions.len() && #[trigger] dll_versions[i] == Some(x) && x != "0.0.0.0"@ && x
                != "0.0.0"@ && x != "0.0"@ && forall|j: int|
                0 <= j < i ==> match #[trigger] dll_versions[j] {
                    Some(y) => y == "0.0.0.0"@ || y == "0.0.0"@ || y == "0.0"@,
                    None => true,
                }) || exe_version == Some(Some(x))),
{
    if !(version_txt matches Some(t) && version_file_text(t) is Some) {
        if exists|i: int| 0 <= i < dll_versions.len() && usable_version(dll_versions[i]) {
            lemma_first_usable_exists(dll_versions);
            let i = choose|i: int|
                0 <= i < dll_versions.len() && usable_version(dll_versions[i]) && forall|j: int|
                    0 <= j < i ==> !usable_version(dll_versions[j]);
            assert forall|j: int| 0 <= j < i implies match #[trigger] dll_versions[j] {
                Some(y) => y == "0.0.0.0"@ || y == "0.0.0"@ || y == "0.0"@,
                None => true,
            } by {
                assert(!usable_version(dll_versions[j]));
            }
        }
    }
}

} // verus!
