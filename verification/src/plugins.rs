//! Plugin import decisions: the folder a plugin ZIP is extracted to and the
//! DLL that becomes the plugin's entry. The file dialog and the extraction
//! are done by the application.

use vstd::prelude::*;
use crate::cuo_profiles::{lowercase, to_lowercase};
use crate::text::{nat_digits, push_str, str_eq, u64_to_decimal};
use crate::updater::ascii_lower;

verus! {

/// A compact time stamp: the decimal seconds since the Unix epoch.
pub fn compact_timestamp(secs: u64) -> (s: String)
    ensures
        s@ == nat_digits(secs as nat),
{
    u64_to_decimal(secs)
}

/// The current compact time stamp, used to make a folder name unique.
pub fn chrono_now_compact() -> (s: String)
    ensures
        exists|secs: u64| s@ == nat_digits(secs as nat),
{
    compact_timestamp(crate::time::unix_time_secs())
}

/// The folder name used when the plain one is taken: `<name>_<suffix>`.
pub fn alternate_dir_name(name: &str, suffix: &str) -> (s: String)
    ensures
        s@ == name@ + "_"@ + suffix@,
{
    let mut s = String::from_str(name);
    push_str(&mut s, "_");
    push_str(&mut s, suffix);
    proof {
        reveal_strlit("_");
    }
    s
}

/// Whether a file extension is `dll`, in any ASCII case.
pub open spec fn is_dll_extension_text(ext: Seq<char>) -> bool {
    ext.len() == 3 && ascii_lower(ext[0]) == 'd' && ascii_lower(ext[1]) == 'l' && ascii_lower(ext[2]) == 'l'
}

pub fn is_dll_extension(ext: &str) -> (b: bool)
    ensures
        b == is_dll_extension_text(ext@),
{
    if ext.unicode_len() != 3 {
        return false;
    }
    let lower = |c: char| -> (r: char)
        ensures
            r == ascii_lower(c),
        {
            if 'A' <= c && c <= 'Z' {
                ((c as u8) + 32) as char
            } else {
                c
            }
        };
    lower(ext.get_char(0)) == 'd' && lower(ext.get_char(1)) == 'l' && lower(ext.get_char(2)) == 'l'
}

/// The entry DLL of an extracted plugin, among its DLLs (each with its file
/// stem, if readable): the first whose stem equals the folder name ignoring
/// case, otherwise the first DLL.
pub open spec fn entry_dll(dlls: Seq<(Seq<char>, Option<Seq<char>>)>, folder: Seq<char>) -> Option<int> {
    if dlls.len() == 0 {
        None
    } else if exists|i: int|
        0 <= i < dlls.len() && dlls[i].1 is Some && lowercase(dlls[i].1->Some_0) == lowercase(folder) {
        Some(
            choose|i: int|
                0 <= i < dlls.len() && dlls[i].1 is Some && lowercase(dlls[i].1->Some_0) == lowercase(folder)
                    && forall|j: int|
                    0 <= j < i ==> !(dlls[j].1 is Some && lowercase(dlls[j].1->Some_0) == lowercase(folder)),
        )
    } else {
        Some(0)
    }
}

/// Chooses the entry DLL of an extracted plugin (`dlls`: each DLL's path and
/// file stem); none found is an error.
pub fn choose_plugin_dll(dlls: &Vec<(String, Option<String>)>, folder_name: &str) -> (r: Result<String, String>)
    ensures
        match entry_dll(dlls@.map_values(|d: (String, Option<String>)| (d.0@, crate::session::optional_text(d.1))), folder_name@) {
            None => r matches Err(e) && e@ == "ZIP 안에 .dll 파일을 찾지 못했습니다"@,
            Some(i) => r matches Ok(p) && p@ == dlls@[i].0@,
        },
{
    let ghost ds = dlls@.map_values(|d: (String, Option<String>)| (d.0@, crate::session::optional_text(d.1)));
    if dlls.len() == 0 {
        return Err(String::from_str("ZIP 안에 .dll 파일을 찾지 못했습니다"));
    }
    let folder = to_lowercase(folder_name);
    let mut i: usize = 0;
    while i < dlls.len()
        invariant
            ds == dlls@.map_values(|d: (String, Option<String>)| (d.0@, crate::session::optional_text(d.1))),
            ds.len() > 0,
            folder@ == lowercase(folder_name@),
            i <= ds.len(),
            forall|j: int| 0 <= j < i ==> !(ds[j].1 is Some && lowercase(ds[j].1->Some_0) == lowercase(folder_name@)),
        decreases ds.len() - i,
    {
        if let Some(stem) = &dlls[i].1 {
            let lower = to_lowercase(stem.as_str());
            if str_eq(lower.as_str(), folder.as_str()) {
                proof {
                    let w = i as int;
                    assert(ds[w].1 is Some && lowercase(ds[w].1->Some_0) == lowercase(folder_name@));
                    let c = choose|c: int|
                        0 <= c < ds.len() && ds[c].1 is Some && lowercase(ds[c].1->Some_0) == lowercase(folder_name@)
                            && forall|j: int|
                            0 <= j < c ==> !(ds[j].1 is Some && lowercase(ds[j].1->Some_0) == lowercase(folder_name@));
                    if c < w {
                    } else if w < c {
                        assert(!(ds[w].1 is Some && lowercase(ds[w].1->Some_0) == lowercase(folder_name@)));
                    }
                }
                return Ok(dlls[i].0.clone());
            }
        }
        i = i + 1;
    }
    Ok(dlls[0].0.clone())
}

/// The extension `dll` is recognised in any ASCII case and nothing else is.
pub proof fn lemma_dll_extension_in_any_case(ext: Seq<char>)
    ensures
        is_dll_extension_text(ext) <==> ext.len() == 3 && (ext[0] == 'd' || ext[0] == 'D') && (ext[1] == 'l'
            || ext[1] == 'L') && (ext[2] == 'l' || ext[2] == 'L'),
{
    if ext.len() == 3 {
        assert(ascii_lower(ext[0]) == 'd' <==> (ext[0] == 'd' || ext[0] == 'D'));
        assert(ascii_lower(ext[1]) == 'l' <==> (ext[1] == 'l' || ext[1] == 'L'));
        assert(ascii_lower(ext[2]) == 'l' <==> (ext[2] == 'l' || ext[2] == 'L'));
    }
}

proof fn lemma_first_matching_stem_exists(dlls: Seq<(Seq<char>, Option<Seq<char>>)>, folder: Seq<char>)
    requires
        exists|i: int|
            0 <= i < dlls.len() && dlls[i].1 is Some && lowercase(dlls[i].1->Some_0) == lowercase(folder),
    ensures
        exists|i: int|
            0 <= i < dlls.len() && dlls[i].1 is Some && lowercase(dlls[i].1->Some_0) == lowercase(folder)
                && forall|j: int|
                0 <= j < i ==> !(dlls[j].1 is Some && lowercase(dlls[j].1->Some_0) == lowercase(folder)),
    decreases dlls.len(),
{
    let p = dlls.drop_last();
    if exists|i: int| 0 <= i < p.len() && p[i].1 is Some && lowercase(p[i].1->Some_0) == lowercase(folder) {
        lemma_first_matching_stem_exists(p, folder);
        let i = choose|i: int|
            0 <= i < p.len() && p[i].1 is Some && lowercase(p[i].1->Some_0) == lowercase(folder) && forall|j: int|
                0 <= j < i ==> !(p[j].1 is Some && lowercase(p[j].1->Some_0) == lowercase(folder));
        assert(dlls[i] == p[i]);
        assert forall|j: int| 0 <= j < i implies !(dlls[j].1 is Some && lowercase(dlls[j].1->Some_0) == lowercase(
            folder,
        )) by {
            assert(dlls[j] == p[j]);
        }
    } else {
        let i = dlls.len() - 1;
        assert forall|j: int| 0 <= j < i implies !(dlls[j].1 is Some && lowercase(dlls[j].1->Some_0) == lowercase(
            folder,
        )) by {
            assert(dlls[j] == p[j]);
        }
        let w = choose|w: int|
            0 <= w < dlls.len() && dlls[w].1 is Some && lowercase(dlls[w].1->Some_0) == lowercase(folder);
        if w < i {
            assert(dlls[w] == p[w]);
        }
    }
}

/// The entry DLL of a plugin is one of its DLLs: the first whose file stem
/// names the plugin folder (ignoring case) when there is one, otherwise the
/// first DLL; a plugin without DLLs has none.
pub proof fn lemma_entry_dll_prefers_the_folder_name(dlls: Seq<(Seq<char>, Option<Seq<char>>)>, folder: Seq<char>)
    ensures
        dlls.len() == 0 <==> entry_dll(dlls, folder) is None,
        entry_dll(dlls, folder) matches Some(i) ==> 0 <= i < dlls.len(),
        (exists|i: int|
            0 <= i < dlls.len() && dlls[i].1 is Some && lowercase(dlls[i].1->Some_0) == lowercase(folder))
            ==> (entry_dll(dlls, folder) matches Some(i) && dlls[i].1 is Some && lowercase(dlls[i].1->Some_0)
            == lowercase(folder) && forall|j: int|
            0 <= j < i ==> !(dlls[j].1 is Some && lowercase(dlls[j].1->Some_0) == lowercase(folder))),
        dlls.len() > 0 && !(exists|i: int|
            0 <= i < dlls.len() && dlls[i].1 is Some && lowercase(dlls[i].1->Some_0) == lowercase(folder))
            ==> entry_dll(dlls, folder) == Some(0int),
{
    if exists|i: int|
        0 <= i < dlls.len() && dlls[i].1 is Some && lowercase(dlls[i].1->Some_0) == lowercase(folder) {
        lemma_first_matching_stem_exists(dlls, folder);
    }
}

} // verus!
