//! Checks on a link before it is handed to the operating system to open.

use vstd::prelude::*;
use crate::text::{push_str, str_eq, trimmed};
use crate::updater::{parse_url_parts, parsed_url, url_parts_view};

verus! {

/// The Unicode general category Cc (control codes): U+0000..U+001F and
/// U+007F..U+009F.
pub open spec fn is_control_char(c: char) -> bool {
    (c as u32) <= 0x1F || (0x7F <= (c as u32) && (c as u32) <= 0x9F)
}

/// Whether a character is a control code.
pub fn is_control_code(c: char) -> (b: bool)
    ensures
        b == is_control_char(c),
{
    let u = c as u32;
    u <= 0x1F || (0x7F <= u && u <= 0x9F)
}

pub open spec fn has_control_char(s: Seq<char>) -> bool {
    exists|i: int| 0 <= i < s.len() && is_control_char(#[trigger] s[i])
}

/// Whether a link may be opened: no surrounding whitespace, no control
/// character, and an http(s) URL with a host or a mailto/tel URL with a
/// value; any other scheme is refused.
pub open spec fn external_url_check(url: Seq<char>) -> Result<(), Seq<char>> {
    if trimmed(url).len() == 0 {
        Err("URL이 비어있습니다"@)
    } else if trimmed(url) != url {
        Err("URL 앞뒤 공백은 허용되지 않습니다"@)
    } else if has_control_char(url) {
        Err("URL에 허용되지 않는 문자가 포함됨"@)
    } else {
        match parsed_url(url) {
            Err(e) => Err("URL 형식 오류: "@ + e),
            Ok((scheme, host, path)) => if scheme == "http"@ || scheme == "https"@ {
                if host is None {
                    Err("http/https URL에는 host가 필요합니다"@)
                } else {
                    Ok(())
                }
            } else if scheme == "mailto"@ || scheme == "tel"@ {
                if path.len() == 0 {
                    Err(scheme + " URL 값이 비어있습니다"@)
                } else {
                    Ok(())
                }
            } else {
                Err("허용되지 않는 URL scheme: "@ + scheme)
            },
        }
    }
}

pub open spec fn unit_result_view(r: Result<(), String>) -> Result<(), Seq<char>> {
    match r {
        Ok(()) => Ok(()),
        Err(e) => Err(e@),
    }
}

fn find_control_char(s: &str) -> (b: bool)
    ensures
        b == has_control_char(s@),
{
    let n = s.unicode_len();
    let mut i: usize = 0;
    while i < n
        invariant
            n == s@.len(),
            i <= n,
            forall|j: int| 0 <= j < i ==> !is_control_char(#[trigger] s@[j]),
        decreases n - i,
    {
        if is_control_code(s.get_char(i)) {
            return true;
        }
        i = i + 1;
    }
    false
}

fn text_then(head: &str, tail: &str) -> (s: String)
    ensures
        s@ == head@ + tail@,
{
    let mut s = String::from_str(head);
    push_str(&mut s, tail);
    s
}

/// Checks what parsing a link gave; see `external_url_check`.
pub fn check_parsed_external_url(parts: Result<(String, Option<String>, String), String>) -> (r: Result<(), String>)
    ensures
        unit_result_view(r) == match url_parts_view(parts) {
            Err(e) => Err::<(), Seq<char>>("URL 형식 오류: "@ + e),
            Ok((scheme, host, path)) => if scheme == "http"@ || scheme == "https"@ {
                if host is None {
                    Err("http/https URL에는 host가 필요합니다"@)
                } else {
                    Ok(())
                }
            } else if scheme == "mailto"@ || scheme == "tel"@ {
                if path.len() == 0 {
                    Err(scheme + " URL 값이 비어있습니다"@)
                } else {
                    Ok(())
                }
            } else {
                Err("허용되지 않는 URL scheme: "@ + scheme)
            },
        },
{
    match parts {
        Err(e) => Err(text_then("URL 형식 오류: ", e.as_str())),
        Ok((scheme, host, path)) => {
            let s = scheme.as_str();
            if str_eq(s, "http") || str_eq(s, "https") {
                if host.is_none() {
                    Err(String::from_str("http/https URL에는 host가 필요합니다"))
                } else {
                    Ok(())
                }
            } else if str_eq(s, "mailto") || str_eq(s, "tel") {
                if path.as_str().unicode_len() == 0 {
                    Err(text_then(s, " URL 값이 비어있습니다"))
                } else {
                    Ok(())
                }
            } else {
                Err(text_then("허용되지 않는 URL scheme: ", s))
            }
        },
    }
}

/// Checks a link before it is opened; see `external_url_check`.
pub fn validate_external_url(url: &str) -> (r: Result<(), String>)
    ensures
        unit_result_view(r) == external_url_check(url@),
{
    let t = url.trim();
    if t.unicode_len() == 0 {
        return Err(String::from_str("URL이 비어있습니다"));
    }
    if !str_eq(t, url) {
        return Err(String::from_str("URL 앞뒤 공백은 허용되지 않습니다"));
    }
    if find_control_char(url) {
        return Err(String::from_str("URL에 허용되지 않는 문자가 포함됨"));
    }
    let parts = parse_url_parts(url);
    check_parsed_external_url(parts)
}

/// Only plain web, mail and phone links are opened: an accepted link is not
/// empty, has no control character, parses with scheme `http` or `https`
/// and a host, or with scheme `mailto` or `tel` and a non-empty value.
pub proof fn lemma_opened_links_are_plain(url: Seq<char>)
    ensures
        external_url_check(url) is Ok ==> {
            &&& url.len() > 0
            &&& trimmed(url) == url
            &&& forall|i: int|
                0 <= i < url.len() ==> {
                    let u = (#[trigger] url[i]) as u32;
                    u > 0x1F && !(0x7F <= u && u <= 0x9F)
                }
            &&& parsed_url(url) matches Ok((scheme, host, path)) && ((scheme == "http"@ || scheme == "https"@)
                && host is Some || (scheme == "mailto"@ || scheme == "tel"@) && path.len() > 0)
        },
{
    if external_url_check(url) is Ok {
        assert forall|i: int| 0 <= i < url.len() implies {
            let u = (#[trigger] url[i]) as u32;
            u > 0x1F && !(0x7F <= u && u <= 0x9F)
        } by {
            assert(!is_control_char(url[i]));
        }
    }
}

} // verus!
