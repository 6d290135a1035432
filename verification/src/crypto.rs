//! Stored password format.
//!
//! A stored password is either `dpapi:<base64>` — data sealed with the
//! Windows data protection API, which only the same OS user can unseal — or
//! legacy plain text, read as is and sealed at the next save. Sealing and
//! unsealing are calls to the operating system made by the application;
//! this module reads and writes the stored text around them.

use vstd::prelude::*;
use base64::Engine;
use crate::text::push_str;

verus! {

/// The prefix of a sealed password.
pub const PREFIX: &'static str = "dpapi:";

/// The character of a 6-bit value in the standard base64 alphabet
/// (`A`–`Z`, `a`–`z`, `0`–`9`, `+`, `/`).
pub open spec fn base64_char(v: int) -> char {
    if v < 26 {
        ((65 + v) as u32) as char
    } else if v < 52 {
        ((97 + v - 26) as u32) as char
    } else if v < 62 {
        ((48 + v - 52) as u32) as char
    } else if v == 62 {
        '+'
    } else {
        '/'
    }
}

/// The standard base64 text (RFC 4648, with `=` padding) of some bytes:
/// each group of three bytes gives four characters, and a last group of one
/// or two bytes gives two or three characters and the padding.
pub open spec fn base64_standard(b: Seq<u8>) -> Seq<char>
    decreases b.len(),
{
    if b.len() == 0 {
        Seq::empty()
    } else {
        let x0 = b[0] as int;
        if b.len() == 1 {
            seq![base64_char(x0 / 4), base64_char((x0 % 4) * 16), '=', '=']
        } else {
            let x1 = b[1] as int;
            if b.len() == 2 {
                seq![base64_char(x0 / 4), base64_char((x0 % 4) * 16 + x1 / 16), base64_char((x1 % 16) * 4), '=']
            } else {
                let x2 = b[2] as int;
                seq![
                    base64_char(x0 / 4),
                    base64_char((x0 % 4) * 16 + x1 / 16),
                    base64_char((x1 % 16) * 4 + x2 / 64),
                    base64_char(x2 % 64),
                ] + base64_standard(b.skip(3))
            }
        }
    }
}

/// The bytes a text decodes to under canonical standard base64: those whose
/// encoding it is, if any (there is at most one, see
/// `lemma_base64_standard_injective`).
pub open spec fn base64_standard_decoded(text: Seq<char>) -> Option<Seq<u8>> {
    if exists|b: Seq<u8>| base64_standard(b) == text {
        Some(choose|b: Seq<u8>| base64_standard(b) == text)
    } else {
        None
    }
}

/// Calls `base64::engine::general_purpose::STANDARD.encode`, which writes
/// the padded standard base64 text of the bytes.
#[verifier::external_body]
fn base64_encode(bytes: &[u8]) -> (s: String)
    requires
        bytes@.len() <= usize::MAX / 2,
    ensures
        s@ == base64_standard(bytes@),
{
    base64::engine::general_purpose::STANDARD.encode(bytes)
}

/// Calls `base64::engine::general_purpose::STANDARD.decode`. That engine
/// requires canonical padding and no trailing bits, so it accepts exactly
/// the texts that are the standard encoding of some bytes, and gives back
/// those bytes.
#[verifier::external_body]
fn base64_decode(text: &str) -> (r: Option<Vec<u8>>)
    ensures
        match r {
            Some(v) => base64_standard(v@) == text@,
            None => forall|b: Seq<u8>| base64_standard(b) != text@,
        },
{
    base64::engine::general_purpose::STANDARD.decode(text).ok()
}

proof fn lemma_base64_char_injective(x: int, y: int)
    requires
        0 <= x < 64,
        0 <= y < 64,
        base64_char(x) == base64_char(y),
    ensures
        x == y,
{
}

proof fn lemma_base64_char_not_pad(x: int)
    requires
        0 <= x < 64,
    ensures
        base64_char(x) != '=',
{
}

proof fn lemma_base64_len(b: Seq<u8>)
    ensures
        base64_standard(b).len() == 4 * ((b.len() + 2) / 3),
    decreases b.len(),
{
    if b.len() >= 3 {
        lemma_base64_len(b.skip(3));
    }
}

proof fn lemma_sextets_determine_bytes(a0: int, a1: int, a2: int, b0: int, b1: int, b2: int)
    requires
        0 <= a0 < 256,
        0 <= a1 < 256,
        0 <= a2 < 256,
        0 <= b0 < 256,
        0 <= b1 < 256,
        0 <= b2 < 256,
        a0 / 4 == b0 / 4,
        (a0 % 4) * 16 + a1 / 16 == (b0 % 4) * 16 + b1 / 16,
        (a1 % 16) * 4 + a2 / 64 == (b1 % 16) * 4 + b2 / 64,
        a2 % 64 == b2 % 64,
    ensures
        a0 == b0,
        a1 == b1,
        a2 == b2,
{
    assert(a0 % 4 == b0 % 4 && a1 / 16 == b1 / 16);
    assert(a1 % 16 == b1 % 16 && a2 / 64 == b2 / 64);
}

proof fn lemma_base64_head(b: Seq<u8>)
    requires
        b.len() >= 1,
    ensures
        base64_standard(b).len() >= 4,
        base64_standard(b)[0] == base64_char(b[0] as int / 4),
        b.len() == 1 ==> base64_standard(b)[1] == base64_char((b[0] as int % 4) * 16)
            && base64_standard(b)[2] == '=' && base64_standard(b)[3] == '=' && base64_standard(b).len() == 4,
        b.len() >= 2 ==> base64_standard(b)[1] == base64_char((b[0] as int % 4) * 16 + b[1] as int / 16),
        b.len() == 2 ==> base64_standard(b)[2] == base64_char((b[1] as int % 16) * 4)
            && base64_standard(b)[3] == '=' && base64_standard(b).len() == 4,
        b.len() >= 3 ==> base64_standard(b)[2] == base64_char((b[1] as int % 16) * 4 + b[2] as int / 64)
            && base64_standard(b)[3] == base64_char(b[2] as int % 64) && base64_standard(b).skip(4)
            =~= base64_standard(b.skip(3)),
{
}

/// Different bytes have different standard base64 texts.
pub proof fn lemma_base64_standard_injective(a: Seq<u8>, b: Seq<u8>)
    requires
        base64_standard(a) == base64_standard(b),
    ensures
        a == b,
    decreases a.len(),
{
    lemma_base64_len(a);
    lemma_base64_len(b);
    let ea = base64_standard(a);
    let eb = base64_standard(b);
    if a.len() > 0 {
        lemma_base64_head(a);
    }
    if b.len() > 0 {
        lemma_base64_head(b);
    }
    if a.len() == 0 || b.len() == 0 {
        assert(a.len() == 0 && b.len() == 0);
        assert(a =~= b);
        return;
    }
    // the first group of four characters
    let (a0, b0) = (a[0] as int, b[0] as int);
    assert(ea[0] == eb[0]);
    lemma_base64_char_injective(a0 / 4, b0 / 4);
    if a.len() >= 3 && b.len() >= 3 {
        let (a1, a2, b1, b2) = (a[1] as int, a[2] as int, b[1] as int, b[2] as int);
        assert(ea[1] == eb[1] && ea[2] == eb[2] && ea[3] == eb[3]);
        lemma_base64_char_injective((a0 % 4) * 16 + a1 / 16, (b0 % 4) * 16 + b1 / 16);
        lemma_base64_char_injective((a1 % 16) * 4 + a2 / 64, (b1 % 16) * 4 + b2 / 64);
        lemma_base64_char_injective(a2 % 64, b2 % 64);
        lemma_sextets_determine_bytes(a0, a1, a2, b0, b1, b2);
        lemma_base64_standard_injective(a.skip(3), b.skip(3));
        assert(a =~= seq![a[0], a[1], a[2]] + a.skip(3));
        assert(b =~= seq![b[0], b[1], b[2]] + b.skip(3));
    } else if a.len() >= 3 || b.len() >= 3 {
        // the other is one or two bytes: four characters with padding
        if a.len() >= 3 {
            lemma_base64_char_not_pad(a[2] as int % 64);
            assert(ea[3] == eb[3]);
        } else {
            lemma_base64_char_not_pad(b[2] as int % 64);
            assert(ea[3] == eb[3]);
        }
    } else if a.len() == 1 && b.len() == 1 {
        assert(ea[1] == eb[1]);
        lemma_base64_char_injective((a0 % 4) * 16, (b0 % 4) * 16);
        assert(a =~= b);
    } else if a.len() == 2 && b.len() == 2 {
        let (a1, b1) = (a[1] as int, b[1] as int);
        assert(ea[1] == eb[1] && ea[2] == eb[2]);
        lemma_base64_char_injective((a0 % 4) * 16 + a1 / 16, (b0 % 4) * 16 + b1 / 16);
        lemma_base64_char_injective((a1 % 16) * 4, (b1 % 16) * 4);
        lemma_sextets_determine_bytes(a0, a1, 0, b0, b1, 0);
        assert(a =~= b);
    } else {
        // one byte against two: the third character is padding in one only
        assert(ea[2] == eb[2]);
        if a.len() == 2 {
            lemma_base64_char_not_pad((a[1] as int % 16) * 4);
        } else {
            lemma_base64_char_not_pad((b[1] as int % 16) * 4);
        }
    }
}

/// Standard base64 text decodes back to the bytes it was made from.
pub proof fn lemma_base64_round_trip(b: Seq<u8>)
    ensures
        base64_standard_decoded(base64_standard(b)) == Some(b),
{
    let t = base64_standard(b);
    assert(exists|x: Seq<u8>| base64_standard(x) == t);
    let c = choose|x: Seq<u8>| base64_standard(x) == t;
    lemma_base64_standard_injective(c, b);
}

/// The text of bytes read as UTF-8 with invalid sequences replaced.
pub uninterp spec fn utf8_lossy(bytes: Seq<u8>) -> Seq<char>;

/// Calls `String::from_utf8_lossy`; the contract claims the text is a
/// function of the bytes and that valid UTF-8 is read unchanged.
#[verifier::external_body]
fn from_utf8_lossy(bytes: &[u8]) -> (s: String)
    ensures
        s@ == utf8_lossy(bytes@),
        vstd::utf8::valid_utf8(bytes@) ==> s@ == vstd::utf8::decode_utf8(bytes@),
{
    String::from_utf8_lossy(bytes).into_owned()
}

/// What a stored password holds.
#[derive(Debug, Clone, PartialEq, Eq)]
pub enum StoredPassword {
    /// No password.
    Empty,
    /// A legacy plain-text password.
    Plain(String),
    /// Sealed data, to be unsealed by the operating system.
    Sealed(Vec<u8>),
    /// `dpapi:` followed by invalid base64.
    Undecodable,
}

/// How a stored password is read.
pub open spec fn stored_password_view(stored: Seq<char>) -> StoredPasswordView {
    if stored.len() == 0 {
        StoredPasswordView::Empty
    } else if stored.len() >= 6 && stored.take(6) == "dpapi:"@ {
        match base64_standard_decoded(stored.skip(6)) {
            Some(b) => StoredPasswordView::Sealed(b),
            None => StoredPasswordView::Undecodable,
        }
    } else {
        StoredPasswordView::Plain(stored)
    }
}

/// `StoredPassword` as plain values.
pub enum StoredPasswordView {
    Empty,
    Plain(Seq<char>),
    Sealed(Seq<u8>),
    Undecodable,
}

pub open spec fn password_view(p: StoredPassword) -> StoredPasswordView {
    match p {
        StoredPassword::Empty => StoredPasswordView::Empty,
        StoredPassword::Plain(s) => StoredPasswordView::Plain(s@),
        StoredPassword::Sealed(b) => StoredPasswordView::Sealed(b@),
        StoredPassword::Undecodable => StoredPasswordView::Undecodable,
    }
}

fn has_sealed_prefix(stored: &str) -> (b: bool)
    ensures
        b == (stored@.len() >= 6 && stored@.take(6) == "dpapi:"@),
{
    proof {
        reveal_strlit("dpapi:");
    }
    let prefix = PREFIX;
    let n = stored.unicode_len();
    if n < 6 {
        return false;
    }
    let mut i: usize = 0;
    while i < 6
        invariant
            n == stored@.len(),
            n >= 6,
            prefix@ == "dpapi:"@,
            prefix@.len() == 6,
            i <= 6,
            forall|j: int| 0 <= j < i ==> stored@[j] == prefix@[j],
        decreases 6 - i,
    {
        if stored.get_char(i) != prefix.get_char(i) {
            assert(stored@.take(6)[i as int] != "dpapi:"@[i as int]);
            return false;
        }
        i = i + 1;
    }
    assert(stored@.take(6) =~= "dpapi:"@);
    true
}

/// Reads a stored password.
pub fn classify_stored_password(stored: &str) -> (r: StoredPassword)
    ensures
        password_view(r) == stored_password_view(stored@),
{
    let n = stored.unicode_len();
    if n == 0 {
        return StoredPassword::Empty;
    }
    let has_prefix = has_sealed_prefix(stored);
    if has_prefix {
        let rest = stored.substring_char(6, n);
        assert(rest@ =~= stored@.skip(6));
        match base64_decode(rest) {
            Some(blob) => {
                proof {
                    lemma_base64_round_trip(blob@);
                }
                StoredPassword::Sealed(blob)
            },
            None => StoredPassword::Undecodable,
        }
    } else {
        StoredPassword::Plain(String::from_str(stored))
    }
}

/// The password text after unsealing: the unsealed bytes read as UTF-8, or
/// empty when unsealing failed.
pub fn unsealed_password(unsealed: Result<Vec<u8>, String>) -> (r: String)
    ensures
        match unsealed {
            Ok(bytes) => r@ == utf8_lossy(bytes@),
            Err(_) => r@.len() == 0,
        },
{
    match unsealed {
        Ok(bytes) => from_utf8_lossy(bytes.as_slice()),
        Err(_) => String::new(),
    }
}

/// How to obtain the plain text of a stored password.
#[derive(Debug, Clone, PartialEq, Eq)]
pub enum PasswordRead {
    /// The plain text is known: empty for no password or undecodable data,
    /// the text itself for a legacy plain-text password.
    Known(String),
    /// The sealed data must be unsealed first (see `unsealed_password`).
    Unseal(Vec<u8>),
}

/// Reads a stored password as far as the library can: everything but
/// unsealing, which the operating system does.
pub fn read_stored_password(stored: &str) -> (r: PasswordRead)
    ensures
        match stored_password_view(stored@) {
            StoredPasswordView::Empty => r matches PasswordRead::Known(s) && s@.len() == 0,
            StoredPasswordView::Undecodable => r matches PasswordRead::Known(s) && s@.len() == 0,
            StoredPasswordView::Plain(p) => r matches PasswordRead::Known(s) && s@ == p,
            StoredPasswordView::Sealed(b) => r matches PasswordRead::Unseal(v) && v@ == b,
        },
{
    match classify_stored_password(stored) {
        StoredPassword::Empty => PasswordRead::Known(String::new()),
        StoredPassword::Undecodable => PasswordRead::Known(String::new()),
        StoredPassword::Plain(s) => PasswordRead::Known(s),
        StoredPassword::Sealed(blob) => PasswordRead::Unseal(blob),
    }
}

/// The stored form of sealed data: `dpapi:` and its base64.
pub fn sealed_text(blob: &[u8]) -> (s: String)
    requires
        blob@.len() <= usize::MAX / 2,
    ensures
        s@ == "dpapi:"@ + base64_standard(blob@),
        stored_password_view(s@) == StoredPasswordView::Sealed(blob@),
{
    let mut s = String::from_str(PREFIX);
    let b64 = base64_encode(blob);
    proof {
        lemma_base64_round_trip(blob@);
    }
    push_str(&mut s, b64.as_str());
    proof {
        reveal_strlit("dpapi:");
        assert(s@.take(6) =~= "dpapi:"@);
        assert(s@.skip(6) =~= b64@);
    }
    s
}

/// The stored form of a password: empty stays empty; otherwise the sealed
/// data that sealing gave, and a sealing failure is an error (a password is
/// never stored in plain text).
pub fn encrypted_text(plain: &str, sealed: Result<Vec<u8>, String>) -> (r: Result<String, String>)
    requires
        sealed matches Ok(b) ==> b@.len() <= usize::MAX / 2,
    ensures
        plain@.len() == 0 ==> (r matches Ok(s) && s@.len() == 0),
        plain@.len() > 0 ==> match sealed {
            Ok(b) => (r matches Ok(s) && s@ == "dpapi:"@ + base64_standard(b@) && stored_password_view(s@)
                == StoredPasswordView::Sealed(b@)),
            Err(e) => r == Err::<String, String>(e),
        },
{
    if plain.unicode_len() == 0 {
        return Ok(String::new());
    }
    match sealed {
        Ok(blob) => Ok(sealed_text(blob.as_slice())),
        Err(e) => Err(e),
    }
}

} // verus!
