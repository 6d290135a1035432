//! Text helpers shared by the launcher modules: decimal and hexadecimal
//! rendering, Unicode whitespace trimming and ordering of strings.

use vstd::prelude::*;

verus! {

pub assume_specification[ String::push ](s: &mut String, ch: char)
    ensures
        final(s)@ == old(s)@.push(ch),
;

/// The character of a decimal digit.
pub open spec fn digit_char(d: nat) -> char {
    ((48 + d) as u32) as char
}

/// Decimal digits of a natural number, most significant first, without
/// leading zeros ("0" for zero).
pub open spec fn nat_digits(n: nat) -> Seq<char>
    decreases n,
{
    if n < 10 {
        seq![digit_char(n)]
    } else {
        nat_digits(n / 10).push(digit_char(n % 10))
    }
}

/// Decimal rendering of an integer, with a leading '-' for negative values.
pub open spec fn int_digits(i: int) -> Seq<char> {
    if i < 0 {
        seq!['-'] + nat_digits((-i) as nat)
    } else {
        nat_digits(i as nat)
    }
}

fn push_digit_char(out: &mut String, d: u64)
    requires
        d < 10,
    ensures
        final(out)@ == old(out)@.push(digit_char(d as nat)),
{
    let c = ((48u64 + d) as u8) as char;
    assert(c == digit_char(d as nat)) by {
        assert((48u64 + d) as u8 == (48 + d) as u8);
    }
    out.push(c);
}

/// Appends the decimal digits of `n` to `out`.
pub fn push_u64_digits(out: &mut String, n: u64)
    ensures
        final(out)@ == old(out)@ + nat_digits(n as nat),
    decreases n,
{
    if n < 10 {
        push_digit_char(out, n);
        assert(nat_digits(n as nat) =~= seq![digit_char(n as nat)]);
        assert(old(out)@.push(digit_char(n as nat)) =~= old(out)@ + seq![digit_char(n as nat)]);
    } else {
        push_u64_digits(out, n / 10);
        push_digit_char(out, n % 10);
        assert(old(out)@ + nat_digits(n as nat) =~= (old(out)@ + nat_digits((n / 10) as nat)).push(
            digit_char((n % 10) as nat),
        ));
    }
}

/// Decimal rendering of an unsigned integer, as `format!("{}", n)` gives it.
pub fn u64_to_decimal(n: u64) -> (s: String)
    ensures
        s@ == nat_digits(n as nat),
{
    let mut s = String::new();
    push_u64_digits(&mut s, n);
    assert(s@ =~= nat_digits(n as nat));
    s
}

/// Appends the decimal rendering of a signed integer to `out`.
pub fn push_i64_digits(out: &mut String, i: i64)
    ensures
        final(out)@ == old(out)@ + int_digits(i as int),
{
    if i < 0 {
        out.push('-');
        let magnitude: u64 = if i == i64::MIN {
            9223372036854775808u64
        } else {
            (-i) as u64
        };
        push_u64_digits(out, magnitude);
        assert(old(out)@ + int_digits(i as int) =~= old(out)@.push('-') + nat_digits(
            magnitude as nat,
        ));
    } else {
        push_u64_digits(out, i as u64);
    }
}

/// Decimal rendering of a signed integer, as `format!("{}", i)` gives it.
pub fn i64_to_decimal(i: i64) -> (s: String)
    ensures
        s@ == int_digits(i as int),
{
    let mut s = String::new();
    push_i64_digits(&mut s, i);
    assert(s@ =~= int_digits(i as int));
    s
}

/// The character of a hexadecimal digit, in lower or upper case.
pub open spec fn hex_char(d: nat, upper: bool) -> char {
    if d < 10 {
        digit_char(d)
    } else if upper {
        ((55 + d) as u32) as char
    } else {
        ((87 + d) as u32) as char
    }
}

/// Hexadecimal digits of a natural number without leading zeros.
pub open spec fn hex_digits(n: nat, upper: bool) -> Seq<char>
    decreases n,
{
    if n < 16 {
        seq![hex_char(n, upper)]
    } else {
        hex_digits(n / 16, upper).push(hex_char(n % 16, upper))
    }
}

/// Appends one hexadecimal digit.
pub fn push_hex_char(out: &mut String, d: u64, upper: bool)
    requires
        d < 16,
    ensures
        final(out)@ == old(out)@.push(hex_char(d as nat, upper)),
{
    let code: u64 = if d < 10 {
        48 + d
    } else if upper {
        55 + d
    } else {
        87 + d
    };
    let c = (code as u8) as char;
    out.push(c);
}

/// Appends the hexadecimal digits of `n` (as `{:x}` or `{:X}` renders them).
pub fn push_hex_digits(out: &mut String, n: u64, upper: bool)
    ensures
        final(out)@ == old(out)@ + hex_digits(n as nat, upper),
    decreases n,
{
    if n < 16 {
        push_hex_char(out, n, upper);
        assert(old(out)@.push(hex_char(n as nat, upper)) =~= old(out)@ + hex_digits(
            n as nat,
            upper,
        ));
    } else {
        push_hex_digits(out, n / 16, upper);
        push_hex_char(out, n % 16, upper);
        assert(old(out)@ + hex_digits(n as nat, upper) =~= (old(out)@ + hex_digits(
            (n / 16) as nat,
            upper,
        )).push(hex_char((n % 16) as nat, upper)));
    }
}

/// Hexadecimal rendering of an unsigned integer.
pub fn u64_to_hex(n: u64, upper: bool) -> (s: String)
    ensures
        s@ == hex_digits(n as nat, upper),
{
    let mut s = String::new();
    push_hex_digits(&mut s, n, upper);
    assert(s@ =~= hex_digits(n as nat, upper));
    s
}

/// Appends a string slice.
pub fn push_str(out: &mut String, piece: &str)
    ensures
        final(out)@ == old(out)@ + piece@,
{
    out.append(piece);
}

/// Unicode `White_Space` property, which `char::is_whitespace` implements.
pub open spec fn is_ws(c: char) -> bool {
    let u = c as u32;
    (0x09 <= u <= 0x0D) || u == 0x20 || u == 0x85 || u == 0xA0 || u == 0x1680 || (0x2000 <= u
        <= 0x200A) || u == 0x2028 || u == 0x2029 || u == 0x202F || u == 0x205F || u == 0x3000
}

/// Whether a character is Unicode whitespace.
pub fn is_whitespace_char(c: char) -> (b: bool)
    ensures
        b == is_ws(c),
{
    let u = c as u32;
    (0x09 <= u && u <= 0x0D) || u == 0x20 || u == 0x85 || u == 0xA0 || u == 0x1680 || (0x2000 <= u
        && u <= 0x200A) || u == 0x2028 || u == 0x2029 || u == 0x202F || u == 0x205F || u == 0x3000
}

/// Number of leading whitespace characters.
pub open spec fn leading_ws(s: Seq<char>) -> nat
    decreases s.len(),
{
    if s.len() == 0 || !is_ws(s[0]) {
        0
    } else {
        1 + leading_ws(s.drop_first())
    }
}

/// Number of trailing whitespace characters.
pub open spec fn trailing_ws(s: Seq<char>) -> nat
    decreases s.len(),
{
    if s.len() == 0 || !is_ws(s.last()) {
        0
    } else {
        1 + trailing_ws(s.drop_last())
    }
}

/// A string without its leading and trailing whitespace, as `str::trim` gives it.
pub open spec fn trimmed(s: Seq<char>) -> Seq<char> {
    let t = s.skip(leading_ws(s) as int);
    t.take(t.len() - trailing_ws(t))
}

pub assume_specification<'a>[ str::trim ](s: &'a str) -> (r: &'a str)
    ensures
        r@ == trimmed(s@),
;

/// Whether a character is whitespace or a double quote.
pub open spec fn needs_quoting_char(c: char) -> bool {
    is_ws(c) || c == '"'
}

/// Compares two string slices character by character.
pub fn str_eq(a: &str, b: &str) -> (r: bool)
    ensures
        r == (a@ == b@),
{
    let n = a.unicode_len();
    if n != b.unicode_len() {
        return false;
    }
    let mut i: usize = 0;
    while i < n
        invariant
            n == a@.len(),
            n == b@.len(),
            i <= n,
            forall|j: int| 0 <= j < i ==> a@[j] == b@[j],
        decreases n - i,
    {
        if a.get_char(i) != b.get_char(i) {
            return false;
        }
        i = i + 1;
    }
    assert(a@ =~= b@);
    true
}

/// Lexicographic order of character sequences by code point; this is the
/// order of `str`'s `Ord` (UTF-8 byte order agrees with code point order).
pub open spec fn seq_lt(a: Seq<char>, b: Seq<char>) -> bool
    decreases a.len(),
{
    if b.len() == 0 {
        false
    } else if a.len() == 0 {
        true
    } else if (a[0] as int) < (b[0] as int) {
        true
    } else if a[0] == b[0] {
        seq_lt(a.drop_first(), b.drop_first())
    } else {
        false
    }
}

proof fn lemma_seq_lt_step(a: Seq<char>, b: Seq<char>, i: int)
    requires
        0 <= i <= a.len(),
        i <= b.len(),
        forall|j: int| 0 <= j < i ==> a[j] == b[j],
    ensures
        seq_lt(a, b) == seq_lt(a.skip(i), b.skip(i)),
    decreases i,
{
    if i > 0 {
        assert(a[0] == b[0]);
        assert(seq_lt(a, b) == seq_lt(a.drop_first(), b.drop_first()));
        assert(a.drop_first().skip(i - 1) =~= a.skip(i));
        assert(b.drop_first().skip(i - 1) =~= b.skip(i));
        assert forall|j: int| 0 <= j < i - 1 implies a.drop_first()[j] == b.drop_first()[j] by {
            assert(a.drop_first()[j] == a[j + 1]);
            assert(b.drop_first()[j] == b[j + 1]);
        }
        lemma_seq_lt_step(a.drop_first(), b.drop_first(), i - 1);
    } else {
        assert(a.skip(0) =~= a);
        assert(b.skip(0) =~= b);
    }
}

/// Whether `a` sorts strictly before `b`.
pub fn str_lt(a: &str, b: &str) -> (r: bool)
    ensures
        r == seq_lt(a@, b@),
{
    let na = a.unicode_len();
    let nb = b.unicode_len();
    let mut i: usize = 0;
    while i < na && i < nb
        invariant
            na == a@.len(),
            nb == b@.len(),
            i <= na,
            i <= nb,
            forall|j: int| 0 <= j < i ==> a@[j] == b@[j],
        decreases na - i,
    {
        let ca = a.get_char(i);
        let cb = b.get_char(i);
        if ca != cb {
            proof {
                lemma_seq_lt_step(a@, b@, i as int);
            }
            return (ca as u32) < (cb as u32);
        }
        i = i + 1;
    }
    proof {
        lemma_seq_lt_step(a@, b@, i as int);
    }
    i < nb
}

/// Strict lexicographic order is irreflexive and asymmetric.
pub proof fn lemma_seq_lt_irreflexive(a: Seq<char>, b: Seq<char>)
    ensures
        !seq_lt(a, a),
        !(seq_lt(a, b) && seq_lt(b, a)),
    decreases a.len(),
{
    if a.len() > 0 && b.len() > 0 {
        lemma_seq_lt_irreflexive(a.drop_first(), b.drop_first());
    } else if a.len() > 0 {
        lemma_seq_lt_irreflexive(a.drop_first(), a.drop_first());
    }
}

/// Strict lexicographic order is transitive.
pub proof fn lemma_seq_lt_transitive(a: Seq<char>, b: Seq<char>, c: Seq<char>)
    ensures
        seq_lt(a, b) && seq_lt(b, c) ==> seq_lt(a, c),
    decreases a.len(),
{
    if a.len() > 0 && b.len() > 0 && c.len() > 0 {
        lemma_seq_lt_transitive(a.drop_first(), b.drop_first(), c.drop_first());
    }
}

/// Strict lexicographic order is total on distinct sequences.
pub proof fn lemma_seq_lt_total(a: Seq<char>, b: Seq<char>)
    ensures
        a != b ==> seq_lt(a, b) || seq_lt(b, a),
    decreases a.len(),
{
    if a.len() > 0 && b.len() > 0 {
        lemma_seq_lt_total(a.drop_first(), b.drop_first());
        if a[0] != b[0] {
            assert((a[0] as int) != (b[0] as int));
        }
        if a[0] == b[0] && a.drop_first() == b.drop_first() {
            assert(a =~= b) by {
                assert(a.drop_first().len() == b.drop_first().len());
                assert(a.len() == b.len());
                assert forall|j: int| 0 <= j < a.len() implies a[j] == b[j] by {
                    if j > 0 {
                        assert(a[j] == a.drop_first()[j - 1]);
                        assert(b[j] == b.drop_first()[j - 1]);
                    }
                }
            }
        }
    } else if a.len() == 0 && b.len() == 0 {
        assert(a =~= b);
    }
}


/// The pieces of the first `n` characters split at `sep`: the finished
/// pieces and the piece in progress.
pub open spec fn split_prefix(s: Seq<char>, sep: char, n: int) -> (Seq<Seq<char>>, Seq<char>)
    decreases n,
{
    if n <= 0 {
        (Seq::empty(), Seq::empty())
    } else {
        let (ps, cur) = split_prefix(s, sep, n - 1);
        if s[n - 1] == sep {
            (ps.push(cur), Seq::empty())
        } else {
            (ps, cur.push(s[n - 1]))
        }
    }
}

/// A text split at every `sep`, as `str::split` splits it.
pub open spec fn split_on(s: Seq<char>, sep: char) -> Seq<Seq<char>> {
    let (ps, cur) = split_prefix(s, sep, s.len() as int);
    ps.push(cur)
}

pub proof fn lemma_split_prefix_step(s: Seq<char>, sep: char, n: int)
    requires
        0 <= n < s.len(),
    ensures
        split_prefix(s, sep, n + 1) == (if s[n] == sep {
            (split_prefix(s, sep, n).0.push(split_prefix(s, sep, n).1), Seq::<char>::empty())
        } else {
            (split_prefix(s, sep, n).0, split_prefix(s, sep, n).1.push(s[n]))
        }),
{
}

pub proof fn lemma_split_on_extends(s: Seq<char>, sep: char, n: int)
    requires
        0 <= n <= s.len(),
    ensures
        split_on(s, sep).len() >= split_prefix(s, sep, n).0.len(),
        forall|j: int|
            0 <= j < split_prefix(s, sep, n).0.len() ==> split_on(s, sep)[j] == #[trigger] split_prefix(
                s,
                sep,
                n,
            ).0[j],
    decreases s.len() - n,
{
    let a = split_prefix(s, sep, n).0;
    if n < s.len() {
        lemma_split_on_extends(s, sep, n + 1);
        lemma_split_prefix_step(s, sep, n);
        let b = split_prefix(s, sep, n + 1).0;
        assert forall|j: int| 0 <= j < a.len() implies split_on(s, sep)[j] == #[trigger] a[j] by {
            assert(b[j] == a[j]);
        }
    } else {
        let cur = split_prefix(s, sep, n).1;
        assert(split_on(s, sep) == a.push(cur));
        assert forall|j: int| 0 <= j < a.len() implies split_on(s, sep)[j] == #[trigger] a[j] by {
            assert(a.push(cur)[j] == a[j]);
        }
    }
}

/// Splits a text at every `sep`.
pub fn split_text(s: &str, sep: char) -> (r: Vec<String>)
    ensures
        r@.map_values(|x: String| x@) == split_on(s@, sep),
{
    let n = s.unicode_len();
    let mut pieces: Vec<String> = Vec::new();
    let mut current = String::new();
    let mut i: usize = 0;
    assert(pieces@.map_values(|x: String| x@) =~= Seq::<Seq<char>>::empty());
    while i < n
        invariant
            n == s@.len(),
            i <= n,
            pieces@.map_values(|x: String| x@) == split_prefix(s@, sep, i as int).0,
            current@ == split_prefix(s@, sep, i as int).1,
        decreases n - i,
    {
        let c = s.get_char(i);
        proof {
            lemma_split_prefix_step(s@, sep, i as int);
        }
        if c == sep {
            let ghost before = pieces@.map_values(|x: String| x@);
            let piece = current;
            current = String::new();
            let ghost pv = piece@;
            pieces.push(piece);
            assert(pieces@.map_values(|x: String| x@) =~= before.push(pv));
        } else {
            current.push(c);
        }
        i = i + 1;
    }
    let ghost before = pieces@.map_values(|x: String| x@);
    let ghost cv = current@;
    pieces.push(current);
    assert(pieces@.map_values(|x: String| x@) =~= before.push(cv));
    pieces
}

} // verus!
