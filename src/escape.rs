//! The hex-escape notation for bytes that are not printable text: `\xHH`,
//! with two lowercase hexadecimal digits.
//!
//! [`unescape_unicode`] decodes it in a typed command line, and
//! [`format_vec_with_unicode`] writes it when a reply holds bytes that are not
//! UTF-8, so that what is shown can be typed back.

use vstd::prelude::*;
use vstd::utf8::{decode_utf8, encode_utf8, is_ascii_chars, is_ascii_chars_encode_utf8, valid_utf8};
use crate::text::{push_char, utf8_text};

verus! {

/// The byte of `\`.
pub const BACKSLASH: u8 = 92;

/// `b` is a lowercase hexadecimal digit: `0`-`9` or `a`-`f`.
pub open spec fn is_lower_hex(b: u8) -> bool {
    (48 <= b && b <= 57) || (97 <= b && b <= 102)
}

/// The value of the lowercase hexadecimal digit `b`.
pub open spec fn hex_value(b: u8) -> nat {
    if b <= 57 {
        (b - 48) as nat
    } else {
        (b - 87) as nat
    }
}

/// The lowercase hexadecimal digit of `d < 16`.
pub open spec fn hex_char(d: nat) -> char {
    if d < 10 {
        ((48 + d) as u8) as char
    } else {
        ((87 + d) as u8) as char
    }
}

/// An escape `\xHH` starts at position `i` of `s`.
pub open spec fn hex_escape_at(s: Seq<u8>, i: int) -> bool {
    &&& 0 <= i
    &&& i + 4 <= s.len()
    &&& s[i] == BACKSLASH
    &&& s[i + 1] == 120
    &&& is_lower_hex(s[i + 2])
    &&& is_lower_hex(s[i + 3])
}

/// The byte that the escape at position `i` of `s` stands for.
pub open spec fn escaped_byte(s: Seq<u8>, i: int) -> u8 {
    (hex_value(s[i + 2]) * 16 + hex_value(s[i + 3])) as u8
}

/// The hex-unescape pass over `s`, from position `i` on. An escape that
/// follows a backslash of the input is kept as it stands.
pub open spec fn unescape_from(s: Seq<u8>, i: nat) -> Seq<u8>
    decreases s.len() - i,
{
    if i >= s.len() {
        seq![]
    } else if hex_escape_at(s, i as int) {
        if i > 0 && s[i - 1] == BACKSLASH {
            s.subrange(i as int, i + 4int) + unescape_from(s, i + 4)
        } else {
            seq![escaped_byte(s, i as int)] + unescape_from(s, i + 4)
        }
    } else {
        seq![s[i as int]] + unescape_from(s, i + 1)
    }
}

/// The hex-unescape pass over the whole of `s`.
pub open spec fn unescape(s: Seq<u8>) -> Seq<u8> {
    unescape_from(s, 0)
}

/// The text of line `s` after the hex-unescape pass, or `None` when the bytes
/// that come out are not UTF-8.
pub open spec fn unescaped_text(s: Seq<char>) -> Option<Seq<char>> {
    let b = unescape(encode_utf8(s));
    if valid_utf8(b) {
        Some(decode_utf8(b))
    } else {
        None
    }
}

/// `b` is shown as itself: a printable ASCII byte, not a control byte.
pub open spec fn printable(b: u8) -> bool {
    32 <= b && b < 127
}

/// How the binary-safe fallback shows byte `b`.
pub open spec fn byte_display(b: u8) -> Seq<char> {
    if printable(b) {
        seq![b as char]
    } else {
        seq!['\\', 'x', hex_char(b as nat / 16), hex_char(b as nat % 16)]
    }
}

/// The binary-safe fallback: each byte shown in turn.
pub open spec fn escaped(b: Seq<u8>) -> Seq<char>
    decreases b.len(),
{
    if b.len() == 0 {
        seq![]
    } else {
        byte_display(b[0]) + escaped(b.drop_first())
    }
}

fn is_lower_hex_byte(b: u8) -> (r: bool)
    ensures
        r == is_lower_hex(b),
{
    (48 <= b && b <= 57) || (97 <= b && b <= 102)
}

fn hex_digit_value(b: u8) -> (v: u8)
    requires
        is_lower_hex(b),
    ensures
        v as nat == hex_value(b),
{
    if b <= 57 {
        b - 48
    } else {
        b - 87
    }
}

fn hex_digit_char(d: u8) -> (c: char)
    requires
        d < 16,
    ensures
        c == hex_char(d as nat),
{
    if d < 10 {
        (48 + d) as char
    } else {
        (87 + d) as char
    }
}

/// The hex-unescape pass on bytes: each `\xHH` becomes the byte `0xHH`, but
/// where the byte before it is itself a backslash; all else is copied.
pub fn unescape_bytes(s: &[u8]) -> (r: Vec<u8>)
    ensures
        r@ == unescape(s@),
{
    let n = s.len();
    let mut out: Vec<u8> = Vec::new();
    let mut i: usize = 0;
    while i < n
        invariant
            i <= n,
            n == s@.len(),
            unescape(s@) == out@ + unescape_from(s@, i as nat),
        decreases n - i,
    {
        let ghost before = out@;
        let ghost at = i;
        if n - i >= 4 && s[i] == BACKSLASH && s[i + 1] == 120 && is_lower_hex_byte(s[i + 2])
            && is_lower_hex_byte(s[i + 3]) {
            if i > 0 && s[i - 1] == BACKSLASH {
                out.push(s[i]);
                out.push(s[i + 1]);
                out.push(s[i + 2]);
                out.push(s[i + 3]);
                assert(out@ =~= before + s@.subrange(at as int, at + 4));
            } else {
                let hi = hex_digit_value(s[i + 2]);
                let lo = hex_digit_value(s[i + 3]);
                out.push(hi * 16 + lo);
                assert(out@ =~= before + seq![escaped_byte(s@, at as int)]);
            }
            i = i + 4;
        } else {
            out.push(s[i]);
            assert(out@ =~= before + seq![s@[at as int]]);
            i = i + 1;
        }
        assert(unescape_from(s@, at as nat) =~= out@.subrange(before.len() as int, out@.len() as int)
            + unescape_from(s@, i as nat));
        assert(unescape(s@) =~= out@ + unescape_from(s@, i as nat));
    }
    assert(out@ + unescape_from(s@, i as nat) =~= out@);
    out
}

/// The hex-unescape pass on a command line. `None` where the bytes that it
/// gives are not UTF-8.
pub fn unescape_unicode(s: &str) -> (r: Option<String>)
    ensures
        r.is_some() == unescaped_text(s@).is_some(),
        r matches Some(t) ==> unescaped_text(s@) == Some(t@),
{
    let u = unescape_bytes(s.as_bytes());
    match utf8_text(u.as_slice()) {
        Some(t) => Some(t.to_owned()),
        None => None,
    }
}

/// Appends the binary-safe fallback of `data` to `out`.
pub fn push_escaped(out: &mut String, data: &[u8])
    ensures
        final(out)@ == old(out)@ + escaped(data@),
{
    let n = data.len();
    let mut i: usize = 0;
    assert(data@.subrange(0, n as int) =~= data@);
    while i < n
        invariant
            i <= n,
            n == data@.len(),
            old(out)@ + escaped(data@) == out@ + escaped(data@.subrange(i as int, n as int)),
        decreases n - i,
    {
        let ghost before = out@;
        let b = data[i];
        if 32 <= b && b < 127 {
            push_char(out, b as char);
        } else {
            push_char(out, '\\');
            push_char(out, 'x');
            push_char(out, hex_digit_char(b / 16));
            push_char(out, hex_digit_char(b % 16));
        }
        assert(out@ =~= before + byte_display(b));
        assert(data@.subrange(i as int, n as int).drop_first() =~= data@.subrange(i + 1, n as int));
        i = i + 1;
        assert(old(out)@ + escaped(data@) =~= out@ + escaped(data@.subrange(i as int, n as int)));
    }
    assert(out@ + escaped(data@.subrange(n as int, n as int)) =~= out@);
}

/// The binary-safe fallback for bytes that are not UTF-8: a printable ASCII
/// byte stands as itself, any other as `\xHH` with two lowercase hex digits.
pub fn format_vec_with_unicode(data: Vec<u8>) -> (r: String)
    ensures
        r@ == escaped(data@),
{
    let mut out = String::new();
    push_escaped(&mut out, data.as_slice());
    assert(out@ =~= escaped(data@));
    out
}

/// The bytes of a sequence of ASCII characters.
pub open spec fn ascii_bytes(cs: Seq<char>) -> Seq<u8> {
    cs.map_values(|c: char| c as u8)
}

proof fn lemma_hex_char(d: nat)
    requires
        d < 16,
    ensures
        is_lower_hex(hex_char(d) as u8),
        hex_value(hex_char(d) as u8) == d,
        hex_char(d) as u8 != BACKSLASH,
        '\0' <= hex_char(d) <= '\u{7f}',
{
}

proof fn lemma_escaped_is_ascii(b: Seq<u8>)
    ensures
        is_ascii_chars(escaped(b)),
    decreases b.len(),
{
    if b.len() > 0 {
        lemma_escaped_is_ascii(b.drop_first());
        let d = byte_display(b[0]);
        if !printable(b[0]) {
            lemma_hex_char(b[0] as nat / 16);
            lemma_hex_char(b[0] as nat % 16);
        }
        assert(forall|i| 0 <= i < d.len() ==> '\0' <= #[trigger] d[i] <= '\u{7f}');
        let e = escaped(b);
        let r = escaped(b.drop_first());
        assert(e == d + r);
        assert forall|i| 0 <= i < e.len() implies '\0' <= #[trigger] e[i] <= '\u{7f}' by {
            if i >= d.len() {
                assert(e[i] == r[i - d.len()]);
            }
        }
    }
}

proof fn lemma_unescape_after(p: Seq<u8>, b: Seq<u8>)
    requires
        forall|i| 0 <= i < b.len() ==> b[i] != BACKSLASH,
        p.len() == 0 || p.last() != BACKSLASH,
    ensures
        unescape_from(p + ascii_bytes(escaped(b)), p.len()) == b,
    decreases b.len(),
{
    let s = p + ascii_bytes(escaped(b));
    if b.len() == 0 {
        assert(s.len() == p.len());
        assert(unescape_from(s, p.len()) =~= b);
    } else {
        let b0 = b[0];
        let rest = b.drop_first();
        let e0 = ascii_bytes(byte_display(b0));
        assert(escaped(b) == byte_display(b0) + escaped(rest));
        assert(ascii_bytes(escaped(b)) =~= e0 + ascii_bytes(escaped(rest)));
        let q = p + e0;
        assert(s =~= q + ascii_bytes(escaped(rest)));
        assert forall|i| 0 <= i < rest.len() implies rest[i] != BACKSLASH by {
            assert(rest[i] == b[i + 1]);
        }
        if printable(b0) {
            assert(e0 =~= seq![b0]);
            assert(s[p.len() as int] == b0);
            lemma_unescape_after(q, rest);
            assert(unescape_from(s, p.len()) =~= b);
        } else {
            let hi = b0 as nat / 16;
            let lo = b0 as nat % 16;
            lemma_hex_char(hi);
            lemma_hex_char(lo);
            assert(e0 =~= seq![BACKSLASH, 120u8, hex_char(hi) as u8, hex_char(lo) as u8]);
            assert(hex_escape_at(s, p.len() as int));
            assert(escaped_byte(s, p.len() as int) == b0) by {
                assert(hi * 16 + lo == b0 as nat);
            }
            lemma_unescape_after(q, rest);
            assert(unescape_from(s, p.len()) =~= b);
        }
    }
}

/// What the binary-safe fallback shows, read back as a typed line through the
/// hex-unescape pass, gives the same bytes again, for every byte string
/// that holds no backslash. A backslash byte shows as itself, so it could be
/// read back as the start of an escape.
pub proof fn lemma_escape_round_trip(b: Seq<u8>)
    requires
        forall|i| 0 <= i < b.len() ==> b[i] != BACKSLASH,
    ensures
        unescape(encode_utf8(escaped(b))) == b,
{
    let e = escaped(b);
    lemma_escaped_is_ascii(b);
    is_ascii_chars_encode_utf8(e);
    assert(encode_utf8(e) =~= ascii_bytes(e));
    lemma_unescape_after(seq![], b);
    assert(seq![] + ascii_bytes(e) =~= ascii_bytes(e));
}

} // verus!
