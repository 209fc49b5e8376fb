//! Decoding replies straight from the bytes of the wire protocol.
//!
//! Each reply starts with a line: a one-byte tag, a field, and `\r\n`. Tag
//! `$` gives a byte string of the length in the field (none where it is
//! negative), `*` an array of that many replies, `:` an integer, and any other
//! tag a status whose text is the field.

use vstd::prelude::*;
use vstd::utf8::{decode_utf8, valid_utf8};
use crate::reply::Reply;
use crate::text::utf8_text;

verus! {

broadcast use {
    vstd::std_specs::vec::axiom_vec_index_decreases,
    vstd::std_specs::vec::axiom_vec_decreases_to_view,
};

/// A line terminator `\r\n` starts at position `i` of `s`.
pub open spec fn crlf_at(s: Seq<u8>, i: int) -> bool {
    0 <= i && i + 1 < s.len() && s[i] == 13 && s[i + 1] == 10
}

/// The position of the first line terminator in `s` at or after `i`.
pub open spec fn line_end(s: Seq<u8>, i: int) -> Option<int>
    decreases s.len() - i,
{
    if i < 0 || i + 1 >= s.len() {
        None
    } else if crlf_at(s, i) {
        Some(i)
    } else {
        line_end(s, i + 1)
    }
}

/// `b` is an ASCII decimal digit.
pub open spec fn is_digit(b: u8) -> bool {
    48 <= b && b <= 57
}

/// Every byte of `d` is a decimal digit.
pub open spec fn all_digits(d: Seq<u8>) -> bool {
    forall|i: int| 0 <= i < d.len() ==> is_digit(#[trigger] d[i])
}

/// The value of the decimal digits `d`.
pub open spec fn digits_value(d: Seq<u8>) -> int
    decreases d.len(),
{
    if d.len() == 0 {
        0
    } else {
        digits_value(d.drop_last()) * 10 + (d.last() - 48)
    }
}

/// The signed decimal integer that field `d` holds: an optional `-` and one
/// or more digits, within the range of `i64`.
pub open spec fn number(d: Seq<u8>) -> Option<int> {
    if d.len() > 0 && d[0] == 45 {
        let m = d.drop_first();
        if m.len() > 0 && all_digits(m) && digits_value(m) <= 9223372036854775808 {
            Some(-digits_value(m))
        } else {
            None
        }
    } else if d.len() > 0 && all_digits(d) && digits_value(d) <= 9223372036854775807 {
        Some(digits_value(d))
    } else {
        None
    }
}

/// Where the encoding of reply `r` that starts at position `pos` of `s`
/// ends, or `None` where `s` does not encode `r` there.
pub open spec fn encodes(s: Seq<u8>, pos: int, r: Reply) -> Option<int>
    decreases r,
{
    match line_end(s, pos) {
        None => None,
        Some(e) => if e == pos {
            None
        } else {
            let tag = s[pos];
            let field = s.subrange(pos + 1, e);
            let next = e + 2;
            match r {
                Reply::Nil => if (tag == 36 || tag == 42) && number(field) is Some && number(
                    field,
                )->0 < 0 {
                    Some(next)
                } else {
                    None
                },
                Reply::Integer(n) => if tag == 58 && number(field) == Some(n as int) {
                    Some(next)
                } else {
                    None
                },
                Reply::Status(t) => if tag != 36 && tag != 42 && tag != 58 && valid_utf8(field)
                    && t@ == decode_utf8(field) {
                    Some(next)
                } else {
                    None
                },
                Reply::Okay => None,
                Reply::BulkString(b) => if tag == 36 && number(field) == Some(b.len() as int)
                    && crlf_at(s, next + b.len()) && s.subrange(next, next + b.len()) == b@ {
                    Some(next + b.len() + 2)
                } else {
                    None
                },
                Reply::Array(v) => if tag == 42 && number(field) == Some(v.len() as int) {
                    items_end(s, next, v@)
                } else {
                    None
                },
            }
        },
    }
}

/// Where the encodings of the replies `v`, one after another from position
/// `pos` of `s`, end; `None` where `s` does not encode them there.
pub open spec fn items_end(s: Seq<u8>, pos: int, v: Seq<Reply>) -> Option<int>
    decreases v,
{
    if v.len() == 0 {
        Some(pos)
    } else {
        match items_end(s, pos, v.subrange(0, v.len() - 1)) {
            Some(m) => encodes(s, m, v[v.len() - 1]),
            None => None,
        }
    }
}

/// The stream cannot be framed any further.
#[derive(Debug, Clone, Copy, PartialEq, Eq)]
pub enum DecodeError {
    /// No reply is encoded at the position: a field is malformed, a length
    /// runs past the end of the bytes, or a line has no tag.
    Desync,
}

proof fn lemma_digits_prefix(d: Seq<u8>, k: int)
    requires
        all_digits(d),
        0 <= k <= d.len(),
    ensures
        0 <= digits_value(d.subrange(0, k)) <= digits_value(d),
    decreases d.len(),
{
    if k == d.len() {
        assert(d.subrange(0, k) =~= d);
        lemma_digits_nonneg(d);
    } else {
        let dl = d.drop_last();
        assert(all_digits(dl));
        assert(dl.subrange(0, k) =~= d.subrange(0, k));
        lemma_digits_prefix(dl, k);
    }
}

proof fn lemma_digits_nonneg(d: Seq<u8>)
    requires
        all_digits(d),
    ensures
        digits_value(d) >= 0,
    decreases d.len(),
{
    if d.len() > 0 {
        let dl = d.drop_last();
        assert(all_digits(dl));
        lemma_digits_nonneg(dl);
    }
}

fn find_line_end(buf: &[u8], pos: usize) -> (r: Option<usize>)
    ensures
        match r {
            Some(e) => line_end(buf@, pos as int) == Some(e as int) && pos <= e && crlf_at(
                buf@,
                e as int,
            ),
            None => line_end(buf@, pos as int) is None,
        },
{
    let n = buf.len();
    let mut i = pos;
    while i < n && n - i > 1
        invariant
            pos <= i,
            n == buf@.len(),
            line_end(buf@, pos as int) == line_end(buf@, i as int),
        decreases n - i,
    {
        if buf[i] == 13 && buf[i + 1] == 10 {
            return Some(i);
        }
        i = i + 1;
    }
    None
}

fn parse_number(buf: &[u8], start: usize, end: usize) -> (r: Option<i64>)
    requires
        start <= end <= buf@.len(),
    ensures
        match r {
            Some(n) => number(buf@.subrange(start as int, end as int)) == Some(n as int),
            None => number(buf@.subrange(start as int, end as int)) is None,
        },
{
    let ghost d = buf@.subrange(start as int, end as int);
    let neg = start < end && buf[start] == 45;
    let first = if neg {
        start + 1
    } else {
        start
    };
    let ghost m = buf@.subrange(first as int, end as int);
    assert(neg ==> m =~= d.drop_first() && d.len() > 0 && d[0] == 45);
    assert(!neg ==> m =~= d && !(d.len() > 0 && d[0] == 45));
    if first == end {
        return None;
    }
    let limit: u128 = if neg {
        9223372036854775808
    } else {
        9223372036854775807
    };
    let mut acc: u128 = 0;
    let mut i = first;
    assert(buf@.subrange(first as int, first as int) =~= Seq::<u8>::empty());
    while i < end
        invariant
            first <= i <= end <= buf@.len(),
            m == buf@.subrange(first as int, end as int),
            all_digits(buf@.subrange(first as int, i as int)),
            acc as int == digits_value(buf@.subrange(first as int, i as int)),
            acc <= limit,
            limit == (if neg { 9223372036854775808u128 } else { 9223372036854775807u128 }),
            d == buf@.subrange(start as int, end as int),
            neg ==> m =~= d.drop_first() && d.len() > 0 && d[0] == 45,
            !neg ==> m =~= d && !(d.len() > 0 && d[0] == 45),
        decreases end - i,
    {
        let b = buf[i];
        if b < 48 || b > 57 {
            assert(m[i - first] == b);
            assert(!all_digits(m));
            assert(number(d) is None);
            return None;
        }
        let next: u128 = acc * 10 + (b - 48) as u128;
        let ghost p = buf@.subrange(first as int, i + 1);
        assert(p.drop_last() =~= buf@.subrange(first as int, i as int));
        assert(all_digits(p));
        assert(next as int == digits_value(p));
        if next > limit {
            proof {
                if all_digits(m) {
                    assert(m.subrange(0, i + 1 - first) =~= p);
                    lemma_digits_prefix(m, i + 1 - first);
                }
                assert(number(d) is None);
            }
            return None;
        }
        acc = next;
        i = i + 1;
    }
    assert(buf@.subrange(first as int, i as int) =~= m);
    if neg {
        Some((0 - (acc as i128)) as i64)
    } else {
        Some(acc as i64)
    }
}

fn copy_bytes(buf: &[u8], from: usize, len: usize) -> (r: Vec<u8>)
    requires
        from + len <= buf@.len(),
    ensures
        r@ == buf@.subrange(from as int, from + len),
{
    let n = buf.len();
    let mut out: Vec<u8> = Vec::new();
    let mut j: usize = 0;
    while j < len
        invariant
            j <= len,
            n == buf@.len(),
            from + len <= buf@.len(),
            out@ == buf@.subrange(from as int, from + j),
        decreases len - j,
    {
        out.push(buf[from + j]);
        j = j + 1;
        assert(out@ =~= buf@.subrange(from as int, from + j));
    }
    out
}

proof fn lemma_encodes_end_unique(s: Seq<u8>, pos: int, r1: Reply, r2: Reply)
    requires
        encodes(s, pos, r1) is Some,
        encodes(s, pos, r2) is Some,
    ensures
        encodes(s, pos, r1) == encodes(s, pos, r2),
    decreases r1,
{
    match (r1, r2) {
        (Reply::Array(v1), Reply::Array(v2)) => {
            let e = line_end(s, pos)->0;
            assert(decreases_to!(r1 => r1->Array_0));
            assert(decreases_to!(v1 => v1@));
            lemma_items_end_unique(s, e + 2, v1@, v2@);
        },
        _ => {},
    }
}

proof fn lemma_items_end_unique(s: Seq<u8>, pos: int, v1: Seq<Reply>, v2: Seq<Reply>)
    requires
        v1.len() == v2.len(),
        items_end(s, pos, v1) is Some,
        items_end(s, pos, v2) is Some,
    ensures
        items_end(s, pos, v1) == items_end(s, pos, v2),
    decreases v1,
{
    if v1.len() > 0 {
        let a = v1.subrange(0, v1.len() - 1);
        let b = v2.subrange(0, v2.len() - 1);
        lemma_items_end_unique(s, pos, a, b);
        let m = items_end(s, pos, a)->0;
        lemma_encodes_end_unique(s, m, v1[v1.len() - 1], v2[v2.len() - 1]);
    }
}

proof fn lemma_items_prefix(s: Seq<u8>, pos: int, v: Seq<Reply>, k: int)
    requires
        0 <= k <= v.len(),
        items_end(s, pos, v) is Some,
    ensures
        items_end(s, pos, v.subrange(0, k)) is Some,
        k < v.len() ==> encodes(s, items_end(s, pos, v.subrange(0, k))->0, v[k]) is Some,
    decreases v.len(),
{
    if k == v.len() {
        assert(v.subrange(0, k) =~= v);
    } else {
        let w = v.subrange(0, v.len() - 1);
        if k == v.len() - 1 {
            assert(v.subrange(0, k) =~= w);
        } else {
            lemma_items_prefix(s, pos, w, k);
            assert(w.subrange(0, k) =~= v.subrange(0, k));
        }
    }
}

/// Decodes the one reply whose encoding starts at position `pos` of `buf`,
/// and gives it with the position just after it. Nothing after that reply is
/// read. It fails exactly where no reply is encoded at `pos`.
pub fn decode_reply(buf: &[u8], pos: usize) -> (r: Result<(Reply, usize), DecodeError>)
    ensures
        match r {
            Ok((rep, end)) => encodes(buf@, pos as int, rep) == Some(end as int),
            Err(_) => forall|rep: Reply| #[trigger] encodes(buf@, pos as int, rep) is None,
        },
        r matches Ok((_, end)) ==> pos < end <= buf@.len(),
    decreases buf@.len() - pos,
{
    let n = buf.len();
    let e = match find_line_end(buf, pos) {
        Some(e) => e,
        None => {
            return Err(DecodeError::Desync);
        },
    };
    if e == pos {
        return Err(DecodeError::Desync);
    }
    let tag = buf[pos];
    let next = e + 2;
    let ghost field = buf@.subrange(pos + 1, e as int);
    if tag == 36 || tag == 42 || tag == 58 {
        let num = match parse_number(buf, pos + 1, e) {
            Some(x) => x,
            None => {
                return Err(DecodeError::Desync);
            },
        };
        if tag == 58 {
            return Ok((Reply::Integer(num), next));
        }
        if num < 0 {
            return Ok((Reply::Nil, next));
        }
        if tag == 36 {
            let len = num as u64;
            if len > (n - next) as u64 || (n - next) as u64 - len < 2 {
                return Err(DecodeError::Desync);
            }
            let m = len as usize;
            if buf[next + m] != 13 || buf[next + m + 1] != 10 {
                return Err(DecodeError::Desync);
            }
            let payload = copy_bytes(buf, next, m);
            return Ok((Reply::BulkString(payload), next + m + 2));
        }
        let count = num as u64;
        let mut items: Vec<Reply> = Vec::new();
        let mut p = next;
        let mut k: u64 = 0;
        assert(items_end(buf@, next as int, items@) == Some(next as int));
        while k < count
            invariant
                n == buf@.len(),
                pos < next <= p <= n,
                k <= count,
                items@.len() == k,
                items_end(buf@, next as int, items@) == Some(p as int),
                line_end(buf@, pos as int) == Some(e as int),
                e != pos,
                tag == buf@[pos as int],
                tag == 42,
                next == e + 2,
                number(buf@.subrange(pos + 1, e as int)) == Some(count as int),
            decreases count - k,
        {
            match decode_reply(buf, p) {
                Ok((item, q)) => {
                    let ghost before = items@;
                    items.push(item);
                    assert(items@.subrange(0, items@.len() - 1) =~= before);
                    p = q;
                    k = k + 1;
                },
                Err(err) => {
                    proof {
                        assert forall|rep: Reply| #[trigger]
                            encodes(buf@, pos as int, rep) is None by {
                            if let Reply::Array(v) = rep {
                                if encodes(buf@, pos as int, rep) is Some {
                                    assert(v.len() == count);
                                    lemma_items_prefix(buf@, next as int, v@, k as int);
                                    let pre = v@.subrange(0, k as int);
                                    lemma_items_end_unique(buf@, next as int, pre, items@);
                                    assert(encodes(buf@, p as int, v@[k as int]) is None);
                                }
                            }
                        }
                    }
                    return Err(err);
                },
            }
        }
        return Ok((Reply::Array(items), p));
    }
    let text = copy_bytes(buf, pos + 1, e - pos - 1);
    match utf8_text(text.as_slice()) {
        Some(t) => Ok((Reply::Status(t.to_owned()), next)),
        None => Err(DecodeError::Desync),
    }
}

} // verus!
