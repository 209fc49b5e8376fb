//! Reply values and how they are shown to the operator.

use vstd::prelude::*;
use vstd::string::StringExecFns;
use vstd::utf8::{decode_utf8, valid_utf8};
use crate::escape::{escaped, push_escaped};
use crate::text::{decimal, push_char, push_decimal, push_signed_decimal, signed_decimal, utf8_text};

verus! {

broadcast use vstd::std_specs::vec::axiom_vec_index_decreases;

/// One reply of the server.
#[derive(Debug, PartialEq, Eq)]
pub enum Reply {
    /// The absence of a value.
    Nil,
    /// A signed integer.
    Integer(i64),
    /// A one-line status or error text.
    Status(String),
    /// The acknowledgement `OK`.
    Okay,
    /// A binary-safe byte string, which need not be text.
    BulkString(Vec<u8>),
    /// Zero or more nested replies.
    Array(Vec<Reply>),
}

/// `n` spaces.
pub open spec fn spaces(n: nat) -> Seq<char> {
    Seq::new(n, |i: int| ' ')
}

/// The width of the index column of an array of `n` elements.
pub open spec fn column_width(n: nat) -> nat {
    decimal(n).len()
}

/// Index `k`, right-aligned in a column `w` characters wide.
pub open spec fn index_label(k: nat, w: nat) -> Seq<char> {
    if decimal(k).len() <= w {
        spaces((w - decimal(k).len()) as nat) + decimal(k)
    } else {
        decimal(k)
    }
}

/// The text shown for a byte string: its UTF-8 text where it is UTF-8, else
/// the binary-safe fallback.
pub open spec fn bulk_text(b: Seq<u8>) -> Seq<char> {
    if valid_utf8(b) {
        decode_utf8(b)
    } else {
        escaped(b)
    }
}

/// How `r` is shown, without the final newline. `pad` is put at the start of
/// each line after the first, so that the lines of a nested array stay
/// aligned under its first one.
pub open spec fn render_body(r: Reply, pad: Seq<char>) -> Seq<char>
    decreases r, 0nat,
{
    match r {
        Reply::Nil => "(nil)"@,
        Reply::Integer(n) => "(integer) "@ + signed_decimal(n as int),
        Reply::Status(s) => s@,
        Reply::Okay => "OK"@,
        Reply::BulkString(b) => seq!['"'] + bulk_text(b@) + seq!['"'],
        Reply::Array(v) => if v.len() == 0 {
            "(empty list or set)"@
        } else {
            array_lines(v, pad, v.len() as nat)
        },
    }
}

/// The first `k` lines of a non-empty array `v`: each is its 1-based index in
/// a column as wide as the element count, `) `, and the element as shown.
pub open spec fn array_lines(v: Vec<Reply>, pad: Seq<char>, k: nat) -> Seq<char>
    decreases v, k,
{
    if k == 0 || k > v.len() {
        seq![]
    } else {
        let w = column_width(v.len() as nat);
        let sep = if k > 1 { seq!['\n'] + pad } else { seq![] };
        array_lines(v, pad, (k - 1) as nat) + sep + index_label(k, w) + ") "@ + render_body(
            v[k - 1],
            pad + spaces(w + 2),
        )
    }
}

/// The whole display of `r`: its lines and a final newline, but for an empty
/// array, which has none.
pub open spec fn rendered(r: Reply) -> Seq<char> {
    match r {
        Reply::Array(v) => if v.len() == 0 {
            "(empty list or set)"@
        } else {
            render_body(r, seq![]) + "\n"@
        },
        _ => render_body(r, seq![]) + "\n"@,
    }
}

proof fn lemma_decimal_len_monotone(a: nat, b: nat)
    requires
        a <= b,
    ensures
        decimal(a).len() <= decimal(b).len(),
    decreases b,
{
    if b >= 10 && a >= 10 {
        lemma_decimal_len_monotone(a / 10, b / 10);
    }
}

/// The index column of an array of `n` elements is as wide as the decimal
/// numeral of `n`: every index `k` of it is shown right-aligned in exactly
/// that many characters.
pub proof fn lemma_index_column_width(n: nat, k: nat)
    requires
        1 <= k <= n,
    ensures
        column_width(n) == decimal(n).len(),
        index_label(k, column_width(n)).len() == decimal(n).len(),
        index_label(k, column_width(n)) == spaces((decimal(n).len() - decimal(k).len()) as nat)
            + decimal(k),
{
    lemma_decimal_len_monotone(k, n);
}

fn decimal_width(n: usize) -> (w: usize)
    ensures
        w == decimal(n as nat).len(),
        w <= n / 10 + 1,
    decreases n,
{
    if n < 10 {
        1
    } else {
        1 + decimal_width(n / 10)
    }
}

fn push_spaces(out: &mut String, k: usize)
    ensures
        final(out)@ == old(out)@ + spaces(k as nat),
{
    let mut i: usize = 0;
    while i < k
        invariant
            i <= k,
            out@ == old(out)@ + spaces(i as nat),
        decreases k - i,
    {
        push_char(out, ' ');
        i = i + 1;
        assert(out@ =~= old(out)@ + spaces(i as nat));
    }
}

fn push_bulk_text(out: &mut String, b: &[u8])
    ensures
        final(out)@ == old(out)@ + bulk_text(b@),
{
    match utf8_text(b) {
        Some(t) => out.append(t),
        None => push_escaped(out, b),
    }
}

fn render_into(r: &Reply, pad: &str, out: &mut String)
    ensures
        final(out)@ == old(out)@ + render_body(*r, pad@),
    decreases r,
{
    match r {
        Reply::Nil => out.append("(nil)"),
        Reply::Integer(n) => {
            out.append("(integer) ");
            push_signed_decimal(out, *n);
            assert(out@ =~= old(out)@ + render_body(*r, pad@));
        },
        Reply::Status(s) => out.append(s.as_str()),
        Reply::Okay => out.append("OK"),
        Reply::BulkString(b) => {
            push_char(out, '"');
            push_bulk_text(out, b.as_slice());
            push_char(out, '"');
            assert(out@ =~= old(out)@ + render_body(*r, pad@));
        },
        Reply::Array(v) => {
            let n = v.len();
            if n == 0 {
                out.append("(empty list or set)");
            } else {
                let w = decimal_width(n);
                let mut inner = String::from_str(pad);
                push_spaces(&mut inner, w);
                push_char(&mut inner, ' ');
                push_char(&mut inner, ' ');
                assert(inner@ =~= pad@ + spaces((w + 2) as nat));
                let mut i: usize = 0;
                while i < n
                    invariant
                        *r == Reply::Array(*v),
                        n == v.len(),
                        0 < n,
                        i <= n,
                        w == column_width(n as nat),
                        inner@ == pad@ + spaces((w + 2) as nat),
                        out@ == old(out)@ + array_lines(*v, pad@, i as nat),
                    decreases n - i,
                {
                    let ghost before = out@;
                    if i > 0 {
                        push_char(out, '\n');
                        out.append(pad);
                    }
                    let k: usize = i + 1;
                    let dk = decimal_width(k);
                    proof {
                        lemma_index_column_width(n as nat, k as nat);
                    }
                    push_spaces(out, w - dk);
                    push_decimal(out, k as u64);
                    out.append(") ");
                    proof {
                        assert(decreases_to!(*r => (*r)->Array_0));
                        assert(decreases_to!(*v => v[i as int]));
                        assert(decreases_to!(*r => v[i as int]));
                    }
                    render_into(&v[i], inner.as_str(), out);
                    i = k;
                    assert(out@ =~= old(out)@ + array_lines(*v, pad@, i as nat));
                }
            }
        },
    }
}

/// The display of reply `r`, as the operator sees it.
pub fn render(r: &Reply) -> (s: String)
    ensures
        s@ == rendered(*r),
{
    let mut out = String::new();
    proof {
        reveal_strlit("");
        assert(""@ =~= Seq::<char>::empty());
    }
    render_into(r, "", &mut out);
    match r {
        Reply::Array(v) => {
            if v.len() > 0 {
                out.append("\n");
            }
        },
        _ => out.append("\n"),
    }
    assert(out@ =~= rendered(*r));
    out
}

/// The display of an array reply whose elements are `bulk`.
pub fn format_bulk_data(bulk: Vec<Reply>) -> (s: String)
    ensures
        s@ == rendered(Reply::Array(bulk)),
{
    render(&Reply::Array(bulk))
}

} // verus!
