//! What one turn of the interactive loop does with a typed line, and the
//! reply shown when the server cannot be reached.

use vstd::prelude::*;
use vstd::string::StringExecFns;
use vstd::utf8::{encode_utf8, encode_utf8_decode_utf8, is_ascii_chars_encode_utf8};
use crate::reply::Reply;
use crate::tokenize::{tokenize, tokenized, trim_text, trimmed};

verus! {

/// What to do with one typed line.
pub enum Action {
    /// Show nothing and read the next line.
    Ignore,
    /// End the session.
    Quit,
    /// Send these words as one command.
    Send(Vec<String>),
}

/// The trimmed line is the command that ends the session.
pub open spec fn is_quit(t: Seq<char>) -> bool {
    t == seq!['q', 'u', 'i', 't']
}

fn is_quit_text(t: &str) -> (r: bool)
    ensures
        r == is_quit(t@),
{
    let b = t.as_bytes();
    let r = b.len() == 4 && b[0] == 113 && b[1] == 117 && b[2] == 105 && b[3] == 116;
    proof {
        let q = seq!['q', 'u', 'i', 't'];
        is_ascii_chars_encode_utf8(q);
        assert(encode_utf8(q) =~= seq![113u8, 117u8, 105u8, 116u8]);
        encode_utf8_decode_utf8(t@);
        encode_utf8_decode_utf8(q);
        if r {
            assert(b@ =~= encode_utf8(q));
        }
    }
    r
}

/// Decides what a typed line asks for: `quit` ends the session; a blank
/// line, a line that cannot be split into words, or one with no words is
/// ignored; any other line is sent as a command.
pub fn next_action(input: &str) -> (a: Action)
    ensures
        match a {
            Action::Quit => is_quit(trimmed(input@)),
            Action::Ignore => !is_quit(trimmed(input@)) && (trimmed(input@).len() == 0
                || tokenized(input@) is Err || tokenized(input@) == Ok::<
                Seq<Seq<char>>,
                crate::tokenize::TokenizeError,
            >(Seq::empty())),
            Action::Send(ws) => !is_quit(trimmed(input@)) && trimmed(input@).len() > 0
                && ws@.len() > 0 && tokenized(input@) == Ok::<
                Seq<Seq<char>>,
                crate::tokenize::TokenizeError,
            >(ws@.map_values(|w: String| w@)),
        },
{
    let t = trim_text(input);
    if is_quit_text(t) {
        return Action::Quit;
    }
    if t.is_empty() {
        return Action::Ignore;
    }
    match tokenize(input) {
        Ok(words) => {
            if words.len() == 0 {
                assert(words@.map_values(|w: String| w@) =~= Seq::<Seq<char>>::empty());
                Action::Ignore
            } else {
                Action::Send(words)
            }
        },
        Err(_) => Action::Ignore,
    }
}

/// The reply shown when a command could not be carried out: a status line
/// `(error) ` and the failure's message.
pub fn error_reply(message: &str) -> (r: Reply)
    ensures
        r matches Reply::Status(s) && s@ == "(error) "@ + message@,
{
    let mut s = String::from_str("(error) ");
    s.append(message);
    Reply::Status(s)
}

} // verus!
