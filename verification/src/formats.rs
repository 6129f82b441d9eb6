//! The lines the platform writes: to a player's socket, to a bot's input, to
//! the log file and to the command line.
use vstd::prelude::*;
use crate::types::Data;
use crate::text::{append_str, append_string};

verus! {

/// Appends the bytes of `s` to `v`.
pub fn append_bytes(v: &mut Vec<u8>, s: &[u8])
    ensures
        final(v)@ == old(v)@ + s@,
{
    let mut i: usize = 0;
    while i < s.len()
        invariant
            i <= s@.len(),
            v@ == old(v)@ + s@.subrange(0, i as int),
        decreases s.len() - i,
    {
        v.push(s[i]);
        i = i + 1;
        proof {
            assert(v@ =~= old(v)@ + s@.subrange(0, i as int));
        }
    }
    proof {
        assert(s@.subrange(0, s@.len() as int) =~= s@);
    }
}

/// The bytes of a line: the content followed by a newline.
pub open spec fn line_bytes(content: Seq<u8>) -> Seq<u8> {
    content.push(10u8)
}

/// What goes over a player's socket for `data`: its bytes and a newline.
pub fn socket_line(data: &Data) -> (r: Vec<u8>)
    ensures
        r@ == line_bytes(data@),
{
    let mut v: Vec<u8> = Vec::new();
    append_bytes(&mut v, data.value.as_slice());
    v.push(10u8);
    proof {
        assert(v@ =~= line_bytes(data@));
    }
    v
}

/// What goes to a bot's input for `input`: its bytes and a newline.
pub fn bot_input_line(input: &Vec<u8>) -> (r: Vec<u8>)
    ensures
        r@ == line_bytes(input@),
{
    let mut v: Vec<u8> = Vec::new();
    append_bytes(&mut v, input.as_slice());
    v.push(10u8);
    proof {
        assert(v@ =~= line_bytes(input@));
    }
    v
}

/// A record of the log file: the serialized record and a newline.
pub fn log_record_line(serialized: Vec<u8>) -> (r: Vec<u8>)
    ensures
        r@ == line_bytes(serialized@),
{
    let mut v = serialized;
    v.push(10u8);
    v
}

/// The log file's line for a message of `user`: the user, a colon, the
/// message and a newline.
pub open spec fn log_line_text(user: Seq<char>, msg: Seq<char>) -> Seq<char> {
    user + ": "@ + msg + "\n"@
}

/// The log file's line for a message of `user`.
pub fn log_line(user: &String, msg: &String) -> (r: String)
    ensures
        r@ == log_line_text(user@, msg@),
{
    let mut s = String::new();
    append_string(&mut s, user);
    append_str(&mut s, ": ");
    append_string(&mut s, msg);
    append_str(&mut s, "\n");
    proof {
        assert(s@ =~= log_line_text(user@, msg@));
    }
    s
}

/// The command line's line for an answer: the answer after a marker.
pub open spec fn return_line_text(msg: Seq<char>) -> Seq<char> {
    "< "@ + msg
}

/// The command line's line for an answer.
pub fn return_line(msg: &String) -> (r: String)
    ensures
        r@ == return_line_text(msg@),
{
    let mut s = String::new();
    append_str(&mut s, "< ");
    append_string(&mut s, msg);
    s
}

/// The prompt of the command line.
pub fn prompt() -> (r: String)
    ensures
        r@ == "> "@,
{
    let mut s = String::new();
    append_str(&mut s, "> ");
    proof {
        assert(s@ =~= "> "@);
    }
    s
}

/// The line printed for a message sent by a named party.
pub open spec fn named_line_text(name: Seq<char>, msg: Seq<char>) -> Seq<char> {
    name + ": "@ + msg
}

/// The line printed for a message sent by a named party.
pub fn named_line(name: &str, msg: &String) -> (r: String)
    ensures
        r@ == named_line_text(name@, msg@),
{
    let mut s = String::new();
    append_str(&mut s, name);
    append_str(&mut s, ": ");
    append_string(&mut s, msg);
    proof {
        assert(s@ =~= named_line_text(name@, msg@));
    }
    s
}

} // verus!
