//! Verified text building: decimal rendering of identifiers, the public
//! caption that embeds a predicted or corrected post identifier, the
//! rejection notice sent to unauthorized senders, and the canned command
//! reply.

use vstd::prelude::*;
use vstd::string::StringExecFns;

verus! {

/// The decimal digit character for `d`, which must lie in `0..10`.
pub open spec fn digit_char(d: int) -> char {
    if d == 0 {
        '0'
    } else if d == 1 {
        '1'
    } else if d == 2 {
        '2'
    } else if d == 3 {
        '3'
    } else if d == 4 {
        '4'
    } else if d == 5 {
        '5'
    } else if d == 6 {
        '6'
    } else if d == 7 {
        '7'
    } else if d == 8 {
        '8'
    } else {
        '9'
    }
}

/// The usual decimal rendering of `n`, most significant digit first, with
/// no leading zeros (`0` renders as `"0"`).
pub open spec fn decimal_seq(n: nat) -> Seq<char>
    decreases n,
{
    if n < 10 {
        seq![digit_char(n as int)]
    } else {
        decimal_seq(n / 10) + seq![digit_char((n % 10) as int)]
    }
}

/// The decimal rendering of `n` with a leading minus sign when negative.
pub open spec fn signed_decimal_seq(n: int) -> Seq<char> {
    if n < 0 {
        seq!['-'] + decimal_seq((-n) as nat)
    } else {
        decimal_seq(n as nat)
    }
}

/// The single-character string for decimal digit `d`.
fn digit_str(d: u64) -> (s: &'static str)
    requires
        d < 10,
    ensures
        s@ == seq![digit_char(d as int)],
{
    proof {
        reveal_strlit("0");
        reveal_strlit("1");
        reveal_strlit("2");
        reveal_strlit("3");
        reveal_strlit("4");
        reveal_strlit("5");
        reveal_strlit("6");
        reveal_strlit("7");
        reveal_strlit("8");
        reveal_strlit("9");
    }
    let s: &'static str = if d == 0 {
        "0"
    } else if d == 1 {
        "1"
    } else if d == 2 {
        "2"
    } else if d == 3 {
        "3"
    } else if d == 4 {
        "4"
    } else if d == 5 {
        "5"
    } else if d == 6 {
        "6"
    } else if d == 7 {
        "7"
    } else if d == 8 {
        "8"
    } else {
        "9"
    };
    proof {
        assert(s@ =~= seq![digit_char(d as int)]);
    }
    s
}

/// Render `n` in decimal.
pub fn decimal_string(n: u64) -> (s: String)
    ensures
        s@ == decimal_seq(n as nat),
    decreases n,
{
    if n < 10 {
        digit_str(n).to_owned()
    } else {
        proof {
            assert(n / 10 < n) by (nonlinear_arith)
                requires
                    n >= 10,
            ;
        }
        let mut s = decimal_string(n / 10);
        s.append(digit_str(n % 10));
        s
    }
}

/// Render `n` in decimal, with a leading minus sign when negative.
pub fn signed_decimal_string(n: i64) -> (s: String)
    ensures
        s@ == signed_decimal_seq(n as int),
{
    if n >= 0 {
        decimal_string(n as u64)
    } else {
        let mag: u64 = if n == i64::MIN {
            9223372036854775808u64
        } else {
            (-n) as u64
        };
        proof {
            assert(mag == -(n as int));
            reveal_strlit("-");
            assert("-"@ =~= seq!['-']);
        }
        let mut s = "-".to_owned();
        s.append(decimal_string(mag).as_str());
        s
    }
}

/// The public caption for a post expected (or known) to carry identifier
/// `id`: a markdown link into the public channel.
pub open spec fn caption_seq(id: int) -> Seq<char> {
    "[Music: Reborn](https://t.me/the_ankh_music/"@ + decimal_seq(id as nat) + ")"@
}

/// Build the caption that references post `id` as a public link.
pub fn caption_for(id: i32) -> (c: String)
    requires
        id >= 0,
    ensures
        c@ == caption_seq(id as int),
{
    let mut c = "[Music: Reborn](https://t.me/the_ankh_music/".to_owned();
    c.append(decimal_string(id as u64).as_str());
    c.append(")");
    c
}

/// The rejection notice sent back to an unauthorized originator,
/// identifying the sender by name when one is known and by numeric chat
/// identifier otherwise.
pub open spec fn rejection_notice_seq(chat: int, name: Option<String>) -> Seq<char> {
    "Someone tried to use this bot "@ + (match name {
        Option::Some(n) => n@,
        Option::None => signed_decimal_seq(chat),
    })
}

/// Build the rejection notice for the originator of an unauthorized event.
pub fn rejection_notice(chat: i64, name: Option<String>) -> (s: String)
    ensures
        s@ == rejection_notice_seq(chat as int, name),
{
    let mut s = "Someone tried to use this bot ".to_owned();
    match name {
        Option::Some(n) => s.append(n.as_str()),
        Option::None => s.append(signed_decimal_string(chat).as_str()),
    }
    s
}

/// The canned reply to the recognized start command.
pub fn welcome_reply() -> (s: String)
    ensures
        s@ == "Welcome! Up and running."@,
{
    "Welcome! Up and running.".to_owned()
}

} // verus!
