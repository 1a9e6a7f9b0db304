//! What an entity with a network link sends each frame: its grid cell, as
//! text. The transport itself lives outside this library.
use vstd::prelude::*;
use vstd::string::*;
use crate::types::Cell;

verus! {

/// The character of a decimal digit.
pub open spec fn digit_char(d: int) -> char {
    if d == 0 {
        '0'
    } else if d == 1 {
        '1'
    } else if d == 2 {
        '2'
    } else if d == 3 {
        '3'
    } else if d == 4 {
        '4'
    } else if d == 5 {
        '5'
    } else if d == 6 {
        '6'
    } else if d == 7 {
        '7'
    } else if d == 8 {
        '8'
    } else {
        '9'
    }
}

/// A number in decimal, without leading zeros.
pub open spec fn decimal(n: nat) -> Seq<char>
    decreases n,
{
    if n < 10 {
        seq![digit_char(n as int)]
    } else {
        decimal(n / 10).push(digit_char((n % 10) as int))
    }
}

/// The text that is sent for a cell: column, a colon, row.
pub open spec fn payload_text(cell: Cell) -> Seq<char> {
    decimal(cell.x as nat) + seq![':'] + decimal(cell.y as nat)
}

/// A message for the transport behind a network link.
#[derive(Clone, Debug)]
pub struct Message {
    /// The handle of the transport.
    pub socket: u32,
    /// The text to send.
    pub payload: String,
}

/// What a message holds.
pub struct MessageView {
    pub socket: u32,
    pub payload: Seq<char>,
}

impl View for Message {
    type V = MessageView;

    open spec fn view(&self) -> MessageView {
        MessageView { socket: self.socket, payload: self.payload@ }
    }
}

/// The views of a list of messages.
pub open spec fn messages_view(messages: Seq<Message>) -> Seq<MessageView> {
    Seq::new(messages.len(), |i: int| messages[i]@)
}

/// The text of one decimal digit.
fn digit_text(d: u32) -> (text: &'static str)
    requires
        d < 10,
    ensures
        text@ == seq![digit_char(d as int)],
{
    proof {
        reveal_strlit("0");
        reveal_strlit("1");
        reveal_strlit("2");
        reveal_strlit("3");
        reveal_strlit("4");
        reveal_strlit("5");
        reveal_strlit("6");
        reveal_strlit("7");
        reveal_strlit("8");
        reveal_strlit("9");
    }
    let text = if d == 0 {
        "0"
    } else if d == 1 {
        "1"
    } else if d == 2 {
        "2"
    } else if d == 3 {
        "3"
    } else if d == 4 {
        "4"
    } else if d == 5 {
        "5"
    } else if d == 6 {
        "6"
    } else if d == 7 {
        "7"
    } else if d == 8 {
        "8"
    } else {
        "9"
    };
    assert(text@ =~= seq![digit_char(d as int)]);
    text
}

/// Appends a number in decimal to a text.
pub fn push_decimal(text: &mut String, n: u32)
    ensures
        final(text)@ == old(text)@ + decimal(n as nat),
    decreases n,
{
    if n >= 10 {
        push_decimal(text, n / 10);
    }
    text.append(digit_text(n % 10));
    assert(text@ =~= old(text)@ + decimal(n as nat));
}

/// The text that is sent for a cell: `"<column>:<row>"`.
pub fn payload(cell: Cell) -> (text: String)
    ensures
        text@ == payload_text(cell),
{
    let mut text = String::new();
    push_decimal(&mut text, cell.x);
    proof {
        reveal_strlit(":");
    }
    text.append(":");
    push_decimal(&mut text, cell.y);
    assert(text@ =~= payload_text(cell));
    text
}

} // verus!
