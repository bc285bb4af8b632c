//! The messages that carry the input from the reader to the parser, and
//! the queue that holds them in the order in which they were sent.

use vstd::prelude::*;
use std::collections::VecDeque;
use crate::text::NEWLINE;

verus! {

/// A message from the reader of the input to the parser.
///
/// `Channel` carries one line of input, its newline included where it has
/// one. `Byte(0)` says that the input has come to its end.
#[derive(Debug, Clone, PartialEq, Eq)]
pub enum InputToken {
    Byte(u8),
    Channel(Vec<u8>),
    EOF,
}

/// What the contracts see of an [`InputToken`].
pub enum Message {
    Byte(u8),
    Line(Seq<u8>),
    Eof,
}

impl View for InputToken {
    type V = Message;

    open spec fn view(&self) -> Message {
        match self {
            InputToken::Byte(b) => Message::Byte(*b),
            InputToken::Channel(line) => Message::Line(line@),
            InputToken::EOF => Message::Eof,
        }
    }
}

impl Message {
    /// The message that says that the input has come to its end.
    pub open spec fn is_end(self) -> bool {
        self == Message::Byte(0)
    }
}

impl InputToken {
    /// The message that says that the input has come to its end.
    pub fn end_of_stream() -> (t: InputToken)
        ensures
            t@.is_end(),
    {
        InputToken::Byte(0)
    }

    /// Tells whether the message says that the input has come to its end.
    pub fn is_end_of_stream(&self) -> (b: bool)
        ensures
            b == self@.is_end(),
    {
        match self {
            InputToken::Byte(b) => *b == 0,
            _ => false,
        }
    }
}

/// The messages of a queue, in order.
pub open spec fn messages(q: Seq<InputToken>) -> Seq<Message> {
    Seq::new(q.len(), |i: int| q[i]@)
}

/// What pulling a line from the messages `pending` gives: the line at the
/// front and the messages after it. Where the message at the front is no
/// line, or there is no message, the line is empty and the messages stay.
pub open spec fn pull_line(pending: Seq<Message>) -> (Seq<u8>, Seq<Message>) {
    if pending.len() > 0 && pending[0] is Line {
        (pending[0]->Line_0, pending.skip(1))
    } else {
        (Seq::empty(), pending)
    }
}

/// Pulls the next line from the queue. A message that is no line stays in
/// the queue, and the line is empty then.
pub fn read_line(rx: &mut VecDeque<InputToken>) -> (line: Vec<u8>)
    ensures
        (line@, messages(final(rx)@)) == pull_line(messages(old(rx)@)),
{
    let is_line = rx.len() > 0 && match &rx[0] {
        InputToken::Channel(_) => true,
        _ => false,
    };
    if is_line {
        let ghost before = rx@;
        match rx.pop_front() {
            Some(InputToken::Channel(line)) => {
                assert(messages(rx@) =~= messages(before).skip(1));
                line
            },
            _ => Vec::new(),
        }
    } else {
        Vec::new()
    }
}

/// The messages that the reader makes of the whole input from position
/// `pos` on: a line for each newline and for what follows the last newline,
/// each with its newline, and then the end of the stream.
pub open spec fn spec_messages_from(input: Seq<u8>, pos: int) -> Seq<Message>
    decreases input.len() - pos,
{
    if pos < 0 || pos >= input.len() {
        seq![Message::Byte(0)]
    } else {
        let end = line_end(input, pos);
        if pos < end <= input.len() {
            seq![Message::Line(input.subrange(pos, end))] + spec_messages_from(input, end)
        } else {
            seq![Message::Byte(0)]
        }
    }
}

/// The end of the line that starts at `pos`: the position after its
/// newline, or the end of the input.
pub open spec fn line_end(input: Seq<u8>, pos: int) -> int
    decreases input.len() - pos,
{
    if pos < 0 || pos >= input.len() {
        pos
    } else if input[pos] == NEWLINE {
        pos + 1
    } else {
        line_end(input, pos + 1)
    }
}

/// The end of a line lies after its start and inside the input.
pub proof fn lemma_line_end_bounds(input: Seq<u8>, pos: int)
    requires
        0 <= pos < input.len(),
    ensures
        pos < line_end(input, pos) <= input.len(),
    decreases input.len() - pos,
{
    if input[pos] != NEWLINE {
        if pos + 1 < input.len() {
            lemma_line_end_bounds(input, pos + 1);
        } else {
            assert(line_end(input, pos + 1) == pos + 1);
        }
    }
}

/// Sends the whole input to the queue, line by line, and then the end of
/// the stream.
pub fn send_input(tx: &mut VecDeque<InputToken>, input: &[u8])
    ensures
        messages(final(tx)@) == messages(old(tx)@) + spec_messages_from(input@, 0),
{
    let ghost start = messages(tx@);
    let mut pos: usize = 0;
    assert(start + Seq::<Message>::empty() =~= start);
    let ghost mut sent: Seq<Message> = Seq::empty();
    while pos < input.len()
        invariant
            pos <= input.len(),
            messages(tx@) == start + sent,
            sent + spec_messages_from(input@, pos as int) == spec_messages_from(input@, 0),
        decreases input.len() - pos,
    {
        let mut end: usize = pos;
        while end < input.len() && input[end] != NEWLINE
            invariant
                pos <= end <= input.len(),
                line_end(input@, pos as int) == line_end(input@, end as int),
            decreases input.len() - end,
        {
            end += 1;
        }
        if end < input.len() {
            end += 1;
        }
        proof {
            lemma_line_end_bounds(input@, pos as int);
        }
        let line = crate::text::copy(&input[pos..end]);
        let ghost before = tx@;
        let ghost this = Message::Line(line@);
        tx.push_back(InputToken::Channel(line));
        proof {
            assert(messages(tx@) =~= messages(before).push(this));
            let rest = spec_messages_from(input@, end as int);
            assert((sent + seq![this]) + rest =~= sent + (seq![this] + rest));
            assert(start + (sent + seq![this]) =~= (start + sent).push(this));
            sent = sent + seq![this];
        }
        pos = end;
    }
    let ghost before = tx@;
    tx.push_back(InputToken::end_of_stream());
    proof {
        assert(messages(tx@) =~= messages(before).push(Message::Byte(0)));
        assert(start + (sent + seq![Message::Byte(0)]) =~= (start + sent).push(Message::Byte(0)));
    }
}

} // verus!
