//! The lexical layer of the template language: literal runs and their
//! whitespace, identifiers, numbers and quoted literals.
//!
//! Every scanner works on the whole source and a position in it, and answers
//! with the position at which it stopped.

use vstd::prelude::*;
use crate::ast::{Node, NodeView, Syntax, SyntaxView};
use crate::text::{has_tag, is_space, space, tag_at, NEWLINE, SPACE, TAB};

verus! {

/// The byte of a double quote.
pub const DOUBLE_QUOTE: u8 = 34;

/// The byte of a single quote.
pub const SINGLE_QUOTE: u8 = 39;

/// The byte of a backslash.
pub const BACKSLASH: u8 = 92;

/// The byte of an underscore.
pub const UNDERSCORE: u8 = 95;

/// The end of the run of whitespace that starts at `pos`.
pub open spec fn space_run_end(s: Seq<u8>, pos: int) -> int
    decreases s.len() - pos,
{
    if 0 <= pos < s.len() && is_space(s[pos]) {
        space_run_end(s, pos + 1)
    } else {
        pos
    }
}

/// The start of the run of whitespace that ends at `end`.
pub open spec fn space_run_start(s: Seq<u8>, end: int) -> int
    decreases end,
{
    if 0 < end <= s.len() && is_space(s[end - 1]) {
        space_run_start(s, end - 1)
    } else {
        end
    }
}

/// The three parts of a literal run: its leading whitespace, its body, and,
/// where the run ends in a newline, the whitespace it ends in. A run of
/// whitespace alone is all leading whitespace.
pub open spec fn split_parts(s: Seq<u8>) -> (Seq<u8>, Seq<u8>, Seq<u8>) {
    let lead = space_run_end(s, 0);
    if lead == s.len() {
        (s, Seq::empty(), Seq::empty())
    } else if s.last() == NEWLINE {
        let trail = space_run_start(s, s.len() as int);
        (s.subrange(0, lead), s.subrange(lead, trail), s.subrange(trail, s.len() as int))
    } else {
        (s.subrange(0, lead), s.subrange(lead, s.len() as int), Seq::empty())
    }
}

/// A run of whitespace that starts inside the text ends inside it.
pub proof fn lemma_space_run_end_bounds(s: Seq<u8>, pos: int)
    requires
        0 <= pos <= s.len(),
    ensures
        pos <= space_run_end(s, pos) <= s.len(),
        forall|k: int| pos <= k < space_run_end(s, pos) ==> is_space(s[k]),
        space_run_end(s, pos) < s.len() ==> !is_space(s[space_run_end(s, pos)]),
    decreases s.len() - pos,
{
    if pos < s.len() && is_space(s[pos]) {
        lemma_space_run_end_bounds(s, pos + 1);
    }
}

/// A run of whitespace that ends inside the text starts inside it, after
/// any byte that is no whitespace.
pub proof fn lemma_space_run_start_bounds(s: Seq<u8>, end: int)
    requires
        0 <= end <= s.len(),
    ensures
        0 <= space_run_start(s, end) <= end,
        forall|k: int| space_run_start(s, end) <= k < end ==> is_space(s[k]),
        space_run_start(s, end) > 0 ==> !is_space(s[space_run_start(s, end) - 1]),
        forall|k: int| 0 <= k < end && !is_space(s[k]) ==> k < space_run_start(s, end),
    decreases end,
{
    if 0 < end && is_space(s[end - 1]) {
        lemma_space_run_start_bounds(s, end - 1);
    }
}

/// The three parts of a literal run, put together again, are the run.
pub proof fn lemma_split_parts_concat(s: Seq<u8>)
    ensures
        split_parts(s).0 + split_parts(s).1 + split_parts(s).2 == s,
{
    lemma_space_run_end_bounds(s, 0);
    lemma_space_run_start_bounds(s, s.len() as int);
    assert(split_parts(s).0 + split_parts(s).1 + split_parts(s).2 =~= s);
}

/// Parts a literal run into leading whitespace, body and trailing whitespace.
pub fn split_ws_parts<'a>(s: &'a [u8]) -> (n: Node<'a>)
    ensures
        n@ == NodeView::Lit(split_parts(s@).0, split_parts(s@).1, split_parts(s@).2),
{
    let len = s.len();
    let mut lead: usize = 0;
    while lead < len && space(s[lead])
        invariant
            len == s@.len(),
            lead <= len,
            space_run_end(s@, 0) == space_run_end(s@, lead as int),
        decreases len - lead,
    {
        lead += 1;
    }
    if lead == len {
        let none = &s[0..0];
        assert(s@.subrange(0, len as int) =~= s@);
        assert(none@ =~= Seq::<u8>::empty());
        return Node::Lit(s, none, none);
    }
    let mut trail: usize = len;
    if s[len - 1] == NEWLINE {
        proof {
            lemma_space_run_start_bounds(s@, len as int);
        }
        while trail > 0 && space(s[trail - 1])
            invariant
                len == s@.len(),
                trail <= len,
                space_run_start(s@, len as int) == space_run_start(s@, trail as int),
            decreases trail,
        {
            trail -= 1;
        }
        proof {
            lemma_space_run_start_bounds(s@, len as int);
        }
    } else {
        assert(s@.subrange(len as int, len as int) =~= Seq::<u8>::empty());
    }
    Node::Lit(&s[0..lead], &s[lead..trail], &s[trail..len])
}

/// One of the first bytes of the two opening delimiters.
pub open spec fn opens_tag(y: SyntaxView, b: u8) -> bool
    recommends
        y.wf(),
{
    b == y.block_start[0] || b == y.expr_start[0]
}

/// One of the second bytes of the two opening delimiters.
pub open spec fn confirms_tag(y: SyntaxView, b: u8) -> bool
    recommends
        y.wf(),
{
    b == y.block_start[1] || b == y.expr_start[1]
}

/// Where a literal run that has been read up to `pos` ends. `brace` holds
/// the position of the byte just before `pos` where that byte may open a
/// tag. The run ends before an opening delimiter, after a newline, or with
/// the text.
pub open spec fn literal_scan(s: Seq<u8>, y: SyntaxView, pos: int, brace: Option<int>) -> int
    decreases s.len() - pos,
{
    if !(0 <= pos < s.len()) {
        s.len() as int
    } else {
        match brace {
            Some(b) => if confirms_tag(y, s[pos]) {
                b
            } else {
                literal_scan(s, y, pos + 1, None)
            },
            None => if opens_tag(y, s[pos]) {
                literal_scan(s, y, pos + 1, Some(pos))
            } else if s[pos] == NEWLINE {
                pos + 1
            } else {
                literal_scan(s, y, pos + 1, None)
            },
        }
    }
}

/// Where the literal run that starts at `from` ends. The answer is `from`
/// itself where no literal stands there: at the end of the text and before
/// an opening delimiter. A newline in the first place does not end the run.
pub open spec fn literal_end(s: Seq<u8>, y: SyntaxView, from: int) -> int {
    if !(0 <= from < s.len()) {
        from
    } else if opens_tag(y, s[from]) {
        literal_scan(s, y, from + 1, Some(from))
    } else {
        literal_scan(s, y, from + 1, None)
    }
}

/// The literal node at `pos`, with the position after it.
pub open spec fn spec_content(s: Seq<u8>, y: SyntaxView, pos: int) -> Option<(NodeView, int)> {
    let end = literal_end(s, y, pos);
    if 0 <= pos < end <= s.len() {
        let parts = split_parts(s.subrange(pos, end));
        Some((NodeView::Lit(parts.0, parts.1, parts.2), end))
    } else {
        None
    }
}

/// Reads the literal run at `pos`.
pub fn take_content<'a>(input: &'a [u8], pos: usize, syntax: &Syntax) -> (r: Option<
    (Node<'a>, usize),
>)
    requires
        syntax@.wf(),
        pos <= input.len(),
    ensures
        match r {
            Some((n, end)) => spec_content(input@, syntax@, pos as int) == Some((n@, end as int)),
            None => spec_content(input@, syntax@, pos as int) is None,
        },
{
    let len = input.len();
    if pos >= len {
        return None;
    }
    let bs = syntax.block_start[0];
    let be = syntax.block_start[1];
    let es = syntax.expr_start[0];
    let ee = syntax.expr_start[1];
    let first = input[pos];
    let mut brace: Option<usize> = if first == bs || first == es {
        Some(pos)
    } else {
        None
    };
    let mut i: usize = pos + 1;
    let mut end: usize = len;
    let ghost target = literal_end(input@, syntax@, pos as int);
    while i < len
        invariant_except_break
            end == len,
            target == literal_scan(
                input@,
                syntax@,
                i as int,
                match brace {
                    Some(b) => Some(b as int),
                    None => None,
                },
            ),
        invariant
            syntax@.wf(),
            len == input@.len(),
            pos < i <= len,
            bs == syntax@.block_start[0],
            be == syntax@.block_start[1],
            es == syntax@.expr_start[0],
            ee == syntax@.expr_start[1],
            brace matches Some(b) ==> pos <= b < i,
        ensures
            pos <= end <= len,
            target == end,
        decreases len - i,
    {
        let c = input[i];
        match brace {
            Some(b) => {
                if c == be || c == ee {
                    end = b;
                    break ;
                }
                brace = None;
            },
            None => {
                if c == bs || c == es {
                    brace = Some(i);
                } else if c == NEWLINE {
                    end = i + 1;
                    break ;
                }
            },
        }
        i += 1;
    }
    if end == pos {
        return None;
    }
    let node = split_ws_parts(&input[pos..end]);
    Some((node, end))
}

/// An ASCII letter.
pub open spec fn is_alpha(b: u8) -> bool {
    (0x41 <= b <= 0x5a) || (0x61 <= b <= 0x7a)
}

/// An ASCII digit.
pub open spec fn is_digit(b: u8) -> bool {
    0x30 <= b <= 0x39
}

/// A byte from 0x80 to 0xFD: part of a character beyond ASCII.
pub open spec fn is_non_ascii(b: u8) -> bool {
    0x80 <= b <= 0xfd
}

/// A byte with which an identifier may begin.
pub open spec fn begins_identifier(b: u8) -> bool {
    is_alpha(b) || b == UNDERSCORE || is_non_ascii(b)
}

/// A byte with which an identifier may go on.
pub open spec fn continues_identifier(b: u8) -> bool {
    is_alpha(b) || is_digit(b) || b == UNDERSCORE || is_non_ascii(b)
}

/// Tells whether `chr` is a byte from 0x80 to 0xFD.
pub fn non_ascii(chr: u8) -> (r: bool)
    ensures
        r == is_non_ascii(chr),
{
    chr >= 0x80 && chr <= 0xfd
}

/// Tells whether `b` is an ASCII letter.
pub fn alpha(b: u8) -> (r: bool)
    ensures
        r == is_alpha(b),
{
    (b >= 0x41 && b <= 0x5a) || (b >= 0x61 && b <= 0x7a)
}

/// Tells whether `b` is an ASCII digit.
pub fn digit(b: u8) -> (r: bool)
    ensures
        r == is_digit(b),
{
    b >= 0x30 && b <= 0x39
}

/// The end of the run of identifier bytes that starts at `pos`.
pub open spec fn identifier_end(s: Seq<u8>, pos: int) -> int
    decreases s.len() - pos,
{
    if 0 <= pos < s.len() && continues_identifier(s[pos]) {
        identifier_end(s, pos + 1)
    } else {
        pos
    }
}

/// The end of the identifier at `pos`: the longest run of identifier bytes
/// that begins with a letter, an underscore or a byte beyond ASCII.
pub open spec fn spec_identifier(s: Seq<u8>, pos: int) -> Option<int> {
    if 0 <= pos < s.len() && begins_identifier(s[pos]) {
        Some(identifier_end(s, pos + 1))
    } else {
        None
    }
}

/// Reads the identifier at `pos` and answers with the position after it.
pub fn identifier(input: &[u8], pos: usize) -> (r: Option<usize>)
    requires
        pos <= input.len(),
    ensures
        r matches Some(end) ==> pos < end <= input.len(),
        match r {
            Some(end) => spec_identifier(input@, pos as int) == Some(end as int),
            None => spec_identifier(input@, pos as int) is None,
        },
{
    let len = input.len();
    if pos >= len {
        return None;
    }
    let first = input[pos];
    if !alpha(first) && first != UNDERSCORE && !non_ascii(first) {
        return None;
    }
    let mut i: usize = pos + 1;
    while i < len && (alpha(input[i]) || digit(input[i]) || input[i] == UNDERSCORE || non_ascii(
        input[i],
    ))
        invariant
            len == input@.len(),
            pos < i <= len,
            identifier_end(input@, pos + 1) == identifier_end(input@, i as int),
        decreases len - i,
    {
        i += 1;
    }
    Some(i)
}

/// The end of the run of digits that starts at `pos`.
pub open spec fn digits_end(s: Seq<u8>, pos: int) -> int
    decreases s.len() - pos,
{
    if 0 <= pos < s.len() && is_digit(s[pos]) {
        digits_end(s, pos + 1)
    } else {
        pos
    }
}

/// The end of the number at `pos`: one or more digits.
pub open spec fn spec_number(s: Seq<u8>, pos: int) -> Option<int> {
    if digits_end(s, pos) > pos {
        Some(digits_end(s, pos))
    } else {
        None
    }
}

/// Reads the number at `pos` and answers with the position after it.
pub fn number(input: &[u8], pos: usize) -> (r: Option<usize>)
    requires
        pos <= input.len(),
    ensures
        r matches Some(end) ==> pos < end <= input.len(),
        match r {
            Some(end) => spec_number(input@, pos as int) == Some(end as int),
            None => spec_number(input@, pos as int) is None,
        },
{
    let len = input.len();
    let mut i: usize = pos;
    while i < len && digit(input[i])
        invariant
            len == input@.len(),
            pos <= i <= len,
            digits_end(input@, pos as int) == digits_end(input@, i as int),
        decreases len - i,
    {
        i += 1;
    }
    if i > pos {
        Some(i)
    } else {
        None
    }
}

/// The position of the quote that closes a quoted literal read up to `pos`.
/// A backslash takes the byte after it along, whatever that byte is.
pub open spec fn closing_quote(s: Seq<u8>, pos: int, quote: u8) -> Option<int>
    decreases s.len() - pos,
{
    if !(0 <= pos < s.len()) {
        None
    } else if s[pos] == quote {
        Some(pos)
    } else if s[pos] == BACKSLASH {
        if pos + 1 < s.len() {
            closing_quote(s, pos + 2, quote)
        } else {
            None
        }
    } else {
        closing_quote(s, pos + 1, quote)
    }
}

/// The quoted literal at `pos`: where its content starts and ends, and the
/// position after the closing quote. The content is what stands between
/// the quotes, escapes included as they are written.
pub open spec fn spec_quoted(s: Seq<u8>, pos: int, quote: u8) -> Option<(int, int, int)> {
    if 0 <= pos < s.len() && s[pos] == quote {
        match closing_quote(s, pos + 1, quote) {
            Some(close) => Some((pos + 1, close, close + 1)),
            None => None,
        }
    } else {
        None
    }
}

/// Reads the quoted literal at `pos`. Answers with the end of its content,
/// which starts at `pos + 1`; the literal ends one byte later.
pub fn quoted(input: &[u8], pos: usize, quote: u8) -> (r: Option<usize>)
    requires
        pos <= input.len(),
    ensures
        r matches Some(close) ==> pos < close < input.len(),
        match r {
            Some(close) => spec_quoted(input@, pos as int, quote) == Some(
                (pos + 1, close as int, close + 1),
            ),
            None => spec_quoted(input@, pos as int, quote) is None,
        },
{
    let len = input.len();
    if pos >= len || input[pos] != quote {
        return None;
    }
    let mut i: usize = pos + 1;
    while i < len
        invariant
            len == input@.len(),
            pos < i <= len,
            input@[pos as int] == quote,
            closing_quote(input@, pos + 1, quote) == closing_quote(input@, i as int, quote),
        decreases len - i,
    {
        let c = input[i];
        if c == quote {
            return Some(i);
        }
        if c == BACKSLASH {
            if len - i < 2 {
                return None;
            }
            i += 2;
        } else {
            i += 1;
        }
    }
    None
}

/// The byte `b` stands at position `pos`.
pub open spec fn byte_at(s: Seq<u8>, pos: int, b: u8) -> bool {
    0 <= pos < s.len() && s[pos] == b
}

/// Tells whether the byte `b` stands at position `pos`.
pub fn has_byte(input: &[u8], pos: usize, b: u8) -> (r: bool)
    ensures
        r == byte_at(input@, pos as int, b),
{
    pos < input.len() && input[pos] == b
}

/// The position after one space or tab at `pos`, where there is one.
pub open spec fn blank(s: Seq<u8>, pos: int) -> int {
    if byte_at(s, pos, SPACE) || byte_at(s, pos, TAB) {
        pos + 1
    } else {
        pos
    }
}

/// Steps over one space or tab at `pos`, where there is one.
pub fn skip_blank(input: &[u8], pos: usize) -> (r: usize)
    requires
        pos <= input.len(),
    ensures
        r == blank(input@, pos as int),
        pos <= r <= input.len(),
{
    if has_byte(input, pos, SPACE) || has_byte(input, pos, TAB) {
        pos + 1
    } else {
        pos
    }
}

/// The byte of a minus sign, which also marks whitespace control in a tag.
pub const MINUS: u8 = 45;

/// Whether a whitespace-control mark stands at `pos`, and the position
/// after it.
pub open spec fn dash(s: Seq<u8>, pos: int) -> (bool, int) {
    if byte_at(s, pos, MINUS) {
        (true, pos + 1)
    } else {
        (false, pos)
    }
}

/// Steps over a whitespace-control mark at `pos`, where there is one.
pub fn skip_dash(input: &[u8], pos: usize) -> (r: (bool, usize))
    requires
        pos <= input.len(),
    ensures
        r.0 == dash(input@, pos as int).0,
        r.1 == dash(input@, pos as int).1,
        pos <= r.1 <= input.len(),
{
    if has_byte(input, pos, MINUS) {
        (true, pos + 1)
    } else {
        (false, pos)
    }
}

/// The position after the keyword `kw` at `pos`, with at most one space or
/// tab on each side of it.
pub open spec fn spec_keyword(s: Seq<u8>, pos: int, kw: Seq<u8>) -> Option<int> {
    let p = blank(s, pos);
    if tag_at(s, p, kw) {
        Some(blank(s, p + kw.len()))
    } else {
        None
    }
}

/// Reads the keyword `kw` at `pos`, with at most one space or tab on each
/// side of it.
pub fn keyword(input: &[u8], pos: usize, kw: &[u8]) -> (r: Option<usize>)
    requires
        pos <= input.len(),
    ensures
        r matches Some(end) ==> pos + kw@.len() <= end <= input.len(),
        match r {
            Some(end) => spec_keyword(input@, pos as int, kw@) == Some(end as int),
            None => spec_keyword(input@, pos as int, kw@) is None,
        },
{
    let p = skip_blank(input, pos);
    if has_tag(input, p, kw) {
        Some(skip_blank(input, p + kw.len()))
    } else {
        None
    }
}

} // verus!
