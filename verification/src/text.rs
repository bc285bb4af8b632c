//! Small operations on byte strings that the rest of the crate is built on.

use vstd::prelude::*;

verus! {

/// `t` stands in `s` at position `pos`.
pub open spec fn tag_at(s: Seq<u8>, pos: int, t: Seq<u8>) -> bool {
    0 <= pos && pos + t.len() <= s.len() && s.subrange(pos, pos + t.len()) == t
}

/// Tells whether `t` stands in `input` at position `pos`.
pub fn has_tag(input: &[u8], pos: usize, t: &[u8]) -> (r: bool)
    ensures
        r == tag_at(input@, pos as int, t@),
{
    if pos > input.len() || t.len() > input.len() - pos {
        return false;
    }
    let mut i: usize = 0;
    while i < t.len()
        invariant
            pos + t.len() <= input.len(),
            i <= t.len(),
            forall|k: int| 0 <= k < i ==> input@[pos + k] == t@[k],
        decreases t.len() - i,
    {
        if input[pos + i] != t[i] {
            proof {
                let sub = input@.subrange(pos as int, pos + t.len());
                assert(sub[i as int] == input@[pos + i]);
            }
            return false;
        }
        i += 1;
    }
    assert(input@.subrange(pos as int, pos + t.len()) =~= t@);
    true
}

/// The byte of a tab.
pub const TAB: u8 = 9;

/// The byte of a newline.
pub const NEWLINE: u8 = 10;

/// The byte of a carriage return.
pub const RETURN: u8 = 13;

/// The byte of a space.
pub const SPACE: u8 = 32;

/// A space, a tab, a carriage return or a newline.
pub open spec fn is_space(b: u8) -> bool {
    b == SPACE || b == TAB || b == RETURN || b == NEWLINE
}

/// Tells whether `b` is a space, a tab, a carriage return or a newline.
pub fn space(b: u8) -> (r: bool)
    ensures
        r == is_space(b),
{
    b == SPACE || b == TAB || b == RETURN || b == NEWLINE
}

/// `a` comes before `b` in the order of byte strings, both looked at from
/// position `i` on, before which they agree: the first byte in which they
/// differ decides, and a string comes before those that it begins.
pub open spec fn less_from(a: Seq<u8>, b: Seq<u8>, i: int) -> bool
    decreases a.len() - i,
{
    if i >= b.len() {
        false
    } else if i >= a.len() {
        true
    } else if a[i] != b[i] {
        a[i] < b[i]
    } else {
        less_from(a, b, i + 1)
    }
}

/// `a` comes before `b` in the order of byte strings.
pub open spec fn lex_less(a: Seq<u8>, b: Seq<u8>) -> bool {
    less_from(a, b, 0)
}

/// How two byte strings stand to each other in their order.
#[derive(Debug, Clone, Copy, PartialEq, Eq)]
pub enum Order {
    Before,
    Same,
    After,
}

/// Strings that agree up to `i` and of which none comes before the other
/// are the same string.
pub proof fn lemma_less_from_total(a: Seq<u8>, b: Seq<u8>, i: int)
    requires
        0 <= i <= a.len(),
        i <= b.len(),
        a.subrange(0, i) == b.subrange(0, i),
        !less_from(a, b, i),
        !less_from(b, a, i),
    ensures
        a == b,
    decreases a.len() - i,
{
    if i >= a.len() || i >= b.len() {
        assert(a.subrange(0, i) =~= a);
        assert(b.subrange(0, i) =~= b);
    } else {
        assert(a.subrange(0, i + 1) =~= a.subrange(0, i).push(a[i]));
        assert(b.subrange(0, i + 1) =~= b.subrange(0, i).push(b[i]));
        lemma_less_from_total(a, b, i + 1);
    }
}

/// Of two strings at most one comes before the other.
pub proof fn lemma_less_from_asymmetric(a: Seq<u8>, b: Seq<u8>, i: int)
    requires
        0 <= i,
    ensures
        !(less_from(a, b, i) && less_from(b, a, i)),
    decreases a.len() - i,
{
    if i < a.len() && i < b.len() && a[i] == b[i] {
        lemma_less_from_asymmetric(a, b, i + 1);
    }
}

/// What comes before a string comes before all that the string comes
/// before.
pub proof fn lemma_less_from_transitive(a: Seq<u8>, b: Seq<u8>, c: Seq<u8>, i: int)
    requires
        0 <= i,
        less_from(a, b, i),
        less_from(b, c, i),
    ensures
        less_from(a, c, i),
    decreases a.len() - i,
{
    if i < a.len() && i < b.len() && i < c.len() && a[i] == b[i] && b[i] == c[i] {
        lemma_less_from_transitive(a, b, c, i + 1);
    }
}

/// The order of byte strings is total, strict and transitive.
pub proof fn lemma_lex_order(a: Seq<u8>, b: Seq<u8>, c: Seq<u8>)
    ensures
        !lex_less(a, a),
        !(lex_less(a, b) && lex_less(b, a)),
        a != b ==> lex_less(a, b) || lex_less(b, a),
        lex_less(a, b) && lex_less(b, c) ==> lex_less(a, c),
{
    lemma_less_from_asymmetric(a, a, 0);
    lemma_less_from_asymmetric(a, b, 0);
    if !lex_less(a, b) && !lex_less(b, a) {
        assert(a.subrange(0, 0) =~= b.subrange(0, 0));
        lemma_less_from_total(a, b, 0);
    }
    if lex_less(a, b) && lex_less(b, c) {
        lemma_less_from_transitive(a, b, c, 0);
    }
}

/// Compares two byte strings in their order.
pub fn compare(a: &[u8], b: &[u8]) -> (r: Order)
    ensures
        r == Order::Before <==> lex_less(a@, b@),
        r == Order::Same <==> a@ == b@,
        r == Order::After <==> lex_less(b@, a@),
{
    let mut i: usize = 0;
    proof {
        assert(a@.subrange(0, 0) =~= b@.subrange(0, 0));
    }
    while i < a.len() && i < b.len()
        invariant
            i <= a.len(),
            i <= b.len(),
            a@.subrange(0, i as int) == b@.subrange(0, i as int),
            lex_less(a@, b@) == less_from(a@, b@, i as int),
            lex_less(b@, a@) == less_from(b@, a@, i as int),
        decreases a.len() - i,
    {
        if a[i] < b[i] {
            proof {
                assert(a@.subrange(0, i as int + 1)[i as int] != b@.subrange(0, i as int + 1)[i as int]);
                lemma_less_from_asymmetric(a@, b@, 0);
            }
            assert(a@ != b@) by {
                if a@ == b@ {
                    assert(a@[i as int] == b@[i as int]);
                }
            }
            return Order::Before;
        }
        if a[i] > b[i] {
            proof {
                lemma_less_from_asymmetric(a@, b@, 0);
            }
            assert(a@ != b@) by {
                if a@ == b@ {
                    assert(a@[i as int] == b@[i as int]);
                }
            }
            return Order::After;
        }
        proof {
            assert(a@.subrange(0, i + 1) =~= a@.subrange(0, i as int).push(a@[i as int]));
            assert(b@.subrange(0, i + 1) =~= b@.subrange(0, i as int).push(b@[i as int]));
        }
        i += 1;
    }
    proof {
        lemma_lex_order(a@, b@, a@);
    }
    if i < b.len() {
        Order::Before
    } else if i < a.len() {
        Order::After
    } else {
        proof {
            lemma_less_from_total(a@, b@, i as int);
        }
        Order::Same
    }
}

/// Tells whether two byte strings are the same.
pub fn same(a: &[u8], b: &[u8]) -> (r: bool)
    ensures
        r == (a@ == b@),
{
    if a.len() != b.len() {
        return false;
    }
    assert(a@.subrange(0, b@.len() as int) =~= a@);
    has_tag(a, 0, b)
}

/// Makes a `String` of bytes that are UTF-8, and nothing of others.
///
/// This is `String::from_utf8` of std: it gives the string whose bytes are
/// the given ones where those are UTF-8, and an error else.
#[verifier::external_body]
fn from_utf8(v: Vec<u8>) -> (r: Option<String>)
    ensures
        r is Some <==> vstd::utf8::valid_utf8(v@),
        r matches Some(s) ==> s@ == vstd::utf8::decode_utf8(v@),
{
    String::from_utf8(v).ok()
}

/// Makes a `String` of bytes that are UTF-8.
pub fn slice_to_string(s: &[u8]) -> (r: String)
    requires
        vstd::utf8::valid_utf8(s@),
    ensures
        r@ == vstd::utf8::decode_utf8(s@),
{
    match from_utf8(copy(s)) {
        Some(text) => text,
        None => String::new(),
    }
}

/// Copies a byte string.
pub fn copy(s: &[u8]) -> (r: Vec<u8>)
    ensures
        r@ == s@,
{
    vstd::slice::slice_to_vec(s)
}

} // verus!
