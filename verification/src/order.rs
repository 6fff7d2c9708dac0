//! Comparing entries by a chosen field, in either direction.

use vstd::prelude::*;
use std::cmp::Ordering;
use crate::listing::Listing;
use crate::text::char_code;
use crate::time::Timestamp;

verus! {

/// The field that a listing is ordered by.
#[derive(Clone, Copy, Debug, PartialEq, Eq, Structural)]
pub enum Field {
    Name,
    Version,
    Updated,
    Unsorted,
}

/// The opposite result.
pub open spec fn flip(o: Ordering) -> Ordering {
    match o {
        Ordering::Less => Ordering::Greater,
        Ordering::Equal => Ordering::Equal,
        Ordering::Greater => Ordering::Less,
    }
}

/// The order of two integers.
pub open spec fn int_order(x: int, y: int) -> Ordering {
    if x < y {
        Ordering::Less
    } else if x > y {
        Ordering::Greater
    } else {
        Ordering::Equal
    }
}

/// Lexicographic order by code point: the first position at which the
/// texts differ decides, and a proper prefix comes first.
pub open spec fn lex_order(a: Seq<char>, b: Seq<char>) -> Ordering
    decreases a.len(),
{
    if a.len() == 0 {
        if b.len() == 0 {
            Ordering::Equal
        } else {
            Ordering::Less
        }
    } else if b.len() == 0 {
        Ordering::Greater
    } else if char_code(a[0]) < char_code(b[0]) {
        Ordering::Less
    } else if char_code(a[0]) > char_code(b[0]) {
        Ordering::Greater
    } else {
        lex_order(a.skip(1), b.skip(1))
    }
}

/// Chronological order: by the instant, whatever the display zones.
pub open spec fn instant_order(a: Timestamp, b: Timestamp) -> Ordering {
    if a.seconds() != b.seconds() {
        int_order(a.seconds(), b.seconds())
    } else {
        int_order(a.subsec(), b.subsec())
    }
}

/// The order of two entries by `field`.
pub open spec fn field_order(field: Field, a: Listing, b: Listing) -> Ordering {
    match field {
        Field::Name => lex_order(a.name@, b.name@),
        Field::Version => int_order(a.version_key(), b.version_key()),
        Field::Updated => instant_order(a.updated, b.updated),
        Field::Unsorted => Ordering::Equal,
    }
}

/// The order of two entries by `field`, negated where `reverse` is set.
pub open spec fn directed_order(field: Field, reverse: bool, a: Listing, b: Listing) -> Ordering {
    if reverse {
        flip(field_order(field, a, b))
    } else {
        field_order(field, a, b)
    }
}

/// `a` sorts strictly before `b`.
pub open spec fn precedes(field: Field, reverse: bool, a: Listing, b: Listing) -> bool {
    directed_order(field, reverse, a, b) is Less
}

/// `a` and `b` have equal keys.
pub open spec fn ties(field: Field, reverse: bool, a: Listing, b: Listing) -> bool {
    directed_order(field, reverse, a, b) is Equal
}

/// `a` sorts strictly after `b`.
pub open spec fn follows(field: Field, reverse: bool, a: Listing, b: Listing) -> bool {
    directed_order(field, reverse, a, b) is Greater
}

/// Calls `str::cmp`, which std documents as the lexicographic order of the
/// two strings by their bytes, that is by the code points of their
/// characters.
#[verifier::external_body]
fn text_order(a: &str, b: &str) -> (r: Ordering)
    ensures
        r == lex_order(a@, b@),
{
    a.cmp(b)
}

/// The opposite of a comparison's result.
pub fn negate(o: Ordering) -> (r: Ordering)
    ensures
        r == flip(o),
{
    match o {
        Ordering::Less => Ordering::Greater,
        Ordering::Equal => Ordering::Equal,
        Ordering::Greater => Ordering::Less,
    }
}

impl Field {
    /// Compares two entries by this field: names by code point, versions by
    /// number, update times by instant; `Unsorted` holds all entries equal.
    pub fn cmp_listings(&self, a: &Listing, b: &Listing) -> (r: Ordering)
        ensures
            r == field_order(*self, *a, *b),
    {
        match self {
            Field::Name => text_order(a.name.as_str(), b.name.as_str()),
            Field::Version => {
                let x: u64 = a.version.number();
                let y: u64 = b.version.number();
                if x < y {
                    Ordering::Less
                } else if x > y {
                    Ordering::Greater
                } else {
                    Ordering::Equal
                }
            },
            Field::Updated => {
                let sa: i64 = a.updated.timestamp();
                let sb: i64 = b.updated.timestamp();
                let na: u32 = a.updated.subsec_nanos();
                let nb: u32 = b.updated.subsec_nanos();
                if sa < sb {
                    Ordering::Less
                } else if sa > sb {
                    Ordering::Greater
                } else if na < nb {
                    Ordering::Less
                } else if na > nb {
                    Ordering::Greater
                } else {
                    Ordering::Equal
                }
            },
            Field::Unsorted => Ordering::Equal,
        }
    }

    /// Compares two entries by this field and negates the result where
    /// `reverse` is set. The operands are never swapped.
    pub fn cmp_directed(&self, reverse: bool, a: &Listing, b: &Listing) -> (r: Ordering)
        ensures
            r == directed_order(*self, reverse, *a, *b),
    {
        let o = self.cmp_listings(a, b);
        if reverse {
            negate(o)
        } else {
            o
        }
    }

    /// Whether `a` sorts strictly after `b`.
    pub fn ranks_after(&self, reverse: bool, a: &Listing, b: &Listing) -> (r: bool)
        ensures
            r == follows(*self, reverse, *a, *b),
    {
        match self.cmp_directed(reverse, a, b) {
            Ordering::Greater => true,
            _ => false,
        }
    }
}

/// Swapping the texts flips the lexicographic order.
pub proof fn lemma_lex_flip(a: Seq<char>, b: Seq<char>)
    ensures
        lex_order(b, a) == flip(lex_order(a, b)),
    decreases a.len(),
{
    if a.len() > 0 && b.len() > 0 {
        lemma_lex_flip(a.skip(1), b.skip(1));
    }
}

/// The lexicographic order is transitive, and strict as soon as one of the
/// two steps is.
pub proof fn lemma_lex_transitive(a: Seq<char>, b: Seq<char>, c: Seq<char>)
    ensures
        !(lex_order(a, b) is Greater) && !(lex_order(b, c) is Greater) ==> !(lex_order(a, c) is Greater),
        lex_order(a, b) is Less && !(lex_order(b, c) is Greater) ==> lex_order(a, c) is Less,
        !(lex_order(a, b) is Greater) && lex_order(b, c) is Less ==> lex_order(a, c) is Less,
    decreases a.len(),
{
    if a.len() > 0 && b.len() > 0 && c.len() > 0 {
        lemma_lex_transitive(a.skip(1), b.skip(1), c.skip(1));
    }
}

/// Swapping the entries flips the result, in either direction: the
/// comparison is antisymmetric, and a tie is a tie both ways.
pub proof fn lemma_swap(field: Field, reverse: bool, a: Listing, b: Listing)
    ensures
        directed_order(field, reverse, b, a) == flip(directed_order(field, reverse, a, b)),
        follows(field, reverse, a, b) <==> precedes(field, reverse, b, a),
        ties(field, reverse, a, b) <==> ties(field, reverse, b, a),
{
    lemma_lex_flip(a.name@, b.name@);
}

/// Negating the comparator exchanges "before" and "after" and keeps ties.
pub proof fn lemma_negation(field: Field, a: Listing, b: Listing)
    ensures
        precedes(field, true, a, b) <==> follows(field, false, a, b),
        follows(field, true, a, b) <==> precedes(field, false, a, b),
        ties(field, true, a, b) <==> ties(field, false, a, b),
{
}

/// Every field orders the entries totally, in either direction: of "before",
/// "tie" and "after" exactly one holds, and "not after" is transitive,
/// strictly so as soon as one of the two steps is strict.
pub proof fn lemma_transitive(field: Field, reverse: bool, a: Listing, b: Listing, c: Listing)
    ensures
        !follows(field, reverse, a, b) && !follows(field, reverse, b, c) ==> !follows(
            field,
            reverse,
            a,
            c,
        ),
        precedes(field, reverse, a, b) && !follows(field, reverse, b, c) ==> precedes(
            field,
            reverse,
            a,
            c,
        ),
        !follows(field, reverse, a, b) && precedes(field, reverse, b, c) ==> precedes(
            field,
            reverse,
            a,
            c,
        ),
        ties(field, reverse, a, b) && ties(field, reverse, b, c) ==> ties(field, reverse, a, c),
{
    lemma_lex_transitive(a.name@, b.name@, c.name@);
    lemma_lex_transitive(c.name@, b.name@, a.name@);
    lemma_lex_flip(a.name@, b.name@);
    lemma_lex_flip(b.name@, c.name@);
    lemma_lex_flip(a.name@, c.name@);
}

} // verus!
