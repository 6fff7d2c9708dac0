//! Text building blocks: padding, decimal numerals and cause chains.

use vstd::prelude::*;
use vstd::string::*;

verus! {

/// The code point of a character.
pub open spec fn char_code(c: char) -> int {
    c as int
}

/// A run of `n` space characters.
pub open spec fn spaces(n: nat) -> Seq<char> {
    Seq::new(n, |i: int| ' ')
}

/// How many spaces bring a text of `len` characters up to `width`.
pub open spec fn fill(len: nat, width: nat) -> nat {
    if len >= width {
        0
    } else {
        (width - len) as nat
    }
}

/// `s` followed by the spaces that bring it to `width` characters; a longer
/// text is kept whole.
pub open spec fn left_justified(s: Seq<char>, width: nat) -> Seq<char> {
    s + spaces(fill(s.len(), width))
}

/// `s` preceded by the spaces that bring it to `width` characters; a longer
/// text is kept whole.
pub open spec fn right_justified(s: Seq<char>, width: nat) -> Seq<char> {
    spaces(fill(s.len(), width)) + s
}

/// The character of one decimal digit.
pub open spec fn digit_char(d: nat) -> char {
    if d == 0 {
        '0'
    } else if d == 1 {
        '1'
    } else if d == 2 {
        '2'
    } else if d == 3 {
        '3'
    } else if d == 4 {
        '4'
    } else if d == 5 {
        '5'
    } else if d == 6 {
        '6'
    } else if d == 7 {
        '7'
    } else if d == 8 {
        '8'
    } else {
        '9'
    }
}

/// The decimal numeral of `n`, without sign or leading zeros.
pub open spec fn decimal(n: nat) -> Seq<char>
    decreases n,
{
    if n < 10 {
        seq![digit_char(n)]
    } else {
        decimal(n / 10).push(digit_char(n % 10))
    }
}

/// The separator between a message and its cause.
pub open spec fn cause_separator() -> Seq<char> {
    seq![':', ' ']
}

/// The messages of a cause chain, outermost first, joined by `": "`.
pub open spec fn chain_text(chain: Seq<Seq<char>>) -> Seq<char>
    decreases chain.len(),
{
    if chain.len() == 0 {
        Seq::empty()
    } else if chain.len() == 1 {
        chain[0]
    } else {
        chain_text(chain.drop_last()) + cause_separator() + chain.last()
    }
}

/// The views of a vector of strings.
pub open spec fn views(v: Seq<String>) -> Seq<Seq<char>> {
    v.map_values(|s: String| s@)
}

/// A numeral has at least one digit, and at least two from 10 on.
pub proof fn lemma_decimal_len(n: nat)
    ensures
        decimal(n).len() >= 1,
        n >= 10 ==> decimal(n).len() >= 2,
    decreases n,
{
    if n >= 10 {
        lemma_decimal_len(n / 10);
    }
}

/// Different numbers have different numerals.
pub proof fn lemma_decimal_injective(a: nat, b: nat)
    requires
        decimal(a) == decimal(b),
    ensures
        a == b,
    decreases a,
{
    lemma_decimal_len(a);
    lemma_decimal_len(b);
    if a < 10 {
        assert(decimal(a)[0] == digit_char(a));
        assert(decimal(b)[0] == digit_char(b));
    } else {
        assert(decimal(a).drop_last() =~= decimal(a / 10));
        assert(decimal(b).drop_last() =~= decimal(b / 10));
        assert(decimal(a).last() == digit_char(a % 10));
        assert(decimal(b).last() == digit_char(b % 10));
        lemma_decimal_injective(a / 10, b / 10);
    }
}

/// Appends `n` spaces to `out`.
pub fn push_spaces(out: &mut String, n: usize)
    ensures
        final(out)@ == old(out)@ + spaces(n as nat),
{
    let mut i: usize = 0;
    assert(out@ =~= old(out)@ + spaces(0));
    while i < n
        invariant
            i <= n,
            out@ == old(out)@ + spaces(i as nat),
        decreases n - i,
    {
        proof {
            reveal_strlit(" ");
        }
        out.append(" ");
        i += 1;
        assert(out@ =~= old(out)@ + spaces(i as nat));
    }
}

/// Appends `s`, left-justified in a column of `width` characters.
pub fn push_left_justified(out: &mut String, s: &str, width: usize)
    ensures
        final(out)@ == old(out)@ + left_justified(s@, width as nat),
{
    let len: usize = s.unicode_len();
    out.append(s);
    if len < width {
        push_spaces(out, width - len);
    } else {
        push_spaces(out, 0);
    }
    assert(out@ =~= old(out)@ + left_justified(s@, width as nat));
}

/// Appends `s`, right-justified in a column of `width` characters.
pub fn push_right_justified(out: &mut String, s: &str, width: usize)
    ensures
        final(out)@ == old(out)@ + right_justified(s@, width as nat),
{
    let len: usize = s.unicode_len();
    if len < width {
        push_spaces(out, width - len);
    } else {
        push_spaces(out, 0);
    }
    out.append(s);
    assert(out@ =~= old(out)@ + right_justified(s@, width as nat));
}

/// The one-character text of a decimal digit.
fn digit_text(d: u64) -> (r: &'static str)
    requires
        d < 10,
    ensures
        r@ == seq![digit_char(d as nat)],
{
    proof {
        reveal_strlit("0");
        reveal_strlit("1");
        reveal_strlit("2");
        reveal_strlit("3");
        reveal_strlit("4");
        reveal_strlit("5");
        reveal_strlit("6");
        reveal_strlit("7");
        reveal_strlit("8");
        reveal_strlit("9");
    }
    let r = if d == 0 {
        "0"
    } else if d == 1 {
        "1"
    } else if d == 2 {
        "2"
    } else if d == 3 {
        "3"
    } else if d == 4 {
        "4"
    } else if d == 5 {
        "5"
    } else if d == 6 {
        "6"
    } else if d == 7 {
        "7"
    } else if d == 8 {
        "8"
    } else {
        "9"
    };
    assert(r@ =~= seq![digit_char(d as nat)]);
    r
}

/// Appends the decimal numeral of `n`.
pub fn push_decimal(out: &mut String, n: u64)
    ensures
        final(out)@ == old(out)@ + decimal(n as nat),
    decreases n,
{
    if n >= 10 {
        push_decimal(out, n / 10);
    }
    out.append(digit_text(n % 10));
    assert(out@ =~= old(out)@ + decimal(n as nat));
}

/// Joins the messages of a cause chain, outermost first, with `": "`.
pub fn join_chain(chain: &Vec<String>) -> (r: String)
    ensures
        r@ == chain_text(views(chain@)),
{
    let mut out = String::new();
    let mut i: usize = 0;
    while i < chain.len()
        invariant
            i <= chain.len(),
            out@ == chain_text(views(chain@).take(i as int)),
        decreases chain.len() - i,
    {
        proof {
            reveal_strlit(": ");
            let next = views(chain@).take(i + 1);
            assert(next.drop_last() =~= views(chain@).take(i as int));
            assert(next.last() == chain@[i as int]@);
            assert(": "@ =~= cause_separator());
        }
        if i > 0 {
            out.append(": ");
        }
        out.append(chain[i].as_str());
        i += 1;
        assert(out@ =~= chain_text(views(chain@).take(i as int)));
    }
    assert(views(chain@).take(i as int) =~= views(chain@));
    out
}

} // verus!
