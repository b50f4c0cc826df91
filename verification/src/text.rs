//! Helpers on strings and sequences that the other modules share.

use vstd::prelude::*;

verus! {

/// `String::push` appends one character to the end of the string.
pub assume_specification[ String::push ](s: &mut String, ch: char)
    ensures
        final(s)@ == old(s)@.push(ch),
;

/// The characters of `s`, in order.
pub fn chars_of(s: &str) -> (chars: Vec<char>)
    ensures
        chars@ == s@,
{
    let mut chars: Vec<char> = Vec::new();
    for c in it: s.chars()
        invariant
            it.seq() == s@,
            chars@ == s@.take(it.index() as int),
    {
        chars.push(c);
    }
    chars
}

/// Index of the first element of `s` equal to `x`, or `s.len()` where there
/// is none.
pub open spec fn first_index_of<T>(s: Seq<T>, x: T) -> int
    decreases s.len(),
{
    if s.len() == 0 || s[0] == x {
        0
    } else {
        1 + first_index_of(s.skip(1), x)
    }
}

/// `first_index_of` stays within `s`, passes over no `x`, and stops on one.
pub proof fn lemma_first_index_of<T>(s: Seq<T>, x: T)
    ensures
        0 <= first_index_of(s, x) <= s.len(),
        forall|j: int| 0 <= j < first_index_of(s, x) ==> s[j] != x,
        first_index_of(s, x) < s.len() ==> s[first_index_of(s, x)] == x,
    decreases s.len(),
{
    if s.len() == 0 || s[0] == x {
    } else {
        let rest = s.skip(1);
        lemma_first_index_of(rest, x);
        assert forall|j: int| 0 <= j < first_index_of(s, x) implies s[j] != x by {
            if j > 0 {
                assert(s[j] == rest[j - 1]);
            }
        }
        let k = first_index_of(rest, x);
        assert(k < rest.len() ==> s[k + 1] == rest[k]);
    }
}

/// The only index that passes over no `x` and stops on one, or at the end,
/// is `first_index_of`.
pub proof fn lemma_first_index_is<T>(s: Seq<T>, x: T, k: int)
    requires
        0 <= k <= s.len(),
        forall|j: int| 0 <= j < k ==> s[j] != x,
        k < s.len() ==> s[k] == x,
    ensures
        first_index_of(s, x) == k,
{
    lemma_first_index_of(s, x);
}

/// Where the first of two runs holds `x`, the first `x` of both together is
/// there; else it is where the second run has it, counted past the first.
pub proof fn lemma_first_index_of_both<T>(a: Seq<T>, b: Seq<T>, x: T)
    ensures
        first_index_of(a + b, x) == if first_index_of(a, x) < a.len() {
            first_index_of(a, x)
        } else {
            a.len() + first_index_of(b, x)
        },
{
    lemma_first_index_of(a, x);
    lemma_first_index_of(b, x);
    let ka = first_index_of(a, x);
    let kb = first_index_of(b, x);
    let k = if ka < a.len() {
        ka
    } else {
        a.len() + kb
    };
    assert forall|j: int| 0 <= j < k implies (a + b)[j] != x by {
        if j < a.len() {
            assert((a + b)[j] == a[j]);
        } else {
            assert((a + b)[j] == b[j - a.len()]);
        }
    }
    if k < (a + b).len() {
        if ka < a.len() {
            assert((a + b)[k] == a[ka]);
        } else {
            assert((a + b)[k] == b[kb]);
        }
    }
    lemma_first_index_is(a + b, x, k);
}

/// The decimal digit for `d`, which is below ten.
pub open spec fn digit_char(d: int) -> char {
    if d == 0 {
        '0'
    } else if d == 1 {
        '1'
    } else if d == 2 {
        '2'
    } else if d == 3 {
        '3'
    } else if d == 4 {
        '4'
    } else if d == 5 {
        '5'
    } else if d == 6 {
        '6'
    } else if d == 7 {
        '7'
    } else if d == 8 {
        '8'
    } else {
        '9'
    }
}

/// `n` in decimal, without leading zeros.
pub open spec fn decimal_text(n: nat) -> Seq<char>
    decreases n,
{
    if n < 10 {
        seq![digit_char(n as int)]
    } else {
        decimal_text(n / 10).push(digit_char((n % 10) as int))
    }
}

/// The decimal digit for `d`.
fn digit_of(d: u16) -> (c: char)
    requires
        d < 10,
    ensures
        c == digit_char(d as int),
{
    if d == 0 {
        '0'
    } else if d == 1 {
        '1'
    } else if d == 2 {
        '2'
    } else if d == 3 {
        '3'
    } else if d == 4 {
        '4'
    } else if d == 5 {
        '5'
    } else if d == 6 {
        '6'
    } else if d == 7 {
        '7'
    } else if d == 8 {
        '8'
    } else {
        '9'
    }
}

/// Appends `n` in decimal to `text`.
pub fn push_decimal(text: &mut String, n: u16)
    ensures
        final(text)@ == old(text)@ + decimal_text(n as nat),
    decreases n,
{
    if n >= 10 {
        push_decimal(text, n / 10);
    }
    text.push(digit_of(n % 10));
    proof {
        let before = old(text)@;
        if n >= 10 {
            assert((before + decimal_text((n / 10) as nat)).push(digit_char((n % 10) as int))
                == before + decimal_text(n as nat));
        } else {
            assert(before.push(digit_char(n as int)) == before + decimal_text(n as nat));
        }
    }
}

} // verus!
