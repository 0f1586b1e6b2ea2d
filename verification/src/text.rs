//! Character-level helpers shared by the line-protocol codec and the
//! numeric-literal parser.
use vstd::prelude::*;

verus! {

/// ASCII whitespace as trimmed from the ends of a protocol line.
pub open spec fn is_line_ws(c: char) -> bool {
    c == ' ' || c == '\t' || c == '\r' || c == '\n'
}

/// A decimal digit.
pub open spec fn is_dec_digit(c: char) -> bool {
    '0' <= c && c <= '9'
}

/// The numeric value of a decimal digit.
pub open spec fn digit_val(c: char) -> int {
    c as int - '0' as int
}

/// Every character of `s` is a decimal digit.
pub open spec fn all_digits(s: Seq<char>) -> bool {
    forall|i: int| 0 <= i < s.len() ==> is_dec_digit(#[trigger] s[i])
}

/// The number denoted by a digit string (most significant digit first).
pub open spec fn dec_val(s: Seq<char>) -> int
    decreases s.len(),
{
    if s.len() == 0 {
        0
    } else {
        dec_val(s.drop_last()) * 10 + digit_val(s.last())
    }
}

/// A digit string denotes at least the number denoted by any of its prefixes.
pub proof fn lemma_dec_val_prefix_le(s: Seq<char>, k: int)
    requires
        all_digits(s),
        0 <= k <= s.len(),
    ensures
        dec_val(s.take(k)) <= dec_val(s),
        dec_val(s) >= 0,
    decreases s.len(),
{
    if s.len() == 0 {
    } else {
        assert(s.drop_last() =~= s.take(s.len() - 1));
        assert(all_digits(s.drop_last()));
        lemma_dec_val_prefix_le(s.drop_last(), if k <= s.len() - 1 {
            k
        } else {
            s.len() - 1
        });
        if k <= s.len() - 1 {
            assert(s.take(k) =~= s.drop_last().take(k));
        } else {
            assert(s.take(k) =~= s);
        }
    }
}

/// `digit_char` and `digit_val` are inverse on single digits.
pub proof fn lemma_digit_char_val(d: nat)
    requires
        d < 10,
    ensures
        is_dec_digit(crate::decstr::digit_char(d)),
        digit_val(crate::decstr::digit_char(d)) == d,
{
    assert(digit_val(crate::decstr::digit_char(0)) == 0);
    assert(digit_val(crate::decstr::digit_char(1)) == 1);
    assert(digit_val(crate::decstr::digit_char(2)) == 2);
    assert(digit_val(crate::decstr::digit_char(3)) == 3);
    assert(digit_val(crate::decstr::digit_char(4)) == 4);
    assert(digit_val(crate::decstr::digit_char(5)) == 5);
    assert(digit_val(crate::decstr::digit_char(6)) == 6);
    assert(digit_val(crate::decstr::digit_char(7)) == 7);
    assert(digit_val(crate::decstr::digit_char(8)) == 8);
    assert(digit_val(crate::decstr::digit_char(9)) == 9);
}

/// The digit string that `dec_str` renders denotes the number it started from,
/// and consists of digits only.
pub proof fn lemma_dec_str_val(n: nat)
    ensures
        all_digits(crate::decstr::dec_str(n)),
        dec_val(crate::decstr::dec_str(n)) == n,
        crate::decstr::dec_str(n).len() >= 1,
        is_dec_digit(crate::decstr::dec_str(n)[0]),
    decreases n,
{
    let s = crate::decstr::dec_str(n);
    lemma_digit_char_val(n % 10);
    if n < 10 {
        assert(s =~= seq![crate::decstr::digit_char(n)]);
        assert(s.drop_last() =~= Seq::<char>::empty());
        assert(dec_val(s) == dec_val(s.drop_last()) * 10 + digit_val(s.last()));
        assert(s.last() == crate::decstr::digit_char(n));
        assert(dec_val(Seq::<char>::empty()) == 0);
    } else {
        lemma_dec_str_val(n / 10);
        let prefix = crate::decstr::dec_str((n / 10) as nat);
        assert(s =~= prefix.push(crate::decstr::digit_char(n % 10)));
        assert(s.drop_last() =~= prefix);
        assert(s.last() == crate::decstr::digit_char(n % 10));
        assert(dec_val(s) == dec_val(prefix) * 10 + digit_val(s.last()));
        assert(dec_val(s) == (n / 10) * 10 + (n % 10));
        assert((n / 10) * 10 + (n % 10) == n) by (nonlinear_arith);
        assert(forall|i: int|
            0 <= i < s.len() ==> is_dec_digit(#[trigger] s[i]) == if i < prefix.len() {
                is_dec_digit(prefix[i])
            } else {
                is_dec_digit(crate::decstr::digit_char(n % 10))
            });
    }
}

/// Whether `c` is ASCII whitespace in the sense of [`is_line_ws`].
pub fn is_ws_char(c: char) -> (r: bool)
    ensures
        r == is_line_ws(c),
{
    c == ' ' || c == '\t' || c == '\r' || c == '\n'
}

/// Whether `c` is a decimal digit.
pub fn is_digit_char(c: char) -> (r: bool)
    ensures
        r == is_dec_digit(c),
{
    '0' <= c && c <= '9'
}

/// The numeric value of a decimal digit character.
pub fn digit_value(c: char) -> (r: u32)
    requires
        is_dec_digit(c),
    ensures
        r == digit_val(c),
        r < 10,
{
    (c as u32) - ('0' as u32)
}

/// Character-wise string equality.
pub fn str_eq(a: &str, b: &str) -> (r: bool)
    ensures
        r == (a@ == b@),
{
    let n = a.unicode_len();
    let m = b.unicode_len();
    if n != m {
        return false;
    }
    let mut i: usize = 0;
    while i < n
        invariant
            n == a@.len(),
            n == b@.len(),
            i <= n,
            forall|j: int| 0 <= j < i ==> a@[j] == b@[j],
        decreases n - i,
    {
        if a.get_char(i) != b.get_char(i) {
            return false;
        }
        i += 1;
    }
    proof {
        assert(a@ =~= b@);
    }
    true
}

} // verus!
