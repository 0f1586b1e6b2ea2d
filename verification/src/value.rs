//! Fixed-point simulator values.
//!
//! Every simulator variable is carried as a signed count of millionths
//! (micro-units). All rule evaluation, comparison and wire bookkeeping is
//! exact integer arithmetic on this representation.
use crate::text::{
    all_digits, dec_val, digit_val, digit_value, is_dec_digit, is_digit_char,
    lemma_dec_val_prefix_le,
};
use vstd::arithmetic::div_mod::lemma_div_denominator;
use vstd::arithmetic::mul::{
    lemma_mul_basics, lemma_mul_inequality, lemma_mul_is_associative, lemma_mul_is_commutative,
    lemma_mul_upper_bound,
};
use vstd::arithmetic::power2::{
    lemma2_to64,
    lemma_pow2_adds, lemma_pow2_pos, lemma_pow2_strictly_increases, pow2,
};
use vstd::prelude::*;

verus! {

/// One micro-unit per unit: the scale of [`SimValue`].
pub const MICROS_PER_UNIT: i64 = 1_000_000;

/// A simulator variable value, as a signed count of micro-units
/// (millionths of a unit).
#[derive(Clone, Copy, Debug, PartialEq, Eq, Structural)]
pub struct SimValue {
    pub micros: i64,
}

impl SimValue {
    /// The value as a mathematical count of micro-units.
    pub open spec fn as_int(self) -> int {
        self.micros as int
    }

    /// The zero value.
    pub fn zero() -> (r: SimValue)
        ensures
            r.as_int() == 0,
    {
        SimValue { micros: 0 }
    }

    /// Builds a value from a raw micro-unit count.
    pub fn from_micros(micros: i64) -> (r: SimValue)
        ensures
            r.as_int() == micros as int,
    {
        SimValue { micros }
    }

    /// Builds a value from a count of whole units.
    pub fn from_units(units: i64) -> (r: SimValue)
        requires
            -9_223_372_036_854 <= units <= 9_223_372_036_854,
        ensures
            r.as_int() == units * MICROS_PER_UNIT,
    {
        SimValue { micros: units * MICROS_PER_UNIT }
    }
}

/// Ten to a power.
pub open spec fn pow10(k: nat) -> int
    decreases k,
{
    if k == 0 {
        1
    } else {
        10 * pow10((k - 1) as nat)
    }
}

pub proof fn lemma_pow10_pos(k: nat)
    ensures
        pow10(k) >= 1,
    decreases k,
{
    if k > 0 {
        lemma_pow10_pos((k - 1) as nat);
    }
}

pub proof fn lemma_pow10_increases(a: nat, b: nat)
    requires
        a <= b,
    ensures
        pow10(a) <= pow10(b),
    decreases b,
{
    if a < b {
        lemma_pow10_increases(a, (b - 1) as nat);
        lemma_pow10_pos((b - 1) as nat);
    }
}

/// The first twenty powers of ten, spelled out.
pub proof fn lemma_pow10_values()
    ensures
        pow10(0) == 1,
        pow10(1) == 10,
        pow10(2) == 100,
        pow10(3) == 1_000,
        pow10(4) == 10_000,
        pow10(5) == 100_000,
        pow10(6) == 1_000_000,
        pow10(7) == 10_000_000,
        pow10(8) == 100_000_000,
        pow10(9) == 1_000_000_000,
        pow10(10) == 10_000_000_000,
        pow10(11) == 100_000_000_000,
        pow10(12) == 1_000_000_000_000,
        pow10(13) == 10_000_000_000_000,
        pow10(14) == 100_000_000_000_000,
        pow10(15) == 1_000_000_000_000_000,
        pow10(16) == 10_000_000_000_000_000,
        pow10(17) == 100_000_000_000_000_000,
        pow10(18) == 1_000_000_000_000_000_000,
        pow10(19) == 10_000_000_000_000_000_000,
{
    assert(pow10(0) == 1);
    assert(pow10(1) == 10);
    assert(pow10(2) == 100);
    assert(pow10(3) == 1_000);
    assert(pow10(4) == 10_000);
    assert(pow10(5) == 100_000);
    assert(pow10(6) == 1_000_000);
    assert(pow10(7) == 10_000_000);
    assert(pow10(8) == 100_000_000);
    assert(pow10(9) == 1_000_000_000);
    assert(pow10(10) == 10_000_000_000);
    assert(pow10(11) == 100_000_000_000);
    assert(pow10(12) == 1_000_000_000_000);
    assert(pow10(13) == 10_000_000_000_000);
    assert(pow10(14) == 100_000_000_000_000);
    assert(pow10(15) == 1_000_000_000_000_000);
    assert(pow10(16) == 10_000_000_000_000_000);
    assert(pow10(17) == 100_000_000_000_000_000);
    assert(pow10(18) == 1_000_000_000_000_000_000);
    assert(pow10(19) == 10_000_000_000_000_000_000);
}

/// A digit string denotes a number below ten to its length.
pub proof fn lemma_dec_val_bound(s: Seq<char>)
    requires
        all_digits(s),
    ensures
        0 <= dec_val(s) < pow10(s.len()),
    decreases s.len(),
{
    if s.len() > 0 {
        assert(s.drop_last() =~= s.take(s.len() - 1));
        assert(all_digits(s.drop_last()));
        lemma_dec_val_bound(s.drop_last());
        assert(0 <= digit_val(s.last()) < 10);
    }
}

/// Concatenating digit strings shifts the left digits by the length of the
/// right.
pub proof fn lemma_dec_val_concat(a: Seq<char>, b: Seq<char>)
    ensures
        dec_val(a + b) == dec_val(a) * pow10(b.len()) + dec_val(b),
    decreases b.len(),
{
    if b.len() == 0 {
        assert(a + b =~= a);
    } else {
        lemma_dec_val_concat(a, b.drop_last());
        assert((a + b).drop_last() =~= a + b.drop_last());
        assert((a + b).last() == b.last());
        assert(dec_val(a) * pow10((b.len() - 1) as nat) * 10 == dec_val(a) * pow10(b.len())) by {
            lemma_mul_is_associative(dec_val(a), pow10((b.len() - 1) as nat), 10);
            lemma_mul_is_commutative(pow10((b.len() - 1) as nat), 10);
        }
    }
}

/// The leading digits of a digit string are its value divided by ten to the
/// number of digits dropped.
pub proof fn lemma_dec_val_take_div(s: Seq<char>, m: int)
    requires
        all_digits(s),
        0 <= m <= s.len(),
    ensures
        dec_val(s.take(m)) == dec_val(s) / pow10((s.len() - m) as nat),
{
    let tail = s.skip(m);
    assert(s =~= s.take(m) + tail);
    assert forall|j: int| 0 <= j < tail.len() implies is_dec_digit(#[trigger] tail[j]) by {
        assert(tail[j] == s[m + j]);
    }
    lemma_dec_val_concat(s.take(m), tail);
    lemma_dec_val_bound(tail);
    lemma_pow10_pos(tail.len());
    vstd::arithmetic::div_mod::lemma_fundamental_div_mod_converse_div(
        dec_val(s),
        pow10(tail.len()),
        dec_val(s.take(m)),
        dec_val(tail),
    );
}

/// The index of the first decimal point of `s`, or `-1` if there is none.
pub open spec fn find_dot(s: Seq<char>) -> int
    decreases s.len(),
{
    if s.len() == 0 {
        -1
    } else if s[0] == '.' {
        0
    } else {
        let r = find_dot(s.drop_first());
        if r < 0 {
            -1
        } else {
            r + 1
        }
    }
}

proof fn lemma_find_dot_at(s: Seq<char>, k: int)
    requires
        0 <= k < s.len(),
        forall|j: int| 0 <= j < k ==> s[j] != '.',
        s[k] == '.',
    ensures
        find_dot(s) == k,
    decreases k,
{
    if k > 0 {
        lemma_find_dot_at(s.drop_first(), k - 1);
    }
}

proof fn lemma_find_dot_none(s: Seq<char>)
    requires
        forall|j: int| 0 <= j < s.len() ==> s[j] != '.',
    ensures
        find_dot(s) == -1,
    decreases s.len(),
{
    if s.len() > 0 {
        lemma_find_dot_none(s.drop_first());
    }
}

/// The index of the first exponent mark of `s`, or `-1` if there is none.
pub open spec fn find_exp_mark(s: Seq<char>) -> int
    decreases s.len(),
{
    if s.len() == 0 {
        -1
    } else if s[0] == 'e' || s[0] == 'E' {
        0
    } else {
        let r = find_exp_mark(s.drop_first());
        if r < 0 {
            -1
        } else {
            r + 1
        }
    }
}

proof fn lemma_find_exp_mark_at(s: Seq<char>, k: int)
    requires
        0 <= k < s.len(),
        forall|j: int| 0 <= j < k ==> s[j] != 'e' && s[j] != 'E',
        s[k] == 'e' || s[k] == 'E',
    ensures
        find_exp_mark(s) == k,
    decreases k,
{
    if k > 0 {
        lemma_find_exp_mark_at(s.drop_first(), k - 1);
    }
}

proof fn lemma_find_exp_mark_none(s: Seq<char>)
    requires
        forall|j: int| 0 <= j < s.len() ==> s[j] != 'e' && s[j] != 'E',
    ensures
        find_exp_mark(s) == -1,
    decreases s.len(),
{
    if s.len() > 0 {
        lemma_find_exp_mark_none(s.drop_first());
    }
}

/// Whether the literal carries a leading minus sign.
pub open spec fn literal_negative(s: Seq<char>) -> bool {
    s.len() > 0 && s[0] == '-'
}

/// The literal without its sign character.
pub open spec fn literal_body(s: Seq<char>) -> Seq<char> {
    if s.len() > 0 && (s[0] == '-' || s[0] == '+') {
        s.drop_first()
    } else {
        s
    }
}

/// The micro-unit count denoted by a decimal literal
/// `[+|-] digits [ '.' digits ] [ (e|E) [+|-] digits ]` — at least one
/// mantissa digit, and at least one exponent digit when the mark is present:
/// the exact decimal value, truncated toward zero at micro-unit resolution.
/// `None` when the literal is malformed or its magnitude exceeds the
/// representable range; forms beyond this grammar (infinities, NaN) also
/// fall to `None`.
pub open spec fn literal_micros(s: Seq<char>) -> Option<int> {
    let body = literal_body(s);
    let em = find_exp_mark(body);
    let mant = if em < 0 {
        body
    } else {
        body.take(em)
    };
    let epart = if em < 0 {
        Seq::<char>::empty()
    } else {
        body.skip(em + 1)
    };
    let eneg = epart.len() > 0 && epart[0] == '-';
    let edigits = if epart.len() > 0 && (epart[0] == '-' || epart[0] == '+') {
        epart.drop_first()
    } else {
        epart
    };
    let kdot = find_dot(mant);
    let ipart = if kdot < 0 {
        mant
    } else {
        mant.take(kdot)
    };
    let fpart = if kdot < 0 {
        Seq::<char>::empty()
    } else {
        mant.skip(kdot + 1)
    };
    let digits = ipart + fpart;
    if all_digits(ipart) && all_digits(fpart) && digits.len() >= 1 && (em < 0 || (edigits.len()
        >= 1 && all_digits(edigits))) {
        let e = if em < 0 {
            0
        } else if eneg {
            -dec_val(edigits)
        } else {
            dec_val(edigits)
        };
        let mag = literal_scaled_mag(digits, fpart.len() as int, e);
        if mag <= i64::MAX {
            Some(
                if literal_negative(s) {
                    -mag
                } else {
                    mag
                },
            )
        } else {
            None
        }
    } else {
        None
    }
}

/// The magnitude a mantissa digit string denotes under an exponent: the
/// digits scaled so that the sixth fraction place is the unit, truncated
/// toward zero.
pub open spec fn literal_scaled_mag(digits: Seq<char>, flen: int, e: int) -> int {
    let t = 6 + e - flen;
    if t >= 0 {
        dec_val(digits) * pow10(t as nat)
    } else {
        dec_val(digits) / pow10((-t) as nat)
    }
}
/// Exponents are clamped here during parsing: far beyond what any mantissa
/// could bring back into range, so the clamped and the exact exponent decide
/// every literal alike.
const EXP_CLAMP: u128 = 1_000_000_000_000_000_000_000_000_000_000;

/// Ten to a small power, executable.
fn pow10_u128(k: u32) -> (r: u128)
    requires
        k <= 18,
    ensures
        r as int == pow10(k as nat),
{
    let mut r: u128 = 1;
    let mut i: u32 = 0;
    while i < k
        invariant
            i <= k,
            k <= 18,
            r as int == pow10(i as nat),
        decreases k - i,
    {
        proof {
            lemma_pow10_values();
            lemma_pow10_increases(i as nat, 17);
        }
        r = r * 10;
        i += 1;
    }
    r
}

/// The position of the first exponent mark at or after `from`.
#[verifier::loop_isolation(false)]
fn scan_exp_mark(s: &str, from: usize) -> (em: usize)
    requires
        from <= s@.len(),
    ensures
        from <= em <= s@.len(),
        forall|j: int| from <= j < em ==> s@[j] != 'e' && s@[j] != 'E',
        em < s@.len() ==> (s@[em as int] == 'e' || s@[em as int] == 'E'),
{
    let n = s.unicode_len();
    let mut em: usize = from;
    while em < n && s.get_char(em) != 'e' && s.get_char(em) != 'E'
        invariant
            from <= em <= n,
            forall|j: int| from <= j < em ==> s@[j] != 'e' && s@[j] != 'E',
        decreases n - em,
    {
        em += 1;
    }
    em
}

/// The position of the first decimal point in `[from, until)`, or `until`.
#[verifier::loop_isolation(false)]
fn scan_dot(s: &str, from: usize, until: usize) -> (dot: usize)
    requires
        from <= until <= s@.len(),
    ensures
        from <= dot <= until,
        forall|j: int| from <= j < dot ==> s@[j] != '.',
        dot < until ==> s@[dot as int] == '.',
{
    let mut dot: usize = from;
    while dot < until && s.get_char(dot) != '.'
        invariant
            from <= dot <= until,
            forall|j: int| from <= j < dot ==> s@[j] != '.',
        decreases until - dot,
    {
        dot += 1;
    }
    dot
}

/// Whether every mantissa character but the dot is a digit.
#[verifier::loop_isolation(false)]
fn mantissa_digits_ok(
    s: &str,
    pos: usize,
    dot: usize,
    em: usize,
    Ghost(ipart): Ghost<Seq<char>>,
    Ghost(fpart): Ghost<Seq<char>>,
) -> (ok: bool)
    requires
        pos <= dot <= em <= s@.len(),
        ipart == s@.subrange(pos as int, dot as int),
        fpart == if dot < em {
            s@.subrange(dot as int + 1, em as int)
        } else {
            Seq::<char>::empty()
        },
    ensures
        ok ==> all_digits(ipart) && all_digits(fpart) && all_digits(ipart + fpart) && (forall|
            j: int,
        |
            pos <= j < em && j != dot ==> is_dec_digit(#[trigger] s@[j])),
        !ok ==> !all_digits(ipart) || !all_digits(fpart),
{
    let mut i: usize = pos;
    while i < em
        invariant
            pos <= i <= em,
            forall|j: int| pos <= j < i && j != dot ==> is_dec_digit(#[trigger] s@[j]),
        decreases em - i,
    {
        if i != dot {
            if !is_digit_char(s.get_char(i)) {
                proof {
                    if i < dot {
                        assert(ipart[i - pos] == s@[i as int]);
                        assert(!all_digits(ipart));
                    } else {
                        assert(fpart[i - dot - 1] == s@[i as int]);
                        assert(!all_digits(fpart));
                    }
                }
                return false;
            }
        }
        i += 1;
    }
    proof {
        assert forall|j: int| 0 <= j < ipart.len() implies is_dec_digit(#[trigger] ipart[j]) by {
            assert(ipart[j] == s@[pos + j]);
        }
        assert forall|j: int| 0 <= j < fpart.len() implies is_dec_digit(#[trigger] fpart[j]) by {
            assert(fpart[j] == s@[dot + 1 + j]);
        }
        let digits = ipart + fpart;
        assert forall|j: int| 0 <= j < digits.len() implies is_dec_digit(
            #[trigger] digits[j],
        ) by {
            if j < ipart.len() {
                assert(digits[j] == ipart[j]);
            } else {
                assert(digits[j] == fpart[j - ipart.len()]);
            }
        }
        assert(all_digits(digits));
    }
    true
}

/// Reads the first `keep` mantissa digits (skipping the decimal point) as a
/// number; `None` when their value exceeds the representable range.
#[verifier::loop_isolation(false)]
fn mantissa_prefix_value(
    s: &str,
    pos: usize,
    dot: usize,
    em: usize,
    keep: usize,
    Ghost(ipart): Ghost<Seq<char>>,
    Ghost(fpart): Ghost<Seq<char>>,
) -> (r: Option<u128>)
    requires
        pos <= dot <= em <= s@.len(),
        ipart == s@.subrange(pos as int, dot as int),
        fpart == if dot < em {
            s@.subrange(dot as int + 1, em as int)
        } else {
            Seq::<char>::empty()
        },
        forall|j: int| pos <= j < em && j != dot ==> is_dec_digit(#[trigger] s@[j]),
        all_digits(ipart + fpart),
        keep <= ipart.len() + fpart.len(),
    ensures
        match r {
            Some(v) => v as int == dec_val((ipart + fpart).take(keep as int)) && v
                <= 9_223_372_036_854_775_807,
            None => dec_val((ipart + fpart).take(keep as int)) > 9_223_372_036_854_775_807,
        },
{
    let ghost digits = ipart + fpart;
    proof {
        assert forall|j: int| 0 <= j < keep implies is_dec_digit(
            #[trigger] digits.take(keep as int)[j],
        ) by {
            assert(digits.take(keep as int)[j] == digits[j]);
        }
        assert(all_digits(digits.take(keep as int)));
    }
    let i64_max: u128 = 9_223_372_036_854_775_807;
    let mut dacc: u128 = 0;
    let mut consumed: usize = 0;
    let mut i2: usize = pos;
    while consumed < keep
        invariant
            pos <= i2 <= em,
            consumed == i2 - pos - (if i2 > dot {
                1int
            } else {
                0int
            }),
            consumed <= keep,
            dacc as int == dec_val(digits.take(consumed as int)),
            dacc <= i64_max,
        decreases em - i2,
    {
        proof {
            if i2 == em {
                assert(consumed == digits.len());
            }
        }
        if i2 == dot {
            i2 += 1;
        } else {
            let ghost j2 = consumed as int;
            proof {
                if i2 < dot {
                    assert(digits[j2] == ipart[j2]);
                    assert(ipart[j2] == s@[i2 as int]);
                } else {
                    assert(digits[j2] == fpart[j2 - ipart.len()]);
                    assert(fpart[j2 - ipart.len()] == s@[i2 as int]);
                }
                assert(digits.take(j2 + 1).drop_last() =~= digits.take(j2));
                assert(digits.take(j2 + 1).last() == digits[j2]);
            }
            let c = s.get_char(i2);
            let d = digit_value(c) as u128;
            let next = dacc * 10 + d;
            if next > i64_max {
                proof {
                    lemma_dec_val_prefix_le(digits.take(keep as int), j2 + 1);
                    assert(digits.take(keep as int).take(j2 + 1) =~= digits.take(j2 + 1));
                }
                return None;
            }
            dacc = next;
            consumed += 1;
            i2 += 1;
        }
    }
    Some(dacc)
}

/// Reads the exponent digits after the mark and optional sign, with the
/// magnitude clamped far beyond any scale a mantissa could bring back into
/// range; `None` when a non-digit appears.
#[verifier::loop_isolation(false)]
fn exponent_value(s: &str, ep: usize, Ghost(edigits): Ghost<Seq<char>>) -> (r: Option<u128>)
    requires
        ep < s@.len(),
        edigits == s@.subrange(ep as int, s@.len() as int),
    ensures
        match r {
            Some(v) => all_digits(edigits) && v <= EXP_CLAMP && (dec_val(edigits) < EXP_CLAMP
                ==> v as int == dec_val(edigits)) && (dec_val(edigits) >= EXP_CLAMP ==> v
                == EXP_CLAMP),
            None => !all_digits(edigits),
        },
{
    let n = s.unicode_len();
    let mut eacc: u128 = 0;
    let mut q: usize = ep;
    while q < n
        invariant
            n == s@.len(),
            ep <= q <= n,
            all_digits(edigits.take(q - ep)),
            dec_val(edigits.take(q - ep)) < EXP_CLAMP ==> eacc as int == dec_val(
                edigits.take(q - ep),
            ),
            dec_val(edigits.take(q - ep)) >= EXP_CLAMP ==> eacc == EXP_CLAMP,
            eacc <= EXP_CLAMP,
        decreases n - q,
    {
        let c = s.get_char(q);
        proof {
            assert(edigits.take(q - ep + 1).drop_last() =~= edigits.take(q - ep));
            assert(edigits.take(q - ep + 1).last() == edigits[q - ep]);
            assert(edigits[q - ep] == s@[q as int]);
        }
        if !is_digit_char(c) {
            proof {
                assert(!all_digits(edigits));
            }
            return None;
        }
        let d = digit_value(c) as u128;
        proof {
            lemma_dec_val_bound(edigits.take(q - ep));
        }
        eacc = eacc * 10 + d;
        if eacc > EXP_CLAMP {
            eacc = EXP_CLAMP;
        }
        q += 1;
    }
    proof {
        assert(edigits.take(n - ep) =~= edigits);
    }
    Some(eacc)
}

/// Assembles the scaled value once the literal's pieces are in hand: the
/// mantissa digits around the dot, the sign, and the (clamped) exponent.
#[verifier::loop_isolation(false)]
#[verifier::rlimit(100)]
fn assemble_literal(
    s: &str,
    pos: usize,
    dot: usize,
    em: usize,
    neg: bool,
    eneg: bool,
    eacc: u128,
    Ghost(ipart): Ghost<Seq<char>>,
    Ghost(fpart): Ghost<Seq<char>>,
    Ghost(e): Ghost<int>,
) -> (r: Option<SimValue>)
    requires
        pos <= dot <= em <= s@.len(),
        ipart == s@.subrange(pos as int, dot as int),
        fpart == if dot < em {
            s@.subrange(dot as int + 1, em as int)
        } else {
            Seq::<char>::empty()
        },
        forall|j: int| pos <= j < em && j != dot ==> is_dec_digit(#[trigger] s@[j]),
        all_digits(ipart + fpart),
        (ipart + fpart).len() >= 1,
        eacc <= EXP_CLAMP,
        eacc < EXP_CLAMP ==> e == if eneg {
            -(eacc as int)
        } else {
            eacc as int
        },
        eacc == EXP_CLAMP ==> (if eneg {
            e <= -(EXP_CLAMP as int)
        } else {
            e >= EXP_CLAMP as int
        }),
    ensures
        literal_scaled_mag(ipart + fpart, fpart.len() as int, e) <= i64::MAX ==> r == Some(
            SimValue {
                micros: (if neg {
                    -literal_scaled_mag(ipart + fpart, fpart.len() as int, e)
                } else {
                    literal_scaled_mag(ipart + fpart, fpart.len() as int, e)
                }) as i64,
            },
        ),
        literal_scaled_mag(ipart + fpart, fpart.len() as int, e) > i64::MAX ==> r is None,
{
    let ghost digits = ipart + fpart;
    let ghost dval = dec_val(digits);
    let ghost t: int = 6 + e - fpart.len();
    let ghost mag = literal_scaled_mag(digits, fpart.len() as int, e);
    let i64_max: u128 = 9_223_372_036_854_775_807;
    let flen: usize = if dot < em {
        em - dot - 1
    } else {
        0
    };
    let dcount: usize = (dot - pos) + flen;
    proof {
        assert(flen == fpart.len());
        assert(dcount == digits.len());
        lemma_dec_val_bound(digits);
    }
    let e128: i128 = if eneg {
        -(eacc as i128)
    } else {
        eacc as i128
    };
    let t128: i128 = 6 - (flen as i128) + e128;
    proof {
        if eacc < EXP_CLAMP {
            assert(t128 == t);
        }
    }
    if t128 >= 0 {
        // Scaling up.
        let dres = mantissa_prefix_value(s, pos, dot, em, dcount, Ghost(ipart), Ghost(fpart));
        proof {
            assert(digits.take(dcount as int) =~= digits);
        }
        if t128 > 18 {
            proof {
                if eacc == EXP_CLAMP {
                    assert(!eneg) by {
                        if eneg {
                            assert(t128 <= 6 - EXP_CLAMP);
                        }
                    }
                }
                assert(t > 18);
                lemma_pow10_values();
                lemma_pow10_increases(19, t as nat);
            }
            match dres {
                Some(v) => {
                    if v == 0 {
                        proof {
                            assert(dval == 0);
                            lemma_mul_basics(pow10(t as nat));
                            assert(mag == 0);
                        }
                        return Some(SimValue { micros: 0 });
                    }
                    proof {
                        assert(mag >= 1 * pow10(t as nat)) by {
                            lemma_mul_inequality(1, dval, pow10(t as nat));
                        }
                    }
                    return None;
                },
                None => {
                    proof {
                        assert(mag >= 1 * pow10(t as nat)) by {
                            lemma_mul_inequality(1, dval, pow10(t as nat));
                        }
                    }
                    return None;
                },
            }
        }
        // The scale is moderate, so the exponent clamp never fired.
        proof {
            if eacc == EXP_CLAMP {
                if eneg {
                    assert(t128 <= 6 - EXP_CLAMP);
                } else {
                    assert(t128 >= 6 - flen + EXP_CLAMP);
                }
                assert(false);
            }
            assert(t == t128);
            lemma_pow10_pos(t as nat);
        }
        let dacc = match dres {
            Some(v) => v,
            None => {
                proof {
                    assert(mag >= dval * 1) by {
                        lemma_mul_inequality(1, pow10(t as nat), dval);
                        lemma_mul_is_commutative(dval, pow10(t as nat));
                    }
                }
                return None;
            },
        };
        let p = pow10_u128(t128 as u32);
        proof {
            lemma_pow10_values();
            lemma_pow10_increases(t as nat, 18);
            assert((t128 as u32) as nat == t as nat);
            assert(p as int == pow10(t as nat));
            assert(dacc as int * p as int <= 9_223_372_036_854_775_807
                * 1_000_000_000_000_000_000) by {
                lemma_mul_upper_bound(
                    dacc as int,
                    9_223_372_036_854_775_807,
                    p as int,
                    1_000_000_000_000_000_000,
                );
            }
        }
        let mag_exec = dacc * p;
        if mag_exec > i64_max {
            return None;
        }
        let micros: i64 = if neg {
            -(mag_exec as i64)
        } else {
            mag_exec as i64
        };
        return Some(SimValue { micros });
    }
    // Scaling down: the trailing digits fall below the resolution.
    let ghost k = -t;
    if t128 <= -(dcount as i128) {
        // Every digit scales away: the magnitude is zero.
        proof {
            if eacc == EXP_CLAMP {
                assert(eneg) by {
                    if !eneg {
                        assert(t128 >= 6 - flen + EXP_CLAMP);
                    }
                }
            }
            assert(t < 0);
            assert(k >= dcount);
            lemma_pow10_increases(digits.len(), k as nat);
            vstd::arithmetic::div_mod::lemma_basic_div(dval, pow10(k as nat));
            assert(mag == 0);
        }
        return Some(SimValue { micros: 0 });
    }
    proof {
        if eacc == EXP_CLAMP {
            if eneg {
                assert(t128 <= 6 - EXP_CLAMP);
                assert(t128 <= -(dcount as i128));
            } else {
                assert(t128 >= 6 - flen + EXP_CLAMP);
            }
            assert(false);
        }
        assert(t == t128);
        assert(1 <= k < dcount);
    }
    let keep: usize = dcount - ((-t128) as usize);
    proof {
        lemma_dec_val_take_div(digits, keep as int);
        assert(mag == dec_val(digits.take(keep as int)));
    }
    match mantissa_prefix_value(s, pos, dot, em, keep, Ghost(ipart), Ghost(fpart)) {
        Some(v) => {
            let micros: i64 = if neg {
                -(v as i64)
            } else {
                v as i64
            };
            Some(SimValue { micros })
        },
        None => None,
    }
}

/// Ties a literal's pieces back to what the whole literal denotes,
/// malformed shapes included.
#[verifier::rlimit(100)]
proof fn lemma_literal_glue(
    s: Seq<char>,
    pos: int,
    dot: int,
    em: int,
    ipart: Seq<char>,
    fpart: Seq<char>,
    edigits: Seq<char>,
    eneg: bool,
    e: int,
)
    requires
        0 <= pos <= dot <= em <= s.len(),
        literal_body(s) == s.subrange(pos, s.len() as int),
        forall|j: int| pos <= j < em ==> s[j] != 'e' && s[j] != 'E',
        em < s.len() ==> (s[em] == 'e' || s[em] == 'E'),
        forall|j: int| pos <= j < dot ==> s[j] != '.',
        dot < em ==> s[dot] == '.',
        ipart == s.subrange(pos, dot),
        fpart == if dot < em {
            s.subrange(dot + 1, em)
        } else {
            Seq::<char>::empty()
        },
        eneg == (em < s.len() && em + 1 < s.len() && s[em + 1] == '-'),
        edigits == if em < s.len() {
            if em + 1 < s.len() && (s[em + 1] == '-' || s[em + 1] == '+') {
                s.subrange(em + 2, s.len() as int)
            } else {
                s.subrange(em + 1, s.len() as int)
            }
        } else {
            Seq::<char>::empty()
        },
        e == if em >= s.len() {
            0
        } else if eneg {
            -dec_val(edigits)
        } else {
            dec_val(edigits)
        },
    ensures
        literal_micros(s) == (if all_digits(ipart) && all_digits(fpart) && (ipart + fpart).len()
            >= 1 && (em >= s.len() || (edigits.len() >= 1 && all_digits(edigits))) {
            if literal_scaled_mag(ipart + fpart, fpart.len() as int, e) <= i64::MAX {
                Some(
                    if literal_negative(s) {
                        -literal_scaled_mag(ipart + fpart, fpart.len() as int, e)
                    } else {
                        literal_scaled_mag(ipart + fpart, fpart.len() as int, e)
                    },
                )
            } else {
                None
            }
        } else {
            None
        }),
{
    let n = s.len() as int;
    let body = literal_body(s);
    assert(body.len() == n - pos);
    assert(forall|j: int| 0 <= j < body.len() ==> #[trigger] body[j] == s[pos + j]);
    // The exponent mark.
    if em < n {
        assert(body[em - pos] == s[em]);
        assert(forall|j: int| 0 <= j < em - pos ==> #[trigger] body[j] != 'e' && body[j] != 'E');
        lemma_find_exp_mark_at(body, em - pos);
    } else {
        assert(forall|j: int| 0 <= j < body.len() ==> #[trigger] body[j] != 'e' && body[j]
            != 'E');
        lemma_find_exp_mark_none(body);
    }
    let mant = if em < n {
        body.take(em - pos)
    } else {
        body
    };
    assert(mant =~= s.subrange(pos, em));
    // The decimal point.
    if dot < em {
        assert(mant[dot - pos] == s[dot]);
        assert(forall|j: int| 0 <= j < dot - pos ==> #[trigger] mant[j] != '.');
        lemma_find_dot_at(mant, dot - pos);
    } else {
        assert(forall|j: int| 0 <= j < mant.len() ==> #[trigger] mant[j] != '.');
        lemma_find_dot_none(mant);
    }
    if dot < em {
        assert(ipart =~= mant.take(dot - pos));
        assert(fpart =~= mant.skip(dot - pos + 1));
    } else {
        assert(ipart =~= mant);
    }
    // The exponent field.
    if em < n {
        let epart = body.skip(em - pos + 1);
        assert(epart =~= s.subrange(em + 1, n));
        if em + 1 < n {
            assert(epart[0] == s[em + 1]);
            if s[em + 1] == '-' || s[em + 1] == '+' {
                assert(epart.drop_first() =~= s.subrange(em + 2, n));
            }
        } else {
            assert(epart =~= Seq::<char>::empty());
        }
    }
}

impl SimValue {
    /// Parses a decimal literal into a value.
    #[verifier::rlimit(100)]
    pub fn parse_literal(s: &str) -> (r: Option<SimValue>)
        ensures
            r is Some <==> literal_micros(s@) is Some,
            r matches Some(v) ==> Some(v.as_int()) == literal_micros(s@),
    {
        let n = s.unicode_len();
        let mut pos: usize = 0;
        let mut neg = false;
        if n > 0 {
            let c0 = s.get_char(0);
            if c0 == '-' {
                neg = true;
                pos = 1;
            } else if c0 == '+' {
                pos = 1;
            }
        }
        proof {
            assert(literal_body(s@) =~= s@.subrange(pos as int, n as int));
            assert(neg == literal_negative(s@));
        }
        // The literal's pieces: mantissa up to the exponent mark, integer and
        // fraction digits around the dot, exponent digits after the sign.
        let em = scan_exp_mark(s, pos);
        let dot = scan_dot(s, pos, em);
        let ghost ipart = s@.subrange(pos as int, dot as int);
        let ghost fpart = if dot < em {
            s@.subrange(dot as int + 1, em as int)
        } else {
            Seq::<char>::empty()
        };
        let ghost digits = ipart + fpart;
        let ghost eneg_s = em < n && em + 1 < n && s@[em as int + 1] == '-';
        let ghost edigits: Seq<char> = if em < n {
            if em + 1 < n && (s@[em as int + 1] == '-' || s@[em as int + 1] == '+') {
                s@.subrange(em as int + 2, n as int)
            } else {
                s@.subrange(em as int + 1, n as int)
            }
        } else {
            Seq::<char>::empty()
        };
        let ghost e: int = if em >= n {
            0
        } else if eneg_s {
            -dec_val(edigits)
        } else {
            dec_val(edigits)
        };
        proof {
            lemma_literal_glue(
                s@,
                pos as int,
                dot as int,
                em as int,
                ipart,
                fpart,
                edigits,
                eneg_s,
                e,
            );
        }
        let flen: usize = if dot < em {
            em - dot - 1
        } else {
            0
        };
        let dcount: usize = (dot - pos) + flen;
        // No mantissa digit at all is malformed.
        if dcount == 0 {
            proof {
                assert(digits.len() == 0);
            }
            return None;
        }
        // Every mantissa character but the dot must be a digit.
        if !mantissa_digits_ok(s, pos, dot, em, Ghost(ipart), Ghost(fpart)) {
            return None;
        }
        // Parse the exponent.
        let mut eneg = false;
        let mut eacc: u128 = 0;
        if em < n {
            let mut ep: usize = em + 1;
            if ep < n {
                let c = s.get_char(ep);
                if c == '-' {
                    eneg = true;
                    ep += 1;
                } else if c == '+' {
                    ep += 1;
                }
            }
            proof {
                assert(eneg == eneg_s);
                assert(edigits =~= s@.subrange(ep as int, n as int));
            }
            // An exponent mark without digits is malformed.
            if ep == n {
                proof {
                    assert(edigits.len() == 0);
                }
                return None;
            }
            match exponent_value(s, ep, Ghost(edigits)) {
                Some(v) => {
                    eacc = v;
                },
                None => {
                    return None;
                },
            }
        }
        // Assemble; the assembler's contract mirrors the scaled-magnitude
        // spec, which the glue above tied back to the whole literal.
        proof {
            lemma_dec_val_bound(edigits);
            assert(literal_scaled_mag(digits, fpart.len() as int, e) >= 0) by {
                lemma_dec_val_bound(digits);
                let t2 = 6 + e - fpart.len();
                if t2 >= 0 {
                    lemma_pow10_pos(t2 as nat);
                    vstd::arithmetic::mul::lemma_mul_nonnegative(
                        dec_val(digits),
                        pow10(t2 as nat),
                    );
                } else {
                    lemma_pow10_pos((-t2) as nat);
                    vstd::arithmetic::div_mod::lemma_div_pos_is_pos(
                        dec_val(digits),
                        pow10((-t2) as nat),
                    );
                }
            }
        }
        assemble_literal(s, pos, dot, em, neg, eneg, eacc, Ghost(ipart), Ghost(fpart), Ghost(e))
    }

    /// Parses a decimal literal, falling back to `default` when it is
    /// malformed or out of range.
    pub fn parse_or(s: &str, default: SimValue) -> (r: SimValue)
        ensures
            r.as_int() == match literal_micros(s@) {
                Some(v) => v,
                None => default.as_int(),
            },
    {
        match SimValue::parse_literal(s) {
            Some(v) => v,
            None => default,
        }
    }

    /// The micro-unit count denoted by an IEEE 754 single-precision bit
    /// pattern, truncated toward zero and clamped to the representable
    /// magnitude. A NaN or infinity decodes to zero.
    pub open spec fn f32_bits_micros_spec(bits: u32) -> int {
        let exp = (bits >> 23) & 0xff;
        let frac = (bits & 0x7fffff) as int;
        let neg = bits >= 0x8000_0000;
        let sig = if exp == 0 {
            frac
        } else {
            frac + 0x800000
        };
        let scaled = sig * 1_000_000;
        let mag = if exp == 255 {
            0
        } else if exp >= 150 {
            scaled * pow2((exp - 150) as nat)
        } else if exp == 0 {
            scaled / pow2(149) as int
        } else {
            scaled / pow2((150 - exp) as nat) as int
        };
        let clamped = if mag > i64::MAX {
            i64::MAX as int
        } else {
            mag
        };
        if neg {
            -clamped
        } else {
            clamped
        }
    }

    /// Decodes an IEEE 754 single-precision bit pattern, as carried in
    /// inbound binary frames, into a fixed-point value.
    #[verifier::loop_isolation(false)]
    pub fn from_f32_bits(bits: u32) -> (r: SimValue)
        ensures
            r.as_int() == Self::f32_bits_micros_spec(bits),
    {
        let exp: u32 = (bits >> 23) & 0xff;
        let frac: u32 = bits & 0x7fffff;
        let neg: bool = bits >= 0x8000_0000;
        proof {
            assert(frac <= 0x7fffff && exp <= 255) by (bit_vector)
                requires
                    frac == bits & 0x7fffff,
                    exp == (bits >> 23) & 0xff,
            ;
            lemma2_to64();
        }
        if exp == 255 {
            return SimValue { micros: 0 };
        }
        let sig: u64 = if exp == 0 {
            frac as u64
        } else {
            (frac + 0x800000) as u64
        };
        let scaled: u64 = sig * 1_000_000;
        let mag: u64 = if exp >= 150 {
            let shift: u32 = exp - 150;
            let mut m: u64 = scaled;
            let mut k: u32 = 0;
            let mut saturated = false;
            while k < shift && !saturated
                invariant
                    k <= shift,
                    !saturated ==> m == scaled * pow2(k as nat),
                    !saturated ==> m <= i64::MAX,
                    saturated ==> scaled * pow2(shift as nat) > i64::MAX,
                decreases
                        shift - k,
                        (if saturated {
                            0int
                        } else {
                            1int
                        }),
            {
                if m > 0x3fff_ffff_ffff_ffff {
                    proof {
                        lemma_pow2_pos((shift - k) as nat);
                        lemma_pow2_pos(k as nat);
                        if shift - k >= 1 {
                            lemma_pow2_strictly_increases(0, (shift - k) as nat);
                        }
                        lemma_pow2_adds(k as nat, (shift - k) as nat);
                        assert(scaled * pow2(shift as nat) == (scaled * pow2(k as nat)) * pow2(
                            (shift - k) as nat,
                        )) by {
                            lemma_mul_is_associative(
                                scaled as int,
                                pow2(k as nat) as int,
                                pow2((shift - k) as nat) as int,
                            );
                        }
                        assert(m * pow2((shift - k) as nat) >= m * 2) by {
                            lemma_mul_inequality(
                                2,
                                pow2((shift - k) as nat) as int,
                                m as int,
                            );
                            lemma_mul_is_commutative(m as int, pow2((shift - k) as nat) as int);
                            lemma_mul_is_commutative(m as int, 2);
                        }
                    }
                    saturated = true;
                } else {
                    proof {
                        lemma_pow2_adds(k as nat, 1);
                        lemma2_to64();
                        lemma_mul_is_associative(scaled as int, pow2(k as nat) as int, 2);
                    }
                    m = m * 2;
                    k += 1;
                }
            }
            if saturated {
                9_223_372_036_854_775_807u64
            } else {
                proof {
                    assert(k == shift);
                }
                m
            }
        } else {
            let halvings: u32 = if exp == 0 {
                149
            } else {
                150 - exp
            };
            let mut m: u64 = scaled;
            let mut k: u32 = 0;
            proof {
                lemma2_to64();
            }
            while k < halvings
                invariant
                    k <= halvings,
                    m == scaled as int / pow2(k as nat) as int,
                decreases halvings - k,
            {
                proof {
                    lemma_pow2_pos(k as nat);
                    lemma_pow2_adds(k as nat, 1);
                    lemma2_to64();
                    lemma_div_denominator(scaled as int, pow2(k as nat) as int, 2);
                }
                m = m / 2;
                k += 1;
            }
            m
        };
        proof {
            assert(mag <= i64::MAX) by {
                if exp < 150 {
                    lemma_pow2_pos(
                        if exp == 0 {
                            149nat
                        } else {
                            (150 - exp) as nat
                        },
                    );
                    vstd::arithmetic::div_mod::lemma_div_is_ordered_by_denominator(
                        scaled as int,
                        1,
                        pow2(
                            if exp == 0 {
                                149nat
                            } else {
                                (150 - exp) as nat
                            },
                        ) as int,
                    );
                }
            }
        }
        if neg {
            SimValue { micros: -(mag as i64) }
        } else {
            SimValue { micros: mag as i64 }
        }
    }

    /// The value as written to a bare output pin: whole units, truncated
    /// toward zero and clamped to the `u8` range.
    pub open spec fn pin_value_spec(self) -> u8 {
        if self.as_int() < 0 {
            0
        } else if self.as_int() / (MICROS_PER_UNIT as int) > 255 {
            255
        } else {
            (self.as_int() / (MICROS_PER_UNIT as int)) as u8
        }
    }

    /// Converts the value for a bare output pin.
    pub fn to_pin_value(self) -> (r: u8)
        ensures
            r == self.pin_value_spec(),
    {
        if self.micros < 0 {
            0
        } else {
            let units = (self.micros as u64) / 1_000_000;
            if units > 255 {
                255
            } else {
                units as u8
            }
        }
    }

    /// The whole-unit count nearest to the value, ties to even.
    pub open spec fn rounded_units(self) -> int {
        let mag = if self.as_int() < 0 {
            -self.as_int()
        } else {
            self.as_int()
        };
        let whole = mag / (MICROS_PER_UNIT as int);
        let rem = mag % (MICROS_PER_UNIT as int);
        let units = if rem > 500_000 || (rem == 500_000 && whole % 2 == 1) {
            whole + 1
        } else {
            whole
        };
        if self.as_int() < 0 {
            -units
        } else {
            units
        }
    }

    /// The display rendering of the value: the nearest whole-unit count in
    /// decimal (`-0` renders as `0`).
    pub open spec fn rounded_str(self) -> Seq<char> {
        crate::decstr::dec_str_signed(self.rounded_units())
    }

    /// Renders the value for a numeric display.
    pub fn to_rounded_string(self) -> (s: String)
        ensures
            s@ == self.rounded_str(),
    {
        let mag: u64 = if self.micros < 0 {
            ((-(self.micros + 1)) as u64) + 1
        } else {
            self.micros as u64
        };
        let whole = mag / 1_000_000;
        let rem = mag % 1_000_000;
        let units = if rem > 500_000 || (rem == 500_000 && whole % 2 == 1) {
            whole + 1
        } else {
            whole
        };
        if self.micros < 0 && units > 0 {
            proof {
                reveal_strlit("-");
            }
            let mut s = String::from_str("-");
            s.append(crate::decstr::u64_to_string(units).as_str());
            proof {
                assert(s@ =~= self.rounded_str());
            }
            s
        } else {
            crate::decstr::u64_to_string(units)
        }
    }
}

} // verus!
