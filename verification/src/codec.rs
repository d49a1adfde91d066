use vstd::prelude::*;
use vstd::string::{StrSliceExecFns, StringExecFns};

verus! {

/// The fixed-point scale: amounts count 1/10000ths of a currency unit.
pub const FIXED_POINT_SCALE: u64 = 10000;

/// A decimal digit character.
pub open spec fn spec_is_digit(c: char) -> bool {
    '0' as u32 <= c as u32 && c as u32 <= '9' as u32
}

/// The numeric value of a digit character.
pub open spec fn spec_digit_val(c: char) -> int {
    c as u32 - '0' as u32
}

/// Every character of the sequence is a decimal digit.
pub open spec fn spec_all_digits(s: Seq<char>) -> bool {
    forall|i: int| 0 <= i < s.len() ==> spec_is_digit(#[trigger] s[i])
}

/// The integer a digit sequence denotes, most significant digit first.
pub open spec fn spec_digits_val(s: Seq<char>) -> int
    decreases s.len(),
{
    if s.len() == 0 {
        0
    } else {
        spec_digits_val(s.drop_last()) * 10 + spec_digit_val(s.last())
    }
}

/// The digit character of a value below ten.
pub open spec fn spec_digit_char(d: int) -> char {
    if d == 0 {
        '0'
    } else if d == 1 {
        '1'
    } else if d == 2 {
        '2'
    } else if d == 3 {
        '3'
    } else if d == 4 {
        '4'
    } else if d == 5 {
        '5'
    } else if d == 6 {
        '6'
    } else if d == 7 {
        '7'
    } else if d == 8 {
        '8'
    } else {
        '9'
    }
}

/// The decimal digits of `n`, most significant first, without leading zeros
/// (a lone zero for `n == 0` itself).
pub open spec fn spec_uint_chars(n: nat) -> Seq<char>
    decreases n,
{
    if n < 10 {
        seq![spec_digit_char(n as int)]
    } else {
        spec_uint_chars(n / 10).push(spec_digit_char((n % 10) as int))
    }
}

/// The canonical text of a fixed-point amount: the whole units, a dot, and
/// exactly four fractional digits.
pub open spec fn spec_amount_chars(v: u64) -> Seq<char> {
    let frac = (v % 10000) as int;
    spec_uint_chars((v / 10000) as nat) + seq![
        '.',
        spec_digit_char(frac / 1000),
        spec_digit_char((frac / 100) % 10),
        spec_digit_char((frac / 10) % 10),
        spec_digit_char(frac % 10),
    ]
}

/// `split` cuts the text into a nonempty all-digit integer part and, when
/// anything follows, a dot and a nonempty all-digit fraction after it.
pub open spec fn spec_decimal_shape(s: Seq<char>, split: int) -> bool {
    &&& 0 < split <= s.len()
    &&& spec_all_digits(s.take(split))
    &&& (split == s.len() || {
        &&& s[split] == '.'
        &&& split + 1 < s.len()
        &&& spec_all_digits(s.skip(split + 1))
    })
}

/// Text that denotes a decimal number: digits, optionally followed by a dot
/// and at least one more digit.
pub open spec fn spec_valid_decimal(s: Seq<char>) -> bool {
    exists|split: int| spec_decimal_shape(s, split)
}

/// The fraction digits read as 1/10000ths of a unit: the first four digits
/// count, missing places read as zero, further digits are truncated away.
pub open spec fn spec_frac_units(f: Seq<char>) -> int {
    if f.len() >= 4 {
        spec_digits_val(f.take(4))
    } else if f.len() == 3 {
        spec_digits_val(f) * 10
    } else if f.len() == 2 {
        spec_digits_val(f) * 100
    } else if f.len() == 1 {
        spec_digits_val(f) * 1000
    } else {
        0
    }
}

/// The fixed-point value of decimal text cut at `split`.
pub open spec fn spec_decimal_units_at(s: Seq<char>, split: int) -> int {
    spec_digits_val(s.take(split)) * 10000 + if split == s.len() {
        0
    } else {
        spec_frac_units(s.skip(split + 1))
    }
}

/// The fixed-point value a valid decimal text denotes.
pub open spec fn spec_decimal_units(s: Seq<char>) -> int {
    spec_decimal_units_at(s, choose|split: int| spec_decimal_shape(s, split))
}

/// A digit sequence denotes a non-negative value.
proof fn lemma_digits_val_nonneg(s: Seq<char>)
    requires
        spec_all_digits(s),
    ensures
        spec_digits_val(s) >= 0,
    decreases s.len(),
{
    if s.len() > 0 {
        assert(spec_all_digits(s.drop_last()));
        lemma_digits_val_nonneg(s.drop_last());
    }
}

/// A fraction part made of digits is never read as a negative value.
proof fn lemma_frac_units_nonneg(f: Seq<char>)
    requires
        spec_all_digits(f),
    ensures
        spec_frac_units(f) >= 0,
{
    if f.len() >= 4 {
        assert(spec_all_digits(f.take(4))) by {
            assert forall|i: int| 0 <= i < f.take(4).len() implies spec_is_digit(
                #[trigger] f.take(4)[i],
            ) by {
                assert(f.take(4)[i] == f[i]);
            }
        }
        lemma_digits_val_nonneg(f.take(4));
    } else {
        lemma_digits_val_nonneg(f);
    }
}

/// The digit character of a value below ten is a digit, and denotes that
/// value again.
proof fn lemma_digit_char_val(d: int)
    requires
        0 <= d < 10,
    ensures
        spec_is_digit(spec_digit_char(d)),
        spec_digit_val(spec_digit_char(d)) == d,
{
}

/// The cut of a valid decimal text is its first dot (or its end): within the
/// integer part there is no dot, and past the cut a digit is never a dot.
proof fn lemma_split_is_first_dot(s: Seq<char>, dot: int, split: int)
    requires
        0 <= dot <= s.len(),
        dot < s.len() ==> s[dot] == '.',
        forall|t: int| 0 <= t < dot ==> s[t] != '.',
        spec_decimal_shape(s, split),
    ensures
        split == dot,
{
    if split < dot {
        assert(s[split] == '.');
    } else if split > dot {
        assert(spec_is_digit(s.take(split)[dot]));
    }
}

/// The digits of `n` are digits, there is at least one, and together they
/// denote `n` again.
proof fn lemma_uint_chars_val(n: nat)
    ensures
        spec_all_digits(spec_uint_chars(n)),
        spec_uint_chars(n).len() >= 1,
        spec_digits_val(spec_uint_chars(n)) == n,
    decreases n,
{
    if n < 10 {
        lemma_digit_char_val(n as int);
        let c = spec_digit_char(n as int);
        let s = spec_uint_chars(n);
        assert(s == seq![c]);
        assert(s.last() == c);
        assert(s.drop_last() =~= Seq::<char>::empty());
        assert(spec_digits_val(Seq::<char>::empty()) == 0);
        assert(spec_digits_val(s) == spec_digit_val(c));
        assert(spec_all_digits(s)) by {
            assert forall|i: int| 0 <= i < s.len() implies spec_is_digit(#[trigger] s[i]) by {
                assert(s[i] == c);
            }
        }
    } else {
        lemma_uint_chars_val(n / 10);
        lemma_digit_char_val((n % 10) as int);
        let p = spec_uint_chars(n / 10);
        let c = spec_digit_char((n % 10) as int);
        let s = spec_uint_chars(n);
        assert(s == p.push(c));
        assert(s.drop_last() =~= p);
        assert(s.last() == c);
        assert(spec_digits_val(s) == spec_digits_val(p) * 10 + spec_digit_val(c));
        assert(spec_all_digits(s)) by {
            assert forall|i: int| 0 <= i < s.len() implies spec_is_digit(#[trigger] s[i]) by {
                if i < p.len() {
                    assert(s[i] == p[i]);
                } else {
                    assert(s[i] == c);
                }
            }
        }
    }
}

/// The numeric value of a digit character, or nothing for any other
/// character.
fn digit_value(c: char) -> (r: Option<u64>)
    ensures
        spec_is_digit(c) ==> r == Some(spec_digit_val(c) as u64),
        !spec_is_digit(c) ==> r is None,
{
    let v = c as u32;
    let zero = '0' as u32;
    let nine = '9' as u32;
    if zero <= v && v <= nine {
        Some((v - zero) as u64)
    } else {
        None
    }
}

/// The one-character text of a digit value.
fn digit_str(d: u64) -> (s: &'static str)
    requires
        d < 10,
    ensures
        s@ == seq![spec_digit_char(d as int)],
{
    proof {
        reveal_strlit("0");
        reveal_strlit("1");
        reveal_strlit("2");
        reveal_strlit("3");
        reveal_strlit("4");
        reveal_strlit("5");
        reveal_strlit("6");
        reveal_strlit("7");
        reveal_strlit("8");
        reveal_strlit("9");
        assert("0"@ =~= seq!['0']);
        assert("1"@ =~= seq!['1']);
        assert("2"@ =~= seq!['2']);
        assert("3"@ =~= seq!['3']);
        assert("4"@ =~= seq!['4']);
        assert("5"@ =~= seq!['5']);
        assert("6"@ =~= seq!['6']);
        assert("7"@ =~= seq!['7']);
        assert("8"@ =~= seq!['8']);
        assert("9"@ =~= seq!['9']);
    }
    if d == 0 {
        "0"
    } else if d == 1 {
        "1"
    } else if d == 2 {
        "2"
    } else if d == 3 {
        "3"
    } else if d == 4 {
        "4"
    } else if d == 5 {
        "5"
    } else if d == 6 {
        "6"
    } else if d == 7 {
        "7"
    } else if d == 8 {
        "8"
    } else {
        "9"
    }
}

/// Renders an unsigned integer as decimal text.
pub fn uint_to_string(n: u64) -> (s: String)
    ensures
        s@ == spec_uint_chars(n as nat),
    decreases n,
{
    if n < 10 {
        digit_str(n).to_owned()
    } else {
        let mut s = uint_to_string(n / 10);
        s.append(digit_str(n % 10));
        proof {
            assert(s@ =~= spec_uint_chars(n as nat));
        }
        s
    }
}

/// Renders a fixed-point amount as decimal text with exactly four fractional
/// digits: the inverse of `parse_amount` on canonical text.
pub fn amount_to_string(v: u64) -> (s: String)
    ensures
        s@ == spec_amount_chars(v),
{
    let mut s = uint_to_string(v / FIXED_POINT_SCALE);
    s.append(".");
    let frac = v % FIXED_POINT_SCALE;
    s.append(digit_str(frac / 1000));
    s.append(digit_str((frac / 100) % 10));
    s.append(digit_str((frac / 10) % 10));
    s.append(digit_str(frac % 10));
    proof {
        reveal_strlit(".");
        assert("."@ =~= seq!['.']);
        assert(s@ =~= spec_amount_chars(v));
    }
    s
}

/// Parses decimal text into a fixed-point amount: the whole units before an
/// optional dot, then the first four fractional digits (a shorter fraction
/// reads as zero-padded, a longer one is truncated toward zero). Nothing is
/// returned exactly for text that does not denote a decimal number, or for a
/// value too large to represent.
pub fn parse_amount(s: &str) -> (r: Option<u64>)
    ensures
        match r {
            Some(v) => spec_valid_decimal(s@) && v == spec_decimal_units(s@),
            None => !spec_valid_decimal(s@) || spec_decimal_units(s@) > u64::MAX,
        },
{
    let len = s.unicode_len();

    // find the first dot, if any
    let mut dot: usize = len;
    let mut j: usize = 0;
    while j < len
        invariant
            j <= len,
            len == s@.len(),
            dot == len || (dot < j && s@[dot as int] == '.'),
            forall|t: int| 0 <= t < j && t < dot ==> s@[t] != '.',
        decreases len - j,
    {
        if dot == len && s.get_char(j) == '.' {
            dot = j;
        }
        j += 1;
    }

    proof {
        if spec_valid_decimal(s@) {
            let split = choose|split: int| spec_decimal_shape(s@, split);
            lemma_split_is_first_dot(s@, dot as int, split);
        }
    }

    if dot == 0 {
        // empty integer part (this also covers empty text)
        return None;
    }

    // the integer part: all digits, read into `units`
    let mut units: u64 = 0;
    let mut overflowed = false;
    let mut i: usize = 0;
    while i < dot
        invariant
            i <= dot <= len,
            len == s@.len(),
            dot < len ==> s@[dot as int] == '.',
            forall|t: int| 0 <= t < dot ==> s@[t] != '.',
            spec_all_digits(s@.take(i as int)),
            spec_digits_val(s@.take(i as int)) >= 0,
            !overflowed ==> units == spec_digits_val(s@.take(i as int)),
            overflowed ==> spec_digits_val(s@.take(i as int)) > u64::MAX,
        decreases dot - i,
    {
        let c = s.get_char(i);
        match digit_value(c) {
            None => {
                // a non-digit inside the integer part: not a decimal number
                proof {
                    if spec_valid_decimal(s@) {
                        let split = choose|split: int| spec_decimal_shape(s@, split);
                        lemma_split_is_first_dot(s@, dot as int, split);
                        assert(spec_is_digit(s@.take(split)[i as int]));
                    }
                }
                return None;
            },
            Some(d) => {
                proof {
                    assert(s@.take(i as int + 1).drop_last() =~= s@.take(i as int));
                }
                if !overflowed {
                    let widened = units.checked_mul(10);
                    match widened {
                        Some(m) => {
                            match m.checked_add(d) {
                                Some(grown) => {
                                    units = grown;
                                },
                                None => {
                                    overflowed = true;
                                },
                            }
                        },
                        None => {
                            overflowed = true;
                        },
                    }
                } else {
                    proof {
                        lemma_digits_val_nonneg(s@.take(i as int));
                    }
                }
            },
        }
        i += 1;
    }

    if overflowed {
        // the integer part alone is beyond the representable range
        proof {
            if spec_valid_decimal(s@) {
                let split = choose|split: int| spec_decimal_shape(s@, split);
                lemma_split_is_first_dot(s@, dot as int, split);
                if split < s@.len() {
                    lemma_frac_units_nonneg(s@.skip(split + 1));
                }
            }
        }
        return None;
    }

    if dot == len {
        // no fraction: the units alone
        proof {
            assert(s@.take(len as int) =~= s@);
        }
        match units.checked_mul(FIXED_POINT_SCALE) {
            Some(v) => {
                proof {
                    assert(spec_decimal_shape(s@, dot as int));
                    let split = choose|split: int| spec_decimal_shape(s@, split);
                    lemma_split_is_first_dot(s@, dot as int, split);
                }
                return Some(v);
            },
            None => {
                proof {
                    if spec_valid_decimal(s@) {
                        let split = choose|split: int| spec_decimal_shape(s@, split);
                        lemma_split_is_first_dot(s@, dot as int, split);
                    }
                }
                return None;
            },
        }
    }

    if dot + 1 == len {
        // a dot with nothing after it: not a decimal number
        proof {
            if spec_valid_decimal(s@) {
                let split = choose|split: int| spec_decimal_shape(s@, split);
                lemma_split_is_first_dot(s@, dot as int, split);
            }
        }
        return None;
    }

    // the fraction: all digits, of which the first four count
    let ghost frac_chars = s@.skip(dot as int + 1);
    let mut frac: u64 = 0;
    let mut count: usize = 0;
    let mut k: usize = dot + 1;
    while k < len
        invariant
            dot + 1 <= k <= len,
            dot < len,
            len == s@.len(),
            s@[dot as int] == '.',
            forall|t: int| 0 <= t < dot ==> s@[t] != '.',
            frac_chars == s@.skip(dot as int + 1),
            spec_all_digits(s@.subrange(dot as int + 1, k as int)),
            count == if k - dot - 1 < 4 {
                k - dot - 1
            } else {
                4
            },
            frac == spec_digits_val(s@.subrange(dot as int + 1, dot as int + 1 + count)),
            count == 0 ==> frac == 0,
            count == 1 ==> frac <= 9,
            count == 2 ==> frac <= 99,
            count == 3 ==> frac <= 999,
            count == 4 ==> frac <= 9999,
        decreases len - k,
    {
        let c = s.get_char(k);
        match digit_value(c) {
            None => {
                // a non-digit inside the fraction: not a decimal number
                proof {
                    if spec_valid_decimal(s@) {
                        let split = choose|split: int| spec_decimal_shape(s@, split);
                        lemma_split_is_first_dot(s@, dot as int, split);
                        assert(spec_is_digit(s@.skip(split + 1)[k - dot - 1]));
                    }
                }
                return None;
            },
            Some(d) => {
                if count < 4 {
                    proof {
                        assert(s@.subrange(dot as int + 1, dot as int + 1 + count + 1).drop_last()
                            =~= s@.subrange(dot as int + 1, dot as int + 1 + count));
                    }
                    frac = frac * 10 + d;
                    count += 1;
                }
                proof {
                    assert(s@.subrange(dot as int + 1, k as int + 1).drop_last() =~= s@.subrange(
                        dot as int + 1,
                        k as int,
                    ));
                }
            },
        }
        k += 1;
    }

    // pad a short fraction out to four places
    if count == 1 {
        frac = frac * 1000;
    } else if count == 2 {
        frac = frac * 100;
    } else if count == 3 {
        frac = frac * 10;
    }

    proof {
        assert(s@.subrange(dot as int + 1, len as int) =~= frac_chars);
        if frac_chars.len() >= 4 {
            assert(s@.subrange(dot as int + 1, dot as int + 5) =~= frac_chars.take(4));
        }
        assert(frac == spec_frac_units(frac_chars));
        assert(spec_decimal_shape(s@, dot as int));
        let split = choose|split: int| spec_decimal_shape(s@, split);
        lemma_split_is_first_dot(s@, dot as int, split);
    }

    match units.checked_mul(FIXED_POINT_SCALE) {
        Some(scaled) => {
            match scaled.checked_add(frac) {
                Some(v) => Some(v),
                None => None,
            }
        },
        None => None,
    }
}

/// Round trip: the canonical text of any fixed-point amount is a valid
/// decimal, and parsing it yields the amount again.
pub proof fn lemma_amount_round_trip(v: u64)
    ensures
        spec_valid_decimal(spec_amount_chars(v)),
        spec_decimal_units(spec_amount_chars(v)) == v,
{
    let s = spec_amount_chars(v);
    let units = (v / 10000) as nat;
    let frac = (v % 10000) as int;
    let intpart = spec_uint_chars(units);
    let k = intpart.len() as int;
    lemma_uint_chars_val(units);
    assert(s.take(k) =~= intpart);
    let f = seq![
        spec_digit_char(frac / 1000),
        spec_digit_char((frac / 100) % 10),
        spec_digit_char((frac / 10) % 10),
        spec_digit_char(frac % 10),
    ];
    assert(s.skip(k + 1) =~= f);
    lemma_digit_char_val(frac / 1000);
    lemma_digit_char_val((frac / 100) % 10);
    lemma_digit_char_val((frac / 10) % 10);
    lemma_digit_char_val(frac % 10);
    assert(spec_all_digits(f)) by {
        assert forall|i: int| 0 <= i < f.len() implies spec_is_digit(#[trigger] f[i]) by {
            assert(f[0] == spec_digit_char(frac / 1000));
            assert(f[1] == spec_digit_char((frac / 100) % 10));
            assert(f[2] == spec_digit_char((frac / 10) % 10));
            assert(f[3] == spec_digit_char(frac % 10));
        }
    }
    assert(spec_decimal_shape(s, k));
    assert(spec_digits_val(f) == frac) by {
        assert(f.drop_last() =~= f.take(3));
        assert(f.take(3).drop_last() =~= f.take(2));
        assert(f.take(2).drop_last() =~= f.take(1));
        assert(f.take(1).drop_last() =~= Seq::<char>::empty());
        assert(spec_digits_val(Seq::<char>::empty()) == 0);
        assert(f.take(1).last() == f[0]);
        assert(f.take(2).last() == f[1]);
        assert(f.take(3).last() == f[2]);
        assert(f.last() == f[3]);
        assert(spec_digits_val(f.take(1)) == frac / 1000);
        assert(spec_digits_val(f.take(2)) == (frac / 1000) * 10 + (frac / 100) % 10);
        assert(spec_digits_val(f.take(3)) == spec_digits_val(f.take(2)) * 10 + (frac / 10) % 10);
        assert((frac / 1000) * 10 + (frac / 100) % 10 == frac / 100) by (nonlinear_arith)
            requires
                0 <= frac < 10000,
        ;
        assert((frac / 100) * 10 + (frac / 10) % 10 == frac / 10) by (nonlinear_arith)
            requires
                0 <= frac < 10000,
        ;
        assert((frac / 10) * 10 + frac % 10 == frac) by (nonlinear_arith)
            requires
                0 <= frac < 10000,
        ;
    }
    assert(f.take(4) =~= f);
    assert(spec_decimal_units_at(s, k) == units * 10000 + frac);
    let split = choose|split: int| spec_decimal_shape(s, split);
    lemma_split_is_first_dot(s, k, split);
}

} // verus!
