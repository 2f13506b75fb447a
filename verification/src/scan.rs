//! Low-level text scanning: first occurrence of a character, and
//! decimal digit runs.
use vstd::prelude::*;
use vstd::string::StrSliceExecFns;

verus! {

/// First index `i >= from` with `s[i] == c`, or -1 if there is none.
pub open spec fn spec_find(s: Seq<char>, from: int, c: char) -> int
    decreases s.len() - from,
{
    if from < 0 || from >= s.len() {
        -1
    } else if s[from] == c {
        from
    } else {
        spec_find(s, from + 1, c)
    }
}

/// `c` is an ASCII decimal digit.
pub open spec fn spec_is_digit(c: char) -> bool {
    48 <= c as u32 <= 57
}

/// Every character of `s[from..to]` is an ASCII decimal digit.
pub open spec fn spec_all_digits(s: Seq<char>, from: int, to: int) -> bool {
    forall|k: int| from <= k < to ==> #[trigger] spec_is_digit(s[k])
}

/// Value of `s[from..to]` read as a decimal numeral.
pub open spec fn spec_digits_val(s: Seq<char>, from: int, to: int) -> int
    decreases to - from,
{
    if to <= from {
        0
    } else {
        spec_digits_val(s, from, to - 1) * 10 + (s[to - 1] as u32 - 48)
    }
}

pub proof fn lemma_digits_val_nonneg(s: Seq<char>, from: int, to: int)
    requires
        0 <= from <= to <= s.len(),
        spec_all_digits(s, from, to),
    ensures
        spec_digits_val(s, from, to) >= 0,
    decreases to - from,
{
    if to > from {
        lemma_digits_val_nonneg(s, from, to - 1);
        assert(spec_is_digit(s[to - 1]));
    }
}

pub proof fn lemma_digits_val_mono(s: Seq<char>, from: int, i: int, to: int)
    requires
        0 <= from <= i <= to <= s.len(),
        spec_all_digits(s, from, to),
    ensures
        spec_digits_val(s, from, to) >= spec_digits_val(s, from, i),
    decreases to - i,
{
    if to > i {
        lemma_digits_val_mono(s, from, i, to - 1);
        lemma_digits_val_nonneg(s, from, to - 1);
        assert(spec_is_digit(s[to - 1]));
    }
}

/// 10 to the power `k`.
pub open spec fn pow10(k: int) -> int
    decreases k,
{
    if k <= 0 {
        1
    } else {
        10 * pow10(k - 1)
    }
}

pub proof fn lemma_pow10_small()
    ensures
        pow10(0) == 1,
        pow10(1) == 10,
        pow10(2) == 100,
        pow10(3) == 1000,
        pow10(4) == 10000,
{
    assert(pow10(0) == 1);
    assert(pow10(1) == 10);
    assert(pow10(2) == 100);
    assert(pow10(3) == 1000);
    assert(pow10(4) == 10000);
}

/// A run of `k` digits reads as a value below `pow10(k)`.
pub proof fn lemma_digits_val_upper(s: Seq<char>, from: int, to: int)
    requires
        0 <= from <= to <= s.len(),
        spec_all_digits(s, from, to),
    ensures
        spec_digits_val(s, from, to) <= pow10(to - from) - 1,
    decreases to - from,
{
    if to > from {
        lemma_digits_val_upper(s, from, to - 1);
        assert(spec_is_digit(s[to - 1]));
    }
}

/// The digit character of `d`.
pub open spec fn spec_dec_digit(d: int) -> char
    recommends
        0 <= d <= 9,
{
    ((48 + d) as u8) as char
}

/// Decimal numeral of `v`, without sign or leading zeros.
pub open spec fn spec_dec_string(v: int) -> Seq<char>
    recommends
        0 <= v,
    decreases v,
{
    if v < 10 {
        seq![spec_dec_digit(v)]
    } else {
        spec_dec_string(v / 10).push(spec_dec_digit(v % 10))
    }
}

/// Relies on String::push: appends exactly one character.
#[verifier::external_body]
pub fn push_char(s: &mut String, c: char)
    ensures
        final(s)@ == old(s)@.push(c),
{
    s.push(c);
}

fn push_dec(s: &mut String, v: u32)
    ensures
        final(s)@ == old(s)@ + spec_dec_string(v as int),
    decreases v,
{
    if v < 10 {
        push_char(s, (48 + v as u8) as char);
        proof {
            assert(s@ =~= old(s)@ + spec_dec_string(v as int));
        }
    } else {
        push_dec(s, v / 10);
        push_char(s, (48 + (v % 10) as u8) as char);
        proof {
            assert(s@ =~= old(s)@ + spec_dec_string(v as int));
        }
    }
}

/// The decimal numeral of `v`.
pub fn u32_to_string(v: u32) -> (s: String)
    ensures
        s@ == spec_dec_string(v as int),
{
    let mut s = String::new();
    push_dec(&mut s, v);
    proof {
        assert(s@ =~= spec_dec_string(v as int));
    }
    s
}

/// First index `i >= from` at which `c` occurs in `s`.
pub fn find_char(s: &str, from: usize, c: char) -> (r: Option<usize>)
    requires
        from <= s@.len(),
    ensures
        (match r {
            Some(i) => i as int,
            None => -1,
        }) == spec_find(s@, from as int, c),
        r matches Some(i) ==> from <= i < s@.len(),
    decreases s@.len() - from,
{
    if from >= s.unicode_len() {
        None
    } else if s.get_char(from) == c {
        Some(from)
    } else {
        find_char(s, from + 1, c)
    }
}

/// Reads `s[from..to]` as a decimal number, if it is all digits and
/// its value fits in a `u32`.
pub fn parse_num(s: &str, from: usize, to: usize) -> (r: Option<u32>)
    requires
        from <= to <= s@.len(),
    ensures
        r matches Some(v) ==> spec_all_digits(s@, from as int, to as int) && spec_digits_val(
            s@,
            from as int,
            to as int,
        ) == v as int,
        r is None ==> !(spec_all_digits(s@, from as int, to as int) && spec_digits_val(
            s@,
            from as int,
            to as int,
        ) <= u32::MAX as int),
{
    let mut acc: u64 = 0;
    let mut i: usize = from;
    while i < to
        invariant
            from <= i <= to <= s@.len(),
            spec_all_digits(s@, from as int, i as int),
            acc as int == spec_digits_val(s@, from as int, i as int),
            acc <= u32::MAX as u64,
        decreases to - i,
    {
        let c = s.get_char(i);
        let d: u32 = c as u32;
        if !(48 <= d && d <= 57) {
            assert(!spec_is_digit(s@[i as int]));
            return None;
        }
        let acc2: u64 = acc * 10 + ((d - 48) as u64);
        if acc2 > u32::MAX as u64 {
            proof {
                if spec_all_digits(s@, from as int, to as int) {
                    lemma_digits_val_mono(s@, from as int, i as int + 1, to as int);
                }
            }
            return None;
        }
        acc = acc2;
        i = i + 1;
    }
    proof {
        lemma_digits_val_nonneg(s@, from as int, to as int);
    }
    Some(acc as u32)
}

} // verus!
