use vstd::prelude::*;

use crate::fixed::SCALE;
use crate::text::push_char;

verus! {

/// Largest whole part a number may have: 10^24.
pub const MAX_WHOLE: i128 = 1_000_000_000_000_000_000_000_000;

pub open spec fn is_digit(c: char) -> bool {
    '0' <= c && c <= '9'
}

pub open spec fn digit_val(c: char) -> int {
    c as int - '0' as int
}

pub open spec fn all_digits(s: Seq<char>) -> bool {
    forall|i: int| 0 <= i < s.len() ==> is_digit(#[trigger] s[i])
}

/// The number a run of decimal digits writes.
pub open spec fn digits_val(s: Seq<char>) -> int
    decreases s.len(),
{
    if s.len() == 0 {
        0
    } else {
        digits_val(s.drop_last()) * 10 + digit_val(s.last())
    }
}

pub open spec fn pow10(n: nat) -> int
    decreases n,
{
    if n == 0 {
        1
    } else {
        10 * pow10((n - 1) as nat)
    }
}

/// The fixed-point value of the digits after a decimal point: the first six
/// count, later ones are dropped.
pub open spec fn frac_val(f: Seq<char>) -> int {
    if f.len() <= 6 {
        digits_val(f) * pow10((6 - f.len()) as nat)
    } else {
        digits_val(f.take(6))
    }
}

/// `p` is the place of the decimal point of the unsigned number `b`.
pub open spec fn is_point(b: Seq<char>, p: int) -> bool {
    &&& 0 <= p < b.len()
    &&& b[p] == '.'
    &&& all_digits(b.take(p))
    &&& all_digits(b.skip(p + 1))
    &&& b.len() >= 2
}

/// Whole and fractional digits of an unsigned number: digits, optionally a
/// point and more digits, with at least one digit in all.
pub open spec fn unsigned_parts(b: Seq<char>) -> Option<(Seq<char>, Seq<char>)> {
    if b.len() > 0 && all_digits(b) {
        Some((b, Seq::empty()))
    } else if exists|p: int| is_point(b, p) {
        let p = choose|p: int| is_point(b, p);
        Some((b.take(p), b.skip(p + 1)))
    } else {
        None
    }
}

pub open spec fn sign_len(s: Seq<char>) -> int {
    if s.len() > 0 && (s[0] == '-' || s[0] == '+') {
        1
    } else {
        0
    }
}

/// The fixed-point value a decimal text writes: an optional sign, digits
/// with an optional fractional part (digits past the sixth are dropped);
/// `None` for other texts and for whole parts above `MAX_WHOLE`.
pub open spec fn spec_parse_fixed(s: Seq<char>) -> Option<int> {
    let b = s.skip(sign_len(s));
    match unsigned_parts(b) {
        Some((w, f)) => if digits_val(w) <= MAX_WHOLE {
            let m = digits_val(w) * SCALE + frac_val(f);
            Some(
                if sign_len(s) == 1 && s[0] == '-' {
                    -m
                } else {
                    m
                },
            )
        } else {
            None
        },
        None => None,
    }
}

proof fn lemma_digits_step(s: Seq<char>, i: int)
    requires
        0 <= i < s.len(),
    ensures
        digits_val(s.take(i + 1)) == digits_val(s.take(i)) * 10 + digit_val(s[i]),
{
    assert(s.take(i + 1).drop_last() =~= s.take(i));
}

proof fn lemma_digits_monotone(s: Seq<char>, i: int, j: int)
    requires
        0 <= i <= j <= s.len(),
        all_digits(s),
    ensures
        0 <= digits_val(s.take(i)) <= digits_val(s.take(j)),
    decreases j - i,
{
    if i < j {
        lemma_digits_monotone(s, i, j - 1);
        lemma_digits_step(s, j - 1);
        assert(is_digit(s[j - 1]));
    } else {
        lemma_digits_nonneg(s.take(i));
    }
}

proof fn lemma_digits_nonneg(s: Seq<char>)
    requires
        all_digits(s),
    ensures
        digits_val(s) >= 0,
    decreases s.len(),
{
    if s.len() > 0 {
        assert(is_digit(s[s.len() - 1]));
        assert forall|i: int| 0 <= i < s.drop_last().len() implies is_digit(#[trigger] s.drop_last()[i]) by {
            assert(s.drop_last()[i] == s[i]);
        }
        lemma_digits_nonneg(s.drop_last());
    }
}

proof fn lemma_digits_bound(s: Seq<char>)
    requires
        all_digits(s),
    ensures
        digits_val(s) < pow10(s.len()),
    decreases s.len(),
{
    if s.len() > 0 {
        assert(is_digit(s[s.len() - 1]));
        assert forall|i: int| 0 <= i < s.drop_last().len() implies is_digit(#[trigger] s.drop_last()[i]) by {
            assert(s.drop_last()[i] == s[i]);
        }
        lemma_digits_bound(s.drop_last());
    }
}

/// Reads digits `from..to` of `s` (all digits, at most six of them).
fn read_small(s: &str, from: usize, to: usize) -> (r: i128)
    requires
        from <= to <= s@.len(),
        to - from <= 6,
        all_digits(s@.subrange(from as int, to as int)),
    ensures
        r == digits_val(s@.subrange(from as int, to as int)),
        0 <= r < 1_000_000,
{
    let ghost f = s@.subrange(from as int, to as int);
    let mut acc: i128 = 0;
    let mut i: usize = from;
    proof {
        assert(f.take(0) =~= Seq::<char>::empty());
    }
    while i < to
        invariant
            from <= i <= to <= s@.len(),
            to - from <= 6,
            f == s@.subrange(from as int, to as int),
            all_digits(f),
            acc == digits_val(f.take(i - from)),
            0 <= acc < pow10((i - from) as nat),
        decreases to - i,
    {
        proof {
            lemma_digits_step(f, i - from);
            assert(f[i - from] == s@[i as int]);
            assert(is_digit(f[i - from]));
            assert(pow10((i + 1 - from) as nat) == 10 * pow10((i - from) as nat));
            assert(pow10((i - from) as nat) <= 100_000) by {
                reveal_with_fuel(pow10, 7);
            }
        }
        let c = s.get_char(i);
        acc = acc * 10 + ((c as u32 - '0' as u32) as i128);
        i = i + 1;
    }
    proof {
        assert(f.take(to - from) =~= f);
        assert(pow10((to - from) as nat) <= 1_000_000) by {
            reveal_with_fuel(pow10, 7);
        }
    }
    acc
}

/// Reads a decimal text as a fixed-point number.
#[verifier::rlimit(60)]
pub fn parse_fixed(s: &str) -> (r: Option<i128>)
    ensures
        match spec_parse_fixed(s@) {
            Some(v) => r == Some(v as i128),
            None => r is None,
        },
{
    let n = s.unicode_len();
    let ghost sv = s@;
    let start: usize = if n > 0 && (s.get_char(0) == '-' || s.get_char(0) == '+') {
        1
    } else {
        0
    };
    let neg = start == 1 && s.get_char(0) == '-';
    let ghost b = sv.skip(start as int);
    assert(start as int == sign_len(sv));
    // whole part
    let mut i: usize = start;
    let mut whole: i128 = 0;
    proof {
        assert(b.take(0) =~= Seq::<char>::empty());
    }
    while i < n && is_digit_char(s.get_char(i))
        invariant
            n == sv.len(),
            sv == s@,
            start <= i <= n,
            start as int == sign_len(sv),
            b == sv.skip(start as int),
            all_digits(b.take(i - start)),
            whole == digits_val(b.take(i - start)),
            0 <= whole <= MAX_WHOLE,
        decreases n - i,
    {
        proof {
            assert(b[i - start] == sv[i as int]);
            lemma_digits_step(b, i - start);
            assert forall|k: int| 0 <= k < b.take(i + 1 - start).len() implies is_digit(#[trigger] b.take(i + 1 - start)[k]) by {
                if k < i - start {
                    assert(b.take(i + 1 - start)[k] == b.take(i - start)[k]);
                }
            }
        }
        let d = (s.get_char(i) as u32 - '0' as u32) as i128;
        if whole > (MAX_WHOLE - d) / 10 {
            proof {
                assert(is_digit(b[i - start]));
                assert(d == digit_val(b[i - start]));
                assert(whole * 10 + d > MAX_WHOLE) by (nonlinear_arith)
                    requires whole > (MAX_WHOLE - d) / 10, 0 <= d <= 9;
                lemma_too_large(b, (i - start) as int);
                assert(sv.skip(sign_len(sv)) == b);
                match unsigned_parts(b) {
                    Some((w, f)) => assert(digits_val(w) > MAX_WHOLE),
                    None => {},
                }
                assert(spec_parse_fixed(sv) is None);
            }
            return None;
        }
        whole = whole * 10 + d;
        i = i + 1;
    }
    let p = i - start;
    proof {
        assert(p == (i - start) as int);
    }
    if i == n {
        if p == 0 {
            proof {
                assert(b.len() == 0);
                assert(!(exists|q: int| is_point(b, q)));
            }
            return None;
        }
        proof {
            assert(b.take(p as int) =~= b);
            assert(frac_val(Seq::<char>::empty()) == 0) by {
                reveal_with_fuel(pow10, 7);
            }
        }
        let m = whole * SCALE;
        return Some(if neg { -m } else { m });
    }
    // i < n: s[i] is not a digit
    if s.get_char(i) != '.' || n - start < 2 {
        proof {
            assert(!all_digits(b)) by {
                assert(!is_digit(b[p as int]));
            }
            assert forall|q: int| !is_point(b, q) by {
                if is_point(b, q) {
                    if q < p {
                        assert(b.take(p as int)[q] == b[q]);
                    } else if q > p {
                        assert(b.take(q)[p as int] == b[p as int]);
                    }
                }
            }
        }
        return None;
    }
    // fractional part
    let fstart = i + 1;
    let mut j: usize = fstart;
    while j < n && is_digit_char(s.get_char(j))
        invariant
            n == sv.len(),
            sv == s@,
            fstart <= j <= n,
            all_digits(sv.subrange(fstart as int, j as int)),
        decreases n - j,
    {
        proof {
            assert forall|k: int| 0 <= k < j + 1 - fstart implies is_digit(#[trigger] sv.subrange(fstart as int, j + 1)[k]) by {
                if k < j - fstart {
                    assert(sv.subrange(fstart as int, j + 1)[k] == sv.subrange(fstart as int, j as int)[k]);
                }
            }
        }
        j = j + 1;
    }
    if j < n {
        proof {
            assert(!all_digits(b)) by {
                assert(!is_digit(b[p as int]));
            }
            assert forall|q: int| !is_point(b, q) by {
                if is_point(b, q) {
                    if q < p {
                        assert(b.take(p as int)[q] == b[q]);
                    } else if q > p {
                        assert(b.take(q)[p as int] == b[p as int]);
                    } else {
                        assert(b.skip(q + 1)[j - fstart] == sv[j as int]);
                    }
                }
            }
        }
        return None;
    }
    let fend: usize = if n - fstart > 6 { fstart + 6 } else { n };
    let ghost f = b.skip(p + 1);
    proof {
        assert(f =~= sv.subrange(fstart as int, n as int));
        assert(is_point(b, p as int));
        assert(!all_digits(b)) by {
            assert(!is_digit(b[p as int]));
        }
        assert forall|q: int| is_point(b, q) implies q == p by {
            if q < p {
                assert(b.take(p as int)[q] == b[q]);
            } else if q > p {
                assert(b.take(q)[p as int] == b[p as int]);
            }
        }
        assert(sv.subrange(fstart as int, fend as int) =~= if f.len() <= 6 { f } else { f.take(6) });
        assert(all_digits(sv.subrange(fstart as int, fend as int)));
    }
    let fv = read_small(s, fstart, fend);
    let k = fend - fstart;
    proof {
        lemma_digits_bound(sv.subrange(fstart as int, fend as int));
    }
    let scaled = pad_frac(fv, k);
    proof {
        assert(scaled == frac_val(f));
        assert(pow10(6) == 1_000_000) by {
            reveal_with_fuel(pow10, 7);
        }
    }
    let m = whole * SCALE + scaled;
    Some(if neg { -m } else { m })
}

/// `fv` of `k` fractional digits, as millionths.
fn pad_frac(fv: i128, k: usize) -> (r: i128)
    requires
        k <= 6,
        0 <= fv < pow10(k as nat),
    ensures
        r == fv * pow10((6 - k) as nat),
        0 <= r < 1_000_000,
{
    let mut scaled = fv;
    let mut e: usize = k;
    while e < 6
        invariant
            k <= e <= 6,
            scaled == fv * pow10((e - k) as nat),
            0 <= scaled < pow10(e as nat),
        decreases 6 - e,
    {
        proof {
            assert(pow10((e + 1 - k) as nat) == 10 * pow10((e - k) as nat));
            assert(pow10((e + 1) as nat) == 10 * pow10(e as nat));
            assert(pow10(e as nat) <= 100_000) by {
                reveal_with_fuel(pow10, 7);
            }
        }
        scaled = scaled * 10;
        proof {
            assert(scaled == fv * pow10((e + 1 - k) as nat)) by (nonlinear_arith)
                requires scaled == 10 * (fv * pow10((e - k) as nat)), pow10((e + 1 - k) as nat) == 10 * pow10((e - k) as nat);
        }
        e = e + 1;
    }
    proof {
        assert(pow10(6) == 1_000_000) by {
            reveal_with_fuel(pow10, 7);
        }
    }
    scaled
}

fn is_digit_char(c: char) -> (r: bool)
    ensures
        r == is_digit(c),
{
    '0' <= c && c <= '9'
}

proof fn lemma_too_large(b: Seq<char>, i: int)
    requires
        0 <= i < b.len(),
        all_digits(b.take(i)),
        is_digit(b[i]),
        digits_val(b.take(i)) * 10 + digit_val(b[i]) > MAX_WHOLE,
    ensures
        match unsigned_parts(b) {
            Some((w, f)) => digits_val(w) > MAX_WHOLE,
            None => true,
        },
{
    lemma_digits_step(b, i);
    match unsigned_parts(b) {
        Some((w, f)) => {
            let p = if b.len() > 0 && all_digits(b) { b.len() as int } else { choose|p: int| is_point(b, p) };
            assert(w == b.take(p));
            assert(p > i) by {
                if p <= i {
                    assert(b.take(i)[p] == b[p]);
                }
            }
            assert(all_digits(b.take(p)));
            assert(b.take(p).take(i + 1) =~= b.take(i + 1));
            assert(b.take(p).take(p) =~= b.take(p));
            lemma_digits_monotone(b.take(p), i + 1, p);
        },
        None => {},
    }
}

/// The decimal digits of `n`, most significant first.
pub open spec fn digits_of(n: nat) -> Seq<char>
    decreases n,
{
    if n < 10 {
        seq![digit_char(n)]
    } else {
        digits_of(n / 10).push(digit_char(n % 10))
    }
}

/// Exactly `k` decimal digits of `n`, zeros in front.
pub open spec fn padded_digits(n: nat, k: nat) -> Seq<char>
    decreases k,
{
    if k == 0 {
        Seq::empty()
    } else {
        padded_digits(n / 10, (k - 1) as nat).push(digit_char(n % 10))
    }
}

pub open spec fn digit_char(d: nat) -> char {
    if d < 10 {
        (d + '0' as nat) as char
    } else {
        '?'
    }
}

/// The text of a fixed-point number: its sign, whole part, a point and
/// six decimals.
pub open spec fn fixed_text(v: int) -> Seq<char> {
    let m = (if v < 0 { -v } else { v }) as nat;
    (if v < 0 { seq!['-'] } else { Seq::empty() }) + digits_of(m / (SCALE as nat)) + seq!['.']
        + padded_digits(m % (SCALE as nat), 6)
}

fn digit_of(d: u128) -> (c: char)
    requires
        d < 10,
    ensures
        c == digit_char(d as nat),
{
    let b: u8 = (d as u8) + 48u8;
    b as char
}

fn push_digits(s: &mut String, n: u128)
    ensures
        final(s)@ == old(s)@ + digits_of(n as nat),
    decreases n,
{
    if n >= 10 {
        push_digits(s, n / 10);
    }
    push_char(s, digit_of(n % 10));
    proof {
        if n >= 10 {
            assert(old(s)@ + digits_of((n / 10) as nat) + seq![digit_char((n % 10) as nat)] =~= old(s)@ + digits_of(n as nat));
        } else {
            assert(old(s)@.push(digit_char((n % 10) as nat)) =~= old(s)@ + digits_of(n as nat));
        }
    }
}

fn push_padded(s: &mut String, n: u128, k: u32)
    ensures
        final(s)@ == old(s)@ + padded_digits(n as nat, k as nat),
    decreases k,
{
    if k == 0 {
        assert(old(s)@ + padded_digits(n as nat, 0) =~= old(s)@);
        return;
    }
    push_padded(s, n / 10, k - 1);
    push_char(s, digit_of(n % 10));
    assert(old(s)@ + padded_digits((n / 10) as nat, (k - 1) as nat) + seq![digit_char((n % 10) as nat)] =~= old(s)@ + padded_digits(n as nat, k as nat));
}

/// Writes a fixed-point number as decimal text.
pub fn render_fixed(v: i128) -> (r: String)
    ensures
        r@ == fixed_text(v as int),
{
    let m: u128 = if v < 0 {
        ((-(v + 1)) as u128) + 1
    } else {
        v as u128
    };
    let mut s = String::new();
    if v < 0 {
        push_char(&mut s, '-');
    }
    push_digits(&mut s, m / 1_000_000);
    push_char(&mut s, '.');
    push_padded(&mut s, m % 1_000_000, 6);
    proof {
        assert(s@ =~= fixed_text(v as int));
    }
    s
}

} // verus!
