//! Conversion between a time in hundredths of a second and `HH:MM:SS.ff` text.

use vstd::arithmetic::div_mod::{
    lemma_div_by_multiple, lemma_div_denominator, lemma_div_multiples_vanish_fancy,
    lemma_fundamental_div_mod, lemma_mod_bound, lemma_mod_mod,
};
use vstd::prelude::*;

verus! {

/// Hundredths of a second in one hour.
pub const HOUR: u64 = 360000;

/// Hundredths of a second in one minute.
pub const MINUTE: u64 = 6000;

/// Hundredths of a second in one second.
pub const SECOND: u64 = 100;

pub open spec fn is_digit(c: char) -> bool {
    '0' <= c && c <= '9'
}

pub open spec fn digit_value(c: char) -> nat {
    (c as u32 - '0' as u32) as nat
}

pub open spec fn digit_char(d: nat) -> char {
    if d == 0 {
        '0'
    } else if d == 1 {
        '1'
    } else if d == 2 {
        '2'
    } else if d == 3 {
        '3'
    } else if d == 4 {
        '4'
    } else if d == 5 {
        '5'
    } else if d == 6 {
        '6'
    } else if d == 7 {
        '7'
    } else if d == 8 {
        '8'
    } else {
        '9'
    }
}

/// Decimal digits of `n`, most significant first, without leading zeros.
pub open spec fn decimal(n: nat) -> Seq<char>
    decreases n,
{
    if n < 10 {
        seq![digit_char(n)]
    } else {
        decimal(n / 10).push(digit_char(n % 10))
    }
}

/// Exactly two digits of `n`, for `n < 100`.
pub open spec fn two_digits(n: nat) -> Seq<char> {
    seq![digit_char(n / 10), digit_char(n % 10)]
}

/// The hour count, zero-padded to at least two digits.
pub open spec fn hours_text(h: nat) -> Seq<char> {
    if h < 10 {
        seq!['0', digit_char(h)]
    } else {
        decimal(h)
    }
}

/// `HH:MM:SS.ff` for a time of `t` hundredths of a second.
pub open spec fn time_text(t: nat) -> Seq<char> {
    hours_text(t / 360000) + seq![':'] + two_digits((t / 6000) % 60) + seq![':'] + two_digits(
        (t % 6000) / 100,
    ) + seq!['.'] + two_digits(t % 100)
}

proof fn lemma_digit_char(d: nat)
    requires
        d < 10,
    ensures
        is_digit(digit_char(d)),
        digit_value(digit_char(d)) == d,
{
}

/// One decimal digit as text.
fn digit_text(d: u64) -> (r: &'static str)
    requires
        d < 10,
    ensures
        r@ == seq![digit_char(d as nat)],
{
    match d {
        0 => {
            proof { reveal_strlit("0"); }
            "0"
        },
        1 => {
            proof { reveal_strlit("1"); }
            "1"
        },
        2 => {
            proof { reveal_strlit("2"); }
            "2"
        },
        3 => {
            proof { reveal_strlit("3"); }
            "3"
        },
        4 => {
            proof { reveal_strlit("4"); }
            "4"
        },
        5 => {
            proof { reveal_strlit("5"); }
            "5"
        },
        6 => {
            proof { reveal_strlit("6"); }
            "6"
        },
        7 => {
            proof { reveal_strlit("7"); }
            "7"
        },
        8 => {
            proof { reveal_strlit("8"); }
            "8"
        },
        _ => {
            proof { reveal_strlit("9"); }
            "9"
        },
    }
}

fn push_decimal(out: &mut String, n: u64)
    ensures
        final(out)@ == old(out)@ + decimal(n as nat),
    decreases n,
{
    if n >= 10 {
        push_decimal(out, n / 10);
    }
    out.append(digit_text(n % 10));
    proof {
        if n >= 10 {
            assert(old(out)@ + decimal(n as nat) =~= old(out)@ + decimal((n / 10) as nat) + seq![
                digit_char((n % 10) as nat),
            ]);
        }
    }
}

fn push_two_digits(out: &mut String, n: u64)
    requires
        n < 100,
    ensures
        final(out)@ == old(out)@ + two_digits(n as nat),
{
    out.append(digit_text(n / 10));
    out.append(digit_text(n % 10));
    assert(final(out)@ =~= old(out)@ + two_digits(n as nat));
}

/// Formats `t` hundredths of a second as `HH:MM:SS.ff`: hours zero-padded to
/// at least two digits and unbounded, minutes and seconds to two digits,
/// and the hundredths after the point.
pub fn format_time(t: u64) -> (r: String)
    ensures
        r@ == time_text(t as nat),
{
    let mut out = String::new();
    let h = t / HOUR;
    if h < 10 {
        proof { reveal_strlit("0"); }
        out.append("0");
    }
    push_decimal(&mut out, h);
    proof { reveal_strlit(":"); reveal_strlit("."); }
    out.append(":");
    push_two_digits(&mut out, (t / MINUTE) % 60);
    out.append(":");
    push_two_digits(&mut out, (t % MINUTE) / SECOND);
    out.append(".");
    push_two_digits(&mut out, t % SECOND);
    proof {
        if h < 10 {
            assert(decimal(h as nat) == seq![digit_char(h as nat)]);
        }
    }
    assert(out@ =~= time_text(t as nat));
    out
}


/// The pieces of `s` between occurrences of `sep`; one more piece than there
/// are separators, so an empty `s` gives one empty piece.
pub open spec fn fields(s: Seq<char>, sep: char) -> Seq<Seq<char>>
    decreases s.len(),
{
    if s.len() == 0 {
        seq![Seq::empty()]
    } else {
        let f = fields(s.drop_last(), sep);
        if s.last() == sep {
            f.push(Seq::empty())
        } else {
            f.update(f.len() - 1, f.last().push(s.last()))
        }
    }
}

/// A non-empty run of decimal digits.
pub open spec fn all_digits(s: Seq<char>) -> bool {
    s.len() > 0 && forall|i: int| 0 <= i < s.len() ==> is_digit(#[trigger] s[i])
}

/// The number that a run of decimal digits denotes.
pub open spec fn digits_value(s: Seq<char>) -> nat
    decreases s.len(),
{
    if s.len() == 0 {
        0
    } else {
        digits_value(s.drop_last()) * 10 + digit_value(s.last())
    }
}

/// Hundredths of a second in a fraction's digits; later digits are dropped.
pub open spec fn fraction_hundredths(f: Seq<char>) -> nat {
    digit_value(f[0]) * 10 + if f.len() > 1 {
        digit_value(f[1])
    } else {
        0
    }
}

/// Seconds written as digits, optionally followed by `.` and more digits,
/// counted in hundredths (truncated); `None` for any other text.
pub open spec fn seconds_value(s: Seq<char>) -> Option<nat> {
    let p = fields(s, '.');
    if p.len() == 1 && all_digits(p[0]) {
        Some(digits_value(p[0]) * 100)
    } else if p.len() == 2 && all_digits(p[0]) && all_digits(p[1]) {
        Some(digits_value(p[0]) * 100 + fraction_hundredths(p[1]))
    } else {
        None
    }
}

/// Every character a digit; the empty sequence counts.
pub open spec fn only_digits(s: Seq<char>) -> bool {
    forall|i: int| 0 <= i < s.len() ==> is_digit(#[trigger] s[i])
}

pub open spec fn pow10(n: nat) -> nat
    decreases n,
{
    if n == 0 {
        1
    } else {
        10 * pow10((n - 1) as nat)
    }
}

/// An unsigned decimal: digits, optionally with a `.` and more digits, and
/// at least one digit in all (`5`, `5.`, `.5`, `5.25`).
pub open spec fn decimal_text(s: Seq<char>) -> bool {
    let p = fields(s, '.');
    (p.len() == 1 && all_digits(p[0])) || (p.len() == 2 && only_digits(p[0]) && only_digits(p[1])
        && p[0].len() + p[1].len() > 0)
}

/// The digits after the point of a decimal, if any.
pub open spec fn fraction_digits(s: Seq<char>) -> Seq<char> {
    let p = fields(s, '.');
    if p.len() == 2 {
        p[1]
    } else {
        Seq::empty()
    }
}

/// An unsigned decimal times `unit`, rounded down.
pub open spec fn scaled_magnitude(s: Seq<char>, unit: nat) -> nat {
    let f = fraction_digits(s);
    digits_value(fields(s, '.')[0]) * unit + (digits_value(f) * unit) / pow10(f.len())
}

pub open spec fn has_sign(s: Seq<char>) -> bool {
    s.len() > 0 && (s[0] == '-' || s[0] == '+')
}

/// A piece without its sign.
pub open spec fn unsigned_part(s: Seq<char>) -> Seq<char> {
    if has_sign(s) {
        s.drop_first()
    } else {
        s
    }
}

/// A signed decimal (an optional `+` or `-` before an unsigned decimal) as
/// a count of hundredths of a second, where one written unit is `unit`
/// hundredths: the magnitude rounded down, then the sign. `None` for text
/// that is no such decimal.
pub open spec fn piece_value(s: Seq<char>, unit: nat) -> Option<int> {
    let u = unsigned_part(s);
    if decimal_text(u) {
        let m = scaled_magnitude(u, unit) as int;
        Some(
            if s.len() > 0 && s[0] == '-' {
                -m
            } else {
                m
            },
        )
    } else {
        None
    }
}

/// The magnitude of a piece fits in a `u64`.
pub open spec fn piece_fits(s: Seq<char>, unit: nat) -> bool {
    scaled_magnitude(unsigned_part(s), unit) <= u64::MAX
}

/// `H:M:S` where each piece is a signed decimal, as `h * 3600 + m * 60 + s`
/// seconds counted in hundredths, each piece rounded toward zero to
/// hundredths; `None` for text that does not split into exactly three such
/// pieces.
pub open spec fn time_value(s: Seq<char>) -> Option<int> {
    let p = fields(s, ':');
    if p.len() == 3 && piece_value(p[0], 360000) is Some && piece_value(p[1], 6000) is Some
        && piece_value(p[2], 100) is Some {
        Some(piece_value(p[0], 360000)->0 + piece_value(p[1], 6000)->0 + piece_value(p[2], 100)->0)
    } else {
        None
    }
}

/// What `parse_time` gives: the time, where it has one and each of its
/// pieces fits in a `u64`.
pub open spec fn parsed_time(s: Seq<char>) -> Option<i128> {
    let p = fields(s, ':');
    if time_value(s) is Some && piece_fits(p[0], 360000) && piece_fits(p[1], 6000) && piece_fits(
        p[2],
        100,
    ) {
        Some(time_value(s)->0 as i128)
    } else {
        None
    }
}

/// A value as a `u64`, or `None` where there is none or it does not fit.
pub open spec fn within_u64(v: Option<nat>) -> Option<u64> {
    match v {
        Some(n) => if n <= u64::MAX {
            Some(n as u64)
        } else {
            None
        },
        None => None,
    }
}

pub open spec fn is_blank(c: char) -> bool {
    c == ' ' || c == '\t' || c == '\n' || c == '\r'
}

/// `s` without the blanks at either end.
pub open spec fn trimmed(s: Seq<char>) -> Seq<char>
    decreases s.len(),
{
    if s.len() > 0 && is_blank(s.first()) {
        trimmed(s.drop_first())
    } else if s.len() > 0 && is_blank(s.last()) {
        trimmed(s.drop_last())
    } else {
        s
    }
}

proof fn lemma_fields_nonempty(s: Seq<char>, sep: char)
    ensures
        fields(s, sep).len() >= 1,
    decreases s.len(),
{
    if s.len() > 0 {
        lemma_fields_nonempty(s.drop_last(), sep);
    }
}

proof fn lemma_digits_prefix_le(s: Seq<char>, i: int)
    requires
        0 <= i <= s.len(),
    ensures
        digits_value(s.take(i)) <= digits_value(s),
    decreases s.len() - i,
{
    if i < s.len() {
        lemma_digits_prefix_le(s, i + 1);
        assert(s.take(i + 1).drop_last() =~= s.take(i));
    } else {
        assert(s.take(i) =~= s);
    }
}

fn chars_of(s: &str) -> (r: Vec<char>)
    ensures
        r@ == s@,
{
    let n = s.unicode_len();
    let mut r: Vec<char> = Vec::new();
    let mut i: usize = 0;
    while i < n
        invariant
            n == s@.len(),
            i <= n,
            r@ == s@.take(i as int),
        decreases n - i,
    {
        r.push(s.get_char(i));
        i = i + 1;
        assert(r@ =~= s@.take(i as int));
    }
    assert(s@.take(n as int) =~= s@);
    r
}

/// What each piece holds.
pub open spec fn pieces(v: Seq<Vec<char>>) -> Seq<Seq<char>> {
    v.map_values(|p: Vec<char>| p@)
}

fn split_on(s: &Vec<char>, sep: char) -> (r: Vec<Vec<char>>)
    ensures
        pieces(r@) == fields(s@, sep),
{
    let mut done: Vec<Vec<char>> = Vec::new();
    let mut cur: Vec<char> = Vec::new();
    let mut i: usize = 0;
    assert(s@.take(0) =~= Seq::<char>::empty());
    assert(pieces(done@).push(cur@) =~= fields(s@.take(0), sep));
    while i < s.len()
        invariant
            i <= s.len(),
            pieces(done@).push(cur@) == fields(s@.take(i as int), sep),
        decreases s.len() - i,
    {
        let c = s[i];
        let ghost before = s@.take(i as int);
        let ghost old_done = done@;
        assert(s@.take(i + 1).drop_last() =~= before);
        assert(s@.take(i + 1).last() == c);
        if c == sep {
            let piece = cur;
            done.push(piece);
            cur = Vec::new();
            assert(pieces(done@) =~= pieces(old_done).push(piece@));
        } else {
            cur.push(c);
        }
        i = i + 1;
        assert(pieces(done@).push(cur@) =~= fields(s@.take(i as int), sep));
    }
    assert(s@.take(s.len() as int) =~= s@);
    let ghost old_done = done@;
    let piece = cur;
    done.push(piece);
    assert(pieces(done@) =~= pieces(old_done).push(piece@));
    done
}

/// The number that `s` denotes, where `s` is a non-empty run of digits
/// whose value fits in a `u64`.
fn digits_u64(s: &Vec<char>) -> (r: Option<u64>)
    ensures
        r == (if all_digits(s@) && digits_value(s@) <= u64::MAX {
            Some(digits_value(s@) as u64)
        } else {
            None
        }),
{
    if s.len() == 0 {
        return None;
    }
    let mut v: u64 = 0;
    let mut i: usize = 0;
    assert(s@.take(0) =~= Seq::<char>::empty());
    while i < s.len()
        invariant
            i <= s.len(),
            v == digits_value(s@.take(i as int)),
            forall|j: int| 0 <= j < i ==> is_digit(#[trigger] s@[j]),
        decreases s.len() - i,
    {
        let c = s[i];
        if !('0' <= c && c <= '9') {
            return None;
        }
        let d = (c as u32 - '0' as u32) as u64;
        assert(s@.take(i + 1).drop_last() =~= s@.take(i as int));
        assert(s@.take(i + 1).last() == c);
        match v.checked_mul(10) {
            Some(w) => match w.checked_add(d) {
                Some(x) => {
                    v = x;
                },
                None => {
                    proof { lemma_digits_prefix_le(s@, i + 1); }
                    return None;
                },
            },
            None => {
                proof { lemma_digits_prefix_le(s@, i + 1); }
                return None;
            },
        }
        i = i + 1;
    }
    assert(s@.take(s.len() as int) =~= s@);
    Some(v)
}

fn is_digit_run(s: &Vec<char>) -> (r: bool)
    ensures
        r == all_digits(s@),
{
    if s.len() == 0 {
        return false;
    }
    let mut i: usize = 0;
    while i < s.len()
        invariant
            i <= s.len(),
            forall|j: int| 0 <= j < i ==> is_digit(#[trigger] s@[j]),
        decreases s.len() - i,
    {
        if !('0' <= s[i] && s[i] <= '9') {
            return false;
        }
        i = i + 1;
    }
    true
}

fn seconds_u64(s: &Vec<char>) -> (r: Option<u64>)
    ensures
        r == within_u64(seconds_value(s@)),
{
    let p = split_on(s, '.');
    assert(pieces(p@).len() == p@.len());
    if p.len() != 1 && p.len() != 2 {
        return None;
    }
    assert(p[0]@ == pieces(p@)[0]);
    let fraction: u64 = if p.len() == 2 {
        assert(p[1]@ == pieces(p@)[1]);
        let f = &p[1];
        if !is_digit_run(f) {
            return None;
        }
        let first = (f[0] as u32 - '0' as u32) as u64;
        let second = if f.len() > 1 {
            (f[1] as u32 - '0' as u32) as u64
        } else {
            0
        };
        first * 10 + second
    } else {
        0
    };
    let whole = digits_u64(&p[0]);
    proof {
        if all_digits(p[0]@) && digits_value(p[0]@) > u64::MAX {
            assert(digits_value(p[0]@) * 100 >= digits_value(p[0]@)) by (nonlinear_arith);
        }
    }
    match whole {
        Some(w) => match w.checked_mul(SECOND) {
            Some(w) => w.checked_add(fraction),
            None => None,
        },
        None => None,
    }
}

fn only_digit_run(s: &Vec<char>) -> (r: bool)
    ensures
        r == only_digits(s@),
{
    let mut i: usize = 0;
    while i < s.len()
        invariant
            i <= s.len(),
            forall|j: int| 0 <= j < i ==> is_digit(#[trigger] s@[j]),
        decreases s.len() - i,
    {
        if !('0' <= s[i] && s[i] <= '9') {
            return false;
        }
        i = i + 1;
    }
    true
}

/// `0.f * unit` rounded down, for the digits `f` after a point.
fn fraction_floor(f: &Vec<char>, unit: u64) -> (r: u64)
    requires
        only_digits(f@),
        1 <= unit <= 360000,
    ensures
        r == (digits_value(f@) * (unit as nat)) / pow10(f@.len()),
        r < unit,
{
    let n = f.len();
    let mut w: u64 = 0;
    let mut i: usize = n;
    assert(f@.subrange(n as int, n as int) =~= Seq::<char>::empty());
    assert(digits_value(Seq::<char>::empty()) == 0);
    assert(pow10(0) == 1);
    assert((0 * (unit as nat)) / 1 == 0) by (nonlinear_arith);
    while i > 0
        invariant
            n == f@.len(),
            i <= n,
            only_digits(f@),
            1 <= unit <= 360000,
            w < unit,
            w == (digits_value(f@.subrange(i as int, n as int)) * (unit as nat)) / pow10(
                (n - i) as nat,
            ),
        decreases i,
    {
        let c = f[i - 1];
        let d = (c as u32 - '0' as u32) as u64;
        assert(is_digit(f@[i - 1]));
        let ghost g = f@.subrange(i as int, n as int);
        assert(f@.subrange(i - 1, n as int) =~= seq![c] + g);
        proof {
            lemma_fraction_step(c, g, unit as nat);
        }
        assert((d * unit + w) / 10 < unit) by (nonlinear_arith)
            requires
                d <= 9,
                w < unit,
        ;
        w = (d * unit + w) / 10;
        i = i - 1;
    }
    assert(f@.subrange(0, n as int) =~= f@);
    w
}

/// An unsigned decimal times `unit`, rounded down, where it fits.
fn scaled_u64(s: &Vec<char>, unit: u64) -> (r: Option<u64>)
    requires
        1 <= unit <= 360000,
    ensures
        r == (if decimal_text(s@) && scaled_magnitude(s@, unit as nat) <= u64::MAX {
            Some(scaled_magnitude(s@, unit as nat) as u64)
        } else {
            None
        }),
{
    let p = split_on(s, '.');
    assert(pieces(p@).len() == p@.len());
    if p.len() != 1 && p.len() != 2 {
        return None;
    }
    assert(p[0]@ == pieces(p@)[0]);
    let whole = &p[0];
    let fraction: u64 = if p.len() == 2 {
        assert(p[1]@ == pieces(p@)[1]);
        let f = &p[1];
        if !only_digit_run(whole) || !only_digit_run(f) || (whole.len() == 0 && f.len() == 0) {
            return None;
        }
        assert(fraction_digits(s@) == f@);
        fraction_floor(f, unit)
    } else {
        if !is_digit_run(whole) {
            return None;
        }
        assert(fraction_digits(s@) =~= Seq::<char>::empty());
        assert(pow10(0) == 1);
        0
    };
    let w: u64 = if whole.len() == 0 {
        assert(whole@ =~= Seq::<char>::empty());
        0
    } else {
        match digits_u64(whole) {
            Some(v) => v,
            None => {
                assert(digits_value(whole@) * unit >= digits_value(whole@)) by (nonlinear_arith)
                    requires
                        unit >= 1,
                ;
                return None;
            },
        }
    };
    assert(fields(s@, '.')[0] == whole@);
    assert(fraction == (digits_value(fraction_digits(s@)) * (unit as nat)) / pow10(
        fraction_digits(s@).len(),
    ));
    assert(decimal_text(s@));
    assert(scaled_magnitude(s@, unit as nat) == w * unit + fraction);
    match w.checked_mul(unit) {
        Some(x) => x.checked_add(fraction),
        None => None,
    }
}

/// A copy of `s` without its sign, if it has one.
fn unsigned_copy(s: &Vec<char>) -> (r: Vec<char>)
    ensures
        r@ == unsigned_part(s@),
{
    let from: usize = if s.len() > 0 && (s[0] == '-' || s[0] == '+') {
        1
    } else {
        0
    };
    let mut r: Vec<char> = Vec::new();
    let mut k: usize = from;
    while k < s.len()
        invariant
            from <= k <= s.len(),
            r@ == s@.subrange(from as int, k as int),
        decreases s.len() - k,
    {
        r.push(s[k]);
        k = k + 1;
        assert(r@ =~= s@.subrange(from as int, k as int));
    }
    assert(unsigned_part(s@) =~= s@.subrange(from as int, s@.len() as int));
    r
}

fn piece_i128(s: &Vec<char>, unit: u64) -> (r: Option<i128>)
    requires
        1 <= unit <= 360000,
    ensures
        r == (if piece_value(s@, unit as nat) is Some && piece_fits(s@, unit as nat) {
            Some(piece_value(s@, unit as nat)->0 as i128)
        } else {
            None
        }),
        r matches Some(v) ==> -0xffff_ffff_ffff_ffffi128 <= v <= 0xffff_ffff_ffff_ffffi128,
{
    let u = unsigned_copy(s);
    match scaled_u64(&u, unit) {
        Some(m) => {
            if s.len() > 0 && s[0] == '-' {
                Some(-(m as i128))
            } else {
                Some(m as i128)
            }
        },
        None => None,
    }
}

/// Reads `H:M:S` text: it must split on `:` into exactly three pieces, each
/// a signed decimal (`1.5`, `-2`, `.5`, `5.`). Gives `h * 3600 + m * 60 + s`
/// seconds in hundredths, each piece rounded toward zero to hundredths; the
/// result may be negative. `None` for any other text, and where a piece is
/// past the largest `u64` in hundredths.
pub fn parse_time(s: &str) -> (r: Option<i128>)
    ensures
        r == parsed_time(s@),
{
    let cs = chars_of(s);
    let p = split_on(&cs, ':');
    assert(pieces(p@).len() == p@.len());
    if p.len() != 3 {
        return None;
    }
    assert(p[0]@ == pieces(p@)[0]);
    assert(p[1]@ == pieces(p@)[1]);
    assert(p[2]@ == pieces(p@)[2]);
    let h = piece_i128(&p[0], HOUR);
    let m = piece_i128(&p[1], MINUTE);
    let sec = piece_i128(&p[2], SECOND);
    match (h, m, sec) {
        (Some(h), Some(m), Some(sec)) => Some(h + m + sec),
        _ => None,
    }
}

fn trim_blanks(s: &Vec<char>) -> (r: Vec<char>)
    ensures
        r@ == trimmed(s@),
{
    let n = s.len();
    let mut i: usize = 0;
    assert(s@.subrange(0, n as int) =~= s@);
    while i < n && (s[i] == ' ' || s[i] == '\t' || s[i] == '\n' || s[i] == '\r')
        invariant
            n == s@.len(),
            i <= n,
            trimmed(s@) == trimmed(s@.subrange(i as int, n as int)),
        decreases n - i,
    {
        assert(s@.subrange(i as int, n as int).drop_first() =~= s@.subrange(i + 1, n as int));
        i = i + 1;
    }
    let mut j: usize = n;
    while j > i && (s[j - 1] == ' ' || s[j - 1] == '\t' || s[j - 1] == '\n' || s[j - 1] == '\r')
        invariant
            n == s@.len(),
            i <= j <= n,
            i < n ==> !is_blank(s@[i as int]),
            trimmed(s@) == trimmed(s@.subrange(i as int, j as int)),
        decreases j - i,
    {
        assert(s@.subrange(i as int, j as int).drop_last() =~= s@.subrange(i as int, j - 1));
        j = j - 1;
    }
    let mut r: Vec<char> = Vec::new();
    let mut k: usize = i;
    while k < j
        invariant
            i <= k <= j <= n,
            n == s@.len(),
            r@ == s@.subrange(i as int, k as int),
        decreases j - k,
    {
        r.push(s[k]);
        k = k + 1;
        assert(r@ =~= s@.subrange(i as int, k as int));
    }
    r
}

/// Reads a duration reported as text: blanks (space, tab, line breaks) at
/// either end are ignored, and the rest must be seconds as digits with an
/// optional `.` and fraction. Gives the duration in hundredths of a second
/// (truncated), or `None` for any other text.
pub fn parse_duration(s: &str) -> (r: Option<u64>)
    ensures
        r == within_u64(seconds_value(trimmed(s@))),
{
    let cs = chars_of(s);
    let t = trim_blanks(&cs);
    seconds_u64(&t)
}

proof fn lemma_fields_concat(x: Seq<char>, y: Seq<char>, sep: char)
    ensures
        fields(x + seq![sep] + y, sep) == fields(x, sep) + fields(y, sep),
    decreases y.len(),
{
    let z = x + seq![sep] + y;
    if y.len() == 0 {
        assert(z.drop_last() =~= x);
        assert(fields(x, sep) + fields(y, sep) =~= fields(x, sep).push(Seq::empty()));
    } else {
        assert(z.drop_last() =~= x + seq![sep] + y.drop_last());
        lemma_fields_concat(x, y.drop_last(), sep);
        lemma_fields_nonempty(x, sep);
        lemma_fields_nonempty(y.drop_last(), sep);
        let fx = fields(x, sep);
        let fy = fields(y.drop_last(), sep);
        if y.last() == sep {
            assert((fx + fy).push(Seq::empty()) =~= fx + fy.push(Seq::empty()));
        } else {
            assert((fx + fy).update(fx.len() + fy.len() - 1, (fx + fy).last().push(y.last())) =~= fx
                + fy.update(fy.len() - 1, fy.last().push(y.last())));
        }
    }
}

proof fn lemma_fields_single(y: Seq<char>, sep: char)
    requires
        forall|i: int| 0 <= i < y.len() ==> y[i] != sep,
    ensures
        fields(y, sep) == seq![y],
    decreases y.len(),
{
    if y.len() > 0 {
        lemma_fields_single(y.drop_last(), sep);
        assert(y.drop_last().push(y.last()) =~= y);
        assert(seq![y.drop_last()].update(0, y.drop_last().push(y.last())) =~= seq![y]);
    } else {
        assert(y =~= Seq::<char>::empty());
    }
}

proof fn lemma_decimal(n: nat)
    ensures
        all_digits(decimal(n)),
        digits_value(decimal(n)) == n,
    decreases n,
{
    lemma_digit_char(n % 10);
    lemma_fundamental_div_mod(n as int, 10);
    if n < 10 {
        assert(seq![digit_char(n)].drop_last() =~= Seq::<char>::empty());
        assert(digits_value(decimal(n)) == digits_value(Seq::<char>::empty()) * 10 + digit_value(
            digit_char(n),
        ));
    } else {
        lemma_decimal(n / 10);
        let d = decimal(n / 10);
        assert(d.push(digit_char(n % 10)).drop_last() =~= d);
        assert(digits_value(decimal(n)) == digits_value(d) * 10 + digit_value(digit_char(n % 10)));
        assert forall|i: int| 0 <= i < decimal(n).len() implies is_digit(#[trigger] decimal(n)[i]) by {
            if i < d.len() {
                assert(decimal(n)[i] == d[i]);
            }
        }
    }
}

proof fn lemma_two_digits(n: nat)
    requires
        n < 100,
    ensures
        all_digits(two_digits(n)),
        digits_value(two_digits(n)) == n,
        fraction_hundredths(two_digits(n)) == n,
        forall|i: int| 0 <= i < two_digits(n).len() ==> is_digit(#[trigger] two_digits(n)[i]),
{
    lemma_digit_char(n / 10);
    lemma_digit_char(n % 10);
    let t = two_digits(n);
    assert(t.drop_last() =~= seq![digit_char(n / 10)]);
    assert(t.drop_last().drop_last() =~= Seq::<char>::empty());
    lemma_fundamental_div_mod(n as int, 10);
    assert(digits_value(t.drop_last()) == digits_value(Seq::<char>::empty()) * 10 + digit_value(
        digit_char(n / 10),
    ));
    assert(digits_value(t) == digits_value(t.drop_last()) * 10 + digit_value(digit_char(n % 10)));
}

proof fn lemma_hours_text(h: nat)
    ensures
        all_digits(hours_text(h)),
        digits_value(hours_text(h)) == h,
{
    if h < 10 {
        lemma_two_digits(h);
        assert(hours_text(h) == two_digits(h));
    } else {
        lemma_decimal(h);
    }
}

proof fn lemma_time_parts(t: nat)
    ensures
        (t / 360000) * 360000 + ((t / 6000) % 60) * 6000 + ((t % 6000) / 100) * 100 + t % 100
            == t,
        (t / 6000) % 60 < 60,
        (t % 6000) / 100 < 60,
        t % 100 < 100,
{
    lemma_fundamental_div_mod(t as int, 6000);
    lemma_fundamental_div_mod((t / 6000) as int, 60);
    lemma_div_denominator(t as int, 6000, 60);
    lemma_fundamental_div_mod((t % 6000) as int, 100);
    lemma_mod_mod(t as int, 100, 60);
    let q = t / 6000;
    let h = q / 60;
    assert(6000 * q == 6000 * (60 * h + q % 60));
    assert(6000 * (60 * h + q % 60) == h * 360000 + (q % 60) * 6000) by (nonlinear_arith);
}

proof fn lemma_digits_prepend(c: char, g: Seq<char>)
    ensures
        digits_value(seq![c] + g) == digit_value(c) * pow10(g.len()) + digits_value(g),
    decreases g.len(),
{
    if g.len() == 0 {
        assert((seq![c] + g).drop_last() =~= Seq::<char>::empty());
        assert(seq![c] + g =~= seq![c]);
        assert(digits_value(seq![c]) == digits_value(Seq::<char>::empty()) * 10 + digit_value(c));
        assert(pow10(0) == 1);
        assert(g =~= Seq::<char>::empty());
    } else {
        let h = g.drop_last();
        assert((seq![c] + g).drop_last() =~= seq![c] + h);
        assert((seq![c] + g).last() == g.last());
        assert(digits_value(seq![c] + g) == digits_value(seq![c] + h) * 10 + digit_value(g.last()));
        lemma_digits_prepend(c, h);
        let d = digit_value(c);
        let p = pow10(h.len());
        assert(pow10(g.len()) == 10 * p);
        assert((d * p + digits_value(h)) * 10 + digit_value(g.last()) == d * (10 * p) + (
        digits_value(h) * 10 + digit_value(g.last()))) by (nonlinear_arith);
    }
}

proof fn lemma_fraction_step(c: char, g: Seq<char>, unit: nat)
    ensures
        (digits_value(seq![c] + g) * unit) / pow10((g.len() + 1) as nat) == (digit_value(c) * unit
            + (digits_value(g) * unit) / pow10(g.len())) / 10,
{
    lemma_digits_prepend(c, g);
    let d = digit_value(c);
    let p = pow10(g.len());
    let gv = digits_value(g);
    lemma_pow10_positive(g.len());
    assert(pow10((g.len() + 1) as nat) == 10 * p);
    let x = (d * p + gv) * unit;
    lemma_div_denominator(x as int, p as int, 10);
    assert(p * 10 == 10 * p);
    lemma_fundamental_div_mod((gv * unit) as int, p as int);
    let q = (gv * unit) / p;
    let r = (gv * unit) % p;
    assert(0 <= r < p) by {
        lemma_mod_bound((gv * unit) as int, p as int);
    }
    assert(x == p * (d * unit + q) + r) by (nonlinear_arith)
        requires
            x == (d * p + gv) * unit,
            gv * unit == p * q + r,
    ;
    lemma_div_multiples_vanish_fancy((d * unit + q) as int, r as int, p as int);
}

proof fn lemma_pow10_positive(n: nat)
    ensures
        pow10(n) >= 1,
    decreases n,
{
    if n > 0 {
        lemma_pow10_positive((n - 1) as nat);
    }
}

/// A run of digits read as a piece with no point and no sign.
proof fn lemma_whole_piece(a: Seq<char>, unit: nat)
    requires
        all_digits(a),
    ensures
        piece_value(a, unit) == Some((digits_value(a) * unit) as int),
        scaled_magnitude(unsigned_part(a), unit) == digits_value(a) * unit,
{
    assert(is_digit(a[0]));
    assert(unsigned_part(a) == a);
    assert forall|i: int| 0 <= i < a.len() implies a[i] != '.' by {
        assert(is_digit(a[i]));
    }
    lemma_fields_single(a, '.');
    assert(fields(a, '.')[0] == a);
    assert(fraction_digits(a) =~= Seq::<char>::empty());
    assert(pow10(0) == 1);
    assert(digits_value(Seq::<char>::empty()) == 0);
    assert(scaled_magnitude(a, unit) == digits_value(a) * unit);
}

/// Two digits, a point and two digits, read as seconds.
proof fn lemma_seconds_piece(sec: Seq<char>, f: Seq<char>)
    requires
        sec.len() == 2,
        f.len() == 2,
        all_digits(sec),
        all_digits(f),
    ensures
        piece_value(sec + seq!['.'] + f, 100) == Some((digits_value(sec) * 100 + digits_value(f)) as int),
        scaled_magnitude(unsigned_part(sec + seq!['.'] + f), 100) == digits_value(sec) * 100
            + digits_value(f),
{
    let c = sec + seq!['.'] + f;
    assert forall|i: int| 0 <= i < sec.len() implies sec[i] != '.' by {
        assert(is_digit(sec[i]));
    }
    assert forall|i: int| 0 <= i < f.len() implies f[i] != '.' by {
        assert(is_digit(f[i]));
    }
    lemma_fields_concat(sec, f, '.');
    lemma_fields_single(sec, '.');
    lemma_fields_single(f, '.');
    assert(fields(c, '.') =~= seq![sec, f]);
    assert(c[0] == sec[0]);
    assert(is_digit(sec[0]));
    assert(unsigned_part(c) == c);
    assert(pow10(2) == 100) by {
        assert(pow10(1) == 10 * pow10(0));
    }
    let fv = digits_value(f);
    assert((fv * 100) / 100 == fv) by {
        lemma_div_by_multiple(fv as int, 100);
    }
    assert(fraction_digits(c) == f);
    assert(scaled_magnitude(c, 100) == digits_value(sec) * 100 + fv);
}

/// Reading formatted text gives back the time that was formatted, so
/// formatting, reading and formatting again gives the same text.
pub proof fn lemma_time_round_trip(t: u64)
    ensures
        time_value(time_text(t as nat)) == Some(t as int),
        parsed_time(time_text(t as nat)) == Some(t as i128),
        time_text(time_value(time_text(t as nat))->0 as nat) == time_text(t as nat),
{
    let t = t as nat;
    let a = hours_text(t / 360000);
    let b = two_digits((t / 6000) % 60);
    let sec = two_digits((t % 6000) / 100);
    let f = two_digits(t % 100);
    let c = sec + seq!['.'] + f;
    lemma_time_parts(t);
    lemma_hours_text(t / 360000);
    lemma_two_digits((t / 6000) % 60);
    lemma_two_digits((t % 6000) / 100);
    lemma_two_digits(t % 100);
    assert(time_text(t) =~= a + seq![':'] + b + seq![':'] + c);
    lemma_fields_concat(a + seq![':'] + b, c, ':');
    lemma_fields_concat(a, b, ':');
    assert forall|i: int| 0 <= i < a.len() implies a[i] != ':' by {
        assert(is_digit(a[i]));
    }
    lemma_fields_single(a, ':');
    lemma_fields_single(b, ':');
    assert forall|i: int| 0 <= i < c.len() implies c[i] != ':' by {
        if i < 2 {
            assert(c[i] == sec[i]);
        } else if i > 2 {
            assert(c[i] == f[i - 3]);
        }
    }
    lemma_fields_single(c, ':');
    assert(fields(time_text(t), ':') =~= seq![a, b, c]);
    lemma_whole_piece(a, 360000);
    lemma_whole_piece(b, 6000);
    lemma_seconds_piece(sec, f);
}

/// Text is read as a time only where it splits on `:` into exactly three
/// pieces that are each a signed decimal; anything else gives no value.
pub proof fn lemma_malformed_time(s: Seq<char>)
    requires
        !(fields(s, ':').len() == 3 && piece_value(fields(s, ':')[0], 360000) is Some
            && piece_value(fields(s, ':')[1], 6000) is Some && piece_value(fields(s, ':')[2], 100) is Some),
    ensures
        time_value(s) is None,
        parsed_time(s) is None,
{
}

} // verus!
