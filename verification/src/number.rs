//! Numbers with a decimal point: which number a literal spells, and how it is
//! shown.
use crate::text::{chars_of, code, same_text};
use crate::tokens::{push_signed, signed};
use vstd::prelude::*;
use vstd::string::StringExecFns;

verus! {

/// The number `0.d1d2..dn` times ten to the power of `point`, where `d1..dn`
/// are the digits. Neither the first nor the last of them is a zero; the number
/// zero has none.
pub ghost struct Decimal {
    pub digits: Seq<char>,
    pub point: int,
}

/// Where `c` stands first from `from` on and before `to`; `to` where it does
/// not.
pub open spec fn place_of(s: Seq<char>, c: char, from: int, to: int) -> int
    decreases to - from,
{
    if from >= to || s[from] == c {
        from
    } else {
        place_of(s, c, from + 1, to)
    }
}

/// Where the first character stands from `from` on that is no zero.
pub open spec fn first_digit(s: Seq<char>, from: int) -> int
    decreases s.len() - from,
{
    if from >= s.len() || s[from] != '0' {
        from
    } else {
        first_digit(s, from + 1)
    }
}

/// One past the last of the first `to` characters that is no zero.
pub open spec fn last_digit(s: Seq<char>, to: int) -> int
    decreases to,
{
    if to <= 0 || s[to - 1] != '0' {
        to
    } else {
        last_digit(s, to - 1)
    }
}

/// The number that a digit stands for.
pub open spec fn digit_value(c: char) -> int {
    if '0' <= c <= '9' {
        c as int - '0' as int
    } else {
        0
    }
}

/// The whole number that the characters from `from` on and before `to` spell.
pub open spec fn whole(s: Seq<char>, from: int, to: int) -> int
    decreases to - from,
{
    if from >= to {
        0
    } else {
        whole(s, from, to - 1) * 10 + digit_value(s[to - 1])
    }
}

/// The exponent of a literal whose `e` stands at `e`, if it has one.
pub open spec fn exponent(s: Seq<char>, e: int) -> int {
    if e >= s.len() {
        0
    } else if e + 1 < s.len() && s[e + 1] == '-' {
        -whole(s, e + 2, s.len() as int)
    } else {
        whole(s, e + 1, s.len() as int)
    }
}

/// The digits of a literal whose point stands at `p`, if it has one, and whose
/// mantissa ends at `e`.
pub open spec fn all_of(s: Seq<char>, p: int, e: int) -> Seq<char> {
    if p < e {
        s.subrange(0, p) + s.subrange(p + 1, e)
    } else {
        s.subrange(0, e)
    }
}

/// The number that a literal spells: digits, perhaps a point among them, and
/// perhaps an `e` with an exponent.
pub open spec fn decimal_of(s: Seq<char>) -> Decimal {
    let e = place_of(s, 'e', 0, s.len() as int);
    let p = place_of(s, '.', 0, e);
    let all = all_of(s, p, e);
    let a = first_digit(all, 0);
    let b = last_digit(all, all.len() as int);
    if a >= all.len() {
        Decimal { digits: Seq::empty(), point: 0 }
    } else {
        Decimal { digits: all.subrange(a, b), point: p - a + exponent(s, e) }
    }
}

/// `n` zeros.
pub open spec fn zeros(n: int) -> Seq<char> {
    Seq::new(n as nat, |i: int| '0')
}

/// Beyond this power of ten a number is infinite.
pub const LARGEST_POINT: i128 = 309;

/// Below this power of ten a number is zero.
pub const SMALLEST_POINT: i128 = -330;

/// The digits of a number that is neither too large nor too small, with as
/// many zeros as the place of its point needs.
pub open spec fn placed(d: Decimal) -> Seq<char> {
    let n = d.digits.len();
    if d.point <= 0 {
        seq!['0', '.'] + zeros(-d.point) + d.digits
    } else if d.point >= n {
        d.digits + zeros(d.point - n)
    } else {
        d.digits.subrange(0, d.point) + seq!['.'] + d.digits.subrange(d.point, n as int)
    }
}

/// A number as it is shown: no zeros but those that its size asks for, no
/// point where it is whole.
pub open spec fn plain_text(d: Decimal) -> Seq<char> {
    if d.digits.len() == 0 || d.point < SMALLEST_POINT {
        seq!['0']
    } else if d.point > LARGEST_POINT {
        seq!['i', 'n', 'f']
    } else {
        placed(d)
    }
}

/// A number with an exponent.
pub open spec fn scientific(d: Decimal) -> Seq<char> {
    let rest = d.digits.subrange(1, d.digits.len() as int);
    seq![d.digits[0]] + (if rest.len() > 0 {
        seq!['.'] + rest
    } else {
        Seq::empty()
    }) + seq!['e'] + signed(d.point - 1)
}

/// A number as it is shown for inspection: with a point, or an exponent where
/// it is below a ten-thousandth or has more than sixteen places before its
/// point.
pub open spec fn exact_text(d: Decimal) -> Seq<char> {
    if d.digits.len() == 0 || d.point < SMALLEST_POINT {
        seq!['0', '.', '0']
    } else if d.point > LARGEST_POINT {
        seq!['i', 'n', 'f']
    } else if d.point < -3 || d.point > 16 {
        scientific(d)
    } else if d.point >= d.digits.len() {
        placed(d) + seq!['.', '0']
    } else {
        placed(d)
    }
}

/// The text of a number with a point, in the one way that each is written.
pub open spec fn canonical(s: Seq<char>) -> Seq<char> {
    plain_text(decimal_of(s))
}

/// The number that `canonical` wrote, for inspection.
pub open spec fn inspected(s: Seq<char>) -> Seq<char> {
    if s == "inf"@ {
        s
    } else {
        exact_text(decimal_of(s))
    }
}

// ── Reading ──────────────────────────────────────────────────────────────

fn find_char(s: &Vec<char>, c: char, to: usize) -> (r: usize)
    requires
        to <= s.len(),
    ensures
        r == place_of(s@, c, 0, to as int),
        r <= to,
{
    let mut i: usize = 0;
    while i < to && s[i] != c
        invariant
            i <= to <= s.len(),
            place_of(s@, c, i as int, to as int) == place_of(s@, c, 0, to as int),
        decreases to - i,
    {
        i = i + 1;
    }
    i
}

fn find_first_digit(s: &Vec<char>) -> (r: usize)
    ensures
        r == first_digit(s@, 0),
        r <= s.len(),
        r < s.len() ==> s@[r as int] != '0',
{
    let mut i: usize = 0;
    while i < s.len() && s[i] == '0'
        invariant
            i <= s.len(),
            first_digit(s@, i as int) == first_digit(s@, 0),
        decreases s.len() - i,
    {
        i = i + 1;
    }
    i
}

fn find_last_digit(s: &Vec<char>, a: usize) -> (r: usize)
    requires
        a < s.len(),
        s@[a as int] != '0',
    ensures
        r == last_digit(s@, s.len() as int),
        a < r <= s.len(),
{
    let mut i: usize = s.len();
    while s[i - 1] == '0'
        invariant
            a < i <= s.len(),
            s@[a as int] != '0',
            last_digit(s@, i as int) == last_digit(s@, s.len() as int),
        decreases i,
    {
        i = i - 1;
    }
    i
}

/// More than any length or exponent that matters.
pub const CAP: i128 = 1_000_000_000_000_000_000_000_000_000_000;

/// The whole number, or `CAP` where it is larger.
fn read_whole(s: &Vec<char>, from: usize) -> (r: i128)
    requires
        from <= s.len(),
    ensures
        0 <= r <= CAP,
        r < CAP ==> r == whole(s@, from as int, s.len() as int),
        r == CAP ==> whole(s@, from as int, s.len() as int) >= CAP,
{
    let mut v: i128 = 0;
    let mut i: usize = from;
    while i < s.len()
        invariant
            from <= i <= s.len(),
            0 <= v <= CAP,
            v < CAP ==> v == whole(s@, from as int, i as int),
            v == CAP ==> whole(s@, from as int, i as int) >= CAP,
        decreases s.len() - i,
    {
        let c = s[i];
        let d: i128 = if '0' <= c && c <= '9' { (code(c) - 48) as i128 } else { 0 };
        assert(whole(s@, from as int, i + 1) == whole(s@, from as int, i as int) * 10 + digit_value(c));
        if v == CAP || v * 10 + d >= CAP {
            v = CAP;
        } else {
            v = v * 10 + d;
        }
        i = i + 1;
    }
    v
}

fn read_exponent(s: &Vec<char>, e: usize) -> (r: i128)
    requires
        e <= s.len(),
    ensures
        -CAP <= r <= CAP,
        -CAP < r < CAP ==> r == exponent(s@, e as int),
        r == CAP ==> exponent(s@, e as int) >= CAP,
        r == -CAP ==> exponent(s@, e as int) <= -CAP,
{
    if e >= s.len() {
        0
    } else if e + 1 < s.len() && s[e + 1] == '-' {
        -read_whole(s, e + 2)
    } else {
        read_whole(s, e + 1)
    }
}

fn collect_digits(s: &Vec<char>, p: usize, e: usize) -> (r: Vec<char>)
    requires
        p <= e <= s.len(),
    ensures
        r@ == all_of(s@, p as int, e as int),
{
    let mut out: Vec<char> = Vec::new();
    let mut i: usize = 0;
    while i < e
        invariant
            i <= e <= s.len(),
            p <= e,
            out@ == if i <= p {
                s@.subrange(0, i as int)
            } else {
                s@.subrange(0, p as int) + s@.subrange(p + 1, i as int)
            },
        decreases e - i,
    {
        let ghost before = out@;
        if i != p {
            out.push(s[i]);
        }
        proof {
            if i < p {
                assert(out@ =~= s@.subrange(0, i + 1));
            } else if i == p {
                assert(out@ =~= s@.subrange(0, p as int) + s@.subrange(p + 1, i + 1));
            } else {
                assert(out@ =~= s@.subrange(0, p as int) + s@.subrange(p + 1, i + 1));
            }
        }
        i = i + 1;
    }
    assert(out@ =~= all_of(s@, p as int, e as int));
    out
}

/// A number as it was read. Where its power of ten is beyond all limits, only
/// that is held to.
struct Number {
    digits: Vec<char>,
    point: i128,
}

impl Number {
    spec fn stands_for(self, d: Decimal) -> bool {
        &&& self.digits@ == d.digits
        &&& self.point == d.point || (self.point > LARGEST_POINT && d.point > LARGEST_POINT) || (self.point
            < SMALLEST_POINT && d.point < SMALLEST_POINT)
    }
}

fn read_number(s: &Vec<char>) -> (r: Number)
    ensures
        r.stands_for(decimal_of(s@)),
{
    let e = find_char(s, 'e', s.len());
    let p = find_char(s, '.', e);
    let all = collect_digits(s, p, e);
    let a = find_first_digit(&all);
    let mut digits: Vec<char> = Vec::new();
    if a >= all.len() {
        assert(digits@ =~= Seq::<char>::empty());
        return Number { digits, point: 0 };
    }
    let b = find_last_digit(&all, a);
    let x: i128 = read_exponent(s, e);
    let mut i: usize = a;
    while i < b
        invariant
            a <= i <= b <= all.len(),
            digits@ == all@.subrange(a as int, i as int),
        decreases b - i,
    {
        digits.push(all[i]);
        assert(digits@ =~= all@.subrange(a as int, i + 1));
        i = i + 1;
    }
    Number { digits, point: p as i128 - a as i128 + x }
}

// ── Writing ──────────────────────────────────────────────────────────────

fn push_zeros(out: &mut String, n: i128)
    requires
        n >= 0,
    ensures
        final(out)@ == old(out)@ + zeros(n as int),
{
    let mut i: i128 = 0;
    assert(out@ =~= old(out)@ + zeros(0));
    while i < n
        invariant
            0 <= i <= n,
            out@ == old(out)@ + zeros(i as int),
        decreases n - i,
    {
        out.push('0');
        assert(out@ =~= old(out)@ + zeros(i + 1));
        i = i + 1;
    }
}

fn push_some(out: &mut String, s: &Vec<char>, from: usize, to: usize)
    requires
        from <= to <= s.len(),
    ensures
        final(out)@ == old(out)@ + s@.subrange(from as int, to as int),
{
    let mut i: usize = from;
    assert(out@ =~= old(out)@ + s@.subrange(from as int, from as int));
    while i < to
        invariant
            from <= i <= to <= s.len(),
            out@ == old(out)@ + s@.subrange(from as int, i as int),
        decreases to - i,
    {
        out.push(s[i]);
        assert(out@ =~= old(out)@ + s@.subrange(from as int, i + 1));
        i = i + 1;
    }
}

fn push_placed(out: &mut String, x: &Number, Ghost(d): Ghost<Decimal>)
    requires
        x.digits@ == d.digits,
        x.point == d.point,
        SMALLEST_POINT <= x.point <= LARGEST_POINT,
    ensures
        final(out)@ == old(out)@ + placed(d),
{
    let ghost start = out@;
    let n = x.digits.len();
    if x.point <= 0 {
        out.push('0');
        out.push('.');
        push_zeros(out, -x.point);
        push_some(out, &x.digits, 0, n);
        assert(out@ =~= start + placed(d));
    } else if x.point >= n as i128 {
        push_some(out, &x.digits, 0, n);
        push_zeros(out, x.point - n as i128);
        assert(out@ =~= start + placed(d));
    } else {
        let k = x.point as usize;
        push_some(out, &x.digits, 0, k);
        out.push('.');
        push_some(out, &x.digits, k, n);
        assert(out@ =~= start + placed(d));
    }
}

fn push_scientific(out: &mut String, x: &Number, Ghost(d): Ghost<Decimal>)
    requires
        x.digits@ == d.digits,
        x.point == d.point,
        x.digits.len() > 0,
        SMALLEST_POINT <= x.point <= LARGEST_POINT,
    ensures
        final(out)@ == old(out)@ + scientific(d),
{
    let ghost start = out@;
    let n = x.digits.len();
    out.push(x.digits[0]);
    if n > 1 {
        out.push('.');
        push_some(out, &x.digits, 1, n);
    }
    out.push('e');
    push_signed(out, (x.point - 1) as i64);
    assert(out@ =~= start + scientific(d));
}

/// The number that a literal spells, in the one way that it is written.
pub fn write_number(s: &str) -> (r: String)
    ensures
        r@ == canonical(s@),
{
    let cs = chars_of(s);
    let x = read_number(&cs);
    let ghost d = decimal_of(s@);
    let mut out = String::new();
    if x.digits.len() == 0 || x.point < SMALLEST_POINT {
        out.push('0');
        assert(out@ =~= seq!['0']);
    } else if x.point > LARGEST_POINT {
        out.push('i');
        out.push('n');
        out.push('f');
        assert(out@ =~= seq!['i', 'n', 'f']);
    } else {
        push_placed(&mut out, &x, Ghost(d));
        assert(out@ =~= placed(d));
    }
    out
}

/// Appends a number that was written, for inspection.
pub fn push_inspected(out: &mut String, s: &str)
    ensures
        final(out)@ == old(out)@ + inspected(s@),
{
    if same_text(s, "inf") {
        out.append(s);
        return;
    }
    let ghost start = out@;
    let cs = chars_of(s);
    let x = read_number(&cs);
    let ghost d = decimal_of(s@);
    if x.digits.len() == 0 || x.point < SMALLEST_POINT {
        out.push('0');
        out.push('.');
        out.push('0');
        assert(out@ =~= start + seq!['0', '.', '0']);
    } else if x.point > LARGEST_POINT {
        out.push('i');
        out.push('n');
        out.push('f');
        assert(out@ =~= start + seq!['i', 'n', 'f']);
    } else if x.point < -3 || x.point > 16 {
        push_scientific(out, &x, Ghost(d));
    } else {
        push_placed(out, &x, Ghost(d));
        if x.point >= x.digits.len() as i128 {
            out.push('.');
            out.push('0');
            assert(out@ =~= start + (placed(d) + seq!['.', '0']));
        }
    }
}

// ── Laws ─────────────────────────────────────────────────────────────────

proof fn absent(s: Seq<char>, c: char, from: int, to: int)
    requires
        from <= to,
        forall|i: int| from <= i < to ==> #[trigger] s[i] != c,
    ensures
        place_of(s, c, from, to) == to,
    decreases to - from,
{
    if from < to {
        assert(s[from] != c);
        absent(s, c, from + 1, to);
    }
}

proof fn first_there(s: Seq<char>, c: char, from: int, to: int, k: int)
    requires
        from <= k < to,
        s[k] == c,
        forall|i: int| from <= i < k ==> #[trigger] s[i] != c,
    ensures
        place_of(s, c, from, to) == k,
    decreases k - from,
{
    if from < k {
        assert(s[from] != c);
        first_there(s, c, from + 1, to, k);
    }
}

proof fn zeros_lead(s: Seq<char>, from: int, k: int)
    requires
        0 <= from <= k < s.len(),
        s[k] != '0',
        forall|i: int| from <= i < k ==> #[trigger] s[i] == '0',
    ensures
        first_digit(s, from) == k,
    decreases k - from,
{
    if from < k {
        assert(s[from] == '0');
        zeros_lead(s, from + 1, k);
    }
}

proof fn zeros_trail(s: Seq<char>, to: int, k: int)
    requires
        0 < k <= to <= s.len(),
        s[k - 1] != '0',
        forall|i: int| k <= i < to ==> #[trigger] s[i] == '0',
    ensures
        last_digit(s, to) == k,
    decreases to - k,
{
    if k < to {
        assert(s[to - 1] == '0');
        zeros_trail(s, to - 1, k);
    }
}

proof fn first_digit_is_no_zero(s: Seq<char>, from: int)
    requires
        0 <= from <= s.len(),
    ensures
        from <= first_digit(s, from) <= s.len(),
        first_digit(s, from) < s.len() ==> s[first_digit(s, from)] != '0',
    decreases s.len() - from,
{
    if from < s.len() && s[from] == '0' {
        first_digit_is_no_zero(s, from + 1);
    }
}

proof fn last_digit_is_no_zero(s: Seq<char>, to: int, a: int)
    requires
        0 <= a < to <= s.len(),
        s[a] != '0',
    ensures
        a < last_digit(s, to) <= to,
        s[last_digit(s, to) - 1] != '0',
    decreases to,
{
    if s[to - 1] == '0' {
        last_digit_is_no_zero(s, to - 1, a);
    }
}

/// Neither the first nor the last digit of a number is a zero.
pub proof fn no_zero_at_either_end(s: Seq<char>)
    ensures
        ({
            let d = decimal_of(s);
            d.digits.len() > 0 ==> d.digits[0] != '0' && d.digits.last() != '0'
        }),
{
    let e = place_of(s, 'e', 0, s.len() as int);
    let p = place_of(s, '.', 0, e);
    let all = all_of(s, p, e);
    first_digit_is_no_zero(all, 0);
    let a = first_digit(all, 0);
    if a < all.len() {
        last_digit_is_no_zero(all, all.len() as int, a);
    }
}

/// Whether these are the digits of a number.
spec fn proper(ds: Seq<char>) -> bool {
    &&& ds.len() > 0
    &&& forall|i: int| 0 <= i < ds.len() ==> '0' <= #[trigger] ds[i] <= '9'
    &&& ds[0] != '0'
    &&& ds.last() != '0'
}

proof fn a_fraction_reads_back(d: Decimal)
    requires
        proper(d.digits),
        d.point <= 0,
    ensures
        decimal_of(placed(d)) == d,
{
    let t = seq!['0', '.'] + zeros(-d.point) + d.digits;
    let e = t.len() as int;
    let k = 1 - d.point;
    absent(t, 'e', 0, e);
    first_there(t, '.', 0, e, 1);
    let all = all_of(t, 1, e);
    assert(all =~= seq!['0'] + zeros(-d.point) + d.digits);
    assert(all[k] == d.digits[0]);
    zeros_lead(all, 0, k);
    assert(all[all.len() - 1] == d.digits.last());
    zeros_trail(all, e - 1, e - 1);
    assert(all.subrange(k, e - 1) =~= d.digits);
}

proof fn a_whole_number_reads_back(d: Decimal)
    requires
        proper(d.digits),
        d.point >= d.digits.len(),
    ensures
        decimal_of(placed(d)) == d,
{
    let n = d.digits.len() as int;
    let t = d.digits + zeros(d.point - n);
    let e = t.len() as int;
    absent(t, 'e', 0, e);
    absent(t, '.', 0, e);
    assert(all_of(t, e, e) =~= t);
    assert(t[0] == d.digits[0]);
    zeros_lead(t, 0, 0);
    assert(t[n - 1] == d.digits.last());
    zeros_trail(t, e, n);
    assert(t.subrange(0, n) =~= d.digits);
}

proof fn a_mixed_number_reads_back(d: Decimal)
    requires
        proper(d.digits),
        0 < d.point < d.digits.len(),
    ensures
        decimal_of(placed(d)) == d,
{
    let n = d.digits.len() as int;
    let t = d.digits.subrange(0, d.point) + seq!['.'] + d.digits.subrange(d.point, n);
    let e = t.len() as int;
    absent(t, 'e', 0, e);
    first_there(t, '.', 0, e, d.point);
    assert(all_of(t, d.point, e) =~= d.digits);
    zeros_lead(d.digits, 0, 0);
    zeros_trail(d.digits, n, n);
    assert(d.digits.subrange(0, n) =~= d.digits);
}

/// What is written of a number reads as the same number, where it is neither
/// too large nor too small.
pub proof fn writing_keeps_the_number(s: Seq<char>)
    requires
        decimal_of(s).digits.len() > 0,
        forall|i: int| 0 <= i < decimal_of(s).digits.len() ==> '0' <= #[trigger] decimal_of(s).digits[i] <= '9',
        SMALLEST_POINT <= decimal_of(s).point <= LARGEST_POINT,
    ensures
        decimal_of(canonical(s)) == decimal_of(s),
{
    let d = decimal_of(s);
    no_zero_at_either_end(s);
    assert(proper(d.digits));
    if d.point <= 0 {
        a_fraction_reads_back(d);
    } else if d.point >= d.digits.len() {
        a_whole_number_reads_back(d);
    } else {
        a_mixed_number_reads_back(d);
    }
}

} // verus!
