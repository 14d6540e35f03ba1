use vstd::prelude::*;

use crate::value::ErrorKind;

verus! {

/// An exact decimal number: `mantissa / 10^scale`.
#[derive(Debug, Clone, Copy, PartialEq, Eq, Structural)]
pub struct Decimal {
    pub mantissa: i128,
    pub scale: usize,
}

impl View for Decimal {
    type V = (int, nat);

    open spec fn view(&self) -> (int, nat) {
        (self.mantissa as int, self.scale as nat)
    }
}

pub open spec fn in_i128(x: int) -> bool {
    i128::MIN <= x <= i128::MAX
}

pub open spec fn is_digit(c: char) -> bool {
    '0' <= c && c <= '9'
}

pub open spec fn all_digits(s: Seq<char>) -> bool {
    forall|i: int| 0 <= i < s.len() ==> is_digit(#[trigger] s[i])
}

pub open spec fn digit_value(c: char) -> int {
    (c as u32) as int - ('0' as u32) as int
}

/// The value of a run of decimal digits, most significant first.
pub open spec fn digits_value(s: Seq<char>) -> int
    decreases s.len(),
{
    if s.len() == 0 {
        0
    } else {
        digits_value(s.drop_last()) * 10 + digit_value(s.last())
    }
}

/// The text after an optional leading minus sign.
pub open spec fn unsigned_part(s: Seq<char>) -> Seq<char> {
    if s.len() > 0 && s[0] == '-' {
        s.drop_first()
    } else {
        s
    }
}

pub open spec fn is_negative_text(s: Seq<char>) -> bool {
    s.len() > 0 && s[0] == '-'
}

/// `b` has a decimal point at `p`, with digits on both sides of it.
pub open spec fn point_at(b: Seq<char>, p: int) -> bool {
    &&& 0 < p < b.len() - 1
    &&& b[p] == '.'
    &&& all_digits(b.take(p))
    &&& all_digits(b.skip(p + 1))
}

/// Numeric text: `[-]digits`, or also `[-]digits.digits` where a fraction is allowed.
pub open spec fn valid_number(s: Seq<char>, fraction_ok: bool) -> bool {
    let b = unsigned_part(s);
    (b.len() > 0 && all_digits(b)) || (fraction_ok && exists|p: int| point_at(b, p))
}

/// The digits of a valid numeric text with the point left out.
pub open spec fn number_digits(s: Seq<char>) -> Seq<char> {
    let b = unsigned_part(s);
    if all_digits(b) {
        b
    } else {
        let p = choose|p: int| point_at(b, p);
        b.take(p) + b.skip(p + 1)
    }
}

/// The number of digits after the point of a valid numeric text.
pub open spec fn number_scale(s: Seq<char>) -> nat {
    let b = unsigned_part(s);
    if all_digits(b) {
        0
    } else {
        let p = choose|p: int| point_at(b, p);
        (b.len() - p - 1) as nat
    }
}

/// The exact value of a valid numeric text, as (mantissa, scale).
pub open spec fn number_value(s: Seq<char>) -> (int, nat) {
    let d = digits_value(number_digits(s));
    (if is_negative_text(s) { -d } else { d }, number_scale(s))
}

/// `m * 10^k`.
pub open spec fn scale_up(m: int, k: nat) -> int
    decreases k,
{
    if k == 0 {
        m
    } else {
        scale_up(m, (k - 1) as nat) * 10
    }
}

/// Each of `m, 10m, ..., 10^k m` fits in an `i128`.
pub open spec fn scale_fits(m: int, k: nat) -> bool
    decreases k,
{
    if k == 0 {
        in_i128(m)
    } else {
        scale_fits(m, (k - 1) as nat) && in_i128(scale_up(m, k))
    }
}

pub open spec fn max_nat(a: nat, b: nat) -> nat {
    if a >= b {
        a
    } else {
        b
    }
}

/// `a + b` (or `a - b`), exactly, at the larger of the two scales.
pub open spec fn combine(a: (int, nat), b: (int, nat), subtract: bool) -> (int, nat) {
    let s = max_nat(a.1, b.1);
    let x = scale_up(a.0, (s - a.1) as nat);
    let y = scale_up(b.0, (s - b.1) as nat);
    (if subtract { x - y } else { x + y }, s)
}

/// Every intermediate of `combine(a, b, subtract)` fits in an `i128`.
pub open spec fn combine_fits(a: (int, nat), b: (int, nat), subtract: bool) -> bool {
    let s = max_nat(a.1, b.1);
    &&& scale_fits(a.0, (s - a.1) as nat)
    &&& scale_fits(b.0, (s - b.1) as nat)
    &&& in_i128(combine(a, b, subtract).0)
}

/// The left-to-right sum (or difference) of a non-empty sequence of numbers,
/// the first one as the seed.
pub open spec fn fold_numbers(nums: Seq<(int, nat)>, subtract: bool) -> (int, nat)
    decreases nums.len(),
{
    if nums.len() <= 1 {
        nums[0]
    } else {
        combine(fold_numbers(nums.drop_last(), subtract), nums.last(), subtract)
    }
}

/// Every step of `fold_numbers(nums, subtract)` fits in an `i128`.
pub open spec fn fold_fits(nums: Seq<(int, nat)>, subtract: bool) -> bool
    decreases nums.len(),
{
    if nums.len() <= 1 {
        true
    } else {
        fold_fits(nums.drop_last(), subtract) && combine_fits(
            fold_numbers(nums.drop_last(), subtract),
            nums.last(),
            subtract,
        )
    }
}

pub open spec fn digit_char(d: nat) -> char {
    if d == 0 {
        '0'
    } else if d == 1 {
        '1'
    } else if d == 2 {
        '2'
    } else if d == 3 {
        '3'
    } else if d == 4 {
        '4'
    } else if d == 5 {
        '5'
    } else if d == 6 {
        '6'
    } else if d == 7 {
        '7'
    } else if d == 8 {
        '8'
    } else {
        '9'
    }
}

/// The decimal digits of `a`, with no leading zero.
pub open spec fn nat_digits(a: nat) -> Seq<char>
    decreases a,
{
    if a < 10 {
        seq![digit_char(a)]
    } else {
        nat_digits(a / 10).push(digit_char(a % 10))
    }
}

/// The lowest `w` decimal digits of `a`, most significant first.
pub open spec fn fixed_digits(a: nat, w: nat) -> Seq<char>
    decreases w,
{
    if w == 0 {
        Seq::empty()
    } else {
        fixed_digits(a / 10, (w - 1) as nat).push(digit_char(a % 10))
    }
}

/// `a / 10^w`.
pub open spec fn shift_down(a: nat, w: nat) -> nat
    decreases w,
{
    if w == 0 {
        a
    } else {
        shift_down(a / 10, (w - 1) as nat)
    }
}

/// `(a, s)` with trailing zeros of the fraction removed.
pub open spec fn trim(a: nat, s: nat) -> (nat, nat)
    decreases s,
{
    if s > 0 && a % 10 == 0 {
        trim(a / 10, (s - 1) as nat)
    } else {
        (a, s)
    }
}

pub open spec fn abs(m: int) -> nat {
    if m < 0 {
        (-m) as nat
    } else {
        m as nat
    }
}

/// The digits of `a / 10^s`, then, where `s > 0`, a point and the `s`
/// fraction digits.
pub open spec fn magnitude_text(a: nat, s: nat) -> Seq<char> {
    if s == 0 {
        nat_digits(a)
    } else {
        nat_digits(shift_down(a, s)) + seq!['.'] + fixed_digits(a, s)
    }
}

/// The shortest text of `m / 10^s`: no trailing zero after the point and no
/// point where the value is whole.
pub open spec fn canonical_text(m: int, s: nat) -> Seq<char> {
    let t = trim(abs(m), s);
    if m < 0 {
        seq!['-'] + magnitude_text(t.0, t.1)
    } else {
        magnitude_text(t.0, t.1)
    }
}

proof fn lemma_digits_nonneg(s: Seq<char>)
    requires
        all_digits(s),
    ensures
        digits_value(s) >= 0,
    decreases s.len(),
{
    if s.len() > 0 {
        assert(is_digit(s[s.len() - 1]));
        lemma_digits_nonneg(s.drop_last());
    }
}

proof fn lemma_digits_prefix_monotone(c: Seq<char>, j: int, k: int)
    requires
        all_digits(c),
        0 <= j <= k <= c.len(),
    ensures
        0 <= digits_value(c.take(j)) <= digits_value(c.take(k)),
    decreases k,
{
    lemma_digits_nonneg(c.take(j));
    if j < k {
        lemma_digits_prefix_monotone(c, j, k - 1);
        assert(c.take(k).drop_last() =~= c.take(k - 1));
        assert(is_digit(c[k - 1]));
    }
}

proof fn lemma_point_is_first(b: Seq<char>, q: int, p: int)
    requires
        0 <= q < b.len(),
        b[q] == '.',
        forall|k: int| 0 <= k < q ==> b[k] != '.',
        point_at(b, p),
    ensures
        p == q,
{
    if p > q {
        assert(b.take(p)[q] == b[q]);
    }
}

proof fn lemma_no_point(b: Seq<char>, x: int, y: int)
    requires
        0 <= x < b.len(),
        !is_digit(b[x]),
        b[x] != '.' || (0 <= y < b.len() && x != y && b[y] == '.'),
    ensures
        !all_digits(b),
        forall|p: int| !point_at(b, p),
{
    assert forall|p: int| !point_at(b, p) by {
        if point_at(b, p) {
            if x < p {
                assert(b.take(p)[x] == b[x]);
            } else if x > p {
                assert(b.skip(p + 1)[x - p - 1] == b[x]);
            } else if y < p {
                assert(b.take(p)[y] == b[y]);
            } else {
                assert(b.skip(p + 1)[y - p - 1] == b[y]);
            }
        }
    }
}

fn is_digit_char(c: char) -> (r: bool)
    ensures
        r == is_digit(c),
{
    '0' <= c && c <= '9'
}

/// Reads numeric text: `[-]digits`, or `[-]digits.digits` where `fraction_ok`.
/// Malformed text gives `MalformedNumber`; digits whose value does not fit
/// an `i128` give `Overflow`.
#[verifier::rlimit(60)]
pub fn parse_number(text: &str, fraction_ok: bool) -> (r: Result<Decimal, ErrorKind>)
    ensures
        !valid_number(text@, fraction_ok) ==> r == Err::<Decimal, ErrorKind>(
            ErrorKind::MalformedNumber,
        ),
        valid_number(text@, fraction_ok) && digits_value(number_digits(text@)) > i128::MAX
            ==> r == Err::<Decimal, ErrorKind>(ErrorKind::Overflow),
        valid_number(text@, fraction_ok) && digits_value(number_digits(text@)) <= i128::MAX
            ==> (r matches Ok(d) && d@ == number_value(text@)),
{
    let ghost s = text@;
    let n = text.unicode_len();
    let neg = n > 0 && text.get_char(0) == '-';
    let start: usize = if neg { 1 } else { 0 };
    let ghost b = unsigned_part(s);
    assert(b =~= s.subrange(start as int, n as int));
    if start >= n {
        return Err(ErrorKind::MalformedNumber);
    }
    // Find the first point, checking that everything before it is a digit.

    let mut q: usize = start;
    while q < n && text.get_char(q) != '.'
        invariant
            start <= q <= n,
            n == s.len(),
            s == text@,
            forall|k: int| start <= k < q ==> s[k] != '.',
            b =~= s.subrange(start as int, n as int),
            b == unsigned_part(s),
            start == (if neg { 1int } else { 0int }),
            neg == is_negative_text(s),
        decreases n - q,
    {
        q = q + 1;
    }
    let mut i: usize = start;
    while i < n
        invariant
            start <= i <= n,
            n == s.len(),
            s == text@,
            forall|k: int| start <= k < i && k != q ==> is_digit(#[trigger] s[k]),
            forall|k: int| start <= k < q ==> s[k] != '.',
            q <= n,
            q < n ==> s[q as int] == '.',
            b =~= s.subrange(start as int, n as int),
            b == unsigned_part(s),
            start == (if neg { 1int } else { 0int }),
            neg == is_negative_text(s),
        decreases n - i,
    {
        if i != q && !is_digit_char(text.get_char(i)) {
            proof {
                let bad = i - start;
                assert(b[bad] == s[i as int]);
                if s[i as int] == '.' {
                    assert(b[q - start] == s[q as int]);
                    lemma_no_point(b, bad, q - start);
                } else {
                    lemma_no_point(b, bad, 0);
                }
            }
            return Err(ErrorKind::MalformedNumber);
        }
        i = i + 1;
    }
    let has_point = q < n;
    if has_point && (!fraction_ok || q == start || q + 1 >= n) {
        proof {
            let qb = q - start;
            assert(b[qb] == s[q as int]);
            assert(!is_digit(b[qb]));
            assert forall|k: int| 0 <= k < qb implies b[k] != '.' by {
                assert(b[k] == s[k + start]);
            }
            assert forall|p: int| !(fraction_ok && point_at(b, p)) by {
                if fraction_ok && point_at(b, p) {
                    lemma_point_is_first(b, qb, p);
                }
            }
        }
        return Err(ErrorKind::MalformedNumber);
    }
    // The digits, with the point left out.
    let ghost c = number_digits(s);
    let ghost qb = q - start;
    proof {
        assert forall|k: int| 0 <= k < b.len() && k != qb implies is_digit(#[trigger] b[k]) by {
            assert(b[k] == s[k + start]);
        }
        if has_point {
            assert(b[qb] == '.');
            assert(!all_digits(b));
            assert(point_at(b, qb));
            let p = choose|p: int| point_at(b, p);
            assert forall|k: int| 0 <= k < qb implies b[k] != '.' by {
                assert(b[k] == s[k + start]);
            }
            lemma_point_is_first(b, qb, p);
            assert(c =~= b.take(qb) + b.skip(qb + 1));
            assert forall|k: int| 0 <= k < c.len() implies is_digit(#[trigger] c[k]) by {
                if k < qb {
                    assert(c[k] == b[k]);
                } else {
                    assert(c[k] == b[k + 1]);
                }
            }
        } else {
            assert(all_digits(b));
            assert(c == b);
        }
        assert(all_digits(c));
        assert(valid_number(s, fraction_ok));
    }
    let count: usize = if has_point { n - start - 1 } else { n - start };
    assert(count == c.len());
    let mut acc: i128 = 0;
    let mut k: usize = 0;
    while k < count
        invariant
            k <= count,
            count == c.len(),
            all_digits(c),
            acc == digits_value(c.take(k as int)),
            n == s.len(),
            s == text@,
            c == number_digits(s),
            has_point ==> c =~= b.take(qb) + b.skip(qb + 1),
            !has_point ==> c == b,
            b =~= s.subrange(start as int, n as int),
            qb == q - start,
            has_point ==> start < q < n - 1,
            has_point ==> count == n - start - 1,
            !has_point ==> count == n - start,
            valid_number(s, fraction_ok),
            start == (if neg { 1int } else { 0int }),
            neg == is_negative_text(s),
        decreases count - k,
    {
        let pos: usize = if has_point && k >= q - start { start + k + 1 } else { start + k };
        let ch = text.get_char(pos);
        assert(ch == c[k as int]);
        assert(is_digit(c[k as int]));
        let d: i128 = (ch as u32 - '0' as u32) as i128;
        proof {
            assert(c.take(k + 1).drop_last() =~= c.take(k as int));
            lemma_digits_prefix_monotone(c, k + 1, c.len() as int);
            assert(c.take(c.len() as int) =~= c);
        }
        let m = acc.checked_mul(10);
        match m {
            Some(m) => match m.checked_add(d) {
                Some(v) => {
                    acc = v;
                },
                None => {
                    return Err(ErrorKind::Overflow);
                },
            },
            None => {
                proof {
                    assert(acc >= 0);
                }
                return Err(ErrorKind::Overflow);
            },
        }
        k = k + 1;
    }
    assert(c.take(count as int) =~= c);
    proof {
        lemma_digits_prefix_monotone(c, 0, c.len() as int);
    }
    let scale: usize = if has_point { n - q - 1 } else { 0 };
    let mantissa: i128 = if neg { -acc } else { acc };
    Ok(Decimal { mantissa, scale })
}

fn digit_to_char(d: u128) -> (c: char)
    requires
        d < 10,
    ensures
        c == digit_char(d as nat),
{
    if d == 0 {
        '0'
    } else if d == 1 {
        '1'
    } else if d == 2 {
        '2'
    } else if d == 3 {
        '3'
    } else if d == 4 {
        '4'
    } else if d == 5 {
        '5'
    } else if d == 6 {
        '6'
    } else if d == 7 {
        '7'
    } else if d == 8 {
        '8'
    } else {
        '9'
    }
}

fn push_all(out: &mut String, cs: &Vec<char>)
    ensures
        final(out)@ == old(out)@ + cs@,
{
    let mut i: usize = 0;
    while i < cs.len()
        invariant
            i <= cs@.len(),
            out@ == old(out)@ + cs@.take(i as int),
        decreases cs@.len() - i,
    {
        out.push(cs[i]);
        assert(cs@.take(i + 1) =~= cs@.take(i as int).push(cs@[i as int]));
        i = i + 1;
    }
    assert(cs@.take(cs@.len() as int) =~= cs@);
}

/// The shortest text of `m / 10^s`.
pub fn canonical_string(m: i128, s: usize) -> (r: String)
    ensures
        r@ == canonical_text(m as int, s as nat),
{
    let neg = m < 0;
    let mut a: u128 = if neg { ((-(m + 1)) as u128) + 1 } else { m as u128 };
    assert(a == abs(m as int));
    let mut t: usize = s;
    while t > 0 && a % 10 == 0
        invariant
            trim(abs(m as int), s as nat) == trim(a as nat, t as nat),
        decreases t,
    {
        a = a / 10;
        t = t - 1;
    }
    assert(trim(a as nat, t as nat) == (a as nat, t as nat));
    let mut frac: Vec<char> = Vec::new();
    let mut x: u128 = a;
    let mut k: usize = 0;
    while k < t
        invariant
            k <= t,
            fixed_digits(a as nat, t as nat) == fixed_digits(x as nat, (t - k) as nat) + frac@,
            shift_down(a as nat, t as nat) == shift_down(x as nat, (t - k) as nat),
        decreases t - k,
    {
        let ghost before = frac@;
        frac.insert(0, digit_to_char(x % 10));
        assert(fixed_digits((x / 10) as nat, (t - k - 1) as nat) + frac@ =~= fixed_digits(
            x as nat,
            (t - k) as nat,
        ) + before);
        x = x / 10;
        k = k + 1;
    }
    assert(fixed_digits(x as nat, 0) + frac@ =~= frac@);
    let ghost top = x;
    let mut whole: Vec<char> = Vec::new();
    while x >= 10
        invariant
            nat_digits(top as nat) == nat_digits(x as nat) + whole@,
        decreases x,
    {
        let ghost before = whole@;
        whole.insert(0, digit_to_char(x % 10));
        assert(nat_digits((x / 10) as nat) + whole@ =~= nat_digits(x as nat) + before);
        x = x / 10;
    }
    whole.insert(0, digit_to_char(x));
    let mut out = String::new();
    if neg {
        out.push('-');
    }
    push_all(&mut out, &whole);
    if t > 0 {
        out.push('.');
        push_all(&mut out, &frac);
    }
    proof {
        let body = magnitude_text(a as nat, t as nat);
        if neg {
            assert(out@ =~= seq!['-'] + body);
        } else {
            assert(out@ =~= body);
        }
    }
    out
}

proof fn lemma_scale_fits_prefix(m: int, j: nat, k: nat)
    requires
        j <= k,
        scale_fits(m, k),
    ensures
        scale_fits(m, j),
    decreases k,
{
    if j < k {
        lemma_scale_fits_prefix(m, j, (k - 1) as nat);
    }
}

/// `m * 10^k`, or `None` where a step does not fit.
fn scale_up_checked(m: i128, k: usize) -> (r: Option<i128>)
    ensures
        r is Some <==> scale_fits(m as int, k as nat),
        r matches Some(v) ==> v == scale_up(m as int, k as nat),
{
    let mut x: i128 = m;
    let mut j: usize = 0;
    while j < k
        invariant
            j <= k,
            x == scale_up(m as int, j as nat),
            scale_fits(m as int, j as nat),
        decreases k - j,
    {
        match x.checked_mul(10) {
            Some(y) => {
                x = y;
            },
            None => {
                proof {
                    if scale_fits(m as int, k as nat) {
                        lemma_scale_fits_prefix(m as int, (j + 1) as nat, k as nat);
                    }
                }
                return None;
            },
        }
        j = j + 1;
    }
    Some(x)
}

/// `a + b` (or `a - b`) exactly, or `None` where an intermediate does not fit.
pub fn combine_checked(a: Decimal, b: Decimal, subtract: bool) -> (r: Option<Decimal>)
    ensures
        r is Some <==> combine_fits(a@, b@, subtract),
        r matches Some(d) ==> d@ == combine(a@, b@, subtract),
{
    let s = if a.scale >= b.scale { a.scale } else { b.scale };
    let x = match scale_up_checked(a.mantissa, s - a.scale) {
        Some(x) => x,
        None => { return None; },
    };
    let y = match scale_up_checked(b.mantissa, s - b.scale) {
        Some(y) => y,
        None => { return None; },
    };
    let v = if subtract { x.checked_sub(y) } else { x.checked_add(y) };
    match v {
        Some(v) => Some(Decimal { mantissa: v, scale: s }),
        None => None,
    }
}

pub open spec fn decimal_views(nums: Seq<Decimal>) -> Seq<(int, nat)> {
    nums.map_values(|d: Decimal| d@)
}

proof fn lemma_fold_fits_prefix(v: Seq<(int, nat)>, subtract: bool, i: int)
    requires
        1 <= i <= v.len(),
        fold_fits(v, subtract),
    ensures
        fold_fits(v.take(i), subtract),
    decreases v.len(),
{
    if i < v.len() {
        lemma_fold_fits_prefix(v.drop_last(), subtract, i);
        assert(v.drop_last().take(i) =~= v.take(i));
    } else {
        assert(v.take(i) =~= v);
    }
}

/// The left-to-right sum (or difference) of `nums`, or `None` where a step
/// does not fit.
pub fn fold_checked(nums: &Vec<Decimal>, subtract: bool) -> (r: Option<Decimal>)
    requires
        nums@.len() >= 1,
    ensures
        r is Some <==> fold_fits(decimal_views(nums@), subtract),
        r matches Some(d) ==> d@ == fold_numbers(decimal_views(nums@), subtract),
{
    let ghost v = decimal_views(nums@);
    let mut acc = nums[0];
    let mut i: usize = 1;
    assert(v.take(1) =~= seq![v[0]]);
    while i < nums.len()
        invariant
            1 <= i <= nums@.len(),
            v == decimal_views(nums@),
            acc@ == fold_numbers(v.take(i as int), subtract),
            fold_fits(v.take(i as int), subtract),
        decreases nums@.len() - i,
    {
        assert(v.take(i + 1).drop_last() =~= v.take(i as int));
        match combine_checked(acc, nums[i], subtract) {
            Some(d) => {
                acc = d;
            },
            None => {
                proof {
                    if fold_fits(v, subtract) {
                        lemma_fold_fits_prefix(v, subtract, i + 1);
                    }
                }
                return None;
            },
        }
        i = i + 1;
    }
    assert(v.take(nums@.len() as int) =~= v);
    Some(acc)
}

} // verus!
