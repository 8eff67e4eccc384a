//! Arbitrary-precision signed integers.
//!
//! An [`Integer`] keeps its magnitude as decimal digits, most significant
//! first, without leading zeros. Its view is the mathematical integer it
//! denotes; every operation is stated over that view.

use vstd::prelude::*;

verus! {

/// The number denoted by decimal digits, most significant first.
pub open spec fn digits_value(d: Seq<u8>) -> nat
    decreases d.len(),
{
    if d.len() == 0 {
        0
    } else {
        digits_value(d.drop_last()) * 10 + d.last() as nat
    }
}

/// Every element is a decimal digit.
pub open spec fn all_digits(d: Seq<u8>) -> bool {
    forall|i: int| 0 <= i < d.len() ==> d[i] < 10
}

/// Decimal digits without a leading zero. The empty sequence stands for zero.
pub open spec fn canonical(d: Seq<u8>) -> bool {
    all_digits(d) && (d.len() > 0 ==> d[0] != 0)
}

/// The digits that remain once leading zeros are dropped.
pub open spec fn strip_zeros(d: Seq<u8>) -> Seq<u8>
    decreases d.len(),
{
    if d.len() > 0 && d[0] == 0 {
        strip_zeros(d.drop_first())
    } else {
        d
    }
}

/// The signed number that a sign flag and a magnitude denote.
pub open spec fn signed_value(negative: bool, d: Seq<u8>) -> int {
    if negative {
        -(digits_value(d) as int)
    } else {
        digits_value(d) as int
    }
}

/// The sign of `a - b`: -1, 0 or 1.
pub open spec fn sign_of_difference(a: int, b: int) -> int {
    if a < b {
        -1
    } else if a == b {
        0
    } else {
        1
    }
}

pub proof fn lemma_digits_value_take_step(d: Seq<u8>, i: int)
    requires
        0 <= i < d.len(),
    ensures
        digits_value(d.take(i + 1)) == digits_value(d.take(i)) * 10 + d[i] as nat,
{
    assert(d.take(i + 1).drop_last() =~= d.take(i));
}

pub proof fn lemma_leading_zero(d: Seq<u8>)
    requires
        d.len() > 0,
        d[0] == 0,
    ensures
        digits_value(d) == digits_value(d.drop_first()),
    decreases d.len(),
{
    if d.len() == 1 {
        assert(d.drop_last() =~= Seq::<u8>::empty());
        assert(d.drop_first() =~= Seq::<u8>::empty());
    } else {
        lemma_leading_zero(d.drop_last());
        assert(d.drop_last().drop_first() =~= d.drop_first().drop_last());
    }
}

pub proof fn lemma_strip_zeros(d: Seq<u8>)
    requires
        all_digits(d),
    ensures
        canonical(strip_zeros(d)),
        digits_value(strip_zeros(d)) == digits_value(d),
        strip_zeros(d).len() <= d.len(),
    decreases d.len(),
{
    if d.len() > 0 && d[0] == 0 {
        lemma_leading_zero(d);
        lemma_strip_zeros(d.drop_first());
    }
}

pub proof fn lemma_canonical_positive(d: Seq<u8>)
    requires
        canonical(d),
        d.len() > 0,
    ensures
        digits_value(d) > 0,
    decreases d.len(),
{
    if d.len() > 1 {
        lemma_canonical_positive(d.drop_last());
    }
}

/// Of two magnitudes, the shorter one is smaller when the longer has no
/// leading zero.
pub proof fn lemma_shorter_is_smaller(a: Seq<u8>, b: Seq<u8>)
    requires
        all_digits(a),
        canonical(b),
        a.len() < b.len(),
    ensures
        digits_value(a) < digits_value(b),
    decreases a.len(),
{
    if a.len() == 0 {
        lemma_canonical_positive(b);
    } else {
        lemma_shorter_is_smaller(a.drop_last(), b.drop_last());
    }
}

/// Two magnitudes of one length that agree on their first `i` digits and
/// differ at digit `i` compare as those digits do, whatever follows.
pub proof fn lemma_first_difference(a: Seq<u8>, b: Seq<u8>, i: int, j: int)
    requires
        all_digits(a),
        all_digits(b),
        a.len() == b.len(),
        0 <= i < j <= a.len(),
        a.take(i) == b.take(i),
        a[i] < b[i],
    ensures
        digits_value(a.take(j)) < digits_value(b.take(j)),
    decreases j,
{
    lemma_digits_value_take_step(a, j - 1);
    lemma_digits_value_take_step(b, j - 1);
    if j > i + 1 {
        lemma_first_difference(a, b, i, j - 1);
    }
}

/// Canonical magnitudes are equal exactly when their values are.
pub proof fn lemma_canonical_unique(a: Seq<u8>, b: Seq<u8>)
    requires
        canonical(a),
        canonical(b),
        digits_value(a) == digits_value(b),
    ensures
        a == b,
    decreases a.len(),
{
    if a.len() < b.len() {
        lemma_shorter_is_smaller(a, b);
    } else if b.len() < a.len() {
        lemma_shorter_is_smaller(b, a);
    } else if a.len() > 0 {
        lemma_canonical_unique_prefix(a.drop_last(), b.drop_last());
        assert(a =~= a.drop_last().push(a.last()));
        assert(b =~= b.drop_last().push(b.last()));
    } else {
        assert(a =~= b);
    }
}

proof fn lemma_canonical_unique_prefix(a: Seq<u8>, b: Seq<u8>)
    requires
        all_digits(a),
        all_digits(b),
        a.len() == b.len(),
        digits_value(a) == digits_value(b),
    ensures
        a == b,
    decreases a.len(),
{
    if a.len() > 0 {
        lemma_canonical_unique_prefix(a.drop_last(), b.drop_last());
        assert(a =~= a.drop_last().push(a.last()));
        assert(b =~= b.drop_last().push(b.last()));
    } else {
        assert(a =~= b);
    }
}


/// The digits of `a + b + carry`, most significant first.
pub open spec fn add_digits(a: Seq<u8>, b: Seq<u8>, carry: nat) -> Seq<u8>
    decreases a.len() + b.len(),
{
    if a.len() == 0 && b.len() == 0 {
        if carry == 0 {
            Seq::<u8>::empty()
        } else {
            seq![carry as u8]
        }
    } else {
        let da: nat = if a.len() > 0 { a.last() as nat } else { 0 };
        let db: nat = if b.len() > 0 { b.last() as nat } else { 0 };
        let sum = da + db + carry;
        add_digits(shorten(a), shorten(b), sum / 10).push((sum % 10) as u8)
    }
}

/// A sequence without its last element; the empty sequence stays empty.
pub open spec fn shorten(d: Seq<u8>) -> Seq<u8> {
    if d.len() > 0 {
        d.drop_last()
    } else {
        d
    }
}

/// The digits of `a - b - borrow`, most significant first and as long as `a`.
pub open spec fn sub_digits(a: Seq<u8>, b: Seq<u8>, borrow: nat) -> Seq<u8>
    decreases a.len(),
{
    if a.len() == 0 {
        Seq::<u8>::empty()
    } else {
        let db: nat = if b.len() > 0 { b.last() as nat } else { 0 };
        let diff = a.last() as int - db as int - borrow as int;
        if diff < 0 {
            sub_digits(a.drop_last(), shorten(b), 1).push((diff + 10) as u8)
        } else {
            sub_digits(a.drop_last(), shorten(b), 0).push(diff as u8)
        }
    }
}

/// The digits of a natural number, most significant first; none for zero.
pub open spec fn nat_digits(n: nat) -> Seq<u8>
    decreases n,
{
    if n == 0 {
        Seq::<u8>::empty()
    } else {
        nat_digits(n / 10).push((n % 10) as u8)
    }
}

pub proof fn lemma_add_digits(a: Seq<u8>, b: Seq<u8>, carry: nat)
    requires
        all_digits(a),
        all_digits(b),
        carry <= 1,
    ensures
        all_digits(add_digits(a, b, carry)),
        digits_value(add_digits(a, b, carry)) == digits_value(a) + digits_value(b) + carry,
    decreases a.len() + b.len(),
{
    if a.len() == 0 && b.len() == 0 {
        if carry != 0 {
            let one = seq![carry as u8];
            assert(one.drop_last() =~= Seq::<u8>::empty());
            assert(one.len() == 1 && one.last() == 1);
            assert(digits_value(one) == digits_value(one.drop_last()) * 10 + 1);
        }
    } else {
        let da: nat = if a.len() > 0 { a.last() as nat } else { 0 };
        let db: nat = if b.len() > 0 { b.last() as nat } else { 0 };
        let sum = da + db + carry;
        let rest = add_digits(shorten(a), shorten(b), sum / 10);
        lemma_add_digits(shorten(a), shorten(b), sum / 10);
        let r = rest.push((sum % 10) as u8);
        assert(r.drop_last() =~= rest);
        assert(r.last() == (sum % 10) as u8);
        assert(digits_value(r) == digits_value(rest) * 10 + (sum % 10));
        assert(digits_value(a) == digits_value(shorten(a)) * 10 + da);
        assert(digits_value(b) == digits_value(shorten(b)) * 10 + db);
        assert(add_digits(a, b, carry) == r);
    }
}

pub proof fn lemma_sub_digits(a: Seq<u8>, b: Seq<u8>, borrow: nat)
    requires
        all_digits(a),
        all_digits(b),
        b.len() <= a.len(),
        borrow <= 1,
        digits_value(a) >= digits_value(b) + borrow,
    ensures
        all_digits(sub_digits(a, b, borrow)),
        sub_digits(a, b, borrow).len() == a.len(),
        digits_value(sub_digits(a, b, borrow)) == digits_value(a) - digits_value(b) - borrow,
    decreases a.len(),
{
    if a.len() > 0 {
        let db: nat = if b.len() > 0 { b.last() as nat } else { 0 };
        let diff = a.last() as int - db as int - borrow as int;
        let next: nat = if diff < 0 { 1 } else { 0 };
        let digit: u8 = if diff < 0 { (diff + 10) as u8 } else { diff as u8 };
        let rest = sub_digits(a.drop_last(), shorten(b), next);
        lemma_sub_digits(a.drop_last(), shorten(b), next);
        assert(rest.push(digit).drop_last() =~= rest);
    }
}

pub proof fn lemma_nat_digits(n: nat)
    ensures
        canonical(nat_digits(n)),
        digits_value(nat_digits(n)) == n,
    decreases n,
{
    if n != 0 {
        lemma_nat_digits(n / 10);
        let rest = nat_digits(n / 10);
        assert(rest.push((n % 10) as u8).drop_last() =~= rest);
        if rest.len() > 0 {
            assert(rest.push((n % 10) as u8)[0] == rest[0]);
        }
    }
}

/// The canonical digits of a value are the digits of that number.
pub proof fn lemma_canonical_is_nat_digits(d: Seq<u8>)
    requires
        canonical(d),
    ensures
        nat_digits(digits_value(d)) == d,
{
    lemma_nat_digits(digits_value(d));
    lemma_canonical_unique(nat_digits(digits_value(d)), d);
}


/// Appends one character to a string, by `String::push`: the text grows by
/// exactly that character.
#[verifier::external_body]
pub(crate) fn push_char(text: &mut String, c: char)
    ensures
        final(text)@ == old(text)@.push(c),
{
    text.push(c);
}

fn reversed(v: &Vec<u8>) -> (r: Vec<u8>)
    ensures
        r@ == v@.reverse(),
{
    let mut r: Vec<u8> = Vec::new();
    let mut i: usize = v.len();
    while i > 0
        invariant
            i <= v.len(),
            r@.len() == v.len() - i,
            forall|k: int| 0 <= k < r@.len() ==> r@[k] == v@[v.len() - 1 - k],
        decreases i,
    {
        i = i - 1;
        r.push(v[i]);
    }
    assert(r@ =~= v@.reverse());
    r
}

fn strip(v: Vec<u8>) -> (r: Vec<u8>)
    ensures
        r@ == strip_zeros(v@),
{
    let mut start: usize = 0;
    assert(v@.skip(0) =~= v@);
    while start < v.len() && v[start] == 0
        invariant
            start <= v.len(),
            strip_zeros(v@) == strip_zeros(v@.skip(start as int)),
        decreases v.len() - start,
    {
        assert(v@.skip(start as int).drop_first() =~= v@.skip(start as int + 1));
        start = start + 1;
    }
    if start == 0 {
        assert(v@.skip(0) =~= v@);
        return v;
    }
    let mut r: Vec<u8> = Vec::new();
    let mut i: usize = start;
    while i < v.len()
        invariant
            start <= i <= v.len(),
            r@ == v@.subrange(start as int, i as int),
        decreases v.len() - i,
    {
        r.push(v[i]);
        i = i + 1;
        assert(r@ =~= v@.subrange(start as int, i as int));
    }
    assert(r@ =~= v@.skip(start as int));
    r
}

fn add_magnitudes(a: &Vec<u8>, b: &Vec<u8>) -> (r: Vec<u8>)
    requires
        all_digits(a@),
        all_digits(b@),
    ensures
        r@ == add_digits(a@, b@, 0),
{
    let mut acc: Vec<u8> = Vec::new();
    let mut i: usize = a.len();
    let mut j: usize = b.len();
    let mut carry: u8 = 0;
    assert(a@.take(i as int) =~= a@);
    assert(b@.take(j as int) =~= b@);
    assert(add_digits(a@, b@, 0) + acc@.reverse() =~= add_digits(a@, b@, 0));
    while i > 0 || j > 0
        invariant
            i <= a.len(),
            j <= b.len(),
            carry <= 1,
            all_digits(a@),
            all_digits(b@),
            add_digits(a@, b@, 0) == add_digits(a@.take(i as int), b@.take(j as int), carry as nat)
                + acc@.reverse(),
        decreases i + j,
    {
        let ghost high_a = a@.take(i as int);
        let ghost high_b = b@.take(j as int);
        let ghost before = acc@;
        let mut da: u8 = 0;
        if i > 0 {
            i = i - 1;
            da = a[i];
        }
        let mut db: u8 = 0;
        if j > 0 {
            j = j - 1;
            db = b[j];
        }
        let sum: u8 = da + db + carry;
        acc.push(sum % 10);
        carry = sum / 10;
        proof {
            assert(shorten(high_a) =~= a@.take(i as int));
            assert(shorten(high_b) =~= b@.take(j as int));
            let rest = add_digits(a@.take(i as int), b@.take(j as int), carry as nat);
            assert(add_digits(high_a, high_b, (sum - da - db) as nat) == rest.push(sum % 10));
            assert(rest.push(sum % 10) + before.reverse() =~= rest + acc@.reverse());
        }
    }
    if carry > 0 {
        let ghost before = acc@;
        acc.push(carry);
        assert(seq![carry] + before.reverse() =~= acc@.reverse());
    } else {
        assert(Seq::<u8>::empty() + acc@.reverse() =~= acc@.reverse());
    }
    reversed(&acc)
}

fn sub_magnitudes(a: &Vec<u8>, b: &Vec<u8>) -> (r: Vec<u8>)
    requires
        all_digits(a@),
        all_digits(b@),
        b.len() <= a.len(),
        digits_value(a@) >= digits_value(b@),
    ensures
        r@ == strip_zeros(sub_digits(a@, b@, 0)),
{
    let mut acc: Vec<u8> = Vec::new();
    let mut i: usize = a.len();
    let mut j: usize = b.len();
    let mut borrow: u8 = 0;
    assert(a@.take(i as int) =~= a@);
    assert(b@.take(j as int) =~= b@);
    assert(sub_digits(a@, b@, 0) + acc@.reverse() =~= sub_digits(a@, b@, 0));
    while i > 0
        invariant
            i <= a.len(),
            j <= b.len(),
            j <= i,
            borrow <= 1,
            all_digits(a@),
            all_digits(b@),
            sub_digits(a@, b@, 0) == sub_digits(a@.take(i as int), b@.take(j as int), borrow as nat)
                + acc@.reverse(),
        decreases i,
    {
        let ghost high_a = a@.take(i as int);
        let ghost high_b = b@.take(j as int);
        let ghost before = acc@;
        let ghost old_borrow = borrow;
        i = i - 1;
        let da: u8 = a[i];
        let mut db: u8 = 0;
        if j > 0 {
            j = j - 1;
            db = b[j];
        }
        let digit: u8;
        if da < db + borrow {
            digit = da + 10 - db - borrow;
            borrow = 1;
        } else {
            digit = da - db - borrow;
            borrow = 0;
        }
        acc.push(digit);
        proof {
            assert(high_a.drop_last() =~= a@.take(i as int));
            assert(shorten(high_b) =~= b@.take(j as int));
            let rest = sub_digits(a@.take(i as int), b@.take(j as int), borrow as nat);
            assert(sub_digits(high_a, high_b, old_borrow as nat) == rest.push(digit));
            assert(rest.push(digit) + before.reverse() =~= rest + acc@.reverse());
        }
    }
    assert(sub_digits(a@.take(0), b@.take(j as int), borrow as nat) + acc@.reverse()
        =~= acc@.reverse());
    strip(reversed(&acc))
}

/// Compares two magnitudes without leading zeros: -1, 0 or 1 as the first is
/// smaller than, equal to or greater than the second.
fn compare_magnitudes(a: &Vec<u8>, b: &Vec<u8>) -> (r: i8)
    requires
        canonical(a@),
        canonical(b@),
    ensures
        r as int == sign_of_difference(digits_value(a@) as int, digits_value(b@) as int),
{
    if a.len() < b.len() {
        proof {
            lemma_shorter_is_smaller(a@, b@);
        }
        return -1;
    }
    if a.len() > b.len() {
        proof {
            lemma_shorter_is_smaller(b@, a@);
        }
        return 1;
    }
    let mut i: usize = 0;
    while i < a.len()
        invariant
            i <= a.len(),
            a.len() == b.len(),
            canonical(a@),
            canonical(b@),
            a@.take(i as int) == b@.take(i as int),
        decreases a.len() - i,
    {
        if a[i] < b[i] {
            proof {
                lemma_first_difference(a@, b@, i as int, a.len() as int);
                assert(a@.take(a.len() as int) =~= a@);
                assert(b@.take(b.len() as int) =~= b@);
            }
            return -1;
        }
        if a[i] > b[i] {
            proof {
                lemma_first_difference(b@, a@, i as int, a.len() as int);
                assert(a@.take(a.len() as int) =~= a@);
                assert(b@.take(b.len() as int) =~= b@);
            }
            return 1;
        }
        assert(a@.take(i as int + 1) =~= a@.take(i as int).push(a@[i as int]));
        assert(b@.take(i as int + 1) =~= b@.take(i as int).push(b@[i as int]));
        i = i + 1;
    }
    assert(a@.take(a.len() as int) =~= a@);
    assert(b@.take(b.len() as int) =~= b@);
    0
}

/// The digits of a machine integer, most significant first.
fn digits_of(n: u64) -> (digits: Vec<u8>)
    ensures
        canonical(digits@),
        digits_value(digits@) == n,
{
    let mut rest: u64 = n;
    let mut acc: Vec<u8> = Vec::new();
    assert(nat_digits(rest as nat) + acc@.reverse() =~= nat_digits(n as nat));
    while rest > 0
        invariant
            nat_digits(n as nat) == nat_digits(rest as nat) + acc@.reverse(),
        decreases rest,
    {
        let ghost before = acc@;
        let ghost prior = rest;
        acc.push((rest % 10) as u8);
        rest = rest / 10;
        proof {
            let high = nat_digits(rest as nat);
            assert(nat_digits(prior as nat) == high.push((prior % 10) as u8));
            assert(high.push((prior % 10) as u8) + before.reverse() =~= high + acc@.reverse());
        }
    }
    assert(nat_digits(0) + acc@.reverse() =~= acc@.reverse());
    proof {
        lemma_nat_digits(n as nat);
    }
    reversed(&acc)
}

fn copy_digits(v: &Vec<u8>) -> (r: Vec<u8>)
    ensures
        r@ == v@,
{
    let mut r: Vec<u8> = Vec::new();
    let mut i: usize = 0;
    while i < v.len()
        invariant
            i <= v.len(),
            r@ == v@.take(i as int),
        decreases v.len() - i,
    {
        r.push(v[i]);
        i = i + 1;
        assert(r@ =~= v@.take(i as int));
    }
    assert(v@.take(v.len() as int) =~= v@);
    r
}


/// The character that shows a decimal digit.
pub open spec fn digit_char(d: u8) -> char {
    if d == 0 {
        '0'
    } else if d == 1 {
        '1'
    } else if d == 2 {
        '2'
    } else if d == 3 {
        '3'
    } else if d == 4 {
        '4'
    } else if d == 5 {
        '5'
    } else if d == 6 {
        '6'
    } else if d == 7 {
        '7'
    } else if d == 8 {
        '8'
    } else {
        '9'
    }
}

/// The characters that show a run of decimal digits.
pub open spec fn digits_text(d: Seq<u8>) -> Seq<char> {
    Seq::new(d.len(), |i: int| digit_char(d[i]))
}

/// The decimal text of an integer: `0` for zero, else a minus sign where the
/// number is negative and then its digits without leading zeros.
pub open spec fn decimal_text(n: int) -> Seq<char> {
    if n == 0 {
        seq!['0']
    } else if n < 0 {
        seq!['-'] + digits_text(nat_digits((-n) as nat))
    } else {
        digits_text(nat_digits(n as nat))
    }
}

/// What a scan of decimal text has seen so far.
pub struct Scan {
    /// No character was refused yet.
    pub valid: bool,
    /// A sign was read.
    pub signed: bool,
    /// The sign read was a minus.
    pub negative: bool,
    /// At least one digit was read.
    pub seen_digit: bool,
    /// The number that the digits read so far denote.
    pub magnitude: nat,
}

/// The six ASCII whitespace characters, which a scan passes over.
pub open spec fn is_blank(c: char) -> bool {
    c == ' ' || c == '\t' || c == '\n' || c == '\u{b}' || c == '\u{c}' || c == '\r'
}

/// The value of a decimal digit character.
pub open spec fn digit_of(c: char) -> nat
    recommends
        '0' <= c <= '9',
{
    (c as nat - '0' as nat) as nat
}

/// The scan after one more character. One sign may come before the first
/// digit; an underscore is passed over once a digit was read; whitespace is
/// passed over anywhere; every other character but a digit is refused.
pub open spec fn scan_step(st: Scan, c: char) -> Scan {
    if !st.valid {
        st
    } else if c == '+' && !st.signed && !st.seen_digit {
        Scan { signed: true, ..st }
    } else if c == '-' && !st.signed && !st.seen_digit {
        Scan { signed: true, negative: true, ..st }
    } else if c == '_' && st.seen_digit {
        st
    } else if is_blank(c) {
        st
    } else if '0' <= c <= '9' {
        Scan { seen_digit: true, magnitude: st.magnitude * 10 + digit_of(c), ..st }
    } else {
        Scan { valid: false, ..st }
    }
}

/// The scan of a whole text, character by character from the left.
pub open spec fn scan_text(text: Seq<char>) -> Scan
    decreases text.len(),
{
    if text.len() == 0 {
        Scan { valid: true, signed: false, negative: false, seen_digit: false, magnitude: 0 }
    } else {
        scan_step(scan_text(text.drop_last()), text.last())
    }
}

/// The integer that a decimal text denotes, if it denotes one: no character
/// may be refused and at least one digit must occur.
pub open spec fn parse_decimal(text: Seq<char>) -> Option<int> {
    let st = scan_text(text);
    if st.valid && st.seen_digit {
        Some(if st.negative { -(st.magnitude as int) } else { st.magnitude as int })
    } else {
        None
    }
}

pub proof fn lemma_scan_refuses_non_ascii(text: Seq<char>, k: int)
    requires
        0 <= k < text.len(),
        !('\0' <= text[k] <= '\u{7f}'),
    ensures
        !scan_text(text).valid,
    decreases text.len(),
{
    if k < text.len() - 1 {
        lemma_scan_refuses_non_ascii(text.drop_last(), k);
    }
}

/// Scanning a run of digits that follows an optional minus sign reads the
/// number those digits denote.
pub proof fn lemma_scan_digits(negative: bool, d: Seq<u8>)
    requires
        all_digits(d),
    ensures
        scan_text(sign_text(negative) + digits_text(d)) == (Scan {
            valid: true,
            signed: negative,
            negative: negative,
            seen_digit: d.len() > 0,
            magnitude: digits_value(d),
        }),
    decreases d.len(),
{
    let text = sign_text(negative) + digits_text(d);
    if d.len() == 0 {
        assert(text =~= sign_text(negative));
        if negative {
            assert(text.drop_last() =~= Seq::<char>::empty());
            assert(text.last() == '-');
            assert(scan_text(text.drop_last()).valid);
        }
    } else {
        lemma_scan_digits(negative, d.drop_last());
        assert(text.drop_last() =~= sign_text(negative) + digits_text(d.drop_last()));
        assert(text.last() == digit_char(d.last()));
        assert(digit_of(digit_char(d.last())) == d.last());
    }
}

/// The text of a sign: a minus for a negative number, nothing otherwise.
pub open spec fn sign_text(negative: bool) -> Seq<char> {
    if negative {
        seq!['-']
    } else {
        Seq::<char>::empty()
    }
}

/// Reading back the decimal text of an integer gives that integer.
pub proof fn lemma_parse_decimal_text(n: int)
    ensures
        parse_decimal(decimal_text(n)) == Some(n),
{
    if n == 0 {
        let d = seq![0u8];
        lemma_scan_digits(false, d);
        assert(sign_text(false) + digits_text(d) =~= seq!['0']);
        assert(d.drop_last() =~= Seq::<u8>::empty());
        assert(digits_value(d) == digits_value(d.drop_last()) * 10 + 0);
    } else if n < 0 {
        lemma_nat_digits((-n) as nat);
        lemma_scan_digits(true, nat_digits((-n) as nat));
    } else {
        lemma_nat_digits(n as nat);
        lemma_scan_digits(false, nat_digits(n as nat));
        assert(sign_text(false) + digits_text(nat_digits(n as nat)) =~= decimal_text(n));
    }
}


/// An arbitrary-precision signed integer.
#[derive(Debug, PartialEq, Eq)]
pub struct Integer {
    negative: bool,
    digits: Vec<u8>,
}

impl View for Integer {
    type V = int;

    closed spec fn view(&self) -> int {
        signed_value(self.negative, self.digits@)
    }
}

impl Clone for Integer {
    fn clone(&self) -> (r: Self)
        ensures
            r@ == self@,
    {
        proof {
            use_type_invariant(self);
        }
        Integer { negative: self.negative, digits: copy_digits(&self.digits) }
    }
}

impl Integer {
    #[verifier::type_invariant]
    spec fn well_formed(self) -> bool {
        canonical(self.digits@) && (self.digits@.len() == 0 ==> !self.negative)
    }

    /// The integer with the given sign and magnitude.
    fn from_parts(negative: bool, digits: Vec<u8>) -> (r: Integer)
        requires
            canonical(digits@),
        ensures
            r@ == signed_value(negative, digits@),
    {
        let negative = negative && digits.len() > 0;
        Integer { negative, digits }
    }

    pub fn zero() -> (r: Integer)
        ensures
            r@ == 0,
    {
        Integer { negative: false, digits: Vec::new() }
    }

    pub fn from_u64(n: u64) -> (r: Integer)
        ensures
            r@ == n,
    {
        Integer::from_parts(false, digits_of(n))
    }

    pub fn from_i64(n: i64) -> (r: Integer)
        ensures
            r@ == n,
    {
        let magnitude: u64 = if n < 0 {
            (-(n + 1)) as u64 + 1
        } else {
            n as u64
        };
        Integer::from_parts(n < 0, digits_of(magnitude))
    }

    pub fn is_zero(&self) -> (r: bool)
        ensures
            r == (self@ == 0),
    {
        proof {
            use_type_invariant(self);
            if self.digits@.len() > 0 {
                lemma_canonical_positive(self.digits@);
            }
        }
        self.digits.len() == 0
    }

    pub fn is_negative(&self) -> (r: bool)
        ensures
            r == (self@ < 0),
    {
        proof {
            use_type_invariant(self);
            if self.digits@.len() > 0 {
                lemma_canonical_positive(self.digits@);
            }
        }
        self.negative
    }

    /// The sum of a number given by sign and magnitude and this one.
    fn combine(&self, negative: bool, digits: &Vec<u8>) -> (r: Integer)
        requires
            canonical(digits@),
        ensures
            r@ == self@ + signed_value(negative, digits@),
    {
        proof {
            use_type_invariant(self);
        }
        if self.negative == negative {
            let sum = add_magnitudes(&self.digits, digits);
            proof {
                lemma_add_digits(self.digits@, digits@, 0);
                lemma_strip_zeros(sum@);
            }
            Integer::from_parts(negative, strip(sum))
        } else {
            let order = compare_magnitudes(&self.digits, digits);
            if order == 0 {
                Integer::zero()
            } else if order > 0 {
                proof {
                    if self.digits@.len() < digits@.len() {
                        lemma_shorter_is_smaller(self.digits@, digits@);
                    }
                    lemma_sub_digits(self.digits@, digits@, 0);
                    lemma_strip_zeros(sub_digits(self.digits@, digits@, 0));
                }
                let difference = sub_magnitudes(&self.digits, digits);
                Integer::from_parts(self.negative, difference)
            } else {
                proof {
                    if digits@.len() < self.digits@.len() {
                        lemma_shorter_is_smaller(digits@, self.digits@);
                    }
                    lemma_sub_digits(digits@, self.digits@, 0);
                    lemma_strip_zeros(sub_digits(digits@, self.digits@, 0));
                }
                let difference = sub_magnitudes(digits, &self.digits);
                Integer::from_parts(negative, difference)
            }
        }
    }

    pub fn add(&self, other: &Integer) -> (r: Integer)
        ensures
            r@ == self@ + other@,
    {
        proof {
            use_type_invariant(other);
        }
        self.combine(other.negative, &other.digits)
    }

    pub fn sub(&self, other: &Integer) -> (r: Integer)
        ensures
            r@ == self@ - other@,
    {
        proof {
            use_type_invariant(other);
        }
        self.combine(!other.negative, &other.digits)
    }

    pub fn abs(&self) -> (r: Integer)
        ensures
            r@ == if self@ < 0 { -self@ } else { self@ },
    {
        proof {
            use_type_invariant(self);
        }
        Integer { negative: false, digits: copy_digits(&self.digits) }
    }

    /// Compares two integers: -1, 0 or 1 as this one is smaller than, equal
    /// to or greater than the other.
    pub fn compare(&self, other: &Integer) -> (r: i8)
        ensures
            r as int == sign_of_difference(self@, other@),
    {
        proof {
            use_type_invariant(self);
            use_type_invariant(other);
            if self.digits@.len() > 0 {
                lemma_canonical_positive(self.digits@);
            }
            if other.digits@.len() > 0 {
                lemma_canonical_positive(other.digits@);
            }
        }
        if self.negative != other.negative {
            if self.negative {
                -1
            } else {
                1
            }
        } else if self.negative {
            compare_magnitudes(&other.digits, &self.digits)
        } else {
            compare_magnitudes(&self.digits, &other.digits)
        }
    }

    pub fn equals(&self, other: &Integer) -> (r: bool)
        ensures
            r == (self@ == other@),
    {
        self.compare(other) == 0
    }

    /// The decimal text of the integer.
    pub fn to_decimal(&self) -> (r: String)
        ensures
            r@ == decimal_text(self@),
    {
        proof {
            use_type_invariant(self);
            lemma_canonical_is_nat_digits(self.digits@);
            if self.digits@.len() > 0 {
                lemma_canonical_positive(self.digits@);
            }
        }
        let mut text = String::new();
        if self.digits.len() == 0 {
            push_char(&mut text, '0');
            assert(text@ =~= seq!['0']);
            return text;
        }
        if self.negative {
            push_char(&mut text, '-');
        }
        assert(text@ =~= sign_text(self.negative));
        let mut i: usize = 0;
        while i < self.digits.len()
            invariant
                i <= self.digits.len(),
                all_digits(self.digits@),
                text@ == sign_text(self.negative) + digits_text(self.digits@.take(i as int)),
            decreases self.digits.len() - i,
        {
            let d = self.digits[i];
            let c = if d == 0 {
                '0'
            } else if d == 1 {
                '1'
            } else if d == 2 {
                '2'
            } else if d == 3 {
                '3'
            } else if d == 4 {
                '4'
            } else if d == 5 {
                '5'
            } else if d == 6 {
                '6'
            } else if d == 7 {
                '7'
            } else if d == 8 {
                '8'
            } else {
                '9'
            };
            push_char(&mut text, c);
            i = i + 1;
            assert(text@ =~= sign_text(self.negative) + digits_text(self.digits@.take(i as int)));
        }
        assert(self.digits@.take(i as int) =~= self.digits@);
        assert(sign_text(false) + digits_text(self.digits@) =~= digits_text(self.digits@));
        text
    }

    /// Reads an integer from decimal text; `None` where the text denotes
    /// none.
    pub fn from_decimal(text: &str) -> (r: Option<Integer>)
        ensures
            match parse_decimal(text@) {
                Some(n) => r.is_some() && r.unwrap()@ == n,
                None => r.is_none(),
            },
    {
        if !text.is_ascii() {
            proof {
                assert(!vstd::utf8::is_ascii_chars(text@));
                let k = choose|k: int| 0 <= k < text@.len() && !('\0' <= #[trigger] text@[k] <= '\u{7f}');
                lemma_scan_refuses_non_ascii(text@, k);
            }
            return None;
        }
        let bytes = text.as_bytes();
        proof {
            vstd::string::is_ascii_spec_bytes(text);
        }
        let mut signed = false;
        let mut negative = false;
        let mut seen_digit = false;
        let mut digits: Vec<u8> = Vec::new();
        let mut i: usize = 0;
        assert(text@.take(0) =~= Seq::<char>::empty());
        while i < bytes.len()
            invariant
                i <= bytes.len(),
                bytes@.len() == text@.len(),
                forall|k: int| 0 <= k < text@.len() ==> bytes@[k] == text@[k] as u8,
                forall|k: int| 0 <= k < text@.len() ==> '\0' <= #[trigger] text@[k] <= '\u{7f}',
                canonical(digits@),
                scan_text(text@.take(i as int)) == (Scan {
                    valid: true,
                    signed,
                    negative,
                    seen_digit,
                    magnitude: digits_value(digits@),
                }),
            decreases bytes.len() - i,
        {
            let b = bytes[i];
            let ghost c = text@[i as int];
            let ghost before = scan_text(text@.take(i as int));
            proof {
                assert(text@.take(i as int + 1).drop_last() =~= text@.take(i as int));
                assert(text@.take(i as int + 1).last() == c);
                assert(scan_text(text@.take(i as int + 1)) == scan_step(before, c));
                assert(b == c as u8);
                assert('\0' <= c <= '\u{7f}');
            }
            if b == 43 && !signed && !seen_digit {
                assert(c == '+');
                signed = true;
            } else if b == 45 && !signed && !seen_digit {
                assert(c == '-');
                signed = true;
                negative = true;
            } else if b == 95 && seen_digit {
                assert(c == '_');
            } else if b == 32 || b == 9 || b == 10 || b == 11 || b == 12 || b == 13 {
                assert(is_blank(c));
            } else if 48 <= b && b <= 57 {
                assert('0' <= c <= '9');
                assert(!is_blank(c) && c != '+' && c != '-' && c != '_');
                let digit = b - 48;
                assert(digit as nat == digit_of(c));
                seen_digit = true;
                if digit > 0 || digits.len() > 0 {
                    let ghost prior = digits@;
                    digits.push(digit);
                    assert(digits@.drop_last() =~= prior);
                }
            } else {
                proof {
                    assert(!(c == '+' && !signed && !seen_digit));
                    assert(!(c == '-' && !signed && !seen_digit));
                    assert(!(c == '_' && seen_digit));
                    assert(!is_blank(c));
                    assert(!('0' <= c <= '9'));
                    assert(!scan_step(before, c).valid);
                    lemma_scan_refusal_stays(text@, i as int + 1);
                }
                return None;
            }
            i = i + 1;
        }
        assert(text@.take(i as int) =~= text@);
        if !seen_digit {
            return None;
        }
        Some(Integer::from_parts(negative, digits))
    }
}

/// Once a prefix of a text is refused, so is the whole text.
pub proof fn lemma_scan_refusal_stays(text: Seq<char>, i: int)
    requires
        0 <= i <= text.len(),
        !scan_text(text.take(i)).valid,
    ensures
        !scan_text(text).valid,
    decreases text.len() - i,
{
    if i < text.len() {
        assert(text.take(i + 1).drop_last() =~= text.take(i));
        lemma_scan_refusal_stays(text, i + 1);
    } else {
        assert(text.take(i) =~= text);
    }
}

} // verus!
