//! A 256-bit unsigned integer held as four 64-bit limbs, little-endian.
//! Node hashes and leaf commitments are values of this type; they enter the
//! contract as decimal numerals and leave it the same way.
use vstd::prelude::*;

verus! {

use vstd::arithmetic::div_mod::{
    lemma_fundamental_div_mod,
    lemma_fundamental_div_mod_converse,
};

/// 2^64, 2^128, 2^192 and 2^256 as spec-level constants.
pub open spec fn pow64() -> nat {
    0x1_0000_0000_0000_0000
}

pub open spec fn pow128() -> nat {
    pow64() * pow64()
}

pub open spec fn pow192() -> nat {
    pow128() * pow64()
}

pub open spec fn pow256() -> nat {
    pow192() * pow64()
}

/// A 256-bit unsigned integer; `w0` is the least significant limb.
#[derive(Clone, Copy, PartialEq, Eq, Structural, Debug)]
pub struct U256 {
    pub w0: u64,
    pub w1: u64,
    pub w2: u64,
    pub w3: u64,
}

impl U256 {
    /// The mathematical value of the four limbs.
    pub open spec fn value(self) -> nat {
        (self.w0 + self.w1 * pow64() + self.w2 * pow128() + self.w3 * pow192()) as nat
    }

    pub fn zero() -> (r: U256)
        ensures
            r.value() == 0,
            r == (U256 { w0: 0, w1: 0, w2: 0, w3: 0 }),
    {
        U256 { w0: 0, w1: 0, w2: 0, w3: 0 }
    }

    pub fn from_u64(v: u64) -> (r: U256)
        ensures
            r.value() == v,
    {
        U256 { w0: v, w1: 0, w2: 0, w3: 0 }
    }
}

/// Two limb vectors with the same value are the same limbs: `value` is a
/// bijection between `U256` and the naturals below 2^256.
pub proof fn lemma_value_injective(a: U256, b: U256)
    ensures
        (a == b) <==> (a.value() == b.value()),
{
    if a.value() == b.value() {
        lemma_limbs_determined(a);
        lemma_limbs_determined(b);
    }
}

/// Every `U256` value is below 2^256.
pub proof fn lemma_value_bound(a: U256)
    ensures
        a.value() < pow256(),
{
    let p = pow64() as int;
    assert(a.w0 + a.w1 * p + a.w2 * (p * p) + a.w3 * (p * p * p) < p * p * p * p)
        by (nonlinear_arith)
        requires
            0 <= a.w0 < p,
            0 <= a.w1 < p,
            0 <= a.w2 < p,
            0 <= a.w3 < p,
    ;
    assert(pow128() == p * p);
    assert(pow192() == (p * p) * p) by (nonlinear_arith)
        requires
            p == pow64(),
    ;
    assert(pow256() == ((p * p) * p) * p) by (nonlinear_arith)
        requires
            p == pow64(),
    ;
    assert(a.value() == a.w0 + a.w1 * p + a.w2 * (p * p) + a.w3 * ((p * p) * p))
        by (nonlinear_arith)
        requires
            p == pow64(),
            a.value() == a.w0 + a.w1 * pow64() + a.w2 * pow128() + a.w3 * pow192(),
            pow128() == p * p,
            pow192() == (p * p) * p,
    ;
}

/// A decimal digit and its value.
pub open spec fn is_digit(c: char) -> bool {
    '0' <= c && c <= '9'
}

pub open spec fn digit_val(c: char) -> nat {
    (c as u32 - 48) as nat
}

pub open spec fn is_dec_digits(s: Seq<char>) -> bool {
    forall|i: int| 0 <= i < s.len() ==> is_digit(#[trigger] s[i])
}

/// The value of a string of decimal digits, most significant first.
pub open spec fn dec_value(s: Seq<char>) -> nat
    decreases s.len(),
{
    if s.len() == 0 {
        0
    } else {
        dec_value(s.drop_last()) * 10 + digit_val(s.last())
    }
}

pub open spec fn digit_char(d: nat) -> char {
    (48 + d) as char
}

/// The canonical decimal numeral of a positive number; empty for zero.
pub open spec fn dec_rep_pos(v: nat) -> Seq<char>
    decreases v,
{
    if v == 0 {
        Seq::empty()
    } else {
        dec_rep_pos(v / 10).push(digit_char(v % 10))
    }
}

/// The canonical decimal numeral of a number ("0" for zero).
pub open spec fn dec_rep(v: nat) -> Seq<char> {
    if v == 0 {
        seq!['0']
    } else {
        dec_rep_pos(v)
    }
}

/// A digit prefix never exceeds the value of the whole numeral.
proof fn lemma_dec_value_prefix(s: Seq<char>, j: int)
    requires
        0 <= j <= s.len(),
    ensures
        dec_value(s.subrange(0, j)) <= dec_value(s),
    decreases s.len() - j,
{
    if j < s.len() {
        let t = s.subrange(0, j + 1);
        assert(t.drop_last() =~= s.subrange(0, j));
        assert(dec_value(s.subrange(0, j)) <= dec_value(t));
        lemma_dec_value_prefix(s, j + 1);
        assert(s.subrange(0, s.len() as int) =~= s);
    } else {
        assert(s.subrange(0, j) =~= s);
    }
}

impl U256 {
    pub fn is_zero(&self) -> (r: bool)
        ensures
            r <==> self.value() == 0,
    {
        proof {
            if self.w0 == 0 && self.w1 == 0 && self.w2 == 0 && self.w3 == 0 {
                assert(self.value() == 0);
            } else {
                lemma_value_injective(*self, U256 { w0: 0, w1: 0, w2: 0, w3: 0 });
            }
        }
        self.w0 == 0 && self.w1 == 0 && self.w2 == 0 && self.w3 == 0
    }

    /// Multiply by ten and add a digit, reporting overflow past 2^256.
    fn mul10_add(&self, d: u8) -> (r: Option<U256>)
        requires
            d < 10,
        ensures
            r is Some <==> self.value() * 10 + d < pow256(),
            r matches Some(v) ==> v.value() == self.value() * 10 + d,
    {
        let p: u128 = 0x1_0000_0000_0000_0000;
        let c0: u128 = (self.w0 as u128) * 10 + (d as u128);
        let n0: u64 = (c0 % p) as u64;
        let k0: u128 = c0 / p;
        let c1: u128 = (self.w1 as u128) * 10 + k0;
        let n1: u64 = (c1 % p) as u64;
        let k1: u128 = c1 / p;
        let c2: u128 = (self.w2 as u128) * 10 + k1;
        let n2: u64 = (c2 % p) as u64;
        let k2: u128 = c2 / p;
        let c3: u128 = (self.w3 as u128) * 10 + k2;
        let n3: u64 = (c3 % p) as u64;
        let k3: u128 = c3 / p;
        let out = U256 { w0: n0, w1: n1, w2: n2, w3: n3 };
        proof {
            lemma_fundamental_div_mod(c0 as int, p as int);
            lemma_fundamental_div_mod(c1 as int, p as int);
            lemma_fundamental_div_mod(c2 as int, p as int);
            lemma_fundamental_div_mod(c3 as int, p as int);
            let pi = p as int;
            assert(out.value() + k3 * pow256() == self.value() * 10 + d)
                by (nonlinear_arith)
                requires
                    pi == pow64(),
                    pow128() == pow64() * pow64(),
                    pow192() == pow128() * pow64(),
                    pow256() == pow192() * pow64(),
                    c0 == self.w0 * 10 + d,
                    c1 == self.w1 * 10 + k0,
                    c2 == self.w2 * 10 + k1,
                    c3 == self.w3 * 10 + k2,
                    c0 == pi * k0 + n0,
                    c1 == pi * k1 + n1,
                    c2 == pi * k2 + n2,
                    c3 == pi * k3 + n3,
                    out.value() == n0 + n1 * pow64() + n2 * pow128() + n3 * pow192(),
                    self.value() == self.w0 + self.w1 * pow64() + self.w2 * pow128()
                        + self.w3 * pow192(),
            ;
            lemma_value_bound(out);
        }
        if k3 != 0 {
            proof {
                assert(k3 * pow256() >= pow256()) by (nonlinear_arith)
                    requires
                        k3 >= 1,
                        pow256() > 0,
                ;
            }
            None
        } else {
            Some(out)
        }
    }

    /// Parses a decimal numeral exactly as the accumulator's numeral format
    /// admits it: every character a digit (an empty numeral counts as zero)
    /// and the value below 2^256.
    pub fn from_dec_str(s: &str) -> (r: Option<U256>)
        ensures
            r is Some <==> is_dec_digits(s@) && dec_value(s@) < pow256(),
            r matches Some(v) ==> v.value() == dec_value(s@),
    {
        if !s.is_ascii() {
            proof {
                let i = choose|i: int| !(0 <= i < s@.len() ==> '\0' <= #[trigger] s@[i]
                    <= '\u{7f}');
                assert(!is_digit(s@[i]));
            }
            return None;
        }
        let n = s.unicode_len();
        let mut acc = U256::zero();
        let mut i: usize = 0;
        while i < n
            invariant
                i <= n,
                n == s@.len(),
                s.is_ascii(),
                forall|j: int| 0 <= j < i ==> is_digit(#[trigger] s@[j]),
                acc.value() == dec_value(s@.subrange(0, i as int)),
            decreases n - i,
        {
            let b = s.get_ascii(i);
            proof {
                assert(((s@[i as int]) as u32) < 128);
                assert(b == (s@[i as int]) as u8);
                assert(b as u32 == (s@[i as int]) as u32);
            }
            if b < 48 || b > 57 {
                proof {
                    assert(!is_digit(s@[i as int]));
                }
                return None;
            }
            let d = b - 48;
            let prev = Ghost(acc);
            acc = match acc.mul10_add(d) {
                Some(a) => a,
                None => {
                    proof {
                        let t = s@.subrange(0, i + 1);
                        assert(t.drop_last() =~= s@.subrange(0, i as int));
                        assert(t.last() == s@[i as int]);
                        assert(dec_value(t) == prev@.value() * 10 + d);
                        lemma_dec_value_prefix(s@, i + 1);
                    }
                    return None;
                },
            };
            proof {
                let t = s@.subrange(0, i + 1);
                assert(t.drop_last() =~= s@.subrange(0, i as int));
                assert(t.last() == s@[i as int]);
                assert(digit_val(s@[i as int]) == d);
            }
            i = i + 1;
        }
        proof {
            assert(s@.subrange(0, n as int) =~= s@);
            lemma_value_bound(acc);
        }
        Some(acc)
    }

    /// Divide by ten: returns the quotient and the remainder digit.
    fn divmod10(&self) -> (r: (U256, u8))
        ensures
            r.0.value() * 10 + r.1 == self.value(),
            r.1 < 10,
            self.value() > 0 ==> r.0.value() < self.value(),
    {
        let p: u128 = 0x1_0000_0000_0000_0000;
        let c3: u128 = self.w3 as u128;
        let q3: u64 = (c3 / 10) as u64;
        let r3: u128 = c3 % 10;
        let c2: u128 = r3 * p + self.w2 as u128;
        let q2: u64 = (c2 / 10) as u64;
        let r2: u128 = c2 % 10;
        let c1: u128 = r2 * p + self.w1 as u128;
        let q1: u64 = (c1 / 10) as u64;
        let r1: u128 = c1 % 10;
        let c0: u128 = r1 * p + self.w0 as u128;
        let q0: u64 = (c0 / 10) as u64;
        let r0: u8 = (c0 % 10) as u8;
        let q = U256 { w0: q0, w1: q1, w2: q2, w3: q3 };
        proof {
            lemma_fundamental_div_mod(c3 as int, 10);
            lemma_fundamental_div_mod(c2 as int, 10);
            lemma_fundamental_div_mod(c1 as int, 10);
            lemma_fundamental_div_mod(c0 as int, 10);
            let pi = p as int;
            assert(q.value() * 10 + r0 == self.value()) by (nonlinear_arith)
                requires
                    pi == pow64(),
                    pow128() == pow64() * pow64(),
                    pow192() == pow128() * pow64(),
                    c3 == self.w3,
                    c2 == (c3 % 10) * pi + self.w2,
                    c1 == (c2 % 10) * pi + self.w1,
                    c0 == (c1 % 10) * pi + self.w0,
                    c3 == 10 * q3 + c3 % 10,
                    c2 == 10 * q2 + c2 % 10,
                    c1 == 10 * q1 + c1 % 10,
                    c0 == 10 * q0 + c0 % 10,
                    r0 == c0 % 10,
                    q.value() == q0 + q1 * pow64() + q2 * pow128() + q3 * pow192(),
                    self.value() == self.w0 + self.w1 * pow64() + self.w2 * pow128()
                        + self.w3 * pow192(),
            ;
        }
        (q, r0)
    }
}

/// The limbs a value below 2^256 decomposes into.
pub open spec fn u256_of(v: nat) -> U256 {
    U256 {
        w0: (v % pow64()) as u64,
        w1: ((v / pow64()) % pow64()) as u64,
        w2: ((v / pow128()) % pow64()) as u64,
        w3: ((v / pow192()) % pow64()) as u64,
    }
}

/// `value` and `u256_of` are inverse to each other.
pub proof fn lemma_u256_of_value(x: U256)
    ensures
        u256_of(x.value()) == x,
{
    lemma_limbs_determined(x);
    vstd::arithmetic::div_mod::lemma_small_mod(x.w3 as nat, pow64());
}

/// A byte string with its zero padding removed from the end.
pub open spec fn strip_trailing_zeros(bs: Seq<u8>) -> Seq<u8>
    decreases bs.len(),
{
    if bs.len() > 0 && bs.last() == 0 {
        strip_trailing_zeros(bs.drop_last())
    } else {
        bs
    }
}

/// Removes the zero padding from the end of a byte string.
pub fn strip_zero_suffix(bytes: Vec<u8>) -> (r: Vec<u8>)
    ensures
        r@ == strip_trailing_zeros(bytes@),
{
    let mut out = bytes;
    let ghost orig = out@;
    while out.len() > 0 && out[out.len() - 1] == 0
        invariant
            strip_trailing_zeros(out@) == strip_trailing_zeros(orig),
        decreases out@.len(),
    {
        out.pop();
    }
    out
}

/// ASCII digit bytes, read back to front as characters.
pub open spec fn rev_chars(ds: Seq<u8>) -> Seq<char>
    decreases ds.len(),
{
    if ds.len() == 0 {
        Seq::empty()
    } else {
        rev_chars(ds.drop_first()).push(ds.first() as char)
    }
}

proof fn lemma_rev_chars_push(ds: Seq<u8>, b: u8)
    ensures
        rev_chars(ds.push(b)) == seq![b as char] + rev_chars(ds),
    decreases ds.len(),
{
    let t = ds.push(b);
    if ds.len() == 0 {
        assert(t.drop_first() =~= Seq::<u8>::empty());
        assert(t.first() == b);
        assert(rev_chars(Seq::<u8>::empty()) =~= Seq::<char>::empty());
        assert(rev_chars(t) == rev_chars(t.drop_first()).push(b as char));
        assert(rev_chars(t) =~= seq![b as char] + rev_chars(ds));
    } else {
        assert(t.drop_first() =~= ds.drop_first().push(b));
        lemma_rev_chars_push(ds.drop_first(), b);
        assert(rev_chars(t) == rev_chars(ds.drop_first().push(b)).push(ds.first() as char));
        assert((seq![b as char] + rev_chars(ds.drop_first())).push(ds.first() as char)
            =~= seq![b as char] + rev_chars(ds));
    }
}

/// Big-endian bytes of one limb, most significant byte first.
pub open spec fn u64_be_bytes(w: u64) -> Seq<u8> {
    seq![
        (w / 0x100_0000_0000_0000) as u8,
        ((w / 0x1_0000_0000_0000) % 0x100) as u8,
        ((w / 0x100_0000_0000) % 0x100) as u8,
        ((w / 0x1_0000_0000) % 0x100) as u8,
        ((w / 0x100_0000) % 0x100) as u8,
        ((w / 0x1_0000) % 0x100) as u8,
        ((w / 0x100) % 0x100) as u8,
        (w % 0x100) as u8,
    ]
}

/// The 32 big-endian bytes of a 256-bit value, most significant first.
pub open spec fn be_bytes(x: U256) -> Seq<u8> {
    u64_be_bytes(x.w3) + u64_be_bytes(x.w2) + u64_be_bytes(x.w1) + u64_be_bytes(x.w0)
}

fn push_be_limb(out: &mut Vec<u8>, w: u64)
    ensures
        final(out)@ == old(out)@ + u64_be_bytes(w),
{
    out.push((w / 0x100_0000_0000_0000) as u8);
    out.push(((w / 0x1_0000_0000_0000) % 0x100) as u8);
    out.push(((w / 0x100_0000_0000) % 0x100) as u8);
    out.push(((w / 0x1_0000_0000) % 0x100) as u8);
    out.push(((w / 0x100_0000) % 0x100) as u8);
    out.push(((w / 0x1_0000) % 0x100) as u8);
    out.push(((w / 0x100) % 0x100) as u8);
    out.push((w % 0x100) as u8);
    proof {
        assert(out@ =~= old(out)@ + u64_be_bytes(w));
    }
}

impl U256 {
    /// The canonical decimal numeral of this value.
    pub fn to_dec_string(&self) -> (r: String)
        ensures
            r@ == dec_rep(self.value()),
    {
        if self.is_zero() {
            let mut s = String::new();
            crate::text::push_char(&mut s, '0');
            proof {
                assert(s@ =~= seq!['0']);
            }
            return s;
        }
        let mut digits: Vec<u8> = Vec::new();
        let mut cur = *self;
        let ghost orig: nat = self.value();
        while !cur.is_zero()
            invariant
                dec_rep_pos(orig) == dec_rep_pos(cur.value()) + rev_chars(digits@),
            decreases cur.value(),
        {
            let (q, d) = cur.divmod10();
            proof {
                vstd::arithmetic::div_mod::lemma_fundamental_div_mod_converse(
                    cur.value() as int,
                    10,
                    q.value() as int,
                    d as int,
                );
                assert(q.value() == cur.value() / 10);
                assert(d == cur.value() % 10);
                assert(dec_rep_pos(cur.value())
                    == dec_rep_pos(q.value()).push(digit_char(cur.value() % 10)));
                lemma_rev_chars_push(digits@, (48 + d) as u8);
                assert(digit_char(cur.value() % 10) == ((48 + d) as u8) as char);
                assert(dec_rep_pos(q.value()) + rev_chars(digits@.push((48 + d) as u8))
                    =~= (dec_rep_pos(q.value()).push(digit_char(cur.value() % 10)))
                        + rev_chars(digits@));
            }
            digits.push(48 + d);
            cur = q;
        }
        let mut s = String::new();
        let mut i: usize = digits.len();
        proof {
            assert(digits@.skip(i as int) =~= Seq::<u8>::empty());
        }
        while i > 0
            invariant
                i <= digits@.len(),
                s@ == rev_chars(digits@.skip(i as int)),
            decreases i,
        {
            i = i - 1;
            crate::text::push_char(&mut s, digits[i] as char);
            proof {
                assert(digits@.skip(i as int).drop_first() =~= digits@.skip(i as int + 1));
                assert(digits@.skip(i as int).first() == digits@[i as int]);
            }
        }
        proof {
            assert(digits@.skip(0) =~= digits@);
        }
        s
    }

    /// The value as 32 big-endian bytes.
    pub fn to_big_endian(&self) -> (r: Vec<u8>)
        ensures
            r@ == be_bytes(*self),
    {
        let mut out: Vec<u8> = Vec::new();
        push_be_limb(&mut out, self.w3);
        push_be_limb(&mut out, self.w2);
        push_be_limb(&mut out, self.w1);
        push_be_limb(&mut out, self.w0);
        proof {
            assert(out@ =~= be_bytes(*self));
        }
        out
    }
}

proof fn lemma_limbs_determined(a: U256)
    ensures
        a.w0 == a.value() % pow64(),
        a.w1 == (a.value() / pow64()) % pow64(),
        a.w2 == (a.value() / pow128()) % pow64(),
        a.w3 == a.value() / pow192(),
{
    let v = a.value() as int;
    let p = pow64() as int;
    assert(v == (a.w1 + a.w2 * p + a.w3 * (p * p)) * p + a.w0) by (nonlinear_arith)
        requires
            v == a.w0 + a.w1 * pow64() + a.w2 * pow128() + a.w3 * pow192(),
            p == pow64(),
    ;
    lemma_fundamental_div_mod_converse(
        v,
        p,
        a.w1 + a.w2 * p + a.w3 * (p * p),
        a.w0 as int,
    );
    let v1 = a.w1 + a.w2 * p + a.w3 * (p * p);
    lemma_fundamental_div_mod_converse(v1, p, a.w2 + a.w3 * p, a.w1 as int);
    let v2 = a.w2 + a.w3 * p;
    lemma_fundamental_div_mod_converse(v2, p, a.w3 as int, a.w2 as int);
    assert(v / pow128() as int == v2) by (nonlinear_arith)
        requires
            v / p == v1,
            v1 / p == v2,
            v >= 0,
            p == pow64(),
            v % p == a.w0,
            v1 % p == a.w1,
            v == v1 * p + a.w0,
            v1 == v2 * p + a.w1,
            v2 >= 0,
            0 <= a.w0 < p,
            0 <= a.w1 < p,
    {
        lemma_fundamental_div_mod_converse(v, p * p, v2, a.w1 * p + a.w0);
    }
    assert(v / pow192() as int == a.w3) by (nonlinear_arith)
        requires
            v == v2 * (p * p) + a.w1 * p + a.w0,
            v2 == a.w3 * p + a.w2,
            p == pow64(),
            0 <= a.w0 < p,
            0 <= a.w1 < p,
            0 <= a.w2 < p,
            a.w3 >= 0,
    {
        lemma_fundamental_div_mod_converse(
            v,
            p * p * p,
            a.w3 as int,
            a.w2 * (p * p) + a.w1 * p + a.w0,
        );
    }
}

} // verus!
