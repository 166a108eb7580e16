//! IPv4 addresses and netmasks as numbers: dotted-quad parsing and
//! printing, prefix masks.

use vstd::prelude::*;

use crate::text::{
    all_digits, decimal, decimal_chars, digits_value, in_set, is_digit, lemma_decimal_digits,
    lemma_split_at_separator, lemma_split_without_separator, parse_bounded, parse_unsigned,
    split_by, split_chars, string_of,
};

verus! {

pub open spec fn pow2(n: nat) -> nat
    decreases n,
{
    if n == 0 {
        1
    } else {
        2 * pow2((n - 1) as nat)
    }
}

pub proof fn lemma_pow2_pos(n: nat)
    ensures
        pow2(n) >= 1,
    decreases n,
{
    if n > 0 {
        lemma_pow2_pos((n - 1) as nat);
    }
}

pub proof fn lemma_pow2_strict(a: nat, b: nat)
    requires
        a < b,
    ensures
        pow2(a) < pow2(b),
    decreases b,
{
    lemma_pow2_pos(a);
    if b > a + 1 {
        lemma_pow2_strict(a, (b - 1) as nat);
    }
}

pub proof fn lemma_pow2_32()
    ensures
        pow2(32) == 4294967296,
        pow2(24) == 16777216,
        pow2(16) == 65536,
        pow2(8) == 256,
        pow2(31) == 2147483648,
{
    reveal_with_fuel(pow2, 33);
}

/// The mask with `p` leading one bits, as a number (`0 <= p <= 32`).
pub open spec fn mask_value(p: nat) -> nat {
    (pow2(32) - pow2((32 - p) as nat)) as nat
}

pub proof fn lemma_mask_value(p: nat)
    requires
        p <= 32,
    ensures
        mask_value(p) == pow2(32) - pow2((32 - p) as nat),
        pow2((32 - p) as nat) >= 1,
{
    lemma_pow2_pos((32 - p) as nat);
    if p > 0 {
        lemma_pow2_strict((32 - p) as nat, 32);
    }
}

/// Masks of different prefix lengths differ: a larger prefix gives a larger
/// mask.
pub proof fn lemma_mask_strict(p: nat, q: nat)
    requires
        p < q <= 32,
    ensures
        mask_value(p) < mask_value(q),
        mask_value(q) < pow2(32),
{
    lemma_pow2_strict((32 - q) as nat, (32 - p) as nat);
    lemma_mask_value(p);
    lemma_mask_value(q);
}

/// The number `a * 2^24 + b * 2^16 + c * 2^8 + d`.
pub open spec fn quad_value(a: nat, b: nat, c: nat, d: nat) -> nat {
    a * 16777216 + b * 65536 + c * 256 + d
}

/// The dotted-quad form of a 32-bit number (`Ipv4Addr`'s `Display`).
pub open spec fn dotted(v: nat) -> Seq<char> {
    decimal(v / 16777216) + seq!['.'] + decimal((v / 65536) % 256) + seq!['.'] + decimal(
        (v / 256) % 256,
    ) + seq!['.'] + decimal(v % 256)
}

/// A decimal number holds no `.`.
proof fn lemma_decimal_no_dot(n: nat)
    ensures
        forall|i: int| 0 <= i < decimal(n).len() ==> !in_set(seq!['.'])(#[trigger] decimal(n)[i]),
{
    lemma_decimal_digits(n);
    assert forall|i: int| 0 <= i < decimal(n).len() implies !in_set(seq!['.'])(#[trigger] decimal(n)[i]) by {
        assert(is_digit(decimal(n)[i]));
        assert(!seq!['.'].contains(decimal(n)[i])) by {
            if seq!['.'].contains(decimal(n)[i]) {
                let k = choose|k: int| 0 <= k < 1 && seq!['.'][k] == decimal(n)[i];
                assert(seq!['.'][k] == '.');
            }
        }
    }
}

/// The four groups of a dotted quad, and the number they give back.
pub proof fn lemma_dotted_fields(m: nat)
    requires
        m < 4294967296,
    ensures
        dot_fields(dotted(m)) == seq![
            decimal(m / 16777216),
            decimal((m / 65536) % 256),
            decimal((m / 256) % 256),
            decimal(m % 256),
        ],
        m / 16777216 <= 255,
        quad_value(m / 16777216, (m / 65536) % 256, (m / 256) % 256, m % 256) == m,
{
    let a = decimal(m / 16777216);
    let b = decimal((m / 65536) % 256);
    let c = decimal((m / 256) % 256);
    let d = decimal(m % 256);
    let p = in_set(seq!['.']);
    assert(seq!['.'][0] == '.');
    assert(p('.'));
    lemma_decimal_no_dot(m / 16777216);
    lemma_decimal_no_dot((m / 65536) % 256);
    lemma_decimal_no_dot((m / 256) % 256);
    lemma_decimal_no_dot(m % 256);
    lemma_split_without_separator(a, p);
    lemma_split_without_separator(b, p);
    lemma_split_without_separator(c, p);
    lemma_split_without_separator(d, p);
    let abc = a + seq!['.'] + b + seq!['.'] + c;
    let ab = a + seq!['.'] + b;
    assert(dotted(m) =~= abc.push('.') + d);
    assert(abc =~= ab.push('.') + c);
    assert(ab =~= a.push('.') + b);
    lemma_split_at_separator(abc, '.', d, p);
    lemma_split_at_separator(ab, '.', c, p);
    lemma_split_at_separator(a, '.', b, p);
    assert(seq![a] + seq![b] + seq![c] + seq![d] =~= seq![a, b, c, d]);
    assert(m / 16777216 <= 255);
    assert((m / 16777216) * 16777216 + ((m / 65536) % 256) * 65536 + ((m / 256) % 256) * 256 + m % 256
        == m) by (nonlinear_arith)
        requires
            m < 4294967296,
    ;
}

pub fn dotted_chars(v: u32) -> (r: Vec<char>)
    ensures
        r@ == dotted(v as nat),
{
    let mut r = decimal_chars((v / 16777216) as u64);
    r.push('.');
    let mut b = decimal_chars(((v / 65536) % 256) as u64);
    r.append(&mut b);
    r.push('.');
    let mut c = decimal_chars(((v / 256) % 256) as u64);
    r.append(&mut c);
    r.push('.');
    let mut d = decimal_chars((v % 256) as u64);
    r.append(&mut d);
    assert(r@ =~= dotted(v as nat));
    r
}

/// A 32-bit number in dotted-quad form.
pub fn dotted_string(v: u32) -> (r: String)
    ensures
        r@ == dotted(v as nat),
{
    let c = dotted_chars(v);
    string_of(c.as_slice())
}

/// The mask with `p` leading one bits (`0 <= p <= 32`).
pub fn mask_of(p: u32) -> (m: u32)
    requires
        p <= 32,
    ensures
        m as nat == mask_value(p as nat),
{
    proof {
        lemma_pow2_32();
    }
    let mut m: u64 = 0;
    let mut pw: u64 = 2147483648;
    let mut k: u32 = 0;
    while k < p
        invariant
            k <= p <= 32,
            m as nat == mask_value(k as nat),
            k < 32 ==> pw as nat == pow2((31 - k) as nat),
            pow2(32) == 4294967296,
            pow2(31) == 2147483648,
        decreases p - k,
    {
        proof {
            assert(pow2((32 - k) as nat) == 2 * pow2((31 - k) as nat));
            lemma_mask_strict(k as nat, (k + 1) as nat);
            lemma_mask_value(k as nat);
            lemma_mask_value((k + 1) as nat);
            assert(mask_value((k + 1) as nat) == m + pw);
        }
        m = m + pw;
        pw = pw / 2;
        k = k + 1;
        proof {
            if k < 32 {
                assert(pow2((32 - k) as nat) == 2 * pow2((31 - k) as nat));
            }
        }
    }
    proof {
        if p > 0 {
            lemma_mask_strict(0, p as nat);
        } else {
            assert(mask_value(0) == 0);
        }
    }
    m as u32
}

/// One group of an IPv4 address as `std::net::Ipv4Addr` parses it: one to
/// three ASCII digits, no leading zero unless the group is `0`, at most 255.
pub open spec fn ipv4_group_ok(g: Seq<char>) -> bool {
    &&& 1 <= g.len() <= 3
    &&& all_digits(g)
    &&& (g.len() > 1 ==> g[0] != '0')
    &&& digits_value(g) <= 255
}

pub open spec fn dot_fields(s: Seq<char>) -> Seq<Seq<char>> {
    split_by(s, in_set(seq!['.']))
}

/// `s` is an IPv4 address in dotted-quad form.
pub open spec fn ipv4_ok(s: Seq<char>) -> bool {
    let f = dot_fields(s);
    &&& f.len() == 4
    &&& forall|i: int| 0 <= i < 4 ==> ipv4_group_ok(#[trigger] f[i])
}

/// The address `s` denotes, as a number.
pub open spec fn ipv4_value(s: Seq<char>) -> nat {
    let f = dot_fields(s);
    quad_value(digits_value(f[0]), digits_value(f[1]), digits_value(f[2]), digits_value(f[3]))
}

fn group_ok(g: &Vec<char>) -> (r: Option<u32>)
    ensures
        match r {
            Some(v) => ipv4_group_ok(g@) && v as nat == digits_value(g@),
            None => !ipv4_group_ok(g@),
        },
{
    if g.len() < 1 || g.len() > 3 {
        return None;
    }
    if g.len() > 1 && g[0] == '0' {
        return None;
    }
    if g[0] == '+' {
        return None;
    }
    match parse_bounded(g.as_slice(), 255) {
        Some(v) => {
            assert(parse_unsigned(g@, 255) == Some(v as nat));
            Some(v as u32)
        },
        None => {
            assert(parse_unsigned(g@, 255) is None);
            None
        },
    }
}

/// Parses a dotted-quad IPv4 address into its number.
pub fn parse_ipv4(s: &[char]) -> (r: Option<u32>)
    ensures
        match r {
            Some(v) => ipv4_ok(s@) && v as nat == ipv4_value(s@),
            None => !ipv4_ok(s@),
        },
{
    let f = split_chars(s, &['.']);
    assert(seq!['.'] =~= [ '.' ]@);
    if f.len() != 4 {
        return None;
    }
    let a = match group_ok(&f[0]) { Some(v) => v, None => { assert(f.deep_view()[0] =~= f@[0]@); return None } };
    let b = match group_ok(&f[1]) { Some(v) => v, None => { assert(f.deep_view()[1] =~= f@[1]@); return None } };
    let c = match group_ok(&f[2]) { Some(v) => v, None => { assert(f.deep_view()[2] =~= f@[2]@); return None } };
    let d = match group_ok(&f[3]) { Some(v) => v, None => { assert(f.deep_view()[3] =~= f@[3]@); return None } };
    assert(f.deep_view()[0] =~= f@[0]@);
    assert(f.deep_view()[1] =~= f@[1]@);
    assert(f.deep_view()[2] =~= f@[2]@);
    assert(f.deep_view()[3] =~= f@[3]@);
    Some(a * 16777216 + b * 65536 + c * 256 + d)
}

} // verus!
