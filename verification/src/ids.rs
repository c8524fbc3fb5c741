//! The 128-bit identifiers that name sessions and users, and their textual
//! form: 32 lowercase hex digits in the familiar 8-4-4-4-12 grouping.  The
//! reader also accepts uppercase digits and the ungrouped 32-digit form.
use crate::json::spec_hex_val;
use vstd::prelude::*;

verus! {

/// The lowercase hex digit for a value below 16.
pub open spec fn spec_nibble_char(v: int) -> char {
    if v < 10 {
        ((v + 48) as u8) as char
    } else {
        ((v + 87) as u8) as char
    }
}

/// The last `n` hex digits of `u`, most significant first.
pub open spec fn spec_hex_digits(u: int, n: nat) -> Seq<char>
    decreases n,
{
    if n == 0 {
        Seq::empty()
    } else {
        spec_hex_digits(u / 16, (n - 1) as nat).push(spec_nibble_char(u % 16))
    }
}

/// The canonical textual form of a 128-bit id: 32 lowercase hex digits with
/// hyphens after the 8th, 12th, 16th and 20th.
pub open spec fn spec_uuid_str(u: u128) -> Seq<char> {
    let h = spec_hex_digits(u as int, 32);
    h.subrange(0, 8) + seq!['-'] + h.subrange(8, 12) + seq!['-'] + h.subrange(12, 16) + seq!['-']
        + h.subrange(16, 20) + seq!['-'] + h.subrange(20, 32)
}

/// The value of a sequence of hex digits, most significant first, if every
/// char is one.
pub open spec fn spec_hex_num(s: Seq<char>) -> Option<int>
    decreases s.len(),
{
    if s.len() == 0 {
        Some(0)
    } else {
        match (spec_hex_num(s.drop_last()), spec_hex_val(s.last())) {
            (Some(acc), Some(d)) => Some(acc * 16 + d),
            _ => None,
        }
    }
}

/// The hex digits of a textual id, with the four hyphens taken out of the
/// hyphenated form, or the ungrouped form as it stands.
pub open spec fn spec_uuid_digits(s: Seq<char>) -> Option<Seq<char>> {
    if s.len() == 36 {
        if s[8] == '-' && s[13] == '-' && s[18] == '-' && s[23] == '-' {
            Some(
                s.subrange(0, 8) + s.subrange(9, 13) + s.subrange(14, 18) + s.subrange(19, 23)
                    + s.subrange(24, 36),
            )
        } else {
            None
        }
    } else if s.len() == 32 {
        Some(s)
    } else {
        None
    }
}

/// Reads a textual 128-bit id: hyphenated or ungrouped, either case of hex
/// digit.
pub open spec fn spec_parse_uuid(s: Seq<char>) -> Option<u128> {
    match spec_uuid_digits(s) {
        Some(digits) => match spec_hex_num(digits) {
            Some(v) => Some(v as u128),
            None => None,
        },
        None => None,
    }
}

/// Sixteen to the `n`.
pub open spec fn pow16(n: nat) -> int
    decreases n,
{
    if n == 0 {
        1
    } else {
        16 * pow16((n - 1) as nat)
    }
}

proof fn lemma_hex_num_bound(s: Seq<char>)
    requires
        spec_hex_num(s) is Some,
    ensures
        0 <= spec_hex_num(s).unwrap() < pow16(s.len() as nat),
    decreases s.len(),
{
    if s.len() > 0 {
        lemma_hex_num_bound(s.drop_last());
    }
}

proof fn lemma_hex_num_of_digits(u: int, n: nat)
    requires
        u >= 0,
    ensures
        spec_hex_num(spec_hex_digits(u, n)) == Some(u % pow16(n)),
        spec_hex_digits(u, n).len() == n,
        forall|i: int|
            0 <= i < n ==> spec_hex_val(#[trigger] spec_hex_digits(u, n)[i]) is Some,
    decreases n,
{
    if n == 0 {
        assert(u % 1 == 0);
    } else {
        let q = u / 16;
        let r = u % 16;
        lemma_hex_num_of_digits(q, (n - 1) as nat);
        let h = spec_hex_digits(u, n);
        assert(h.drop_last() =~= spec_hex_digits(q, (n - 1) as nat));
        assert(0 <= r < 16);
        assert(spec_hex_val(spec_nibble_char(r)) == Some(r as u32));
        let p = pow16((n - 1) as nat);
        assert(p >= 1) by {
            lemma_pow16_pos((n - 1) as nat);
        }
        assert((q % p) * 16 + r == u % (16 * p)) by (nonlinear_arith)
            requires
                u >= 0,
                p >= 1,
                q == u / 16,
                r == u % 16,
        {
        }
    }
}

proof fn lemma_pow16_pos(n: nat)
    ensures
        pow16(n) >= 1,
    decreases n,
{
    if n > 0 {
        lemma_pow16_pos((n - 1) as nat);
    }
}

/// Law: reading back a formatted id yields the id; the textual form loses
/// nothing.
pub proof fn lemma_uuid_roundtrip(u: u128)
    ensures
        spec_parse_uuid(spec_uuid_str(u)) == Some(u),
{
    let h = spec_hex_digits(u as int, 32);
    lemma_hex_num_of_digits(u as int, 32);
    let s = spec_uuid_str(u);
    assert(s.len() == 36);
    assert(s[8] == '-' && s[13] == '-' && s[18] == '-' && s[23] == '-');
    assert(spec_uuid_digits(s) == Some(
        s.subrange(0, 8) + s.subrange(9, 13) + s.subrange(14, 18) + s.subrange(19, 23)
            + s.subrange(24, 36),
    ));
    assert(s.subrange(0, 8) + s.subrange(9, 13) + s.subrange(14, 18) + s.subrange(19, 23)
        + s.subrange(24, 36) =~= h);
    assert(u as int % pow16(32) == u as int) by {
        lemma_hex_num_bound(h);
        lemma_pow16_ge_u128();
        vstd::arithmetic::div_mod::lemma_small_mod(u as nat, pow16(32) as nat);
    }
}

proof fn lemma_pow16_ge_u128()
    ensures
        pow16(32) == u128::MAX + 1,
{
    reveal_with_fuel(pow16, 33);
}

proof fn lemma_pow16_mono(a: nat, b: nat)
    requires
        a <= b,
    ensures
        pow16(a) <= pow16(b),
    decreases b,
{
    if a < b {
        lemma_pow16_mono(a, (b - 1) as nat);
        lemma_pow16_pos((b - 1) as nat);
    }
}

proof fn lemma_hex_num_digit_none(s: Seq<char>, k: int)
    requires
        0 <= k < s.len(),
        spec_hex_val(s[k]) is None,
    ensures
        spec_hex_num(s) is None,
    decreases s.len(),
{
    if k < s.len() - 1 {
        lemma_hex_num_digit_none(s.drop_last(), k);
    }
}

fn nibble_char(v: u128) -> (c: char)
    requires
        v < 16,
    ensures
        c == spec_nibble_char(v as int),
{
    if v < 10 {
        ((v + 48) as u8) as char
    } else {
        ((v + 87) as u8) as char
    }
}

/// The canonical textual form of `u`: 32 lowercase hex digits in the
/// 8-4-4-4-12 grouping.
pub fn format_uuid(u: u128) -> (r: String)
    ensures
        r@ == spec_uuid_str(u),
{
    let ghost hd = spec_hex_digits(u as int, 32);
    let mut ls: Vec<char> = Vec::new();
    let mut x = u;
    proof {
        assert(hd + ls@.reverse() =~= hd);
    }
    for k in 0..32usize
        invariant
            ls@.len() == k,
            hd == spec_hex_digits(x as int, (32 - k) as nat) + ls@.reverse(),
    {
        let ghost ls0 = ls@;
        let ghost x0 = x as int;
        let d = x % 16;
        ls.push(nibble_char(d));
        x = x / 16;
        proof {
            assert(ls@.reverse() =~= seq![spec_nibble_char(x0 % 16)] + ls0.reverse());
            assert(spec_hex_digits(x0, (32 - k) as nat) == spec_hex_digits(
                x as int,
                (31 - k) as nat,
            ).push(spec_nibble_char(x0 % 16)));
            assert(spec_hex_digits(x as int, (31 - k) as nat).push(spec_nibble_char(x0 % 16))
                + ls0.reverse() =~= spec_hex_digits(x as int, (31 - k) as nat) + ls@.reverse());
        }
    }
    proof {
        assert(spec_hex_digits(x as int, 0) =~= Seq::<char>::empty());
        assert(Seq::<char>::empty() + ls@.reverse() =~= ls@.reverse());
        assert(hd == ls@.reverse());
        assert(hd.len() == 32) by {
            lemma_hex_num_of_digits(u as int, 32);
        }
    }
    let mut out: Vec<char> = Vec::new();
    for j in 0..8usize
        invariant
            hd == ls@.reverse(),
            hd.len() == 32,
            ls@.len() == 32,
            out@ =~= hd.subrange(0, j as int),
    {
        out.push(ls[31 - j]);
        proof {
            assert(out@ =~= hd.subrange(0, j as int + 1));
        }
    }
    out.push('-');
    for j in 8..12usize
        invariant
            hd == ls@.reverse(),
            hd.len() == 32,
            ls@.len() == 32,
            out@ =~= hd.subrange(0, 8) + seq!['-'] + hd.subrange(8, j as int),
    {
        out.push(ls[31 - j]);
        proof {
            assert(out@ =~= hd.subrange(0, 8) + seq!['-'] + hd.subrange(8, j as int + 1));
        }
    }
    out.push('-');
    for j in 12..16usize
        invariant
            hd == ls@.reverse(),
            hd.len() == 32,
            ls@.len() == 32,
            out@ =~= hd.subrange(0, 8) + seq!['-'] + hd.subrange(8, 12) + seq!['-'] + hd.subrange(
                12,
                j as int,
            ),
    {
        out.push(ls[31 - j]);
        proof {
            assert(out@ =~= hd.subrange(0, 8) + seq!['-'] + hd.subrange(8, 12) + seq!['-']
                + hd.subrange(12, j as int + 1));
        }
    }
    out.push('-');
    for j in 16..20usize
        invariant
            hd == ls@.reverse(),
            hd.len() == 32,
            ls@.len() == 32,
            out@ =~= hd.subrange(0, 8) + seq!['-'] + hd.subrange(8, 12) + seq!['-'] + hd.subrange(
                12,
                16,
            ) + seq!['-'] + hd.subrange(16, j as int),
    {
        out.push(ls[31 - j]);
        proof {
            assert(out@ =~= hd.subrange(0, 8) + seq!['-'] + hd.subrange(8, 12) + seq!['-']
                + hd.subrange(12, 16) + seq!['-'] + hd.subrange(16, j as int + 1));
        }
    }
    out.push('-');
    for j in 20..32usize
        invariant
            hd == ls@.reverse(),
            hd.len() == 32,
            ls@.len() == 32,
            out@ =~= hd.subrange(0, 8) + seq!['-'] + hd.subrange(8, 12) + seq!['-'] + hd.subrange(
                12,
                16,
            ) + seq!['-'] + hd.subrange(16, 20) + seq!['-'] + hd.subrange(20, j as int),
    {
        out.push(ls[31 - j]);
        proof {
            assert(out@ =~= hd.subrange(0, 8) + seq!['-'] + hd.subrange(8, 12) + seq!['-']
                + hd.subrange(12, 16) + seq!['-'] + hd.subrange(16, 20) + seq!['-'] + hd.subrange(
                20,
                j as int + 1,
            ));
        }
    }
    proof {
        assert(out@ =~= spec_uuid_str(u));
    }
    crate::json::chars_to_string(&out)
}

/// Reads a textual 128-bit id out of a char vector.
pub fn parse_uuid_chars(s: &Vec<char>) -> (r: Option<u128>)
    ensures
        r == spec_parse_uuid(s@),
{
    let n = s.len();
    let mut digits: Vec<char> = Vec::new();
    if n == 36 {
        if !(s[8] == '-' && s[13] == '-' && s[18] == '-' && s[23] == '-') {
            return None;
        }
        for j in 0..8usize
            invariant
                s@.len() == 36,
                digits@ =~= s@.subrange(0, j as int),
        {
            digits.push(s[j]);
            proof {
                assert(digits@ =~= s@.subrange(0, j as int + 1));
            }
        }
        for j in 9..13usize
            invariant
                s@.len() == 36,
                digits@ =~= s@.subrange(0, 8) + s@.subrange(9, j as int),
        {
            digits.push(s[j]);
            proof {
                assert(digits@ =~= s@.subrange(0, 8) + s@.subrange(9, j as int + 1));
            }
        }
        for j in 14..18usize
            invariant
                s@.len() == 36,
                digits@ =~= s@.subrange(0, 8) + s@.subrange(9, 13) + s@.subrange(14, j as int),
        {
            digits.push(s[j]);
            proof {
                assert(digits@ =~= s@.subrange(0, 8) + s@.subrange(9, 13) + s@.subrange(
                    14,
                    j as int + 1,
                ));
            }
        }
        for j in 19..23usize
            invariant
                s@.len() == 36,
                digits@ =~= s@.subrange(0, 8) + s@.subrange(9, 13) + s@.subrange(14, 18)
                    + s@.subrange(19, j as int),
        {
            digits.push(s[j]);
            proof {
                assert(digits@ =~= s@.subrange(0, 8) + s@.subrange(9, 13) + s@.subrange(14, 18)
                    + s@.subrange(19, j as int + 1));
            }
        }
        for j in 24..36usize
            invariant
                s@.len() == 36,
                digits@ =~= s@.subrange(0, 8) + s@.subrange(9, 13) + s@.subrange(14, 18)
                    + s@.subrange(19, 23) + s@.subrange(24, j as int),
        {
            digits.push(s[j]);
            proof {
                assert(digits@ =~= s@.subrange(0, 8) + s@.subrange(9, 13) + s@.subrange(14, 18)
                    + s@.subrange(19, 23) + s@.subrange(24, j as int + 1));
            }
        }
    } else if n == 32 {
        for j in 0..32usize
            invariant
                s@.len() == 32,
                digits@ =~= s@.subrange(0, j as int),
        {
            digits.push(s[j]);
            proof {
                assert(digits@ =~= s@.subrange(0, j as int + 1));
            }
        }
        proof {
            assert(digits@ =~= s@);
        }
    } else {
        return None;
    }
    let ghost dg = digits@;
    proof {
        assert(Some(dg) == spec_uuid_digits(s@));
        assert(dg.len() == 32);
    }
    let mut acc: u128 = 0;
    for k in 0..32usize
        invariant
            digits@ == dg,
            dg.len() == 32,
            spec_uuid_digits(s@) == Some(dg),
            spec_hex_num(dg.take(k as int)) == Some(acc as int),
    {
        proof {
            assert(dg.take(k as int + 1).drop_last() =~= dg.take(k as int));
            lemma_hex_num_bound(dg.take(k as int));
            lemma_pow16_mono((k + 1) as nat, 32);
            lemma_pow16_ge_u128();
            assert(16 * pow16(k as nat) == pow16((k + 1) as nat));
        }
        match crate::json::hex_val(digits[k]) {
            Some(d) => {
                acc = acc * 16 + (d as u128);
            },
            None => {
                proof {
                    lemma_hex_num_digit_none(dg, k as int);
                }
                return None;
            },
        }
    }
    proof {
        assert(dg.take(32) =~= dg);
    }
    Some(acc)
}

/// Reads a textual 128-bit id.
pub fn parse_uuid(s: &str) -> (r: Option<u128>)
    ensures
        r == spec_parse_uuid(s@),
{
    let v = crate::json::str_to_chars(s);
    parse_uuid_chars(&v)
}

} // verus!
