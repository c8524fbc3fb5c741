//! The identity verifier: a bearer token in the compact signed form
//! (header, claims and signature, dot-separated and base64url-encoded) is
//! checked against a shared secret and the clock, and yields the identity
//! record it carries.  Only the signature primitive itself is delegated to
//! an outside implementation; the token's structure, its claims document
//! and its expiry are read and judged here.
use crate::ids::spec_parse_uuid;
use crate::json::{
    chars_eq,
    chars_to_string,
    is_digit,
    parse_string_at,
    skip_value,
    skip_ws,
    spec_digits_end,
    spec_parse_string,
    spec_skip_value,
    spec_skip_ws,
    str_to_chars,
};
use vstd::prelude::*;

verus! {

/// Mathematical image of a [`Claims`] record.
pub struct ClaimsView {
    pub sub: u128,
    pub name: Seq<char>,
    pub email: Seq<char>,
    pub exp: usize,
}

/// The claims carried by a verified bearer token: the subject's 128-bit id,
/// a display name, a contact handle, and the expiry in unix seconds.
/// Immutable once captured; cloned into a connection at registration.
#[derive(Debug)]
pub struct Claims {
    pub sub: u128,
    pub name: String,
    pub email: String,
    pub exp: usize,
}

impl View for Claims {
    type V = ClaimsView;

    open spec fn view(&self) -> ClaimsView {
        ClaimsView { sub: self.sub, name: self.name@, email: self.email@, exp: self.exp }
    }
}

impl Clone for Claims {
    fn clone(&self) -> (r: Self)
        ensures
            r@ == self@,
    {
        Claims {
            sub: self.sub,
            name: self.name.clone(),
            email: self.email.clone(),
            exp: self.exp,
        }
    }
}

/// Why a token was refused: not in the signed compact form at all, signed
/// with the wrong key or algorithm, or past its expiry.
#[derive(Debug, Clone, Copy, PartialEq, Eq, Structural)]
pub enum AuthError {
    Malformed,
    InvalidSignature,
    Expired,
}

/// How long past its expiry a token is still honoured, in seconds.
pub const EXPIRY_LEEWAY_SECS: usize = 60;

/// The value of a base64url alphabet char.
pub open spec fn spec_b64_val(c: char) -> Option<u8> {
    let u = c as u32;
    if 65 <= u <= 90 {
        Some((u - 65) as u8)
    } else if 97 <= u <= 122 {
        Some((u - 71) as u8)
    } else if 48 <= u <= 57 {
        Some((u + 4) as u8)
    } else if c == '-' {
        Some(62u8)
    } else if c == '_' {
        Some(63u8)
    } else {
        None
    }
}

/// Unpadded base64url decoding: full groups of four chars yield three
/// bytes, a trailing pair or triple yields one or two, and the unused low
/// bits of the last char must be zero.  A lone trailing char, a padding
/// char, or any char outside the alphabet refuses the input.
pub open spec fn spec_b64_decode(s: Seq<char>) -> Option<Seq<u8>>
    decreases s.len(),
{
    if s.len() == 0 {
        Some(Seq::empty())
    } else if s.len() == 1 {
        None
    } else if s.len() == 2 {
        match (spec_b64_val(s[0]), spec_b64_val(s[1])) {
            (Some(v0), Some(v1)) => if v1 % 16 == 0 {
                Some(seq![(v0 * 4 + v1 / 16) as u8])
            } else {
                None
            },
            _ => None,
        }
    } else if s.len() == 3 {
        match (spec_b64_val(s[0]), spec_b64_val(s[1]), spec_b64_val(s[2])) {
            (Some(v0), Some(v1), Some(v2)) => if v2 % 4 == 0 {
                Some(seq![(v0 * 4 + v1 / 16) as u8, ((v1 % 16) * 16 + v2 / 4) as u8])
            } else {
                None
            },
            _ => None,
        }
    } else {
        match (spec_b64_val(s[0]), spec_b64_val(s[1]), spec_b64_val(s[2]), spec_b64_val(s[3])) {
            (Some(v0), Some(v1), Some(v2), Some(v3)) => match spec_b64_decode(s.skip(4)) {
                Some(rest) => Some(
                    seq![
                        (v0 * 4 + v1 / 16) as u8,
                        ((v1 % 16) * 16 + v2 / 4) as u8,
                        ((v2 % 4) * 64 + v3) as u8,
                    ] + rest,
                ),
                None => None,
            },
            _ => None,
        }
    }
}

fn b64_val(c: char) -> (r: Option<u8>)
    ensures
        r == spec_b64_val(c),
{
    let u = c as u32;
    if 65 <= u && u <= 90 {
        Some((u - 65) as u8)
    } else if 97 <= u && u <= 122 {
        Some((u - 71) as u8)
    } else if 48 <= u && u <= 57 {
        Some((u + 4) as u8)
    } else if c == '-' {
        Some(62u8)
    } else if c == '_' {
        Some(63u8)
    } else {
        None
    }
}

proof fn lemma_b64_acc(s: Seq<char>, p0: int, pnew: int, accs: Seq<u8>, accn: Seq<u8>, pre: Seq<
    u8,
>, whole: Seq<char>)
    requires
        accn == accs + pre,
        spec_b64_decode(s.skip(p0)) == (match spec_b64_decode(s.skip(pnew)) {
            Some(rest) => Some(pre + rest),
            None => None::<Seq<u8>>,
        }),
        spec_b64_decode(whole) == (match spec_b64_decode(s.skip(p0)) {
            Some(rest) => Some(accs + rest),
            None => None::<Seq<u8>>,
        }),
    ensures
        spec_b64_decode(whole) == (match spec_b64_decode(s.skip(pnew)) {
            Some(rest) => Some(accn + rest),
            None => None::<Seq<u8>>,
        }),
{
    match spec_b64_decode(s.skip(pnew)) {
        Some(rest) => {
            assert(accs + (pre + rest) =~= accn + rest);
        },
        None => {},
    }
}

/// Decodes an unpadded base64url text.
fn b64_decode_chars(s: &Vec<char>) -> (r: Option<Vec<u8>>)
    ensures
        match r {
            Some(b) => spec_b64_decode(s@) == Some(b@),
            None => spec_b64_decode(s@) is None,
        },
{
    let n = s.len();
    let mut acc: Vec<u8> = Vec::new();
    let mut p: usize = 0;
    proof {
        assert(s@.skip(0) =~= s@);
        match spec_b64_decode(s@.skip(0)) {
            Some(rest) => {
                assert(Seq::<u8>::empty() + rest =~= rest);
            },
            None => {},
        }
    }
    loop
        invariant
            p <= n,
            n == s@.len(),
            spec_b64_decode(s@) == (match spec_b64_decode(s@.skip(p as int)) {
                Some(rest) => Some(acc@ + rest),
                None => None::<Seq<u8>>,
            }),
        decreases n - p,
    {
        let ghost accs = acc@;
        let ghost p0 = p as int;
        let left = n - p;
        if left == 0 {
            proof {
                assert(spec_b64_decode(s@.skip(p as int)) == Some(Seq::<u8>::empty()));
                assert(acc@ + Seq::<u8>::empty() =~= acc@);
            }
            return Some(acc);
        } else if left == 1 {
            return None;
        } else if left == 2 {
            match (b64_val(s[p]), b64_val(s[p + 1])) {
                (Some(v0), Some(v1)) => {
                    if v1 % 16 != 0 {
                        return None;
                    }
                    acc.push(v0 * 4 + v1 / 16);
                    proof {
                        assert(spec_b64_decode(s@.skip(p as int)) == Some(
                            seq![(v0 * 4 + v1 / 16) as u8],
                        ));
                        assert(accs + seq![(v0 * 4 + v1 / 16) as u8] =~= acc@);
                        assert(acc@ + Seq::<u8>::empty() =~= acc@);
                    }
                    return Some(acc);
                },
                _ => {
                    return None;
                },
            }
        } else if left == 3 {
            match (b64_val(s[p]), b64_val(s[p + 1]), b64_val(s[p + 2])) {
                (Some(v0), Some(v1), Some(v2)) => {
                    if v2 % 4 != 0 {
                        return None;
                    }
                    acc.push(v0 * 4 + v1 / 16);
                    acc.push((v1 % 16) * 16 + v2 / 4);
                    proof {
                        assert(accs + seq![
                            (v0 * 4 + v1 / 16) as u8,
                            ((v1 % 16) * 16 + v2 / 4) as u8,
                        ] =~= acc@);
                        assert(acc@ + Seq::<u8>::empty() =~= acc@);
                    }
                    return Some(acc);
                },
                _ => {
                    return None;
                },
            }
        } else {
            match (b64_val(s[p]), b64_val(s[p + 1]), b64_val(s[p + 2]), b64_val(s[p + 3])) {
                (Some(v0), Some(v1), Some(v2), Some(v3)) => {
                    acc.push(v0 * 4 + v1 / 16);
                    acc.push((v1 % 16) * 16 + v2 / 4);
                    acc.push((v2 % 4) * 64 + v3);
                    p = p + 4;
                    proof {
                        assert(s@.skip(p0).skip(4) =~= s@.skip(p as int));
                        assert(accs + seq![
                            (v0 * 4 + v1 / 16) as u8,
                            ((v1 % 16) * 16 + v2 / 4) as u8,
                            ((v2 % 4) * 64 + v3) as u8,
                        ] =~= acc@);
                        lemma_b64_acc(
                            s@,
                            p0,
                            p as int,
                            accs,
                            acc@,
                            seq![
                                (v0 * 4 + v1 / 16) as u8,
                                ((v1 % 16) * 16 + v2 / 4) as u8,
                                ((v2 % 4) * 64 + v3) as u8,
                            ],
                            s@,
                        );
                    }
                },
                _ => {
                    return None;
                },
            }
        }
    }
}

/// Whether the HMAC-SHA-256 signature carried in `signature_b64` (unpadded
/// base64url) is valid for `message` under `secret`.  Stands for what
/// `jsonwebtoken::crypto::verify` computes; a function of its arguments
/// alone.
pub uninterp spec fn hs256_valid(message: Seq<u8>, signature_b64: Seq<char>, secret: Seq<u8>) -> bool;

/// Relies on `jsonwebtoken::crypto::verify` with `Algorithm::HS256` and a
/// secret-bytes decoding key: recomputes the HMAC-SHA-256 of `message` and
/// compares it with the decoded signature; an undecodable signature counts
/// as invalid.
#[verifier::external_body]
fn hs256_verify(message: &Vec<u8>, signature_b64: &str, secret: &[u8]) -> (r: bool)
    ensures
        r == hs256_valid(message@, signature_b64@, secret@),
{
    let key = jsonwebtoken::DecodingKey::from_secret(secret);
    match jsonwebtoken::crypto::verify(
        signature_b64,
        message.as_slice(),
        &key,
        jsonwebtoken::Algorithm::HS256,
    ) {
        Ok(b) => b,
        Err(_) => false,
    }
}

/// The chars a byte sequence decodes to as UTF-8, if it is valid UTF-8.
/// Stands for what `String::from_utf8` computes; a function of its argument
/// alone.
pub uninterp spec fn utf8_chars(bytes: Seq<u8>) -> Option<Seq<char>>;

/// Relies on `String::from_utf8`: succeeds exactly on valid UTF-8 and
/// yields the decoded text.
#[verifier::external_body]
fn utf8_to_string(v: Vec<u8>) -> (r: Option<String>)
    ensures
        match r {
            Some(s) => utf8_chars(v@) == Some(s@),
            None => utf8_chars(v@) is None,
        },
{
    match String::from_utf8(v) {
        Ok(s) => Some(s),
        Err(_) => None,
    }
}

/// Ten to the `n`.
pub open spec fn pow10(n: nat) -> int
    decreases n,
{
    if n == 0 {
        1
    } else {
        10 * pow10((n - 1) as nat)
    }
}

/// The value of a run of decimal digits, most significant first.
pub open spec fn spec_dec_val(s: Seq<char>) -> int
    decreases s.len(),
{
    if s.len() == 0 {
        0
    } else {
        spec_dec_val(s.drop_last()) * 10 + (s.last() as u32 - 48)
    }
}

/// Reads an unsigned JSON integer at `i`: a digit run without a redundant
/// leading zero, not continued by a fraction or exponent, whose value fits
/// the machine's second type.
pub open spec fn spec_exp_num(s: Seq<char>, i: int) -> Option<(usize, int)> {
    if !(0 <= i < s.len() && is_digit(s[i])) {
        None
    } else {
        let end = spec_digits_end(s, i);
        if s[i] as u32 == 48 && end > i + 1 {
            None
        } else if end < s.len() && (s[end] == '.' || s[end] == 'e' || s[end] == 'E') {
            None
        } else {
            let v = spec_dec_val(s.subrange(i, end));
            if v > usize::MAX {
                None
            } else {
                Some((v as usize, end))
            }
        }
    }
}

proof fn lemma_pow10_pos(n: nat)
    ensures
        pow10(n) >= 1,
    decreases n,
{
    if n > 0 {
        lemma_pow10_pos((n - 1) as nat);
    }
}

proof fn lemma_dec_val_bound(s: Seq<char>)
    requires
        forall|i: int| 0 <= i < s.len() ==> is_digit(#[trigger] s[i]),
    ensures
        0 <= spec_dec_val(s) < pow10(s.len() as nat),
    decreases s.len(),
{
    if s.len() > 0 {
        lemma_dec_val_bound(s.drop_last());
    }
}

proof fn lemma_dec_val_lower(s: Seq<char>)
    requires
        s.len() > 0,
        forall|i: int| 0 <= i < s.len() ==> is_digit(#[trigger] s[i]),
        s[0] as u32 != 48,
    ensures
        spec_dec_val(s) >= pow10((s.len() - 1) as nat),
    decreases s.len(),
{
    let dl = s.drop_last();
    if s.len() == 1 {
        assert(is_digit(s[0]));
        assert(s.last() == s[0]);
        assert(s.last() as u32 >= 49);
        assert(spec_dec_val(dl) == 0);
        assert(spec_dec_val(s) == spec_dec_val(dl) * 10 + (s.last() as u32 - 48));
        assert(pow10((s.len() - 1) as nat) == 1);
    } else {
        assert(dl[0] == s[0]);
        assert forall|i: int| 0 <= i < dl.len() implies is_digit(#[trigger] dl[i]) by {
            assert(dl[i] == s[i]);
        }
        lemma_dec_val_lower(dl);
        lemma_pow10_pos((s.len() - 2) as nat);
        assert(is_digit(s.last()));
        assert(spec_dec_val(s) == spec_dec_val(dl) * 10 + (s.last() as u32 - 48));
        assert(spec_dec_val(dl) >= pow10((dl.len() - 1) as nat));
        assert(pow10((s.len() - 1) as nat) == 10 * pow10((s.len() - 2) as nat));
        assert(s.last() as u32 >= 48);
    }
}

proof fn lemma_digits_in_run(s: Seq<char>, i: int, k: int)
    requires
        0 <= i <= k < spec_digits_end(s, i),
    ensures
        k < s.len() && is_digit(s[k]),
    decreases s.len() - i,
{
    if 0 <= i < s.len() && is_digit(s[i]) {
        if k > i {
            lemma_digits_in_run(s, i + 1, k);
        }
    }
}

/// Reads an unsigned JSON integer at `i`, as [`spec_exp_num`] describes.
fn exp_num(s: &Vec<char>, i: usize) -> (r: Option<(usize, usize)>)
    requires
        i <= s@.len(),
    ensures
        match r {
            Some(t) => spec_exp_num(s@, i as int) == Some((t.0, t.1 as int)) && i < t.1
                <= s@.len(),
            None => spec_exp_num(s@, i as int) is None,
        },
{
    let n = s.len();
    if !(i < n && 48 <= (s[i] as u32) && (s[i] as u32) <= 57) {
        return None;
    }
    let end = crate::json::digits_end(s, i);
    proof {
        crate::json::lemma_digits_end_ge(s@, i as int + 1);
    }
    if (s[i] as u32) == 48 && end > i + 1 {
        return None;
    }
    if end < n && (s[end] == '.' || s[end] == 'e' || s[end] == 'E') {
        return None;
    }
    let ghost ds = s@.subrange(i as int, end as int);
    proof {
        assert forall|q: int| 0 <= q < ds.len() implies is_digit(#[trigger] ds[q]) by {
            lemma_digits_in_run(s@, i as int, i + q);
        }
    }
    if end - i > 20 {
        proof {
            assert(ds[0] == s@[i as int]);
            lemma_dec_val_lower(ds);
            lemma_pow10_mono(20, (ds.len() - 1) as nat);
            assert(pow10(20) > usize::MAX as int) by {
                reveal_with_fuel(pow10, 21);
            }
        }
        return None;
    }
    let mut acc: u128 = 0;
    let mut k = i;
    while k < end
        invariant
            i <= k <= end <= n,
            n == s@.len(),
            end - i <= 20,
            ds == s@.subrange(i as int, end as int),
            forall|q: int| 0 <= q < ds.len() ==> is_digit(#[trigger] ds[q]),
            acc as int == spec_dec_val(s@.subrange(i as int, k as int)),
            (acc as int) < pow10((k - i) as nat),
        decreases end - k,
    {
        let ghost pref = s@.subrange(i as int, k as int);
        proof {
            assert(s@.subrange(i as int, k as int + 1).drop_last() =~= pref);
            assert(is_digit(ds[k - i]));
            assert(s@[k as int] == ds[k - i]);
            lemma_pow10_mono((k - i + 1) as nat, 20);
            assert(pow10(20) < u128::MAX as int) by {
                reveal_with_fuel(pow10, 21);
            }
        }
        let d = (s[k] as u32) - 48;
        acc = acc * 10 + (d as u128);
        k = k + 1;
    }
    proof {
        assert(s@.subrange(i as int, end as int) == ds);
    }
    if acc > (usize::MAX as u128) {
        return None;
    }
    Some((acc as usize, end))
}

proof fn lemma_pow10_mono(a: nat, b: nat)
    requires
        a <= b,
    ensures
        pow10(a) <= pow10(b),
    decreases b,
{
    if a < b {
        lemma_pow10_mono(a, (b - 1) as nat);
        lemma_pow10_pos((b - 1) as nat);
    }
}

/// Scans the members of a claims object: `sub` holds a textual 128-bit id,
/// `name` and `email` hold strings, `exp` holds an unsigned integer; every
/// other member is read past.  Each of the four may come once and all four
/// must be present at the closing brace.
pub open spec fn spec_claims_fields(
    s: Seq<char>,
    i: int,
    sub: Option<u128>,
    name: Option<Seq<char>>,
    email: Option<Seq<char>>,
    exp: Option<usize>,
    first: bool,
    fuel: nat,
) -> Option<((u128, Seq<char>, Seq<char>, usize), int)>
    decreases fuel, 1int,
{
    if fuel == 0 {
        None
    } else {
        let j = spec_skip_ws(s, i);
        if first && 0 <= j < s.len() && s[j] == '}' {
            match (sub, name, email, exp) {
                (Some(sv), Some(nv), Some(ev), Some(xv)) => Some(((sv, nv, ev, xv), j + 1)),
                _ => None,
            }
        } else {
            match spec_parse_string(s, j) {
                Some((key, j2)) => {
                    let j3 = spec_skip_ws(s, j2);
                    if 0 <= j3 < s.len() && s[j3] == ':' {
                        let jv = spec_skip_ws(s, j3 + 1);
                        if key == "sub"@ {
                            if sub is Some {
                                None
                            } else {
                                match spec_parse_string(s, jv) {
                                    Some((v, j4)) => match spec_parse_uuid(v) {
                                        Some(u) => spec_claims_after(
                                            s,
                                            j4,
                                            Some(u),
                                            name,
                                            email,
                                            exp,
                                            fuel,
                                        ),
                                        None => None,
                                    },
                                    None => None,
                                }
                            }
                        } else if key == "name"@ {
                            if name is Some {
                                None
                            } else {
                                match spec_parse_string(s, jv) {
                                    Some((v, j4)) => spec_claims_after(
                                        s,
                                        j4,
                                        sub,
                                        Some(v),
                                        email,
                                        exp,
                                        fuel,
                                    ),
                                    None => None,
                                }
                            }
                        } else if key == "email"@ {
                            if email is Some {
                                None
                            } else {
                                match spec_parse_string(s, jv) {
                                    Some((v, j4)) => spec_claims_after(
                                        s,
                                        j4,
                                        sub,
                                        name,
                                        Some(v),
                                        exp,
                                        fuel,
                                    ),
                                    None => None,
                                }
                            }
                        } else if key == "exp"@ {
                            if exp is Some {
                                None
                            } else {
                                match spec_exp_num(s, jv) {
                                    Some((v, j4)) => spec_claims_after(
                                        s,
                                        j4,
                                        sub,
                                        name,
                                        email,
                                        Some(v),
                                        fuel,
                                    ),
                                    None => None,
                                }
                            }
                        } else {
                            match spec_skip_value(s, jv, fuel) {
                                Some(j4) => spec_claims_after(s, j4, sub, name, email, exp, fuel),
                                None => None,
                            }
                        }
                    } else {
                        None
                    }
                },
                None => None,
            }
        }
    }
}

/// After one claims member: a comma continues, a closing brace ends the
/// object and requires all four members.
pub open spec fn spec_claims_after(
    s: Seq<char>,
    i: int,
    sub: Option<u128>,
    name: Option<Seq<char>>,
    email: Option<Seq<char>>,
    exp: Option<usize>,
    fuel: nat,
) -> Option<((u128, Seq<char>, Seq<char>, usize), int)>
    decreases fuel, 0int,
{
    if fuel == 0 {
        None
    } else {
        let j = spec_skip_ws(s, i);
        if 0 <= j < s.len() && s[j] == ',' {
            spec_claims_fields(s, j + 1, sub, name, email, exp, false, (fuel - 1) as nat)
        } else if 0 <= j < s.len() && s[j] == '}' {
            match (sub, name, email, exp) {
                (Some(sv), Some(nv), Some(ev), Some(xv)) => Some(((sv, nv, ev, xv), j + 1)),
                _ => None,
            }
        } else {
            None
        }
    }
}

/// What the claims reader accepts: a document holding one claims object.
pub open spec fn spec_parse_claims(s: Seq<char>) -> Option<(u128, Seq<char>, Seq<char>, usize)> {
    let j = spec_skip_ws(s, 0);
    if 0 <= j < s.len() && s[j] == '{' {
        match spec_claims_fields(s, j + 1, None, None, None, None, true, s.len() as nat) {
            Some((t, end)) => if spec_skip_ws(s, end) == s.len() {
                Some(t)
            } else {
                None
            },
            None => None,
        }
    } else {
        None
    }
}

fn claims_doc(s: &Vec<char>) -> (r: Option<(u128, Vec<char>, Vec<char>, usize)>)
    ensures
        match r {
            Some(t) => spec_parse_claims(s@) == Some((t.0, t.1@, t.2@, t.3)),
            None => spec_parse_claims(s@) is None,
        },
{
    let n = s.len();
    let j = skip_ws(s, 0);
    if !(j < n && s[j] == '{') {
        return None;
    }
    let key_sub = str_to_chars("sub");
    let key_name = str_to_chars("name");
    let key_email = str_to_chars("email");
    let key_exp = str_to_chars("exp");
    let mut p = j + 1;
    let mut fst = true;
    let mut fu = n;
    let mut sub: Option<u128> = None;
    let mut name: Option<Vec<char>> = None;
    let mut email: Option<Vec<char>> = None;
    let mut exp: Option<usize> = None;
    proof {
        broadcast use vstd::string::group_string_axioms;

        reveal_strlit("sub");
        reveal_strlit("name");
        reveal_strlit("email");
        reveal_strlit("exp");
        assert("sub"@.len() == 3);
        assert("name"@.len() == 4);
        assert("email"@.len() == 5);
        assert("exp"@.len() == 3);
        assert(("sub"@)[0] == 's');
        assert(("exp"@)[0] == 'e');
    }
    loop
        invariant
            n == s@.len(),
            p <= n,
            fu <= n,
            j < n,
            s@[j as int] == '{',
            j == spec_skip_ws(s@, 0),
            key_sub@ == "sub"@,
            key_name@ == "name"@,
            key_email@ == "email"@,
            key_exp@ == "exp"@,
            spec_claims_fields(s@, j + 1, None, None, None, None, true, n as nat)
                == spec_claims_fields(
                s@,
                p as int,
                sub,
                crate::chat_message::opt_view(name),
                crate::chat_message::opt_view(email),
                exp,
                fst,
                fu as nat,
            ),
        decreases fu,
    {
        if fu == 0 {
            return None;
        }
        let jj = skip_ws(s, p);
        let mut after: usize;
        if fst && jj < n && s[jj] == '}' {
            let t = skip_ws(s, jj + 1);
            if t != n {
                return None;
            }
            match (sub, name, email, exp) {
                (Some(sv), Some(nv), Some(ev), Some(xv)) => {
                    return Some((sv, nv, ev, xv));
                },
                _ => {
                    return None;
                },
            }
        }
        match parse_string_at(s, jj) {
            Some(kv) => {
                let j3 = skip_ws(s, kv.1);
                if !(j3 < n && s[j3] == ':') {
                    return None;
                }
                let jv = skip_ws(s, j3 + 1);
                if chars_eq(&kv.0, &key_sub) {
                    if sub.is_some() {
                        return None;
                    }
                    match parse_string_at(s, jv) {
                        Some(vv) => {
                            match crate::ids::parse_uuid_chars(&vv.0) {
                                Some(u) => {
                                    sub = Some(u);
                                    after = vv.1;
                                },
                                None => {
                                    return None;
                                },
                            }
                        },
                        None => {
                            return None;
                        },
                    }
                } else if chars_eq(&kv.0, &key_name) {
                    if name.is_some() {
                        return None;
                    }
                    match parse_string_at(s, jv) {
                        Some(vv) => {
                            name = Some(vv.0);
                            after = vv.1;
                        },
                        None => {
                            return None;
                        },
                    }
                } else if chars_eq(&kv.0, &key_email) {
                    if email.is_some() {
                        return None;
                    }
                    match parse_string_at(s, jv) {
                        Some(vv) => {
                            email = Some(vv.0);
                            after = vv.1;
                        },
                        None => {
                            return None;
                        },
                    }
                } else if chars_eq(&kv.0, &key_exp) {
                    if exp.is_some() {
                        return None;
                    }
                    match exp_num(s, jv) {
                        Some(vv) => {
                            exp = Some(vv.0);
                            after = vv.1;
                        },
                        None => {
                            return None;
                        },
                    }
                } else {
                    match skip_value(s, jv, fu) {
                        Some(j4) => {
                            after = j4;
                        },
                        None => {
                            return None;
                        },
                    }
                }
            },
            None => {
                return None;
            },
        }
        let j5 = skip_ws(s, after);
        if j5 < n && s[j5] == ',' {
            p = j5 + 1;
            fst = false;
            fu = fu - 1;
        } else if j5 < n && s[j5] == '}' {
            let t = skip_ws(s, j5 + 1);
            if t != n {
                return None;
            }
            match (sub, name, email, exp) {
                (Some(sv), Some(nv), Some(ev), Some(xv)) => {
                    return Some((sv, nv, ev, xv));
                },
                _ => {
                    return None;
                },
            }
        } else {
            return None;
        }
    }
}

/// First index at or after `i` holding `c`, else the length.
pub open spec fn spec_find_char(s: Seq<char>, i: int, c: char) -> int
    decreases s.len() - i,
{
    if i < 0 || i >= s.len() {
        s.len() as int
    } else if s[i] == c {
        i
    } else {
        spec_find_char(s, i + 1, c)
    }
}

fn find_char(s: &Vec<char>, i: usize, c: char) -> (r: usize)
    requires
        i <= s@.len(),
    ensures
        r == spec_find_char(s@, i as int, c),
        i <= r <= s@.len(),
{
    let n = s.len();
    let mut p = i;
    while p < n && s[p] != c
        invariant
            i <= p <= n,
            n == s@.len(),
            spec_find_char(s@, i as int, c) == spec_find_char(s@, p as int, c),
        decreases n - p,
    {
        p = p + 1;
    }
    p
}

/// The bytes of an ASCII text, char by char.
pub open spec fn ascii_bytes(s: Seq<char>) -> Seq<u8> {
    Seq::new(s.len(), |i: int| s[i] as u8)
}

/// Whether every char of `s` is ASCII.
pub open spec fn all_ascii(s: Seq<char>) -> bool {
    forall|i: int| 0 <= i < s.len() ==> (#[trigger] s[i] as u32) < 128
}

/// What the verifier decides for a token, a shared secret and a clock
/// reading, in the order the checks run: the token must hold exactly two
/// dots; its first part must decode (base64url, then UTF-8) to a header
/// object whose `alg` member is `HS256`; the signature over the first two
/// parts must check out under `secret`; the second part must decode to a
/// claims object; and the expiry, with its leeway, must not lie before
/// `now`.  Anything else is refused with the first failing stage's error.
pub open spec fn spec_validate(token: Seq<char>, secret: Seq<u8>, now: usize) -> Result<
    ClaimsView,
    AuthError,
> {
    let d1 = spec_find_char(token, 0, '.');
    let d2 = spec_find_char(token, d1 + 1, '.');
    let d3 = spec_find_char(token, d2 + 1, '.');
    if d1 == token.len() || d2 == token.len() || d3 != token.len() {
        Err(AuthError::Malformed)
    } else {
        match spec_b64_decode(token.subrange(0, d1)) {
            Some(hb) => match utf8_chars(hb) {
                Some(hc) => match crate::chat_message::spec_parse_single(hc, "alg"@) {
                    Some(alg) => if alg != "HS256"@ {
                        Err(AuthError::Malformed)
                    } else if !all_ascii(token.take(d2)) {
                        Err(AuthError::Malformed)
                    } else if !hs256_valid(
                        ascii_bytes(token.take(d2)),
                        token.subrange(d2 + 1, token.len() as int),
                        secret,
                    ) {
                        Err(AuthError::InvalidSignature)
                    } else {
                        match spec_b64_decode(token.subrange(d1 + 1, d2)) {
                            Some(cb) => match utf8_chars(cb) {
                                Some(cc) => match spec_parse_claims(cc) {
                                    Some(t) => if (t.3 as int) < (now as int)
                                        - (EXPIRY_LEEWAY_SECS as int) {
                                        Err(AuthError::Expired)
                                    } else {
                                        Ok(ClaimsView { sub: t.0, name: t.1, email: t.2, exp: t.3 })
                                    },
                                    None => Err(AuthError::Malformed),
                                },
                                None => Err(AuthError::Malformed),
                            },
                            None => Err(AuthError::Malformed),
                        }
                    },
                    None => Err(AuthError::Malformed),
                },
                None => Err(AuthError::Malformed),
            },
            None => Err(AuthError::Malformed),
        }
    }
}

fn ascii_message(tv: &Vec<char>, d2: usize) -> (r: Option<Vec<u8>>)
    requires
        d2 <= tv@.len(),
    ensures
        match r {
            Some(m) => all_ascii(tv@.take(d2 as int)) && m@ == ascii_bytes(tv@.take(d2 as int)),
            None => !all_ascii(tv@.take(d2 as int)),
        },
{
    let n = tv.len();
    let mut msg: Vec<u8> = Vec::new();
    let mut k: usize = 0;
    while k < d2
        invariant
            k <= d2 <= n,
            n == tv@.len(),
            msg@ =~= ascii_bytes(tv@.take(d2 as int)).take(k as int),
            all_ascii(tv@.take(k as int)),
        decreases d2 - k,
    {
        let c = tv[k];
        if (c as u32) >= 128 {
            proof {
                assert(tv@.take(d2 as int)[k as int] == c);
                assert(!all_ascii(tv@.take(d2 as int)));
            }
            return None;
        }
        msg.push(c as u8);
        proof {
            assert(msg@ =~= ascii_bytes(tv@.take(d2 as int)).take(k as int + 1));
            assert forall|q: int| 0 <= q < k + 1 implies (#[trigger] tv@.take(k as int + 1)[q]
                as u32) < 128 by {
                if q < k {
                    assert((tv@.take(k as int)[q] as u32) < 128);
                }
            }
        }
        k = k + 1;
    }
    proof {
        assert(msg@ =~= ascii_bytes(tv@.take(d2 as int)));
        assert(all_ascii(tv@.take(d2 as int)));
    }
    Some(msg)
}

/// Checks a bearer token against the shared `secret` and the clock reading
/// `now` (unix seconds), and yields the identity record it carries, exactly
/// as [`spec_validate`] decides.
pub fn validate_token(token: &str, secret: &[u8], now: usize) -> (r: Result<Claims, AuthError>)
    ensures
        match r {
            Ok(c) => spec_validate(token@, secret@, now) == Ok::<ClaimsView, AuthError>(c@),
            Err(e) => spec_validate(token@, secret@, now) == Err::<ClaimsView, AuthError>(e),
        },
{
    let tv = str_to_chars(token);
    let n = tv.len();
    let d1 = find_char(&tv, 0, '.');
    if d1 == n {
        return Err(AuthError::Malformed);
    }
    let d2 = find_char(&tv, d1 + 1, '.');
    if d2 == n {
        return Err(AuthError::Malformed);
    }
    let d3 = find_char(&tv, d2 + 1, '.');
    if d3 != n {
        return Err(AuthError::Malformed);
    }
    let header_part = crate::json::sub_chars(&tv, 0, d1);
    let hb = match b64_decode_chars(&header_part) {
        Some(hb) => hb,
        None => {
            return Err(AuthError::Malformed);
        },
    };
    let hs = match utf8_to_string(hb) {
        Some(hs) => hs,
        None => {
            return Err(AuthError::Malformed);
        },
    };
    let hv = str_to_chars(hs.as_str());
    let key_alg = str_to_chars("alg");
    let alg = match crate::chat_message::single_doc(&hv, &key_alg) {
        Some(a) => a,
        None => {
            return Err(AuthError::Malformed);
        },
    };
    let hs256 = str_to_chars("HS256");
    if !chars_eq(&alg, &hs256) {
        return Err(AuthError::Malformed);
    }
    let msg = match ascii_message(&tv, d2) {
        Some(m) => m,
        None => {
            return Err(AuthError::Malformed);
        },
    };
    let sig = crate::json::sub_chars(&tv, d2 + 1, n);
    let sig_str = chars_to_string(&sig);
    if !hs256_verify(&msg, sig_str.as_str(), secret) {
        return Err(AuthError::InvalidSignature);
    }
    let claims_part = crate::json::sub_chars(&tv, d1 + 1, d2);
    let cb = match b64_decode_chars(&claims_part) {
        Some(cb) => cb,
        None => {
            return Err(AuthError::Malformed);
        },
    };
    let cs = match utf8_to_string(cb) {
        Some(cs) => cs,
        None => {
            return Err(AuthError::Malformed);
        },
    };
    let cv = str_to_chars(cs.as_str());
    match claims_doc(&cv) {
        Some(t) => {
            if now > EXPIRY_LEEWAY_SECS && t.3 < now - EXPIRY_LEEWAY_SECS {
                Err(AuthError::Expired)
            } else {
                Ok(
                    Claims {
                        sub: t.0,
                        name: chars_to_string(&t.1),
                        email: chars_to_string(&t.2),
                        exp: t.3,
                    },
                )
            }
        },
        None => Err(AuthError::Malformed),
    }
}

} // verus!
