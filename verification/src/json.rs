//! A small JSON reader and writer for the wire envelopes this service
//! exchanges: text frames, bus events, and the egress payload.  The writer
//! escapes exactly as the envelopes need; the reader walks one JSON document
//! char by char, keeps the string members the envelopes name, and skips every
//! other member.
use vstd::prelude::*;
use vstd::std_specs::iter::IteratorSpec;

verus! {

/// JSON insignificant whitespace.
pub open spec fn is_json_ws(c: char) -> bool {
    c == ' ' || c == '\t' || c == '\n' || c == '\r'
}

/// First index at or after `i` holding a non-whitespace char.
pub open spec fn spec_skip_ws(s: Seq<char>, i: int) -> int
    decreases s.len() - i,
{
    if i < 0 || i >= s.len() {
        i
    } else if is_json_ws(s[i]) {
        spec_skip_ws(s, i + 1)
    } else {
        i
    }
}

/// The value of a hex digit, if `c` is one.
pub open spec fn spec_hex_val(c: char) -> Option<u32> {
    let u = c as u32;
    if 48 <= u <= 57 {
        Some((u - 48) as u32)
    } else if 97 <= u <= 102 {
        Some((u - 87) as u32)
    } else if 65 <= u <= 70 {
        Some((u - 55) as u32)
    } else {
        None
    }
}

/// The lowercase hex digit for a value below 16.
pub open spec fn spec_hex_char(v: u32) -> char {
    if v < 10 {
        ((v + 48) as u8) as char
    } else {
        ((v + 87) as u8) as char
    }
}

/// How the writer renders one char inside a JSON string: quote and backslash
/// get a backslash escape, the control chars with a short form get it, every
/// other control char becomes `\u00..`, and everything else stands as itself.
pub open spec fn spec_escape_char(c: char) -> Seq<char> {
    if c == '"' {
        seq!['\\', '"']
    } else if c == '\\' {
        seq!['\\', '\\']
    } else if c == '\u{0008}' {
        seq!['\\', 'b']
    } else if c == '\u{000C}' {
        seq!['\\', 'f']
    } else if c == '\n' {
        seq!['\\', 'n']
    } else if c == '\r' {
        seq!['\\', 'r']
    } else if c == '\t' {
        seq!['\\', 't']
    } else if (c as u32) < 32 {
        seq!['\\', 'u', '0', '0', spec_hex_char((c as u32) / 16), spec_hex_char((c as u32) % 16)]
    } else {
        seq![c]
    }
}

/// The writer's rendering of a whole string body.
pub open spec fn spec_escape(s: Seq<char>) -> Seq<char>
    decreases s.len(),
{
    if s.len() == 0 {
        Seq::empty()
    } else {
        spec_escape_char(s[0]) + spec_escape(s.skip(1))
    }
}

/// A full JSON string token: quote, escaped body, quote.
pub open spec fn spec_quoted(s: Seq<char>) -> Seq<char> {
    seq!['"'] + spec_escape(s) + seq!['"']
}

/// Reads a JSON string body starting at `i` (just after the opening quote):
/// the decoded chars and the index just after the closing quote.  Mirrors
/// the usual JSON rules: the short backslash escapes, `\uXXXX` with
/// surrogate pairs combined, a lone surrogate refused, and a raw control
/// char refused.
pub open spec fn spec_parse_str_body(s: Seq<char>, i: int) -> Option<(Seq<char>, int)>
    decreases s.len() - i,
{
    if i < 0 || i >= s.len() {
        None
    } else if s[i] == '"' {
        Some((Seq::empty(), i + 1))
    } else if s[i] == '\\' {
        if i + 1 >= s.len() {
            None
        } else {
            let e = s[i + 1];
            if e == '"' || e == '\\' || e == '/' {
                match spec_parse_str_body(s, i + 2) {
                    Some((v, j)) => Some((seq![e] + v, j)),
                    None => None,
                }
            } else if e == 'b' || e == 'f' || e == 'n' || e == 'r' || e == 't' {
                let c = if e == 'b' {
                    '\u{0008}'
                } else if e == 'f' {
                    '\u{000C}'
                } else if e == 'n' {
                    '\n'
                } else if e == 'r' {
                    '\r'
                } else {
                    '\t'
                };
                match spec_parse_str_body(s, i + 2) {
                    Some((v, j)) => Some((seq![c] + v, j)),
                    None => None,
                }
            } else if e == 'u' {
                match spec_hex4(s, i + 2) {
                    Some(code) => if 0xD800 <= code < 0xDC00 {
                        // high surrogate: a low surrogate escape must follow
                        if i + 12 <= s.len() && s[i + 6] == '\\' && s[i + 7] == 'u' {
                            match spec_hex4(s, i + 8) {
                                Some(lo) => if 0xDC00 <= lo < 0xE000 {
                                    let combined = (0x10000 + (code - 0xD800) * 0x400 + (lo
                                        - 0xDC00)) as u32;
                                    match spec_parse_str_body(s, i + 12) {
                                        Some((v, j)) => Some((seq![combined as char] + v, j)),
                                        None => None,
                                    }
                                } else {
                                    None
                                },
                                None => None,
                            }
                        } else {
                            None
                        }
                    } else if 0xDC00 <= code < 0xE000 {
                        None
                    } else {
                        match spec_parse_str_body(s, i + 6) {
                            Some((v, j)) => Some((seq![code as char] + v, j)),
                            None => None,
                        }
                    },
                    None => None,
                }
            } else {
                None
            }
        }
    } else if (s[i] as u32) < 32 {
        None
    } else {
        match spec_parse_str_body(s, i + 1) {
            Some((v, j)) => Some((seq![s[i]] + v, j)),
            None => None,
        }
    }
}

/// Four hex digits starting at `i`, as a value.
pub open spec fn spec_hex4(s: Seq<char>, i: int) -> Option<u32> {
    if i < 0 || i + 4 > s.len() {
        None
    } else {
        match (spec_hex_val(s[i]), spec_hex_val(s[i + 1]), spec_hex_val(s[i + 2]), spec_hex_val(
            s[i + 3],
        )) {
            (Some(a), Some(b), Some(c), Some(d)) => Some(
                (a * 0x1000 + b * 0x100 + c * 0x10 + d) as u32,
            ),
            _ => None,
        }
    }
}

/// Reads a JSON string token starting at `i` (at the opening quote).
pub open spec fn spec_parse_string(s: Seq<char>, i: int) -> Option<(Seq<char>, int)> {
    if 0 <= i < s.len() && s[i] == '"' {
        spec_parse_str_body(s, i + 1)
    } else {
        None
    }
}

/// An ASCII decimal digit.
pub open spec fn is_digit(c: char) -> bool {
    48 <= c as u32 <= 57
}

/// First index at or after `i` holding a non-digit char.
pub open spec fn spec_digits_end(s: Seq<char>, i: int) -> int
    decreases s.len() - i,
{
    if 0 <= i < s.len() && is_digit(s[i]) {
        spec_digits_end(s, i + 1)
    } else {
        i
    }
}

/// Reads past a JSON number starting at `i`: optional minus, an integer part
/// without a leading zero, an optional fraction, an optional exponent.
pub open spec fn spec_skip_number(s: Seq<char>, i: int) -> Option<int> {
    let j0 = if 0 <= i < s.len() && s[i] == '-' {
        i + 1
    } else {
        i
    };
    if !(0 <= j0 < s.len() && is_digit(s[j0])) {
        None
    } else {
        let j1 = if s[j0] == '0' {
            j0 + 1
        } else {
            spec_digits_end(s, j0)
        };
        let j2 = if j1 < s.len() && s[j1] == '.' {
            if j1 + 1 < s.len() && is_digit(s[j1 + 1]) {
                spec_digits_end(s, j1 + 1)
            } else {
                -1
            }
        } else {
            j1
        };
        if j2 < 0 {
            None
        } else {
            let j3 = if j2 < s.len() && (s[j2] == 'e' || s[j2] == 'E') {
                let je = if j2 + 1 < s.len() && (s[j2 + 1] == '+' || s[j2 + 1] == '-') {
                    j2 + 2
                } else {
                    j2 + 1
                };
                if je < s.len() && is_digit(s[je]) {
                    spec_digits_end(s, je)
                } else {
                    -1
                }
            } else {
                j2
            };
            if j3 < 0 {
                None
            } else {
                Some(j3)
            }
        }
    }
}

/// Reads past one JSON value starting at `i` (at a non-whitespace char).
/// `fuel` bounds the reader's recursion into nested values; every reader of
/// this crate passes one more than the document's length, which no document
/// can exhaust.
pub open spec fn spec_skip_value(s: Seq<char>, i: int, fuel: nat) -> Option<int>
    decreases fuel,
{
    if fuel == 0 {
        None
    } else if !(0 <= i < s.len()) {
        None
    } else {
        let c = s[i];
        if c == '"' {
            match spec_parse_string(s, i) {
                Some((v, j)) => Some(j),
                None => None,
            }
        } else if c == '{' {
            spec_skip_members(s, i + 1, true, (fuel - 1) as nat)
        } else if c == '[' {
            spec_skip_elements(s, i + 1, true, (fuel - 1) as nat)
        } else if c == 't' {
            if i + 4 <= s.len() && s[i + 1] == 'r' && s[i + 2] == 'u' && s[i + 3] == 'e' {
                Some(i + 4)
            } else {
                None
            }
        } else if c == 'f' {
            if i + 5 <= s.len() && s[i + 1] == 'a' && s[i + 2] == 'l' && s[i + 3] == 's' && s[i + 4]
                == 'e' {
                Some(i + 5)
            } else {
                None
            }
        } else if c == 'n' {
            if i + 4 <= s.len() && s[i + 1] == 'u' && s[i + 2] == 'l' && s[i + 3] == 'l' {
                Some(i + 4)
            } else {
                None
            }
        } else {
            spec_skip_number(s, i)
        }
    }
}

/// Reads past the members of an object, `i` standing just after the opening
/// brace or a comma; `first` tells whether a closing brace may come directly.
pub open spec fn spec_skip_members(s: Seq<char>, i: int, first: bool, fuel: nat) -> Option<int>
    decreases fuel,
{
    if fuel == 0 {
        None
    } else {
        let j = spec_skip_ws(s, i);
        if first && 0 <= j < s.len() && s[j] == '}' {
            Some(j + 1)
        } else {
            match spec_parse_string(s, j) {
                Some((k, j2)) => {
                    let j3 = spec_skip_ws(s, j2);
                    if 0 <= j3 < s.len() && s[j3] == ':' {
                        match spec_skip_value(s, spec_skip_ws(s, j3 + 1), (fuel - 1) as nat) {
                            Some(j4) => {
                                let j5 = spec_skip_ws(s, j4);
                                if 0 <= j5 < s.len() && s[j5] == ',' {
                                    spec_skip_members(s, j5 + 1, false, (fuel - 1) as nat)
                                } else if 0 <= j5 < s.len() && s[j5] == '}' {
                                    Some(j5 + 1)
                                } else {
                                    None
                                }
                            },
                            None => None,
                        }
                    } else {
                        None
                    }
                },
                None => None,
            }
        }
    }
}

/// Reads past the elements of an array, `i` standing just after the opening
/// bracket or a comma.
pub open spec fn spec_skip_elements(s: Seq<char>, i: int, first: bool, fuel: nat) -> Option<int>
    decreases fuel,
{
    if fuel == 0 {
        None
    } else {
        let j = spec_skip_ws(s, i);
        if first && 0 <= j < s.len() && s[j] == ']' {
            Some(j + 1)
        } else {
            match spec_skip_value(s, j, (fuel - 1) as nat) {
                Some(j2) => {
                    let j3 = spec_skip_ws(s, j2);
                    if 0 <= j3 < s.len() && s[j3] == ',' {
                        spec_skip_elements(s, j3 + 1, false, (fuel - 1) as nat)
                    } else if 0 <= j3 < s.len() && s[j3] == ']' {
                        Some(j3 + 1)
                    } else {
                        None
                    }
                },
                None => None,
            }
        }
    }
}

proof fn lemma_acc_step(
    s: Seq<char>,
    istart: int,
    p0: int,
    pnew: int,
    accs: Seq<char>,
    accn: Seq<char>,
    ch: char,
)
    requires
        accn == accs.push(ch),
        spec_parse_str_body(s, p0) == (match spec_parse_str_body(s, pnew) {
            Some((v, j)) => Some((seq![ch] + v, j)),
            None => None::<(Seq<char>, int)>,
        }),
        spec_parse_str_body(s, istart) == (match spec_parse_str_body(s, p0) {
            Some((v, j)) => Some((accs + v, j)),
            None => None::<(Seq<char>, int)>,
        }),
    ensures
        spec_parse_str_body(s, istart) == (match spec_parse_str_body(s, pnew) {
            Some((v, j)) => Some((accn + v, j)),
            None => None::<(Seq<char>, int)>,
        }),
{
    match spec_parse_str_body(s, pnew) {
        Some((v, j)) => {
            assert(accs + (seq![ch] + v) =~= accn + v);
        },
        None => {},
    }
}

/// The chars of `s`, one vector slot per char.
pub fn str_to_chars(s: &str) -> (r: Vec<char>)
    ensures
        r@ == s@,
{
    broadcast use vstd::string::group_string_axioms;

    let mut it = s.chars();
    let mut r: Vec<char> = Vec::new();
    loop
        invariant
            r@ + IteratorSpec::remaining(&it) =~= s@,
            IteratorSpec::decrease(&it) is Some,
        decreases IteratorSpec::decrease(&it)->0,
    {
        match it.next() {
            Some(c) => {
                r.push(c);
            },
            None => {
                proof {
                    assert(IteratorSpec::remaining(&it) =~= Seq::<char>::empty());
                    assert(r@ + IteratorSpec::remaining(&it) =~= r@);
                }
                return r;
            },
        }
    }
}

/// Relies on `String::push`: appends exactly the given character.
#[verifier::external_body]
fn push_char(s: &mut String, c: char)
    ensures
        final(s)@ == old(s)@.push(c),
{
    s.push(c);
}

/// The string holding exactly the chars of `v`.
pub fn chars_to_string(v: &Vec<char>) -> (r: String)
    ensures
        r@ == v@,
{
    let mut r = String::new();
    let n = v.len();
    for i in 0..n
        invariant
            n == v@.len(),
            r@ =~= v@.take(i as int),
    {
        push_char(&mut r, v[i]);
        proof {
            assert(r@ =~= v@.take(i + 1));
        }
    }
    proof {
        assert(v@.take(n as int) =~= v@);
    }
    r
}

/// Relies on `char::from_u32`: yields the char with the given code exactly
/// on Unicode scalar values (not a surrogate, at most 0x10FFFF), else `None`.
#[verifier::external_body]
fn char_from_code(u: u32) -> (r: Option<char>)
    ensures
        r == if (u < 0xD800 || (0xE000 <= u && u <= 0x10FFFF)) {
            Some(u as char)
        } else {
            None::<char>
        },
{
    char::from_u32(u)
}

fn ws_char(c: char) -> (b: bool)
    ensures
        b == is_json_ws(c),
{
    c == ' ' || c == '\t' || c == '\n' || c == '\r'
}

/// First position at or after `i` holding a non-whitespace char.
pub fn skip_ws(s: &Vec<char>, i: usize) -> (r: usize)
    requires
        i <= s@.len(),
    ensures
        r == spec_skip_ws(s@, i as int),
        i <= r <= s@.len(),
{
    let n = s.len();
    let mut p = i;
    while p < n && ws_char(s[p])
        invariant
            i <= p <= n,
            n == s@.len(),
            spec_skip_ws(s@, i as int) == spec_skip_ws(s@, p as int),
        decreases n - p,
    {
        p = p + 1;
    }
    p
}

pub(crate) fn hex_val(c: char) -> (r: Option<u32>)
    ensures
        r == spec_hex_val(c),
{
    let u = c as u32;
    if 48 <= u && u <= 57 {
        Some(u - 48)
    } else if 97 <= u && u <= 102 {
        Some(u - 87)
    } else if 65 <= u && u <= 70 {
        Some(u - 55)
    } else {
        None
    }
}

fn hex4(s: &Vec<char>, i: usize) -> (r: Option<u32>)
    requires
        i <= s@.len(),
    ensures
        r == spec_hex4(s@, i as int),
{
    let n = s.len();
    if n - i < 4 {
        return None;
    }
    let a = hex_val(s[i]);
    let b = hex_val(s[i + 1]);
    let c = hex_val(s[i + 2]);
    let d = hex_val(s[i + 3]);
    match (a, b, c, d) {
        (Some(a), Some(b), Some(c), Some(d)) => Some(a * 0x1000 + b * 0x100 + c * 0x10 + d),
        _ => None,
    }
}

/// Reads a JSON string token starting at `i` (at the opening quote): the
/// decoded content and the position just after the closing quote.
#[verifier::rlimit(60)]
pub fn parse_string_at(s: &Vec<char>, i: usize) -> (r: Option<(Vec<char>, usize)>)
    requires
        i <= s@.len(),
    ensures
        match r {
            Some(p) => spec_parse_string(s@, i as int) == Some((p.0@, p.1 as int)) && i < p.1
                <= s@.len(),
            None => spec_parse_string(s@, i as int) is None,
        },
{
    let n = s.len();
    if i >= n || s[i] != '"' {
        return None;
    }
    let mut acc: Vec<char> = Vec::new();
    let mut p = i + 1;
    proof {
        match spec_parse_str_body(s@, i as int + 1) {
            Some((v, j)) => {
                assert(Seq::<char>::empty() + v =~= v);
            },
            None => {},
        }
    }
    loop
        invariant
            i + 1 <= p <= n,
            n == s@.len(),
            s@[i as int] == '"',
            spec_parse_str_body(s@, i as int + 1) == (match spec_parse_str_body(s@, p as int) {
                Some((v, j)) => Some((acc@ + v, j)),
                None => None::<(Seq<char>, int)>,
            }),
        decreases n - p,
    {
        if p >= n {
            return None;
        }
        let ghost accs = acc@;
        let ghost p0 = p as int;
        let c = s[p];
        if c == '"' {
            proof {
                assert(spec_parse_str_body(s@, p as int) == Some(
                    (Seq::<char>::empty(), p as int + 1),
                ));
                assert(acc@ + Seq::<char>::empty() =~= acc@);
                assert(spec_parse_str_body(s@, i as int + 1) == Some((acc@, p as int + 1)));
            }
            return Some((acc, p + 1));
        } else if c == '\\' {
            if n - p < 2 {
                return None;
            }
            let e = s[p + 1];
            if e == '"' || e == '\\' || e == '/' {
                acc.push(e);
                p = p + 2;
                proof {
                    lemma_acc_step(s@, i as int + 1, p0, p as int, accs, acc@, e);
                }
            } else if e == 'b' || e == 'f' || e == 'n' || e == 'r' || e == 't' {
                let d = if e == 'b' {
                    '\u{0008}'
                } else if e == 'f' {
                    '\u{000C}'
                } else if e == 'n' {
                    '\n'
                } else if e == 'r' {
                    '\r'
                } else {
                    '\t'
                };
                acc.push(d);
                p = p + 2;
                proof {
                    lemma_acc_step(s@, i as int + 1, p0, p as int, accs, acc@, d);
                }
            } else if e == 'u' {
                match hex4(s, p + 2) {
                    Some(code) => {
                        if 0xD800 <= code && code < 0xDC00 {
                            if n - p >= 12 && s[p + 6] == '\\' && s[p + 7] == 'u' {
                                match hex4(s, p + 8) {
                                    Some(lo) => {
                                        if 0xDC00 <= lo && lo < 0xE000 {
                                            let combined = 0x10000 + (code - 0xD800) * 0x400 + (lo
                                                - 0xDC00);
                                            match char_from_code(combined) {
                                                Some(ch) => {
                                                    acc.push(ch);
                                                    p = p + 12;
                                                    proof {
                                                        lemma_acc_step(
                                                            s@,
                                                            i as int + 1,
                                                            p0,
                                                            p as int,
                                                            accs,
                                                            acc@,
                                                            ch,
                                                        );
                                                    }
                                                },
                                                None => {
                                                    return None;
                                                },
                                            }
                                        } else {
                                            return None;
                                        }
                                    },
                                    None => {
                                        return None;
                                    },
                                }
                            } else {
                                return None;
                            }
                        } else if 0xDC00 <= code && code < 0xE000 {
                            return None;
                        } else {
                            match char_from_code(code) {
                                Some(ch) => {
                                    acc.push(ch);
                                    p = p + 6;
                                    proof {
                                        lemma_acc_step(
                                            s@,
                                            i as int + 1,
                                            p0,
                                            p as int,
                                            accs,
                                            acc@,
                                            ch,
                                        );
                                    }
                                },
                                None => {
                                    return None;
                                },
                            }
                        }
                    },
                    None => {
                        return None;
                    },
                }
            } else {
                return None;
            }
        } else if (c as u32) < 32 {
            proof {
                assert(spec_parse_str_body(s@, p as int) is None);
            }
            return None;
        } else {
            acc.push(c);
            p = p + 1;
            proof {
                lemma_acc_step(s@, i as int + 1, p0, p as int, accs, acc@, c);
            }
        }
    }
}

fn digit_char(c: char) -> (b: bool)
    ensures
        b == is_digit(c),
{
    let u = c as u32;
    48 <= u && u <= 57
}

pub(crate) fn digits_end(s: &Vec<char>, i: usize) -> (r: usize)
    requires
        i <= s@.len(),
    ensures
        r == spec_digits_end(s@, i as int),
        i <= r <= s@.len(),
{
    let n = s.len();
    let mut p = i;
    while p < n && digit_char(s[p])
        invariant
            i <= p <= n,
            n == s@.len(),
            spec_digits_end(s@, i as int) == spec_digits_end(s@, p as int),
        decreases n - p,
    {
        p = p + 1;
    }
    p
}

pub(crate) proof fn lemma_digits_end_ge(s: Seq<char>, i: int)
    ensures
        spec_digits_end(s, i) >= i,
    decreases s.len() - i,
{
    if 0 <= i < s.len() && is_digit(s[i]) {
        lemma_digits_end_ge(s, i + 1);
    }
}

/// Reads past a JSON number starting at `i`.
pub fn skip_number(s: &Vec<char>, i: usize) -> (r: Option<usize>)
    requires
        i <= s@.len(),
    ensures
        match r {
            Some(j) => spec_skip_number(s@, i as int) == Some(j as int) && i < j <= s@.len(),
            None => spec_skip_number(s@, i as int) is None,
        },
{
    let n = s.len();
    let j0 = if i < n && s[i] == '-' {
        i + 1
    } else {
        i
    };
    if !(j0 < n && digit_char(s[j0])) {
        return None;
    }
    let j1 = if s[j0] == '0' {
        j0 + 1
    } else {
        proof {
            lemma_digits_end_ge(s@, j0 as int + 1);
        }
        digits_end(s, j0)
    };
    let j2 = if j1 < n && s[j1] == '.' {
        if j1 + 1 < n && digit_char(s[j1 + 1]) {
            digits_end(s, j1 + 1)
        } else {
            return None;
        }
    } else {
        j1
    };
    let j3 = if j2 < n && (s[j2] == 'e' || s[j2] == 'E') {
        let je = if j2 + 1 < n && (s[j2 + 1] == '+' || s[j2 + 1] == '-') {
            j2 + 2
        } else {
            j2 + 1
        };
        if je < n && digit_char(s[je]) {
            digits_end(s, je)
        } else {
            return None;
        }
    } else {
        j2
    };
    Some(j3)
}

/// Reads past one JSON value starting at `i` (at a non-whitespace char).
pub fn skip_value(s: &Vec<char>, i: usize, fuel: usize) -> (r: Option<usize>)
    requires
        i <= s@.len(),
    ensures
        match r {
            Some(j) => spec_skip_value(s@, i as int, fuel as nat) == Some(j as int) && i < j
                <= s@.len(),
            None => spec_skip_value(s@, i as int, fuel as nat) is None,
        },
    decreases fuel,
{
    if fuel == 0 {
        return None;
    }
    let n = s.len();
    if i >= n {
        return None;
    }
    let c = s[i];
    if c == '"' {
        match parse_string_at(s, i) {
            Some(p) => Some(p.1),
            None => None,
        }
    } else if c == '{' {
        skip_members(s, i + 1, true, fuel - 1)
    } else if c == '[' {
        skip_elements(s, i + 1, true, fuel - 1)
    } else if c == 't' {
        if n - i >= 4 && s[i + 1] == 'r' && s[i + 2] == 'u' && s[i + 3] == 'e' {
            Some(i + 4)
        } else {
            None
        }
    } else if c == 'f' {
        if n - i >= 5 && s[i + 1] == 'a' && s[i + 2] == 'l' && s[i + 3] == 's' && s[i + 4] == 'e' {
            Some(i + 5)
        } else {
            None
        }
    } else if c == 'n' {
        if n - i >= 4 && s[i + 1] == 'u' && s[i + 2] == 'l' && s[i + 3] == 'l' {
            Some(i + 4)
        } else {
            None
        }
    } else {
        skip_number(s, i)
    }
}

/// Reads past the members of an object, `i` standing just after the opening
/// brace or a comma.
pub fn skip_members(s: &Vec<char>, i: usize, first: bool, fuel: usize) -> (r: Option<usize>)
    requires
        i <= s@.len(),
    ensures
        match r {
            Some(j) => spec_skip_members(s@, i as int, first, fuel as nat) == Some(j as int) && i
                < j <= s@.len(),
            None => spec_skip_members(s@, i as int, first, fuel as nat) is None,
        },
    decreases fuel,
{
    let n = s.len();
    let mut p = i;
    let mut fst = first;
    let mut fu = fuel;
    loop
        invariant
            i <= p <= n,
            n == s@.len(),
            fu <= fuel,
            spec_skip_members(s@, i as int, first, fuel as nat) == spec_skip_members(
                s@,
                p as int,
                fst,
                fu as nat,
            ),
        decreases fu,
    {
        if fu == 0 {
            return None;
        }
        let j = skip_ws(s, p);
        if fst && j < n && s[j] == '}' {
            return Some(j + 1);
        }
        match parse_string_at(s, j) {
            Some(k) => {
                let j3 = skip_ws(s, k.1);
                if j3 < n && s[j3] == ':' {
                    let jv = skip_ws(s, j3 + 1);
                    match skip_value(s, jv, fu - 1) {
                        Some(j4) => {
                            let j5 = skip_ws(s, j4);
                            if j5 < n && s[j5] == ',' {
                                p = j5 + 1;
                                fst = false;
                                fu = fu - 1;
                            } else if j5 < n && s[j5] == '}' {
                                return Some(j5 + 1);
                            } else {
                                return None;
                            }
                        },
                        None => {
                            return None;
                        },
                    }
                } else {
                    return None;
                }
            },
            None => {
                return None;
            },
        }
    }
}

/// Reads past the elements of an array, `i` standing just after the opening
/// bracket or a comma.
pub fn skip_elements(s: &Vec<char>, i: usize, first: bool, fuel: usize) -> (r: Option<usize>)
    requires
        i <= s@.len(),
    ensures
        match r {
            Some(j) => spec_skip_elements(s@, i as int, first, fuel as nat) == Some(j as int)
                && i < j <= s@.len(),
            None => spec_skip_elements(s@, i as int, first, fuel as nat) is None,
        },
    decreases fuel,
{
    let n = s.len();
    let mut p = i;
    let mut fst = first;
    let mut fu = fuel;
    loop
        invariant
            i <= p <= n,
            n == s@.len(),
            fu <= fuel,
            spec_skip_elements(s@, i as int, first, fuel as nat) == spec_skip_elements(
                s@,
                p as int,
                fst,
                fu as nat,
            ),
        decreases fu,
    {
        if fu == 0 {
            return None;
        }
        let j = skip_ws(s, p);
        if fst && j < n && s[j] == ']' {
            return Some(j + 1);
        }
        match skip_value(s, j, fu - 1) {
            Some(j2) => {
                let j3 = skip_ws(s, j2);
                if j3 < n && s[j3] == ',' {
                    p = j3 + 1;
                    fst = false;
                    fu = fu - 1;
                } else if j3 < n && s[j3] == ']' {
                    return Some(j3 + 1);
                } else {
                    return None;
                }
            },
            None => {
                return None;
            },
        }
    }
}

fn hex_char(v: u32) -> (c: char)
    requires
        v < 16,
    ensures
        c == spec_hex_char(v),
{
    if v < 10 {
        ((v + 48) as u8) as char
    } else {
        ((v + 87) as u8) as char
    }
}

proof fn lemma_escape_snoc(s: Seq<char>, i: int)
    requires
        0 <= i < s.len(),
    ensures
        spec_escape(s.take(i + 1)) == spec_escape(s.take(i)) + spec_escape_char(s[i]),
    decreases i,
{
    if i == 0 {
        assert(s.take(1) =~= seq![s[0]]);
        assert(seq![s[0]].skip(1) =~= Seq::<char>::empty());
        assert(s.take(0) =~= Seq::<char>::empty());
        assert(spec_escape(s.take(1)) == spec_escape_char(s[0]) + spec_escape(
            Seq::<char>::empty(),
        ));
        assert(spec_escape_char(s[0]) + Seq::<char>::empty() =~= spec_escape_char(s[0]));
        assert(Seq::<char>::empty() + spec_escape_char(s[0]) =~= spec_escape_char(s[0]));
    } else {
        let t = s.skip(1);
        lemma_escape_snoc(t, i - 1);
        assert(s.take(i + 1).skip(1) =~= t.take(i));
        assert(s.take(i).skip(1) =~= t.take(i - 1));
        assert(t[i - 1] == s[i]);
        assert(s.take(i + 1)[0] == s[0]);
        assert(s.take(i)[0] == s[0]);
        assert((spec_escape_char(s[0]) + (spec_escape(t.take(i - 1)) + spec_escape_char(s[i])))
            =~= ((spec_escape_char(s[0]) + spec_escape(t.take(i - 1))) + spec_escape_char(s[i])));
    }
}

/// Appends the escaped rendering of `s` onto `out`.
pub fn push_escaped(out: &mut Vec<char>, s: &Vec<char>)
    ensures
        final(out)@ == old(out)@ + spec_escape(s@),
{
    let ghost base = out@;
    let n = s.len();
    proof {
        assert(s@.take(0) =~= Seq::<char>::empty());
        assert(base + spec_escape(s@.take(0)) =~= base);
    }
    for i in 0..n
        invariant
            n == s@.len(),
            out@ == base + spec_escape(s@.take(i as int)),
    {
        let c = s[i];
        if c == '"' {
            out.push('\\');
            out.push('"');
        } else if c == '\\' {
            out.push('\\');
            out.push('\\');
        } else if c == '\u{0008}' {
            out.push('\\');
            out.push('b');
        } else if c == '\u{000C}' {
            out.push('\\');
            out.push('f');
        } else if c == '\n' {
            out.push('\\');
            out.push('n');
        } else if c == '\r' {
            out.push('\\');
            out.push('r');
        } else if c == '\t' {
            out.push('\\');
            out.push('t');
        } else if (c as u32) < 32 {
            out.push('\\');
            out.push('u');
            out.push('0');
            out.push('0');
            out.push(hex_char((c as u32) / 16));
            out.push(hex_char((c as u32) % 16));
        } else {
            out.push(c);
        }
        proof {
            lemma_escape_snoc(s@, i as int);
            assert(out@ =~= base + spec_escape(s@.take(i as int + 1)));
        }
    }
    proof {
        assert(s@.take(n as int) =~= s@);
    }
}

/// Appends a full JSON string token for `s` onto `out`.
pub fn push_quoted(out: &mut Vec<char>, s: &Vec<char>)
    ensures
        final(out)@ == old(out)@ + spec_quoted(s@),
{
    let ghost base = out@;
    out.push('"');
    proof {
        assert(out@ =~= base + seq!['"']);
    }
    push_escaped(out, s);
    out.push('"');
    proof {
        assert(((base + seq!['"']) + spec_escape(s@)).push('"') =~= base + spec_quoted(s@));
    }
}

/// Appends the chars of the literal `lit` onto `out`.
pub fn push_lit(out: &mut Vec<char>, lit: &str)
    ensures
        final(out)@ == old(out)@ + lit@,
{
    let mut v = str_to_chars(lit);
    out.append(&mut v);
}

/// Scans the members of a JSON object, collecting the string values of the
/// members named in `watched` into `acc` and reading past every other
/// member's value whatever its kind.  `i` stands just after the opening
/// brace or a comma; a watched member seen twice, or one whose value is not
/// a string, refuses the document.  Yields the collected members and the
/// position just after the closing brace.
pub open spec fn spec_scan_fields(
    s: Seq<char>,
    i: int,
    watched: Set<Seq<char>>,
    acc: Map<Seq<char>, Seq<char>>,
    first: bool,
    fuel: nat,
) -> Option<(Map<Seq<char>, Seq<char>>, int)>
    decreases fuel, 1int,
{
    if fuel == 0 {
        None
    } else {
        let j = spec_skip_ws(s, i);
        if first && 0 <= j < s.len() && s[j] == '}' {
            Some((acc, j + 1))
        } else {
            match spec_parse_string(s, j) {
                Some((key, j2)) => {
                    let j3 = spec_skip_ws(s, j2);
                    if 0 <= j3 < s.len() && s[j3] == ':' {
                        let jv = spec_skip_ws(s, j3 + 1);
                        if watched.contains(key) {
                            if acc.contains_key(key) {
                                None
                            } else {
                                match spec_parse_string(s, jv) {
                                    Some((v, j4)) => spec_scan_after(
                                        s,
                                        j4,
                                        watched,
                                        acc.insert(key, v),
                                        fuel,
                                    ),
                                    None => None,
                                }
                            }
                        } else {
                            match spec_skip_value(s, jv, fuel) {
                                Some(j4) => spec_scan_after(s, j4, watched, acc, fuel),
                                None => None,
                            }
                        }
                    } else {
                        None
                    }
                },
                None => None,
            }
        }
    }
}

/// After one member's value: a comma continues the scan, a closing brace
/// ends it.
pub open spec fn spec_scan_after(
    s: Seq<char>,
    i: int,
    watched: Set<Seq<char>>,
    acc: Map<Seq<char>, Seq<char>>,
    fuel: nat,
) -> Option<(Map<Seq<char>, Seq<char>>, int)>
    decreases fuel, 0int,
{
    if fuel == 0 {
        None
    } else {
        let j = spec_skip_ws(s, i);
        if 0 <= j < s.len() && s[j] == ',' {
            spec_scan_fields(s, j + 1, watched, acc, false, (fuel - 1) as nat)
        } else if 0 <= j < s.len() && s[j] == '}' {
            Some((acc, j + 1))
        } else {
            None
        }
    }
}

/// Reads a whole document holding one JSON object: leading whitespace, the
/// object, trailing whitespace to the very end.
pub open spec fn spec_parse_doc(s: Seq<char>, watched: Set<Seq<char>>) -> Option<
    Map<Seq<char>, Seq<char>>,
> {
    let j = spec_skip_ws(s, 0);
    if 0 <= j < s.len() && s[j] == '{' {
        match spec_scan_fields(s, j + 1, watched, Map::empty(), true, s.len() as nat) {
            Some((m, end)) => if spec_skip_ws(s, end) == s.len() {
                Some(m)
            } else {
                None
            },
            None => None,
        }
    } else {
        None
    }
}

/// Whether two char vectors hold the same chars.
pub(crate) fn chars_eq(a: &Vec<char>, b: &Vec<char>) -> (r: bool)
    ensures
        r == (a@ == b@),
{
    let n = a.len();
    if n != b.len() {
        return false;
    }
    for i in 0..n
        invariant
            n == a@.len(),
            n == b@.len(),
            forall|k: int| 0 <= k < i ==> a@[k] == b@[k],
    {
        if a[i] != b[i] {
            return false;
        }
    }
    proof {
        assert(a@ =~= b@);
    }
    true
}

/// The chars of `v` from `a` (inclusive) to `b` (exclusive).
pub(crate) fn sub_chars(v: &Vec<char>, a: usize, b: usize) -> (r: Vec<char>)
    requires
        a <= b <= v@.len(),
    ensures
        r@ == v@.subrange(a as int, b as int),
{
    let mut r: Vec<char> = Vec::new();
    let mut k = a;
    while k < b
        invariant
            a <= k <= b <= v@.len(),
            r@ =~= v@.subrange(a as int, k as int),
        decreases b - k,
    {
        r.push(v[k]);
        proof {
            assert(r@ =~= v@.subrange(a as int, k as int + 1));
        }
        k = k + 1;
    }
    r
}

/// A char the writer renders as itself.
pub open spec fn is_plain_char(c: char) -> bool {
    c != '"' && c != '\\' && (c as u32) >= 32
}

/// Law: a text of plain chars is its own escaped rendering.
pub proof fn lemma_escape_plain(s: Seq<char>)
    requires
        forall|i: int| 0 <= i < s.len() ==> is_plain_char(#[trigger] s[i]),
    ensures
        spec_escape(s) == s,
    decreases s.len(),
{
    if s.len() > 0 {
        assert(is_plain_char(s[0]));
        assert(spec_escape_char(s[0]) == seq![s[0]]);
        assert forall|i: int| 0 <= i < s.skip(1).len() implies is_plain_char(
            #[trigger] s.skip(1)[i],
        ) by {
            assert(s.skip(1)[i] == s[i + 1]);
        }
        lemma_escape_plain(s.skip(1));
        assert(seq![s[0]] + s.skip(1) =~= s);
    }
}

/// Law: the reader undoes the writer inside a larger text: where the chars
/// from `i` hold the escaped rendering of `v` followed by a closing quote,
/// the string-body reader yields `v` and stops just past that quote.
#[verifier::rlimit(100)]
pub proof fn lemma_parse_escaped_body(s: Seq<char>, i: int, v: Seq<char>)
    requires
        0 <= i,
        i + spec_escape(v).len() + 1 <= s.len(),
        s.subrange(i, i + spec_escape(v).len()) == spec_escape(v),
        s[i + spec_escape(v).len()] == '"',
    ensures
        spec_parse_str_body(s, i) == Some((v, i + spec_escape(v).len() + 1)),
    decreases v.len(),
{
    broadcast use vstd::utf8::char_u32_cast;

    if v.len() == 0 {
        assert(spec_escape(v).len() == 0);
        assert(s[i] == '"');
    } else {
        let c = v[0];
        let e = spec_escape_char(c);
        let v1 = v.skip(1);
        let r1 = spec_escape(v1);
        assert(spec_escape(v) == e + r1);
        let k = e.len() as int;
        assert forall|q: int| 0 <= q < e.len() implies s[i + q] == e[q] by {
            assert(s.subrange(i, i + spec_escape(v).len())[q] == s[i + q]);
        }
        assert(s.subrange(i + k, i + k + r1.len()) =~= r1) by {
            assert forall|q: int| 0 <= q < r1.len() implies s.subrange(
                i + k,
                i + k + r1.len(),
            )[q] == r1[q] by {
                assert(s.subrange(i, i + spec_escape(v).len())[k + q] == s[i + k + q]);
                assert((e + r1)[k + q] == r1[q]);
            }
        }
        assert(s[i + k + r1.len()] == '"');
        lemma_parse_escaped_body(s, i + k, v1);
        assert(spec_parse_str_body(s, i + k) == Some((v1, i + spec_escape(v).len() + 1)));
        if c == '"' {
            assert(e == seq!['\\', '"']);
            assert(s[i] == '\\' && s[i + 1] == '"');
            assert(seq![c] + v1 =~= v);
        } else if c == '\\' {
            assert(s[i] == '\\' && s[i + 1] == '\\');
            assert(seq![c] + v1 =~= v);
        } else if c == '\u{0008}' {
            assert(s[i] == '\\' && s[i + 1] == 'b');
            assert(seq![c] + v1 =~= v);
        } else if c == '\u{000C}' {
            assert(s[i] == '\\' && s[i + 1] == 'f');
            assert(seq![c] + v1 =~= v);
        } else if c == '\n' {
            assert(s[i] == '\\' && s[i + 1] == 'n');
            assert(seq![c] + v1 =~= v);
        } else if c == '\r' {
            assert(s[i] == '\\' && s[i + 1] == 'r');
            assert(seq![c] + v1 =~= v);
        } else if c == '\t' {
            assert(s[i] == '\\' && s[i + 1] == 't');
            assert(seq![c] + v1 =~= v);
        } else if (c as u32) < 32 {
            assert(s[i] == '\\' && s[i + 1] == 'u' && s[i + 2] == '0' && s[i + 3] == '0');
            assert(s[i + 4] == spec_hex_char((c as u32) / 16));
            assert(s[i + 5] == spec_hex_char((c as u32) % 16));
            assert(spec_hex_val('0') == Some(0u32));
            lemma_hex_char_val((c as u32) / 16);
            lemma_hex_char_val((c as u32) % 16);
            assert(spec_hex4(s, i + 2) == Some(c as u32));
            assert((c as u32) < 0xD800);
            vstd::utf8::char_u32_cast(c, c as u32);
            assert(((c as u32) as char) == c);
            assert(seq![c] + v1 =~= v);
        } else {
            assert(e == seq![c]);
            assert(e[0] == c);
            assert(s[i + 0] == e[0]);
            assert(s[i] == c);
            assert(seq![c] + v1 =~= v);
        }
    }
}

proof fn lemma_hex_char_val(x: u32)
    requires
        x < 16,
    ensures
        spec_hex_val(spec_hex_char(x)) == Some(x),
{
}

/// Law: the reader undoes the writer for a whole string token inside a
/// larger text.
pub proof fn lemma_parse_quoted(s: Seq<char>, i: int, v: Seq<char>)
    requires
        0 <= i,
        i + spec_quoted(v).len() <= s.len(),
        s.subrange(i, i + spec_quoted(v).len()) == spec_quoted(v),
    ensures
        spec_parse_string(s, i) == Some((v, i + spec_quoted(v).len())),
{
    let q = spec_quoted(v);
    assert(q[0] == '"');
    assert(s.subrange(i, i + q.len())[0] == s[i]);
    assert(s[i] == '"');
    assert forall|p: int| 0 <= p < q.len() implies s[i + p] == q[p] by {
        assert(s.subrange(i, i + q.len())[p] == s[i + p]);
    }
    assert(s.subrange(i + 1, i + 1 + spec_escape(v).len()) =~= spec_escape(v)) by {
        assert forall|p: int| 0 <= p < spec_escape(v).len() implies s.subrange(
            i + 1,
            i + 1 + spec_escape(v).len(),
        )[p] == spec_escape(v)[p] by {
            assert(s[i + 1 + p] == q[1 + p]);
            assert(q[1 + p] == (seq!['"'] + spec_escape(v) + seq!['"'])[1 + p]);
        }
    }
    assert(s[i + 1 + spec_escape(v).len()] == q[q.len() - 1]);
    assert(q[q.len() - 1] == '"');
    lemma_parse_escaped_body(s, i + 1, v);
}

} // verus!
