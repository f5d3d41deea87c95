//! The wire codec: parsing inbound command envelopes and encoding the
//! outbound world snapshot, both over ASCII bytes.
//!
//! Inbound text frames carry `{"kind": "...", "data": [x, y]}` with the
//! two payload numbers in decimal; values are read in milli-units
//! (three fractional digits are significant, further ones are dropped).
//! Anything else is malformed and rejected — the tolerant-parser
//! policy discards it without error.

use vstd::prelude::*;
use vstd::string::StringSliceAdditionalSpecFns;
use crate::ext;
use crate::entity::Entity;
use crate::game::GameState;
use crate::message::Conversation;
use crate::vector::Vector2f;

verus! {

/// JSON insignificant whitespace.
pub open spec fn is_ws(b: u8) -> bool {
    b == 32 || b == 9 || b == 10 || b == 13
}

/// An ASCII decimal digit.
pub open spec fn is_digit(b: u8) -> bool {
    48 <= b <= 57
}

/// A byte accepted inside the `kind` string: printable ASCII without
/// quote or backslash, so no escapes arise.
pub open spec fn is_kind_char(b: u8) -> bool {
    32 <= b <= 126 && b != 34 && b != 92
}

/// The first index at or after `i` that is not whitespace.
pub open spec fn skip_ws(s: Seq<u8>, i: int) -> int
    decreases s.len() - i,
{
    if 0 <= i < s.len() && is_ws(s[i]) {
        skip_ws(s, i + 1)
    } else {
        i
    }
}

/// The first index at or after `i` that is not a digit.
pub open spec fn digits_end(s: Seq<u8>, i: int) -> int
    decreases s.len() - i,
{
    if 0 <= i < s.len() && is_digit(s[i]) {
        digits_end(s, i + 1)
    } else {
        i
    }
}

/// The first index at or after `i` that is not a `kind` character.
pub open spec fn string_end(s: Seq<u8>, i: int) -> int
    decreases s.len() - i,
{
    if 0 <= i < s.len() && is_kind_char(s[i]) {
        string_end(s, i + 1)
    } else {
        i
    }
}

/// The digit value at `k`, 0 outside a digit.
pub open spec fn digit_of(s: Seq<u8>, k: int) -> nat {
    if 0 <= k < s.len() && is_digit(s[k]) {
        (s[k] - 48) as nat
    } else {
        0
    }
}

/// The decimal value of the digit run `s[i..j)`.
pub open spec fn digits_val(s: Seq<u8>, i: int, j: int) -> nat
    decreases j - i,
{
    if j <= i {
        0
    } else {
        digits_val(s, i, j - 1) * 10 + digit_of(s, j - 1)
    }
}

/// The first three fractional digits of `s[i..j)` in milli, shorter
/// runs padded with zeros.
pub open spec fn frac_milli(s: Seq<u8>, i: int, j: int) -> nat {
    if j - i >= 3 {
        digit_of(s, i) * 100 + digit_of(s, i + 1) * 10 + digit_of(s, i + 2)
    } else if j - i == 2 {
        digit_of(s, i) * 100 + digit_of(s, i + 1) * 10
    } else if j - i == 1 {
        digit_of(s, i) * 100
    } else {
        0
    }
}

/// Skip whitespace, then demand the byte `b`; the index after it.
pub open spec fn expect_byte(s: Seq<u8>, i: int, b: u8) -> Option<int> {
    let j = skip_ws(s, i);
    if j < s.len() && s[j] == b {
        Some(j + 1)
    } else {
        None
    }
}

/// Demand the exact bytes of `lit` at `i`; the index after them.
pub open spec fn match_lit(s: Seq<u8>, i: int, lit: Seq<u8>) -> Option<int>
    decreases lit.len(),
{
    if lit.len() == 0 {
        Some(i)
    } else if 0 <= i < s.len() && s[i] == lit[0] {
        match_lit(s, i + 1, lit.drop_first())
    } else {
        None
    }
}

/// The key `"kind"`, quotes included.
pub open spec fn lit_kind_key() -> Seq<u8> {
    seq![34u8, 107u8, 105u8, 110u8, 100u8, 34u8]
}

/// The key `"data"`, quotes included.
pub open spec fn lit_data_key() -> Seq<u8> {
    seq![34u8, 100u8, 97u8, 116u8, 97u8, 34u8]
}

/// A quoted `kind` string at `i` (after whitespace): its bytes and the
/// index after the closing quote.
pub open spec fn parse_string(s: Seq<u8>, i: int) -> Option<(Seq<u8>, int)> {
    let j = skip_ws(s, i);
    if j < s.len() && s[j] == 34 {
        let e = string_end(s, j + 1);
        if e < s.len() && s[e] == 34 {
            Some((s.subrange(j + 1, e), e + 1))
        } else {
            None
        }
    } else {
        None
    }
}

/// A signed decimal number at `i` (after whitespace), read in
/// milli-units: its value and the index after it.  The integer part
/// may not exceed one million units; fractional digits beyond the
/// third are read but dropped.
pub open spec fn parse_number(s: Seq<u8>, i: int) -> Option<(int, int)> {
    let j = skip_ws(s, i);
    let neg = j < s.len() && s[j] == 45;
    let j2 = if neg {
        j + 1
    } else {
        j
    };
    let e1 = digits_end(s, j2);
    if e1 == j2 {
        None
    } else {
        let vi = digits_val(s, j2, e1);
        if vi > 1_000_000 {
            None
        } else {
            if e1 < s.len() && s[e1] == 46 {
                let fs = e1 + 1;
                let e2 = digits_end(s, fs);
                if e2 == fs {
                    None
                } else {
                    let m = vi * 1000 + frac_milli(s, fs, e2);
                    Some(
                        (
                            if neg {
                                -(m as int)
                            } else {
                                m as int
                            },
                            e2,
                        ),
                    )
                }
            } else {
                let m = vi * 1000;
                Some(
                    (
                        if neg {
                            -(m as int)
                        } else {
                            m as int
                        },
                        e1,
                    ),
                )
            }
        }
    }
}

/// The whole inbound envelope `{"kind": <string>, "data": [<n>, <n>]}`
/// with optional whitespace between tokens and nothing but whitespace
/// after it: the kind bytes and the two payload values in milli-units.
pub open spec fn spec_parse(s: Seq<u8>) -> Option<(Seq<u8>, int, int)> {
    match expect_byte(s, 0, 123) {
        None => None,
        Some(i1) => match match_lit(s, skip_ws(s, i1), lit_kind_key()) {
            None => None,
            Some(i2) => match expect_byte(s, i2, 58) {
                None => None,
                Some(i3) => match parse_string(s, i3) {
                    None => None,
                    Some((kb, i4)) => match expect_byte(s, i4, 44) {
                        None => None,
                        Some(i5) => match match_lit(s, skip_ws(s, i5), lit_data_key()) {
                            None => None,
                            Some(i6) => match expect_byte(s, i6, 58) {
                                None => None,
                                Some(i7) => match expect_byte(s, i7, 91) {
                                    None => None,
                                    Some(i8) => match parse_number(s, i8) {
                                        None => None,
                                        Some((x, i9)) => match expect_byte(s, i9, 44) {
                                            None => None,
                                            Some(i10) => match parse_number(s, i10) {
                                                None => None,
                                                Some((y, i11)) => match expect_byte(s, i11, 93) {
                                                    None => None,
                                                    Some(i12) => match expect_byte(s, i12, 125) {
                                                        None => None,
                                                        Some(i13) => if skip_ws(s, i13) == s.len() {
                                                            Some((kb, x, y))
                                                        } else {
                                                            None
                                                        },
                                                    },
                                                },
                                            },
                                        },
                                    },
                                },
                            },
                        },
                    },
                },
            },
        },
    }
}

/// ASCII bytes read as characters.
pub open spec fn chars_of_bytes(s: Seq<u8>) -> Seq<char> {
    Seq::new(s.len(), |i: int| s[i] as char)
}

fn skip_ws_x(s: &Vec<u8>, i: usize) -> (r: usize)
    requires
        i <= s@.len(),
    ensures
        r == skip_ws(s@, i as int),
        i <= r <= s@.len(),
{
    let mut j = i;
    while j < s.len() && (s[j] == 32 || s[j] == 9 || s[j] == 10 || s[j] == 13)
        invariant
            i <= j <= s@.len(),
            skip_ws(s@, i as int) == skip_ws(s@, j as int),
        decreases s@.len() - j,
    {
        j += 1;
    }
    j
}

fn match_lit_x(s: &Vec<u8>, i: usize, lit: &Vec<u8>, li: usize) -> (r: Option<usize>)
    requires
        i <= s@.len(),
        li <= lit@.len(),
    ensures
        match r {
            Some(n) => match_lit(s@, i as int, lit@.skip(li as int)) == Some(n as int) && n
                <= s@.len(),
            None => match_lit(s@, i as int, lit@.skip(li as int)) == None::<int>,
        },
    decreases lit@.len() - li,
{
    if li == lit.len() {
        proof {
            assert(lit@.skip(li as int) =~= Seq::<u8>::empty());
        }
        Some(i)
    } else if i < s.len() && s[i] == lit[li] {
        proof {
            assert(lit@.skip(li as int)[0] == lit@[li as int]);
            assert(lit@.skip(li as int).drop_first() =~= lit@.skip(li as int + 1));
        }
        match_lit_x(s, i + 1, lit, li + 1)
    } else {
        proof {
            if li < lit@.len() {
                assert(lit@.skip(li as int)[0] == lit@[li as int]);
            }
        }
        None
    }
}

fn expect_byte_x(s: &Vec<u8>, i: usize, b: u8) -> (r: Option<usize>)
    requires
        i <= s@.len(),
    ensures
        match r {
            Some(n) => expect_byte(s@, i as int, b) == Some(n as int) && n <= s@.len(),
            None => expect_byte(s@, i as int, b) == None::<int>,
        },
{
    let j = skip_ws_x(s, i);
    if j < s.len() && s[j] == b {
        Some(j + 1)
    } else {
        None
    }
}

fn parse_string_x(s: &Vec<u8>, i: usize) -> (r: Option<(Vec<u8>, usize)>)
    requires
        i <= s@.len(),
    ensures
        match r {
            Some(p) => {
                &&& parse_string(s@, i as int) matches Some(q) && q.0 == p.0@ && q.1 == p.1 as int
                &&& p.1 <= s@.len()
                &&& forall|k: int| 0 <= k < p.0@.len() ==> is_kind_char(#[trigger] p.0@[k])
            },
            None => parse_string(s@, i as int) == None::<(Seq<u8>, int)>,
        },
{
    let j = skip_ws_x(s, i);
    if j < s.len() && s[j] == 34 {
        let mut e = j + 1;
        let mut kb: Vec<u8> = Vec::new();
        while e < s.len() && 32 <= s[e] && s[e] <= 126 && s[e] != 34 && s[e] != 92
            invariant
                j + 1 <= e <= s@.len(),
                string_end(s@, j as int + 1) == string_end(s@, e as int),
                kb@ =~= s@.subrange(j as int + 1, e as int),
                forall|k: int| 0 <= k < kb@.len() ==> is_kind_char(#[trigger] kb@[k]),
            decreases s@.len() - e,
        {
            kb.push(s[e]);
            proof {
                assert(kb@ =~= s@.subrange(j as int + 1, e as int + 1));
            }
            e += 1;
        }
        if e < s.len() && s[e] == 34 {
            Some((kb, e + 1))
        } else {
            None
        }
    } else {
        None
    }
}

fn scan_digits(s: &Vec<u8>, i: usize) -> (r: (usize, u64, bool))
    requires
        i <= s@.len(),
    ensures
        r.0 == digits_end(s@, i as int),
        i <= r.0 <= s@.len(),
        !r.2 ==> r.1 == digits_val(s@, i as int, r.0 as int) && r.1 <= 1_000_000,
        r.2 ==> digits_val(s@, i as int, r.0 as int) > 1_000_000,
        forall|k: int| i <= k < r.0 ==> is_digit(#[trigger] s@[k]),
{
    let mut j = i;
    let mut acc: u64 = 0;
    let mut big = false;
    while j < s.len() && 48 <= s[j] && s[j] <= 57
        invariant
            i <= j <= s@.len(),
            digits_end(s@, i as int) == digits_end(s@, j as int),
            forall|k: int| i <= k < j ==> is_digit(#[trigger] s@[k]),
            !big ==> acc == digits_val(s@, i as int, j as int) && acc <= 1_000_000,
            big ==> digits_val(s@, i as int, j as int) > 1_000_000,
        decreases s@.len() - j,
    {
        let d: u64 = (s[j] - 48) as u64;
        proof {
            assert(digits_val(s@, i as int, j as int + 1) == digits_val(s@, i as int, j as int)
                * 10 + digit_of(s@, j as int));
            assert(digit_of(s@, j as int) == d);
        }
        if big {
            proof {
                let a = digits_val(s@, i as int, j as int);
                assert(a * 10 + d > 1_000_000) by (nonlinear_arith)
                    requires
                        a > 1_000_000,
                        d >= 0,
                ;
            }
        } else {
            acc = acc * 10 + d;
            if acc > 1_000_000 {
                big = true;
            }
        }
        j += 1;
    }
    (j, acc, big)
}

fn parse_number_x(s: &Vec<u8>, i: usize) -> (r: Option<(i64, usize)>)
    requires
        i <= s@.len(),
    ensures
        match r {
            Some(p) => parse_number(s@, i as int) == Some((p.0 as int, p.1 as int)) && p.1
                <= s@.len() && -2_000_000_000 <= p.0 <= 2_000_000_000,
            None => parse_number(s@, i as int) == None::<(int, int)>,
        },
{
    let j = skip_ws_x(s, i);
    let neg = j < s.len() && s[j] == 45;
    let j2 = if neg {
        j + 1
    } else {
        j
    };
    let (e1, vi, big) = scan_digits(s, j2);
    if e1 == j2 {
        return None;
    }
    if big {
        return None;
    }
    if e1 < s.len() && s[e1] == 46 {
        let fs = e1 + 1;
        let (e2, _fv, _fbig) = scan_digits(s, fs);
        if e2 == fs {
            return None;
        }
        let f: u64 = frac3_x(s, fs, e2);
        let m: u64 = vi * 1000 + f;
        let v: i64 = if neg {
            -(m as i64)
        } else {
            m as i64
        };
        Some((v, e2))
    } else {
        let m: u64 = vi * 1000;
        let v: i64 = if neg {
            -(m as i64)
        } else {
            m as i64
        };
        Some((v, e1))
    }
}

fn frac3_x(s: &Vec<u8>, i: usize, j: usize) -> (r: u64)
    requires
        i <= j <= s@.len(),
        forall|k: int| i <= k < j ==> is_digit(#[trigger] s@[k]),
    ensures
        r == frac_milli(s@, i as int, j as int),
        r <= 999,
{
    if j - i >= 3 {
        (s[i] - 48) as u64 * 100 + (s[i + 1] - 48) as u64 * 10 + (s[i + 2] - 48) as u64
    } else if j - i == 2 {
        (s[i] - 48) as u64 * 100 + (s[i + 1] - 48) as u64 * 10
    } else if j - i == 1 {
        (s[i] - 48) as u64 * 100
    } else {
        0
    }
}

fn kind_key_bytes() -> (v: Vec<u8>)
    ensures
        v@ == lit_kind_key(),
{
    let mut v: Vec<u8> = Vec::new();
    v.push(34);
    v.push(107);
    v.push(105);
    v.push(110);
    v.push(100);
    v.push(34);
    proof {
        assert(v@ =~= lit_kind_key());
    }
    v
}

fn data_key_bytes() -> (v: Vec<u8>)
    ensures
        v@ == lit_data_key(),
{
    let mut v: Vec<u8> = Vec::new();
    v.push(34);
    v.push(100);
    v.push(97);
    v.push(116);
    v.push(97);
    v.push(34);
    proof {
        assert(v@ =~= lit_data_key());
    }
    v
}

/// Parse one inbound text frame into a command envelope; `None` for
/// anything malformed.  The envelope's payload is the two numbers in
/// milli-units; its `kind` is the parsed string read as characters.
pub fn parse_conversation(bytes: &Vec<u8>) -> (r: Option<Conversation<Vector2f>>)
    ensures
        match spec_parse(bytes@) {
            Some(t) => {
                &&& r matches Some(c)
                &&& c.kind@ == chars_of_bytes(t.0)
                &&& c.data.x as int == t.1
                &&& c.data.y as int == t.2
            },
            None => r matches None,
        },
{
    let kind_key = kind_key_bytes();
    let data_key = data_key_bytes();
    let i1 = match expect_byte_x(bytes, 0, 123) {
        Some(n) => n,
        None => {
            return None;
        },
    };
    let i1w = skip_ws_x(bytes, i1);
    proof {
        assert(kind_key@.skip(0) =~= lit_kind_key());
    }
    let i2 = match match_lit_x(bytes, i1w, &kind_key, 0) {
        Some(n) => n,
        None => {
            return None;
        },
    };
    let i3 = match expect_byte_x(bytes, i2, 58) {
        Some(n) => n,
        None => {
            return None;
        },
    };
    let (kb, i4) = match parse_string_x(bytes, i3) {
        Some(p) => p,
        None => {
            return None;
        },
    };
    let i5 = match expect_byte_x(bytes, i4, 44) {
        Some(n) => n,
        None => {
            return None;
        },
    };
    let i5w = skip_ws_x(bytes, i5);
    proof {
        assert(data_key@.skip(0) =~= lit_data_key());
    }
    let i6 = match match_lit_x(bytes, i5w, &data_key, 0) {
        Some(n) => n,
        None => {
            return None;
        },
    };
    let i7 = match expect_byte_x(bytes, i6, 58) {
        Some(n) => n,
        None => {
            return None;
        },
    };
    let i8 = match expect_byte_x(bytes, i7, 91) {
        Some(n) => n,
        None => {
            return None;
        },
    };
    let (x, i9) = match parse_number_x(bytes, i8) {
        Some(p) => p,
        None => {
            return None;
        },
    };
    let i10 = match expect_byte_x(bytes, i9, 44) {
        Some(n) => n,
        None => {
            return None;
        },
    };
    let (y, i11) = match parse_number_x(bytes, i10) {
        Some(p) => p,
        None => {
            return None;
        },
    };
    let i12 = match expect_byte_x(bytes, i11, 93) {
        Some(n) => n,
        None => {
            return None;
        },
    };
    let i13 = match expect_byte_x(bytes, i12, 125) {
        Some(n) => n,
        None => {
            return None;
        },
    };
    if skip_ws_x(bytes, i13) != bytes.len() {
        return None;
    }
    proof {
        assert(forall|k: int| 0 <= k < kb@.len() ==> kb@[k] < 128) by {
            assert(forall|k: int| 0 <= k < kb@.len() ==> is_kind_char(#[trigger] kb@[k]));
        }
    }
    let kind = ext::ascii_to_string(&kb);
    proof {
        assert(kind@ =~= chars_of_bytes(kb@));
    }
    Some(Conversation { kind, data: Vector2f { x, y } })
}


/// The decimal digits of `n`.
pub open spec fn spec_dec_u64(n: nat) -> Seq<u8>
    decreases n,
{
    if n < 10 {
        seq![(48 + n) as u8]
    } else {
        spec_dec_u64(n / 10).push((48 + n % 10) as u8)
    }
}

/// The decimal digits of `v`, with a leading minus when negative.
pub open spec fn spec_dec_i64(v: int) -> Seq<u8> {
    if v < 0 {
        seq![45u8] + spec_dec_u64((-v) as nat)
    } else {
        spec_dec_u64(v as nat)
    }
}

/// A nonnegative milli-unit count as a decimal with exactly three
/// fractional digits.
pub open spec fn spec_milli_mag(m: nat) -> Seq<u8> {
    spec_dec_u64(m / 1000) + seq![
        46u8,
        (48 + (m / 100) % 10) as u8,
        (48 + (m / 10) % 10) as u8,
        (48 + m % 10) as u8,
    ]
}

/// A milli-unit count as a signed decimal with three fractional digits.
pub open spec fn spec_milli_bytes(m: int) -> Seq<u8> {
    if m < 0 {
        seq![45u8] + spec_milli_mag((-m) as nat)
    } else {
        spec_milli_mag(m as nat)
    }
}

/// The lower-case hex digit for `d`.
pub open spec fn spec_hex_digit(d: nat) -> u8 {
    if d < 10 {
        (48 + d) as u8
    } else {
        (87 + d) as u8
    }
}

/// The low `c` hex digits of `n`, most significant first.
pub open spec fn spec_hex(n: nat, c: nat) -> Seq<u8>
    decreases c,
{
    if c == 0 {
        Seq::empty()
    } else {
        spec_hex(n / 16, (c - 1) as nat).push(spec_hex_digit(n % 16))
    }
}

/// A 128-bit identifier in the hyphenated 8-4-4-4-12 hex form.
pub open spec fn spec_uuid_bytes(u: u128) -> Seq<u8> {
    spec_hex((u >> 96) as nat, 8) + seq![45u8] + spec_hex(((u >> 80) & 0xffff) as nat, 4)
        + seq![45u8] + spec_hex(((u >> 64) & 0xffff) as nat, 4) + seq![45u8] + spec_hex(
        ((u >> 48) & 0xffff) as nat,
        4,
    ) + seq![45u8] + spec_hex((u & 0xffff_ffff_ffff) as nat, 12)
}

/// A vector as a JSON object of its two milli-unit coordinates.
pub open spec fn spec_vec_bytes(v: Vector2f) -> Seq<u8> {
    ("{\"x\":").spec_bytes() + spec_milli_bytes(v.x as int) + (",\"y\":").spec_bytes()
        + spec_milli_bytes(v.y as int) + ("}").spec_bytes()
}

/// An entity as a JSON object tagged with its variant.
pub open spec fn spec_entity_bytes(e: Entity) -> Seq<u8> {
    match e {
        Entity::Player(p) => ("{\"kind\":\"Player\",\"id\":\"").spec_bytes() + spec_uuid_bytes(p.id)
            + ("\",\"health\":").spec_bytes() + spec_milli_bytes(p.health as int) + (
        ",\"position\":").spec_bytes() + spec_vec_bytes(p.position) + (",\"velocity\":").spec_bytes()
            + spec_vec_bytes(p.velocity) + ("}").spec_bytes(),
        Entity::Bullet(b) => ("{\"kind\":\"Bullet\",\"id\":\"").spec_bytes() + spec_uuid_bytes(b.id)
            + ("\",\"owner\":").spec_bytes() + (match b.owner {
            Some(o) => ("\"").spec_bytes() + spec_uuid_bytes(o) + ("\"").spec_bytes(),
            None => ("null").spec_bytes(),
        }) + (",\"position\":").spec_bytes() + spec_vec_bytes(b.position) + (
        ",\"velocity\":").spec_bytes() + spec_vec_bytes(b.velocity) + ("}").spec_bytes(),
    }
}

/// The first `n` entity pairs as the members of a JSON object, comma
/// separated, each keyed by its hyphenated identifier.
pub open spec fn spec_entities_bytes(s: Seq<(u128, Entity)>, n: int) -> Seq<u8>
    decreases n,
{
    if n <= 0 {
        Seq::empty()
    } else {
        spec_entities_bytes(s, n - 1) + (if n > 1 {
            (",").spec_bytes()
        } else {
            Seq::<u8>::empty()
        }) + ("\"").spec_bytes() + spec_uuid_bytes(s[n - 1].0) + ("\":").spec_bytes()
            + spec_entity_bytes(s[n - 1].1)
    }
}

/// The whole world state as JSON: the timestamp and the entity map.
pub open spec fn spec_state_bytes(ts: int, s: Seq<(u128, Entity)>) -> Seq<u8> {
    ("{\"ts\":").spec_bytes() + spec_dec_i64(ts) + (",\"entities\":{").spec_bytes()
        + spec_entities_bytes(s, s.len() as int) + ("}}").spec_bytes()
}

/// `data` with every quote and backslash escaped, as inside a JSON
/// string.
pub open spec fn spec_escape(s: Seq<u8>) -> Seq<u8>
    decreases s.len(),
{
    if s.len() == 0 {
        Seq::empty()
    } else {
        (if s[0] == 34 || s[0] == 92 {
            seq![92u8, s[0]]
        } else {
            seq![s[0]]
        }) + spec_escape(s.drop_first())
    }
}

/// The outbound broadcast envelope: `data` carried as an escaped JSON
/// string under kind `game_state`.
pub open spec fn spec_game_state_conv(data: Seq<u8>) -> Seq<u8> {
    ("{\"kind\":\"game_state\",\"data\":\"").spec_bytes() + spec_escape(data) + ("\"}").spec_bytes()
}

/// Escaping distributes over appending one byte.
proof fn lemma_escape_snoc(s: Seq<u8>, x: u8)
    ensures
        spec_escape(s.push(x)) == spec_escape(s) + (if x == 34 || x == 92 {
            seq![92u8, x]
        } else {
            seq![x]
        }),
    decreases s.len(),
{
    let esc: Seq<u8> = if x == 34 || x == 92 {
        seq![92u8, x]
    } else {
        seq![x]
    };
    let t = s.push(x);
    assert(t.len() > 0);
    let head: Seq<u8> = if t[0] == 34 || t[0] == 92 {
        seq![92u8, t[0]]
    } else {
        seq![t[0]]
    };
    assert(spec_escape(t) == head + spec_escape(t.drop_first()));
    if s.len() == 0 {
        assert(t.drop_first() =~= Seq::<u8>::empty());
        assert(spec_escape(t.drop_first()) == Seq::<u8>::empty());
        assert(t[0] == x);
        assert(spec_escape(t) =~= spec_escape(s) + esc);
    } else {
        assert(t.drop_first() =~= s.drop_first().push(x));
        assert(t[0] == s[0]);
        lemma_escape_snoc(s.drop_first(), x);
        assert(spec_escape(s) == (if s[0] == 34 || s[0] == 92 {
            seq![92u8, s[0]]
        } else {
            seq![s[0]]
        }) + spec_escape(s.drop_first()));
        assert(spec_escape(t) =~= spec_escape(s) + esc);
    }
}

fn push_bytes(out: &mut Vec<u8>, s: &[u8])
    ensures
        final(out)@ == old(out)@ + s@,
{
    let n = s.len();
    let mut i: usize = 0;
    while i < n
        invariant
            n == s@.len(),
            0 <= i <= n,
            out@ == old(out)@ + s@.take(i as int),
        decreases n - i,
    {
        out.push(s[i]);
        proof {
            assert(old(out)@ + s@.take(i as int + 1) =~= (old(out)@ + s@.take(i as int)).push(
                s@[i as int],
            ));
        }
        i += 1;
    }
    proof {
        assert(s@.take(n as int) =~= s@);
    }
}

fn push_dec_u64(out: &mut Vec<u8>, n: u64)
    ensures
        final(out)@ == old(out)@ + spec_dec_u64(n as nat),
    decreases n,
{
    if n >= 10 {
        push_dec_u64(out, n / 10);
        out.push(48 + (n % 10) as u8);
        proof {
            assert(old(out)@ + spec_dec_u64(n as nat) =~= (old(out)@ + spec_dec_u64(
                (n / 10) as nat,
            )).push((48 + (n % 10)) as u8));
        }
    } else {
        out.push(48 + n as u8);
        proof {
            assert(old(out)@ + spec_dec_u64(n as nat) =~= old(out)@.push((48 + n) as u8));
        }
    }
}

fn push_dec_i64(out: &mut Vec<u8>, v: i64)
    ensures
        final(out)@ == old(out)@ + spec_dec_i64(v as int),
{
    if v < 0 {
        out.push(45);
        let mag: u64 = (-(v as i128)) as u64;
        push_dec_u64(out, mag);
        proof {
            assert(old(out)@ + spec_dec_i64(v as int) =~= old(out)@.push(45u8) + spec_dec_u64(
                mag as nat,
            ));
        }
    } else {
        push_dec_u64(out, v as u64);
    }
}

fn push_milli(out: &mut Vec<u8>, m: i64)
    ensures
        final(out)@ == old(out)@ + spec_milli_bytes(m as int),
{
    let mag: u64 = if m < 0 {
        out.push(45);
        (-(m as i128)) as u64
    } else {
        m as u64
    };
    let ghost mid = out@;
    push_dec_u64(out, mag / 1000);
    out.push(46);
    out.push(48 + ((mag / 100) % 10) as u8);
    out.push(48 + ((mag / 10) % 10) as u8);
    out.push(48 + (mag % 10) as u8);
    proof {
        assert(out@ =~= mid + spec_milli_mag(mag as nat));
        if m < 0 {
            assert(old(out)@ + spec_milli_bytes(m as int) =~= old(out)@.push(45u8)
                + spec_milli_mag(mag as nat));
        }
    }
}

fn push_hex(out: &mut Vec<u8>, n: u128, c: usize)
    ensures
        final(out)@ == old(out)@ + spec_hex(n as nat, c as nat),
    decreases c,
{
    if c > 0 {
        push_hex(out, n / 16, c - 1);
        let d: u8 = (n % 16) as u8;
        let b: u8 = if d < 10 {
            48 + d
        } else {
            87 + d
        };
        out.push(b);
        proof {
            assert(b == spec_hex_digit((n as nat) % 16));
            assert(old(out)@ + spec_hex(n as nat, c as nat) =~= (old(out)@ + spec_hex(
                (n / 16) as nat,
                (c - 1) as nat,
            )).push(spec_hex_digit((n as nat) % 16)));
        }
    }
}

fn push_uuid(out: &mut Vec<u8>, u: u128)
    ensures
        final(out)@ == old(out)@ + spec_uuid_bytes(u),
{
    push_hex(out, u >> 96, 8);
    out.push(45);
    push_hex(out, (u >> 80) & 0xffff, 4);
    out.push(45);
    push_hex(out, (u >> 64) & 0xffff, 4);
    out.push(45);
    push_hex(out, (u >> 48) & 0xffff, 4);
    out.push(45);
    push_hex(out, u & 0xffff_ffff_ffff, 12);
    proof {
        assert(out@ =~= old(out)@ + spec_uuid_bytes(u));
    }
}

fn push_vec2(out: &mut Vec<u8>, v: &Vector2f)
    ensures
        final(out)@ == old(out)@ + spec_vec_bytes(*v),
{
    push_bytes(out, ("{\"x\":").as_bytes());
    push_milli(out, v.x);
    push_bytes(out, (",\"y\":").as_bytes());
    push_milli(out, v.y);
    push_bytes(out, ("}").as_bytes());
    proof {
        assert(out@ =~= old(out)@ + spec_vec_bytes(*v));
    }
}

fn push_player_bytes(out: &mut Vec<u8>, p: &crate::entity::Player)
    ensures
        final(out)@ == old(out)@ + spec_entity_bytes(Entity::Player(*p)),
{
    let ghost o0 = out@;
    push_bytes(out, ("{\"kind\":\"Player\",\"id\":\"").as_bytes());
    push_uuid(out, p.id);
    proof {
        assert(out@ =~= o0 + (("{\"kind\":\"Player\",\"id\":\"").spec_bytes() + spec_uuid_bytes(
            p.id,
        )));
    }
    let ghost a2 = ("{\"kind\":\"Player\",\"id\":\"").spec_bytes() + spec_uuid_bytes(p.id);
    push_bytes(out, ("\",\"health\":").as_bytes());
    push_milli(out, p.health);
    proof {
        assert(out@ =~= o0 + (a2 + ("\",\"health\":").spec_bytes() + spec_milli_bytes(
            p.health as int,
        )));
    }
    let ghost a4 = a2 + ("\",\"health\":").spec_bytes() + spec_milli_bytes(p.health as int);
    push_bytes(out, (",\"position\":").as_bytes());
    push_vec2(out, &p.position);
    proof {
        assert(out@ =~= o0 + (a4 + (",\"position\":").spec_bytes() + spec_vec_bytes(p.position)));
    }
    let ghost a6 = a4 + (",\"position\":").spec_bytes() + spec_vec_bytes(p.position);
    push_bytes(out, (",\"velocity\":").as_bytes());
    push_vec2(out, &p.velocity);
    push_bytes(out, ("}").as_bytes());
    proof {
        assert(out@ =~= o0 + (a6 + (",\"velocity\":").spec_bytes() + spec_vec_bytes(p.velocity)
            + ("}").spec_bytes()));
        assert(out@ =~= o0 + spec_entity_bytes(Entity::Player(*p)));
    }
}

fn push_bullet_bytes(out: &mut Vec<u8>, b: &crate::entity::Bullet)
    ensures
        final(out)@ == old(out)@ + spec_entity_bytes(Entity::Bullet(*b)),
{
    let ghost o0 = out@;
    push_bytes(out, ("{\"kind\":\"Bullet\",\"id\":\"").as_bytes());
    push_uuid(out, b.id);
    push_bytes(out, ("\",\"owner\":").as_bytes());
    let ghost a3 = ("{\"kind\":\"Bullet\",\"id\":\"").spec_bytes() + spec_uuid_bytes(b.id) + (
    "\",\"owner\":").spec_bytes();
    proof {
        assert(out@ =~= o0 + a3);
    }
    match b.owner {
        Some(o) => {
            push_bytes(out, ("\"").as_bytes());
            push_uuid(out, o);
            push_bytes(out, ("\"").as_bytes());
            proof {
                assert(out@ =~= o0 + (a3 + (("\"").spec_bytes() + spec_uuid_bytes(o) + (
                "\"").spec_bytes())));
            }
        },
        None => {
            push_bytes(out, ("null").as_bytes());
            proof {
                assert(out@ =~= o0 + (a3 + ("null").spec_bytes()));
            }
        },
    }
    let ghost a4 = a3 + (match b.owner {
        Some(o) => ("\"").spec_bytes() + spec_uuid_bytes(o) + ("\"").spec_bytes(),
        None => ("null").spec_bytes(),
    });
    assert(out@ == o0 + a4);
    push_bytes(out, (",\"position\":").as_bytes());
    push_vec2(out, &b.position);
    proof {
        assert(out@ =~= o0 + (a4 + (",\"position\":").spec_bytes() + spec_vec_bytes(b.position)));
    }
    let ghost a6 = a4 + (",\"position\":").spec_bytes() + spec_vec_bytes(b.position);
    push_bytes(out, (",\"velocity\":").as_bytes());
    push_vec2(out, &b.velocity);
    push_bytes(out, ("}").as_bytes());
    proof {
        assert(out@ =~= o0 + (a6 + (",\"velocity\":").spec_bytes() + spec_vec_bytes(b.velocity)
            + ("}").spec_bytes()));
        assert(out@ =~= o0 + spec_entity_bytes(Entity::Bullet(*b)));
    }
}

fn push_entity(out: &mut Vec<u8>, e: &Entity)
    ensures
        final(out)@ == old(out)@ + spec_entity_bytes(*e),
{
    match e {
        Entity::Player(p) => {
            push_player_bytes(out, p);
        },
        Entity::Bullet(b) => {
            push_bullet_bytes(out, b);
        },
    }
}

/// Serialize the whole world state to its JSON bytes.
#[verifier::rlimit(100)]
pub fn encode_state(st: &GameState) -> (out: Vec<u8>)
    ensures
        out@ == spec_state_bytes(st.ts as int, st.entities@),
{
    let mut out: Vec<u8> = Vec::new();
    push_bytes(&mut out, ("{\"ts\":").as_bytes());
    push_dec_i64(&mut out, st.ts);
    push_bytes(&mut out, (",\"entities\":{").as_bytes());
    let ghost head = out@;
    let n = st.entities.len();
    let mut i: usize = 0;
    while i < n
        invariant
            n == st.entities@.len(),
            0 <= i <= n,
            out@ == head + spec_entities_bytes(st.entities@, i as int),
        decreases n - i,
    {
        let ghost before = out@;
        if i > 0 {
            push_bytes(&mut out, (",").as_bytes());
        }
        push_bytes(&mut out, ("\"").as_bytes());
        let pair = st.entities[i];
        push_uuid(&mut out, pair.0);
        push_bytes(&mut out, ("\":").as_bytes());
        push_entity(&mut out, &pair.1);
        proof {
            assert(out@ =~= head + spec_entities_bytes(st.entities@, i as int + 1));
        }
        i += 1;
    }
    push_bytes(&mut out, ("}}").as_bytes());
    proof {
        assert(out@ =~= spec_state_bytes(st.ts as int, st.entities@));
    }
    out
}

/// Wrap serialized world-state bytes in the broadcast envelope, the
/// payload escaped as a JSON string under kind `game_state`.
pub fn encode_game_state_conversation(data: &Vec<u8>) -> (out: Vec<u8>)
    ensures
        out@ == spec_game_state_conv(data@),
{
    let mut out: Vec<u8> = Vec::new();
    push_bytes(&mut out, ("{\"kind\":\"game_state\",\"data\":\"").as_bytes());
    let ghost head = out@;
    let n = data.len();
    let mut i: usize = 0;
    while i < n
        invariant
            n == data@.len(),
            0 <= i <= n,
            out@ == head + spec_escape(data@.take(i as int)),
        decreases n - i,
    {
        let b = data[i];
        if b == 34 || b == 92 {
            out.push(92);
        }
        out.push(b);
        proof {
            lemma_escape_snoc(data@.take(i as int), b);
            assert(data@.take(i as int + 1) =~= data@.take(i as int).push(b));
            assert(out@ =~= head + spec_escape(data@.take(i as int + 1)));
        }
        i += 1;
    }
    proof {
        assert(data@.take(n as int) =~= data@);
    }
    push_bytes(&mut out, ("\"}").as_bytes());
    proof {
        assert(out@ =~= spec_game_state_conv(data@));
    }
    out
}

} // verus!
