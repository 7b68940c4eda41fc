//! The bearer-token codec. A token is the base64 encoding of a one-field
//! JSON object naming the account identifier. Encoding builds that payload
//! canonically; decoding takes the authorization header values of a request,
//! expects exactly one of the form `Bearer <token>`, undoes the base64, and
//! parses the payload: an object with the single field "id" holding an
//! unsigned 64-bit integer, with JSON whitespace tolerated around the tokens.

use vstd::prelude::*;
use crate::errors::Error;

verus! {

/// Decimal digit.
pub open spec fn is_digit(c: u8) -> bool {
    48 <= c <= 57
}

/// JSON insignificant whitespace: space, tab, line feed, carriage return.
pub open spec fn is_ws(c: u8) -> bool {
    c == 32 || c == 9 || c == 10 || c == 13
}

/// First position at or after `i` that does not hold whitespace.
pub open spec fn skip_ws(s: Seq<u8>, i: int) -> int
    recommends
        0 <= i <= s.len(),
    decreases s.len() - i when 0 <= i <= s.len()
{
    if i >= s.len() {
        i
    } else if is_ws(s[i]) {
        skip_ws(s, i + 1)
    } else {
        i
    }
}

/// First position at or after `i` that does not hold a decimal digit.
pub open spec fn digits_end(s: Seq<u8>, i: int) -> int
    recommends
        0 <= i <= s.len(),
    decreases s.len() - i when 0 <= i <= s.len()
{
    if i >= s.len() {
        i
    } else if is_digit(s[i]) {
        digits_end(s, i + 1)
    } else {
        i
    }
}

/// The number a digit string denotes.
pub open spec fn dec_val(s: Seq<u8>) -> nat
    decreases s.len(),
{
    if s.len() == 0 {
        0
    } else {
        dec_val(s.drop_last()) * 10 + (s.last() - 48) as nat
    }
}

/// A JSON number literal for an unsigned integer: no leading zero unless the
/// number is exactly zero.
pub open spec fn ok_number(s: Seq<u8>) -> bool {
    s.len() == 1 || s[0] != 48
}

/// The canonical decimal digits of a number.
pub open spec fn u64_dec(n: nat) -> Seq<u8>
    decreases n,
{
    if n < 10 {
        seq![(48 + n) as u8]
    } else {
        u64_dec(n / 10).push((48 + n % 10) as u8)
    }
}

/// The canonical token payload: `{"id":` then the digits then `}`.
pub open spec fn payload_of(id: u64) -> Seq<u8> {
    seq![123u8, 34u8, 105u8, 100u8, 34u8, 58u8] + u64_dec(id as nat) + seq![125u8]
}

/// The identifier a payload denotes, if the bytes parse as an object with
/// the one field "id" holding an unsigned 64-bit integer.
pub open spec fn payload_id(s: Seq<u8>) -> Option<u64> {
    let i0 = skip_ws(s, 0);
    if i0 < s.len() && s[i0] == 123 {
        let i1 = skip_ws(s, i0 + 1);
        if i1 + 4 <= s.len() && s[i1] == 34 && s[i1 + 1] == 105 && s[i1 + 2] == 100 && s[i1 + 3]
            == 34 {
            let i2 = skip_ws(s, i1 + 4);
            if i2 < s.len() && s[i2] == 58 {
                let i3 = skip_ws(s, i2 + 1);
                let j = digits_end(s, i3);
                if i3 < j && ok_number(s.subrange(i3, j)) && dec_val(s.subrange(i3, j))
                    <= u64::MAX {
                    let i4 = skip_ws(s, j);
                    if i4 < s.len() && s[i4] == 125 && skip_ws(s, i4 + 1) == s.len() {
                        Some(dec_val(s.subrange(i3, j)) as u64)
                    } else {
                        None
                    }
                } else {
                    None
                }
            } else {
                None
            }
        } else {
            None
        }
    } else {
        None
    }
}

/// The digits of a number are digits, there is at least one, and the first
/// is nonzero unless the number is zero.
pub proof fn lemma_u64_dec_wf(n: nat)
    ensures
        u64_dec(n).len() >= 1,
        forall|i: int| 0 <= i < u64_dec(n).len() ==> is_digit(#[trigger] u64_dec(n)[i]),
        n > 0 ==> u64_dec(n)[0] != 48,
        n < 10 ==> u64_dec(n).len() == 1,
    decreases n,
{
    if n >= 10 {
        lemma_u64_dec_wf(n / 10);
        assert forall|i: int| 0 <= i < u64_dec(n).len() implies is_digit(
            #[trigger] u64_dec(n)[i],
        ) by {
            if i < u64_dec(n / 10).len() {
                assert(u64_dec(n)[i] == u64_dec(n / 10)[i]);
            }
        }
        assert(u64_dec(n)[0] == u64_dec(n / 10)[0]);
    }
}

/// The digits of a number denote that number.
pub proof fn lemma_dec_val_u64_dec(n: nat)
    ensures
        dec_val(u64_dec(n)) == n,
    decreases n,
{
    if n < 10 {
        assert(u64_dec(n).drop_last() =~= Seq::<u8>::empty());
        assert((48 + n) as u8 == 48 + n);
        assert(u64_dec(n).last() == (48 + n) as u8);
        assert(dec_val(u64_dec(n).drop_last()) == 0);
    } else {
        lemma_dec_val_u64_dec(n / 10);
        assert(u64_dec(n).drop_last() =~= u64_dec(n / 10));
        assert(u64_dec(n).last() == (48 + n % 10) as u8);
        assert((48 + n % 10) as u8 == 48 + n % 10);
        assert(dec_val(u64_dec(n)) == (n / 10) * 10 + n % 10);
        assert(n == (n / 10) * 10 + n % 10) by (nonlinear_arith);
    }
}

/// A digit run ends exactly where the digits stop.
pub proof fn lemma_digits_end_at(s: Seq<u8>, i: int, k: int)
    requires
        0 <= i <= k <= s.len(),
        forall|m: int| i <= m < k ==> is_digit(s[m]),
        k < s.len() ==> !is_digit(s[k]),
    ensures
        digits_end(s, i) == k,
    decreases k - i,
{
    if i < k {
        lemma_digits_end_at(s, i + 1, k);
    }
}

/// The canonical payload of an identifier parses back to that identifier.
pub proof fn lemma_payload_round_trip(id: u64)
    ensures
        payload_id(payload_of(id)) == Some(id),
{
    let p = payload_of(id);
    let d = u64_dec(id as nat);
    let n = d.len() as int;
    lemma_u64_dec_wf(id as nat);
    lemma_dec_val_u64_dec(id as nat);
    assert(p.len() == 7 + n);
    assert(p[0] == 123);
    assert(p[1] == 34);
    assert(p[2] == 105);
    assert(p[3] == 100);
    assert(p[4] == 34);
    assert(p[5] == 58);
    assert(forall|i: int| 0 <= i < n ==> p[6 + i] == d[i]);
    assert(p[6 + n] == 125);
    assert(skip_ws(p, 0) == 0);
    assert(skip_ws(p, 1) == 1);
    assert(skip_ws(p, 5) == 5);
    assert(is_digit(d[0]));
    assert(!is_ws(p[6]));
    assert(skip_ws(p, 6) == 6);
    assert forall|m: int| 6 <= m < 6 + n implies is_digit(p[m]) by {
        assert(p[m] == d[m - 6]);
    }
    lemma_digits_end_at(p, 6, 6 + n);
    assert(p.subrange(6, 6 + n) =~= d);
    assert(ok_number(d));
    assert(dec_val(d) == id as nat);
    assert(!is_ws(p[6 + n]));
    assert(skip_ws(p, 6 + n) == 6 + n);
    assert(skip_ws(p, 7 + n) == 7 + n);
    assert(payload_id(p) == Some(dec_val(p.subrange(6, 6 + n)) as u64));
}

/// Append the canonical decimal digits of a number to a buffer.
pub fn fmt_u64(n: u64, out: &mut Vec<u8>)
    ensures
        final(out)@ == old(out)@ + u64_dec(n as nat),
    decreases n,
{
    if n < 10 {
        out.push(48 + (n as u8));
        proof {
            assert(final(out)@ =~= old(out)@ + u64_dec(n as nat));
        }
    } else {
        fmt_u64(n / 10, out);
        out.push(48 + ((n % 10) as u8));
        proof {
            assert(final(out)@ =~= old(out)@ + u64_dec(n as nat));
        }
    }
}

/// What base64 decoding yields on a byte string: the bytes it encodes, or
/// nothing when the string is not valid base64. The outcome is a function of
/// the input alone.
pub uninterp spec fn b64_decoded(s: Seq<u8>) -> Option<Seq<u8>>;

/// Relies on base64::encode (standard alphabet, padded): it is deterministic,
/// base64::decode inverts it, the output holds four characters for every
/// three bytes begun, and the output alphabet (A-Z, a-z, 0-9, +, /, =) has
/// no space.
#[verifier::external_body]
fn b64_encode(bytes: &Vec<u8>) -> (r: Vec<u8>)
    ensures
        b64_decoded(r@) == Some(bytes@),
        r@.len() == 4 * ((bytes@.len() + 2) / 3),
        forall|i: int| 0 <= i < r@.len() ==> r@[i] != 32,
{
    base64::encode(bytes.as_slice()).into_bytes()
}

/// Relies on base64::decode (standard alphabet, padded): by the input alone,
/// it either rejects the input or returns the bytes the input encodes.
#[verifier::external_body]
fn b64_decode(token: &Vec<u8>) -> (r: Option<Vec<u8>>)
    ensures
        match r {
            Some(v) => b64_decoded(token@) == Some(v@),
            None => b64_decoded(token@) is None,
        },
{
    match base64::decode(token.as_slice()) {
        Ok(v) => Some(v),
        Err(_) => None,
    }
}

/// The bearer token's content: the account identifier it names. The token is
/// a bare identifier carrier; nothing signs it.
#[derive(Clone, Copy, Debug, PartialEq, Eq, Structural)]
pub struct Token {
    pub id: u64,
}

/// The identifier a whole token denotes: undo the base64, then parse the
/// payload.
pub open spec fn token_id(token: Seq<u8>) -> Result<u64, Error> {
    match b64_decoded(token) {
        Option::None => Err(Error::DecodeError),
        Option::Some(p) => match payload_id(p) {
            Option::None => Err(Error::MalformedPayload),
            Option::Some(id) => Ok(id),
        },
    }
}

/// First position at or after `from` that does not hold whitespace.
fn skip_ws_exec(s: &Vec<u8>, from: usize) -> (r: usize)
    requires
        from <= s@.len(),
    ensures
        r == skip_ws(s@, from as int),
        from <= r <= s@.len(),
{
    let mut i = from;
    while i < s.len()
        invariant
            from <= i <= s@.len(),
            skip_ws(s@, from as int) == skip_ws(s@, i as int),
        decreases s@.len() - i,
    {
        if !(s[i] == 32 || s[i] == 9 || s[i] == 10 || s[i] == 13) {
            return i;
        }
        i = i + 1;
    }
    i
}

/// First position at or after `from` that does not hold a decimal digit.
fn digits_end_exec(s: &Vec<u8>, from: usize) -> (r: usize)
    requires
        from <= s@.len(),
    ensures
        r == digits_end(s@, from as int),
        from <= r <= s@.len(),
        forall|m: int| from <= m < r ==> is_digit(s@[m]),
{
    let mut i = from;
    while i < s.len()
        invariant
            from <= i <= s@.len(),
            digits_end(s@, from as int) == digits_end(s@, i as int),
            forall|m: int| from <= m < i ==> is_digit(s@[m]),
        decreases s@.len() - i,
    {
        if !(48 <= s[i] && s[i] <= 57) {
            return i;
        }
        i = i + 1;
    }
    i
}

/// Evaluate a run of decimal digits, rejecting a value above u64::MAX.
fn parse_digits(s: &Vec<u8>, from: usize, to: usize) -> (r: Option<u64>)
    requires
        from <= to <= s@.len(),
        forall|m: int| from <= m < to ==> is_digit(s@[m]),
    ensures
        match r {
            Some(v) => v == dec_val(s@.subrange(from as int, to as int)) && dec_val(
                s@.subrange(from as int, to as int),
            ) <= u64::MAX,
            None => dec_val(s@.subrange(from as int, to as int)) > u64::MAX,
        },
{
    let mut acc: u64 = 0;
    let mut over: bool = false;
    let mut k = from;
    proof {
        assert(s@.subrange(from as int, from as int) =~= Seq::<u8>::empty());
    }
    while k < to
        invariant
            from <= k <= to <= s@.len(),
            forall|m: int| from <= m < to ==> is_digit(s@[m]),
            !over ==> acc == dec_val(s@.subrange(from as int, k as int)),
            over ==> dec_val(s@.subrange(from as int, k as int)) > u64::MAX,
        decreases to - k,
    {
        let d = s[k] - 48;
        proof {
            let pre = s@.subrange(from as int, k as int);
            let post = s@.subrange(from as int, k as int + 1);
            assert(post.drop_last() =~= pre);
            assert(post.last() == s@[k as int]);
            assert(dec_val(post) == dec_val(pre) * 10 + d);
            if over {
                assert(dec_val(pre) * 10 + d > u64::MAX) by (nonlinear_arith)
                    requires
                        dec_val(pre) > u64::MAX,
                        d >= 0,
                ;
            }
        }
        if !over {
            let wide: u128 = (acc as u128) * 10 + (d as u128);
            if wide > u64::MAX as u128 {
                over = true;
            } else {
                acc = wide as u64;
            }
        }
        k = k + 1;
    }
    if over {
        None
    } else {
        Some(acc)
    }
}

/// Parse a decoded payload: a JSON object with the single field "id"
/// holding an unsigned 64-bit integer, whitespace tolerated.
pub fn parse_payload(s: &Vec<u8>) -> (r: Option<u64>)
    ensures
        r == payload_id(s@),
{
    let i0 = skip_ws_exec(s, 0);
    if i0 >= s.len() || s[i0] != 123 {
        return None;
    }
    let i1 = skip_ws_exec(s, i0 + 1);
    if s.len() - i1 < 4 || s[i1] != 34 || s[i1 + 1] != 105 || s[i1 + 2] != 100 || s[i1 + 3] != 34 {
        return None;
    }
    let i2 = skip_ws_exec(s, i1 + 4);
    if i2 >= s.len() || s[i2] != 58 {
        return None;
    }
    let i3 = skip_ws_exec(s, i2 + 1);
    let j = digits_end_exec(s, i3);
    if i3 >= j {
        return None;
    }
    if !(j - i3 == 1 || s[i3] != 48) {
        return None;
    }
    let v = match parse_digits(s, i3, j) {
        None => {
            return None;
        },
        Some(v) => v,
    };
    let i4 = skip_ws_exec(s, j);
    if i4 >= s.len() || s[i4] != 125 {
        return None;
    }
    if skip_ws_exec(s, i4 + 1) != s.len() {
        return None;
    }
    Some(v)
}

/// Build the opaque credential naming an identifier: the canonical payload,
/// base64 encoded.
pub fn encode_token(id: u64) -> (r: Vec<u8>)
    ensures
        b64_decoded(r@) == Some(payload_of(id)),
        token_id(r@) == Ok::<u64, Error>(id),
        r@.len() > 0,
        forall|i: int| 0 <= i < r@.len() ==> r@[i] != 32,
{
    let mut payload: Vec<u8> = Vec::new();
    payload.push(123);
    payload.push(34);
    payload.push(105);
    payload.push(100);
    payload.push(34);
    payload.push(58);
    fmt_u64(id, &mut payload);
    payload.push(125);
    proof {
        assert(payload@ =~= payload_of(id));
        lemma_payload_round_trip(id);
    }
    b64_encode(&payload)
}

/// Decode a token: undo the base64, then parse the payload.
pub fn decode_token(token: &Vec<u8>) -> (r: Result<Token, Error>)
    ensures
        match r {
            Ok(t) => token_id(token@) == Ok::<u64, Error>(t.id),
            Err(e) => token_id(token@) == Err::<u64, Error>(e),
        },
{
    match b64_decode(token) {
        None => Err(Error::DecodeError),
        Some(payload) => match parse_payload(&payload) {
            None => Err(Error::MalformedPayload),
            Some(id) => Ok(Token { id }),
        },
    }
}

/// The token part of a credential of the form `Bearer <token>`: the word
/// Bearer, then exactly one space, then the token.
pub open spec fn bearer_token(cred: Seq<u8>) -> Option<Seq<u8>> {
    if cred.len() >= 7 && cred[0] == 66 && cred[1] == 101 && cred[2] == 97 && cred[3] == 114
        && cred[4] == 101 && cred[5] == 114 && cred[6] == 32 && (forall|i: int|
        7 <= i < cred.len() ==> cred[i] != 32) {
        Some(cred.subrange(7, cred.len() as int))
    } else {
        None
    }
}

/// The identifier the authorization header values of a request denote:
/// exactly one credential of the form `Bearer <token>`, whose token decodes.
pub open spec fn credential_id(headers: Seq<Vec<u8>>) -> Result<u64, Error> {
    if headers.len() == 0 {
        Err(Error::MissingHeader)
    } else if headers.len() > 1 {
        Err(Error::TooManyHeaders)
    } else {
        match bearer_token(headers[0]@) {
            Option::None => Err(Error::MissingScheme),
            Option::Some(tok) => token_id(tok),
        }
    }
}

/// Extract and decode the one bearer credential of a request from the values
/// of its authorization headers.
pub fn decode_credential(headers: &Vec<Vec<u8>>) -> (r: Result<Token, Error>)
    ensures
        match r {
            Ok(t) => credential_id(headers@) == Ok::<u64, Error>(t.id),
            Err(e) => credential_id(headers@) == Err::<u64, Error>(e),
        },
{
    if headers.len() == 0 {
        return Err(Error::MissingHeader);
    }
    if headers.len() > 1 {
        return Err(Error::TooManyHeaders);
    }
    let cred = &headers[0];
    if cred.len() < 7 || cred[0] != 66 || cred[1] != 101 || cred[2] != 97 || cred[3] != 114
        || cred[4] != 101 || cred[5] != 114 || cred[6] != 32 {
        return Err(Error::MissingScheme);
    }
    let mut token: Vec<u8> = Vec::new();
    let mut i: usize = 7;
    while i < cred.len()
        invariant
            headers@.len() == 1,
            cred@ == headers@[0]@,
            7 <= i <= cred@.len(),
            cred@.len() >= 7,
            token@ =~= cred@.subrange(7, i as int),
            forall|j: int| 7 <= j < i ==> cred@[j] != 32,
        decreases cred@.len() - i,
    {
        if cred[i] == 32 {
            proof {
                assert(!(forall|j: int| 7 <= j < cred@.len() ==> cred@[j] != 32));
            }
            return Err(Error::MissingScheme);
        }
        token.push(cred[i]);
        i = i + 1;
    }
    proof {
        assert(token@ =~= cred@.subrange(7, cred@.len() as int));
        assert(bearer_token(cred@) == Some(token@));
    }
    decode_token(&token)
}


/// Law: decoding inverts encoding — any token whose base64 decodes to the
/// canonical payload of an identifier denotes exactly that identifier, for
/// every representable identifier.
pub proof fn lemma_token_round_trip(id: u64, token: Seq<u8>)
    requires
        b64_decoded(token) == Some(payload_of(id)),
    ensures
        token_id(token) == Ok::<u64, Error>(id),
{
    lemma_payload_round_trip(id);
}

} // verus!
