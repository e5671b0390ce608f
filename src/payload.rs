use vstd::prelude::*;
use vstd::utf8::{decode_utf8, encode_utf8, encode_utf8_decode_utf8, encode_utf8_valid_utf8, valid_utf8};
use crate::decimal::{
    dec, dec_i32, is_digit, lemma_dec_i32_shape, lemma_dec_shape, lemma_dec_value,
    parse_decimal, parse_decimal_i32, push_decimal, push_decimal_i32,
};
use crate::jsonstr::{escape, lemma_unescape_escape, push_escaped, unescape_bytes};
use crate::models::Claims;

verus! {

/// `{"exp":`
pub open spec fn exp_key() -> Seq<u8> {
    seq![123u8, 34u8, 101u8, 120u8, 112u8, 34u8, 58u8]
}

/// `,"id":`
pub open spec fn id_key() -> Seq<u8> {
    seq![44u8, 34u8, 105u8, 100u8, 34u8, 58u8]
}

/// `,"username":"`
pub open spec fn name_key() -> Seq<u8> {
    seq![44u8, 34u8, 117u8, 115u8, 101u8, 114u8, 110u8, 97u8, 109u8, 101u8, 34u8, 58u8, 34u8]
}

/// `"}`
pub open spec fn object_end() -> Seq<u8> {
    seq![34u8, 125u8]
}

/// The JSON object of a set of claims in serde_json's compact form, keys in
/// sorted order: `{"exp":<exp>,"id":<id>,"username":"<name>"}`, the name in
/// UTF-8 escaped as serde_json escapes it.
pub open spec fn claims_json(id: i32, username: Seq<char>, exp: u64) -> Seq<u8> {
    exp_key() + dec(exp as nat) + id_key() + dec_i32(id) + name_key() + escape(
        encode_utf8(username),
    ) + object_end()
}

/// Where each part of a claims object stands.
proof fn lemma_claims_json_layout(id: i32, username: Seq<char>, exp: u64)
    ensures
        ({
            let s = claims_json(id, username, exp);
            let l1 = dec_i32(id).len() as int;
            let le = escape(encode_utf8(username)).len() as int;
            let l2 = dec(exp as nat).len() as int;
            &&& l1 >= 1 && l2 >= 1
            &&& s.len() == 28 + l1 + le + l2
            &&& s.subrange(0, 7) == exp_key()
            &&& s.subrange(7, 7 + l2) == dec(exp as nat)
            &&& s.subrange(7 + l2, 13 + l2) == id_key()
            &&& s.subrange(13 + l2, 13 + l2 + l1) == dec_i32(id)
            &&& s.subrange(13 + l2 + l1, 26 + l2 + l1) == name_key()
            &&& s.subrange(26 + l2 + l1, 26 + l2 + l1 + le) == escape(encode_utf8(username))
            &&& s.subrange(26 + l2 + l1 + le, 28 + l2 + l1 + le) == object_end()
            &&& (forall|k: int| 7 <= k < 7 + l2 ==> #[trigger] s[k] != 44u8)
            &&& s[7 + l2] == 44u8
            &&& (forall|k: int| 13 + l2 <= k < 13 + l2 + l1 ==> #[trigger] s[k] != 44u8)
            &&& s[13 + l2 + l1] == 44u8
        }),
{
    let d1 = dec_i32(id);
    let e = escape(encode_utf8(username));
    let d2 = dec(exp as nat);
    let s = claims_json(id, username, exp);
    lemma_dec_i32_shape(id);
    lemma_dec_shape(exp as nat);
    let l1 = d1.len() as int;
    let le = e.len() as int;
    let l2 = d2.len() as int;
    assert(s.subrange(0, 7) =~= exp_key());
    assert(s.subrange(7, 7 + l2) =~= d2);
    assert(s.subrange(7 + l2, 13 + l2) =~= id_key());
    assert(s.subrange(13 + l2, 13 + l2 + l1) =~= d1);
    assert(s.subrange(13 + l2 + l1, 26 + l2 + l1) =~= name_key());
    assert(s.subrange(26 + l2 + l1, 26 + l2 + l1 + le) =~= e);
    assert(s.subrange(26 + l2 + l1 + le, 28 + l2 + l1 + le) =~= object_end());
    assert forall|k: int| 7 <= k < 7 + l2 implies #[trigger] s[k] != 44u8 by {
        assert(s[k] == d2[k - 7]);
        assert(is_digit(d2[k - 7]));
    }
    assert forall|k: int| 13 + l2 <= k < 13 + l2 + l1 implies #[trigger] s[k] != 44u8 by {
        assert(s[k] == d1[k - 13 - l2]);
    }
}

proof fn lemma_dec_injective(a: nat, b: nat)
    requires
        dec(a) == dec(b),
    ensures
        a == b,
{
    lemma_dec_value(a);
    lemma_dec_value(b);
}

proof fn lemma_dec_i32_injective(a: i32, b: i32)
    requires
        dec_i32(a) == dec_i32(b),
    ensures
        a == b,
{
    if a < 0 && b < 0 {
        assert(dec((-a) as nat) =~= dec_i32(a).subrange(1, dec_i32(a).len() as int));
        assert(dec((-b) as nat) =~= dec_i32(b).subrange(1, dec_i32(b).len() as int));
        lemma_dec_injective((-a) as nat, (-b) as nat);
    } else if a < 0 {
        lemma_dec_shape(b as nat);
        assert(dec_i32(a)[0] == 45u8);
        assert(is_digit(dec(b as nat)[0]));
    } else if b < 0 {
        lemma_dec_shape(a as nat);
        assert(dec_i32(b)[0] == 45u8);
        assert(is_digit(dec(a as nat)[0]));
    } else {
        lemma_dec_injective(a as nat, b as nat);
    }
}

/// Distinct claims give distinct objects.
pub proof fn lemma_claims_json_injective(
    id1: i32,
    username1: Seq<char>,
    exp1: u64,
    id2: i32,
    username2: Seq<char>,
    exp2: u64,
)
    requires
        claims_json(id1, username1, exp1) == claims_json(id2, username2, exp2),
    ensures
        id1 == id2,
        username1 == username2,
        exp1 == exp2,
{
    let s = claims_json(id1, username1, exp1);
    lemma_claims_json_layout(id1, username1, exp1);
    lemma_claims_json_layout(id2, username2, exp2);
    let l2a = dec(exp1 as nat).len() as int;
    let l2b = dec(exp2 as nat).len() as int;
    if l2a < l2b {
        assert(s[7 + l2a] == 44u8);
    } else if l2b < l2a {
        assert(s[7 + l2b] == 44u8);
    }
    let l1a = dec_i32(id1).len() as int;
    let l1b = dec_i32(id2).len() as int;
    if l1a < l1b {
        assert(s[13 + l2a + l1a] == 44u8);
    } else if l1b < l1a {
        assert(s[13 + l2a + l1b] == 44u8);
    }
    lemma_dec_i32_injective(id1, id2);
    lemma_dec_injective(exp1 as nat, exp2 as nat);
    lemma_unescape_escape(encode_utf8(username1));
    lemma_unescape_escape(encode_utf8(username2));
    encode_utf8_decode_utf8(username1);
    encode_utf8_decode_utf8(username2);
}

/// Relies on `String::from_utf8`, which accepts exactly the valid UTF-8 byte
/// sequences and keeps the characters they encode.
#[verifier::external_body]
fn string_from_utf8(bytes: Vec<u8>) -> (r: Option<String>)
    ensures
        r is Some <==> valid_utf8(bytes@),
        r matches Some(s) ==> s@ == decode_utf8(bytes@),
{
    String::from_utf8(bytes).ok()
}

fn push_bytes(out: &mut Vec<u8>, s: &[u8])
    ensures
        final(out)@ == old(out)@ + s@,
{
    let mut i: usize = 0;
    while i < s.len()
        invariant
            0 <= i <= s@.len(),
            out@ == old(out)@ + s@.take(i as int),
        decreases s@.len() - i,
    {
        out.push(s[i]);
        proof {
            assert(out@ =~= old(out)@ + s@.take(i + 1));
        }
        i = i + 1;
    }
    proof {
        assert(s@.take(i as int) =~= s@);
    }
}

/// Whether `key` stands in `b` from position `pos` on.
pub(crate) fn bytes_at(b: &[u8], pos: usize, key: &[u8]) -> (r: bool)
    ensures
        r == (pos + key@.len() <= b@.len() && b@.subrange(pos as int, pos + key@.len()) == key@),
{
    if pos > b.len() || key.len() > b.len() - pos {
        return false;
    }
    let n = b.len();
    let mut i: usize = 0;
    while i < key.len()
        invariant
            0 <= i <= key@.len(),
            n == b@.len(),
            pos + key@.len() <= b@.len(),
            forall|k: int| 0 <= k < i ==> b@[pos + k] == key@[k],
        decreases key@.len() - i,
    {
        if b[pos + i] != key[i] {
            proof {
                assert(b@.subrange(pos as int, pos + key@.len())[i as int] != key@[i as int]);
            }
            return false;
        }
        i = i + 1;
    }
    proof {
        assert(b@.subrange(pos as int, pos + key@.len()) =~= key@);
    }
    true
}

/// The first position from `from` on that holds `x`.
pub(crate) fn find_first(b: &[u8], from: usize, x: u8) -> (r: Option<usize>)
    ensures
        r matches Some(j) ==> from <= j < b@.len() && b@[j as int] == x && forall|k: int|
            from <= k < j ==> b@[k] != x,
        r is None ==> forall|k: int| from <= k < b@.len() ==> b@[k] != x,
{
    let mut i: usize = from;
    while i < b.len()
        invariant
            from <= i,
            forall|k: int| from <= k < i ==> b@[k] != x,
        decreases b@.len() - i,
    {
        if b[i] == x {
            return Some(i);
        }
        i = i + 1;
    }
    None
}

/// Writes the JSON object of a set of claims.
pub fn claims_to_json(c: &Claims) -> (r: Vec<u8>)
    ensures
        r@ == claims_json(c.id, c.username@, c.exp),
{
    let k1: [u8; 7] = [123, 34, 101, 120, 112, 34, 58];
    let k2: [u8; 6] = [44, 34, 105, 100, 34, 58];
    let k3: [u8; 13] = [44, 34, 117, 115, 101, 114, 110, 97, 109, 101, 34, 58, 34];
    assert(k1@ =~= exp_key());
    assert(k2@ =~= id_key());
    assert(k3@ =~= name_key());
    let mut out: Vec<u8> = Vec::new();
    push_bytes(&mut out, k1.as_slice());
    push_decimal(&mut out, c.exp);
    push_bytes(&mut out, k2.as_slice());
    push_decimal_i32(&mut out, c.id);
    push_bytes(&mut out, k3.as_slice());
    push_escaped(&mut out, c.username.as_str().as_bytes());
    out.push(34u8);
    out.push(125u8);
    assert(out@ =~= claims_json(c.id, c.username@, c.exp));
    out
}

/// Finds the commas that end the expiry and the identifier. On every claims
/// object it finds them, and the texts between hold the three fields.
#[verifier::rlimit(80)]
fn locate_fields(b: &[u8]) -> (r: Option<(usize, usize)>)
    ensures
        r matches Some((j1, j2)) ==> 7 <= j1 && j1 + 6 <= j2 && j2 + 15 <= b@.len(),
        forall|id: i32, username: Seq<char>, exp: u64|
            b@ == #[trigger] claims_json(id, username, exp) ==> (r matches Some((j1, j2))
                && b@.subrange(7, j1 as int) == dec(exp as nat) && b@.subrange(j1 + 6, j2 as int)
                == dec_i32(id) && b@.subrange(j2 + 13, b@.len() - 2) == escape(
                encode_utf8(username),
            )),
{
    let k1: [u8; 7] = [123, 34, 101, 120, 112, 34, 58];
    let k2: [u8; 6] = [44, 34, 105, 100, 34, 58];
    let k3: [u8; 13] = [44, 34, 117, 115, 101, 114, 110, 97, 109, 101, 34, 58, 34];
    assert(k1@ =~= exp_key());
    assert(k2@ =~= id_key());
    assert(k3@ =~= name_key());
    let n = b.len();
    let j1 = match find_first(b, 7, 44u8) {
        Some(j) => j,
        None => {
            proof {
                assert forall|id: i32, username: Seq<char>, exp: u64|
                    b@ == #[trigger] claims_json(id, username, exp) implies false by {
                    lemma_claims_json_layout(id, username, exp);
                }
            }
            return None;
        },
    };
    if j1 > n - 6 {
        proof {
            assert forall|id: i32, username: Seq<char>, exp: u64|
                b@ == #[trigger] claims_json(id, username, exp) implies false by {
                lemma_claims_json_layout(id, username, exp);
                let l2 = dec(exp as nat).len() as int;
                assert(j1 == 7 + l2);
            }
        }
        return None;
    }
    let j2 = match find_first(b, j1 + 6, 44u8) {
        Some(j) => j,
        None => {
            proof {
                assert forall|id: i32, username: Seq<char>, exp: u64|
                    b@ == #[trigger] claims_json(id, username, exp) implies false by {
                    lemma_claims_json_layout(id, username, exp);
                    let l2 = dec(exp as nat).len() as int;
                    let l1 = dec_i32(id).len() as int;
                    assert(j1 == 7 + l2);
                    assert(b@[13 + l2 + l1] == 44u8);
                }
            }
            return None;
        },
    };
    if n < 15 || j2 > n - 15 || b[n - 2] != 34u8 || b[n - 1] != 125u8 || !bytes_at(b, 0, k1.as_slice())
        || !bytes_at(b, j1, k2.as_slice()) || !bytes_at(b, j2, k3.as_slice()) {
        proof {
            assert forall|id: i32, username: Seq<char>, exp: u64|
                b@ == #[trigger] claims_json(id, username, exp) implies false by {
                lemma_claims_json_layout(id, username, exp);
                let l2 = dec(exp as nat).len() as int;
                let l1 = dec_i32(id).len() as int;
                assert(j1 == 7 + l2);
                assert(j2 == 13 + l2 + l1);
                let s = b@;
                assert(s[s.len() - 2] == object_end()[0]);
                assert(s[s.len() - 1] == object_end()[1]);
            }
        }
        return None;
    }
    proof {
        assert forall|id: i32, username: Seq<char>, exp: u64|
            b@ == #[trigger] claims_json(id, username, exp) implies b@.subrange(7, j1 as int)
            == dec(exp as nat) && b@.subrange(j1 + 6, j2 as int) == dec_i32(id) && b@.subrange(
            j2 + 13,
            b@.len() - 2,
        ) == escape(encode_utf8(username)) by {
            lemma_claims_json_layout(id, username, exp);
            let l2 = dec(exp as nat).len() as int;
            let l1 = dec_i32(id).len() as int;
            assert(j1 == 7 + l2);
            assert(j2 == 13 + l2 + l1);
        }
    }
    Some((j1, j2))
}

/// Reads the claims back from their JSON object. It reads exactly the objects
/// that `claims_to_json` writes, and gives back the claims each was written
/// from.
pub fn claims_from_json(b: &[u8]) -> (r: Option<Claims>)
    ensures
        r matches Some(c) ==> b@ == claims_json(c.id, c.username@, c.exp),
        forall|id: i32, username: Seq<char>, exp: u64|
            b@ == #[trigger] claims_json(id, username, exp) ==> (r matches Some(c) && c.id == id
                && c.username@ == username && c.exp == exp),
{
    let (j1, j2) = match locate_fields(b) {
        Some(p) => p,
        None => {
            return None;
        },
    };
    let n = b.len();
    let exp_text = &b[7..j1];
    let id_text = &b[j1 + 6..j2];
    let name_text = &b[j2 + 13..n - 2];
    let id = parse_decimal_i32(id_text);
    let name = unescape_bytes(name_text);
    let exp = parse_decimal(exp_text);
    match (id, name, exp) {
        (Some(id), Some(name), Some(exp)) => {
            let ghost name_bytes = name@;
            match string_from_utf8(name) {
                Some(username) => {
                    proof {
                        assert forall|i: i32, u: Seq<char>, e: u64|
                            b@ == #[trigger] claims_json(i, u, e) implies id == i && username@ == u
                            && exp == e by {
                            lemma_unescape_escape(encode_utf8(u));
                            encode_utf8_decode_utf8(u);
                            lemma_dec_shape(e as nat);
                            lemma_dec_value(e as nat);
                        }
                    }
                    let claims = Claims { id, username, exp };
                    let written = claims_to_json(&claims);
                    if written.len() == b.len() && bytes_at(b, 0, written.as_slice()) {
                        proof {
                            assert(b@ =~= b@.subrange(0, written@.len() as int));
                        }
                        Some(claims)
                    } else {
                        proof {
                            assert forall|i: i32, u: Seq<char>, e: u64|
                                b@ == #[trigger] claims_json(i, u, e) implies false by {
                                assert(written@ == b@);
                                assert(b@.subrange(0, b@.len() as int) =~= b@);
                            }
                        }
                        None
                    }
                },
                None => {
                    proof {
                        assert forall|i: i32, u: Seq<char>, e: u64|
                            b@ == #[trigger] claims_json(i, u, e) implies false by {
                            lemma_unescape_escape(encode_utf8(u));
                            encode_utf8_valid_utf8(u);
                        }
                    }
                    None
                },
            }
        },
        _ => {
            proof {
                assert forall|i: i32, u: Seq<char>, e: u64|
                    b@ == #[trigger] claims_json(i, u, e) implies false by {
                    lemma_unescape_escape(encode_utf8(u));
                    lemma_dec_shape(e as nat);
                    lemma_dec_value(e as nat);
                }
            }
            None
        },
    }
}

} // verus!
