use vstd::prelude::*;

verus! {

/// The lower-case hexadecimal digit of a value below 16.
pub open spec fn hex_digit(d: nat) -> u8 {
    if d < 10 {
        (48 + d) as u8
    } else {
        (87 + d) as u8
    }
}

/// The value of a lower-case hexadecimal digit.
pub open spec fn hex_value(b: u8) -> Option<nat> {
    if 48 <= b <= 57 {
        Some((b - 48) as nat)
    } else if 97 <= b <= 102 {
        Some((b - 87) as nat)
    } else {
        None
    }
}

/// The letter of the short escape of a control byte, if it has one.
pub open spec fn short_escape(b: u8) -> Option<u8> {
    if b == 8 {
        Some(98u8)
    } else if b == 9 {
        Some(116u8)
    } else if b == 10 {
        Some(110u8)
    } else if b == 12 {
        Some(102u8)
    } else if b == 13 {
        Some(114u8)
    } else {
        None
    }
}

/// The control byte that a short escape letter stands for.
pub open spec fn short_unescape(l: u8) -> Option<u8> {
    if l == 98 {
        Some(8u8)
    } else if l == 116 {
        Some(9u8)
    } else if l == 110 {
        Some(10u8)
    } else if l == 102 {
        Some(12u8)
    } else if l == 114 {
        Some(13u8)
    } else {
        None
    }
}

/// How one byte stands inside a JSON string as serde_json writes it: a quote
/// and a backslash are preceded by a backslash, backspace, tab, line feed,
/// form feed and carriage return take their short escapes, any other control
/// byte becomes `\u00XX`, and every other byte stands for itself.
pub open spec fn escape_byte(b: u8) -> Seq<u8> {
    if b == 34 {
        seq![92u8, 34u8]
    } else if b == 92 {
        seq![92u8, 92u8]
    } else if short_escape(b) is Some {
        seq![92u8, short_escape(b)->0]
    } else if b < 32 {
        seq![92u8, 117u8, 48u8, 48u8, hex_digit((b / 16) as nat), hex_digit((b % 16) as nat)]
    } else {
        seq![b]
    }
}

/// The body of a JSON string that holds the bytes `s`.
pub open spec fn escape(s: Seq<u8>) -> Seq<u8>
    decreases s.len(),
{
    if s.len() == 0 {
        Seq::empty()
    } else {
        escape(s.drop_last()) + escape_byte(s.last())
    }
}

/// The first byte that the front of an escaped text stands for, and how many
/// bytes it takes.
pub open spec fn unescape_first(s: Seq<u8>) -> Option<(u8, nat)> {
    if s.len() == 0 || s[0] == 34 {
        None
    } else if s[0] != 92 {
        Some((s[0], 1))
    } else if s.len() >= 2 && (s[1] == 34 || s[1] == 92) {
        Some((s[1], 2))
    } else if s.len() >= 2 && short_unescape(s[1]) is Some {
        Some((short_unescape(s[1])->0, 2))
    } else if s.len() >= 6 && s[1] == 117 && s[2] == 48 && s[3] == 48 && hex_value(s[4]) is Some
        && hex_value(s[5]) is Some {
        Some(((hex_value(s[4])->0 * 16 + hex_value(s[5])->0) as u8, 6))
    } else {
        None
    }
}

/// The bytes that an escaped text stands for, if it is well formed.
pub open spec fn unescape(s: Seq<u8>) -> Option<Seq<u8>>
    decreases s.len(),
{
    if s.len() == 0 {
        Some(Seq::empty())
    } else {
        match unescape_first(s) {
            Some((b, k)) => if 1 <= k <= s.len() {
                match unescape(s.skip(k as int)) {
                    Some(t) => Some(seq![b] + t),
                    None => None,
                }
            } else {
                None
            },
            None => None,
        }
    }
}

pub proof fn lemma_escape_concat(a: Seq<u8>, b: Seq<u8>)
    ensures
        escape(a + b) == escape(a) + escape(b),
    decreases b.len(),
{
    if b.len() == 0 {
        assert(a + b =~= a);
        assert(escape(a) + escape(b) =~= escape(a));
    } else {
        lemma_escape_concat(a, b.drop_last());
        assert((a + b).drop_last() =~= a + b.drop_last());
        assert((a + b).last() == b.last());
        assert(escape(a) + escape(b) =~= escape(a) + escape(b.drop_last()) + escape_byte(b.last()));
    }
}

proof fn lemma_unescape_first_of_escape(b: u8, rest: Seq<u8>)
    ensures
        unescape_first(escape_byte(b) + rest) == Some((b, escape_byte(b).len())),
{
    let e = escape_byte(b);
    let s = e + rest;
    assert(s[0] == e[0]);
    if b == 34 || b == 92 || short_escape(b) is Some {
        assert(s[1] == e[1]);
    } else if b < 32 {
        assert(s[1] == e[1] && s[2] == e[2] && s[3] == e[3] && s[4] == e[4] && s[5] == e[5]);
        let hi = (b / 16) as nat;
        let lo = (b % 16) as nat;
        assert(hi < 2);
        assert(hex_value(hex_digit(hi)) == Some(hi));
        assert(hex_value(hex_digit(lo)) == Some(lo));
        assert((hi * 16 + lo) as u8 == b);
    }
}

/// Unescaping undoes escaping.
pub proof fn lemma_unescape_escape(u: Seq<u8>)
    ensures
        unescape(escape(u)) == Some(u),
    decreases u.len(),
{
    if u.len() == 0 {
    } else {
        let first = seq![u[0]];
        let rest = u.skip(1);
        assert(u =~= first + rest);
        lemma_escape_concat(first, rest);
        assert(first.drop_last() =~= Seq::<u8>::empty());
        assert(escape(first.drop_last()) == Seq::<u8>::empty());
        assert(escape(first) =~= escape_byte(u[0]));
        let e = escape(u);
        assert(e == escape_byte(u[0]) + escape(rest));
        lemma_unescape_first_of_escape(u[0], escape(rest));
        let k = escape_byte(u[0]).len();
        assert(e.skip(k as int) =~= escape(rest));
        lemma_unescape_escape(rest);
        assert(seq![u[0]] + rest =~= u);
    }
}

/// Appends the escaped form of `s`.
pub fn push_escaped(out: &mut Vec<u8>, s: &[u8])
    ensures
        final(out)@ == old(out)@ + escape(s@),
{
    let mut i: usize = 0;
    while i < s.len()
        invariant
            0 <= i <= s@.len(),
            out@ == old(out)@ + escape(s@.take(i as int)),
        decreases s@.len() - i,
    {
        let b = s[i];
        if b == 34 || b == 92 {
            out.push(92u8);
            out.push(b);
        } else if b == 8 || b == 9 || b == 10 || b == 12 || b == 13 {
            out.push(92u8);
            out.push(
                if b == 8 {
                    98u8
                } else if b == 9 {
                    116u8
                } else if b == 10 {
                    110u8
                } else if b == 12 {
                    102u8
                } else {
                    114u8
                },
            );
        } else if b < 32 {
            out.push(92u8);
            out.push(117u8);
            out.push(48u8);
            out.push(48u8);
            let hi = b / 16;
            let lo = b % 16;
            out.push(if hi < 10 { 48 + hi } else { 87 + hi });
            out.push(if lo < 10 { 48 + lo } else { 87 + lo });
        } else {
            out.push(b);
        }
        proof {
            assert(s@.take(i + 1).drop_last() =~= s@.take(i as int));
            assert(s@.take(i + 1).last() == b);
            assert(out@ =~= old(out)@ + escape(s@.take(i + 1)));
        }
        i = i + 1;
    }
    proof {
        assert(s@.take(i as int) =~= s@);
    }
}

fn hex_value_exec(b: u8) -> (r: Option<u8>)
    ensures
        r matches Some(v) ==> hex_value(b) == Some(v as nat),
        r is None ==> hex_value(b) is None,
{
    if 48 <= b && b <= 57 {
        Some(b - 48)
    } else if 97 <= b && b <= 102 {
        Some(b - 87)
    } else {
        None
    }
}

fn unescape_first_exec(s: &[u8], i: usize) -> (r: Option<(u8, usize)>)
    requires
        i <= s@.len(),
    ensures
        r matches Some((b, k)) ==> unescape_first(s@.skip(i as int)) == Some((b, k as nat)),
        r is None ==> unescape_first(s@.skip(i as int)) is None,
{
    let t = Ghost(s@.skip(i as int));
    let n = s.len() - i;
    if n == 0 || s[i] == 34 {
        return None;
    }
    if s[i] != 92 {
        return Some((s[i], 1));
    }
    if n >= 2 && (s[i + 1] == 34 || s[i + 1] == 92) {
        return Some((s[i + 1], 2));
    }
    if n >= 2 {
        let l = s[i + 1];
        if l == 98 {
            return Some((8u8, 2));
        } else if l == 116 {
            return Some((9u8, 2));
        } else if l == 110 {
            return Some((10u8, 2));
        } else if l == 102 {
            return Some((12u8, 2));
        } else if l == 114 {
            return Some((13u8, 2));
        }
    }
    if n >= 6 && s[i + 1] == 117 && s[i + 2] == 48 && s[i + 3] == 48 {
        match (hex_value_exec(s[i + 4]), hex_value_exec(s[i + 5])) {
            (Some(hi), Some(lo)) => {
                return Some((hi * 16 + lo, 6));
            },
            _ => {
                return None;
            },
        }
    }
    None
}

/// Decodes the body of a JSON string. On any text that escaping produced it
/// gives back the escaped bytes.
pub fn unescape_bytes(s: &[u8]) -> (r: Option<Vec<u8>>)
    ensures
        r matches Some(v) ==> unescape(s@) == Some(v@),
        r is None ==> unescape(s@) is None,
{
    let mut out: Vec<u8> = Vec::new();
    let mut i: usize = 0;
    proof {
        assert(s@.skip(0) =~= s@);
        match unescape(s@) {
            Some(t) => {
                assert(out@ + t =~= t);
            },
            None => {},
        }
    }
    while i < s.len()
        invariant
            0 <= i <= s@.len(),
            unescape(s@) == match unescape(s@.skip(i as int)) {
                Some(t) => Some(out@ + t),
                None => None::<Seq<u8>>,
            },
        decreases s@.len() - i,
    {
        let step = unescape_first_exec(s, i);
        match step {
            Some((b, k)) => {
                proof {
                    assert(s@.skip(i as int).skip(k as int) =~= s@.skip(i + k));
                    match unescape(s@.skip(i + k)) {
                        Some(t) => {
                            assert(out@ + (seq![b] + t) =~= out@.push(b) + t);
                        },
                        None => {},
                    }
                }
                out.push(b);
                i = i + k;
            },
            None => {
                return None;
            },
        }
    }
    proof {
        assert(s@.skip(i as int) =~= Seq::<u8>::empty());
        assert(out@ + Seq::<u8>::empty() =~= out@);
    }
    Some(out)
}

} // verus!
