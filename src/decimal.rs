use vstd::prelude::*;

verus! {

/// Whether a byte is an ASCII decimal digit.
pub open spec fn is_digit(b: u8) -> bool {
    48 <= b <= 57
}

pub open spec fn all_digits(s: Seq<u8>) -> bool {
    forall|i: int| 0 <= i < s.len() ==> is_digit(#[trigger] s[i])
}

/// The shortest decimal text of a natural number, most significant digit first.
pub open spec fn dec(n: nat) -> Seq<u8>
    decreases n,
{
    if n < 10 {
        seq![(48 + n) as u8]
    } else {
        dec(n / 10).push((48 + n % 10) as u8)
    }
}

/// The decimal text of a signed number: a minus sign before the magnitude.
pub open spec fn dec_i32(n: i32) -> Seq<u8> {
    if n < 0 {
        seq![45u8] + dec((-n) as nat)
    } else {
        dec(n as nat)
    }
}

/// The number that a run of digits denotes.
pub open spec fn digits_value(s: Seq<u8>) -> nat
    decreases s.len(),
{
    if s.len() == 0 {
        0
    } else {
        digits_value(s.drop_last()) * 10 + (s.last() - 48) as nat
    }
}

pub proof fn lemma_dec_shape(n: nat)
    ensures
        dec(n).len() >= 1,
        all_digits(dec(n)),
    decreases n,
{
    if n >= 10 {
        lemma_dec_shape(n / 10);
        assert(all_digits(dec(n))) by {
            assert forall|i: int| 0 <= i < dec(n).len() implies is_digit(#[trigger] dec(n)[i]) by {
                if i < dec(n / 10).len() {
                    assert(dec(n)[i] == dec(n / 10)[i]);
                }
            }
        }
    }
}

pub proof fn lemma_dec_value(n: nat)
    ensures
        digits_value(dec(n)) == n,
    decreases n,
{
    if n >= 10 {
        lemma_dec_value(n / 10);
        assert(dec(n).drop_last() =~= dec(n / 10));
        assert(n == (n / 10) * 10 + n % 10);
        assert(dec(n).last() as int == 48 + n % 10);
    } else {
        assert(dec(n).drop_last() =~= Seq::<u8>::empty());
        assert(digits_value(dec(n).drop_last()) == 0);
        assert(dec(n).last() as int == 48 + n);
    }
}

pub proof fn lemma_dec_i32_shape(n: i32)
    ensures
        dec_i32(n).len() >= 1,
        forall|i: int| 0 <= i < dec_i32(n).len() ==> #[trigger] dec_i32(n)[i] == 45u8
            || is_digit(dec_i32(n)[i]),
{
    if n < 0 {
        lemma_dec_shape((-n) as nat);
        let d = dec((-n) as nat);
        assert forall|i: int| 0 <= i < dec_i32(n).len() implies #[trigger] dec_i32(n)[i] == 45u8
            || is_digit(dec_i32(n)[i]) by {
            if i > 0 {
                assert(dec_i32(n)[i] == d[i - 1]);
            }
        }
    } else {
        lemma_dec_shape(n as nat);
    }
}

/// A prefix of a run of digits denotes no more than the whole run.
pub proof fn lemma_prefix_value_le(s: Seq<u8>, k: int)
    requires
        all_digits(s),
        0 <= k <= s.len(),
    ensures
        digits_value(s.take(k)) <= digits_value(s),
    decreases s.len(),
{
    if k < s.len() {
        let t = s.drop_last();
        assert(all_digits(t)) by {
            assert forall|i: int| 0 <= i < t.len() implies is_digit(#[trigger] t[i]) by {
                assert(t[i] == s[i]);
            }
        }
        lemma_prefix_value_le(t, k);
        assert(t.take(k) =~= s.take(k));
    } else {
        assert(s.take(k) =~= s);
    }
}

/// Appends the decimal text of `n`.
pub fn push_decimal(out: &mut Vec<u8>, n: u64)
    ensures
        final(out)@ == old(out)@ + dec(n as nat),
    decreases n,
{
    if n >= 10 {
        push_decimal(out, n / 10);
    }
    out.push((48 + n % 10) as u8);
    proof {
        if n >= 10 {
            assert(final(out)@ =~= old(out)@ + dec(n as nat));
        } else {
            assert(final(out)@ =~= old(out)@ + dec(n as nat));
        }
    }
}

/// Appends the decimal text of a signed number.
pub fn push_decimal_i32(out: &mut Vec<u8>, n: i32)
    ensures
        final(out)@ == old(out)@ + dec_i32(n),
{
    if n < 0 {
        out.push(45u8);
        let magnitude: u64 = (-(n as i64)) as u64;
        push_decimal(out, magnitude);
        assert(final(out)@ =~= old(out)@ + dec_i32(n));
    } else {
        push_decimal(out, n as u64);
    }
}

/// Reads a whole slice as an unsigned decimal number. It succeeds on every run
/// of one or more digits whose value fits in `u64`.
pub fn parse_decimal(s: &[u8]) -> (r: Option<u64>)
    ensures
        (s@.len() > 0 && all_digits(s@) && digits_value(s@) <= u64::MAX) ==> r == Some(
            digits_value(s@) as u64,
        ),
        r matches Some(v) ==> s@.len() > 0 && all_digits(s@) && v == digits_value(s@),
{
    if s.len() == 0 {
        return None;
    }
    let mut acc: u64 = 0;
    let mut i: usize = 0;
    while i < s.len()
        invariant
            0 <= i <= s@.len(),
            all_digits(s@.take(i as int)),
            acc == digits_value(s@.take(i as int)),
        decreases s@.len() - i,
    {
        let b = s[i];
        if b < 48 || b > 57 {
            proof {
                assert(!all_digits(s@)) by {
                    assert(!is_digit(s@[i as int]));
                }
            }
            return None;
        }
        proof {
            assert(s@.take(i + 1).drop_last() =~= s@.take(i as int));
            assert(all_digits(s@.take(i + 1))) by {
                assert forall|k: int| 0 <= k < i + 1 implies is_digit(#[trigger] s@.take(i + 1)[k]) by {
                    if k < i {
                        assert(s@.take(i + 1)[k] == s@.take(i as int)[k]);
                    }
                }
            }
        }
        let next = match acc.checked_mul(10) {
            Some(m) => m.checked_add((b - 48) as u64),
            None => None,
        };
        match next {
            Some(v) => {
                acc = v;
            },
            None => {
                proof {
                    if all_digits(s@) {
                        lemma_prefix_value_le(s@, i + 1);
                    }
                }
                return None;
            },
        }
        i = i + 1;
    }
    proof {
        assert(s@.take(i as int) =~= s@);
    }
    Some(acc)
}

/// Reads a whole slice as a signed decimal number: an optional minus sign and
/// a run of digits whose value fits in `i32`.
pub fn parse_decimal_i32(s: &[u8]) -> (r: Option<i32>)
    ensures
        r matches Some(v) ==> if s@.len() > 0 && s@[0] == 45u8 {
            let rest = s@.subrange(1, s@.len() as int);
            rest.len() > 0 && all_digits(rest) && v == -digits_value(rest)
        } else {
            s@.len() > 0 && all_digits(s@) && v == digits_value(s@)
        },
        forall|n: i32| s@ == #[trigger] dec_i32(n) ==> r == Some(n),
{
    proof {
        assert forall|n: i32| s@ == #[trigger] dec_i32(n) && n < 0 implies s@.len() > 0 && s@[0]
            == 45u8 && s@.subrange(1, s@.len() as int) == dec((-n) as nat) by {
            assert(s@.subrange(1, s@.len() as int) =~= dec((-n) as nat));
        }
        assert forall|n: i32| s@ == #[trigger] dec_i32(n) && n >= 0 implies s@.len() > 0 && s@[0]
            != 45u8 by {
            lemma_dec_shape(n as nat);
        }
    }
    if s.len() > 0 && s[0] == 45u8 {
        let rest = &s[1..s.len()];
        match parse_decimal(rest) {
            Some(m) => {
                if m <= 2147483648 {
                    let v: i32 = (-(m as i64)) as i32;
                    proof {
                        assert forall|n: i32| s@ == #[trigger] dec_i32(n) implies v == n by {
                            if n < 0 {
                                lemma_dec_shape((-n) as nat);
                                lemma_dec_value((-n) as nat);
                            } 
                        }
                    }
                    Some(v)
                } else {
                    proof {
                        assert forall|n: i32| s@ == #[trigger] dec_i32(n) implies false by {
                            if n < 0 {
                                lemma_dec_shape((-n) as nat);
                                lemma_dec_value((-n) as nat);
                            }
                        }
                    }
                    None
                }
            },
            None => {
                proof {
                    assert forall|n: i32| s@ == #[trigger] dec_i32(n) implies false by {
                        if n < 0 {
                            lemma_dec_shape((-n) as nat);
                            lemma_dec_value((-n) as nat);
                        }
                    }
                }
                None
            },
        }
    } else {
        match parse_decimal(s) {
            Some(m) => {
                if m <= 2147483647 {
                    proof {
                        assert forall|n: i32| s@ == #[trigger] dec_i32(n) implies m as i32 == n by {
                            lemma_dec_shape(n as nat);
                            lemma_dec_value(n as nat);
                        }
                    }
                    Some(m as i32)
                } else {
                    proof {
                        assert forall|n: i32| s@ == #[trigger] dec_i32(n) implies false by {
                            lemma_dec_shape(n as nat);
                            lemma_dec_value(n as nat);
                        }
                    }
                    None
                }
            },
            None => {
                proof {
                    assert forall|n: i32| s@ == #[trigger] dec_i32(n) implies false by {
                        lemma_dec_shape(n as nat);
                        lemma_dec_value(n as nat);
                    }
                }
                None
            },
        }
    }
}

} // verus!
