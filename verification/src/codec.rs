use vstd::prelude::*;

use vstd::arithmetic::power2::pow2;

verus! {

/// The decimal digit character for `d`.
pub open spec fn dec_digit(d: nat) -> char {
    ((48 + d % 10) as u8) as char
}

/// The canonical decimal rendering of `n`: no sign, no leading zeros.
pub open spec fn dec_of(n: nat) -> Seq<char>
    decreases n,
{
    if n < 10 {
        seq![dec_digit(n)]
    } else {
        dec_of(n / 10).push(dec_digit(n % 10))
    }
}

/// Whether `c` is a decimal digit.
pub open spec fn is_dec_digit(c: char) -> bool {
    48 <= c as u32 && c as u32 <= 57
}

/// The value of a digit character.
pub open spec fn dec_val(c: char) -> int {
    c as u64 - 48
}

/// Left-to-right accumulation of a digit string, rejecting any non-digit
/// and any value beyond `u64::MAX`.
pub open spec fn parse_dec_loop(s: Seq<char>, i: int, acc: u64) -> Option<u64>
    decreases s.len() - i,
{
    if i < 0 || i >= s.len() {
        Some(acc)
    } else if !is_dec_digit(s[i]) {
        None
    } else if acc > (u64::MAX - dec_val(s[i])) / 10 {
        None
    } else {
        parse_dec_loop(s, i + 1, (10 * acc + dec_val(s[i])) as u64)
    }
}

/// The number a string denotes in canonical decimal, if any: non-empty,
/// digits only, no leading zero except for "0" itself, and within
/// `u64` range.
pub open spec fn spec_parse_dec(s: Seq<char>) -> Option<u64> {
    if s.len() == 0 {
        None
    } else if s[0] == '0' {
        if s.len() == 1 {
            Some(0u64)
        } else {
            None
        }
    } else {
        parse_dec_loop(s, 0, 0)
    }
}

/// Appending a digit to the input extends the accumulation by one step.
proof fn lemma_parse_dec_loop_push(s: Seq<char>, c: char, i: int, acc: u64)
    requires
        0 <= i <= s.len(),
        is_dec_digit(c),
    ensures
        parse_dec_loop(s.push(c), i, acc) == (match parse_dec_loop(s, i, acc) {
            Some(m) => if m <= (u64::MAX - dec_val(c)) / 10 {
                Some((10 * m + dec_val(c)) as u64)
            } else {
                None
            },
            None => None,
        }),
    decreases s.len() - i,
{
    let t = s.push(c);
    if i == s.len() {
        assert(t[i] == c);
        if acc <= (u64::MAX - dec_val(c)) / 10 {
            assert(parse_dec_loop(t, i + 1, (10 * acc + dec_val(c)) as u64) == Some(
                (10 * acc + dec_val(c)) as u64,
            ));
        }
    } else {
        assert(t[i] == s[i]);
        if is_dec_digit(s[i]) && acc <= (u64::MAX - dec_val(s[i])) / 10 {
            lemma_parse_dec_loop_push(s, c, i + 1, (10 * acc + dec_val(s[i])) as u64);
        }
    }
}

/// The canonical rendering of every `u64` parses back to that number.
pub proof fn lemma_dec_round_trip(n: u64)
    ensures
        spec_parse_dec(dec_of(n as nat)) == Some(n),
    decreases n,
{
    if n < 10 {
        let s = dec_of(n as nat);
        assert(s.len() == 1);
        assert(s[0] == dec_digit(n as nat));
        if n == 0 {
            assert(s[0] == '0');
        } else {
            assert(s[0] != '0');
            assert(is_dec_digit(s[0]));
            assert(dec_val(s[0]) == n);
            assert(parse_dec_loop(s, 0, 0) == parse_dec_loop(s, 1, n));
        }
    } else {
        let hi = n / 10;
        let d = n % 10;
        lemma_dec_round_trip(hi);
        let sh = dec_of(hi as nat);
        let s = dec_of(n as nat);
        assert(s == sh.push(dec_digit(n as nat % 10)));
        assert(dec_digit(n as nat % 10) == dec_digit(d as nat));
        assert(is_dec_digit(dec_digit(d as nat)));
        assert(dec_val(dec_digit(d as nat)) == d);
        assert(sh.len() >= 1);
        assert(sh[0] != '0') by {
            lemma_dec_first_digit(hi as nat);
        }
        assert(parse_dec_loop(sh, 0, 0) == Some(hi));
        lemma_parse_dec_loop_push(sh, dec_digit(d as nat), 0, 0);
        assert(10 * hi + d == n) by {
            assert(n == 10 * (n / 10) + n % 10);
        }
        assert(hi <= (u64::MAX - d) / 10) by {
            assert(10 * hi <= u64::MAX - d);
        }
        assert(s.push(dec_digit(d as nat)) == sh.push(dec_digit(n as nat % 10)).push(
            dec_digit(d as nat),
        ));
        assert(s[0] == sh[0]);
    }
}

/// The leading digit of a positive number's rendering is never zero.
proof fn lemma_dec_first_digit(n: nat)
    requires
        n >= 1,
    ensures
        dec_of(n).len() >= 1,
        dec_of(n)[0] != '0',
    decreases n,
{
    if n < 10 {
        assert(dec_of(n)[0] == dec_digit(n));
    } else {
        lemma_dec_first_digit(n / 10);
        assert(dec_of(n)[0] == dec_of(n / 10)[0]);
    }
}

/// The single-character string for one digit.
fn digit_str(d: u64) -> (r: &'static str)
    requires
        d < 10,
    ensures
        r@ == seq![dec_digit(d as nat)],
{
    proof {
        reveal_strlit("0");
        reveal_strlit("1");
        reveal_strlit("2");
        reveal_strlit("3");
        reveal_strlit("4");
        reveal_strlit("5");
        reveal_strlit("6");
        reveal_strlit("7");
        reveal_strlit("8");
        reveal_strlit("9");
    }
    if d == 0 {
        "0"
    } else if d == 1 {
        "1"
    } else if d == 2 {
        "2"
    } else if d == 3 {
        "3"
    } else if d == 4 {
        "4"
    } else if d == 5 {
        "5"
    } else if d == 6 {
        "6"
    } else if d == 7 {
        "7"
    } else if d == 8 {
        "8"
    } else {
        "9"
    }
}

/// Renders `n` in canonical decimal.
pub fn u64_to_dec(n: u64) -> (s: String)
    ensures
        s@ == dec_of(n as nat),
    decreases n,
{
    if n < 10 {
        let d = digit_str(n);
        d.to_owned()
    } else {
        let mut s = u64_to_dec(n / 10);
        let d = digit_str(n % 10);
        s.append(d);
        proof {
            assert(s@ == dec_of(n as nat / 10) + seq![dec_digit(n as nat % 10)]);
            assert(dec_of(n as nat) == dec_of(n as nat / 10).push(dec_digit(n as nat % 10)));
            assert(dec_of(n as nat / 10).push(dec_digit(n as nat % 10)) =~= dec_of(n as nat / 10)
                + seq![dec_digit(n as nat % 10)]);
        }
        s
    }
}

/// Parses canonical decimal, answering exactly what `spec_parse_dec`
/// denotes.
#[verifier::loop_isolation(false)]
pub fn parse_u64_dec(s: &str) -> (r: Option<u64>)
    requires
        s.is_ascii(),
    ensures
        r == spec_parse_dec(s@),
{
    let n = s.unicode_len();
    if n == 0 {
        return None;
    }
    let first = s.get_char(0);
    if first == '0' {
        if n == 1 {
            return Some(0);
        }
        return None;
    }
    let mut acc: u64 = 0;
    let mut i: usize = 0;
    while i < n
        invariant
            0 <= i <= n,
            n == s@.len(),
            spec_parse_dec(s@) == parse_dec_loop(s@, i as int, acc),
        decreases n - i,
    {
        let c = s.get_char(i);
        let cv = c as u32;
        if !(48 <= cv && cv <= 57) {
            return None;
        }
        let d: u64 = (cv - 48) as u64;
        proof {
            assert(is_dec_digit(s@[i as int]));
            assert(dec_val(s@[i as int]) == d);
        }
        if acc > (u64::MAX - d) / 10 {
            return None;
        }
        acc = 10 * acc + d;
        i = i + 1;
    }
    Some(acc)
}


/// The IEEE 754 double encoded by these bits, rounded half away from
/// zero and saturated into `i64`; not-a-number decodes to zero. Stated
/// over the sign, exponent and fraction fields in plain integer
/// arithmetic.
pub open spec fn spec_decode_f64(bits: u64) -> i64 {
    let sign = bits / 0x8000_0000_0000_0000;
    let exp_raw = (bits / 0x10_0000_0000_0000) % 0x800;
    let frac = bits % 0x10_0000_0000_0000;
    if exp_raw == 0x7FF {
        if frac != 0 {
            0
        } else if sign == 0 {
            i64::MAX
        } else {
            i64::MIN
        }
    } else {
        let m: int = if exp_raw == 0 {
            frac as int
        } else {
            frac + 0x10_0000_0000_0000
        };
        let e: int = if exp_raw == 0 {
            -1074
        } else {
            exp_raw - 1075
        };
        let mag: int = if e >= 0 {
            m * pow2(e as nat)
        } else {
            m / pow2((-e) as nat) as int + (if 2 * (m % pow2((-e) as nat) as int) >= pow2(
                (-e) as nat,
            ) as int {
                1int
            } else {
                0int
            })
        };
        if sign == 0 {
            if mag > i64::MAX {
                i64::MAX
            } else {
                mag as i64
            }
        } else {
            if mag >= 0x8000_0000_0000_0000 {
                i64::MIN
            } else {
                (-mag) as i64
            }
        }
    }
}

/// The big-endian value of a byte string.
pub open spec fn be_val(bs: Seq<u8>) -> nat
    decreases bs.len(),
{
    if bs.len() == 0 {
        0
    } else {
        (be_val(bs.drop_last()) * 256 + bs.last()) as nat
    }
}

/// Reads a big-endian 64-bit grid coordinate stored as the bits of a
/// floating-point double, and rounds it to the nearest integer, in pure
/// integer arithmetic.
#[verifier::rlimit(60)]
pub fn decode_f64_from_bytes(bytes: &[u8]) -> (r: i64)
    requires
        bytes@.len() == 8,
    ensures
        r == spec_decode_f64(be_val(bytes@) as u64),
{
    let b0 = bytes[0] as u64;
    let b1 = bytes[1] as u64;
    let b2 = bytes[2] as u64;
    let b3 = bytes[3] as u64;
    let b4 = bytes[4] as u64;
    let b5 = bytes[5] as u64;
    let b6 = bytes[6] as u64;
    let b7 = bytes[7] as u64;
    let bits: u64 = ((((((((b0 * 256 + b1) * 256 + b2) * 256 + b3) * 256 + b4) * 256 + b5) * 256
        + b6) * 256) + b7);
    proof {
        let bs = bytes@;
        assert(be_val(bs.take(0)) == 0);
        assert(be_val(bs.take(1)) == b0) by {
            assert(bs.take(1).drop_last() =~= bs.take(0));
            assert(bs.take(1).last() == bs[0]);
        }
        assert(be_val(bs.take(2)) == b0 * 256 + b1) by {
            assert(bs.take(2).drop_last() =~= bs.take(1));
            assert(bs.take(2).last() == bs[1]);
        }
        assert(be_val(bs.take(3)) == (b0 * 256 + b1) * 256 + b2) by {
            assert(bs.take(3).drop_last() =~= bs.take(2));
            assert(bs.take(3).last() == bs[2]);
        }
        assert(be_val(bs.take(4)) == ((b0 * 256 + b1) * 256 + b2) * 256 + b3) by {
            assert(bs.take(4).drop_last() =~= bs.take(3));
            assert(bs.take(4).last() == bs[3]);
        }
        assert(be_val(bs.take(5)) == (((b0 * 256 + b1) * 256 + b2) * 256 + b3) * 256 + b4) by {
            assert(bs.take(5).drop_last() =~= bs.take(4));
            assert(bs.take(5).last() == bs[4]);
        }
        assert(be_val(bs.take(6)) == ((((b0 * 256 + b1) * 256 + b2) * 256 + b3) * 256 + b4) * 256
            + b5) by {
            assert(bs.take(6).drop_last() =~= bs.take(5));
            assert(bs.take(6).last() == bs[5]);
        }
        assert(be_val(bs.take(7)) == (((((b0 * 256 + b1) * 256 + b2) * 256 + b3) * 256 + b4) * 256
            + b5) * 256 + b6) by {
            assert(bs.take(7).drop_last() =~= bs.take(6));
            assert(bs.take(7).last() == bs[6]);
        }
        assert(be_val(bs) == be_val(bs.take(7)) * 256 + b7) by {
            assert(bs.drop_last() =~= bs.take(7));
            assert(bs.last() == bs[7]);
        }
        assert(be_val(bs) == bits);
    }
    let sign: u64 = bits / 0x8000_0000_0000_0000;
    let exp_raw: u64 = (bits / 0x10_0000_0000_0000) % 0x800;
    let frac: u64 = bits % 0x10_0000_0000_0000;
    if exp_raw == 0x7FF {
        if frac != 0 {
            return 0;
        }
        if sign == 0 {
            return i64::MAX;
        }
        return i64::MIN;
    }
    let m: u64 = if exp_raw == 0 {
        frac
    } else {
        frac + 0x10_0000_0000_0000
    };
    let ghost e: int = if exp_raw == 0 {
        -1074int
    } else {
        exp_raw - 1075
    };
    let ghost smag: int = (if e >= 0 {
        (m as int) * pow2(e as nat)
    } else {
        m as int / pow2((-e) as nat) as int + (if 2 * (m as int % pow2((-e) as nat) as int)
            >= pow2((-e) as nat) as int {
            1int
        } else {
            0int
        })
    });
    let mut mag: u64 = 0;
    if exp_raw > 1075 {
        // e >= 1: the magnitude is m * 2^e
        let sh: u64 = exp_raw - 1075;
        if sh >= 11 {
            proof {
                assert(m >= 0x10_0000_0000_0000);
                broadcast use vstd::arithmetic::power2::lemma_pow2_strictly_increases;
                vstd::arithmetic::power2::lemma2_to64();
                assert(pow2(11) == 2048);
                assert(pow2(e as nat) >= 2048) by {
                    if e > 11 {
                        assert(pow2(11) < pow2(e as nat));
                    }
                }
                assert(m * pow2(e as nat) >= 0x10_0000_0000_0000 * 2048) by (nonlinear_arith)
                    requires
                        m >= 0x10_0000_0000_0000,
                        pow2(e as nat) >= 2048,
                ;
                assert(smag >= 0x8000_0000_0000_0000);
            }
            if sign == 0 {
                return i64::MAX;
            }
            return i64::MIN;
        }
        let p: u64 = pow2_u64(sh);
        proof {
            assert(m <= 0x1F_FFFF_FFFF_FFFF);
            assert(pow2(sh as nat) <= pow2(10)) by {
                broadcast use vstd::arithmetic::power2::lemma_pow2_strictly_increases;
                if sh < 10 {
                    assert(pow2(sh as nat) < pow2(10));
                }
            }
            vstd::arithmetic::power2::lemma2_to64();
            assert(m * pow2(sh as nat) <= 0x1F_FFFF_FFFF_FFFF * 1024) by (nonlinear_arith)
                requires
                    m <= 0x1F_FFFF_FFFF_FFFF,
                    pow2(sh as nat) <= 1024,
            ;
        }
        mag = m * p;
        proof {
            assert(mag == smag);
        }
    } else if exp_raw == 1075 {
        mag = m;
        proof {
            vstd::arithmetic::power2::lemma2_to64();
            assert(pow2(0) == 1);
            assert(smag == (m as int) * 1);
        }
    } else {
        // e < 0: divide and round half away from zero
        let k: u64 = if exp_raw == 0 {
            1074
        } else {
            1075 - exp_raw
        };
        proof {
            assert(k == -e);
        }
        if k >= 54 {
            proof {
                broadcast use vstd::arithmetic::power2::lemma_pow2_strictly_increases;
                vstd::arithmetic::power2::lemma2_to64();
                vstd::arithmetic::power2::lemma2_to64_rest();
                assert(pow2(54) == 0x40_0000_0000_0000);
                assert(pow2(k as nat) >= pow2(54)) by {
                    if k > 54 {
                        assert(pow2(54) < pow2(k as nat));
                    }
                }
                assert(m < pow2(k as nat));
                assert(m as int / pow2(k as nat) as int == 0) by (nonlinear_arith)
                    requires
                        0 <= m < pow2(k as nat),
                ;
                vstd::arithmetic::div_mod::lemma_small_mod(m as nat, pow2(k as nat));
                assert(m as int % pow2(k as nat) as int == m);
                assert(2 * (m as int) < pow2(k as nat));
                assert(smag == 0);
            }
            mag = 0;
        } else {
            let p: u64 = pow2_u64(k);
            let q: u64 = m / p;
            let rem: u64 = m % p;
            proof {
                vstd::arithmetic::power2::lemma2_to64();
                vstd::arithmetic::power2::lemma2_to64_rest();
                assert(pow2(53) == 0x20_0000_0000_0000);
                assert(pow2(k as nat) <= pow2(53)) by {
                    broadcast use vstd::arithmetic::power2::lemma_pow2_strictly_increases;
                    if k < 53 {
                        assert(pow2(k as nat) < pow2(53));
                    }
                }
            }
            if 2 * rem >= p {
                mag = q + 1;
            } else {
                mag = q;
            }
            proof {
                assert(mag == smag);
            }
        }
    }
    if sign == 0 {
        if mag > i64::MAX as u64 {
            return i64::MAX;
        }
        return mag as i64;
    }
    if mag >= 0x8000_0000_0000_0000 {
        return i64::MIN;
    }
    proof {
        assert(0 - (mag as int) >= i64::MIN);
    }
    0i64 - (mag as i64)
}

/// `2^e` for small exponents, as a machine integer.
fn pow2_u64(e: u64) -> (r: u64)
    requires
        e <= 63,
    ensures
        r == pow2(e as nat),
        r >= 1,
{
    proof {
        vstd::arithmetic::power2::lemma2_to64();
        vstd::arithmetic::power2::lemma2_to64_rest();
    }
    let mut r: u64 = 1;
    let mut i: u64 = 0;
    while i < e
        invariant
            0 <= i <= e,
            e <= 63,
            r == pow2(i as nat),
            r <= 0x8000_0000_0000_0000,
        decreases e - i,
    {
        proof {
            broadcast use vstd::arithmetic::power2::lemma_pow2_strictly_increases;
            assert(pow2(i as nat + 1) == pow2(i as nat) * 2) by {
                vstd::arithmetic::power2::lemma_pow2_adds(i as nat, 1);
                vstd::arithmetic::power2::lemma2_to64();
            }
            assert(pow2(i as nat + 1) <= pow2(63)) by {
                if i as nat + 1 < 63 {
                    assert(pow2(i as nat + 1) < pow2(63));
                }
            }
            vstd::arithmetic::power2::lemma2_to64_rest();
            assert(pow2(63) == 0x8000_0000_0000_0000);
        }
        r = r * 2;
        i = i + 1;
    }
    r
}

} // verus!
