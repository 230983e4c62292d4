//! Byte-level primitives for the fixed JSON shape of token payloads: string
//! escaping, decimal numbers, and their parsers, each proved to invert its
//! printer.

use vstd::prelude::*;

verus! {

/// Escape a byte string for use inside a JSON string literal: a backslash is
/// put before every quote and every backslash; all other bytes pass through.
pub open spec fn esc(s: Seq<u8>) -> Seq<u8>
    decreases s.len(),
{
    if s.len() == 0 {
        Seq::empty()
    } else if s[0] == 34 || s[0] == 92 {
        seq![92u8, s[0]] + esc(s.skip(1))
    } else {
        seq![s[0]] + esc(s.skip(1))
    }
}

/// Scan a JSON string body up to and including its closing quote, undoing the
/// escaping of [`esc`]. Returns the raw content and the number of bytes
/// consumed; `None` when the bytes end before a closing quote or hold an
/// escape other than `\"` or `\\`.
pub open spec fn scan_str(s: Seq<u8>) -> Option<(Seq<u8>, int)>
    decreases s.len(),
{
    if s.len() == 0 {
        None
    } else if s[0] == 34 {
        Some((Seq::empty(), 1))
    } else if s[0] == 92 {
        if s.len() >= 2 && (s[1] == 34 || s[1] == 92) {
            match scan_str(s.skip(2)) {
                Some((r, k)) => Some((seq![s[1]] + r, k + 2)),
                None => None,
            }
        } else {
            None
        }
    } else {
        match scan_str(s.skip(1)) {
            Some((r, k)) => Some((seq![s[0]] + r, k + 1)),
            None => None,
        }
    }
}

/// Scanning an escaped string body inverts the escaping, whatever follows the
/// closing quote.
pub proof fn lemma_scan_esc(raw: Seq<u8>, rest: Seq<u8>)
    ensures
        scan_str(esc(raw) + seq![34u8] + rest) == Some((raw, esc(raw).len() as int + 1)),
    decreases raw.len(),
{
    let s = esc(raw) + seq![34u8] + rest;
    if raw.len() == 0 {
        assert(s =~= seq![34u8] + rest);
        assert(s[0] == 34);
        assert(raw =~= Seq::<u8>::empty());
    } else if raw[0] == 34 || raw[0] == 92 {
        lemma_scan_esc(raw.skip(1), rest);
        assert(s[0] == 92 && s[1] == raw[0]);
        assert(s.skip(2) =~= esc(raw.skip(1)) + seq![34u8] + rest);
        assert(seq![s[1]] + raw.skip(1) =~= raw);
    } else {
        lemma_scan_esc(raw.skip(1), rest);
        assert(s[0] == raw[0]);
        assert(s.skip(1) =~= esc(raw.skip(1)) + seq![34u8] + rest);
        assert(seq![s[0]] + raw.skip(1) =~= raw);
    }
}

/// Whether a byte is an ASCII decimal digit.
pub open spec fn is_digit(c: u8) -> bool {
    48 <= c <= 57
}

/// The decimal digits of a natural number, most significant first.
pub open spec fn dec_of(n: nat) -> Seq<u8>
    decreases n,
{
    if n < 10 {
        seq![(48 + n) as u8]
    } else {
        dec_of(n / 10) + seq![(48 + n % 10) as u8]
    }
}

/// The number of leading decimal-digit bytes.
pub open spec fn digits_prefix_len(s: Seq<u8>) -> int
    decreases s.len(),
{
    if s.len() > 0 && is_digit(s[0]) {
        1 + digits_prefix_len(s.skip(1))
    } else {
        0
    }
}

/// The value of a string of decimal digits.
pub open spec fn dec_val(s: Seq<u8>) -> nat
    decreases s.len(),
{
    if s.len() == 0 {
        0
    } else {
        dec_val(s.drop_last()) * 10 + (s.last() - 48) as nat
    }
}

/// Scan a decimal number of at most twenty digits whose value fits in a
/// `u64`. Returns the value and the number of bytes consumed.
pub open spec fn scan_num(s: Seq<u8>) -> Option<(u64, int)> {
    let k = digits_prefix_len(s);
    if k == 0 || k > 20 {
        None
    } else if dec_val(s.take(k)) > u64::MAX {
        None
    } else {
        Some((dec_val(s.take(k)) as u64, k))
    }
}

proof fn lemma_dec_of_digits(n: nat)
    ensures
        dec_of(n).len() >= 1,
        forall|i: int| 0 <= i < dec_of(n).len() ==> is_digit(#[trigger] dec_of(n)[i]),
    decreases n,
{
    if n >= 10 {
        lemma_dec_of_digits(n / 10);
    }
}

/// Ten to a power.
pub open spec fn pow10(k: nat) -> nat
    decreases k,
{
    if k == 0 {
        1
    } else {
        10 * pow10((k - 1) as nat)
    }
}

proof fn lemma_dec_of_len(n: nat, k: nat)
    requires
        k >= 1,
        n < pow10(k),
    ensures
        dec_of(n).len() <= k,
    decreases n,
{
    if n < 10 {
    } else {
        assert(pow10(k) == 10 * pow10((k - 1) as nat));
        assert(n / 10 < pow10((k - 1) as nat));
        assert(k - 1 >= 1) by {
            if k == 1 {
                assert(pow10(1nat) == 10 * pow10(0nat));
                assert(pow10(1nat) == 10);
            }
        }
        lemma_dec_of_len(n / 10, (k - 1) as nat);
    }
}

/// Every `u64` prints to at most twenty digits.
pub proof fn lemma_dec_of_u64_len(n: u64)
    ensures
        1 <= dec_of(n as nat).len() <= 20,
        forall|i: int| 0 <= i < dec_of(n as nat).len() ==> is_digit(#[trigger] dec_of(n as nat)[i]),
{
    lemma_dec_of_digits(n as nat);
    assert(pow10(20nat) == 100000000000000000000) by {
        reveal_with_fuel(pow10, 21);
    }
    lemma_dec_of_len(n as nat, 20nat);
}

proof fn lemma_dec_val_of(n: nat)
    ensures
        dec_val(dec_of(n)) == n,
    decreases n,
{
    if n < 10 {
        assert(dec_of(n) == seq![(48 + n) as u8]);
        assert(dec_of(n).drop_last() =~= Seq::<u8>::empty());
        assert(dec_of(n).last() == (48 + n) as u8);
        assert(dec_val(dec_of(n)) == dec_val(Seq::<u8>::empty()) * 10 + ((48 + n) as u8 - 48) as nat);
        assert(dec_val(dec_of(n)) == n);
    } else {
        lemma_dec_val_of(n / 10);
        assert(dec_of(n) == dec_of(n / 10) + seq![(48 + n % 10) as u8]);
        assert(dec_of(n).drop_last() =~= dec_of(n / 10));
        assert(dec_of(n).last() == (48 + n % 10) as u8);
        assert(n % 10 < 10);
        assert(((48 + n % 10) as u8 - 48) as nat == n % 10);
        vstd::arithmetic::div_mod::lemma_fundamental_div_mod(n as int, 10int);
        assert(dec_val(dec_of(n)) == (n / 10) * 10 + n % 10);
    }
}

proof fn lemma_digits_prefix_concat(d: Seq<u8>, rest: Seq<u8>)
    requires
        forall|i: int| 0 <= i < d.len() ==> is_digit(#[trigger] d[i]),
        rest.len() > 0,
        !is_digit(rest[0]),
    ensures
        digits_prefix_len(d + rest) == d.len(),
    decreases d.len(),
{
    let s = d + rest;
    if d.len() == 0 {
        assert(s =~= rest);
    } else {
        assert(s[0] == d[0]);
        assert(s.skip(1) =~= d.skip(1) + rest);
        lemma_digits_prefix_concat(d.skip(1), rest);
    }
}

/// Scanning a printed number gives the number back, whenever a non-digit
/// follows it.
pub proof fn lemma_scan_num(n: u64, rest: Seq<u8>)
    requires
        rest.len() > 0,
        !is_digit(rest[0]),
    ensures
        scan_num(dec_of(n as nat) + rest) == Some((n, dec_of(n as nat).len() as int)),
{
    let d = dec_of(n as nat);
    let s = d + rest;
    lemma_dec_of_u64_len(n);
    lemma_digits_prefix_concat(d, rest);
    assert(s.take(d.len() as int) =~= d);
    lemma_dec_val_of(n as nat);
}

/// Append the escaped form of `s` to `out`.
pub fn esc_push(out: &mut Vec<u8>, s: &[u8])
    ensures
        final(out)@ == old(out)@ + esc(s@),
{
    let n = s.len();
    let mut i: usize = 0;
    proof {
        assert(s@.skip(0) =~= s@);
    }
    while i < n
        invariant
            i <= n,
            n == s@.len(),
            out@ + esc(s@.skip(i as int)) == old(out)@ + esc(s@),
        decreases n - i,
    {
        let b = s[i];
        if b == 34 || b == 92 {
            out.push(92);
            out.push(b);
        } else {
            out.push(b);
        }
        proof {
            assert(s@.skip(i as int).skip(1) =~= s@.skip(i + 1));
            assert(s@.skip(i as int)[0] == b);
        }
        i = i + 1;
    }
    proof {
        assert(s@.skip(n as int) =~= Seq::<u8>::empty());
        assert(out@ =~= old(out)@ + esc(s@));
    }
}

/// Append the decimal digits of `n` to `out`.
pub fn dec_push(out: &mut Vec<u8>, n: u64)
    ensures
        final(out)@ == old(out)@ + dec_of(n as nat),
    decreases n,
{
    if n < 10 {
        out.push(48 + (n as u8));
        proof {
            assert(out@ =~= old(out)@ + dec_of(n as nat));
        }
    } else {
        dec_push(out, n / 10);
        out.push(48 + ((n % 10) as u8));
        proof {
            assert(out@ =~= old(out)@ + dec_of(n as nat));
        }
    }
}

/// Scan a JSON string body starting at `i`, per [`scan_str`].
pub fn scan_str_exec(s: &[u8], i: usize) -> (r: Option<(Vec<u8>, usize)>)
    requires
        i <= s@.len(),
    ensures
        r is Some <==> scan_str(s@.skip(i as int)) is Some,
        r matches Some((v, k)) ==> scan_str(s@.skip(i as int)) == Some((v@, k as int)) && i + k
            <= s@.len(),
{
    let n = s.len();
    let mut out: Vec<u8> = Vec::new();
    let mut j: usize = i;
    while j < n
        invariant
            i <= j <= n,
            n == s@.len(),
            scan_str(s@.skip(i as int)) == match scan_str(s@.skip(j as int)) {
                Some((r2, k2)) => Some((out@ + r2, (j - i) + k2)),
                None => None::<(Seq<u8>, int)>,
            },
        decreases n - j,
    {
        let b = s[j];
        proof {
            assert(s@.skip(j as int)[0] == b);
        }
        if b == 34 {
            proof {
                assert(out@ + Seq::<u8>::empty() =~= out@);
            }
            return Some((out, j + 1 - i));
        } else if b == 92 {
            if j + 1 < n {
                let e = s[j + 1];
                proof {
                    assert(s@.skip(j as int)[1] == e);
                }
                if e == 34 || e == 92 {
                    out.push(e);
                    proof {
                        assert(s@.skip(j as int).skip(2) =~= s@.skip(j + 2));
                        assert forall|r2: Seq<u8>| true implies out@ + r2 == out@.drop_last() + (
                        seq![e] + r2) by {
                            assert(out@ + r2 =~= out@.drop_last() + (seq![e] + r2));
                        }
                    }
                    j = j + 2;
                } else {
                    return None;
                }
            } else {
                proof {
                    assert(s@.skip(j as int).len() == n - j);
                }
                return None;
            }
        } else {
            out.push(b);
            proof {
                assert(s@.skip(j as int).skip(1) =~= s@.skip(j + 1));
                assert forall|r2: Seq<u8>| true implies out@ + r2 == out@.drop_last() + (seq![b]
                    + r2) by {
                    assert(out@ + r2 =~= out@.drop_last() + (seq![b] + r2));
                }
            }
            j = j + 1;
        }
    }
    proof {
        assert(s@.skip(j as int) =~= Seq::<u8>::empty());
    }
    None
}

/// Scan a decimal number starting at `i`, per [`scan_num`].
pub fn scan_num_exec(s: &[u8], i: usize) -> (r: Option<(u64, usize)>)
    requires
        i <= s@.len(),
    ensures
        r is Some <==> scan_num(s@.skip(i as int)) is Some,
        r matches Some((v, k)) ==> scan_num(s@.skip(i as int)) == Some((v, k as int)) && i + k
            <= s@.len(),
{
    let n = s.len();
    let ghost tail = s@.skip(i as int);
    // count the digit prefix
    let mut j: usize = i;
    while j < n && s[j] >= 48 && s[j] <= 57
        invariant
            i <= j <= n,
            n == s@.len(),
            digits_prefix_len(tail) == (j - i) + digits_prefix_len(s@.skip(j as int)),
            forall|t: int| i <= t < j ==> is_digit(#[trigger] s@[t]),
            tail == s@.skip(i as int),
        decreases n - j,
    {
        proof {
            assert(s@.skip(j as int)[0] == s@[j as int]);
            assert(s@.skip(j as int).skip(1) =~= s@.skip(j + 1));
        }
        j = j + 1;
    }
    proof {
        if j < n {
            assert(s@.skip(j as int)[0] == s@[j as int]);
            assert(digits_prefix_len(s@.skip(j as int)) == 0);
        } else {
            assert(s@.skip(j as int) =~= Seq::<u8>::empty());
        }
        assert(digits_prefix_len(tail) == j - i);
    }
    let k = j - i;
    if k == 0 || k > 20 {
        return None;
    }
    // accumulate; 20 digits at most, so a u128 cannot overflow
    let mut acc: u128 = 0;
    let mut t: usize = i;
    proof {
        assert(tail.take(0) =~= Seq::<u8>::empty());
        assert(pow10(20nat) == 100000000000000000000) by {
            reveal_with_fuel(pow10, 21);
        }
    }
    while t < j
        invariant
            i <= t <= j <= n,
            n == s@.len(),
            j - i <= 20,
            forall|q: int| i <= q < j ==> is_digit(#[trigger] s@[q]),
            tail == s@.skip(i as int),
            acc == dec_val(tail.take((t - i) as int)),
            acc < pow10((t - i) as nat),
            pow10(20nat) == 100000000000000000000,
        decreases j - t,
    {
        let d = s[t];
        proof {
            assert(is_digit(s@[t as int]));
            assert(tail.take((t + 1 - i) as int).drop_last() =~= tail.take((t - i) as int));
            assert(tail.take((t + 1 - i) as int).last() == s@[t as int]);
            assert(pow10(((t + 1) - i) as nat) == 10 * pow10((t - i) as nat));
            lemma_pow10_le(((t + 1) - i) as nat, 20nat);
        }
        acc = acc * 10 + ((d - 48) as u128);
        t = t + 1;
    }
    proof {
        assert(tail.take((j - i) as int) =~= tail.take(digits_prefix_len(tail)));
    }
    if acc > 0xffff_ffff_ffff_ffffu128 {
        None
    } else {
        Some((acc as u64, k))
    }
}

proof fn lemma_pow10_le(a: nat, b: nat)
    requires
        a <= b,
    ensures
        pow10(a) <= pow10(b),
    decreases b,
{
    if a < b {
        lemma_pow10_le(a, (b - 1) as nat);
        assert(pow10(b) == 10 * pow10((b - 1) as nat));
    }
}

} // verus!
