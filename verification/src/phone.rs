//! Classification of identities into SMS-routable phone numbers and
//! everything else (conceptually email-routable).
//!
//! A phone-shaped identity is either the fixed-format check's shape — an
//! optional `+` country code of one to three digits, an area code of one to
//! three digits (possibly parenthesized), a three-or-four-digit group and a
//! four-digit group, each group preceded by at most one separator (hyphen,
//! space or dot) — or a bare run of seven to fifteen digits, the form an
//! international number without punctuation takes.

use vstd::prelude::*;

verus! {

/// Whether a character is an ASCII decimal digit.
pub open spec fn is_digit_char(c: char) -> bool {
    '0' <= c <= '9'
}

/// Whether a character may separate digit groups.
pub open spec fn is_sep_char(c: char) -> bool {
    c == '-' || c == ' ' || c == '.'
}

/// Every character is a digit.
pub open spec fn all_digits(s: Seq<char>) -> bool {
    forall|i: int| 0 <= i < s.len() ==> is_digit_char(#[trigger] s[i])
}

/// An optional country code: empty, or `+` followed by one to three digits.
pub open spec fn is_country_code(s: Seq<char>) -> bool {
    s.len() == 0 || (2 <= s.len() <= 4 && s[0] == '+' && all_digits(s.skip(1)))
}

/// An area code: one to three digits, plain or in parentheses.
pub open spec fn is_area_code(s: Seq<char>) -> bool {
    (1 <= s.len() <= 3 && all_digits(s)) || (3 <= s.len() <= 5 && s[0] == '(' && s[s.len() - 1]
        == ')' && all_digits(s.subrange(1, s.len() - 1)))
}

/// A group of three or four digits.
pub open spec fn is_group34(s: Seq<char>) -> bool {
    3 <= s.len() <= 4 && all_digits(s)
}

/// A group of exactly four digits.
pub open spec fn is_group4(s: Seq<char>) -> bool {
    s.len() == 4 && all_digits(s)
}

/// An area code with at most one leading separator.
pub open spec fn sep_area(s: Seq<char>) -> bool {
    is_area_code(s) || (s.len() >= 1 && is_sep_char(s[0]) && is_area_code(s.skip(1)))
}

/// A three-or-four-digit group with at most one leading separator.
pub open spec fn sep_group34(s: Seq<char>) -> bool {
    is_group34(s) || (s.len() >= 1 && is_sep_char(s[0]) && is_group34(s.skip(1)))
}

/// A four-digit group with at most one leading separator.
pub open spec fn sep_group4(s: Seq<char>) -> bool {
    is_group4(s) || (s.len() >= 1 && is_sep_char(s[0]) && is_group4(s.skip(1)))
}

/// One decomposition of `s` into the fixed-format shape: a country code of
/// `la` characters, then `lb` characters of separated area code, then `lc`
/// characters of separated middle group, and the separated final group as all
/// the rest.
pub open spec fn phone_combo(s: Seq<char>, la: int, lb: int, lc: int) -> bool {
    &&& 0 <= la && 0 <= lb && 0 <= lc
    &&& la + lb + lc <= s.len()
    &&& is_country_code(s.subrange(0, la))
    &&& sep_area(s.subrange(la, la + lb))
    &&& sep_group34(s.subrange(la + lb, la + lb + lc))
    &&& sep_group4(s.subrange(la + lb + lc, s.len() as int))
}

/// The fixed-format shape: some decomposition fits.
pub open spec fn spec_structured_phone(s: Seq<char>) -> bool {
    exists|la: int, lb: int, lc: int| phone_combo(s, la, lb, lc)
}

/// The bare shape: seven to fifteen digits and nothing else.
pub open spec fn spec_bare_phone(s: Seq<char>) -> bool {
    7 <= s.len() <= 15 && all_digits(s)
}

/// Whether an identity is phone-shaped, and so SMS-routable.
pub open spec fn spec_is_phone_number(s: Seq<char>) -> bool {
    spec_structured_phone(s) || spec_bare_phone(s)
}

/// The segment lengths of any decomposition are small: the shapes bound them.
proof fn lemma_combo_bounds(s: Seq<char>, la: int, lb: int, lc: int)
    requires
        phone_combo(s, la, lb, lc),
    ensures
        la <= 4,
        1 <= lb <= 6,
        3 <= lc <= 5,
{
    let a = s.subrange(0, la);
    let b = s.subrange(la, la + lb);
    let c = s.subrange(la + lb, la + lb + lc);
    assert(a.len() == la);
    assert(b.len() == lb);
    assert(c.len() == lc);
}

fn digit_char(c: char) -> (r: bool)
    ensures
        r == is_digit_char(c),
{
    '0' <= c && c <= '9'
}

fn sep_char(c: char) -> (r: bool)
    ensures
        r == is_sep_char(c),
{
    c == '-' || c == ' ' || c == '.'
}

/// The characters of a string, as a vector.
fn chars_of(s: &str) -> (v: Vec<char>)
    ensures
        v@ == s@,
{
    let n = s.unicode_len();
    let mut v: Vec<char> = Vec::new();
    let mut i: usize = 0;
    while i < n
        invariant
            i <= n,
            n == s@.len(),
            v@ == s@.take(i as int),
        decreases n - i,
    {
        v.push(s.get_char(i));
        proof {
            assert(v@ =~= s@.take(i + 1));
        }
        i = i + 1;
    }
    proof {
        assert(s@.take(n as int) =~= s@);
    }
    v
}

/// Whether `v[from..to]` is all digits.
fn check_digits(v: &Vec<char>, from: usize, to: usize) -> (r: bool)
    requires
        from <= to <= v@.len(),
    ensures
        r == all_digits(v@.subrange(from as int, to as int)),
{
    let ghost seg = v@.subrange(from as int, to as int);
    let mut i: usize = from;
    while i < to
        invariant
            from <= i <= to <= v@.len(),
            seg == v@.subrange(from as int, to as int),
            forall|t: int| 0 <= t < i - from ==> is_digit_char(#[trigger] seg[t]),
        decreases to - i,
    {
        proof {
            assert(seg[i - from] == v@[i as int]);
        }
        if !digit_char(v[i]) {
            return false;
        }
        i = i + 1;
    }
    true
}

/// Whether `v[from..to]` is an optional country code.
fn check_country_code(v: &Vec<char>, from: usize, to: usize) -> (r: bool)
    requires
        from <= to <= v@.len(),
    ensures
        r == is_country_code(v@.subrange(from as int, to as int)),
{
    let ghost seg = v@.subrange(from as int, to as int);
    let len = to - from;
    if len == 0 {
        return true;
    }
    if len < 2 || len > 4 {
        return false;
    }
    proof {
        assert(seg[0] == v@[from as int]);
        assert(seg.skip(1) =~= v@.subrange(from + 1, to as int));
    }
    v[from] == '+' && check_digits(v, from + 1, to)
}

/// Whether `v[from..to]` is an area code.
fn check_area_code(v: &Vec<char>, from: usize, to: usize) -> (r: bool)
    requires
        from <= to <= v@.len(),
    ensures
        r == is_area_code(v@.subrange(from as int, to as int)),
{
    let ghost seg = v@.subrange(from as int, to as int);
    let len = to - from;
    let plain = if 1 <= len && len <= 3 {
        check_digits(v, from, to)
    } else {
        false
    };
    let paren = if 3 <= len && len <= 5 {
        proof {
            assert(seg[0] == v@[from as int]);
            assert(seg[seg.len() - 1] == v@[to - 1]);
            assert(seg.subrange(1, seg.len() - 1) =~= v@.subrange(from + 1, to - 1));
        }
        v[from] == '(' && v[to - 1] == ')' && check_digits(v, from + 1, to - 1)
    } else {
        false
    };
    plain || paren
}

/// Whether `v[from..to]` is a three-or-four-digit group.
fn check_group34(v: &Vec<char>, from: usize, to: usize) -> (r: bool)
    requires
        from <= to <= v@.len(),
    ensures
        r == is_group34(v@.subrange(from as int, to as int)),
{
    let len = to - from;
    if len < 3 || len > 4 {
        return false;
    }
    check_digits(v, from, to)
}

/// Whether `v[from..to]` is a four-digit group.
fn check_group4(v: &Vec<char>, from: usize, to: usize) -> (r: bool)
    requires
        from <= to <= v@.len(),
    ensures
        r == is_group4(v@.subrange(from as int, to as int)),
{
    let len = to - from;
    if len != 4 {
        return false;
    }
    check_digits(v, from, to)
}

/// Whether `v[from..to]` is an area code with at most one leading separator.
fn check_sep_area(v: &Vec<char>, from: usize, to: usize) -> (r: bool)
    requires
        from <= to <= v@.len(),
    ensures
        r == sep_area(v@.subrange(from as int, to as int)),
{
    let ghost seg = v@.subrange(from as int, to as int);
    if check_area_code(v, from, to) {
        return true;
    }
    if to - from >= 1 {
        proof {
            assert(seg[0] == v@[from as int]);
            assert(seg.skip(1) =~= v@.subrange(from + 1, to as int));
        }
        sep_char(v[from]) && check_area_code(v, from + 1, to)
    } else {
        false
    }
}

/// Whether `v[from..to]` is a middle group with at most one leading separator.
fn check_sep_group34(v: &Vec<char>, from: usize, to: usize) -> (r: bool)
    requires
        from <= to <= v@.len(),
    ensures
        r == sep_group34(v@.subrange(from as int, to as int)),
{
    let ghost seg = v@.subrange(from as int, to as int);
    if check_group34(v, from, to) {
        return true;
    }
    if to - from >= 1 {
        proof {
            assert(seg[0] == v@[from as int]);
            assert(seg.skip(1) =~= v@.subrange(from + 1, to as int));
        }
        sep_char(v[from]) && check_group34(v, from + 1, to)
    } else {
        false
    }
}

/// Whether `v[from..to]` is a final group with at most one leading separator.
fn check_sep_group4(v: &Vec<char>, from: usize, to: usize) -> (r: bool)
    requires
        from <= to <= v@.len(),
    ensures
        r == sep_group4(v@.subrange(from as int, to as int)),
{
    let ghost seg = v@.subrange(from as int, to as int);
    if check_group4(v, from, to) {
        return true;
    }
    if to - from >= 1 {
        proof {
            assert(seg[0] == v@[from as int]);
            assert(seg.skip(1) =~= v@.subrange(from + 1, to as int));
        }
        sep_char(v[from]) && check_group4(v, from + 1, to)
    } else {
        false
    }
}

/// Classify an identity: `true` exactly on phone-shaped strings. The segment
/// lengths of the fixed-format shape are bounded, so every decomposition is
/// tried.
pub fn is_phone_number(s: &str) -> (r: bool)
    ensures
        r == spec_is_phone_number(s@),
{
    let v = chars_of(s);
    let n = v.len();
    let bare = 7 <= n && n <= 15 && check_digits(&v, 0, n);
    proof {
        assert(v@.subrange(0, n as int) =~= v@);
    }
    if bare {
        return true;
    }
    proof {
        assert(!spec_bare_phone(s@));
    }
    let mut la: usize = 0;
    while la <= 4
        invariant
            la <= 5,
            v@ == s@,
            n == v@.len(),
            forall|la2: int, lb2: int, lc2: int|
                0 <= la2 < la ==> !phone_combo(s@, la2, lb2, lc2),
        decreases 5 - la,
    {
        let mut lb: usize = 1;
        while lb <= 6
            invariant
                la <= 4,
                1 <= lb <= 7,
                v@ == s@,
                n == v@.len(),
                forall|la2: int, lb2: int, lc2: int|
                    0 <= la2 < la ==> !phone_combo(s@, la2, lb2, lc2),
                forall|lb2: int, lc2: int| 1 <= lb2 < lb ==> !phone_combo(s@, la as int, lb2, lc2),
            decreases 7 - lb,
        {
            let mut lc: usize = 3;
            while lc <= 5
                invariant
                    la <= 4,
                    1 <= lb <= 6,
                    3 <= lc <= 6,
                    v@ == s@,
                    n == v@.len(),
                    forall|la2: int, lb2: int, lc2: int|
                        0 <= la2 < la ==> !phone_combo(s@, la2, lb2, lc2),
                    forall|lb2: int, lc2: int|
                        1 <= lb2 < lb ==> !phone_combo(s@, la as int, lb2, lc2),
                    forall|lc2: int| 3 <= lc2 < lc ==> !phone_combo(s@, la as int, lb as int, lc2),
                decreases 6 - lc,
            {
                if la + lb + lc <= n {
                    let cut1 = la + lb;
                    let cut2 = la + lb + lc;
                    if check_country_code(&v, 0, la) && check_sep_area(&v, la, cut1)
                        && check_sep_group34(&v, cut1, cut2) && check_sep_group4(&v, cut2, n) {
                        proof {
                            assert(phone_combo(s@, la as int, lb as int, lc as int));
                        }
                        return true;
                    }
                    proof {
                        assert(!phone_combo(s@, la as int, lb as int, lc as int));
                    }
                } else {
                    proof {
                        assert(!phone_combo(s@, la as int, lb as int, lc as int));
                    }
                }
                lc = lc + 1;
            }
            proof {
                assert forall|lc2: int| true implies !phone_combo(
                    s@,
                    la as int,
                    lb as int,
                    lc2,
                ) by {
                    if phone_combo(s@, la as int, lb as int, lc2) {
                        lemma_combo_bounds(s@, la as int, lb as int, lc2);
                    }
                }
            }
            lb = lb + 1;
        }
        proof {
            assert forall|lb2: int, lc2: int| true implies !phone_combo(
                s@,
                la as int,
                lb2,
                lc2,
            ) by {
                if phone_combo(s@, la as int, lb2, lc2) {
                    lemma_combo_bounds(s@, la as int, lb2, lc2);
                }
            }
        }
        la = la + 1;
    }
    proof {
        assert(!spec_structured_phone(s@)) by {
            if spec_structured_phone(s@) {
                let (la2, lb2, lc2) = choose|la2: int, lb2: int, lc2: int|
                    phone_combo(s@, la2, lb2, lc2);
                lemma_combo_bounds(s@, la2, lb2, lc2);
            }
        }
    }
    false
}

} // verus!
