//! Text helpers shared by the lexer, the renderer and the error messages:
//! building a `String` from scanned characters, comparing a scanned run
//! against a keyword, and converting integers to and from decimal text.
use vstd::prelude::*;

verus! {

/// Relies on `String`'s `FromIterator<char>`: the string holding exactly the
/// given characters in order.
#[verifier::external_body]
pub fn chars_to_string(v: &Vec<char>) -> (r: String)
    ensures
        r@ == v@,
{
    v.iter().collect()
}

/// Compares a scanned character run against a string slice.
pub fn chars_eq_str(v: &Vec<char>, s: &str) -> (r: bool)
    ensures
        r == (v@ == s@),
{
    let n = s.unicode_len();
    if v.len() != n {
        proof {
            assert(v@.len() != s@.len());
        }
        return false;
    }
    let mut i: usize = 0;
    while i < n
        invariant
            i <= n,
            n == s@.len(),
            n == v@.len(),
            forall|j: int| 0 <= j < i ==> v@[j] == s@[j],
        decreases n - i,
    {
        if v[i] != s.get_char(i) {
            return false;
        }
        i = i + 1;
    }
    proof {
        assert(v@ =~= s@);
    }
    true
}

/// Compares two string slices by their characters.
pub fn chars_eq_str_str(a: &str, b: &str) -> (r: bool)
    ensures
        r == (a@ == b@),
{
    let n = a.unicode_len();
    if n != b.unicode_len() {
        proof {
            assert(a@.len() != b@.len());
        }
        return false;
    }
    let mut i: usize = 0;
    while i < n
        invariant
            i <= n,
            n == a@.len(),
            n == b@.len(),
            forall|j: int| 0 <= j < i ==> a@[j] == b@[j],
        decreases n - i,
    {
        if a.get_char(i) != b.get_char(i) {
            return false;
        }
        i = i + 1;
    }
    proof {
        assert(a@ =~= b@);
    }
    true
}

/// The decimal digit character for `d`.
pub open spec fn digit_char(d: int) -> char {
    if d == 0 {
        '0'
    } else if d == 1 {
        '1'
    } else if d == 2 {
        '2'
    } else if d == 3 {
        '3'
    } else if d == 4 {
        '4'
    } else if d == 5 {
        '5'
    } else if d == 6 {
        '6'
    } else if d == 7 {
        '7'
    } else if d == 8 {
        '8'
    } else {
        '9'
    }
}

/// Whether `c` is a decimal digit.
pub open spec fn is_digit(c: char) -> bool {
    '0' <= c && c <= '9'
}

/// The numeric value of a digit character.
pub open spec fn digit_val(c: char) -> int {
    c as int - '0' as int
}

/// The decimal rendering of a non-negative integer.
pub open spec fn dec_seq(n: int) -> Seq<char>
    decreases n,
{
    if n < 10 {
        seq![digit_char(n)]
    } else {
        dec_seq(n / 10) + seq![digit_char(n % 10)]
    }
}

/// The decimal rendering of an integer, with a leading minus where negative.
pub open spec fn dec_seq_signed(n: int) -> Seq<char> {
    if n < 0 {
        seq!['-'] + dec_seq(-n)
    } else {
        dec_seq(n)
    }
}

/// The integer a run of decimal digits denotes.
pub open spec fn dec_val(s: Seq<char>) -> int
    decreases s,
{
    if s.len() == 0 {
        0
    } else {
        dec_val(s.drop_last()) * 10 + digit_val(s.last())
    }
}

pub proof fn lemma_dec_val_prefix(s: Seq<char>, i: int)
    requires
        forall|k: int| 0 <= k < s.len() ==> is_digit(#[trigger] s[k]),
        0 <= i <= s.len(),
    ensures
        dec_val(s.subrange(0, i)) <= dec_val(s),
    decreases s.len() - i,
{
    lemma_dec_val_nonneg(s.subrange(0, i));
    if i == s.len() {
        assert(s.subrange(0, i) =~= s);
    } else {
        let t = s.subrange(0, i + 1);
        assert(t.drop_last() =~= s.subrange(0, i));
        assert(dec_val(t) == dec_val(s.subrange(0, i)) * 10 + digit_val(t.last()));
        lemma_dec_val_prefix(s, i + 1);
    }
}

/// The integer value of a digit run, or `None` where it exceeds `i64::MAX`.
pub fn dec_val_checked(v: &Vec<char>) -> (r: Option<i64>)
    requires
        forall|k: int| 0 <= k < v@.len() ==> is_digit(#[trigger] v@[k]),
    ensures
        match r {
            Some(n) => n == dec_val(v@),
            None => dec_val(v@) > i64::MAX,
        },
{
    let mut acc: i64 = 0;
    let mut i: usize = 0;
    let n = v.len();
    while i < n
        invariant
            i <= n,
            n == v@.len(),
            forall|k: int| 0 <= k < v@.len() ==> is_digit(#[trigger] v@[k]),
            acc == dec_val(v@.subrange(0, i as int)),
        decreases n - i,
    {
        let c = v[i];
        let d: i64 = (c as u32 as i64) - ('0' as u32 as i64);
        proof {
            let t = v@.subrange(0, i + 1);
            assert(t.drop_last() =~= v@.subrange(0, i as int));
            assert(dec_val(t) == dec_val(v@.subrange(0, i as int)) * 10 + digit_val(t.last()));
            lemma_dec_val_nonneg(v@.subrange(0, i as int));
        }
        let m = match acc.checked_mul(10) {
            Some(m) => m,
            None => {
                proof {
                    lemma_dec_val_prefix(v@, i + 1);
                }
                return None;
            },
        };
        acc = match m.checked_add(d) {
            Some(a) => a,
            None => {
                proof {
                    lemma_dec_val_prefix(v@, i + 1);
                }
                return None;
            },
        };
        i = i + 1;
    }
    proof {
        assert(v@.subrange(0, n as int) =~= v@);
    }
    Some(acc)
}

pub proof fn lemma_dec_val_nonneg(s: Seq<char>)
    requires
        forall|i: int| 0 <= i < s.len() ==> is_digit(#[trigger] s[i]),
    ensures
        dec_val(s) >= 0,
    decreases s,
{
    if s.len() > 0 {
        lemma_dec_val_nonneg(s.drop_last());
    }
}

fn digit_to_char(d: u64) -> (c: char)
    requires
        d < 10,
    ensures
        c == digit_char(d as int),
{
    if d == 0 {
        '0'
    } else if d == 1 {
        '1'
    } else if d == 2 {
        '2'
    } else if d == 3 {
        '3'
    } else if d == 4 {
        '4'
    } else if d == 5 {
        '5'
    } else if d == 6 {
        '6'
    } else if d == 7 {
        '7'
    } else if d == 8 {
        '8'
    } else {
        '9'
    }
}

fn push_dec_digits(n: u64, out: &mut Vec<char>)
    ensures
        final(out)@ == old(out)@ + dec_seq(n as int),
    decreases n,
{
    if n < 10 {
        out.push(digit_to_char(n));
    } else {
        push_dec_digits(n / 10, out);
        out.push(digit_to_char(n % 10));
    }
}

/// Renders a non-negative machine integer in decimal.
pub fn u64_to_string(n: u64) -> (r: String)
    ensures
        r@ == dec_seq(n as int),
{
    let mut out: Vec<char> = Vec::new();
    push_dec_digits(n, &mut out);
    chars_to_string(&out)
}

/// Renders a machine integer in decimal, with a leading minus where negative.
pub fn i64_to_string(n: i64) -> (r: String)
    ensures
        r@ == dec_seq_signed(n as int),
{
    if n >= 0 {
        u64_to_string(n as u64)
    } else {
        let mag: u64 = (0u64).wrapping_sub(n as u64);
        proof {
            assert(mag == -(n as int)) by (bit_vector)
                requires
                    mag == (0u64).wrapping_sub(n as u64) && n < 0,
            ;
        }
        let mut out: Vec<char> = Vec::new();
        out.push('-');
        push_dec_digits(mag, &mut out);
        proof {
            assert(out@ =~= dec_seq_signed(n as int));
        }
        chars_to_string(&out)
    }
}


pub proof fn lemma_dec_seq_digits(n: int)
    requires
        n >= 0,
    ensures
        dec_seq(n).len() >= 1,
        forall|i: int| 0 <= i < dec_seq(n).len() ==> is_digit(#[trigger] dec_seq(n)[i]),
    decreases n,
{
    if n >= 10 {
        lemma_dec_seq_digits(n / 10);
    }
}

pub proof fn lemma_digit_char_val(d: int)
    requires
        0 <= d < 10,
    ensures
        digit_val(digit_char(d)) == d,
        is_digit(digit_char(d)),
{
    assert(digit_val(digit_char(0)) == 0);
    assert(digit_val(digit_char(1)) == 1);
    assert(digit_val(digit_char(2)) == 2);
    assert(digit_val(digit_char(3)) == 3);
    assert(digit_val(digit_char(4)) == 4);
    assert(digit_val(digit_char(5)) == 5);
    assert(digit_val(digit_char(6)) == 6);
    assert(digit_val(digit_char(7)) == 7);
    assert(digit_val(digit_char(8)) == 8);
    assert(digit_val(digit_char(9)) == 9);
}

/// Rendering a non-negative integer and reading the digits back gives the
/// integer itself.
pub proof fn lemma_dec_round_trip(n: int)
    requires
        n >= 0,
    ensures
        dec_val(dec_seq(n)) == n,
    decreases n,
{
    if n < 10 {
        lemma_digit_char_val(n);
        assert(dec_seq(n).last() == digit_char(n));
        assert(dec_seq(n).drop_last() =~= Seq::<char>::empty());
        assert(dec_val(Seq::<char>::empty()) == 0);
    } else {
        lemma_dec_round_trip(n / 10);
        lemma_digit_char_val(n % 10);
        assert(dec_seq(n).last() == digit_char(n % 10));
        assert(dec_seq(n).drop_last() =~= dec_seq(n / 10));
        assert(dec_val(dec_seq(n)) == dec_val(dec_seq(n).drop_last()) * 10 + digit_val(
            dec_seq(n).last(),
        ));
    }
}

} // verus!
