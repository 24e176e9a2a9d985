use vstd::prelude::*;

verus! {

use core::cmp::Ordering;

/// Strict lexicographic order on character sequences, by code point.
pub open spec fn lex_lt(a: Seq<char>, b: Seq<char>) -> bool
    decreases a.len(),
{
    if b.len() == 0 {
        false
    } else if a.len() == 0 {
        true
    } else if a[0] < b[0] {
        true
    } else if a[0] == b[0] {
        lex_lt(a.drop_first(), b.drop_first())
    } else {
        false
    }
}

/// Reflexive lexicographic order: `a` is not strictly after `b`.
pub open spec fn lex_le(a: Seq<char>, b: Seq<char>) -> bool {
    !lex_lt(b, a)
}

/// If `a` and `b` agree on their first `i` characters and `a` has the
/// smaller character at position `i`, then `a` comes strictly first.
pub proof fn lemma_lex_first_diff(a: Seq<char>, b: Seq<char>, i: int)
    requires
        0 <= i < a.len(),
        i < b.len(),
        forall|j: int| 0 <= j < i ==> a[j] == b[j],
        a[i] < b[i],
    ensures
        lex_lt(a, b),
    decreases i,
{
    if i > 0 {
        lemma_lex_first_diff(a.drop_first(), b.drop_first(), i - 1);
    }
}

/// A proper prefix comes strictly first.
pub proof fn lemma_lex_prefix(a: Seq<char>, b: Seq<char>)
    requires
        a.len() < b.len(),
        forall|j: int| 0 <= j < a.len() ==> a[j] == b[j],
    ensures
        lex_lt(a, b),
    decreases a.len(),
{
    if a.len() > 0 {
        lemma_lex_prefix(a.drop_first(), b.drop_first());
    }
}

/// The order is total: two sequences are ordered one way, the other way,
/// or they are equal.
pub proof fn lemma_lex_total(a: Seq<char>, b: Seq<char>)
    ensures
        lex_lt(a, b) || lex_lt(b, a) || a == b,
    decreases a.len(),
{
    if a.len() == 0 {
        if b.len() == 0 {
            assert(a =~= b);
        }
    } else if b.len() == 0 {
    } else if a[0] == b[0] {
        lemma_lex_total(a.drop_first(), b.drop_first());
        if a.drop_first() == b.drop_first() {
            assert(a.drop_first().len() == b.drop_first().len());
            assert(a.len() == b.len());
            assert forall|i: int| 0 <= i < a.len() implies a[i] == b[i] by {
                if i > 0 {
                    assert(a[i] == a.drop_first()[i - 1]);
                    assert(b[i] == b.drop_first()[i - 1]);
                }
            }
            assert(a =~= b);
        }
    }
}

/// The order is asymmetric: when `a` comes strictly first, `b` does not,
/// and the two differ.
pub proof fn lemma_lex_asym(a: Seq<char>, b: Seq<char>)
    requires
        lex_lt(a, b),
    ensures
        !lex_lt(b, a),
        a != b,
    decreases a.len(),
{
    if a.len() > 0 && a[0] == b[0] {
        lemma_lex_asym(a.drop_first(), b.drop_first());
        assert(a != b) by {
            if a == b {
                assert(a.drop_first() =~= b.drop_first());
            }
        }
    }
}

/// The order is transitive.
pub proof fn lemma_lex_trans(a: Seq<char>, b: Seq<char>, c: Seq<char>)
    requires
        lex_lt(a, b),
        lex_lt(b, c),
    ensures
        lex_lt(a, c),
    decreases a.len(),
{
    if a.len() > 0 && a[0] == b[0] && b[0] == c[0] {
        lemma_lex_trans(a.drop_first(), b.drop_first(), c.drop_first());
    }
}

/// Nothing comes strictly before itself.
pub proof fn lemma_lex_irrefl(a: Seq<char>)
    ensures
        !lex_lt(a, a),
    decreases a.len(),
{
    if a.len() > 0 {
        lemma_lex_irrefl(a.drop_first());
    }
}

/// Compare two strings lexicographically by code point.
pub fn str_cmp(a: &str, b: &str) -> (o: Ordering)
    ensures
        (o == Ordering::Less) == lex_lt(a@, b@),
        (o == Ordering::Equal) == (a@ == b@),
        (o == Ordering::Greater) == lex_lt(b@, a@),
{
    proof {
        lemma_lex_total(a@, b@);
        lemma_lex_irrefl(a@);
        lemma_lex_irrefl(b@);
    }
    let alen = a.unicode_len();
    let blen = b.unicode_len();
    let n = if alen < blen {
        alen
    } else {
        blen
    };
    let mut i: usize = 0;
    while i < n
        invariant
            0 <= i <= n,
            n <= alen,
            n <= blen,
            n == if alen < blen { alen } else { blen },
            alen == a@.len(),
            blen == b@.len(),
            forall|j: int| 0 <= j < i ==> a@[j] == b@[j],
        decreases n - i,
    {
        let ca = a.get_char(i);
        let cb = b.get_char(i);
        if ca < cb {
            proof {
                lemma_lex_first_diff(a@, b@, i as int);
                lemma_lex_asym(a@, b@);
            }
            return Ordering::Less;
        }
        if cb < ca {
            proof {
                lemma_lex_first_diff(b@, a@, i as int);
                lemma_lex_asym(b@, a@);
            }
            return Ordering::Greater;
        }
        i = i + 1;
    }
    if alen < blen {
        proof {
            lemma_lex_prefix(a@, b@);
            lemma_lex_asym(a@, b@);
        }
        Ordering::Less
    } else if blen < alen {
        proof {
            lemma_lex_prefix(b@, a@);
            lemma_lex_asym(b@, a@);
        }
        Ordering::Greater
    } else {
        proof {
            assert(a@ =~= b@);
        }
        Ordering::Equal
    }
}

/// Whether `a` comes strictly before `b`, lexicographically by code point.
pub fn str_lt(a: &str, b: &str) -> (r: bool)
    ensures
        r == lex_lt(a@, b@),
{
    matches!(str_cmp(a, b), Ordering::Less)
}

/// Whether two strings hold the same characters.
pub fn str_eq(a: &str, b: &str) -> (r: bool)
    ensures
        r == (a@ == b@),
{
    matches!(str_cmp(a, b), Ordering::Equal)
}

/// Relies on std's String::push: appends exactly one character.
#[verifier::external_body]
pub fn push_char(s: &mut String, c: char)
    ensures
        final(s)@ == old(s)@.push(c),
{
    s.push(c);
}

/// The decimal digit characters of a number, most significant first.
pub open spec fn dec_digits(n: nat) -> Seq<char>
    decreases n,
{
    if n < 10 {
        seq![digit_char(n)]
    } else {
        dec_digits(n / 10).push(digit_char(n % 10))
    }
}

/// The character for one decimal digit.
pub open spec fn digit_char(d: nat) -> char {
    (('0' as u8) + d as u8) as char
}

/// The decimal rendering of a signed number: a minus sign when negative,
/// then the digits of its absolute value.
pub open spec fn dec_digits_signed(n: int) -> Seq<char> {
    if n < 0 {
        seq!['-'] + dec_digits((-n) as nat)
    } else {
        dec_digits(n as nat)
    }
}

/// The decimal digits of a number, least significant first.
fn u64_digits_rev(n: u64) -> (digits: Vec<char>)
    ensures
        digits@.reverse() == dec_digits(n as nat),
        digits@.len() > 0,
{
    let mut digits: Vec<char> = Vec::new();
    let mut m = n;
    while m >= 10
        invariant
            dec_digits(n as nat) =~= dec_digits(m as nat) + digits@.reverse(),
        decreases m,
    {
        let d = (m % 10) as u8;
        let c = (48 + d) as char;
        digits.push(c);
        proof {
            assert(c == digit_char((m % 10) as nat));
        }
        m = m / 10;
        proof {
            lemma_reverse_push(digits@.drop_last(), digits@.last());
            assert(dec_digits(n as nat) =~= dec_digits(m as nat) + digits@.reverse());
        }
    }
    let d = m as u8;
    let c = (48 + d) as char;
    digits.push(c);
    proof {
        assert(c == digit_char(m as nat));
        assert(dec_digits(m as nat) =~= seq![digit_char(m as nat)]);
        lemma_reverse_push(digits@.drop_last(), digits@.last());
        assert(digits@.reverse() =~= dec_digits(n as nat));
    }
    digits
}

/// Pushing a digit puts it in front of the reversed sequence.
proof fn lemma_reverse_push(s: Seq<char>, c: char)
    ensures
        s.push(c).reverse() =~= seq![c] + s.reverse(),
{
}

/// The plain decimal digits of the value, most significant first, without
/// sign, padding or separators.
pub fn u64_to_string(n: u64) -> (s: String)
    ensures
        s@ == dec_digits(n as nat),
{
    let digits = u64_digits_rev(n);
    let mut s = String::new();
    let len = digits.len();
    let mut i: usize = len;
    while i > 0
        invariant
            0 <= i <= len,
            len == digits@.len(),
            s@ =~= digits@.reverse().subrange(0, (len - i) as int),
        decreases i,
    {
        i = i - 1;
        push_char(&mut s, digits[i]);
        proof {
            assert(digits@.reverse()[(len - i - 1) as int] == digits@[i as int]);
            assert(s@ =~= digits@.reverse().subrange(0, (len - i) as int));
        }
    }
    proof {
        assert(digits@.reverse().subrange(0, digits@.len() as int) =~= digits@.reverse());
    }
    s
}

/// A minus sign when the value is negative, then the plain decimal digits
/// of its absolute value.
pub fn i64_to_string(n: i64) -> (s: String)
    ensures
        s@ == dec_digits_signed(n as int),
{
    if n >= 0 {
        u64_to_string(n as u64)
    } else {
        let wide: i128 = n as i128;
        let mag: u64 = (-wide) as u64;
        let digits = u64_to_string(mag);
        let mut s = String::new();
        push_char(&mut s, '-');
        s.append(digits.as_str());
        proof {
            assert(s@ =~= seq!['-'] + dec_digits((-(n as int)) as nat));
        }
        s
    }
}

} // verus!
