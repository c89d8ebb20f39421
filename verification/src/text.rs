//! Lexicographic order on character sequences and decimal rendering of
//! integers: the textual groundwork for sorting variable names and for
//! producing the infix rendering of expressions.

use vstd::prelude::*;

verus! {

/// Strict lexicographic order on character sequences, by Unicode scalar value.
pub open spec fn lex_lt(a: Seq<char>, b: Seq<char>) -> bool
    decreases a.len(),
{
    if b.len() == 0 {
        false
    } else if a.len() == 0 {
        true
    } else if (a[0] as int) < (b[0] as int) {
        true
    } else if (b[0] as int) < (a[0] as int) {
        false
    } else {
        lex_lt(a.drop_first(), b.drop_first())
    }
}

pub proof fn lemma_lex_lt_total(a: Seq<char>, b: Seq<char>)
    ensures
        lex_lt(a, b) || lex_lt(b, a) || a == b,
    decreases a.len(),
{
    if b.len() == 0 || a.len() == 0 {
        if a.len() == 0 && b.len() == 0 {
            assert(a =~= b);
        }
    } else if (a[0] as int) < (b[0] as int) || (b[0] as int) < (a[0] as int) {
    } else {
        lemma_lex_lt_total(a.drop_first(), b.drop_first());
        if !lex_lt(a, b) && !lex_lt(b, a) {
            assert(a.drop_first() == b.drop_first());
            assert forall|i: int| 0 <= i < a.len() implies a[i] == b[i] by {
                if i > 0 {
                    assert(a[i] == a.drop_first()[i - 1]);
                    assert(b[i] == b.drop_first()[i - 1]);
                }
            }
            assert(a =~= b);
        }
    }
}

pub proof fn lemma_lex_lt_irrefl(a: Seq<char>)
    ensures
        !lex_lt(a, a),
    decreases a.len(),
{
    if a.len() > 0 {
        lemma_lex_lt_irrefl(a.drop_first());
    }
}

pub proof fn lemma_lex_lt_trans(a: Seq<char>, b: Seq<char>, c: Seq<char>)
    requires
        lex_lt(a, b),
        lex_lt(b, c),
    ensures
        lex_lt(a, c),
    decreases a.len(),
{
    if a.len() == 0 || b.len() == 0 || c.len() == 0 {
    } else if (a[0] as int) < (b[0] as int) {
    } else if (b[0] as int) < (c[0] as int) {
    } else {
        lemma_lex_lt_trans(a.drop_first(), b.drop_first(), c.drop_first());
    }
}

/// If two sequences agree on their first `i` characters, the order is decided
/// by the remainders.
pub proof fn lemma_lex_lt_skip(a: Seq<char>, b: Seq<char>, i: int)
    requires
        0 <= i <= a.len(),
        i <= b.len(),
        forall|j: int| 0 <= j < i ==> a[j] == b[j],
    ensures
        lex_lt(a, b) == lex_lt(a.skip(i), b.skip(i)),
    decreases i,
{
    if i > 0 {
        assert(a.len() > 0 && b.len() > 0);
        assert(a[0] == b[0]);
        lemma_lex_lt_skip(a.drop_first(), b.drop_first(), i - 1);
        assert(a.drop_first().skip(i - 1) =~= a.skip(i));
        assert(b.drop_first().skip(i - 1) =~= b.skip(i));
    } else {
        assert(a.skip(0) =~= a);
        assert(b.skip(0) =~= b);
    }
}

/// Decides the lexicographic order of two strings, character by character.
pub fn str_lex_lt(a: &str, b: &str) -> (r: bool)
    ensures
        r == lex_lt(a@, b@),
{
    let a_len = a.unicode_len();
    let b_len = b.unicode_len();
    let mut i: usize = 0;
    loop
        invariant
            0 <= i <= a_len,
            i <= b_len,
            a_len == a@.len(),
            b_len == b@.len(),
            forall|j: int| 0 <= j < i ==> a@[j] == b@[j],
        decreases a_len - i,
    {
        proof {
            lemma_lex_lt_skip(a@, b@, i as int);
        }
        if i >= b_len {
            proof {
                assert(b@.skip(i as int).len() == 0);
            }
            return false;
        }
        if i >= a_len {
            proof {
                assert(a@.skip(i as int).len() == 0);
                assert(b@.skip(i as int).len() > 0);
            }
            return true;
        }
        let ca = a.get_char(i);
        let cb = b.get_char(i);
        proof {
            assert(a@.skip(i as int)[0] == a@[i as int]);
            assert(b@.skip(i as int)[0] == b@[i as int]);
        }
        if (ca as u32) < (cb as u32) {
            return true;
        }
        if (cb as u32) < (ca as u32) {
            return false;
        }
        i = i + 1;
    }
}

/// The character for one decimal digit.
pub open spec fn digit_char(d: int) -> char {
    if d == 0 {
        '0'
    } else if d == 1 {
        '1'
    } else if d == 2 {
        '2'
    } else if d == 3 {
        '3'
    } else if d == 4 {
        '4'
    } else if d == 5 {
        '5'
    } else if d == 6 {
        '6'
    } else if d == 7 {
        '7'
    } else if d == 8 {
        '8'
    } else {
        '9'
    }
}

/// The decimal rendering of a natural number, without leading zeros
/// (except for the number zero itself).
pub open spec fn nat_str(n: nat) -> Seq<char>
    decreases n,
{
    if n < 10 {
        seq![digit_char(n as int)]
    } else {
        nat_str(n / 10) + seq![digit_char((n % 10) as int)]
    }
}

/// The decimal rendering of an integer, with a leading minus sign when
/// negative.
pub open spec fn int_str(v: int) -> Seq<char> {
    if v < 0 {
        seq!['-'] + nat_str((-v) as nat)
    } else {
        nat_str(v as nat)
    }
}

pub proof fn lemma_nat_str_first(n: nat)
    ensures
        nat_str(n).len() >= 1,
        nat_str(n)[0] == '0' <==> n == 0,
    decreases n,
{
    if n >= 10 {
        lemma_nat_str_first(n / 10);
        assert(nat_str(n)[0] == nat_str(n / 10)[0]);
    }
}

/// `int_str` starts with the digit zero exactly for zero, and is the single
/// digit one exactly for one.
pub proof fn lemma_int_str_basics(v: int)
    ensures
        int_str(v).len() >= 1,
        (int_str(v)[0] == '0') <==> v == 0,
        (int_str(v) == seq!['0']) <==> v == 0,
        (int_str(v) == seq!['1']) <==> v == 1,
{
    if v < 0 {
        lemma_nat_str_first((-v) as nat);
        assert(int_str(v)[0] == '-');
        assert(int_str(v) != seq!['0']) by {
            assert(int_str(v)[0] != '0');
        }
        assert(int_str(v) != seq!['1']) by {
            assert(int_str(v)[0] != '1');
        }
    } else {
        lemma_nat_str_first(v as nat);
        if v >= 10 {
            assert(int_str(v).len() >= 2) by {
                lemma_nat_str_first(v as nat / 10);
            }
            assert(int_str(v) != seq!['0'] && int_str(v) != seq!['1']) by {
                assert(int_str(v).len() != 1);
            }
        } else {
            assert(int_str(v) =~= seq![digit_char(v)]);
            if v == 0 {
                assert(int_str(v) =~= seq!['0']);
            }
            if v == 1 {
                assert(int_str(v) =~= seq!['1']);
            }
        }
    }
}

/// The string for one decimal digit.
fn digit_str(d: u64) -> (r: &'static str)
    requires
        d < 10,
    ensures
        r@ == seq![digit_char(d as int)],
{
    if d == 0 {
        proof { reveal_strlit("0"); }
        let r = "0";
        proof { assert(r@ =~= seq![digit_char(d as int)]); }
        r
    } else if d == 1 {
        proof { reveal_strlit("1"); }
        let r = "1";
        proof { assert(r@ =~= seq![digit_char(d as int)]); }
        r
    } else if d == 2 {
        proof { reveal_strlit("2"); }
        let r = "2";
        proof { assert(r@ =~= seq![digit_char(d as int)]); }
        r
    } else if d == 3 {
        proof { reveal_strlit("3"); }
        let r = "3";
        proof { assert(r@ =~= seq![digit_char(d as int)]); }
        r
    } else if d == 4 {
        proof { reveal_strlit("4"); }
        let r = "4";
        proof { assert(r@ =~= seq![digit_char(d as int)]); }
        r
    } else if d == 5 {
        proof { reveal_strlit("5"); }
        let r = "5";
        proof { assert(r@ =~= seq![digit_char(d as int)]); }
        r
    } else if d == 6 {
        proof { reveal_strlit("6"); }
        let r = "6";
        proof { assert(r@ =~= seq![digit_char(d as int)]); }
        r
    } else if d == 7 {
        proof { reveal_strlit("7"); }
        let r = "7";
        proof { assert(r@ =~= seq![digit_char(d as int)]); }
        r
    } else if d == 8 {
        proof { reveal_strlit("8"); }
        let r = "8";
        proof { assert(r@ =~= seq![digit_char(d as int)]); }
        r
    } else {
        proof { reveal_strlit("9"); }
        let r = "9";
        proof { assert(r@ =~= seq![digit_char(d as int)]); }
        r
    }
}

/// Appends the decimal rendering of `n` to `s`.
fn push_nat_str(s: &mut String, n: u64)
    ensures
        final(s)@ == old(s)@ + nat_str(n as nat),
    decreases n,
{
    if n < 10 {
        s.append(digit_str(n));
        proof {
            assert(final(s)@ =~= old(s)@ + nat_str(n as nat));
        }
    } else {
        push_nat_str(s, n / 10);
        s.append(digit_str(n % 10));
        proof {
            assert(final(s)@ =~= old(s)@ + nat_str(n as nat));
        }
    }
}

/// The decimal rendering of a signed machine integer.
pub fn i64_to_string(v: i64) -> (r: String)
    ensures
        r@ == int_str(v as int),
{
    let mut s = String::new();
    if v < 0 {
        proof { reveal_strlit("-"); }
        s.append("-");
        let m: u64 = if v == i64::MIN {
            9223372036854775808u64
        } else {
            (-v) as u64
        };
        proof {
            assert(m as int == -(v as int));
            assert(s@ =~= seq!['-']);
        }
        push_nat_str(&mut s, m);
        proof {
            assert(s@ =~= int_str(v as int));
        }
    } else {
        push_nat_str(&mut s, v as u64);
        proof {
            assert(s@ =~= int_str(v as int));
        }
    }
    s
}

} // verus!
