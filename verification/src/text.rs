//! Small text utilities shared by the lexer, the evaluator and the error
//! constructors: character classification, string building and decimal
//! rendering of integers.

use vstd::prelude::*;

verus! {

/// The Unicode "Alphabetic" property of a character, a function of the
/// character alone.  Only the facts stated by `char_is_alpha` are known
/// about it.
pub uninterp spec fn alpha(c: char) -> bool;

/// Relies on char::is_alphabetic: returns whether the character has the
/// Unicode "Alphabetic" property, which depends on the character alone.
/// Within ASCII, exactly the letters a-z and A-Z are alphabetic.
#[verifier::external_body]
pub fn char_is_alpha(c: char) -> (r: bool)
    ensures
        r == alpha(c),
        (c as u32) < 128 ==> r == (('a' <= c && c <= 'z') || ('A' <= c && c <= 'Z')),
{
    c.is_alphabetic()
}

/// Relies on String::push: appends the single character to the end of the
/// string.
#[verifier::external_body]
pub fn push_char(s: &mut String, c: char)
    ensures
        final(s)@ == old(s)@.push(c),
{
    s.push(c);
}

/// The characters of a string slice, as a vector.
pub fn str_chars(s: &str) -> (v: Vec<char>)
    ensures
        v@ == s@,
{
    let n: usize = s.unicode_len();
    let mut v: Vec<char> = Vec::new();
    let mut i: usize = 0;
    while i < n
        invariant
            i <= n,
            n == s@.len(),
            v@ == s@.subrange(0, i as int),
        decreases n - i,
    {
        let c = s.get_char(i);
        v.push(c);
        i = i + 1;
        proof {
            assert(v@ =~= s@.subrange(0, i as int));
        }
    }
    proof {
        assert(v@ =~= s@);
    }
    v
}

/// Whether two string slices hold the same characters.
pub fn str_eq(a: &str, b: &str) -> (r: bool)
    ensures
        r == (a@ == b@),
{
    let na: usize = a.unicode_len();
    let nb: usize = b.unicode_len();
    if na != nb {
        proof {
            assert(a@ != b@);
        }
        return false;
    }
    let mut i: usize = 0;
    while i < na
        invariant
            i <= na,
            na == a@.len(),
            na == b@.len(),
            forall|j: int| 0 <= j < i ==> a@[j] == b@[j],
        decreases na - i,
    {
        if a.get_char(i) != b.get_char(i) {
            proof {
                assert(a@[i as int] != b@[i as int]);
            }
            return false;
        }
        i = i + 1;
    }
    proof {
        assert(a@ =~= b@);
    }
    true
}

/// The string holding the characters of `v` between `start` and `end`.
pub fn chars_to_string(v: &Vec<char>, start: usize, end: usize) -> (s: String)
    requires
        start <= end <= v@.len(),
    ensures
        s@ == v@.subrange(start as int, end as int),
{
    let mut s = String::new();
    let mut i: usize = start;
    while i < end
        invariant
            start <= i <= end <= v@.len(),
            s@ == v@.subrange(start as int, i as int),
        decreases end - i,
    {
        push_char(&mut s, v[i]);
        i = i + 1;
        proof {
            assert(s@ =~= v@.subrange(start as int, i as int));
        }
    }
    s
}

/// Whether the character is an ASCII decimal digit.
pub open spec fn digit(c: char) -> bool {
    '0' <= c && c <= '9'
}

/// The numeric value of an ASCII decimal digit.
pub open spec fn digit_val(c: char) -> int {
    c as u32 - 48
}

/// The digit character for a value below ten.
pub open spec fn digit_char(d: int) -> char {
    if d == 0 {
        '0'
    } else if d == 1 {
        '1'
    } else if d == 2 {
        '2'
    } else if d == 3 {
        '3'
    } else if d == 4 {
        '4'
    } else if d == 5 {
        '5'
    } else if d == 6 {
        '6'
    } else if d == 7 {
        '7'
    } else if d == 8 {
        '8'
    } else {
        '9'
    }
}

/// The decimal digit sequence of a non-negative integer, most significant
/// digit first.
pub open spec fn dec_str(n: int) -> Seq<char>
    decreases n,
{
    if n < 10 {
        seq![digit_char(n)]
    } else {
        dec_str(n / 10).push(digit_char(n % 10))
    }
}

/// The decimal rendering of a signed 64-bit integer, with a leading minus
/// sign when negative.
pub open spec fn i64_str(n: i64) -> Seq<char> {
    if n >= 0 {
        dec_str(n as int)
    } else {
        seq!['-'] + dec_str(-(n as int))
    }
}

fn digit_char_exec(d: u64) -> (c: char)
    requires
        d < 10,
    ensures
        c == digit_char(d as int),
{
    if d == 0 {
        '0'
    } else if d == 1 {
        '1'
    } else if d == 2 {
        '2'
    } else if d == 3 {
        '3'
    } else if d == 4 {
        '4'
    } else if d == 5 {
        '5'
    } else if d == 6 {
        '6'
    } else if d == 7 {
        '7'
    } else if d == 8 {
        '8'
    } else {
        '9'
    }
}

fn u64_dec(n: u64) -> (s: String)
    ensures
        s@ == dec_str(n as int),
    decreases n,
{
    if n < 10 {
        let mut s = String::new();
        push_char(&mut s, digit_char_exec(n));
        proof {
            assert(s@ =~= seq![digit_char(n as int)]);
        }
        s
    } else {
        let mut s = u64_dec(n / 10);
        push_char(&mut s, digit_char_exec(n % 10));
        s
    }
}

/// Renders a signed 64-bit integer in decimal.
pub fn i64_to_string(n: i64) -> (s: String)
    ensures
        s@ == i64_str(n),
{
    if n >= 0 {
        u64_dec(n as u64)
    } else {
        let mag: u64 = ((-(n + 1)) as u64) + 1;
        proof {
            assert(mag as int == -(n as int));
        }
        let mut s = String::new();
        push_char(&mut s, '-');
        let s2 = s.concat(u64_dec(mag).as_str());
        proof {
            assert(s2@ =~= seq!['-'] + dec_str(-(n as int)));
        }
        s2
    }
}

/// Renders a length or count in decimal.
pub fn usize_to_string(n: usize) -> (s: String)
    ensures
        s@ == dec_str(n as int),
{
    u64_dec(n as u64)
}

/// The integer denoted by a digit run, most significant digit first.
pub open spec fn digits_val(s: Seq<char>) -> int
    decreases s.len(),
{
    if s.len() == 0 {
        0
    } else {
        digits_val(s.drop_last()) * 10 + digit_val(s.last())
    }
}

/// The 64-bit value a digit run lexes to: its integer value when it fits,
/// and zero when it overflows the integer type.
pub open spec fn num_from_digits(s: Seq<char>) -> i64 {
    if digits_val(s) <= i64::MAX {
        digits_val(s) as i64
    } else {
        0
    }
}

pub proof fn lemma_digits_val_nonneg_pub(s: Seq<char>)
    requires
        forall|j: int| 0 <= j < s.len() ==> digit(s[j]),
    ensures
        digits_val(s) >= 0,
    decreases s.len(),
{
    if s.len() > 0 {
        lemma_digits_val_nonneg_pub(s.drop_last());
    }
}

/// The 64-bit value of a run of digit characters in `input`.
pub fn digit_run_value(input: &Vec<char>, start: usize, end: usize) -> (n: i64)
    requires
        start <= end <= input@.len(),
        forall|j: int| start <= j < end ==> digit(input@[j]),
    ensures
        n == num_from_digits(input@.subrange(start as int, end as int)),
{
    let mut acc: i64 = 0;
    let mut over: bool = false;
    let mut i: usize = start;
    while i < end
        invariant
            start <= i <= end <= input@.len(),
            forall|j: int| start <= j < end ==> digit(input@[j]),
            !over ==> acc == digits_val(input@.subrange(start as int, i as int)),
            over ==> digits_val(input@.subrange(start as int, i as int)) > i64::MAX,
            acc >= 0,
        decreases end - i,
    {
        let c = input[i];
        let d: i64 = ((c as u32) - 48) as i64;
        proof {
            let pre = input@.subrange(start as int, i as int);
            let post = input@.subrange(start as int, i + 1 as int);
            assert(post.drop_last() =~= pre);
            assert(post.last() == input@[i as int]);
            lemma_digits_val_nonneg_pub(pre);
        }
        if over {
            proof {
                let pre = input@.subrange(start as int, i as int);
                assert(digits_val(pre) * 10 + digit_val(input@[i as int]) > i64::MAX) by {
                    assert(digits_val(pre) > i64::MAX);
                    assert(digits_val(pre) * 10 >= digits_val(pre) * 1) by (nonlinear_arith)
                        requires
                            digits_val(pre) >= 0,
                    ;
                    assert(digit_val(input@[i as int]) >= 0);
                }
            }
        } else if acc <= (i64::MAX - d) / 10 {
            proof {
                assert(acc * 10 + d <= i64::MAX) by (nonlinear_arith)
                    requires
                        0 <= acc,
                        0 <= d <= 9,
                        acc <= (i64::MAX - d) / 10,
                ;
            }
            acc = acc * 10 + d;
        } else {
            proof {
                assert(acc * 10 + d > i64::MAX) by (nonlinear_arith)
                    requires
                        0 <= acc,
                        0 <= d <= 9,
                        acc > (i64::MAX - d) / 10,
                ;
            }
            over = true;
        }
        i = i + 1;
    }
    if over {
        0
    } else {
        acc
    }
}

} // verus!
