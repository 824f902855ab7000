//! Decimal formatting and parsing of the indices shown to and typed by the
//! user.

use vstd::prelude::*;

verus! {

/// The character for one decimal digit.
pub open spec fn digit_char(d: nat) -> char {
    ((d + 48) as u8) as char
}

/// The decimal digits of `n`, most significant first, no sign and no
/// leading zero (except for `0` itself).
pub open spec fn dec_spec(n: nat) -> Seq<char>
    decreases n,
{
    if n < 10 {
        seq![digit_char(n)]
    } else {
        dec_spec(n / 10).push(digit_char(n % 10))
    }
}

/// A decimal digit.
pub open spec fn is_digit_char(c: char) -> bool {
    '0' <= c <= '9'
}

/// The numeric value of digit characters, most significant first.
pub open spec fn digits_val(t: Seq<char>) -> int
    decreases t.len(),
{
    if t.len() == 0 {
        0
    } else {
        digits_val(t.drop_last()) * 10 + (t.last() as u8 - 48)
    }
}

/// Every character is a decimal digit.
pub open spec fn all_digits(t: Seq<char>) -> bool {
    forall|k: int| 0 <= k < t.len() ==> is_digit_char(#[trigger] t[k])
}

/// What `usize` parsing accepts: an optional leading `+`, then at least one
/// digit and nothing else, with a value that fits the machine word.
pub open spec fn parse_usize_spec(s: Seq<char>) -> Option<usize> {
    let body = if s.len() > 0 && s[0] == '+' {
        s.drop_first()
    } else {
        s
    };
    if body.len() == 0 || !all_digits(body) || digits_val(body) > usize::MAX {
        None
    } else {
        Some(digits_val(body) as usize)
    }
}

/// Relies on `String::push`: it appends exactly the one given character.
#[verifier::external_body]
pub fn push_char(s: &mut String, c: char)
    ensures
        final (s)@ == old(s)@.push(c),
{
    s.push(c);
}

fn digit_exec(d: usize) -> (c: char)
    requires
        d < 10,
    ensures
        c == digit_char(d as nat),
{
    ((d as u8) + 48) as char
}

/// Renders `n` in decimal.
pub fn format_usize(n: usize) -> (r: String)
    ensures
        r@ == dec_spec(n as nat),
    decreases n,
{
    if n < 10 {
        let mut s = String::new();
        push_char(&mut s, digit_exec(n));
        proof {
            assert(s@ =~= dec_spec(n as nat));
        }
        s
    } else {
        let mut s = format_usize(n / 10);
        push_char(&mut s, digit_exec(n % 10));
        s
    }
}

proof fn lemma_digits_val_nonneg(t: Seq<char>)
    requires
        all_digits(t),
    ensures
        digits_val(t) >= 0,
    decreases t.len(),
{
    if t.len() > 0 {
        lemma_digits_val_nonneg(t.drop_last());
    }
}

/// A digit string's value only grows as digits are appended.
proof fn lemma_digits_val_prefix(t: Seq<char>, i: int)
    requires
        0 <= i <= t.len(),
        all_digits(t),
    ensures
        digits_val(t) >= digits_val(t.take(i)),
    decreases t.len() - i,
{
    if i < t.len() {
        lemma_digits_val_prefix(t, i + 1);
        let a = t.take(i);
        let b = t.take(i + 1);
        assert(b.drop_last() =~= a);
        assert(forall|k: int| 0 <= k < a.len() ==> a[k] == t[k]);
        assert(all_digits(a));
        lemma_digits_val_nonneg(a);
        assert(digits_val(b) == digits_val(a) * 10 + (b.last() as u8 - 48));
        assert(digits_val(a) * 10 >= digits_val(a));
    } else {
        assert(t.take(i) =~= t);
    }
}

/// Parses a decimal `usize`, accepting exactly what the standard library's
/// parser accepts: an optional leading `+`, then one or more digits, value
/// in range.
pub fn parse_usize(s: &str) -> (r: Option<usize>)
    ensures
        r == parse_usize_spec(s@),
{
    let n = s.unicode_len();
    let mut i: usize = 0;
    if n > 0 && s.get_char(0) == '+' {
        i = 1;
    }
    let ghost body = if s@.len() > 0 && s@[0] == '+' {
        s@.drop_first()
    } else {
        s@
    };
    let ghost off = i as int;
    assert(body.len() == n - off);
    assert(forall|k: int| 0 <= k < body.len() ==> body[k] == s@[k + off]);
    if i >= n {
        return None;
    }
    let mut acc: usize = 0;
    while i < n
        invariant
            n == s@.len(),
            off <= i <= n,
            off == if s@.len() > 0 && s@[0] == '+' {
                1int
            } else {
                0int
            },
            body == if s@.len() > 0 && s@[0] == '+' {
                s@.drop_first()
            } else {
                s@
            },
            forall|k: int| 0 <= k < body.len() ==> #[trigger] body[k] == s@[k + off],
            forall|k: int| 0 <= k < i - off ==> is_digit_char(#[trigger] body[k]),
            acc == digits_val(body.take(i - off)),
        decreases n - i,
    {
        let c = s.get_char(i);
        assert(c == body[i - off]);
        if c < '0' || c > '9' {
            proof {
                let j = i - off;
                assert(0 <= j < body.len() && !is_digit_char(body[j]));
                assert(!all_digits(body));
                assert(parse_usize_spec(s@) is None);
            }
            return None;
        }
        let d = (c as u8) - 48;
        assert(0 <= d < 10);
        if acc > (usize::MAX - (d as usize)) / 10 {
            proof {
                let j = i - off;
                assert(body.take(j + 1).drop_last() =~= body.take(j));
                assert(body.take(j + 1).last() == body[j]);
                assert(digits_val(body.take(j + 1)) == acc * 10 + d);
                assert(acc * 10 + d > usize::MAX);
                if all_digits(body) {
                    lemma_digits_val_prefix(body, j + 1);
                    assert(digits_val(body) > usize::MAX);
                }
                assert(parse_usize_spec(s@) is None);
            }
            return None;
        }
        let next = acc * 10 + (d as usize);
        proof {
            let j = i - off;
            assert(body.take(j + 1).drop_last() =~= body.take(j));
            assert(body.take(j + 1).last() == body[j]);
            assert(digits_val(body.take(j + 1)) == acc * 10 + d);
        }
        acc = next;
        i = i + 1;
    }
    proof {
        assert(body.take(n - off) =~= body);
        assert(all_digits(body));
        lemma_digits_val_nonneg(body);
    }
    Some(acc)
}

} // verus!
