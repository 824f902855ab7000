//! Splitting a document into lines, and joining lines back together.
//!
//! A document is a character sequence; its lines are the pieces between
//! newline characters. A carriage return directly before a newline belongs
//! to the line ending and is dropped with it, and a final newline closes the
//! last line instead of opening an empty one, so `"a\r\nb\n"` has the same
//! two lines as `"a\nb"`.

use vstd::prelude::*;

verus! {

/// Index of the first `'\n'` in `t`, or `-1` when there is none.
pub open spec fn first_newline(t: Seq<char>) -> int
    decreases t.len(),
{
    if t.len() == 0 {
        -1
    } else if t[0] == '\n' {
        0
    } else {
        let r = first_newline(t.drop_first());
        if r < 0 {
            -1
        } else {
            1 + r
        }
    }
}

/// A line holds no newline character.
pub open spec fn newline_free(l: Seq<char>) -> bool {
    forall|k: int| 0 <= k < l.len() ==> l[k] != '\n'
}

/// `x` without one carriage return at its end: what a line keeps when it was
/// ended by `"\r\n"` rather than a bare `"\n"`.
pub open spec fn strip_cr(x: Seq<char>) -> Seq<char> {
    if x.len() > 0 && x.last() == '\r' {
        x.drop_last()
    } else {
        x
    }
}

pub proof fn lemma_first_newline(t: Seq<char>)
    ensures
        first_newline(t) >= 0 ==> first_newline(t) < t.len() && t[first_newline(t)] == '\n'
            && (forall|k: int| 0 <= k < first_newline(t) ==> t[k] != '\n'),
        first_newline(t) < 0 ==> newline_free(t),
    decreases t.len(),
{
    if t.len() > 0 && t[0] != '\n' {
        let rest = t.drop_first();
        lemma_first_newline(rest);
        let r = first_newline(rest);
        if r >= 0 {
            assert(t[1 + r] == rest[r]);
            assert forall|k: int| 0 <= k < 1 + r implies t[k] != '\n' by {
                if k > 0 {
                    assert(t[k] == rest[k - 1]);
                }
            }
        } else {
            assert forall|k: int| 0 <= k < t.len() implies t[k] != '\n' by {
                if k > 0 {
                    assert(t[k] == rest[k - 1]);
                }
            }
        }
    }
}

/// The lines of `t`: each piece ended by a newline, with a carriage return
/// directly before that newline dropped; a last piece ended by the end of
/// the text is kept verbatim, and an empty one (after a final newline) is
/// dropped.
pub open spec fn lines_spec(t: Seq<char>) -> Seq<Seq<char>>
    decreases t.len(),
    via lines_spec_decreases
{
    if t.len() == 0 {
        Seq::empty()
    } else {
        let p = first_newline(t);
        if p < 0 {
            seq![t]
        } else {
            seq![strip_cr(t.take(p))] + lines_spec(t.skip(p + 1))
        }
    }
}

#[via_fn]
proof fn lines_spec_decreases(t: Seq<char>) {
    lemma_first_newline(t);
}

/// In `a + '\n' + b` with `a` newline-free, the first newline is the one
/// written between the parts.
proof fn lemma_first_newline_concat(a: Seq<char>, b: Seq<char>)
    requires
        newline_free(a),
    ensures
        first_newline(a + seq!['\n'] + b) == a.len(),
    decreases a.len(),
{
    let t = a + seq!['\n'] + b;
    if a.len() == 0 {
        assert(t[0] == '\n');
    } else {
        assert(t[0] == a[0]);
        lemma_first_newline_concat(a.drop_first(), b);
        assert(t.drop_first() =~= a.drop_first() + seq!['\n'] + b);
    }
}

/// Peeling the first line off a text: the part before the first newline is
/// one line (its carriage return ending dropped), and the rest splits on
/// its own.
pub proof fn lemma_lines_unfold(a: Seq<char>, b: Seq<char>)
    requires
        newline_free(a),
    ensures
        lines_spec(a + seq!['\n'] + b) == seq![strip_cr(a)] + lines_spec(b),
{
    let t = a + seq!['\n'] + b;
    lemma_first_newline_concat(a, b);
    assert(t.take(a.len() as int) =~= a);
    assert(t.skip(a.len() as int + 1) =~= b);
}

/// A nonempty text with no newline is a single line, kept verbatim.
pub proof fn lemma_lines_single(t: Seq<char>)
    requires
        newline_free(t),
        t.len() > 0,
    ensures
        lines_spec(t) == seq![t],
{
    lemma_first_newline(t);
}

/// Every line produced by splitting is newline-free.
pub proof fn lemma_lines_newline_free(t: Seq<char>)
    ensures
        forall|i: int|
            0 <= i < lines_spec(t).len() ==> #[trigger] newline_free(lines_spec(t)[i]),
    decreases t.len(),
{
    lemma_first_newline(t);
    let p = first_newline(t);
    if t.len() > 0 && p >= 0 {
        lemma_lines_newline_free(t.skip(p + 1));
        assert forall|i: int| 0 <= i < lines_spec(t).len() implies #[trigger] newline_free(
            lines_spec(t)[i],
        ) by {
            if i == 0 {
                let a = t.take(p);
                assert(forall|k: int| 0 <= k < p ==> a[k] == t[k]);
                assert(newline_free(a));
                assert(lines_spec(t)[0] == strip_cr(a));
                assert(forall|k: int| 0 <= k < strip_cr(a).len() ==> strip_cr(a)[k] == a[k]);
            } else {
                assert(lines_spec(t)[i] == lines_spec(t.skip(p + 1))[i - 1]);
            }
        }
    }
}

/// Splits `text` into its lines; each returned slice borrows from `text`.
pub fn split_lines<'a>(text: &'a str) -> (r: Vec<&'a str>)
    ensures
        r.deep_view() == lines_spec(text@),
{
    let n = text.unicode_len();
    let mut r: Vec<&'a str> = Vec::new();
    let mut i: usize = 0;
    proof {
        assert(r.deep_view() =~= Seq::<Seq<char>>::empty());
        assert(text@.skip(0) =~= text@);
        assert(lines_spec(text@) =~= r.deep_view() + lines_spec(text@.skip(0)));
    }
    while i < n
        invariant
            n == text@.len(),
            i <= n,
            lines_spec(text@) == r.deep_view() + lines_spec(text@.skip(i as int)),
        decreases n - i,
    {
        let ghost t = text@;
        let ghost views = r.deep_view();
        let mut j: usize = i;
        while j < n && text.get_char(j) != '\n'
            invariant
                n == text@.len(),
                i <= j <= n,
                forall|k: int| i <= k < j ==> text@[k] != '\n',
            decreases n - j,
        {
            j = j + 1;
        }
        if j < n {
            // A newline ends this line; drop a carriage return before it.
            let e = if j > i && text.get_char(j - 1) == '\r' {
                j - 1
            } else {
                j
            };
            let piece = text.substring_char(i, e);
            r.push(piece);
            proof {
                let a = t.subrange(i as int, j as int);
                assert(newline_free(a));
                assert(piece@ =~= strip_cr(a));
                assert(r.deep_view() =~= views.push(strip_cr(a)));
                assert(t[j as int] == '\n');
                assert(t.skip(i as int) =~= a + seq!['\n'] + t.skip(j + 1));
                lemma_lines_unfold(a, t.skip(j + 1));
                assert(views.push(strip_cr(a)) =~= views + seq![strip_cr(a)]);
                assert(lines_spec(t) =~= r.deep_view() + lines_spec(t.skip(j + 1)));
            }
            i = j + 1;
        } else {
            // The end of the text ends this line; it is kept verbatim.
            let piece = text.substring_char(i, n);
            r.push(piece);
            proof {
                let a = t.subrange(i as int, j as int);
                assert(newline_free(a));
                assert(r.deep_view() =~= views.push(a));
                assert(t.skip(i as int) =~= a);
                assert(a.len() > 0);
                lemma_lines_single(a);
                assert(views.push(a) =~= views + seq![a]);
                assert(t.skip(n as int) =~= Seq::<char>::empty());
                assert(lines_spec(t) =~= r.deep_view() + lines_spec(t.skip(n as int)));
            }
            i = n;
        }
    }
    proof {
        assert(text@.skip(n as int) =~= Seq::<char>::empty());
        assert(lines_spec(text@) =~= r.deep_view());
    }
    r
}

} // verus!
