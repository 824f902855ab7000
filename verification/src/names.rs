//! Cosmetic display names: an identifier of `_`- or `-`-separated words is
//! title-cased per word and rejoined with single spaces.

use vstd::prelude::*;

use crate::numbers::push_char;

verus! {

/// A word separator inside a sheet identifier.
pub open spec fn is_word_sep(c: char) -> bool {
    c == '_' || c == '-'
}

/// Index of the first separator in `t`, or `-1` when there is none.
pub open spec fn first_word_sep(t: Seq<char>) -> int
    decreases t.len(),
{
    if t.len() == 0 {
        -1
    } else if is_word_sep(t[0]) {
        0
    } else {
        let r = first_word_sep(t.drop_first());
        if r < 0 {
            -1
        } else {
            1 + r
        }
    }
}

proof fn lemma_first_word_sep(t: Seq<char>)
    ensures
        first_word_sep(t) >= 0 ==> first_word_sep(t) < t.len() && is_word_sep(
            t[first_word_sep(t)],
        ) && (forall|k: int| 0 <= k < first_word_sep(t) ==> !is_word_sep(t[k])),
        first_word_sep(t) < 0 ==> forall|k: int| 0 <= k < t.len() ==> !is_word_sep(t[k]),
    decreases t.len(),
{
    if t.len() > 0 && !is_word_sep(t[0]) {
        let rest = t.drop_first();
        lemma_first_word_sep(rest);
        let r = first_word_sep(rest);
        if r >= 0 {
            assert(t[1 + r] == rest[r]);
            assert forall|k: int| 0 <= k < 1 + r implies !is_word_sep(t[k]) by {
                if k > 0 {
                    assert(t[k] == rest[k - 1]);
                }
            }
        } else {
            assert forall|k: int| 0 <= k < t.len() implies !is_word_sep(t[k]) by {
                if k > 0 {
                    assert(t[k] == rest[k - 1]);
                }
            }
        }
    }
}

/// `t` split at every separator: n separators give n + 1 words, in order,
/// empty words kept.
pub open spec fn words_spec(t: Seq<char>) -> Seq<Seq<char>>
    decreases t.len(),
    via words_spec_decreases
{
    let p = first_word_sep(t);
    if p < 0 {
        seq![t]
    } else {
        seq![t.take(p)] + words_spec(t.skip(p + 1))
    }
}

#[via_fn]
proof fn words_spec_decreases(t: Seq<char>) {
    lemma_first_word_sep(t);
}

proof fn lemma_words_unfold(a: Seq<char>, b: Seq<char>, c: char)
    requires
        forall|k: int| 0 <= k < a.len() ==> !is_word_sep(a[k]),
        is_word_sep(c),
    ensures
        words_spec(a + seq![c] + b) == seq![a] + words_spec(b),
{
    let t = a + seq![c] + b;
    lemma_first_word_sep(t);
    assert(t[a.len() as int] == c);
    let p = first_word_sep(t);
    if p < a.len() {
        assert(t[p] == a[p]);
    }
    if p > a.len() {
        assert(!is_word_sep(t[a.len() as int]));
    }
    assert(p == a.len());
    assert(t.take(p) =~= a);
    assert(t.skip(p + 1) =~= b);
}

proof fn lemma_words_single(t: Seq<char>)
    requires
        forall|k: int| 0 <= k < t.len() ==> !is_word_sep(t[k]),
    ensures
        words_spec(t) == seq![t],
{
    lemma_first_word_sep(t);
}

/// Uppercases one ASCII letter; anything else, non-ASCII letters included,
/// passes through. Display names are cosmetic and the sheet identifiers are
/// ASCII, so no Unicode case mapping is modelled.
pub open spec fn to_upper(c: char) -> char {
    if 'a' <= c <= 'z' {
        (((c as u8) - 32) as u8) as char
    } else {
        c
    }
}

/// Lowercases one ASCII letter; anything else, non-ASCII letters included,
/// passes through.
pub open spec fn to_lower(c: char) -> char {
    if 'A' <= c <= 'Z' {
        (((c as u8) + 32) as u8) as char
    } else {
        c
    }
}

/// A word with its first character uppercased and the rest lowercased.
pub open spec fn titlecase_spec(w: Seq<char>) -> Seq<char> {
    if w.len() == 0 {
        w
    } else {
        seq![to_upper(w[0])] + w.drop_first().map_values(|c: char| to_lower(c))
    }
}

/// `ws` joined with single spaces between the words.
pub open spec fn join_words_spec(ws: Seq<Seq<char>>) -> Seq<char>
    decreases ws.len(),
{
    if ws.len() == 0 {
        Seq::empty()
    } else if ws.len() == 1 {
        ws[0]
    } else {
        ws[0] + seq![' '] + join_words_spec(ws.drop_first())
    }
}

proof fn lemma_join_words_push(ws: Seq<Seq<char>>, x: Seq<char>)
    ensures
        join_words_spec(ws.push(x)) == if ws.len() == 0 {
            x
        } else {
            join_words_spec(ws) + seq![' '] + x
        },
    decreases ws.len(),
{
    if ws.len() == 0 {
        assert(ws.push(x)[0] =~= x);
    } else {
        lemma_join_words_push(ws.drop_first(), x);
        assert(ws.push(x).drop_first() =~= ws.drop_first().push(x));
        if ws.len() == 1 {
            assert(join_words_spec(ws) =~= ws[0]);
        }
        assert(ws.push(x)[0] == ws[0]);
    }
}

/// The display name of a sheet identifier: its words title-cased and
/// rejoined with spaces.
pub open spec fn display_name_spec(name: Seq<char>) -> Seq<char> {
    join_words_spec(words_spec(name).map_values(|w: Seq<char>| titlecase_spec(w)))
}

fn is_sep(c: char) -> (r: bool)
    ensures
        r == is_word_sep(c),
{
    c == '_' || c == '-'
}

fn upper_char(c: char) -> (r: char)
    ensures
        r == to_upper(c),
{
    if 'a' <= c && c <= 'z' {
        ((c as u8) - 32) as char
    } else {
        c
    }
}

fn lower_char(c: char) -> (r: char)
    ensures
        r == to_lower(c),
{
    if 'A' <= c && c <= 'Z' {
        ((c as u8) + 32) as char
    } else {
        c
    }
}

fn split_words<'a>(name: &'a str) -> (r: Vec<&'a str>)
    ensures
        r.deep_view() == words_spec(name@),
{
    let n = name.unicode_len();
    let mut r: Vec<&'a str> = Vec::new();
    let mut i: usize = 0;
    proof {
        assert(r.deep_view() =~= Seq::<Seq<char>>::empty());
        assert(name@.skip(0) =~= name@);
        assert(words_spec(name@) =~= r.deep_view() + words_spec(name@.skip(0)));
    }
    loop
        invariant_except_break
            n == name@.len(),
            i <= n,
            words_spec(name@) == r.deep_view() + words_spec(name@.skip(i as int)),
        ensures
            words_spec(name@) == r.deep_view(),
        decreases n - i,
    {
        let ghost t = name@;
        let ghost views = r.deep_view();
        let mut j: usize = i;
        while j < n && !is_sep(name.get_char(j))
            invariant
                n == name@.len(),
                i <= j <= n,
                forall|k: int| i <= k < j ==> !is_word_sep(name@[k]),
            decreases n - j,
        {
            j = j + 1;
        }
        let piece = name.substring_char(i, j);
        r.push(piece);
        proof {
            let a = t.subrange(i as int, j as int);
            assert(r.deep_view() =~= views.push(a));
            assert(views.push(a) =~= views + seq![a]);
            if j < n {
                assert(is_word_sep(t[j as int]));
                assert(t.skip(i as int) =~= a + seq![t[j as int]] + t.skip(j + 1));
                lemma_words_unfold(a, t.skip(j + 1), t[j as int]);
                assert(words_spec(t) =~= r.deep_view() + words_spec(t.skip(j + 1)));
            } else {
                assert(t.skip(i as int) =~= a);
                lemma_words_single(a);
                assert(words_spec(t) =~= r.deep_view());
            }
        }
        if j < n {
            i = j + 1;
        } else {
            break ;
        }
    }
    r
}

fn titlecase_word(w: &str) -> (r: String)
    ensures
        r@ == titlecase_spec(w@),
{
    let n = w.unicode_len();
    let mut r = String::new();
    if n == 0 {
        assert(r@ =~= titlecase_spec(w@));
        return r;
    }
    push_char(&mut r, upper_char(w.get_char(0)));
    let mut i: usize = 1;
    while i < n
        invariant
            n == w@.len(),
            1 <= i <= n,
            r@.len() == i,
            r@[0] == to_upper(w@[0]),
            forall|k: int| 1 <= k < i ==> r@[k] == to_lower(w@[k]),
        decreases n - i,
    {
        push_char(&mut r, lower_char(w.get_char(i)));
        i = i + 1;
    }
    proof {
        let rest = w@.drop_first().map_values(|c: char| to_lower(c));
        assert(forall|k: int| 0 <= k < rest.len() ==> rest[k] == to_lower(w@[k + 1]));
        assert(r@ =~= titlecase_spec(w@));
    }
    r
}

/// Renders a sheet identifier as its display name.
pub fn format_name(name: &str) -> (r: String)
    ensures
        r@ == display_name_spec(name@),
{
    let words = split_words(name);
    let ghost mapped = words.deep_view().map_values(|w: Seq<char>| titlecase_spec(w));
    let mut out = String::new();
    let mut k: usize = 0;
    proof {
        assert(mapped.subrange(0, 0) =~= Seq::<Seq<char>>::empty());
        assert(out@ =~= join_words_spec(mapped.subrange(0, 0)));
    }
    while k < words.len()
        invariant
            mapped == words.deep_view().map_values(|w: Seq<char>| titlecase_spec(w)),
            k <= words@.len(),
            words@.len() == words.deep_view().len(),
            out@ == join_words_spec(mapped.subrange(0, k as int)),
        decreases words@.len() - k,
    {
        let ghost sub = mapped.subrange(0, k as int);
        if k > 0 {
            push_char(&mut out, ' ');
        }
        let tw = titlecase_word(words[k]);
        out.append(tw.as_str());
        proof {
            assert(words.deep_view()[k as int] == words@[k as int]@);
            assert(mapped[k as int] == titlecase_spec(words@[k as int]@));
            lemma_join_words_push(sub, mapped[k as int]);
            assert(mapped.subrange(0, k + 1) =~= sub.push(mapped[k as int]));
            assert(out@ =~= join_words_spec(mapped.subrange(0, k + 1)));
        }
        k = k + 1;
    }
    proof {
        assert(mapped.subrange(0, words@.len() as int) =~= mapped);
    }
    out
}

} // verus!
