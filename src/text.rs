use vstd::prelude::*;
use vstd::std_specs::iter::IteratorSpec;

verus! {

/// `p` occurs in `s` starting at position `i`.
pub open spec fn occurs_at(s: Seq<char>, p: Seq<char>, i: int) -> bool {
    0 <= i && i + p.len() <= s.len() && s.subrange(i, i + p.len()) == p
}

/// `p` occurs somewhere in `s`.
pub open spec fn contains(s: Seq<char>, p: Seq<char>) -> bool {
    exists|i: int| occurs_at(s, p, i)
}

/// The first position at or after `k` where `p` occurs in `s`.
pub open spec fn find_from(s: Seq<char>, p: Seq<char>, k: int) -> Option<int>
    decreases s.len() - k,
{
    if k < 0 || k + p.len() > s.len() {
        None
    } else if p.len() == 0 || occurs_at(s, p, k) {
        Some(k)
    } else {
        find_from(s, p, k + 1)
    }
}

/// Every occurrence of `from` in `s` replaced by `to`, scanning left to right
/// and never matching inside text already replaced. An empty `from` matches
/// before every character and at the end.
pub open spec fn replace_all(s: Seq<char>, from: Seq<char>, to: Seq<char>) -> Seq<char>
    decreases s.len(),
{
    if from.len() == 0 {
        if s.len() == 0 {
            to
        } else {
            to + seq![s[0]] + replace_all(s.drop_first(), from, to)
        }
    } else if s.len() < from.len() {
        s
    } else if s.take(from.len() as int) == from {
        to + replace_all(s.skip(from.len() as int), from, to)
    } else {
        seq![s[0]] + replace_all(s.drop_first(), from, to)
    }
}

/// The pairs of `reps` applied one after the other, each to the text left by
/// the ones before it.
pub open spec fn apply_replacements(s: Seq<char>, reps: Seq<(Seq<char>, Seq<char>)>) -> Seq<
    char,
>
    decreases reps.len(),
{
    if reps.len() == 0 {
        s
    } else {
        replace_all(apply_replacements(s, reps.drop_last()), reps.last().0, reps.last().1)
    }
}

/// The characters of `s` in order.
pub(crate) fn chars_of(s: &str) -> (r: Vec<char>)
    ensures
        r@ == s@,
{
    broadcast use vstd::string::group_string_axioms;

    let mut it = s.chars();
    let mut v: Vec<char> = Vec::new();
    loop
        invariant
            v@ + it.remaining() == s@,
            it.decrease() is Some,
        ensures
            v@ == s@,
        decreases it.decrease()->0,
    {
        match it.next() {
            Some(c) => {
                v.push(c);
            },
            None => {
                assert(v@ =~= s@);
                break;
            },
        }
    }
    v
}

/// Relies on String's FromIterator<&char>: the string made of `v` in order.
#[verifier::external_body]
pub(crate) fn string_of(v: &Vec<char>) -> (r: String)
    ensures
        r@ == v@,
{
    v.iter().collect()
}

/// Whether `p` occurs in `s` at position `i`.
fn matches_at(s: &Vec<char>, p: &Vec<char>, i: usize) -> (r: bool)
    requires
        i + p@.len() <= s@.len(),
    ensures
        r == occurs_at(s@, p@, i as int),
{
    let n = s.len();
    let mut j: usize = 0;
    while j < p.len()
        invariant
            j <= p@.len(),
            n == s@.len(),
            i + p@.len() <= s@.len(),
            forall|k: int| 0 <= k < j ==> s@[i + k] == p@[k],
        decreases p@.len() - j,
    {
        if s[i + j] != p[j] {
            assert(s@.subrange(i as int, i + p@.len())[j as int] != p@[j as int]);
            return false;
        }
        j += 1;
    }
    assert(s@.subrange(i as int, i + p@.len()) =~= p@);
    true
}

/// The first position where `p` occurs in `s`.
pub fn find_chars(s: &Vec<char>, p: &Vec<char>) -> (r: Option<usize>)
    ensures
        r is None <==> find_from(s@, p@, 0) is None,
        r matches Some(i) ==> find_from(s@, p@, 0) == Some(i as int) && occurs_at(
            s@,
            p@,
            i as int,
        ),
{
    let mut i: usize = 0;
    while i <= s.len() && p.len() <= s.len() - i
        invariant
            i <= s@.len() + 1,
            find_from(s@, p@, 0) == find_from(s@, p@, i as int),
        decreases s@.len() + 1 - i,
    {
        if p.len() == 0 || matches_at(s, p, i) {
            if p.len() == 0 {
                assert(s@.subrange(i as int, i as int) =~= p@);
            }
            return Some(i);
        }
        i += 1;
    }
    None
}

proof fn lemma_skip_skip(s: Seq<char>, a: int, b: int)
    requires
        0 <= a,
        0 <= b,
        a + b <= s.len(),
    ensures
        s.skip(a).skip(b) == s.skip(a + b),
        s.skip(a).take(b) == s.subrange(a, a + b),
{
    assert(s.skip(a).skip(b) =~= s.skip(a + b));
    assert(s.skip(a).take(b) =~= s.subrange(a, a + b));
}

/// Appends the characters of `v` to `out`.
pub(crate) fn push_all(out: &mut Vec<char>, v: &Vec<char>)
    ensures
        final(out)@ == old(out)@ + v@,
{
    let mut j: usize = 0;
    while j < v.len()
        invariant
            j <= v@.len(),
            out@ == old(out)@ + v@.take(j as int),
        decreases v@.len() - j,
    {
        out.push(v[j]);
        j += 1;
        assert(v@.take(j as int) =~= v@.take(j - 1) + seq![v@[j - 1]]);
    }
    assert(v@.take(j as int) =~= v@);
}

/// Every occurrence of `from` in `s` replaced by `to`.
pub fn replace_chars(s: &Vec<char>, from: &Vec<char>, to: &Vec<char>) -> (r: Vec<char>)
    ensures
        r@ == replace_all(s@, from@, to@),
{
    let mut out: Vec<char> = Vec::new();
    let mut i: usize = 0;
    assert(s@.skip(0) =~= s@);
    while i < s.len()
        invariant
            i <= s@.len(),
            out@ + replace_all(s@.skip(i as int), from@, to@) == replace_all(s@, from@, to@),
        decreases s@.len() - i,
    {
        let ghost rest = s@.skip(i as int);
        let ghost prev = out@;
        proof {
            lemma_skip_skip(s@, i as int, 1);
            assert(rest.drop_first() =~= s@.skip(i + 1));
            assert(rest =~= seq![rest[0]] + rest.drop_first());
        }
        if from.len() == 0 {
            push_all(&mut out, to);
            out.push(s[i]);
            i += 1;
            assert(out@ + replace_all(s@.skip(i as int), from@, to@) =~= prev + replace_all(
                rest,
                from@,
                to@,
            ));
        } else if from.len() <= s.len() - i && matches_at(s, from, i) {
            let ghost n = from@.len() as int;
            proof {
                lemma_skip_skip(s@, i as int, n);
                assert(rest.take(n) == from@);
            }
            push_all(&mut out, to);
            i += from.len();
            assert(out@ + replace_all(s@.skip(i as int), from@, to@) =~= prev + replace_all(
                rest,
                from@,
                to@,
            ));
        } else {
            proof {
                if rest.len() >= from@.len() {
                    lemma_skip_skip(s@, i as int, from@.len() as int);
                }
            }
            out.push(s[i]);
            i += 1;
            assert(out@ + replace_all(s@.skip(i as int), from@, to@) =~= prev + replace_all(
                rest,
                from@,
                to@,
            ));
        }
    }
    assert(s@.skip(i as int) =~= Seq::<char>::empty());
    if from.len() == 0 {
        push_all(&mut out, to);
    }
    assert(out@ =~= replace_all(s@, from@, to@));
    out
}

/// With no replacements to apply, the text is kept as it is.
pub proof fn lemma_no_replacements(s: Seq<char>, reps: Seq<(Seq<char>, Seq<char>)>)
    requires
        reps.len() == 0,
    ensures
        apply_replacements(s, reps) == s,
{
}

/// A text that is exactly the pattern becomes exactly the replacement.
pub proof fn lemma_replace_whole(p: Seq<char>, r: Seq<char>)
    ensures
        replace_all(p, p, r) == r,
{
    if p.len() > 0 {
        assert(p.take(p.len() as int) =~= p);
        assert(p.skip(p.len() as int) =~= Seq::<char>::empty());
        assert(replace_all(Seq::<char>::empty(), p, r) == Seq::<char>::empty());
        assert(r + Seq::<char>::empty() =~= r);
    }
}

/// Where the pattern occurs in a text, the replacement occurs in the result.
pub proof fn lemma_replace_introduces(s: Seq<char>, p: Seq<char>, r: Seq<char>)
    requires
        contains(s, p),
    ensures
        contains(replace_all(s, p, r), r),
    decreases s.len(),
{
    let out = replace_all(s, p, r);
    if p.len() == 0 || s.take(p.len() as int) == p {
        assert(out.subrange(0, r.len() as int) =~= r);
        assert(occurs_at(out, r, 0));
    } else {
        let i = choose|i: int| occurs_at(s, p, i);
        assert(s.subrange(0, p.len() as int) == s.take(p.len() as int));
        assert(i != 0);
        let t = s.drop_first();
        assert(t.subrange(i - 1, i - 1 + p.len()) =~= s.subrange(i, i + p.len()));
        assert(occurs_at(t, p, i - 1));
        lemma_replace_introduces(t, p, r);
        let rest = replace_all(t, p, r);
        let k = choose|k: int| occurs_at(rest, r, k);
        assert(out == seq![s[0]] + rest);
        assert(out.subrange(k + 1, k + 1 + r.len()) =~= rest.subrange(k, k + r.len()));
        assert(occurs_at(out, r, k + 1));
    }
}

/// Replacements apply one after the other: after `a` becomes `b`, the `b`
/// that results becomes `c`. So a text holding `a` comes out holding `c`, and
/// the text `a` itself comes out as `c`.
pub proof fn lemma_chained_replacements(s: Seq<char>, a: Seq<char>, b: Seq<char>, c: Seq<char>)
    ensures
        apply_replacements(s, seq![(a, b), (b, c)]) == replace_all(replace_all(s, a, b), b, c),
        contains(s, a) ==> contains(apply_replacements(s, seq![(a, b), (b, c)]), c),
        apply_replacements(a, seq![(a, b), (b, c)]) == c,
{
    let reps = seq![(a, b), (b, c)];
    assert(reps.drop_last() =~= seq![(a, b)]);
    assert(seq![(a, b)].drop_last() =~= Seq::<(Seq<char>, Seq<char>)>::empty());
    assert(reps.last() == (b, c));
    assert(seq![(a, b)].last() == (a, b));
    assert(seq![(a, b)].len() == 1);
    assert(apply_replacements(s, seq![(a, b)].drop_last()) == s);
    assert(apply_replacements(a, seq![(a, b)].drop_last()) == a);
    assert(apply_replacements(s, seq![(a, b)]) == replace_all(s, a, b));
    assert(apply_replacements(a, seq![(a, b)]) == replace_all(a, a, b));
    if contains(s, a) {
        lemma_replace_introduces(s, a, b);
        lemma_replace_introduces(replace_all(s, a, b), b, c);
    }
    lemma_replace_whole(a, b);
    lemma_replace_whole(b, c);
}

} // verus!
