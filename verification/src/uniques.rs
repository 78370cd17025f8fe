//! Filtering a source down to its unique lines: each distinct line is
//! kept exactly once, at the position of its first occurrence.

use vstd::prelude::*;
use crate::lines::ReadBuffer;
use crate::lines::lemma_trim_idempotent;
use crate::lines::trim_spec;
use crate::lines::trimmed_views;
use crate::lines::views_of;

verus! {

/// `s` with every repetition of an earlier element dropped: each distinct
/// element kept once, in the order of its first occurrence.
pub open spec fn dedup_first(s: Seq<Seq<char>>) -> Seq<Seq<char>>
    decreases s.len(),
{
    if s.len() == 0 {
        Seq::empty()
    } else {
        let rest = dedup_first(s.drop_last());
        if rest.contains(s.last()) {
            rest
        } else {
            rest.push(s.last())
        }
    }
}

fn contains_line(v: &Vec<String>, x: &String) -> (r: bool)
    ensures
        r == views_of(v@).contains(x@),
{
    let mut j: usize = 0;
    #[verifier::loop_isolation(false)]
    while j < v.len()
        invariant
            j <= v@.len(),
            forall|k: int| 0 <= k < j ==> v@[k]@ != x@,
        decreases v@.len() - j,
    {
        if v[j] == *x {
            proof {
                assert(views_of(v@)[j as int] == x@);
            }
            return true;
        }
        j = j + 1;
    }
    proof {
        assert forall|k: int| 0 <= k < views_of(v@).len() implies views_of(v@)[k] != x@ by {
            assert(views_of(v@)[k] == v@[k]@);
        }
    }
    false
}

/// Each distinct line of the source once, in the order of first
/// occurrence.
pub fn uniques(source: ReadBuffer) -> (out: Vec<String>)
    ensures
        views_of(out@) == dedup_first(source@),
{
    let ghost a = source@;
    let mut rd = source;
    let total = rd.remaining();
    let mut out: Vec<String> = Vec::new();
    let mut i: usize = 0;
    #[verifier::loop_isolation(false)]
    loop
        invariant
            i <= total,
            total == a.len(),
            rd@ == a.skip(i as int),
            views_of(out@) == dedup_first(a.take(i as int)),
        decreases a.len() - i,
    {
        let line = match rd.get_line() {
            Some(l) => l,
            None => {
                proof {
                    assert(a.skip(i as int).len() == 0);
                    assert(a.take(i as int) =~= a);
                }
                return out;
            },
        };
        let ghost out_before = out@;
        let fresh = !contains_line(&out, &line);
        if fresh {
            out.push(line);
        }
        proof {
            assert(a.take(i + 1).drop_last() =~= a.take(i as int));
            assert(a.take(i + 1).last() == a[i as int]);
            if fresh {
                assert(views_of(out@) =~= views_of(out_before).push(a.take(i + 1).last()));
            }
            assert(views_of(out@) =~= dedup_first(a.take(i + 1)));
        }
        i = i + 1;
    }
}

/// Deduplication keeps exactly the lines of its input: a line appears in
/// the output if and only if it appears somewhere in the input.
pub proof fn lemma_dedup_first_complete(s: Seq<Seq<char>>, x: Seq<char>)
    ensures
        dedup_first(s).contains(x) <==> s.contains(x),
    decreases s.len(),
{
    if s.len() > 0 {
        let rest = s.drop_last();
        let rd = dedup_first(rest);
        lemma_dedup_first_complete(rest, x);
        if s.contains(x) {
            let i = choose|i: int| 0 <= i < s.len() && s[i] == x;
            if i < s.len() - 1 {
                assert(rest[i] == x);
                assert(rest.contains(x));
            } else {
                assert(s.last() == x);
                if !rd.contains(x) {
                    assert(dedup_first(s)[rd.len() as int] == x);
                }
            }
        }
        if dedup_first(s).contains(x) {
            let j = choose|j: int| 0 <= j < dedup_first(s).len() && dedup_first(s)[j] == x;
            if rd.contains(s.last()) {
                assert(rd.contains(x));
            } else {
                if j < rd.len() {
                    assert(rd[j] == x);
                    assert(rd.contains(x));
                } else {
                    assert(x == s.last());
                    assert(s[s.len() - 1] == x);
                }
            }
        }
        if rest.contains(x) {
            let i = choose|i: int| 0 <= i < rest.len() && rest[i] == x;
            assert(s[i] == x);
        }
        if rd.contains(x) {
            let j = choose|j: int| 0 <= j < rd.len() && rd[j] == x;
            if !rd.contains(s.last()) {
                assert(dedup_first(s)[j] == x);
            }
        }
    }
}

/// No line appears twice after deduplication.
pub proof fn lemma_dedup_first_distinct(s: Seq<Seq<char>>)
    ensures
        forall|p: int, q: int|
            0 <= p < q < dedup_first(s).len() ==> dedup_first(s)[p] != dedup_first(s)[q],
    decreases s.len(),
{
    if s.len() > 0 {
        let rest = s.drop_last();
        let rd = dedup_first(rest);
        lemma_dedup_first_distinct(rest);
        if !rd.contains(s.last()) {
            assert forall|p: int, q: int|
                0 <= p < q < dedup_first(s).len() implies dedup_first(s)[p] != dedup_first(
                s,
            )[q] by {
                if q == rd.len() {
                    assert(dedup_first(s)[q] == s.last());
                    assert(dedup_first(s)[p] == rd[p]);
                    if rd[p] == s.last() {
                        assert(rd.contains(s.last()));
                    }
                } else {
                    assert(dedup_first(s)[p] == rd[p]);
                    assert(dedup_first(s)[q] == rd[q]);
                }
            }
        }
    }
}

/// A sequence already free of repetitions deduplicates to itself.
pub proof fn lemma_dedup_first_of_distinct(s: Seq<Seq<char>>)
    requires
        forall|p: int, q: int| 0 <= p < q < s.len() ==> s[p] != s[q],
    ensures
        dedup_first(s) == s,
    decreases s.len(),
{
    if s.len() == 0 {
        assert(dedup_first(s) =~= s);
    } else {
        let rest = s.drop_last();
        assert forall|p: int, q: int| 0 <= p < q < rest.len() implies rest[p] != rest[q] by {
            assert(rest[p] == s[p]);
            assert(rest[q] == s[q]);
        }
        lemma_dedup_first_of_distinct(rest);
        lemma_dedup_first_complete(rest, s.last());
        if rest.contains(s.last()) {
            let i = choose|i: int| 0 <= i < rest.len() && rest[i] == s.last();
            assert(s[i] == s.last());
            assert(false);
        }
        assert(dedup_first(s) =~= s);
    }
}

/// Deduplicating an already deduplicated sequence changes nothing.
pub proof fn lemma_dedup_first_idempotent(s: Seq<Seq<char>>)
    ensures
        dedup_first(dedup_first(s)) == dedup_first(s),
{
    lemma_dedup_first_distinct(s);
    lemma_dedup_first_of_distinct(dedup_first(s));
}

/// The unique filter is idempotent: when `out` is what `uniques` produced
/// from some lines, running `uniques` on a fresh source over `out`
/// reproduces `out` unchanged — stripping already stripped lines changes
/// nothing, and deduplicating an already deduplicated sequence changes
/// nothing.
pub proof fn lemma_uniques_idempotent(lines: Seq<String>, out: Seq<String>)
    requires
        views_of(out) == dedup_first(trimmed_views(lines)),
    ensures
        dedup_first(trimmed_views(out)) == views_of(out),
{
    let t = trimmed_views(lines);
    let u = views_of(out);
    assert forall|k: int| 0 <= k < u.len() implies trim_spec(u[k]) == u[k] by {
        assert(u.contains(u[k]));
        lemma_dedup_first_complete(t, u[k]);
        let j = choose|j: int| 0 <= j < t.len() && t[j] == u[k];
        assert(t[j] == trim_spec(lines[j]@));
        lemma_trim_idempotent(lines[j]@);
    }
    assert(trimmed_views(out) =~= u);
    lemma_dedup_first_distinct(t);
    lemma_dedup_first_of_distinct(u);
}

} // verus!
