//! Line-by-line comparison of two sources: find the first position where
//! they disagree and report it together with a bounded window of the
//! matched pairs seen immediately before it.

use vstd::prelude::*;
use crate::lines::ReadBuffer;
use crate::lines::views_of;

verus! {

/// Two corresponding lines joined with a single space, the form in which
/// both context pairs and the mismatched pair are reported.
pub open spec fn join_pair(x: Seq<char>, y: Seq<char>) -> Seq<char> {
    x + seq![' '] + y
}

/// Index `i` (0-based) is the first position where `a` and `b` disagree
/// while both still have a line.
pub open spec fn is_first_diff(a: Seq<Seq<char>>, b: Seq<Seq<char>>, i: int) -> bool {
    &&& 0 <= i < a.len()
    &&& i < b.len()
    &&& a[i] != b[i]
    &&& forall|j: int| 0 <= j < i ==> a[j] == b[j]
}

/// Where the context window for a difference at index `i` starts: at most
/// `ctx` lines before it, never before the first line.
pub open spec fn context_start(i: int, ctx: int) -> int {
    if i - ctx >= 0 {
        i - ctx
    } else {
        0
    }
}

/// The joined pairs shown before a difference at index `i`: the most
/// recent `ctx` matched pairs (fewer when the difference comes earlier),
/// oldest first.
pub open spec fn context_window(a: Seq<Seq<char>>, b: Seq<Seq<char>>, i: int, ctx: int) -> Seq<
    Seq<char>,
> {
    Seq::new(
        (i - context_start(i, ctx)) as nat,
        |k: int| join_pair(a[context_start(i, ctx) + k], b[context_start(i, ctx) + k]),
    )
}

/// What `compare` reports when the sources differ.
pub struct DiffReport {
    /// 1-based number of the first differing line.
    pub line_number: usize,
    /// The matched pairs preceding the difference, oldest first, each
    /// space-joined.
    pub context: Vec<String>,
    /// The differing pair itself, space-joined.
    pub mismatch: String,
}

/// The report describes the first difference of `a` and `b` under context
/// size `ctx`.
pub open spec fn report_matches(rep: DiffReport, a: Seq<Seq<char>>, b: Seq<Seq<char>>, ctx: int) -> bool {
    &&& 1 <= rep.line_number
    &&& is_first_diff(a, b, rep.line_number - 1)
    &&& views_of(rep.context@) == context_window(a, b, rep.line_number - 1, ctx)
    &&& rep.mismatch@ == join_pair(a[rep.line_number - 1], b[rep.line_number - 1])
}

/// The two halves of a pair joined with a single space between them.
pub fn join_lines(x: &str, y: &str) -> (r: String)
    ensures
        r@ == join_pair(x@, y@),
{
    let mut r = x.to_owned();
    r.append(" ");
    r.append(y);
    proof {
        reveal_strlit(" ");
        assert(" "@ =~= seq![' ']);
        assert(r@ =~= join_pair(x@, y@));
    }
    r
}

/// Read the two sources in lockstep and report the first differing pair,
/// with up to `context_len` preceding matched pairs; report nothing when
/// either source ends before a difference is seen.
pub fn compare(source_1: ReadBuffer, source_2: ReadBuffer, context_len: usize) -> (r: Option<
    DiffReport,
>)
    ensures
        (r is Some) <==> exists|i: int| is_first_diff(source_1@, source_2@, i),
        r matches Some(rep) ==> report_matches(rep, source_1@, source_2@, context_len as int),
        r is None ==> forall|j: int|
            0 <= j < source_1@.len() && j < source_2@.len() ==> source_1@[j] == source_2@[j],
{
    let ghost a = source_1@;
    let ghost b = source_2@;
    let mut r1 = source_1;
    let mut r2 = source_2;
    let total = r1.remaining();
    let mut buf: Vec<String> = Vec::new();
    let mut i: usize = 0;
    #[verifier::loop_isolation(false)]
    loop
        invariant
            i <= total,
            total == a.len(),
            i <= b.len(),
            r1@ == a.skip(i as int),
            r2@ == b.skip(i as int),
            forall|j: int| 0 <= j < i ==> a[j] == b[j],
            buf@.len() == i - context_start(i as int, context_len as int),
            forall|k: int|
                0 <= k < buf@.len() ==> buf@[k]@ == join_pair(
                    a[context_start(i as int, context_len as int) + k],
                    b[context_start(i as int, context_len as int) + k],
                ),
        decreases a.len() - i,
    {
        let line_1 = match r1.get_line() {
            Some(l) => l,
            None => {
                proof {
                    assert(a.skip(i as int).len() == 0);
                    assert(i == a.len());
                    assert forall|p: int| !is_first_diff(a, b, p) by {
                        if 0 <= p < i {
                            assert(a[p] == b[p]);
                        }
                    }
                }
                return None;
            },
        };
        let line_2 = match r2.get_line() {
            Some(l) => l,
            None => {
                proof {
                    assert(b.skip(i as int).len() == 0);
                    assert(i == b.len());
                    assert forall|p: int| !is_first_diff(a, b, p) by {
                        if 0 <= p < i {
                            assert(a[p] == b[p]);
                        }
                    }
                }
                return None;
            },
        };
        proof {
            assert(line_1@ == a[i as int]);
            assert(line_2@ == b[i as int]);
        }
        if line_1 != line_2 {
            let mismatch = join_lines(line_1.as_str(), line_2.as_str());
            let rep = DiffReport { line_number: i + 1, context: buf, mismatch };
            proof {
                assert(is_first_diff(a, b, i as int));
                assert(views_of(rep.context@) =~= context_window(
                    a,
                    b,
                    i as int,
                    context_len as int,
                ));
            }
            return Some(rep);
        }
        let ghost buf_before = buf@;
        if context_len > 0 {
            if buf.len() == context_len {
                buf.remove(0);
                proof {
                    assert(buf@ =~= buf_before.skip(1));
                }
            }
            let joined = join_lines(line_1.as_str(), line_2.as_str());
            buf.push(joined);
        }
        proof {
            let ctx = context_len as int;
            let start = context_start(i as int, ctx);
            let start_next = context_start(i + 1, ctx);
            assert forall|k: int|
                0 <= k < buf@.len() implies buf@[k]@ == join_pair(
                    a[start_next + k],
                    b[start_next + k],
                ) by {
                if ctx > 0 {
                    if buf_before.len() < ctx {
                        assert(start == 0);
                        assert(start_next == 0);
                        assert(buf@ == buf_before.push(buf@.last()));
                        if k < buf_before.len() {
                            assert(buf@[k] == buf_before[k]);
                        }
                    } else {
                        assert(start == i - ctx);
                        assert(start_next == start + 1);
                        if k < ctx - 1 {
                            assert(buf@[k] == buf_before.skip(1)[k]);
                            assert(buf_before.skip(1)[k] == buf_before[k + 1]);
                        }
                    }
                }
            }
            assert(buf@.len() == i + 1 - start_next);
        }
        i = i + 1;
    }
}

/// A source compared with itself has no first difference: identical
/// inputs make `compare` report nothing.
pub proof fn lemma_identical_no_diff(a: Seq<Seq<char>>)
    ensures
        !(exists|i: int| is_first_diff(a, a, i)),
{
    assert forall|i: int| !is_first_diff(a, a, i) by {}
}

/// When the sources agree on every line up to the shorter one's end — in
/// particular when one is a strict prefix of the other — no difference is
/// found and `compare` reports nothing.
pub proof fn lemma_prefix_no_diff(a: Seq<Seq<char>>, b: Seq<Seq<char>>)
    requires
        forall|j: int| 0 <= j < a.len() && j < b.len() ==> a[j] == b[j],
    ensures
        !(exists|i: int| is_first_diff(a, b, i)),
{
    assert forall|i: int| !is_first_diff(a, b, i) by {
        if 0 <= i < a.len() && i < b.len() {
            assert(a[i] == b[i]);
        }
    }
}

/// A difference at 0-based index `i` is reported with exactly
/// `min(ctx, i)` context lines: the window never exceeds the configured
/// size nor the number of lines before the difference.
pub proof fn lemma_context_window_len(a: Seq<Seq<char>>, b: Seq<Seq<char>>, i: int, ctx: int)
    requires
        0 <= i,
        0 <= ctx,
    ensures
        context_window(a, b, i, ctx).len() == if ctx <= i {
            ctx
        } else {
            i
        },
{
}

/// With a context size of zero the window is empty: nothing is reported
/// beyond the mismatch itself.
pub proof fn lemma_zero_context(a: Seq<Seq<char>>, b: Seq<Seq<char>>, i: int)
    requires
        0 <= i,
    ensures
        context_window(a, b, i, 0) == Seq::<Seq<char>>::empty(),
{
    assert(context_window(a, b, i, 0) =~= Seq::<Seq<char>>::empty());
}

} // verus!
