//! Rendering a difference report into the exact lines printed for it:
//! a header naming the 1-based line number, the context pairs oldest
//! first, then the mismatched pair.

use vstd::prelude::*;
use crate::compare::DiffReport;
use crate::lines::views_of;

verus! {

/// The decimal digit character for `d`.
pub open spec fn dec_digit(d: int) -> char {
    if d == 0 {
        '0'
    } else if d == 1 {
        '1'
    } else if d == 2 {
        '2'
    } else if d == 3 {
        '3'
    } else if d == 4 {
        '4'
    } else if d == 5 {
        '5'
    } else if d == 6 {
        '6'
    } else if d == 7 {
        '7'
    } else if d == 8 {
        '8'
    } else {
        '9'
    }
}

/// The decimal numeral for `n`, most significant digit first, without
/// leading zeros (zero itself is written "0").
pub open spec fn dec_rep(n: nat) -> Seq<char>
    decreases n,
{
    if n < 10 {
        seq![dec_digit(n as int)]
    } else {
        dec_rep(n / 10).push(dec_digit((n % 10) as int))
    }
}

fn push_digit(out: &mut String, d: usize)
    requires
        d < 10,
    ensures
        final(out)@ == old(out)@.push(dec_digit(d as int)),
{
    let ghost s0 = out@;
    proof {
        reveal_strlit("0");
        reveal_strlit("1");
        reveal_strlit("2");
        reveal_strlit("3");
        reveal_strlit("4");
        reveal_strlit("5");
        reveal_strlit("6");
        reveal_strlit("7");
        reveal_strlit("8");
        reveal_strlit("9");
    }
    if d == 0 {
        out.append("0");
    } else if d == 1 {
        out.append("1");
    } else if d == 2 {
        out.append("2");
    } else if d == 3 {
        out.append("3");
    } else if d == 4 {
        out.append("4");
    } else if d == 5 {
        out.append("5");
    } else if d == 6 {
        out.append("6");
    } else if d == 7 {
        out.append("7");
    } else if d == 8 {
        out.append("8");
    } else {
        out.append("9");
    }
    proof {
        assert(out@ =~= s0.push(dec_digit(d as int)));
    }
}

/// Append the decimal numeral of `n` to `out`.
fn write_decimal(out: &mut String, n: usize)
    ensures
        final(out)@ == old(out)@ + dec_rep(n as nat),
    decreases n,
{
    let ghost s0 = out@;
    if n >= 10 {
        write_decimal(out, n / 10);
    }
    push_digit(out, n % 10);
    proof {
        if n < 10 {
            assert(out@ =~= s0 + dec_rep(n as nat));
        } else {
            assert(out@ =~= s0 + dec_rep(n as nat));
        }
    }
}

/// The header line announcing a difference at 1-based line `n`.
pub open spec fn header_line(n: nat) -> Seq<char> {
    "difference found at line "@ + dec_rep(n)
}

/// All lines printed for a report: the header, then the context pairs
/// oldest first, then the mismatched pair.
pub open spec fn report_lines(rep: DiffReport) -> Seq<Seq<char>> {
    seq![header_line(rep.line_number as nat)] + views_of(rep.context@) + seq![rep.mismatch@]
}

/// The lines printed for a difference report, in print order.
pub fn render_report(rep: &DiffReport) -> (out: Vec<String>)
    ensures
        views_of(out@) == report_lines(*rep),
{
    let mut out: Vec<String> = Vec::new();
    let mut header = "difference found at line ".to_owned();
    write_decimal(&mut header, rep.line_number);
    out.push(header);
    proof {
        assert(views_of(out@) =~= seq![header_line(rep.line_number as nat)] + views_of(
            rep.context@.take(0),
        ));
    }
    let mut idx: usize = 0;
    #[verifier::loop_isolation(false)]
    while idx < rep.context.len()
        invariant
            idx <= rep.context@.len(),
            views_of(out@) == seq![header_line(rep.line_number as nat)] + views_of(
                rep.context@.take(idx as int),
            ),
        decreases rep.context@.len() - idx,
    {
        let ghost out_before = out@;
        out.push(rep.context[idx].clone());
        proof {
            let expected = seq![header_line(rep.line_number as nat)] + views_of(
                rep.context@.take(idx + 1),
            );
            assert(out@ == out_before.push(rep.context@[idx as int]));
            assert forall|k: int| 0 <= k < out@.len() implies views_of(out@)[k] == expected[k] by {
                if k < out_before.len() {
                    assert(out@[k] == out_before[k]);
                    assert(views_of(out_before)[k] == out_before[k]@);
                    assert(views_of(rep.context@.take(idx as int)).len() == idx);
                    if k > 0 {
                        assert(views_of(rep.context@.take(idx as int))[k - 1] == rep.context@.take(
                            idx as int,
                        )[k - 1]@);
                        assert(views_of(rep.context@.take(idx + 1))[k - 1] == rep.context@.take(
                            idx + 1,
                        )[k - 1]@);
                    }
                } else {
                    assert(out@[k] == rep.context@[idx as int]);
                    assert(views_of(rep.context@.take(idx + 1))[k - 1] == rep.context@.take(
                        idx + 1,
                    )[k - 1]@);
                }
            }
            assert(views_of(out@) =~= expected);
        }
        idx = idx + 1;
    }
    out.push(rep.mismatch.clone());
    proof {
        assert(rep.context@.take(rep.context@.len() as int) =~= rep.context@);
        assert(views_of(out@) =~= report_lines(*rep));
    }
    out
}

} // verus!
