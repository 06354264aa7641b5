//! Rendering of a decoded report as the persisted, user-visible text: one
//! fieldset per test record, marked passed or failed, with the provided
//! input, the received and expected output, and the hint lines.

use vstd::prelude::*;

use crate::report::{parse_report, parse_text, TestRecord, TestRecordModel};

verus! {

/// The rendered form of the whole report body for raw run output `s`.
pub open spec fn spec_fmt(s: Seq<char>) -> Seq<char> {
    render_records(parse_text(s).records)
}

/// The rendered form of the hint lines: one paragraph per hint.
pub open spec fn render_hints(hs: Seq<Seq<char>>) -> Seq<char>
    decreases hs.len(),
{
    if hs.len() == 0 {
        Seq::empty()
    } else {
        "<p>"@ + hs[0] + "</p>\n"@ + render_hints(hs.drop_first())
    }
}

/// The rendered form of one record.
pub open spec fn render_record(t: TestRecordModel) -> Seq<char> {
    "<fieldset id='"@ + (if t.passed() { "pass"@ } else { "fail"@ }) + "'>\n<legend>"@ + t.name
        + "\u{2014}"@ + (if t.passed() { "Passed"@ } else { "Failed"@ }) + "</legend>\nInput: "@
        + t.provided + "<br>\nOutput: "@ + t.received + "<br>\n<span"@ + (if t.passed() {
        ""@
    } else {
        " id='fail'"@
    }) + ">Expected: "@ + t.expected + "</span>\n"@ + render_hints(t.hints)
}

/// The rendered form of a record sequence, in order.
pub open spec fn render_records(rs: Seq<TestRecordModel>) -> Seq<char>
    decreases rs.len(),
{
    if rs.len() == 0 {
        Seq::empty()
    } else {
        render_record(rs[0]) + render_records(rs.drop_first())
    }
}

/// Rendering one more hint extends the rendered text by that hint's paragraph.
proof fn lemma_render_hints_take_step(hs: Seq<Seq<char>>, k: int)
    requires
        0 <= k < hs.len(),
    ensures
        render_hints(hs.take(k + 1)) == render_hints(hs.take(k)) + ("<p>"@ + hs[k] + "</p>\n"@),
    decreases k,
{
    if k == 0 {
        let one = hs.take(1);
        assert(one[0] == hs[0]);
        assert(one.drop_first() =~= Seq::<Seq<char>>::empty());
        assert(hs.take(0) =~= Seq::<Seq<char>>::empty());
        assert(render_hints(hs.take(1)) =~= render_hints(hs.take(0)) + ("<p>"@ + hs[0]
            + "</p>\n"@));
    } else {
        assert(hs.take(k + 1).drop_first() =~= hs.drop_first().take(k));
        assert(hs.take(k).drop_first() =~= hs.drop_first().take(k - 1));
        lemma_render_hints_take_step(hs.drop_first(), k - 1);
        assert(hs.drop_first()[k - 1] == hs[k]);
        assert(hs.take(k + 1)[0] == hs[0]);
        assert(hs.take(k)[0] == hs[0]);
        assert(render_hints(hs.take(k + 1)) =~= render_hints(hs.take(k)) + ("<p>"@ + hs[k]
            + "</p>\n"@));
    }
}

/// Rendering one more record extends the rendered text by that record's form.
proof fn lemma_render_records_take_step(rs: Seq<TestRecordModel>, k: int)
    requires
        0 <= k < rs.len(),
    ensures
        render_records(rs.take(k + 1)) == render_records(rs.take(k)) + render_record(rs[k]),
    decreases k,
{
    if k == 0 {
        let one = rs.take(1);
        assert(one[0] == rs[0]);
        assert(one.drop_first() =~= Seq::<TestRecordModel>::empty());
        assert(rs.take(0) =~= Seq::<TestRecordModel>::empty());
        assert(render_records(rs.take(1)) =~= render_records(rs.take(0)) + render_record(rs[0]));
    } else {
        assert(rs.take(k + 1).drop_first() =~= rs.drop_first().take(k));
        assert(rs.take(k).drop_first() =~= rs.drop_first().take(k - 1));
        lemma_render_records_take_step(rs.drop_first(), k - 1);
        assert(rs.drop_first()[k - 1] == rs[k]);
        assert(rs.take(k + 1)[0] == rs[0]);
        assert(rs.take(k)[0] == rs[0]);
        assert(render_records(rs.take(k + 1)) =~= render_records(rs.take(k)) + render_record(
            rs[k],
        ));
    }
}

/// Appends the rendered form of one record.
fn push_record(out: &mut String, t: &TestRecord)
    ensures
        final(out)@ == old(out)@ + render_record(t@),
{
    let pass = t.passed();
    let ghost mut acc: Seq<char> = "<fieldset id='"@;
    out.append("<fieldset id='");
    if pass {
        out.append("pass");
    } else {
        out.append("fail");
    }
    proof {
        acc = acc + (if t@.passed() {
            "pass"@
        } else {
            "fail"@
        });
        assert(out@ =~= old(out)@ + acc);
    }
    out.append("'>\n<legend>");
    proof {
        acc = acc + "'>\n<legend>"@;
        assert(out@ =~= old(out)@ + acc);
    }
    out.append(t.name.as_str());
    proof {
        acc = acc + t@.name;
        assert(out@ =~= old(out)@ + acc);
    }
    out.append("\u{2014}");
    proof {
        acc = acc + "\u{2014}"@;
        assert(out@ =~= old(out)@ + acc);
    }
    if pass {
        out.append("Passed");
    } else {
        out.append("Failed");
    }
    proof {
        acc = acc + (if t@.passed() {
            "Passed"@
        } else {
            "Failed"@
        });
        assert(out@ =~= old(out)@ + acc);
    }
    out.append("</legend>\nInput: ");
    proof {
        acc = acc + "</legend>\nInput: "@;
        assert(out@ =~= old(out)@ + acc);
    }
    out.append(t.provided.as_str());
    proof {
        acc = acc + t@.provided;
        assert(out@ =~= old(out)@ + acc);
    }
    out.append("<br>\nOutput: ");
    proof {
        acc = acc + "<br>\nOutput: "@;
        assert(out@ =~= old(out)@ + acc);
    }
    out.append(t.received.as_str());
    proof {
        acc = acc + t@.received;
        assert(out@ =~= old(out)@ + acc);
    }
    out.append("<br>\n<span");
    proof {
        acc = acc + "<br>\n<span"@;
        assert(out@ =~= old(out)@ + acc);
    }
    if !pass {
        out.append(" id='fail'");
    }
    proof {
        acc = acc + (if t@.passed() {
            ""@
        } else {
            " id='fail'"@
        });
        reveal_strlit("");
        assert(out@ =~= old(out)@ + acc);
    }
    out.append(">Expected: ");
    proof {
        acc = acc + ">Expected: "@;
        assert(out@ =~= old(out)@ + acc);
    }
    out.append(t.expected.as_str());
    proof {
        acc = acc + t@.expected;
        assert(out@ =~= old(out)@ + acc);
    }
    out.append("</span>\n");
    proof {
        acc = acc + "</span>\n"@;
        assert(out@ =~= old(out)@ + acc);
    }
    let ghost hsv = t.hints@.map_values(|h: String| h@);
    let ghost head = out@;
    let mut k: usize = 0;
    proof {
        assert(hsv.take(0) =~= Seq::<Seq<char>>::empty());
        assert(head + render_hints(hsv.take(0)) =~= head);
    }
    while k < t.hints.len()
        invariant
            hsv == t.hints@.map_values(|h: String| h@),
            k <= t.hints.len(),
            out@ == head + render_hints(hsv.take(k as int)),
        decreases t.hints.len() - k,
    {
        out.append("<p>");
        out.append(t.hints[k].as_str());
        out.append("</p>\n");
        proof {
            assert(hsv[k as int] == t.hints@[k as int]@);
            lemma_render_hints_take_step(hsv, k as int);
            assert(out@ =~= head + render_hints(hsv.take(k + 1)));
        }
        k = k + 1;
    }
    proof {
        assert(hsv.take(t.hints@.len() as int) =~= hsv);
        assert(render_record(t@) == acc + render_hints(t@.hints));
        assert(out@ =~= old(out)@ + render_record(t@));
    }
}

/// Renders decoded records in order.
pub fn render(records: &Vec<TestRecord>) -> (r: String)
    ensures
        r@ == render_records(records@.map_values(|t: TestRecord| t@)),
{
    let ghost rsv = records@.map_values(|t: TestRecord| t@);
    let mut out = String::new();
    let mut k: usize = 0;
    proof {
        assert(rsv.take(0) =~= Seq::<TestRecordModel>::empty());
    }
    while k < records.len()
        invariant
            rsv == records@.map_values(|t: TestRecord| t@),
            k <= records.len(),
            out@ == render_records(rsv.take(k as int)),
        decreases records.len() - k,
    {
        push_record(&mut out, &records[k]);
        proof {
            assert(rsv[k as int] == records@[k as int]@);
            lemma_render_records_take_step(rsv, k as int);
        }
        k = k + 1;
    }
    proof {
        assert(rsv.take(records@.len() as int) =~= rsv);
    }
    out
}

/// Decodes raw run-stage output and renders its records as the report body.
pub fn fmt(output: String) -> (r: String)
    ensures
        r@ == spec_fmt(output@),
{
    let rep = parse_report(output.as_str());
    render(&rep.records)
}

} // verus!
