//! Decoder for the line-oriented test-report protocol produced by the run
//! stage: the raw captured text is split into lines, the lines are consumed
//! block by block into [`TestRecord`]s, and a trailing numeric line, when one
//! is present, becomes the overall grade.

use vstd::prelude::*;

verus! {

/// Index of the first `'\n'` in `s`, or `s.len()` when there is none.
pub open spec fn first_newline(s: Seq<char>) -> nat
    decreases s.len(),
{
    if s.len() == 0 {
        0
    } else if s[0] == '\n' {
        0
    } else {
        1 + first_newline(s.drop_first())
    }
}

proof fn lemma_first_newline_bounds(s: Seq<char>)
    ensures
        first_newline(s) <= s.len(),
        forall|k: int| 0 <= k < first_newline(s) ==> s[k] != '\n',
        first_newline(s) < s.len() ==> s[first_newline(s) as int] == '\n',
    decreases s.len(),
{
    if s.len() != 0 && s[0] != '\n' {
        lemma_first_newline_bounds(s.drop_first());
        assert forall|k: int| 0 <= k < first_newline(s) implies s[k] != '\n' by {
            if k > 0 {
                assert(s.drop_first()[k - 1] == s[k]);
            }
        }
    }
}

/// The scanner's characterization: a position with no newline before it, and a
/// newline (or the end) at it, is exactly `first_newline`.
proof fn lemma_first_newline_at(s: Seq<char>, i: int)
    requires
        0 <= i <= s.len(),
        forall|k: int| 0 <= k < i ==> s[k] != '\n',
        i < s.len() ==> s[i] == '\n',
    ensures
        first_newline(s) == i,
    decreases s.len(),
{
    if s.len() != 0 && s[0] != '\n' {
        assert forall|k: int| 0 <= k < i - 1 implies s.drop_first()[k] != '\n' by {
            assert(s.drop_first()[k] == s[k + 1]);
        }
        lemma_first_newline_at(s.drop_first(), i - 1);
    }
}

/// A line as delivered by the splitter: a carriage return immediately before
/// the line break is not part of the line.
pub open spec fn strip_cr(l: Seq<char>) -> Seq<char> {
    if l.len() > 0 && l.last() == '\r' {
        l.drop_last()
    } else {
        l
    }
}

/// The lines of `s`: split at each `'\n'`, dropping a `'\r'` that sits
/// directly before the break; a final line break does not open an empty last
/// line, and text after the last break is a line of its own, kept verbatim.
pub open spec fn lines_of(s: Seq<char>) -> Seq<Seq<char>>
    decreases s.len(),
    via lines_of_decreases
{
    if s.len() == 0 {
        Seq::empty()
    } else {
        let i = first_newline(s);
        if i == s.len() {
            seq![s]
        } else {
            seq![strip_cr(s.take(i as int))] + lines_of(s.skip(i + 1 as int))
        }
    }
}

#[via_fn]
proof fn lines_of_decreases(s: Seq<char>) {
    lemma_first_newline_bounds(s);
}

/// Splits the raw report text into its lines.
pub fn split_lines(s: &str) -> (r: Vec<String>)
    ensures
        r@.map_values(|l: String| l@) == lines_of(s@),
{
    let n = s.unicode_len();
    let mut out: Vec<String> = Vec::new();
    let mut start: usize = 0;
    proof {
        assert(s@.skip(0) =~= s@);
        assert(out@.map_values(|l: String| l@) + lines_of(s@) =~= lines_of(s@));
    }
    while start < n
        invariant
            n == s@.len(),
            start <= n,
            lines_of(s@) == out@.map_values(|l: String| l@) + lines_of(s@.skip(start as int)),
        decreases n - start,
    {
        let ghost rest = s@.skip(start as int);
        let mut j: usize = start;
        while j < n && s.get_char(j) != '\n'
            invariant
                n == s@.len(),
                start <= j <= n,
                forall|k: int| start <= k < j ==> s@[k] != '\n',
            decreases n - j,
        {
            j = j + 1;
        }
        proof {
            assert forall|k: int| 0 <= k < j - start implies rest[k] != '\n' by {
                assert(rest[k] == s@[start + k]);
            }
            if j < n {
                assert(rest[j - start] == s@[j as int]);
            }
            lemma_first_newline_at(rest, j - start);
        }
        if j == n {
            let line = s.substring_char(start, n).to_owned();
            let ghost out0 = out@;
            out.push(line);
            proof {
                assert(rest =~= s@.subrange(start as int, n as int));
                assert(lines_of(rest) =~= seq![rest]);
                assert(out@.map_values(|l: String| l@) =~= out0.map_values(|l: String| l@)
                    + seq![rest]);
                assert(s@.skip(n as int) =~= Seq::<char>::empty());
                assert(lines_of(s@) =~= out@.map_values(|l: String| l@) + lines_of(
                    s@.skip(n as int),
                ));
            }
            start = n;
        } else {
            let end = if j > start && s.get_char(j - 1) == '\r' {
                j - 1
            } else {
                j
            };
            let line = s.substring_char(start, end).to_owned();
            let ghost out0 = out@;
            out.push(line);
            proof {
                assert(rest.take(j - start) =~= s@.subrange(start as int, j as int));
                if j > start && s@[j - 1] == '\r' {
                    assert(rest.take(j - start).last() == s@[j - 1]);
                    assert(strip_cr(rest.take(j - start)) =~= s@.subrange(
                        start as int,
                        end as int,
                    ));
                } else {
                    assert(strip_cr(rest.take(j - start)) =~= s@.subrange(
                        start as int,
                        end as int,
                    ));
                }
                assert(rest.skip(j - start + 1) =~= s@.skip(j + 1));
                assert(lines_of(rest) == seq![strip_cr(rest.take(j - start))] + lines_of(
                    rest.skip(j - start + 1),
                ));
                assert(out@.map_values(|l: String| l@) =~= out0.map_values(|l: String| l@)
                    + seq![s@.subrange(start as int, end as int)]);
                assert(lines_of(s@) =~= out@.map_values(|l: String| l@) + lines_of(
                    s@.skip(j + 1),
                ));
            }
            start = j + 1;
        }
    }
    proof {
        assert(s@.skip(start as int) =~= Seq::<char>::empty());
        assert(lines_of(s@) =~= out@.map_values(|l: String| l@));
    }
    out
}

/// A decimal digit.
pub open spec fn is_digit(c: char) -> bool {
    '0' <= c && c <= '9'
}

/// All of `s` is digits, and there is at least one.
pub open spec fn all_digits(s: Seq<char>) -> bool {
    s.len() > 0 && forall|i: int| 0 <= i < s.len() ==> is_digit(s[i])
}

/// The value of a digit string read in base ten.
pub open spec fn digits_val(s: Seq<char>) -> int
    decreases s.len(),
{
    if s.len() == 0 {
        0
    } else {
        digits_val(s.drop_last()) * 10 + (s.last() as u32 - 48)
    }
}

proof fn lemma_digits_val_nonneg(s: Seq<char>)
    requires
        forall|i: int| 0 <= i < s.len() ==> is_digit(s[i]),
    ensures
        digits_val(s) >= 0,
    decreases s.len(),
{
    if s.len() > 0 {
        assert forall|i: int| 0 <= i < s.drop_last().len() implies is_digit(s.drop_last()[i]) by {
            assert(s.drop_last()[i] == s[i]);
        }
        lemma_digits_val_nonneg(s.drop_last());
    }
}

/// Appending digits never shrinks the value: the value of a digit string is at
/// least that of any of its prefixes.
proof fn lemma_digits_val_prefix(s: Seq<char>, k: int)
    requires
        0 <= k <= s.len(),
        forall|i: int| 0 <= i < s.len() ==> is_digit(s[i]),
    ensures
        digits_val(s.take(k)) <= digits_val(s),
    decreases s.len() - k,
{
    if k < s.len() {
        assert(s.take(k + 1).drop_last() =~= s.take(k));
        assert(s.take(k + 1).last() == s[k]);
        assert forall|i: int| 0 <= i < s.take(k).len() implies is_digit(s.take(k)[i]) by {
            assert(s.take(k)[i] == s[i]);
        }
        lemma_digits_val_nonneg(s.take(k));
        assert(digits_val(s.take(k)) <= digits_val(s.take(k + 1)));
        lemma_digits_val_prefix(s, k + 1);
    } else {
        assert(s.take(k) =~= s);
    }
}

/// The grade named by a line: an optional sign followed by digits, valued in
/// base ten, when that value fits a 32-bit signed integer; 0 on anything else.
pub open spec fn grade_of(l: Seq<char>) -> int {
    if l.len() > 0 && l[0] == '-' {
        if all_digits(l.drop_first()) && digits_val(l.drop_first()) <= 0x8000_0000 {
            -digits_val(l.drop_first())
        } else {
            0
        }
    } else if l.len() > 0 && l[0] == '+' {
        if all_digits(l.drop_first()) && digits_val(l.drop_first()) <= 0x7fff_ffff {
            digits_val(l.drop_first())
        } else {
            0
        }
    } else {
        if all_digits(l) && digits_val(l) <= 0x7fff_ffff {
            digits_val(l)
        } else {
            0
        }
    }
}

/// Reads a grade line as a 32-bit integer, 0 when the line is not a number or
/// does not fit.
pub fn parse_grade(l: &str) -> (g: i32)
    ensures
        g as int == grade_of(l@),
{
    let n = l.unicode_len();
    let mut start: usize = 0;
    let mut neg: bool = false;
    if n > 0 {
        let c0 = l.get_char(0);
        if c0 == '-' {
            neg = true;
            start = 1;
        } else if c0 == '+' {
            start = 1;
        }
    }
    let ghost ds = l@.skip(start as int);
    if start == n {
        // No digits at all: an empty rest, or the bare text is empty.
        return 0;
    }
    let mut m: u64 = 0;
    let mut too_big: bool = false;
    let mut i: usize = start;
    while i < n
        invariant
            n == l@.len(),
            start <= i <= n,
            start < n,
            start == 0 || start == 1,
            neg ==> start == 1 && l@[0] == '-',
            !neg && start == 1 ==> l@[0] == '+',
            start == 0 ==> l@[0] != '-' && l@[0] != '+',
            ds == l@.skip(start as int),
            forall|k: int| 0 <= k < i - start ==> is_digit(ds[k]),
            !too_big ==> m as int == digits_val(ds.take(i - start)) && m <= 0x8000_0000,
            too_big ==> digits_val(ds.take(i - start)) > 0x8000_0000,
        decreases n - i,
    {
        let c = l.get_char(i);
        if c < '0' || c > '9' {
            proof {
                assert(ds[i - start] == l@[i as int]);
                assert(!is_digit(ds[i - start]));
                assert(!all_digits(ds));
                if start == 1 {
                    assert(ds =~= l@.drop_first());
                }
                if start == 0 {
                    assert(ds =~= l@);
                }
            }
            return 0;
        }
        proof {
            assert(ds[i - start] == l@[i as int]);
            assert(ds.take(i - start + 1).drop_last() =~= ds.take(i - start));
            assert(ds.take(i - start + 1).last() == ds[i - start]);
        }
        if !too_big {
            let d = (c as u32 - 48) as u64;
            m = m * 10 + d;
            if m > 0x8000_0000 {
                too_big = true;
            }
        } else {
            proof {
                assert forall|k: int| 0 <= k < i - start + 1 implies is_digit(
                    #[trigger] ds.take(i - start + 1)[k],
                ) by {
                    assert(ds.take(i - start + 1)[k] == ds[k]);
                }
                lemma_digits_val_prefix(ds.take(i - start + 1), i - start);
                assert(ds.take(i - start + 1).take(i - start) =~= ds.take(i - start));
            }
        }
        i = i + 1;
    }
    proof {
        assert(ds.take(n - start) =~= ds);
        assert(all_digits(ds));
        if start == 1 {
            assert(ds =~= l@.drop_first());
        }
        if start == 0 {
            assert(ds =~= l@);
        }
    }
    if too_big {
        return 0;
    }
    if neg {
        let r: i64 = -(m as i64);
        return r as i32;
    }
    if m > 0x7fff_ffff {
        return 0;
    }
    m as i32
}

/// Mathematical form of one parsed test block.
pub ghost struct TestRecordModel {
    pub name: Seq<char>,
    pub provided: Seq<char>,
    pub received: Seq<char>,
    pub expected: Seq<char>,
    pub hints: Seq<Seq<char>>,
}

impl TestRecordModel {
    /// A test passes exactly when the received output equals the expected
    /// output, character for character, with no normalization.
    pub open spec fn passed(self) -> bool {
        self.received == self.expected
    }
}

/// Mathematical form of a decoded report: the records in order, and the grade.
pub ghost struct ReportModel {
    pub records: Seq<TestRecordModel>,
    pub grade: int,
}

/// Number of leading non-blank lines: the hint lines of a block, which run
/// until a blank line or the end of the input.
pub open spec fn hint_count(ls: Seq<Seq<char>>) -> nat
    decreases ls.len(),
{
    if ls.len() == 0 {
        0
    } else if ls[0].len() == 0 {
        0
    } else {
        1 + hint_count(ls.drop_first())
    }
}

proof fn lemma_hint_count_bounds(ls: Seq<Seq<char>>)
    ensures
        hint_count(ls) <= ls.len(),
    decreases ls.len(),
{
    if ls.len() != 0 && ls[0].len() != 0 {
        lemma_hint_count_bounds(ls.drop_first());
    }
}

/// The scanner's characterization: a position with only non-blank lines before
/// it, and a blank line (or the end) at it, is exactly `hint_count`.
proof fn lemma_hint_count_at(ls: Seq<Seq<char>>, i: int)
    requires
        0 <= i <= ls.len(),
        forall|k: int| 0 <= k < i ==> ls[k].len() != 0,
        i < ls.len() ==> ls[i].len() == 0,
    ensures
        hint_count(ls) == i,
    decreases ls.len(),
{
    if ls.len() != 0 && ls[0].len() != 0 {
        assert forall|k: int| 0 <= k < i - 1 implies ls.drop_first()[k].len() != 0 by {
            assert(ls.drop_first()[k] == ls[k + 1]);
        }
        lemma_hint_count_at(ls.drop_first(), i - 1);
    }
}

/// What the report decoder makes of a line sequence. Blank lines between
/// blocks are skipped. A non-blank line opens a block of name, provided
/// input, received output and expected output, followed by hint lines up to a
/// blank line (consumed, not stored) or the end. A single trailing non-blank
/// line is the grade line. A block opened with fewer than four lines left is
/// malformed: what was decoded so far stands, and the grade defaults to 0.
pub open spec fn parse_lines(ls: Seq<Seq<char>>) -> ReportModel
    decreases ls.len(),
    via parse_lines_decreases
{
    if ls.len() == 0 {
        ReportModel { records: Seq::empty(), grade: 0 }
    } else if ls[0].len() == 0 {
        parse_lines(ls.drop_first())
    } else if ls.len() == 1 {
        ReportModel { records: Seq::empty(), grade: grade_of(ls[0]) }
    } else if ls.len() < 4 {
        ReportModel { records: Seq::empty(), grade: 0 }
    } else {
        let h = hint_count(ls.skip(4)) as int;
        let consumed: int = if h < ls.len() - 4 {
            5 + h
        } else {
            4 + h
        };
        let rec = TestRecordModel {
            name: ls[0],
            provided: ls[1],
            received: ls[2],
            expected: ls[3],
            hints: ls.subrange(4, 4 + h),
        };
        let rest = parse_lines(ls.skip(consumed));
        ReportModel { records: seq![rec] + rest.records, grade: rest.grade }
    }
}

#[via_fn]
proof fn parse_lines_decreases(ls: Seq<Seq<char>>) {
    if ls.len() >= 4 && ls[0].len() != 0 {
        lemma_hint_count_bounds(ls.skip(4));
    }
}

/// What the whole decoder makes of raw report text.
pub open spec fn parse_text(s: Seq<char>) -> ReportModel {
    parse_lines(lines_of(s))
}

/// One parsed unit of the run-stage output: a test's name, the input it was
/// given, the output received from the submission, the output the harness
/// expected, and any hint lines.
pub struct TestRecord {
    pub name: String,
    pub provided: String,
    pub received: String,
    pub expected: String,
    pub hints: Vec<String>,
}

impl View for TestRecord {
    type V = TestRecordModel;

    open spec fn view(&self) -> TestRecordModel {
        TestRecordModel {
            name: self.name@,
            provided: self.provided@,
            received: self.received@,
            expected: self.expected@,
            hints: self.hints@.map_values(|h: String| h@),
        }
    }
}

impl TestRecord {
    /// Whether this test passed: exact equality of received and expected.
    pub fn passed(&self) -> (r: bool)
        ensures
            r == self@.passed(),
    {
        self.received == self.expected
    }
}

/// A decoded report: the test records in order, and the trailing grade.
pub struct Report {
    pub records: Vec<TestRecord>,
    pub grade: i32,
}

impl View for Report {
    type V = ReportModel;

    open spec fn view(&self) -> ReportModel {
        ReportModel {
            records: self.records@.map_values(|t: TestRecord| t@),
            grade: self.grade as int,
        }
    }
}

/// Decodes run-stage report text into its test records and grade.
pub fn parse_report(text: &str) -> (r: Report)
    ensures
        r@ == parse_text(text@),
{
    let ls = split_lines(text);
    let ghost lsv = ls@.map_values(|l: String| l@);
    let n = ls.len();
    let mut recs: Vec<TestRecord> = Vec::new();
    let mut grade: i32 = 0;
    let mut done: bool = false;
    let mut i: usize = 0;
    proof {
        assert(lsv.skip(0) =~= lsv);
        assert(recs@.map_values(|t: TestRecord| t@) + parse_lines(lsv).records =~= parse_lines(
            lsv,
        ).records);
    }
    while i < n && !done
        invariant
            n == ls.len(),
            i <= n,
            lsv == ls@.map_values(|l: String| l@),
            done ==> parse_lines(lsv).records == recs@.map_values(|t: TestRecord| t@)
                && parse_lines(lsv).grade == grade as int,
            !done ==> grade == 0 && parse_lines(lsv).records == recs@.map_values(
                |t: TestRecord| t@,
            ) + parse_lines(lsv.skip(i as int)).records && parse_lines(lsv).grade == parse_lines(
                lsv.skip(i as int),
            ).grade,
        decreases n - i + (if done { 0int } else { 1int }),
    {
        let ghost rem = lsv.skip(i as int);
        proof {
            assert(rem[0] == lsv[i as int]);
            assert(lsv[i as int] == ls@[i as int]@);
        }
        if ls[i].as_str().is_empty() {
            proof {
                assert(rem.drop_first() =~= lsv.skip(i + 1));
            }
            i = i + 1;
        } else if n - i == 1 {
            grade = parse_grade(ls[i].as_str());
            done = true;
        } else if n - i < 4 {
            done = true;
        } else {
            proof {
                assert(rem[1] == lsv[i + 1]);
                assert(rem[2] == lsv[i + 2]);
                assert(rem[3] == lsv[i + 3]);
                assert(lsv[i + 1] == ls@[i + 1]@);
                assert(lsv[i + 2] == ls@[i + 2]@);
                assert(lsv[i + 3] == ls@[i + 3]@);
            }
            let mut hints: Vec<String> = Vec::new();
            let mut j: usize = i + 4;
            while j < n && !ls[j].as_str().is_empty()
                invariant
                    n == ls.len(),
                    i + 4 <= j <= n,
                    lsv == ls@.map_values(|l: String| l@),
                    forall|k: int| i + 4 <= k < j ==> lsv[k].len() != 0,
                    hints@.map_values(|h: String| h@) =~= lsv.subrange(i + 4, j as int),
                decreases n - j,
            {
                let ghost hints0 = hints@;
                hints.push(ls[j].clone());
                proof {
                    assert(lsv[j as int] == ls@[j as int]@);
                    assert(hints@.map_values(|h: String| h@) =~= hints0.map_values(
                        |h: String| h@,
                    ) + seq![lsv[j as int]]);
                    assert(hints@.map_values(|h: String| h@) =~= lsv.subrange(i + 4, j + 1));
                }
                j = j + 1;
            }
            proof {
                let tail = rem.skip(4);
                assert(tail =~= lsv.skip(i + 4));
                assert forall|k: int| 0 <= k < j - i - 4 implies tail[k].len() != 0 by {
                    assert(tail[k] == lsv[i + 4 + k]);
                }
                if j < n {
                    assert(tail[j - i - 4] == lsv[j as int]);
                    assert(lsv[j as int] == ls@[j as int]@);
                }
                lemma_hint_count_at(tail, j - i - 4);
            }
            let rec = TestRecord {
                name: ls[i].clone(),
                provided: ls[i + 1].clone(),
                received: ls[i + 2].clone(),
                expected: ls[i + 3].clone(),
                hints,
            };
            let ghost recs0 = recs@;
            recs.push(rec);
            let next = if j < n {
                j + 1
            } else {
                j
            };
            proof {
                let h = hint_count(rem.skip(4));
                assert(h == j - i - 4);
                assert(rem.subrange(4, 4 + h as int) =~= lsv.subrange(i + 4, j as int));
                assert(rem.skip(next - i) =~= lsv.skip(next as int));
                assert(parse_lines(rem).records == seq![rec@] + parse_lines(
                    lsv.skip(next as int),
                ).records);
                assert(parse_lines(rem).grade == parse_lines(lsv.skip(next as int)).grade);
                assert(recs@.map_values(|t: TestRecord| t@) =~= recs0.map_values(
                    |t: TestRecord| t@,
                ) + seq![rec@]);
                assert(recs@.map_values(|t: TestRecord| t@) + parse_lines(
                    lsv.skip(next as int),
                ).records =~= parse_lines(lsv).records);
            }
            i = next;
        }
    }
    proof {
        if !done {
            assert(lsv.skip(i as int) =~= Seq::<Seq<char>>::empty());
            assert(recs@.map_values(|t: TestRecord| t@) + parse_lines(
                lsv.skip(i as int),
            ).records =~= recs@.map_values(|t: TestRecord| t@));
        }
    }
    Report { records: recs, grade }
}

} // verus!
