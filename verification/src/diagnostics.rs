//! What is reported of a compilation's warnings and errors: for each
//! diagnostic a report of its severity with its message, its hints as notes
//! and its place; then, for each point of its trace, a help report.
use vstd::prelude::*;
use vstd::string::StringExecFns;
use typst_syntax::Span;

verus! {

/// `typst_syntax::Span`, a place in a source, which Verus sees only as a
/// whole.
#[verifier::external_type_specification]
#[verifier::external_body]
pub struct ExSpan(Span);

/// How severe a diagnostic is.
#[derive(Clone, Copy)]
pub enum Severity {
    Error,
    Warning,
}

/// A point of a diagnostic's trace, as `typst::diag::Tracepoint` has it.
pub enum TraceKind {
    /// A function call, of the named function if it has a name.
    Call(Option<String>),
    /// A show rule applied to an element of the named kind.
    Show(String),
    /// A module import.
    Import,
}

/// A point of a diagnostic's trace, with its place and Typst's own
/// rendering of it (its `Display`).
pub struct TracePoint {
    pub kind: TraceKind,
    pub span: Span,
    pub shown: String,
}

/// A warning or error of a compilation (`typst::diag::SourceDiagnostic`).
pub struct Diagnostic {
    pub severity: Severity,
    pub span: Span,
    pub message: String,
    pub trace: Vec<TracePoint>,
    pub hints: Vec<String>,
}

/// The kind of a report.
#[derive(Clone, Copy, Debug, PartialEq, Eq)]
pub enum ReportKind {
    Error,
    Warning,
    Help,
}

/// One report to render: its kind, message, notes and the place it points at.
#[derive(Debug)]
pub struct Report {
    pub kind: ReportKind,
    pub message: String,
    pub notes: Vec<String>,
    pub span: Span,
}

/// The mathematical view of a [`Report`].
pub struct ReportV {
    pub kind: ReportKind,
    pub message: Seq<char>,
    pub notes: Seq<Seq<char>>,
    pub span: Span,
}

/// How the trace is rendered: with the library's own messages, each help
/// pointing at the diagnostic's place, or with Typst's rendering of each
/// point, each help pointing at the point's place.
#[derive(Clone, Copy)]
pub enum TraceStyle {
    Library,
    Typst,
}

/// The library's message for a point of a trace.
pub open spec fn trace_text(k: TraceKind) -> Seq<char> {
    match k {
        TraceKind::Call(Some(name)) => "in call to "@ + name@,
        TraceKind::Call(None) => "in call"@,
        TraceKind::Show(name) => "while showing "@ + name@,
        TraceKind::Import => "during import"@,
    }
}

/// The notes of a diagnostic: each hint, prefixed with "hint: ".
pub open spec fn hint_notes(hints: Seq<String>) -> Seq<Seq<char>> {
    Seq::new(hints.len(), |i: int| "hint: "@ + hints[i]@)
}

/// The help report of one point of a trace.
pub open spec fn help_report(d: Diagnostic, p: TracePoint, style: TraceStyle) -> ReportV {
    match style {
        TraceStyle::Library => ReportV {
            kind: ReportKind::Help,
            message: trace_text(p.kind),
            notes: Seq::empty(),
            span: d.span,
        },
        TraceStyle::Typst => ReportV {
            kind: ReportKind::Help,
            message: p.shown@,
            notes: Seq::empty(),
            span: p.span,
        },
    }
}

/// The reports of one diagnostic: the diagnostic itself, then one help per
/// point of its trace, in order.
pub open spec fn diagnostic_reports(d: Diagnostic, style: TraceStyle) -> Seq<ReportV> {
    seq![
        ReportV {
            kind: match d.severity {
                Severity::Error => ReportKind::Error,
                Severity::Warning => ReportKind::Warning,
            },
            message: d.message@,
            notes: hint_notes(d.hints@),
            span: d.span,
        },
    ] + Seq::new(d.trace@.len(), |i: int| help_report(d, d.trace@[i], style))
}

/// The reports of several diagnostics, in order.
pub open spec fn all_reports(ds: Seq<Diagnostic>, style: TraceStyle) -> Seq<ReportV>
    decreases ds.len(),
{
    if ds.len() == 0 {
        Seq::empty()
    } else {
        all_reports(ds.drop_last(), style) + diagnostic_reports(ds.last(), style)
    }
}

/// The reports of a compilation: those of the warnings, then those of the
/// errors.
pub open spec fn compilation_reports(warnings: Seq<Diagnostic>, errors: Seq<Diagnostic>, style: TraceStyle) -> Seq<ReportV> {
    all_reports(warnings, style) + all_reports(errors, style)
}

/// The view of a list of reports.
pub open spec fn reports_view(rs: Seq<Report>) -> Seq<ReportV> {
    Seq::new(
        rs.len(),
        |i: int|
            ReportV {
                kind: rs[i].kind,
                message: rs[i].message@,
                notes: Seq::new(rs[i].notes@.len(), |j: int| rs[i].notes@[j]@),
                span: rs[i].span,
            },
    )
}

/// The library's message for a point of a trace.
pub fn trace_message(k: &TraceKind) -> (res: String)
    ensures
        res@ == trace_text(*k),
{
    match k {
        TraceKind::Call(Some(name)) => String::from_str("in call to ").concat(name.as_str()),
        TraceKind::Call(None) => String::from_str("in call"),
        TraceKind::Show(name) => String::from_str("while showing ").concat(name.as_str()),
        TraceKind::Import => String::from_str("during import"),
    }
}

/// The view of one report.
pub open spec fn report_view(r: Report) -> ReportV {
    ReportV {
        kind: r.kind,
        message: r.message@,
        notes: Seq::new(r.notes@.len(), |j: int| r.notes@[j]@),
        span: r.span,
    }
}

proof fn lemma_reports_push(rs: Seq<Report>, r: Report)
    ensures
        reports_view(rs.push(r)) == reports_view(rs).push(report_view(r)),
{
    assert(reports_view(rs.push(r)) =~= reports_view(rs).push(report_view(r)));
}

/// The notes of a diagnostic.
fn notes_of(hints: &Vec<String>) -> (res: Vec<String>)
    ensures
        Seq::new(res@.len(), |j: int| res@[j]@) == hint_notes(hints@),
{
    let mut out: Vec<String> = Vec::new();
    let mut i: usize = 0;
    while i < hints.len()
        invariant
            i <= hints.len(),
            out@.len() == i,
            forall|j: int| 0 <= j < i ==> (#[trigger] out@[j])@ == "hint: "@ + hints@[j]@,
        decreases hints.len() - i,
    {
        let note = String::from_str("hint: ").concat(hints[i].as_str());
        out.push(note);
        i += 1;
    }
    assert(Seq::new(out@.len(), |j: int| out@[j]@) =~= hint_notes(hints@));
    out
}

/// Appends the reports of one diagnostic.
fn push_reports(out: &mut Vec<Report>, d: &Diagnostic, style: TraceStyle)
    ensures
        reports_view(final(out)@) == reports_view(old(out)@) + diagnostic_reports(*d, style),
{
    let kind = match d.severity {
        Severity::Error => ReportKind::Error,
        Severity::Warning => ReportKind::Warning,
    };
    let main = Report { kind, message: d.message.clone(), notes: notes_of(&d.hints), span: d.span };
    proof {
        lemma_reports_push(out@, main);
    }
    out.push(main);
    let ghost start = reports_view(out@);
    let mut i: usize = 0;
    while i < d.trace.len()
        invariant
            i <= d.trace.len(),
            reports_view(out@) == start + Seq::new(i as nat, |j: int| help_report(*d, d.trace@[j], style)),
        decreases d.trace.len() - i,
    {
        let point = &d.trace[i];
        let help = match style {
            TraceStyle::Library => Report {
                kind: ReportKind::Help,
                message: trace_message(&point.kind),
                notes: Vec::new(),
                span: d.span,
            },
            TraceStyle::Typst => Report {
                kind: ReportKind::Help,
                message: point.shown.clone(),
                notes: Vec::new(),
                span: point.span,
            },
        };
        proof {
            lemma_reports_push(out@, help);
            assert(report_view(help).notes =~= Seq::<Seq<char>>::empty());
            assert(report_view(help) == help_report(*d, d.trace@[i as int], style));
            assert(start + Seq::new((i + 1) as nat, |j: int| help_report(*d, d.trace@[j], style)) =~= (
            start + Seq::new(i as nat, |j: int| help_report(*d, d.trace@[j], style))).push(
                help_report(*d, d.trace@[i as int], style),
            ));
        }
        out.push(help);
        i += 1;
    }
    proof {
        assert(reports_view(out@) =~= reports_view(old(out)@) + diagnostic_reports(*d, style));
    }
}

/// Appends the reports of several diagnostics.
fn push_all(out: &mut Vec<Report>, ds: &Vec<Diagnostic>, style: TraceStyle)
    ensures
        reports_view(final(out)@) == reports_view(old(out)@) + all_reports(ds@, style),
{
    let mut i: usize = 0;
    while i < ds.len()
        invariant
            i <= ds.len(),
            reports_view(out@) == reports_view(old(out)@) + all_reports(ds@.take(i as int), style),
        decreases ds.len() - i,
    {
        proof {
            assert(ds@.take(i + 1).drop_last() =~= ds@.take(i as int));
            assert(ds@.take(i + 1).last() == ds@[i as int]);
        }
        push_reports(out, &ds[i], style);
        i += 1;
    }
    proof {
        assert(ds@.take(ds@.len() as int) =~= ds@);
    }
}

/// The reports of a compilation: those of the warnings, then those of the
/// errors, each diagnostic followed by the help reports of its trace.
pub fn plan_reports(warnings: &Vec<Diagnostic>, errors: &Vec<Diagnostic>, style: TraceStyle) -> (res: Vec<Report>)
    ensures
        reports_view(res@) == compilation_reports(warnings@, errors@, style),
{
    let mut out: Vec<Report> = Vec::new();
    proof {
        assert(reports_view(out@) =~= Seq::<ReportV>::empty());
    }
    push_all(&mut out, warnings, style);
    push_all(&mut out, errors, style);
    proof {
        assert(reports_view(out@) =~= compilation_reports(warnings@, errors@, style));
    }
    out
}

/// How many reports the first `k` diagnostics make: one for each, and one
/// more per point of its trace.
pub open spec fn reports_before(ds: Seq<Diagnostic>, k: int) -> int
    decreases k,
{
    if k <= 0 {
        0
    } else {
        reports_before(ds, k - 1) + 1 + ds[k - 1].trace@.len()
    }
}

/// The report carries the diagnostic itself: its severity, its message, its
/// hints as notes, each prefixed with "hint: ", and its place.
pub open spec fn reports_diagnostic(r: ReportV, d: Diagnostic) -> bool {
    &&& (d.severity is Error ==> r.kind == ReportKind::Error)
    &&& (d.severity is Warning ==> r.kind == ReportKind::Warning)
    &&& r.message == d.message@
    &&& r.notes.len() == d.hints@.len()
    &&& forall|i: int| 0 <= i < r.notes.len() ==> #[trigger] r.notes[i] == "hint: "@ + d.hints@[i]@
    &&& r.span == d.span
}

/// The report is the help of a point of the diagnostic's trace: without
/// notes, with the library's message for the point at the diagnostic's
/// place, or with Typst's rendering of the point at the point's place.
pub open spec fn reports_trace_point(r: ReportV, d: Diagnostic, p: TracePoint, style: TraceStyle) -> bool {
    &&& r.kind == ReportKind::Help
    &&& r.notes.len() == 0
    &&& match style {
        TraceStyle::Library => r.message == trace_text(p.kind) && r.span == d.span,
        TraceStyle::Typst => r.message == p.shown@ && r.span == p.span,
    }
}

/// The reports are, in order, a block for each diagnostic: the report of the
/// diagnostic itself, then one help for each point of its trace, in order;
/// and nothing else.
pub open spec fn blocks_of(rs: Seq<ReportV>, ds: Seq<Diagnostic>, style: TraceStyle) -> bool {
    &&& rs.len() == reports_before(ds, ds.len() as int)
    &&& forall|k: int| 0 <= k < ds.len() ==> reports_diagnostic(#[trigger] rs[reports_before(ds, k)], ds[k])
    &&& forall|k: int, j: int|
        0 <= k < ds.len() && 0 <= j < ds[k].trace@.len() ==> reports_trace_point(
            #[trigger] rs[reports_before(ds, k) + 1 + j],
            ds[k],
            #[trigger] ds[k].trace@[j],
            style,
        )
}

/// Counting the reports of a prefix does not look past it.
proof fn lemma_reports_before_prefix(ds: Seq<Diagnostic>, n: int, k: int)
    requires
        0 <= k <= n <= ds.len(),
    ensures
        reports_before(ds, k) == reports_before(ds.take(n), k),
    decreases k,
{
    if k > 0 {
        lemma_reports_before_prefix(ds, n, k - 1);
        assert(ds.take(n)[k - 1] == ds[k - 1]);
    }
}

/// The reports of earlier diagnostics come before those of later ones.
proof fn lemma_reports_before_grows(ds: Seq<Diagnostic>, a: int, b: int)
    requires
        0 <= a <= b,
    ensures
        reports_before(ds, a) <= reports_before(ds, b),
    decreases b,
{
    if a < b {
        lemma_reports_before_grows(ds, a, b - 1);
    }
}

/// The reports of several diagnostics are one block per diagnostic, in
/// order.
proof fn lemma_all_reports_blocks(ds: Seq<Diagnostic>, style: TraceStyle)
    ensures
        blocks_of(all_reports(ds, style), ds, style),
    decreases ds.len(),
{
    if ds.len() > 0 {
        let n = ds.len() - 1;
        let front = ds.drop_last();
        let d = ds.last();
        lemma_all_reports_blocks(front, style);
        let rs0 = all_reports(front, style);
        let rs = all_reports(ds, style);
        assert(front =~= ds.take(n));
        lemma_reports_before_prefix(ds, n, n);
        assert(rs == rs0 + diagnostic_reports(d, style));
        assert(rs.len() == reports_before(ds, ds.len() as int));
        assert forall|k: int| 0 <= k < ds.len() implies reports_diagnostic(
            #[trigger] rs[reports_before(ds, k)],
            ds[k],
        ) by {
            if k < n {
                lemma_reports_before_prefix(ds, n, k);
                lemma_reports_before_prefix(ds, n, k + 1);
                lemma_reports_before_grows(front, k + 1, n);
                lemma_reports_before_grows(front, 0, k);
                assert(front[k] == ds[k]);
                assert(reports_before(front, k + 1) == reports_before(front, k) + 1 + front[k].trace@.len());
                assert(rs0.len() == reports_before(front, n));
                assert(reports_before(ds, k) == reports_before(front, k));
                assert(reports_before(front, k) < rs0.len());
                assert(rs[reports_before(ds, k)] == rs0[reports_before(front, k)]);
            } else {
                assert(rs[reports_before(ds, k)] == diagnostic_reports(d, style)[0]);
            }
        }
        assert forall|k: int, j: int|
            0 <= k < ds.len() && 0 <= j < ds[k].trace@.len() implies reports_trace_point(
            #[trigger] rs[reports_before(ds, k) + 1 + j],
            ds[k],
            #[trigger] ds[k].trace@[j],
            style,
        ) by {
            if k < n {
                lemma_reports_before_prefix(ds, n, k);
                lemma_reports_before_prefix(ds, n, k + 1);
                lemma_reports_before_grows(front, k + 1, n);
                lemma_reports_before_grows(front, 0, k);
                assert(front[k] == ds[k]);
                assert(front[k].trace@[j] == ds[k].trace@[j]);
                assert(reports_before(front, k + 1) == reports_before(front, k) + 1 + front[k].trace@.len());
                assert(rs0.len() == reports_before(front, n));
                assert(reports_before(ds, k) == reports_before(front, k));
                assert(reports_before(front, k) + 1 + j < rs0.len());
                assert(rs[reports_before(ds, k) + 1 + j] == rs0[reports_before(front, k) + 1 + j]);
            } else {
                assert(rs[reports_before(ds, k) + 1 + j] == diagnostic_reports(d, style)[1 + j]);
            }
        }
    }
}

/// The reports of two lists of diagnostics one after the other are those of
/// the first, then those of the second.
proof fn lemma_all_reports_append(a: Seq<Diagnostic>, b: Seq<Diagnostic>, style: TraceStyle)
    ensures
        all_reports(a + b, style) == all_reports(a, style) + all_reports(b, style),
    decreases b.len(),
{
    if b.len() == 0 {
        assert(a + b =~= a);
        assert(all_reports(a, style) + all_reports(b, style) =~= all_reports(a, style));
    } else {
        lemma_all_reports_append(a, b.drop_last(), style);
        assert((a + b).drop_last() =~= a + b.drop_last());
        assert((a + b).last() == b.last());
        assert(all_reports(a + b, style) =~= all_reports(a, style) + all_reports(b, style));
    }
}

/// The reports of a compilation come one block per diagnostic, the warnings
/// first and then the errors, each in its order: the k-th block starts with
/// the report of the k-th diagnostic itself (its own severity, message, hint
/// notes and place), followed by the helps of that diagnostic's own trace,
/// in order. No diagnostic is dropped, repeated or reported in place of
/// another.
pub proof fn law_one_block_per_diagnostic(warnings: Seq<Diagnostic>, errors: Seq<Diagnostic>, style: TraceStyle)
    ensures
        blocks_of(compilation_reports(warnings, errors, style), warnings + errors, style),
{
    lemma_all_reports_append(warnings, errors, style);
    lemma_all_reports_blocks(warnings + errors, style);
}

} // verus!
