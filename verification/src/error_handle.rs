//! Diagnostics: what a compile error says, where it points, and which source
//! it is shown against.

use vstd::prelude::*;
use vstd::string::*;

use crate::span::SimpleSpan;
use crate::text::{same, Text};

verus! {

/// A secondary source span with an explanatory message.
#[derive(Debug, Clone, PartialEq)]
pub struct SecondaryLabel {
    pub span: SimpleSpan,
    pub message: String,
}

pub struct SecondaryLabelV {
    pub span: SimpleSpan,
    pub message: Text,
}

impl DeepView for SecondaryLabel {
    type V = SecondaryLabelV;

    open spec fn deep_view(&self) -> SecondaryLabelV {
        SecondaryLabelV { span: self.span, message: self.message@ }
    }
}

impl SecondaryLabel {
    pub fn new(span: SimpleSpan, message: &str) -> (r: SecondaryLabel)
        ensures
            r.deep_view() == (SecondaryLabelV { span, message: message@ }),
    {
        SecondaryLabel { span, message: message.to_owned() }
    }
}

/// A compile-time error with a source span, optional error code, secondary
/// labels, notes, and a help suggestion.
#[derive(Debug, Clone, PartialEq)]
pub struct LakeError {
    /// Short error code shown before the message, e.g. `"E001"`.
    pub code: Option<String>,
    /// One-line summary of the problem.
    pub message: String,
    /// The primary source span and its inline label.
    pub span: SimpleSpan,
    pub label: String,
    /// Additional labelled spans.
    pub secondary: Vec<SecondaryLabel>,
    /// Free-form notes appended below the snippet.
    pub notes: Vec<String>,
    /// A `help:` suggestion appended below the snippet.
    pub help: Option<String>,
    /// Path to the source file this span belongs to.
    pub source_path: Option<String>,
}

/// The mathematical counterpart of [`LakeError`].
#[verifier::ext_equal]
pub struct ErrorV {
    pub code: Option<Text>,
    pub message: Text,
    pub span: SimpleSpan,
    pub label: Text,
    pub secondary: Seq<SecondaryLabelV>,
    pub notes: Seq<Text>,
    pub help: Option<Text>,
    pub source_path: Option<Text>,
}

impl DeepView for LakeError {
    type V = ErrorV;

    open spec fn deep_view(&self) -> ErrorV {
        ErrorV {
            code: self.code.deep_view(),
            message: self.message@,
            span: self.span,
            label: self.label@,
            secondary: self.secondary.deep_view(),
            notes: self.notes.deep_view(),
            help: self.help.deep_view(),
            source_path: self.source_path.deep_view(),
        }
    }
}

/// An error that is a headline at a span, and nothing more.
pub open spec fn plain_error(message: Text, span: SimpleSpan) -> ErrorV {
    ErrorV {
        code: None,
        message,
        span,
        label: message,
        secondary: Seq::empty(),
        notes: Seq::empty(),
        help: None,
        source_path: None,
    }
}

/// A plain error with a code.
pub open spec fn coded_error(message: Text, span: SimpleSpan, code: Text) -> ErrorV {
    ErrorV { code: Some(code), ..plain_error(message, span) }
}

/// A plain error with a code and a help line.
pub open spec fn helped_error(message: Text, span: SimpleSpan, code: Text, help: Text) -> ErrorV {
    ErrorV { code: Some(code), help: Some(help), ..plain_error(message, span) }
}

/// `e` with `path` as its source, unless it has one already.
pub open spec fn tagged(e: ErrorV, path: Text) -> ErrorV {
    if e.source_path is None {
        ErrorV { source_path: Some(path), ..e }
    } else {
        e
    }
}

pub open spec fn tagged_all(es: Seq<ErrorV>, path: Text) -> Seq<ErrorV> {
    Seq::new(es.len(), |i: int| tagged(es[i], path))
}

impl LakeError {
    /// Create a new error at `span` with `message` used as both the report
    /// headline and the inline span label.
    pub fn new(message: &str, span: SimpleSpan) -> (r: LakeError)
        ensures
            r.deep_view() == plain_error(message@, span),
    {
        LakeError {
            code: None,
            label: message.to_owned(),
            message: message.to_owned(),
            span,
            secondary: Vec::new(),
            notes: Vec::new(),
            help: None,
            source_path: None,
        }
    }

    /// Create a new error at `span` with separate headline and inline label.
    pub fn with_label_msg(message: &str, span: SimpleSpan, label: &str) -> (r: LakeError)
        ensures
            r.deep_view() == (ErrorV { label: label@, ..plain_error(message@, span) }),
    {
        LakeError {
            code: None,
            message: message.to_owned(),
            span,
            label: label.to_owned(),
            secondary: Vec::new(),
            notes: Vec::new(),
            help: None,
            source_path: None,
        }
    }

    /// Tag this error with the source file its span refers to.
    pub fn with_source_path(self, path: &str) -> (r: LakeError)
        ensures
            r.deep_view() == (ErrorV { source_path: Some(path@), ..self.deep_view() }),
    {
        LakeError { source_path: Some(path.to_owned()), ..self }
    }

    /// Attach an error code (e.g. `"E001"`).
    pub fn code(self, code: &str) -> (r: LakeError)
        ensures
            r.deep_view() == (ErrorV { code: Some(code@), ..self.deep_view() }),
    {
        LakeError { code: Some(code.to_owned()), ..self }
    }

    /// Add a secondary labelled span.
    pub fn secondary(self, span: SimpleSpan, msg: &str) -> (r: LakeError)
        ensures
            r.deep_view() == (ErrorV {
                secondary: self.deep_view().secondary.push(
                    SecondaryLabelV { span, message: msg@ },
                ),
                ..self.deep_view()
            }),
    {
        let mut e = self;
        e.secondary.push(SecondaryLabel::new(span, msg));
        proof {
            assert(e.deep_view().secondary =~= self.deep_view().secondary.push(
                SecondaryLabelV { span, message: msg@ },
            ));
        }
        e
    }

    /// Append a free-form note shown below the code snippet.
    pub fn note(self, note: &str) -> (r: LakeError)
        ensures
            r.deep_view() == (ErrorV {
                notes: self.deep_view().notes.push(note@),
                ..self.deep_view()
            }),
    {
        let mut e = self;
        e.notes.push(note.to_owned());
        proof {
            assert(e.deep_view().notes =~= self.deep_view().notes.push(note@));
        }
        e
    }

    /// Set the `help:` line shown below the code snippet.
    pub fn help(self, help: &str) -> (r: LakeError)
        ensures
            r.deep_view() == (ErrorV { help: Some(help@), ..self.deep_view() }),
    {
        LakeError { help: Some(help.to_owned()), ..self }
    }

    /// The diagnostic of a syntax error: its reason at its span, and one
    /// secondary label per construct that was being parsed.
    pub fn from_rich(err: &SyntaxError) -> (r: LakeError)
        ensures
            r.deep_view() == syntax_diagnostic(err.deep_view()),
    {
        let mut e = LakeError::new(err.reason.as_str(), err.span);
        let mut i: usize = 0;
        proof {
            assert(e.deep_view().secondary =~= context_labels(err.deep_view().contexts.take(0)));
        }
        while i < err.contexts.len()
            invariant
                i <= err.contexts.len(),
                e.deep_view() == (ErrorV {
                    secondary: context_labels(err.deep_view().contexts.take(i as int)),
                    ..plain_error(err.reason@, err.span)
                }),
            decreases err.contexts.len() - i,
        {
            let mut msg = "while parsing this ".to_owned();
            msg.append(err.contexts[i].1.as_str());
            let ghost before = e.deep_view().secondary;
            e = e.secondary(err.contexts[i].0, msg.as_str());
            proof {
                assert(e.deep_view().secondary =~= context_labels(
                    err.deep_view().contexts.take(i + 1),
                ));
            }
            i = i + 1;
        }
        proof {
            assert(err.deep_view().contexts.take(i as int) =~= err.deep_view().contexts);
        }
        e
    }

    /// The summary of the problem.
    pub fn to_string(&self) -> (r: String)
        ensures
            r@ == self.deep_view().message,
    {
        self.message.clone()
    }

    /// What to show of this diagnostic against the text `src` of the file
    /// `path`: nothing when it belongs to another file, otherwise the report
    /// with every span brought inside `src`.
    pub fn display(&self, src: &str, path: &str) -> (r: Option<Report>)
        ensures
            r.deep_view() == report_on(self.deep_view(), src@, path@),
    {
        if let Some(tag) = &self.source_path {
            if !same(tag.as_str(), path) {
                return None;
            }
        }
        Some(self.report(src, path))
    }

    fn report(&self, src: &str, path: &str) -> (r: Report)
        ensures
            r.deep_view() == report_against(self.deep_view(), src@, path@),
    {
        let mut secondary: Vec<SecondaryLabel> = Vec::new();
        let mut i: usize = 0;
        while i < self.secondary.len()
            invariant
                i <= self.secondary.len(),
                secondary@.len() == i,
                forall|j: int|
                    0 <= j < i ==> (#[trigger] secondary@[j]).deep_view() == (SecondaryLabelV {
                        span: clamped(self.secondary@[j].span, src@),
                        message: self.secondary@[j].message@,
                    }),
            decreases self.secondary.len() - i,
        {
            let span = clamp_span(self.secondary[i].span, src);
            secondary.push(SecondaryLabel { span, message: self.secondary[i].message.clone() });
            i = i + 1;
        }
        let r = Report {
            file: path.to_owned(),
            code: dup_opt_text(&self.code),
            message: self.message.clone(),
            primary: clamp_span(self.span, src),
            label: self.label.clone(),
            secondary,
            notes: crate::text::dup_texts(&self.notes),
            help: dup_opt_text(&self.help),
        };
        proof {
            let want = report_against(self.deep_view(), src@, path@);
            assert(r.deep_view().secondary =~= want.secondary);
        }
        r
    }
}

fn dup_opt_text(o: &Option<String>) -> (r: Option<String>)
    ensures
        r.deep_view() == o.deep_view(),
{
    match o {
        Some(s) => Some(s.clone()),
        None => None,
    }
}

/// A failed lexing or parsing attempt.
#[derive(Debug, Clone, PartialEq)]
pub struct SyntaxError {
    /// What was found and what would have been accepted.
    pub reason: String,
    pub span: SimpleSpan,
    /// The constructs that were being parsed, innermost first.
    pub contexts: Vec<(SimpleSpan, String)>,
}

#[verifier::ext_equal]
pub struct SyntaxErrorV {
    pub reason: Text,
    pub span: SimpleSpan,
    pub contexts: Seq<(SimpleSpan, Text)>,
}

impl DeepView for SyntaxError {
    type V = SyntaxErrorV;

    open spec fn deep_view(&self) -> SyntaxErrorV {
        SyntaxErrorV {
            reason: self.reason@,
            span: self.span,
            contexts: Seq::new(
                self.contexts@.len(),
                |i: int| (self.contexts@[i].0, self.contexts@[i].1@),
            ),
        }
    }
}

pub open spec fn context_labels(contexts: Seq<(SimpleSpan, Text)>) -> Seq<SecondaryLabelV> {
    Seq::new(
        contexts.len(),
        |i: int|
            SecondaryLabelV {
                span: contexts[i].0,
                message: "while parsing this "@ + contexts[i].1,
            },
    )
}

/// The diagnostic of a syntax error.
pub open spec fn syntax_diagnostic(e: SyntaxErrorV) -> ErrorV {
    ErrorV { secondary: context_labels(e.contexts), ..plain_error(e.reason, e.span) }
}

/// A diagnostic made ready for printing: every span lies on character
/// boundaries of the text it is printed against.
#[derive(Debug, Clone, PartialEq)]
pub struct Report {
    pub file: String,
    pub code: Option<String>,
    pub message: String,
    pub primary: SimpleSpan,
    pub label: String,
    pub secondary: Vec<SecondaryLabel>,
    pub notes: Vec<String>,
    pub help: Option<String>,
}

#[verifier::ext_equal]
pub struct ReportV {
    pub file: Text,
    pub code: Option<Text>,
    pub message: Text,
    pub primary: SimpleSpan,
    pub label: Text,
    pub secondary: Seq<SecondaryLabelV>,
    pub notes: Seq<Text>,
    pub help: Option<Text>,
}

impl DeepView for Report {
    type V = ReportV;

    open spec fn deep_view(&self) -> ReportV {
        ReportV {
            file: self.file@,
            code: self.code.deep_view(),
            message: self.message@,
            primary: self.primary,
            label: self.label@,
            secondary: self.secondary.deep_view(),
            notes: self.notes.deep_view(),
            help: self.help.deep_view(),
        }
    }
}

/// The report of an error against one file, whichever file it is tagged with.
pub open spec fn report_against(e: ErrorV, src: Text, path: Text) -> ReportV {
    ReportV {
        file: path,
        code: e.code,
        message: e.message,
        primary: clamped(e.span, src),
        label: e.label,
        secondary: Seq::new(
            e.secondary.len(),
            |i: int|
                SecondaryLabelV {
                    span: clamped(e.secondary[i].span, src),
                    message: e.secondary[i].message,
                },
        ),
        notes: e.notes,
        help: e.help,
    }
}

/// The report of an error against one file: none if the error is tagged with
/// another file.
pub open spec fn report_on(e: ErrorV, src: Text, path: Text) -> Option<ReportV> {
    if e.source_path is Some && e.source_path->0 != path {
        None
    } else {
        Some(report_against(e, src, path))
    }
}

/// The first character boundary of `src` at or after `at`, or its end.
pub open spec fn snapped(src: Text, at: int) -> int
    decreases vstd::utf8::encode_utf8(src).len() - at,
{
    let len = vstd::utf8::encode_utf8(src).len();
    if at >= len {
        len as int
    } else if vstd::utf8::is_char_boundary(vstd::utf8::encode_utf8(src), at) {
        at
    } else {
        snapped(src, at + 1)
    }
}

/// `span` brought inside `src`: both ends at most its length, the end not
/// before the start, each moved up to a character boundary.
pub open spec fn clamped(span: SimpleSpan, src: Text) -> SimpleSpan {
    let len = vstd::utf8::encode_utf8(src).len();
    let end = if span.end < span.start {
        span.start
    } else {
        span.end
    };
    SimpleSpan {
        start: snapped(src, span.start as int) as usize,
        end: snapped(src, end as int) as usize,
    }
}

fn snap(src: &str, at: usize) -> (r: usize)
    ensures
        r == snapped(src@, at as int),
        r <= src.spec_bytes().len(),
{
    let len: usize = src.as_bytes().len();
    if at >= len {
        return len;
    }
    let mut i: usize = at;
    while i < len && !src.is_char_boundary(i)
        invariant
            i <= len,
            len == src.spec_bytes().len(),
            snapped(src@, at as int) == snapped(src@, i as int),
        decreases len - i,
    {
        i = i + 1;
    }
    i
}

/// Snap a byte span to valid char boundaries within `src` and clamp it
/// to the source length.
pub fn clamp_span(span: SimpleSpan, src: &str) -> (r: SimpleSpan)
    ensures
        r == clamped(span, src@),
{
    let end: usize = if span.end < span.start {
        span.start
    } else {
        span.end
    };
    SimpleSpan { start: snap(src, span.start), end: snap(src, end) }
}

proof fn snapped_is_boundary(src: Text, at: int)
    requires
        0 <= at,
    ensures
        snapped(src, at) <= vstd::utf8::encode_utf8(src).len(),
        snapped(src, at) == vstd::utf8::encode_utf8(src).len() || vstd::utf8::is_char_boundary(
            vstd::utf8::encode_utf8(src),
            snapped(src, at),
        ),
        at <= vstd::utf8::encode_utf8(src).len() ==> snapped(src, at) >= at,
        forall|k: int|
            at <= k < snapped(src, at) ==> !vstd::utf8::is_char_boundary(vstd::utf8::encode_utf8(src), k),
    decreases vstd::utf8::encode_utf8(src).len() - at,
{
    let len = vstd::utf8::encode_utf8(src).len();
    if at < len && !vstd::utf8::is_char_boundary(vstd::utf8::encode_utf8(src), at) {
        snapped_is_boundary(src, at + 1);
    }
}

proof fn snapped_is_monotone(src: Text, a: int, b: int)
    requires
        0 <= a <= b,
    ensures
        snapped(src, a) <= snapped(src, b),
    decreases vstd::utf8::encode_utf8(src).len() - a,
{
    snapped_is_boundary(src, a);
    snapped_is_boundary(src, b);
    let len = vstd::utf8::encode_utf8(src).len();
    if a < len && !vstd::utf8::is_char_boundary(vstd::utf8::encode_utf8(src), a) && a < b {
        snapped_is_monotone(src, a + 1, b);
    }
}

/// Whatever the span, its clamped form lies inside the text, in order, and
/// both its ends are character boundaries (or the end of the text).
pub proof fn clamped_span_is_printable(span: SimpleSpan, src: Text)
    requires
        vstd::utf8::encode_utf8(src).len() <= usize::MAX,
    ensures
        clamped(span, src).start <= clamped(span, src).end,
        clamped(span, src).end <= vstd::utf8::encode_utf8(src).len(),
        clamped(span, src).start == vstd::utf8::encode_utf8(src).len() || vstd::utf8::is_char_boundary(
            vstd::utf8::encode_utf8(src),
            clamped(span, src).start as int,
        ),
        clamped(span, src).end == vstd::utf8::encode_utf8(src).len() || vstd::utf8::is_char_boundary(
            vstd::utf8::encode_utf8(src),
            clamped(span, src).end as int,
        ),
{
    let end = if span.end < span.start {
        span.start
    } else {
        span.end
    };
    snapped_is_boundary(src, span.start as int);
    snapped_is_boundary(src, end as int);
    snapped_is_monotone(src, span.start as int, end as int);
}

/// A collection of `LakeError`s from a single compilation unit.
#[derive(Debug, Clone, PartialEq)]
pub struct LakeErrors(pub Vec<LakeError>);

impl DeepView for LakeErrors {
    type V = Seq<ErrorV>;

    open spec fn deep_view(&self) -> Seq<ErrorV> {
        self.0.deep_view()
    }
}

/// The reports of `es[..n]` against one file, in order.
pub open spec fn reports_on(es: Seq<ErrorV>, src: Text, path: Text, n: nat) -> Seq<ReportV>
    decreases n,
{
    if n == 0 {
        Seq::empty()
    } else {
        let rest = reports_on(es, src, path, (n - 1) as nat);
        match report_on(es[n - 1], src, path) {
            Some(r) => rest.push(r),
            None => rest,
        }
    }
}

/// The file among `files` (path and text) that an error is shown against:
/// the one it is tagged with, or else the first.
pub open spec fn routed(e: ErrorV, files: Seq<(Text, Text)>) -> Option<int> {
    if e.source_path is Some && (exists|i: int|
        0 <= i < files.len() && #[trigger] files[i].0 == e.source_path->0) {
        Some(first_file(files, e.source_path->0, 0))
    } else if files.len() > 0 {
        Some(0)
    } else {
        None
    }
}

/// The first index from `from` on of a file named `path`.
pub open spec fn first_file(files: Seq<(Text, Text)>, path: Text, from: int) -> int
    decreases files.len() - from,
{
    if from >= files.len() || files[from].0 == path {
        from
    } else {
        first_file(files, path, from + 1)
    }
}

/// The report of an error against the file it is routed to.  Where there are
/// no files, an error without a tag is shown against an empty text.
pub open spec fn report_among(e: ErrorV, files: Seq<(Text, Text)>) -> Option<ReportV> {
    match routed(e, files) {
        Some(k) => Some(report_against(e, files[k].1, files[k].0)),
        None => report_on(e, Seq::empty(), "<unknown>"@),
    }
}

/// The reports of `es[..n]`, each against the file it is routed to.
pub open spec fn reports_among(es: Seq<ErrorV>, files: Seq<(Text, Text)>, n: nat) -> Seq<ReportV>
    decreases n,
{
    if n == 0 {
        Seq::empty()
    } else {
        let rest = reports_among(es, files, (n - 1) as nat);
        match report_among(es[n - 1], files) {
            Some(r) => rest.push(r),
            None => rest,
        }
    }
}

/// An error whose file is among the given ones is shown against that file.
pub proof fn errors_go_to_their_files(e: ErrorV, files: Seq<(Text, Text)>, i: int)
    requires
        0 <= i < files.len(),
        e.source_path == Some(files[i].0),
    ensures
        report_among(e, files) is Some,
        report_among(e, files)->0.file == files[i].0,
{
    assert(files[i].0 == e.source_path->0);
    first_file_is_named(files, files[i].0, 0, i);
}

proof fn first_file_is_named(files: Seq<(Text, Text)>, path: Text, from: int, at: int)
    requires
        0 <= from <= at < files.len(),
        files[at].0 == path,
    ensures
        from <= first_file(files, path, from) <= at,
        files[first_file(files, path, from)].0 == path,
    decreases at - from,
{
    if files[from].0 != path {
        first_file_is_named(files, path, from + 1, at);
    }
}

impl LakeErrors {
    pub fn new(errors: Vec<LakeError>) -> (r: LakeErrors)
        ensures
            r.0 == errors,
    {
        LakeErrors(errors)
    }

    pub fn push(&mut self, err: LakeError)
        ensures
            final(self).0@ == old(self).0@.push(err),
            final(self).deep_view() == old(self).deep_view().push(err.deep_view()),
    {
        self.0.push(err);
        proof {
            assert(self.deep_view() =~= old(self).deep_view().push(err.deep_view()));
        }
    }

    pub fn is_empty(&self) -> (r: bool)
        ensures
            r == (self.deep_view().len() == 0),
    {
        self.0.len() == 0
    }

    pub fn len(&self) -> (r: usize)
        ensures
            r == self.deep_view().len(),
    {
        self.0.len()
    }

    pub fn extend(&mut self, other: LakeErrors)
        ensures
            final(self).deep_view() == old(self).deep_view() + other.deep_view(),
    {
        let mut other = other;
        let ghost o = other.deep_view();
        self.0.append(&mut other.0);
        proof {
            assert(self.deep_view() =~= old(self).deep_view() + o);
        }
    }

    /// The errors, in order.
    pub fn into_vec(self) -> (r: Vec<LakeError>)
        ensures
            r == self.0,
    {
        self.0
    }

    /// What to show of all diagnostics against one file.
    pub fn display(&self, src: &str, path: &str) -> (r: Vec<Report>)
        ensures
            r.deep_view() == reports_on(
                self.deep_view(),
                src@,
                path@,
                self.deep_view().len(),
            ),
    {
        let mut out: Vec<Report> = Vec::new();
        let mut i: usize = 0;
        proof {
            assert(out.deep_view() =~= Seq::<ReportV>::empty());
        }
        while i < self.0.len()
            invariant
                i <= self.0.len(),
                out.deep_view() == reports_on(self.deep_view(), src@, path@, i as nat),
            decreases self.0.len() - i,
        {
            if let Some(rep) = self.0[i].display(src, path) {
                let ghost before = out.deep_view();
                out.push(rep);
                proof {
                    assert(out.deep_view() =~= before.push(rep.deep_view()));
                }
            }
            i = i + 1;
        }
        out
    }

    /// Tag every untagged error with `path`.  Errors already carrying a
    /// `source_path` are left alone.
    pub fn tag_source_path(self, path: &str) -> (r: LakeErrors)
        ensures
            r.deep_view() == tagged_all(self.deep_view(), path@),
    {
        let mut out: Vec<LakeError> = Vec::new();
        let ghost es = self.0@;
        let ghost ev = self.deep_view();
        for e in it: self.0
            invariant
                it.seq() == es,
                ev.len() == es.len(),
                forall|j: int| 0 <= j < es.len() ==> #[trigger] ev[j] == es[j].deep_view(),
                out@.len() == it.index(),
                forall|j: int|
                    0 <= j < it.index() ==> (#[trigger] out@[j]).deep_view() == tagged(
                        ev[j],
                        path@,
                    ),
        {
            out.push(tag_error(e, path));
        }
        proof {
            assert(out.deep_view() =~= tagged_all(ev, path@));
        }
        LakeErrors(out)
    }

    /// What to show of all diagnostics against several files (path and text):
    /// each against the file it is tagged with, or against the first one when
    /// it has no tag or an unknown one.
    pub fn display_multi(&self, files: &Vec<(String, String)>) -> (r: Vec<Report>)
        ensures
            r.deep_view() == reports_among(
                self.deep_view(),
                files.deep_view(),
                self.deep_view().len(),
            ),
    {
        let mut out: Vec<Report> = Vec::new();
        let mut i: usize = 0;
        proof {
            assert(out.deep_view() =~= Seq::<ReportV>::empty());
        }
        while i < self.0.len()
            invariant
                i <= self.0.len(),
                out.deep_view() == reports_among(self.deep_view(), files.deep_view(), i as nat),
            decreases self.0.len() - i,
        {
            if let Some(rep) = report_multi(&self.0[i], files) {
                let ghost before = out.deep_view();
                out.push(rep);
                proof {
                    assert(out.deep_view() =~= before.push(rep.deep_view()));
                }
            }
            i = i + 1;
        }
        out
    }

    /// The diagnostics of syntax errors.
    pub fn from_rich_vec(errs: &Vec<SyntaxError>) -> (r: LakeErrors)
        ensures
            r.deep_view() == Seq::new(
                errs@.len(),
                |i: int| syntax_diagnostic(errs@[i].deep_view()),
            ),
    {
        let mut out: Vec<LakeError> = Vec::new();
        let mut i: usize = 0;
        while i < errs.len()
            invariant
                i <= errs.len(),
                out@.len() == i,
                forall|j: int|
                    0 <= j < i ==> (#[trigger] out@[j]).deep_view() == syntax_diagnostic(
                        errs@[j].deep_view(),
                    ),
            decreases errs.len() - i,
        {
            out.push(LakeError::from_rich(&errs[i]));
            i = i + 1;
        }
        let r = LakeErrors(out);
        proof {
            assert(r.deep_view() =~= Seq::new(
                errs@.len(),
                |i: int| syntax_diagnostic(errs@[i].deep_view()),
            ));
        }
        r
    }

    /// The diagnostics of lexer errors, each with code `L001`.
    pub fn from_lex_errs(errs: &Vec<SyntaxError>) -> (r: LakeErrors)
        ensures
            r.deep_view() == coded_diagnostics(errs@, "L001"@),
    {
        coded(errs, "L001")
    }

    /// The diagnostics of parser errors, each with code `P001`.
    pub fn from_parse_errs(errs: &Vec<SyntaxError>) -> (r: LakeErrors)
        ensures
            r.deep_view() == coded_diagnostics(errs@, "P001"@),
    {
        coded(errs, "P001")
    }

    /// The messages, one per line.
    pub fn to_string(&self) -> (r: String)
        ensures
            r@ == messages_text(self.deep_view(), self.deep_view().len()),
    {
        let mut out = String::new();
        let mut i: usize = 0;
        while i < self.0.len()
            invariant
                i <= self.0.len(),
                out@ == messages_text(self.deep_view(), i as nat),
            decreases self.0.len() - i,
        {
            out.append(self.0[i].message.as_str());
            out.append("\n");
            i = i + 1;
        }
        out
    }
}

/// The first `n` messages, each followed by a line break.
pub open spec fn messages_text(es: Seq<ErrorV>, n: nat) -> Text
    decreases n,
{
    if n == 0 {
        Seq::empty()
    } else {
        messages_text(es, (n - 1) as nat) + es[n - 1].message + "\n"@
    }
}

/// Syntax diagnostics that carry a code.
pub open spec fn coded_diagnostics(errs: Seq<SyntaxError>, code: Text) -> Seq<ErrorV> {
    Seq::new(
        errs.len(),
        |i: int| ErrorV { code: Some(code), ..syntax_diagnostic(errs[i].deep_view()) },
    )
}

fn coded(errs: &Vec<SyntaxError>, code: &str) -> (r: LakeErrors)
    ensures
        r.deep_view() == coded_diagnostics(errs@, code@),
{
    let mut out: Vec<LakeError> = Vec::new();
    let mut i: usize = 0;
    while i < errs.len()
        invariant
            i <= errs.len(),
            out@.len() == i,
            forall|j: int|
                0 <= j < i ==> (#[trigger] out@[j]).deep_view() == (ErrorV {
                    code: Some(code@),
                    ..syntax_diagnostic(errs@[j].deep_view())
                }),
        decreases errs.len() - i,
    {
        out.push(LakeError::from_rich(&errs[i]).code(code));
        i = i + 1;
    }
    let r = LakeErrors(out);
    proof {
        assert(r.deep_view() =~= coded_diagnostics(errs@, code@));
    }
    r
}

/// `e` with `path` as its source, unless it has one already.
pub fn tag_error(e: LakeError, path: &str) -> (r: LakeError)
    ensures
        r.deep_view() == tagged(e.deep_view(), path@),
{
    match e.source_path {
        Some(_) => e,
        None => e.with_source_path(path),
    }
}

fn report_multi(e: &LakeError, files: &Vec<(String, String)>) -> (r: Option<Report>)
    ensures
        r.deep_view() == report_among(e.deep_view(), files.deep_view()),
{
    match route(e, files) {
        Some(k) => {
            proof {
                assert(files.deep_view()[k as int] == (files@[k as int].0@, files@[k as int].1@));
            }
            Some(e.report(files[k].1.as_str(), files[k].0.as_str()))
        },
        None => {
            proof {
                reveal_strlit("");
                assert(""@ =~= Seq::<char>::empty());
            }
            e.display("", "<unknown>")
        },
    }
}

fn route(e: &LakeError, files: &Vec<(String, String)>) -> (r: Option<usize>)
    ensures
        match r {
            Some(k) => k < files@.len() && routed(e.deep_view(), files.deep_view()) == Some(
                k as int,
            ),
            None => routed(e.deep_view(), files.deep_view()) is None,
        },
{
    let ghost fs = files.deep_view();
    proof {
        assert(fs.len() == files@.len());
    }
    if let Some(tag) = &e.source_path {
        let mut i: usize = 0;
        while i < files.len()
            invariant
                i <= files.len(),
                fs == files.deep_view(),
                fs.len() == files@.len(),
                first_file(fs, tag@, 0) == first_file(fs, tag@, i as int),
                e.deep_view().source_path == Some(tag@),
                forall|j: int| 0 <= j < i ==> (#[trigger] fs[j]).0 != tag@,
            decreases files.len() - i,
        {
            proof {
                assert(fs[i as int] == (files@[i as int].0@, files@[i as int].1@));
            }
            if same(files[i].0.as_str(), tag.as_str()) {
                proof {
                    assert(fs[i as int].0 == e.deep_view().source_path->0);
                }
                return Some(i);
            }
            i = i + 1;
        }
    }
    if files.len() > 0 {
        Some(0)
    } else {
        None
    }
}

} // verus!
