//! What is reported, and against which file.

use vstd::prelude::*;

use crate::error_handle;
use crate::error_handle::{ErrorV, ReportV};
use crate::loader;
use crate::loader::FileV;
use crate::order::{picks, picks_last, picks_not_last};
use crate::prelude;
use crate::span::SimpleSpan;
use crate::text::Text;

verus! {

// ── places ─────────────────────────────────────────────────────────────────

/// Whether `x` is the first place of a text from `at` on where a character
/// begins, or its end.
pub open spec fn is_first_boundary(src: Text, at: int, x: int) -> bool {
    let bytes = vstd::utf8::encode_utf8(src);
    &&& x <= bytes.len()
    &&& x == bytes.len() || (at <= x && vstd::utf8::is_char_boundary(bytes, x))
    &&& forall|y: int| at <= y < x ==> !#[trigger] vstd::utf8::is_char_boundary(bytes, y)
}

/// Whether a span is shown as `shown`: from where the first character from its
/// beginning on begins to where the first from its end on does.
pub open spec fn is_shown_span(src: Text, span: SimpleSpan, shown: SimpleSpan) -> bool {
    &&& is_first_boundary(src, span.start as int, shown.start as int)
    &&& is_first_boundary(
        src,
        if span.start <= span.end {
            span.end as int
        } else {
            span.start as int
        },
        shown.end as int,
    )
}

/// Whether a report says what an error says, against a file.
pub open spec fn says_error(r: ReportV, e: ErrorV, src: Text, path: Text) -> bool {
    &&& r.file == path
    &&& r.code == e.code
    &&& r.message == e.message
    &&& r.label == e.label
    &&& r.notes == e.notes
    &&& r.help == e.help
    &&& is_shown_span(src, e.span, r.primary)
    &&& r.secondary.len() == e.secondary.len()
    &&& forall|i: int|
        0 <= i < e.secondary.len() ==> {
            &&& r.secondary[i].message == (#[trigger] e.secondary[i]).message
            &&& is_shown_span(src, e.secondary[i].span, r.secondary[i].span)
        }
}

proof fn snapping_finds_the_first(src: Text, at: int)
    requires
        at >= 0,
    ensures
        is_first_boundary(src, at, error_handle::snapped(src, at)),
        0 <= error_handle::snapped(src, at) <= vstd::utf8::encode_utf8(src).len(),
    decreases vstd::utf8::encode_utf8(src).len() - at,
{
    let bytes = vstd::utf8::encode_utf8(src);
    if at < bytes.len() && !vstd::utf8::is_char_boundary(bytes, at) {
        snapping_finds_the_first(src, at + 1);
        let x = error_handle::snapped(src, at);
        assert forall|y: int| at <= y < x implies !#[trigger] vstd::utf8::is_char_boundary(
            bytes,
            y,
        ) by {}
    }
}

proof fn spans_are_shown(src: Text, span: SimpleSpan)
    requires
        vstd::utf8::encode_utf8(src).len() <= usize::MAX,
    ensures
        is_shown_span(src, span, error_handle::clamped(span, src)),
{
    snapping_finds_the_first(src, span.start as int);
    snapping_finds_the_first(src, span.end as int);
}

/// A report says what its error says, each place of it moved on to where a
/// character begins.
pub proof fn reports_say_their_error(e: ErrorV, src: Text, path: Text)
    requires
        vstd::utf8::encode_utf8(src).len() <= usize::MAX,
    ensures
        says_error(error_handle::report_against(e, src, path), e, src, path),
{
    spans_are_shown(src, e.span);
    let r = error_handle::report_against(e, src, path);
    assert forall|i: int| 0 <= i < e.secondary.len() implies {
        &&& r.secondary[i].message == (#[trigger] e.secondary[i]).message
        &&& is_shown_span(src, e.secondary[i].span, r.secondary[i].span)
    } by {
        spans_are_shown(src, e.secondary[i].span);
    }
}

// ── lists ──────────────────────────────────────────────────────────────────

/// Which errors may be about a file: those that are about no other.
pub open spec fn about(es: Seq<ErrorV>, path: Text) -> spec_fn(int) -> bool {
    |i: int| es[i].source_path is None || es[i].source_path == Some(path)
}

/// The errors that may be about a file are reported against it, in their order,
/// and no others.
pub proof fn errors_are_reported_in_order(es: Seq<ErrorV>, src: Text, path: Text, n: nat) -> (at:
    Seq<int>)
    requires
        n <= es.len(),
        vstd::utf8::encode_utf8(src).len() <= usize::MAX,
    ensures
        ({
            let out = error_handle::reports_on(es, src, path, n);
            &&& picks(at, 0, n, about(es, path))
            &&& out.len() == at.len()
            &&& forall|k: int|
                0 <= k < out.len() ==> says_error(#[trigger] out[k], es[at[k]], src, path)
        }),
    decreases n,
{
    if n == 0 {
        Seq::empty()
    } else {
        let was = errors_are_reported_in_order(es, src, path, (n - 1) as nat);
        reports_say_their_error(es[n - 1], src, path);
        if about(es, path)(n - 1) {
            picks_last(was, (n - 1) as nat, about(es, path));
            was.push(n - 1)
        } else {
            picks_not_last(was, (n - 1) as nat, about(es, path));
            was
        }
    }
}

/// Whether file `q` is the one an error is shown against: the first of its
/// name, or the first at all where there is none of its name.
pub open spec fn is_file_of(e: ErrorV, files: Seq<(Text, Text)>, q: int) -> bool {
    &&& 0 <= q < files.len()
    &&& {
        ||| {
            &&& e.source_path == Some(files[q].0)
            &&& forall|j: int| 0 <= j < q ==> (#[trigger] files[j]).0 != files[q].0
        }
        ||| q == 0 && forall|j: int|
            0 <= j < files.len() ==> e.source_path != Some((#[trigger] files[j]).0)
    }
}

proof fn files_are_found(files: Seq<(Text, Text)>, path: Text, from: int)
    requires
        0 <= from <= files.len(),
    ensures
        ({
            let q = error_handle::first_file(files, path, from);
            &&& from <= q <= files.len()
            &&& q < files.len() ==> files[q].0 == path
            &&& forall|j: int| from <= j < q ==> (#[trigger] files[j]).0 != path
        }),
    decreases files.len() - from,
{
    if from < files.len() && files[from].0 != path {
        files_are_found(files, path, from + 1);
    }
}

/// Whether a report says an error against the file that the error is about.
pub open spec fn says_in_file(r: ReportV, e: ErrorV, files: Seq<(Text, Text)>) -> bool {
    exists|q: int| #[trigger] is_file_of(e, files, q) && says_error(r, e, files[q].1, files[q].0)
}

/// Where there are files, every error is reported, in order, each against the
/// file it is about.
pub proof fn every_error_is_reported(es: Seq<ErrorV>, files: Seq<(Text, Text)>, n: nat)
    requires
        n <= es.len(),
        files.len() > 0,
        forall|i: int|
            0 <= i < files.len() ==> vstd::utf8::encode_utf8((#[trigger] files[i]).1).len()
                <= usize::MAX,
    ensures
        ({
            let out = error_handle::reports_among(es, files, n);
            &&& out.len() == n
            &&& forall|k: int| 0 <= k < n ==> says_in_file(#[trigger] out[k], es[k], files)
        }),
    decreases n,
{
    if n > 0 {
        every_error_is_reported(es, files, (n - 1) as nat);
        let e = es[n - 1];
        let q = error_handle::routed(e, files)->0;
        if e.source_path is Some {
            files_are_found(files, e.source_path->0, 0);
        }
        assert(is_file_of(e, files, q)) by {
            if e.source_path is Some && (exists|i: int|
                0 <= i < files.len() && #[trigger] files[i].0 == e.source_path->0) {
            } else {
                assert forall|j: int| 0 <= j < files.len() implies e.source_path != Some(
                    (#[trigger] files[j]).0,
                ) by {
                    assert(files[j].0 == files[j].0);
                }
            }
        }
        reports_say_their_error(e, files[q].1, files[q].0);
        assert(says_in_file(error_handle::report_among(e, files)->0, e, files));
    }
}

// ── files ──────────────────────────────────────────────────────────────────

/// Which files parse.
pub open spec fn parsing(files: Seq<FileV>) -> spec_fn(int) -> bool {
    |i: int| prelude::parse_result(files[i].src) is Ok
}

/// Which files do not parse.
pub open spec fn failing(files: Seq<FileV>) -> spec_fn(int) -> bool {
    |i: int| prelude::parse_result(files[i].src) is Err
}

/// The files that parse become modules, in their order, each with what its text
/// holds, under its path and its name; the errors of the others are kept by
/// their names.
pub proof fn files_become_modules(files: Seq<FileV>, n: nat) -> (r: (Seq<int>, Seq<int>))
    requires
        n <= files.len(),
    ensures
        ({
            let (ms, errs) = loader::parsed_files(files, n);
            &&& picks(r.0, 0, n, parsing(files))
            &&& ms.len() == r.0.len()
            &&& forall|k: int|
                0 <= k < ms.len() ==> (#[trigger] ms[k]).path == files[r.0[k]].path
                    && ms[k].source_path == files[r.0[k]].source_path
                    && prelude::parse_result(files[r.0[k]].src) == Ok::<_, Seq<ErrorV>>(ms[k].ast)
            &&& picks(r.1, 0, n, failing(files))
            &&& errs.len() == r.1.len()
            &&& forall|k: int|
                0 <= k < errs.len() ==> (#[trigger] errs[k]).0 == files[r.1[k]].source_path
                    && prelude::parse_result(files[r.1[k]].src) is Err
                    && prelude::parse_result(files[r.1[k]].src)->Err_0 == errs[k].1
        }),
    decreases n,
{
    if n == 0 {
        (Seq::empty(), Seq::empty())
    } else {
        let (a, b) = files_become_modules(files, (n - 1) as nat);
        if parsing(files)(n - 1) {
            picks_last(a, (n - 1) as nat, parsing(files));
            picks_not_last(b, (n - 1) as nat, failing(files));
            (a.push(n - 1), b)
        } else {
            picks_not_last(a, (n - 1) as nat, parsing(files));
            picks_last(b, (n - 1) as nat, failing(files));
            (a, b.push(n - 1))
        }
    }
}

/// Every error of every file that does not parse is kept, with the name of the
/// file it is in unless it has one.
pub proof fn errors_keep_their_file(
    per_file: Seq<(Text, Seq<ErrorV>)>,
    n: nat,
    k: int,
    i: int,
)
    requires
        0 <= k < n <= per_file.len(),
        0 <= i < per_file[k].1.len(),
    ensures
        exists|x: int|
            {
                let e = per_file[k].1[i];
                let out = prelude::flattened(per_file, n);
                &&& 0 <= x < out.len()
                &&& (#[trigger] prelude::flattened(per_file, n)[x]) == (ErrorV {
                    source_path: if e.source_path is None {
                        Some(per_file[k].0)
                    } else {
                        e.source_path
                    },
                    ..e
                })
            },
    decreases n,
{
    let before = prelude::flattened(per_file, (n - 1) as nat);
    let all = prelude::flattened(per_file, n);
    if k == n - 1 {
        assert(all[before.len() + i] == error_handle::tagged(per_file[k].1[i], per_file[k].0));
    } else {
        errors_keep_their_file(per_file, (n - 1) as nat, k, i);
        let e = per_file[k].1[i];
        let x = choose|x: int|
            {
                &&& 0 <= x < before.len()
                &&& (#[trigger] before[x]) == (ErrorV {
                    source_path: if e.source_path is None {
                        Some(per_file[k].0)
                    } else {
                        e.source_path
                    },
                    ..e
                })
            };
        assert(all[x] == before[x]);
    }
}

} // verus!
