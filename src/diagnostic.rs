//! The sink that collects warnings and errors, and an in-memory recorder.

use vstd::prelude::*;
use vstd::string::*;
use proc_macro2::Span;
use crate::outside::span_label;
use crate::text::str_views;

verus! {

/// Receives the warnings and errors of a run.
pub trait Diagnostic {
    /// Records a warning.
    fn emit_warning(&mut self, span: Span, message: String);

    /// Records an error.
    fn emit_error(&mut self, span: Span, message: String);

    /// Checkpoint after a phase: a sink may stop the run here when an error
    /// was recorded.
    fn should_abort_if_dirty(&mut self);
}

/// Records warnings and errors as text, `<location>: <message>`.
///
/// After a checkpoint that found an error nothing more is recorded.
#[derive(Debug)]
pub struct Simulated {
    aborted: bool,
    warnings: Vec<String>,
    errors: Vec<String>,
}

/// Whether `s` ends with `suffix`.
pub open spec fn ends_with(s: Seq<char>, suffix: Seq<char>) -> bool {
    s.len() >= suffix.len() && s.subrange(s.len() - suffix.len(), s.len() as int) == suffix
}

/// Whether the recorded `entries` are, in order, some location followed by
/// `": "` and each of `texts`.
pub open spec fn labelled(entries: Seq<Seq<char>>, texts: Seq<Seq<char>>) -> bool {
    entries.len() == texts.len() && forall|i: int| 0 <= i < entries.len() ==> ends_with(#[trigger] entries[i], ": "@ + texts[i])
}

/// After one more entry that ends with `": "` and `text`, the entries are
/// labelled by the texts with `text` added.
pub proof fn lemma_labelled_push(entries: Seq<Seq<char>>, texts: Seq<Seq<char>>, next: Seq<Seq<char>>, text: Seq<char>)
    requires
        labelled(entries, texts),
        next.len() == entries.len() + 1,
        next.drop_last() == entries,
        ends_with(next.last(), ": "@ + text),
    ensures
        labelled(next, texts.push(text)),
{
    assert forall|i: int| 0 <= i < next.len() implies ends_with(#[trigger] next[i], ": "@ + texts.push(text)[i]) by {
        if i < entries.len() {
            assert(next[i] == next.drop_last()[i]);
        }
    }
}

/// Whether `have` holds exactly the texts of `want`, in order.
pub open spec fn same_texts(have: Seq<Seq<char>>, want: Seq<&str>) -> bool {
    have.len() == want.len() && forall|i: int| 0 <= i < have.len() ==> have[i] == #[trigger] want[i]@
}

fn texts_equal(have: &Vec<String>, want: &[&str]) -> (r: bool)
    ensures
        r == same_texts(str_views(have@), want@),
{
    if have.len() != want.len() {
        return false;
    }
    let mut i: usize = 0;
    while i < have.len()
        invariant
            i <= have.len() == want@.len(),
            forall|j: int| 0 <= j < i ==> have@[j]@ == #[trigger] want@[j]@,
        decreases have.len() - i,
    {
        let w: String = want[i].to_owned();
        if !(have[i] == w) {
            assert(str_views(have@)[i as int] != want@[i as int]@);
            return false;
        }
        i = i + 1;
    }
    true
}

impl Simulated {
    /// A recorder with nothing recorded.
    pub fn new() -> (r: Self)
        ensures
            !r.is_aborted(),
            r.warnings_view().len() == 0,
            r.errors_view().len() == 0,
    {
        Simulated { aborted: false, warnings: Vec::new(), errors: Vec::new() }
    }

    pub closed spec fn is_aborted(&self) -> bool {
        self.aborted
    }

    pub closed spec fn warnings_view(&self) -> Seq<Seq<char>> {
        str_views(self.warnings@)
    }

    pub closed spec fn errors_view(&self) -> Seq<Seq<char>> {
        str_views(self.errors@)
    }

    /// The recorded warnings.
    pub fn warnings(&self) -> (r: &Vec<String>)
        ensures
            str_views(r@) == self.warnings_view(),
    {
        &self.warnings
    }

    /// The recorded errors.
    pub fn errors(&self) -> (r: &Vec<String>)
        ensures
            str_views(r@) == self.errors_view(),
    {
        &self.errors
    }

    /// Whether nothing was recorded.
    pub fn assert_empty(&self) -> (r: bool)
        ensures
            r == (self.warnings_view().len() == 0 && self.errors_view().len() == 0),
    {
        self.warnings.len() == 0 && self.errors.len() == 0
    }

    /// Whether exactly `warnings` were recorded, in order, and no error.
    pub fn assert_warnings(&self, warnings: &[&str]) -> (r: bool)
        ensures
            r == (same_texts(self.warnings_view(), warnings@) && self.errors_view().len() == 0),
    {
        texts_equal(&self.warnings, warnings) && self.errors.len() == 0
    }

    /// Whether exactly `errors` were recorded, in order, and no warning.
    pub fn assert_errors(&self, errors: &[&str]) -> (r: bool)
        ensures
            r == (self.warnings_view().len() == 0 && same_texts(self.errors_view(), errors@)),
    {
        self.warnings.len() == 0 && texts_equal(&self.errors, errors)
    }

    /// Whether exactly `warnings` and `errors` were recorded, each in order.
    pub fn assert_reported(&self, warnings: &[&str], errors: &[&str]) -> (r: bool)
        ensures
            r == (same_texts(self.warnings_view(), warnings@) && same_texts(self.errors_view(), errors@)),
    {
        texts_equal(&self.warnings, warnings) && texts_equal(&self.errors, errors)
    }

    /// Records `message` as a warning unless recording has stopped.
    pub fn record_warning(&mut self, span: Span, message: String)
        ensures
            final(self).is_aborted() == old(self).is_aborted(),
            final(self).errors_view() == old(self).errors_view(),
            old(self).is_aborted() ==> final(self).warnings_view() == old(self).warnings_view(),
            !old(self).is_aborted() ==> final(self).warnings_view().len() == old(self).warnings_view().len() + 1
                && final(self).warnings_view().drop_last() == old(self).warnings_view()
                && ends_with(final(self).warnings_view().last(), ": "@ + message@),
    {
        if !self.aborted {
            let mut line = span_label(span);
            line.append(": ");
            line.append(message.as_str());
            self.warnings.push(line);
            proof {
                assert(str_views(self.warnings@) =~= str_views(old(self).warnings@).push(line@));
                let w = line@;
                let sfx = ": "@ + message@;
                assert(w.subrange(w.len() - sfx.len(), w.len() as int) =~= sfx);
            }
        }
    }

    /// Records `message` as an error unless recording has stopped.
    pub fn record_error(&mut self, span: Span, message: String)
        ensures
            final(self).is_aborted() == old(self).is_aborted(),
            final(self).warnings_view() == old(self).warnings_view(),
            old(self).is_aborted() ==> final(self).errors_view() == old(self).errors_view(),
            !old(self).is_aborted() ==> final(self).errors_view().len() == old(self).errors_view().len() + 1
                && final(self).errors_view().drop_last() == old(self).errors_view()
                && ends_with(final(self).errors_view().last(), ": "@ + message@),
    {
        if !self.aborted {
            let mut line = span_label(span);
            line.append(": ");
            line.append(message.as_str());
            self.errors.push(line);
            proof {
                assert(str_views(self.errors@) =~= str_views(old(self).errors@).push(line@));
                let w = line@;
                let sfx = ": "@ + message@;
                assert(w.subrange(w.len() - sfx.len(), w.len() as int) =~= sfx);
            }
        }
    }

    /// Runs `f` on a fresh recorder: `Ok` with its result when nothing was
    /// recorded, else the recorder.
    pub fn run<T, F: FnOnce(&mut Simulated) -> T>(f: F) -> (r: Result<T, Simulated>)
        requires
            forall|s: &mut Simulated| #[trigger] f.requires((s,)),
        ensures
            r matches Err(s) ==> s.warnings_view().len() > 0 || s.errors_view().len() > 0,
    {
        let mut recorder = Simulated::new();
        let result = f(&mut recorder);
        if recorder.assert_empty() {
            Ok(result)
        } else {
            Err(recorder)
        }
    }

    /// Stops recording when an error was recorded.
    pub fn checkpoint(&mut self)
        ensures
            final(self).is_aborted() == (old(self).is_aborted() || old(self).errors_view().len() > 0),
            final(self).warnings_view() == old(self).warnings_view(),
            final(self).errors_view() == old(self).errors_view(),
    {
        if self.errors.len() > 0 {
            self.aborted = true;
        }
    }
}

impl Diagnostic for Simulated {
    fn emit_warning(&mut self, span: Span, message: String) {
        self.record_warning(span, message);
    }

    fn emit_error(&mut self, span: Span, message: String) {
        self.record_error(span, message);
    }

    fn should_abort_if_dirty(&mut self) {
        self.checkpoint();
    }
}

} // verus!
