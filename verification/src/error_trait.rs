//! The shared diagnostic-formatting contract.
//!
//! Every stage's error type exposes a stable short code, a human title,
//! a [`Span`], an optional help text and a list of notes; one shared
//! renderer turns any of them into the same report shape:
//!
//! 1. a colored `error[code]: title` header,
//! 2. an `--> input:line:col` location line,
//! 3. a gutter showing the span's source snippet,
//! 4. a caret line whose padding equals `start_col` — the one fixed
//!    convention for every stage,
//! 5. `help:` and `note:` lines when present.
//!
//! No stage formats its own report; uniformity comes from every error
//! going through [`format_error`].

use vstd::prelude::*;
use crate::numtext::nat_text;
use crate::span::{Span, SpanView};

verus! {

/// `n` space characters.
pub open spec fn spaces(n: int) -> Seq<char>
    decreases n,
{
    if n <= 0 {
        Seq::empty()
    } else {
        spaces(n - 1).push(' ')
    }
}

/// `t` right-aligned to a width of three characters.
pub open spec fn pad3(t: Seq<char>) -> Seq<char> {
    if t.len() >= 3 {
        t
    } else {
        spaces(3 - t.len()) + t
    }
}

/// The `help:` line, when a help text is present.
pub open spec fn help_line(help: Option<Seq<char>>) -> Seq<char> {
    match help {
        Some(h) => "   \x1b[1;34m=\x1b[0m \x1b[1;33mhelp\x1b[0m: "@ + h + "\n"@,
        None => Seq::empty(),
    }
}

/// One `note:` line per note, in order.
pub open spec fn note_lines(notes: Seq<Seq<char>>) -> Seq<char>
    decreases notes,
{
    if notes.len() == 0 {
        Seq::empty()
    } else {
        note_lines(notes.drop_last()) + "   \x1b[1;34m=\x1b[0m \x1b[1;33mnote\x1b[0m: "@
            + notes.last() + "\n"@
    }
}

/// The whole rendered report for one diagnostic.
pub open spec fn spec_render(
    code: Seq<char>,
    title: Seq<char>,
    span: SpanView,
    help: Option<Seq<char>>,
    notes: Seq<Seq<char>>,
) -> Seq<char> {
    "\x1b[1;31merror\x1b[0m["@ + code + "]: "@ + title + "\n"@ + "  \x1b[1;34m-->\x1b[0m input:"@
        + nat_text(span.start_line) + ":"@ + nat_text(span.start_col) + "\n"@
        + "   \x1b[1;34m|\x1b[0m\n"@ + pad3(nat_text(span.start_line)) + " \x1b[1;34m|\x1b[0m "@
        + span.source_snippet + "\n"@ + "   \x1b[1;34m|\x1b[0m "@ + spaces(span.start_col)
        + "^\n"@ + "   \x1b[1;34m|\x1b[0m\n"@ + help_line(help) + note_lines(notes)
}

/// The text of an optional help message.
pub open spec fn opt_text_view(o: Option<String>) -> Option<Seq<char>> {
    match o {
        Some(s) => Some(s@),
        None => None,
    }
}

/// The texts of a list of notes, element by element.
pub open spec fn texts_view(v: Seq<String>) -> Seq<Seq<char>>
    decreases v,
{
    if v.len() == 0 {
        Seq::empty()
    } else {
        texts_view(v.drop_last()).push(v.last()@)
    }
}

/// What a diagnostic exposes to the shared renderer.
pub trait ErrorDisplay {
    /// The stable short code, as a mathematical value.
    spec fn spec_code(&self) -> Seq<char>;

    /// The human title, as a mathematical value.
    spec fn spec_title(&self) -> Seq<char>;

    /// The source position, as a mathematical value.
    spec fn spec_span(&self) -> SpanView;

    /// The optional help text, as a mathematical value.
    spec fn spec_help(&self) -> Option<Seq<char>>;

    /// The notes, as mathematical values.
    spec fn spec_notes(&self) -> Seq<Seq<char>>;

    /// The stable short code of this diagnostic.
    fn error_code(&self) -> (r: &'static str)
        ensures
            r@ == self.spec_code(),
    ;

    /// The human title of this diagnostic.
    fn error_title(&self) -> (r: String)
        ensures
            r@ == self.spec_title(),
    ;

    /// The source position this diagnostic points at.
    fn span<'a>(&'a self) -> (r: &'a Span)
        ensures
            r@ == self.spec_span(),
    ;

    /// The optional help text of this diagnostic.
    fn help(&self) -> (r: Option<String>)
        ensures
            opt_text_view(r) == self.spec_help(),
    ;

    /// The notes of this diagnostic, in order.
    fn notes(&self) -> (r: Vec<String>)
        ensures
            texts_view(r@) == self.spec_notes(),
    ;
}

/// A string of `n` spaces.
#[verifier::loop_isolation(false)]
fn spaces_string(n: usize) -> (r: String)
    ensures
        r@ == spaces(n as int),
{
    let mut s = String::new();
    let mut i: usize = 0;
    proof {
        assert(s@ =~= spaces(0));
    }
    while i < n
        invariant
            i <= n,
            s@ == spaces(i as int),
        decreases n - i,
    {
        s.append(" ");
        proof {
            reveal_strlit(" ");
            assert(s@ =~= spaces(i + 1));
        }
        i = i + 1;
    }
    s
}

/// Renders any diagnostic into the uniform report of [`spec_render`].
pub fn format_error<E: ErrorDisplay>(err: &E) -> (r: String)
    ensures
        r@ == spec_render(
            err.spec_code(),
            err.spec_title(),
            err.spec_span(),
            err.spec_help(),
            err.spec_notes(),
        ),
{
    let span = err.span().clone();
    let line_text = crate::numtext::u64_to_string(span.start_line as u64);
    let col_text = crate::numtext::u64_to_string(span.start_col as u64);
    let mut out = String::from_str("\x1b[1;31merror\x1b[0m[");
    out.append(err.error_code());
    out.append("]: ");
    let title = err.error_title();
    out.append(title.as_str());
    out.append("\n");
    out.append("  \x1b[1;34m-->\x1b[0m input:");
    out.append(line_text.as_str());
    out.append(":");
    out.append(col_text.as_str());
    out.append("\n");
    out.append("   \x1b[1;34m|\x1b[0m\n");
    let line_len = line_text.as_str().unicode_len();
    if line_len < 3 {
        let padding = spaces_string(3 - line_len);
        out.append(padding.as_str());
    }
    out.append(line_text.as_str());
    proof {
        assert(nat_text(span@.start_line).len() == line_text@.len());
    }
    out.append(" \x1b[1;34m|\x1b[0m ");
    out.append(span.source_snippet.as_str());
    out.append("\n");
    out.append("   \x1b[1;34m|\x1b[0m ");
    let caret_pad = spaces_string(span.start_col);
    out.append(caret_pad.as_str());
    out.append("^\n");
    out.append("   \x1b[1;34m|\x1b[0m\n");
    match err.help() {
        Some(h) => {
            out.append("   \x1b[1;34m=\x1b[0m \x1b[1;33mhelp\x1b[0m: ");
            out.append(h.as_str());
            out.append("\n");
        },
        None => {},
    }
    let notes = err.notes();
    let mut i: usize = 0;
    proof {
        assert(notes@.take(0) =~= Seq::<String>::empty());
        assert(texts_view(notes@.take(0)) =~= Seq::<Seq<char>>::empty());
        assert(out@ =~= spec_render(
            err.spec_code(),
            err.spec_title(),
            err.spec_span(),
            err.spec_help(),
            texts_view(notes@.take(0)),
        ));
    }
    while i < notes.len()
        invariant
            i <= notes@.len(),
            out@ == spec_render(
                err.spec_code(),
                err.spec_title(),
                err.spec_span(),
                err.spec_help(),
                texts_view(notes@.take(i as int)),
            ),
        decreases notes@.len() - i,
    {
        proof {
            assert(notes@.take(i + 1).drop_last() =~= notes@.take(i as int));
            assert(notes@.take(i + 1).last() == notes@[i as int]);
            assert(texts_view(notes@.take(i + 1)) == texts_view(notes@.take(i as int)).push(
                notes@[i as int]@,
            ));
            assert(texts_view(notes@.take(i + 1)).drop_last() =~= texts_view(
                notes@.take(i as int),
            ));
        }
        out.append("   \x1b[1;34m=\x1b[0m \x1b[1;33mnote\x1b[0m: ");
        let note = &notes[i];
        out.append(note.as_str());
        out.append("\n");
        proof {
            assert(out@ =~= spec_render(
                err.spec_code(),
                err.spec_title(),
                err.spec_span(),
                err.spec_help(),
                texts_view(notes@.take(i + 1)),
            ));
        }
        i = i + 1;
    }
    proof {
        assert(notes@.take(notes@.len() as int) =~= notes@);
    }
    out
}

} // verus!
