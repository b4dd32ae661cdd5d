//! Splits the template text of one message into literal and parameter pieces.
//!
//! `%{name}` is a string parameter, `*{name}` a typed one, everything else is
//! literal text. Errors are collected and scanning goes on after each one.

use vstd::prelude::*;
use vstd::string::*;
use crate::text::{chars_of, contains_str, identifier_ok, is_identifier, str_views};

verus! {

/// The two kinds of parameters of a template.
#[derive(Clone, Copy, Debug, PartialEq, Eq, Structural)]
pub enum ParamType {
    /// `%{name}`: text substituted as a string.
    Str,
    /// `*{name}`: a value of the builder's input type.
    Typed,
}

/// One unit of a tokenized template.
#[derive(Clone, Debug, PartialEq, Eq)]
pub enum Piece {
    /// Literal text.
    Text(String),
    /// A parameter, with its name and kind.
    Param(String, ParamType),
}

/// Mathematical value of a [`Piece`].
pub enum PieceView {
    Text(Seq<char>),
    Param(Seq<char>, ParamType),
}

impl View for Piece {
    type V = PieceView;

    open spec fn view(&self) -> PieceView {
        match self {
            Piece::Text(t) => PieceView::Text(t@),
            Piece::Param(n, k) => PieceView::Param(n@, *k),
        }
    }
}

/// A problem found while tokenizing one template.
#[derive(Clone, Debug, PartialEq, Eq)]
pub enum TokenProblem {
    /// The text between the braces is no identifier; the piece is dropped.
    InvalidName(String),
    /// A typed parameter name occurs a second time; the piece is dropped.
    DuplicateTyped(String),
    /// A misplaced `%{`, `*{` or `}`, or a parameter left open at the end.
    Malformed,
}

pub enum TokenProblemView {
    InvalidName(Seq<char>),
    DuplicateTyped(Seq<char>),
    Malformed,
}

impl View for TokenProblem {
    type V = TokenProblemView;

    open spec fn view(&self) -> TokenProblemView {
        match self {
            TokenProblem::InvalidName(n) => TokenProblemView::InvalidName(n@),
            TokenProblem::DuplicateTyped(n) => TokenProblemView::DuplicateTyped(n@),
            TokenProblem::Malformed => TokenProblemView::Malformed,
        }
    }
}

pub open spec fn piece_views(v: Seq<Piece>) -> Seq<PieceView> {
    v.map_values(|p: Piece| p@)
}

pub open spec fn token_problem_views(v: Seq<TokenProblem>) -> Seq<TokenProblemView> {
    v.map_values(|p: TokenProblem| p@)
}

/// State of the scanner: position, start of the current run, whether a
/// parameter is open and of which kind, whether a syntax error was seen,
/// and what was produced so far.
pub struct Scan {
    pub pos: int,
    pub start: int,
    pub in_param: bool,
    pub kind: ParamType,
    pub failed: bool,
    pub pieces: Seq<PieceView>,
    pub typed: Seq<Seq<char>>,
    pub problems: Seq<TokenProblemView>,
}

pub open spec fn scan_init() -> Scan {
    Scan {
        pos: 0,
        start: 0,
        in_param: false,
        kind: ParamType::Str,
        failed: false,
        pieces: Seq::empty(),
        typed: Seq::empty(),
        problems: Seq::empty(),
    }
}

/// Whether an opening `%{` or `*{` starts at `p`.
pub open spec fn opens_at(s: Seq<char>, p: int) -> bool {
    p + 1 < s.len() && (s[p] == '%' || s[p] == '*') && s[p + 1] == '{'
}

/// The literal run `start..p` added, when it is not empty: it extends a
/// literal piece that ends the list, else it is a new piece.
pub open spec fn with_text(pieces: Seq<PieceView>, s: Seq<char>, start: int, p: int) -> Seq<PieceView> {
    if p > start {
        if pieces.len() > 0 && pieces.last() is Text {
            pieces.drop_last().push(PieceView::Text(pieces.last()->Text_0 + s.subrange(start, p)))
        } else {
            pieces.push(PieceView::Text(s.subrange(start, p)))
        }
    } else {
        pieces
    }
}

/// No literal piece is empty and no two literal pieces are adjacent.
pub open spec fn text_runs_merged(pieces: Seq<PieceView>) -> bool {
    &&& forall|i: int| 0 <= i < pieces.len() && (#[trigger] pieces[i]) is Text ==> pieces[i]->Text_0.len() > 0
    &&& forall|i: int| 0 <= i < pieces.len() - 1 && (#[trigger] pieces[i]) is Text ==> !(pieces[i + 1] is Text)
}

proof fn lemma_with_text_merged(pieces: Seq<PieceView>, s: Seq<char>, start: int, p: int)
    requires
        text_runs_merged(pieces),
        0 <= start <= p <= s.len(),
    ensures
        text_runs_merged(with_text(pieces, s, start, p)),
{
    let r = with_text(pieces, s, start, p);
    if p > start {
        if pieces.len() > 0 && pieces.last() is Text {
            assert forall|i: int| 0 <= i < r.len() && (#[trigger] r[i]) is Text implies r[i]->Text_0.len() > 0 by {
                if i < r.len() - 1 {
                    assert(r[i] == pieces[i]);
                }
            }
            assert forall|i: int| 0 <= i < r.len() - 1 && (#[trigger] r[i]) is Text implies !(r[i + 1] is Text) by {
                assert(r[i] == pieces[i]);
                if i + 1 < r.len() - 1 {
                    assert(r[i + 1] == pieces[i + 1]);
                } else {
                    assert(pieces[i] is Text && pieces[i + 1] is Text);
                }
            }
        } else {
            assert forall|i: int| 0 <= i < r.len() && (#[trigger] r[i]) is Text implies r[i]->Text_0.len() > 0 by {
                if i < r.len() - 1 {
                    assert(r[i] == pieces[i]);
                }
            }
            assert forall|i: int| 0 <= i < r.len() - 1 && (#[trigger] r[i]) is Text implies !(r[i + 1] is Text) by {
                assert(r[i] == pieces[i]);
                if i + 1 < r.len() - 1 {
                    assert(r[i + 1] == pieces[i + 1]);
                }
            }
        }
    }
}

proof fn lemma_push_param_merged(pieces: Seq<PieceView>, name: Seq<char>, kind: ParamType)
    requires
        text_runs_merged(pieces),
    ensures
        text_runs_merged(pieces.push(PieceView::Param(name, kind))),
{
    let r = pieces.push(PieceView::Param(name, kind));
    assert forall|i: int| 0 <= i < r.len() && (#[trigger] r[i]) is Text implies r[i]->Text_0.len() > 0 by {
        assert(r[i] == pieces[i]);
    }
    assert forall|i: int| 0 <= i < r.len() - 1 && (#[trigger] r[i]) is Text implies !(r[i + 1] is Text) by {
        assert(r[i] == pieces[i]);
        if i + 1 < r.len() - 1 {
            assert(r[i + 1] == pieces[i + 1]);
        }
    }
}

/// Every parameter piece names a valid identifier.
pub open spec fn params_are_identifiers(pieces: Seq<PieceView>) -> bool {
    forall|i: int| 0 <= i < pieces.len() && (#[trigger] pieces[i]) is Param ==> is_identifier(pieces[i]->Param_0)
}

proof fn lemma_with_text_params(pieces: Seq<PieceView>, s: Seq<char>, start: int, p: int)
    requires
        params_are_identifiers(pieces),
    ensures
        params_are_identifiers(with_text(pieces, s, start, p)),
{
    let r = with_text(pieces, s, start, p);
    assert forall|i: int| 0 <= i < r.len() && (#[trigger] r[i]) is Param implies is_identifier(r[i]->Param_0) by {
        if p > start {
            if i < r.len() - 1 {
                assert(r[i] == pieces[i]);
            }
        } else {
            assert(r[i] == pieces[i]);
        }
    }
}

proof fn lemma_step_params(s: Seq<char>, st: Scan)
    requires
        params_are_identifiers(st.pieces),
        0 <= st.pos < s.len(),
    ensures
        params_are_identifiers(scan_step(s, st).pieces),
{
    let p = st.pos;
    if opens_at(s, p) {
        if !st.in_param {
            lemma_with_text_params(st.pieces, s, st.start, p);
        }
    } else if s[p] == '}' && st.in_param && p != st.start {
        let name = s.subrange(st.start, p);
        if is_identifier(name) && !(st.kind == ParamType::Typed && st.typed.contains(name)) {
            let r = st.pieces.push(PieceView::Param(name, st.kind));
            assert forall|i: int| 0 <= i < r.len() && (#[trigger] r[i]) is Param implies is_identifier(r[i]->Param_0) by {
                if i < r.len() - 1 {
                    assert(r[i] == st.pieces[i]);
                }
            }
        }
    }
}

/// A step of the scanner keeps literal runs merged.
proof fn lemma_step_merged(s: Seq<char>, st: Scan)
    requires
        text_runs_merged(st.pieces),
        0 <= st.start <= st.pos < s.len(),
    ensures
        text_runs_merged(scan_step(s, st).pieces),
        0 <= scan_step(s, st).start <= scan_step(s, st).pos,
{
    let p = st.pos;
    if opens_at(s, p) {
        if !st.in_param {
            lemma_with_text_merged(st.pieces, s, st.start, p);
        }
    } else if s[p] == '}' && st.in_param && p != st.start {
        let name = s.subrange(st.start, p);
        if is_identifier(name) && !(st.kind == ParamType::Typed && st.typed.contains(name)) {
            lemma_push_param_merged(st.pieces, name, st.kind);
        }
    }
}

/// One step of the scanner at position `st.pos`.
pub open spec fn scan_step(s: Seq<char>, st: Scan) -> Scan {
    let p = st.pos;
    if opens_at(s, p) {
        if st.in_param {
            Scan { failed: true, pos: p + 2, ..st }
        } else {
            Scan {
                pieces: with_text(st.pieces, s, st.start, p),
                in_param: true,
                kind: if s[p] == '%' { ParamType::Str } else { ParamType::Typed },
                pos: p + 2,
                start: p + 2,
                ..st
            }
        }
    } else if s[p] == '}' {
        if !st.in_param || p == st.start {
            Scan { failed: true, in_param: false, pos: p + 1, ..st }
        } else {
            let name = s.subrange(st.start, p);
            let next = Scan { in_param: false, pos: p + 1, start: p + 1, ..st };
            if !is_identifier(name) {
                Scan { problems: st.problems.push(TokenProblemView::InvalidName(name)), ..next }
            } else if st.kind == ParamType::Typed && st.typed.contains(name) {
                Scan { problems: st.problems.push(TokenProblemView::DuplicateTyped(name)), ..next }
            } else {
                Scan {
                    pieces: st.pieces.push(PieceView::Param(name, st.kind)),
                    typed: if st.kind == ParamType::Typed { st.typed.push(name) } else { st.typed },
                    ..next
                }
            }
        }
    } else {
        Scan { pos: p + 1, ..st }
    }
}

/// The scanner run from `st` to the end of `s`.
pub open spec fn scan_from(s: Seq<char>, st: Scan) -> Scan
    decreases s.len() - st.pos,
{
    if 0 <= st.pos < s.len() {
        let next = scan_step(s, st);
        if next.pos > st.pos {
            scan_from(s, next)
        } else {
            st
        }
    } else {
        st
    }
}

/// The final state: an open parameter is an error, a trailing run is text.
pub open spec fn scan_end(s: Seq<char>, st: Scan) -> Scan {
    if st.in_param {
        Scan { failed: true, ..st }
    } else {
        Scan { pieces: with_text(st.pieces, s, st.start, st.pos), ..st }
    }
}

/// The pieces of template `s`.
pub open spec fn tokens(s: Seq<char>) -> Seq<PieceView> {
    scan_end(s, scan_from(s, scan_init())).pieces
}

/// The problems of template `s`, in order of discovery; a syntax error is
/// reported once, last.
pub open spec fn token_problems(s: Seq<char>) -> Seq<TokenProblemView> {
    let fin = scan_end(s, scan_from(s, scan_init()));
    if fin.failed {
        fin.problems.push(TokenProblemView::Malformed)
    } else {
        fin.problems
    }
}

/// Adds the literal run `start..pos` of `line` as [`with_text`] does.
fn add_text(pieces: &mut Vec<Piece>, line: &str, start: usize, pos: usize)
    requires
        start < pos <= line@.len(),
    ensures
        piece_views(final(pieces)@) == with_text(piece_views(old(pieces)@), line@, start as int, pos as int),
{
    let t = line.substring_char(start, pos).to_owned();
    let ghost before = piece_views(pieces@);
    let n = pieces.len();
    if n > 0 {
        if let Piece::Text(_) = &pieces[n - 1] {
            let last = pieces.pop();
            if let Some(Piece::Text(mut prev)) = last {
                prev.append(t.as_str());
                pieces.push(Piece::Text(prev));
            }
            assert(piece_views(pieces@) =~= with_text(before, line@, start as int, pos as int));
            return;
        }
    }
    pieces.push(Piece::Text(t));
    assert(piece_views(pieces@) =~= with_text(before, line@, start as int, pos as int));
}

/// Tokenizes one template; the pieces and the problems are those of
/// [`tokens`] and [`token_problems`].
pub fn tokenize(line: &str) -> (r: (Vec<Piece>, Vec<TokenProblem>))
    ensures
        piece_views(r.0@) == tokens(line@),
        token_problem_views(r.1@) == token_problems(line@),
        text_runs_merged(piece_views(r.0@)),
        params_are_identifiers(piece_views(r.0@)),
        line@.len() == 0 ==> r.0@.len() == 0 && r.1@.len() == 0,
{
    let s = chars_of(line);
    let ghost gs = s@;
    let mut pieces: Vec<Piece> = Vec::new();
    let mut typed: Vec<String> = Vec::new();
    let mut problems: Vec<TokenProblem> = Vec::new();
    let mut pos: usize = 0;
    let mut start: usize = 0;
    let mut in_param = false;
    let mut kind = ParamType::Str;
    let mut failed = false;
    let ghost mut st = scan_init();
    while pos < s.len()
        invariant
            gs == line@,
            s@ == gs,
            start <= pos <= s.len(),
            st.pos == pos as int,
            st.start == start as int,
            st.in_param == in_param,
            st.kind == kind,
            st.failed == failed,
            st.pieces == piece_views(pieces@),
            st.typed == str_views(typed@),
            st.problems == token_problem_views(problems@),
            scan_from(gs, st) == scan_from(gs, scan_init()),
            text_runs_merged(st.pieces),
            params_are_identifiers(st.pieces),
        decreases s.len() - pos,
    {
        let ghost old_st = st;
        proof {
            lemma_step_merged(gs, st);
            lemma_step_params(gs, st);
            st = scan_step(gs, st);
        }
        if pos + 1 < s.len() && (s[pos] == '%' || s[pos] == '*') && s[pos + 1] == '{' {
            if in_param {
                failed = true;
                pos = pos + 2;
            } else {
                if pos > start {
                    add_text(&mut pieces, line, start, pos);
                }
                in_param = true;
                kind = if s[pos] == '%' { ParamType::Str } else { ParamType::Typed };
                pos = pos + 2;
                start = pos;
            }
        } else if s[pos] == '}' {
            if !in_param || pos == start {
                failed = true;
                in_param = false;
                pos = pos + 1;
            } else {
                let name = line.substring_char(start, pos).to_owned();
                if !identifier_ok(name.as_str()) {
                    problems.push(TokenProblem::InvalidName(name));
                } else if kind == ParamType::Typed && contains_str(&typed, &name) {
                    problems.push(TokenProblem::DuplicateTyped(name));
                } else {
                    if kind == ParamType::Typed {
                        typed.push(name.clone());
                    }
                    pieces.push(Piece::Param(name, kind));
                }
                in_param = false;
                pos = pos + 1;
                start = pos;
            }
        } else {
            pos = pos + 1;
        }
        proof {
            assert(piece_views(pieces@) =~= st.pieces);
            assert(str_views(typed@) =~= st.typed);
            assert(token_problem_views(problems@) =~= st.problems);
            assert(scan_from(gs, old_st) == scan_from(gs, st));
        }
    }
    let ghost fin = st;
    if in_param {
        failed = true;
    } else if pos > start {
        add_text(&mut pieces, line, start, pos);
    }
    if failed {
        problems.push(TokenProblem::Malformed);
    }
    proof {
        if !fin.in_param {
            lemma_with_text_merged(fin.pieces, gs, fin.start, fin.pos);
            lemma_with_text_params(fin.pieces, gs, fin.start, fin.pos);
        }
        assert(scan_from(gs, fin) == fin);
        assert(piece_views(pieces@) =~= tokens(gs));
        assert(token_problem_views(problems@) =~= token_problems(gs));
    }
    (pieces, problems)
}

} // verus!
