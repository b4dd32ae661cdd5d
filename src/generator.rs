//! Render plans: for one builder specification, one render function per
//! eligible message, with its signature and, per language, a body over the
//! assembly protocol (`new`, `push_const_str`, `push_str`, `push`, `finish`,
//! with `empty` and `const_str` as shortcuts).

use vstd::prelude::*;
use vstd::string::*;
use crate::attribute::{Builder, BuilderProblem, BuilderVariant, InputConversion, InputVariant, StrConversion};
use crate::languages::{Language, LanguageView, Languages, language_views};
use crate::diagnostic::Diagnostic;
use crate::messages::{param_views, Message, MessageLine, Messages};
use crate::outside::{entry_keys, lines_entries, lines_get, lines_get_index, lines_len, messages_entries, messages_get_index, messages_len};
use crate::tokenizer::{piece_views, tokens, ParamType, Piece, PieceView};

verus! {

/// One assembly operation.
#[derive(Debug, PartialEq, Eq)]
pub enum Op {
    /// `push_const_str` of a literal.
    PushConstStr(String),
    /// `push_str` of a string parameter; `as_ref` when it is converted first.
    PushStr { name: String, as_ref: bool },
    /// `push` of a typed parameter, converted as the policy says.
    PushTyped { name: String, conversion: InputConversion },
}

pub enum OpView {
    PushConstStr(Seq<char>),
    PushStr { name: Seq<char>, as_ref: bool },
    PushTyped { name: Seq<char>, conversion: InputConversion },
}

impl View for Op {
    type V = OpView;

    open spec fn view(&self) -> OpView {
        match self {
            Op::PushConstStr(t) => OpView::PushConstStr(t@),
            Op::PushStr { name, as_ref } => OpView::PushStr { name: name@, as_ref: *as_ref },
            Op::PushTyped { name, conversion } => OpView::PushTyped { name: name@, conversion: *conversion },
        }
    }
}

/// The body of a render function for one language.
#[derive(Debug, PartialEq, Eq)]
pub enum Body {
    /// A `&'static str` literal.
    Literal(String),
    /// `empty()`.
    Empty,
    /// `const_str(literal)`.
    ConstStr(String),
    /// `new()`, the operations in order, then `finish()`.
    Build(Vec<Op>),
}

pub enum BodyView {
    Literal(Seq<char>),
    Empty,
    ConstStr(Seq<char>),
    Build(Seq<OpView>),
}

impl View for Body {
    type V = BodyView;

    open spec fn view(&self) -> BodyView {
        match self {
            Body::Literal(t) => BodyView::Literal(t@),
            Body::Empty => BodyView::Empty,
            Body::ConstStr(t) => BodyView::ConstStr(t@),
            Body::Build(ops) => BodyView::Build(ops@.map_values(|o: Op| o@)),
        }
    }
}

/// The operation for one piece.
pub open spec fn op_of(p: PieceView, str_conversion: StrConversion, input_conversion: InputConversion) -> OpView {
    match p {
        PieceView::Text(t) => OpView::PushConstStr(t),
        PieceView::Param(name, ParamType::Str) => OpView::PushStr { name, as_ref: str_conversion == StrConversion::AsRef },
        PieceView::Param(name, ParamType::Typed) => OpView::PushTyped { name, conversion: input_conversion },
    }
}

/// The body for the pieces of a template: a literal when the function
/// returns `&'static str`, `empty()` for no piece, `const_str` for one
/// literal piece, else one operation per piece.
pub open spec fn body_of(pieces: Seq<PieceView>, static_str: bool, sc: StrConversion, ic: InputConversion) -> BodyView {
    if static_str {
        if pieces.len() > 0 && pieces[0] is Text {
            BodyView::Literal(pieces[0]->Text_0)
        } else {
            BodyView::Literal(Seq::empty())
        }
    } else if pieces.len() == 1 && pieces[0] is Text {
        BodyView::ConstStr(pieces[0]->Text_0)
    } else if pieces.len() == 0 {
        BodyView::Empty
    } else {
        BodyView::Build(pieces.map_values(|p: PieceView| op_of(p, sc, ic)))
    }
}

/// Builds the body for `pieces`, as [`body_of`] states.
pub fn make_body(pieces: &Vec<Piece>, static_str: bool, sc: StrConversion, ic: InputConversion) -> (r: Body)
    ensures
        r@ == body_of(piece_views(pieces@), static_str, sc, ic),
{
    let ghost pv = piece_views(pieces@);
    if static_str {
        if pieces.len() > 0 {
            if let Piece::Text(t) = &pieces[0] {
                return Body::Literal(t.clone());
            }
        }
        return Body::Literal(String::new());
    }
    if pieces.len() == 1 {
        if let Piece::Text(t) = &pieces[0] {
            return Body::ConstStr(t.clone());
        }
    }
    if pieces.len() == 0 {
        return Body::Empty;
    }
    let mut ops: Vec<Op> = Vec::new();
    let mut i: usize = 0;
    while i < pieces.len()
        invariant
            i <= pieces@.len(),
            pv == piece_views(pieces@),
            ops@.map_values(|o: Op| o@) == pv.subrange(0, i as int).map_values(|p: PieceView| op_of(p, sc, ic)),
            ops@.len() == i,
        decreases pieces.len() - i,
    {
        let op = match &pieces[i] {
            Piece::Text(t) => Op::PushConstStr(t.clone()),
            Piece::Param(n, ParamType::Str) => Op::PushStr { name: n.clone(), as_ref: sc == StrConversion::AsRef },
            Piece::Param(n, ParamType::Typed) => Op::PushTyped { name: n.clone(), conversion: ic },
        };
        assert(op@ == op_of(pv[i as int], sc, ic));
        let ghost ov = op@;
        let ghost before = ops@;
        ops.push(op);
        assert(ops@.map_values(|o: Op| o@) =~= before.map_values(|o: Op| o@).push(ov));
        assert(pv.subrange(0, i + 1) =~= pv.subrange(0, i as int).push(pv[i as int]));
        assert(ops@.map_values(|o: Op| o@) =~= pv.subrange(0, i + 1).map_values(|p: PieceView| op_of(p, sc, ic)));
        i = i + 1;
    }
    assert(pv.subrange(0, i as int) =~= pv);
    Body::Build(ops)
}

/// How a parameter is taken by a render function.
#[derive(Clone, Copy, Debug, PartialEq, Eq, Structural)]
pub enum ArgType {
    /// `&str`.
    StrRef,
    /// A generic `S<n>: AsRef<str>`.
    StrGeneric(usize),
    /// `&Input`.
    InputRef,
    /// `Input`.
    InputValue,
    /// A generic `T<n>` convertible to the input.
    InputGeneric(usize),
}

/// A generic parameter of a render function.
#[derive(Clone, Copy, Debug, PartialEq, Eq, Structural)]
pub enum GenericParam {
    /// `T`, the builder type.
    Builder,
    /// The input type.
    Input,
    /// `S<n>`.
    Str(usize),
    /// `T<n>`.
    Typed(usize),
}

/// A `where` bound of a render function.
#[derive(Clone, Copy, Debug, PartialEq, Eq, Structural)]
pub enum Bound {
    /// The builder is `BuilderFromRef<Input>`.
    BuilderFromRef,
    /// The builder is `BuilderFromValue<Input>`.
    BuilderFromValue,
    /// The builder is a `Builder`.
    Builder,
    /// `S<n>: AsRef<str>`.
    AsRefStr(usize),
    /// `T<n>: Into<Input>`.
    IntoInput(usize),
    /// `T<n>: AsRef<Input>`.
    AsRefInput(usize),
}

/// The return type of a render function.
#[derive(Clone, Copy, Debug, PartialEq, Eq, Structural)]
pub enum ReturnType {
    /// `&'static str`.
    StaticStr,
    /// `String`.
    String,
    /// `T::Output` of a generic builder.
    GenericOutput,
    /// `<Builder as Builder>::Output`.
    BuilderOutput,
}

/// One render function.
pub struct RenderFn {
    /// The prefix followed by the message key.
    pub name: String,
    pub generics: Vec<GenericParam>,
    /// Each parameter with how it is taken, in the message's order.
    pub args: Vec<(String, ArgType)>,
    pub ret: ReturnType,
    pub bounds: Vec<Bound>,
    /// Whether one body serves every language (the message has one line).
    pub single: bool,
    /// The body, or one body per language in declaration order.
    pub bodies: Vec<Body>,
}

pub struct RenderFnView {
    pub name: Seq<char>,
    pub generics: Seq<GenericParam>,
    pub args: Seq<(Seq<char>, ArgType)>,
    pub ret: ReturnType,
    pub bounds: Seq<Bound>,
    pub single: bool,
    pub bodies: Seq<BodyView>,
}

impl View for RenderFn {
    type V = RenderFnView;

    open spec fn view(&self) -> RenderFnView {
        RenderFnView {
            name: self.name@,
            generics: self.generics@,
            args: self.args@.map_values(|a: (String, ArgType)| (a.0@, a.1)),
            ret: self.ret,
            bounds: self.bounds@,
            single: self.single,
            bodies: self.bodies@.map_values(|b: Body| b@),
        }
    }
}

/// Whether a piece is a typed parameter.
pub open spec fn is_typed_piece(p: PieceView) -> bool {
    p matches PieceView::Param(_, ParamType::Typed)
}

/// Whether some line of a message has a typed parameter.
pub open spec fn has_typed(lines: Seq<(Seq<char>, MessageLine)>) -> bool {
    exists|i: int, j: int| 0 <= i < lines.len() && 0 <= j < tokens(lines[i].1.text()).len()
        && #[trigger] is_typed_piece(tokens(lines[i].1.text())[j])
}

/// Whether a builder leaves a message out: a `static_str` builder every
/// message with parameters, a builder without input every message with a
/// typed parameter.
pub open spec fn skipped(b: Builder, params: Seq<(Seq<char>, ParamType)>, lines: Seq<(Seq<char>, MessageLine)>) -> bool {
    (b.builder_variant == BuilderVariant::StaticStr && params.len() > 0)
        || (b.input_variant == InputVariant::Absent && has_typed(lines))
}

/// The arguments and the numbered generics for the first `n` parameters;
/// generics are numbered from 1 in order of appearance.
pub open spec fn sig_upto(b: Builder, params: Seq<(Seq<char>, ParamType)>, n: int) -> (Seq<(Seq<char>, ArgType)>, Seq<(ParamType, nat)>)
    decreases n,
{
    if n <= 0 {
        (Seq::empty(), Seq::empty())
    } else {
        let (args, gens) = sig_upto(b, params, n - 1);
        let (name, kind) = params[n - 1];
        let g = gens.len() + 1;
        if kind == ParamType::Str {
            if b.str_conversion == StrConversion::Ref {
                (args.push((name, ArgType::StrRef)), gens)
            } else {
                (args.push((name, ArgType::StrGeneric(g as usize))), gens.push((ParamType::Str, g)))
            }
        } else if b.input_conversion == InputConversion::Ref {
            (args.push((name, ArgType::InputRef)), gens)
        } else if b.input_conversion == InputConversion::Value {
            (args.push((name, ArgType::InputValue)), gens)
        } else {
            (args.push((name, ArgType::InputGeneric(g as usize))), gens.push((ParamType::Typed, g)))
        }
    }
}

pub open spec fn any_typed(gens: Seq<(ParamType, nat)>) -> bool {
    exists|i: int| 0 <= i < gens.len() && (#[trigger] gens[i]).0 == ParamType::Typed
}

/// The generic parameters: the builder when generic, the input when generic
/// and used, then the numbered ones.
pub open spec fn generics_of(b: Builder, gens: Seq<(ParamType, nat)>) -> Seq<GenericParam> {
    if gens.len() > 0 || b.builder_variant == BuilderVariant::Generic {
        let head: Seq<GenericParam> = if b.builder_variant == BuilderVariant::Generic { seq![GenericParam::Builder] } else { Seq::empty() };
        let input: Seq<GenericParam> = if b.input_variant == InputVariant::Generic && any_typed(gens) { seq![GenericParam::Input] } else { Seq::empty() };
        head + input + gens.map_values(|g: (ParamType, nat)| if g.0 == ParamType::Str { GenericParam::Str(g.1 as usize) } else { GenericParam::Typed(g.1 as usize) })
    } else {
        Seq::empty()
    }
}

/// The bound of one numbered generic, if it has one.
pub open spec fn gen_bound(b: Builder, g: (ParamType, nat)) -> Seq<Bound> {
    if g.0 == ParamType::Str {
        seq![Bound::AsRefStr(g.1 as usize)]
    } else if b.input_conversion == InputConversion::Into {
        seq![Bound::IntoInput(g.1 as usize)]
    } else if b.input_conversion == InputConversion::AsRef {
        seq![Bound::AsRefInput(g.1 as usize)]
    } else {
        Seq::empty()
    }
}

pub open spec fn gen_bounds(b: Builder, gens: Seq<(ParamType, nat)>) -> Seq<Bound>
    decreases gens.len(),
{
    if gens.len() == 0 {
        Seq::empty()
    } else {
        gen_bounds(b, gens.drop_last()) + gen_bound(b, gens.last())
    }
}

/// The `where` bounds.
pub open spec fn bounds_of(b: Builder, gens: Seq<(ParamType, nat)>) -> Seq<Bound> {
    if gens.len() > 0 {
        let head: Seq<Bound> = if any_typed(gens) {
            if b.input_conversion == InputConversion::AsRef { seq![Bound::BuilderFromRef] } else { seq![Bound::BuilderFromValue] }
        } else {
            Seq::empty()
        };
        head + gen_bounds(b, gens)
    } else if b.builder_variant == BuilderVariant::Generic {
        seq![Bound::Builder]
    } else {
        Seq::empty()
    }
}

/// Whether the function returns a literal: a `static_str` or `mixed_str`
/// builder and a message without parameters.
pub open spec fn returns_static(b: Builder, params: Seq<(Seq<char>, ParamType)>) -> bool {
    (b.builder_variant == BuilderVariant::StaticStr || b.builder_variant == BuilderVariant::MixedStr) && params.len() == 0
}

pub open spec fn return_of(b: Builder, params: Seq<(Seq<char>, ParamType)>) -> ReturnType {
    if returns_static(b, params) {
        ReturnType::StaticStr
    } else if b.builder_variant == BuilderVariant::MixedStr {
        ReturnType::String
    } else if b.builder_variant == BuilderVariant::Generic {
        ReturnType::GenericOutput
    } else {
        ReturnType::BuilderOutput
    }
}

/// The first language of `chain` that has a line among `keys`.
pub open spec fn pick(chain: Seq<Seq<char>>, keys: Seq<Seq<char>>) -> Option<Seq<char>>
    decreases chain.len(),
{
    if chain.len() == 0 {
        None
    } else if keys.contains(chain[0]) {
        Some(chain[0])
    } else {
        pick(chain.drop_first(), keys)
    }
}

/// A chain that holds some language with a line finds a line, and the
/// language it finds is in the chain and has a line: with complete fallback
/// chains every language of a message with a line gets a body.
pub proof fn lemma_chain_finds_line(chain: Seq<Seq<char>>, keys: Seq<Seq<char>>, x: Seq<char>)
    requires
        chain.contains(x),
        keys.contains(x),
    ensures
        pick(chain, keys) is Some,
        keys.contains(pick(chain, keys)->0),
        chain.contains(pick(chain, keys)->0),
    decreases chain.len(),
{
    if !keys.contains(chain[0]) {
        let k = choose|k: int| 0 <= k < chain.len() && chain[k] == x;
        assert(k != 0);
        assert(chain.drop_first()[k - 1] == x);
        lemma_chain_finds_line(chain.drop_first(), keys, x);
        let found = pick(chain.drop_first(), keys)->0;
        let w = choose|w: int| 0 <= w < chain.drop_first().len() && chain.drop_first()[w] == found;
        assert(chain[w + 1] == found);
    }
}

/// The text of the line of `language`.
pub open spec fn text_for(lines: Seq<(Seq<char>, MessageLine)>, language: Seq<char>) -> Seq<char> {
    lines[choose|i: int| 0 <= i < lines.len() && (#[trigger] lines[i]).0 == language].1.text()
}

/// The body of one language: that of the first line its chain finds.
pub open spec fn body_for(b: Builder, l: LanguageView, params: Seq<(Seq<char>, ParamType)>, lines: Seq<(Seq<char>, MessageLine)>) -> Option<BodyView> {
    match pick(l.fallback, entry_keys(lines)) {
        None => None,
        Some(k) => Some(body_of(tokens(text_for(lines, k)), returns_static(b, params), b.str_conversion, b.input_conversion)),
    }
}

/// The bodies of the first `n` languages; `None` when one of them finds no line.
pub open spec fn bodies_upto(b: Builder, langs: Seq<LanguageView>, params: Seq<(Seq<char>, ParamType)>, lines: Seq<(Seq<char>, MessageLine)>, n: int) -> Option<Seq<BodyView>>
    decreases n,
{
    if n <= 0 {
        Some(Seq::empty())
    } else {
        match (bodies_upto(b, langs, params, lines, n - 1), body_for(b, langs[n - 1], params, lines)) {
            (Some(bs), Some(x)) => Some(bs.push(x)),
            _ => None,
        }
    }
}

/// When the chain of every language holds every language that has a line,
/// as resolved languages give, each language finds a body: a render
/// function is left out only when the builder leaves its message out.
pub proof fn lemma_complete_chains_give_bodies(
    b: Builder,
    langs: Seq<LanguageView>,
    params: Seq<(Seq<char>, ParamType)>,
    lines: Seq<(Seq<char>, MessageLine)>,
    n: int,
)
    requires
        0 <= n <= langs.len(),
        lines.len() > 0,
        forall|i: int, k: Seq<char>| 0 <= i < langs.len() && entry_keys(lines).contains(k)
            ==> #[trigger] langs[i].fallback.contains(k),
    ensures
        bodies_upto(b, langs, params, lines, n) is Some,
        forall|i: int| 0 <= i < langs.len() ==> (#[trigger] body_for(b, langs[i], params, lines)) is Some,
    decreases n,
{
    let keys = entry_keys(lines);
    assert(keys[0] == lines[0].0);
    assert(keys.contains(lines[0].0));
    assert forall|i: int| 0 <= i < langs.len() implies (#[trigger] body_for(b, langs[i], params, lines)) is Some by {
        assert(langs[i].fallback.contains(lines[0].0));
        lemma_chain_finds_line(langs[i].fallback, keys, lines[0].0);
    }
    if n > 0 {
        lemma_complete_chains_give_bodies(b, langs, params, lines, n - 1);
        assert(body_for(b, langs[n - 1], params, lines) is Some);
    }
}

/// The render function of message `key`, or `None` when the builder leaves
/// it out (or a language finds no line, which resolved languages rule out).
pub open spec fn render_spec(b: Builder, prefix: Seq<char>, key: Seq<char>, msg: Message, langs: Seq<LanguageView>) -> Option<RenderFnView> {
    let params = param_views(msg.params@);
    let lines = lines_entries(msg.message_lines);
    if skipped(b, params, lines) {
        None
    } else {
        let (args, gens) = sig_upto(b, params, params.len() as int);
        let single = lines.len() == 1;
        let bodies: Option<Seq<BodyView>> = if single {
            if langs.len() > 0 {
                match body_for(b, langs[0], params, lines) {
                    Some(x) => Some(seq![x]),
                    None => None,
                }
            } else {
                None
            }
        } else {
            bodies_upto(b, langs, params, lines, langs.len() as int)
        };
        match bodies {
            None => None,
            Some(bs) => Some(RenderFnView {
                name: prefix + key,
                generics: generics_of(b, gens),
                args,
                ret: return_of(b, params),
                bounds: bounds_of(b, gens),
                single,
                bodies: bs,
            }),
        }
    }
}

fn has_typed_line(lines: &indexmap::IndexMap<String, MessageLine>) -> (r: bool)
    ensures
        r == has_typed(lines_entries(*lines)),
{
    let ghost e = lines_entries(*lines);
    let n = lines_len(lines);
    let mut i: usize = 0;
    while i < n
        invariant
            i <= n == e.len(),
            e == lines_entries(*lines),
            forall|a: int, j: int| 0 <= a < i && 0 <= j < tokens(e[a].1.text()).len() ==> !#[trigger] is_typed_piece(tokens(e[a].1.text())[j]),
        decreases n - i,
    {
        if let Some((_, ml)) = lines_get_index(lines, i) {
            let pieces = ml.pieces();
            let mut j: usize = 0;
            while j < pieces.len()
                invariant
                    j <= pieces@.len(),
                    i < e.len(),
                    e == lines_entries(*lines),
                    piece_views(pieces@) == tokens(e[i as int].1.text()),
                    forall|k: int| 0 <= k < j ==> !#[trigger] is_typed_piece(tokens(e[i as int].1.text())[k]),
                decreases pieces.len() - j,
            {
                if let Piece::Param(_, ParamType::Typed) = &pieces[j] {
                    assert(is_typed_piece(tokens(e[i as int].1.text())[j as int]));
                    return true;
                }
                assert(!is_typed_piece(tokens(e[i as int].1.text())[j as int]));
                j = j + 1;
            }
        }
        i = i + 1;
    }
    false
}

fn signature(b: &Builder, params: &Vec<(String, ParamType)>) -> (r: (Vec<(String, ArgType)>, Vec<(ParamType, usize)>))
    requires
        params@.len() < usize::MAX,
    ensures
        (r.0@.map_values(|a: (String, ArgType)| (a.0@, a.1)), r.1@.map_values(|g: (ParamType, usize)| (g.0, g.1 as nat)))
            == sig_upto(*b, param_views(params@), params@.len() as int),
{
    let ghost pv = param_views(params@);
    let mut args: Vec<(String, ArgType)> = Vec::new();
    let mut gens: Vec<(ParamType, usize)> = Vec::new();
    let mut i: usize = 0;
    while i < params.len()
        invariant
            i <= params@.len() < usize::MAX,
            pv == param_views(params@),
            gens@.len() <= i,
            (args@.map_values(|a: (String, ArgType)| (a.0@, a.1)), gens@.map_values(|g: (ParamType, usize)| (g.0, g.1 as nat)))
                == sig_upto(*b, pv, i as int),
        decreases params.len() - i,
    {
        let name = params[i].0.clone();
        let kind = params[i].1;
        let g = gens.len() + 1;
        if kind == ParamType::Str {
            if b.str_conversion == StrConversion::Ref {
                args.push((name, ArgType::StrRef));
            } else {
                args.push((name, ArgType::StrGeneric(g)));
                gens.push((ParamType::Str, g));
            }
        } else if b.input_conversion == InputConversion::Ref {
            args.push((name, ArgType::InputRef));
        } else if b.input_conversion == InputConversion::Value {
            args.push((name, ArgType::InputValue));
        } else {
            args.push((name, ArgType::InputGeneric(g)));
            gens.push((ParamType::Typed, g));
        }
        proof {
            let want = sig_upto(*b, pv, i + 1);
            assert(args@.map_values(|a: (String, ArgType)| (a.0@, a.1)) =~= want.0);
            assert(gens@.map_values(|g: (ParamType, usize)| (g.0, g.1 as nat)) =~= want.1);
        }
        i = i + 1;
    }
    (args, gens)
}

fn generics_and_bounds(b: &Builder, gens: &Vec<(ParamType, usize)>) -> (r: (Vec<GenericParam>, Vec<Bound>))
    ensures
        r.0@ == generics_of(*b, gens@.map_values(|g: (ParamType, usize)| (g.0, g.1 as nat))),
        r.1@ == bounds_of(*b, gens@.map_values(|g: (ParamType, usize)| (g.0, g.1 as nat))),
{
    let ghost gv = gens@.map_values(|g: (ParamType, usize)| (g.0, g.1 as nat));
    let mut typed = false;
    let mut i: usize = 0;
    while i < gens.len()
        invariant
            i <= gens@.len(),
            gv == gens@.map_values(|g: (ParamType, usize)| (g.0, g.1 as nat)),
            typed == exists|k: int| 0 <= k < i && (#[trigger] gv[k]).0 == ParamType::Typed,
        decreases gens.len() - i,
    {
        if gens[i].0 == ParamType::Typed {
            typed = true;
            assert(gv[i as int].0 == ParamType::Typed);
        }
        i = i + 1;
    }
    let mut generics: Vec<GenericParam> = Vec::new();
    let mut bounds: Vec<Bound> = Vec::new();
    if gens.len() > 0 || b.builder_variant == BuilderVariant::Generic {
        if b.builder_variant == BuilderVariant::Generic {
            generics.push(GenericParam::Builder);
        }
        if b.input_variant == InputVariant::Generic && typed {
            generics.push(GenericParam::Input);
        }
        let ghost head = generics@;
        let mut k: usize = 0;
        while k < gens.len()
            invariant
                k <= gens@.len(),
                gv == gens@.map_values(|g: (ParamType, usize)| (g.0, g.1 as nat)),
                generics@ == head + gv.subrange(0, k as int).map_values(|g: (ParamType, nat)| if g.0 == ParamType::Str { GenericParam::Str(g.1 as usize) } else { GenericParam::Typed(g.1 as usize) }),
            decreases gens.len() - k,
        {
            if gens[k].0 == ParamType::Str {
                generics.push(GenericParam::Str(gens[k].1));
            } else {
                generics.push(GenericParam::Typed(gens[k].1));
            }
            assert(generics@ =~= head + gv.subrange(0, k + 1).map_values(|g: (ParamType, nat)| if g.0 == ParamType::Str { GenericParam::Str(g.1 as usize) } else { GenericParam::Typed(g.1 as usize) }));
            k = k + 1;
        }
        assert(gv.subrange(0, k as int) =~= gv);
    }
    if gens.len() > 0 {
        if typed {
            if b.input_conversion == InputConversion::AsRef {
                bounds.push(Bound::BuilderFromRef);
            } else {
                bounds.push(Bound::BuilderFromValue);
            }
        }
        let ghost head = bounds@;
        let mut k: usize = 0;
        while k < gens.len()
            invariant
                k <= gens@.len(),
                gv == gens@.map_values(|g: (ParamType, usize)| (g.0, g.1 as nat)),
                bounds@ == head + gen_bounds(*b, gv.subrange(0, k as int)),
            decreases gens.len() - k,
        {
            let ghost before = bounds@;
            if gens[k].0 == ParamType::Str {
                bounds.push(Bound::AsRefStr(gens[k].1));
            } else if b.input_conversion == InputConversion::Into {
                bounds.push(Bound::IntoInput(gens[k].1));
            } else if b.input_conversion == InputConversion::AsRef {
                bounds.push(Bound::AsRefInput(gens[k].1));
            }
            proof {
                assert(gv.subrange(0, k + 1).drop_last() =~= gv.subrange(0, k as int));
                assert(bounds@ =~= before + gen_bound(*b, gv[k as int]));
                assert(bounds@ =~= head + gen_bounds(*b, gv.subrange(0, k + 1)));
            }
            k = k + 1;
        }
        assert(gv.subrange(0, k as int) =~= gv);
    } else if b.builder_variant == BuilderVariant::Generic {
        bounds.push(Bound::Builder);
    }
    proof {
        assert(generics@ =~= generics_of(*b, gv));
        assert(bounds@ =~= bounds_of(*b, gv));
    }
    (generics, bounds)
}

fn language_body(b: &Builder, l: &Language, params: &Vec<(String, ParamType)>, lines: &indexmap::IndexMap<String, MessageLine>) -> (r: Option<Body>)
    ensures
        match r {
            Some(x) => body_for(*b, l@, param_views(params@), lines_entries(*lines)) == Some(x@),
            None => body_for(*b, l@, param_views(params@), lines_entries(*lines)) is None,
        },
{
    let ghost e = lines_entries(*lines);
    let ghost keys = entry_keys(e);
    let ghost chain = l@.fallback;
    let static_str = (b.builder_variant == BuilderVariant::StaticStr || b.builder_variant == BuilderVariant::MixedStr) && params.len() == 0;
    let mut i: usize = 0;
    assert(param_views(params@).len() == params@.len());
    assert(chain.subrange(0, chain.len() as int) =~= chain);
    while i < l.fallback.len()
        invariant
            i <= l.fallback@.len(),
            e == lines_entries(*lines),
            keys == entry_keys(e),
            static_str == returns_static(*b, param_views(params@)),
            chain == l@.fallback,
            chain.len() == l.fallback@.len(),
            pick(chain, keys) == pick(chain.subrange(i as int, chain.len() as int), keys),
        decreases l.fallback.len() - i,
    {
        let ghost rest = chain.subrange(i as int, chain.len() as int);
        assert(rest[0] == l.fallback@[i as int]@);
        match lines_get(lines, &l.fallback[i]) {
            Some(ml) => {
                proof {
                    let k = rest[0];
                    let j = choose|j: int| 0 <= j < e.len() && (#[trigger] e[j]).0 == k;
                    assert(keys.contains(k));
                    let w = choose|w: int| 0 <= w < keys.len() && keys[w] == k;
                    assert(e[w].0 == k);
                    assert(text_for(e, k) == ml.text());
                    assert(keys.contains(rest[0]));
                    assert(pick(rest, keys) == Some(k));
                    assert(pick(chain, keys) == Some(k));
                    assert(static_str == returns_static(*b, param_views(params@)));
                }
                return Some(make_body(ml.pieces(), static_str, b.str_conversion, b.input_conversion));
            },
            None => {
                assert(rest.drop_first() =~= chain.subrange(i + 1, chain.len() as int));
            },
        }
        i = i + 1;
    }
    None
}

fn all_bodies(b: &Builder, langs: &Vec<Language>, params: &Vec<(String, ParamType)>, lines: &indexmap::IndexMap<String, MessageLine>) -> (r: Option<Vec<Body>>)
    ensures
        match r {
            Some(bs) => bodies_upto(*b, language_views(langs@), param_views(params@), lines_entries(*lines), langs@.len() as int)
                == Some(bs@.map_values(|x: Body| x@)),
            None => bodies_upto(*b, language_views(langs@), param_views(params@), lines_entries(*lines), langs@.len() as int) is None,
        },
{
    let ghost lv = language_views(langs@);
    let mut bodies: Vec<Body> = Vec::new();
    let mut i: usize = 0;
    while i < langs.len()
        invariant
            i <= langs@.len(),
            lv == language_views(langs@),
            bodies_upto(*b, lv, param_views(params@), lines_entries(*lines), i as int) == Some(bodies@.map_values(|x: Body| x@)),
        decreases langs.len() - i,
    {
        assert(lv[i as int] == langs@[i as int]@);
        match language_body(b, &langs[i], params, lines) {
            Some(x) => {
                bodies.push(x);
                assert(bodies@.map_values(|x: Body| x@) =~= bodies_upto(*b, lv, param_views(params@), lines_entries(*lines), i + 1)->Some_0);
            },
            None => {
                proof {
                    assert(bodies_upto(*b, lv, param_views(params@), lines_entries(*lines), i + 1) is None);
                    lemma_bodies_none(*b, lv, param_views(params@), lines_entries(*lines), i + 1, lv.len() as int);
                }
                return None;
            },
        }
        i = i + 1;
    }
    Some(bodies)
}

/// Once a language finds no line, no longer prefix of languages has bodies.
proof fn lemma_bodies_none(b: Builder, langs: Seq<LanguageView>, params: Seq<(Seq<char>, ParamType)>, lines: Seq<(Seq<char>, MessageLine)>, n: int, m: int)
    requires
        n <= m,
        bodies_upto(b, langs, params, lines, n) is None,
    ensures
        bodies_upto(b, langs, params, lines, m) is None,
    decreases m - n,
{
    if n < m {
        lemma_bodies_none(b, langs, params, lines, n, m - 1);
    }
}

/// The render function of message `key` for builder `b`, as [`render_spec`] states.
pub fn render_message(b: &Builder, prefix: &String, key: &String, msg: &Message, langs: &Vec<Language>) -> (r: Option<RenderFn>)
    requires
        msg.params@.len() < usize::MAX,
    ensures
        match r {
            Some(f) => render_spec(*b, prefix@, key@, *msg, language_views(langs@)) == Some(f@),
            None => render_spec(*b, prefix@, key@, *msg, language_views(langs@)) is None,
        },
{
    let params = &msg.params;
    let lines = &msg.message_lines;
    if (b.builder_variant == BuilderVariant::StaticStr && params.len() > 0)
        || (b.input_variant == InputVariant::Absent && has_typed_line(lines)) {
        return None;
    }
    let (args, gens) = signature(b, params);
    let (generics, bounds) = generics_and_bounds(b, &gens);
    let single = lines_len(lines) == 1;
    let bodies = if single {
        if langs.len() > 0 {
            assert(language_views(langs@)[0] == langs@[0]@);
            match language_body(b, &langs[0], params, lines) {
                Some(x) => {
                    let mut v: Vec<Body> = Vec::new();
                    v.push(x);
                    Some(v)
                },
                None => None,
            }
        } else {
            None
        }
    } else {
        all_bodies(b, langs, params, lines)
    };
    match bodies {
        None => None,
        Some(bodies) => {
            let ret = if (b.builder_variant == BuilderVariant::StaticStr || b.builder_variant == BuilderVariant::MixedStr) && params.len() == 0 {
                ReturnType::StaticStr
            } else if b.builder_variant == BuilderVariant::MixedStr {
                ReturnType::String
            } else if b.builder_variant == BuilderVariant::Generic {
                ReturnType::GenericOutput
            } else {
                ReturnType::BuilderOutput
            };
            let mut name = prefix.clone();
            name.append(key.as_str());
            let f = RenderFn { name, generics, args, ret, bounds, single, bodies };
            proof {
                let want = render_spec(*b, prefix@, key@, *msg, language_views(langs@))->Some_0;
                assert(f@.args =~= want.args);
                assert(f@.bodies =~= want.bodies);
                assert(f@ == want);
            }
            Some(f)
        },
    }
}

/// The render functions for the first `n` messages, in catalog order.
pub open spec fn plans_upto(b: Builder, prefix: Seq<char>, msgs: Seq<(Seq<char>, Message)>, langs: Seq<LanguageView>, n: int) -> Seq<RenderFnView>
    decreases n,
{
    if n <= 0 {
        Seq::empty()
    } else {
        let prev = plans_upto(b, prefix, msgs, langs, n - 1);
        match render_spec(b, prefix, msgs[n - 1].0, msgs[n - 1].1, langs) {
            Some(f) => if msgs[n - 1].1.params@.len() < usize::MAX { prev.push(f) } else { prev },
            None => prev,
        }
    }
}

/// Whether a `static_str` or `mixed_str` builder was given an input.
pub open spec fn special_with_input(b: Builder) -> bool {
    (b.builder_variant == BuilderVariant::StaticStr || b.builder_variant == BuilderVariant::MixedStr)
        && b.input_variant != InputVariant::Absent
}

/// The prefix of the builder's functions (empty when none is given).
pub open spec fn prefix_of(b: Builder) -> Seq<char> {
    match b.prefix {
        Some(p) => p@,
        None => Seq::empty(),
    }
}

/// A builder without input leaves out every message with a typed parameter,
/// and does so silently: its plan is no error. A builder with an input,
/// other than `static_str`, keeps such a message whenever each language finds
/// a line, with the arguments of the message's parameters.
pub proof fn lemma_typed_parameters_need_input(b: Builder, prefix: Seq<char>, key: Seq<char>, msg: Message, langs: Seq<LanguageView>)
    ensures
        b.input_variant == InputVariant::Absent && has_typed(lines_entries(msg.message_lines))
            ==> render_spec(b, prefix, key, msg, langs) is None,
        b.input_variant == InputVariant::Absent ==> !special_with_input(b),
        b.input_variant != InputVariant::Absent && b.builder_variant != BuilderVariant::StaticStr
            && (if lines_entries(msg.message_lines).len() == 1 {
                langs.len() > 0 && body_for(b, langs[0], param_views(msg.params@), lines_entries(msg.message_lines)) is Some
            } else {
                bodies_upto(b, langs, param_views(msg.params@), lines_entries(msg.message_lines), langs.len() as int) is Some
            })
            ==> (render_spec(b, prefix, key, msg, langs) matches Some(f)
                && f.name == prefix + key
                && f.args == sig_upto(b, param_views(msg.params@), msg.params@.len() as int).0),
{
}

impl Builder {
    /// The render functions of this builder for every message it does not
    /// leave out, in catalog order; an error when a `static_str` or
    /// `mixed_str` builder has an input.
    pub fn plan(&self, languages: &Languages, messages: &Messages) -> (r: Result<Vec<RenderFn>, BuilderProblem>)
        ensures
            r is Err <==> special_with_input(*self),
            r matches Err(p) ==> p is SpecialBuilderWithInput,
            r matches Ok(v) ==> v@.map_values(|f: RenderFn| f@) == plans_upto(*self, prefix_of(*self),
                messages_entries(messages.inner), language_views(languages.0@), messages_entries(messages.inner).len() as int),
    {
        if (self.builder_variant == BuilderVariant::StaticStr || self.builder_variant == BuilderVariant::MixedStr)
            && self.input_variant != InputVariant::Absent {
            return Err(BuilderProblem::SpecialBuilderWithInput);
        }
        let prefix = match &self.prefix {
            Some(p) => p.clone(),
            None => String::new(),
        };
        let langs = languages.as_vec();
        let ghost msgs = messages_entries(messages.inner);
        let ghost lv = language_views(languages.0@);
        let n = messages_len(&messages.inner);
        let mut out: Vec<RenderFn> = Vec::new();
        let mut i: usize = 0;
        while i < n
            invariant
                i <= n == msgs.len(),
                msgs == messages_entries(messages.inner),
                langs@ == languages.0@,
                lv == language_views(languages.0@),
                prefix@ == prefix_of(*self),
                out@.map_values(|f: RenderFn| f@) == plans_upto(*self, prefix_of(*self), msgs, lv, i as int),
            decreases n - i,
        {
            if let Some((key, msg)) = messages_get_index(&messages.inner, i) {
                if msg.params.len() < usize::MAX {
                    match render_message(self, &prefix, key, msg, langs) {
                        Some(f) => {
                            out.push(f);
                            assert(out@.map_values(|f: RenderFn| f@) =~= plans_upto(*self, prefix_of(*self), msgs, lv, i + 1));
                        },
                        None => {},
                    }
                }
            }
            i = i + 1;
        }
        Ok(out)
    }

    /// The render functions of this builder; the error, if any, is reported
    /// at the builder's location and nothing is generated.
    pub fn generate<D: Diagnostic>(&self, diagnostic: &mut D, languages: &Languages, messages: &Messages) -> (r: Vec<RenderFn>)
        ensures
            special_with_input(*self) ==> r@.len() == 0,
            !special_with_input(*self) ==> r@.map_values(|f: RenderFn| f@) == plans_upto(*self, prefix_of(*self),
                messages_entries(messages.inner), language_views(languages.0@), messages_entries(messages.inner).len() as int),
    {
        match self.plan(languages, messages) {
            Ok(v) => v,
            Err(p) => {
                diagnostic.emit_error(self.span, p.message());
                Vec::new()
            },
        }
    }
}

} // verus!
