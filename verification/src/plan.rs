//! Render plans. A renderer turns a syntax tree into a plan: literal text and
//! calls of named templates, whose arguments may hold plans of their own. The
//! plan says exactly what a format makes of a tree; running it against the
//! template engine yields the output.

use crate::notebook::{clone_strings, strings_view};
use crate::document::OutputFormat;
use crate::templates::{DefinitionView, ParameterView, ShortcodeParameter, TemplateType};
use vstd::prelude::*;
use vstd::string::*;

verus! {

/// An argument of an identified call, as other parts of a document see it.
#[derive(Clone, Debug)]
pub struct CallParameter {
    /// The key of the argument; none for an argument by position.
    pub key: Option<String>,
    /// The text of the value of the argument, without its markup.
    pub value: String,
}

/// An identified shortcode call that other parts of a document can refer to:
/// its ordinal and its definition.
#[derive(Clone, Debug)]
pub struct Reference {
    /// The identifier of the call.
    pub id: String,
    /// The ordinal of the call among the calls of its name.
    pub num: usize,
    /// The name of the shortcode.
    pub name: String,
    /// The arguments of the call.
    pub parameters: Vec<CallParameter>,
}

/// What a template can see of a defined template: its name, its kind, the
/// parameters that it declares where it is a shortcode, and the formats that
/// it has a source for.
#[derive(Clone, Debug)]
pub struct Outline {
    pub name: String,
    pub kind: TemplateType,
    pub parameters: Option<Vec<ShortcodeParameter>>,
    pub formats: Vec<OutputFormat>,
}

/// What an `Outline` holds.
pub struct OutlineView {
    pub name: Seq<char>,
    pub kind: TemplateType,
    pub parameters: Option<Seq<ParameterView>>,
    pub formats: Seq<OutputFormat>,
}

/// What the declared parameters of `v` hold.
pub open spec fn declared_view(v: Seq<ShortcodeParameter>) -> Seq<ParameterView> {
    Seq::new(v.len(), |k: int| v[k]@)
}

impl View for Outline {
    type V = OutlineView;

    open spec fn view(&self) -> OutlineView {
        OutlineView {
            name: self.name@,
            kind: self.kind,
            parameters: match self.parameters {
                Some(p) => Some(declared_view(p@)),
                None => None,
            },
            formats: self.formats@,
        }
    }
}

/// What the outlines of `v` hold.
pub open spec fn outlines_view(v: Seq<Outline>) -> Seq<OutlineView> {
    Seq::new(v.len(), |k: int| v[k]@)
}

/// The outline of a definition.
pub open spec fn outline_of(def: DefinitionView) -> OutlineView {
    OutlineView {
        name: def.name,
        kind: def.type_,
        parameters: def.shortcode,
        formats: def.formats,
    }
}

/// The outlines of the definitions `defs`, in their order.
pub open spec fn outlines_of(defs: Seq<DefinitionView>) -> Seq<OutlineView> {
    Seq::new(defs.len(), |k: int| outline_of(defs[k]))
}

/// A piece of output.
#[derive(Debug)]
pub enum Piece {
    /// Literal text.
    Text(String),
    /// What the template `name` of kind `kind` makes of `args`.
    Template { name: String, kind: TemplateType, args: Vec<Binding> },
    /// A JSON value, serialised.
    Json(serde_json::Value),
}

/// A value that a template receives under a key.
#[derive(Debug)]
pub struct Binding {
    pub key: String,
    pub value: Arg,
}

/// A value that a template receives.
#[derive(Debug)]
pub enum Arg {
    Null,
    Bool(bool),
    Number(u64),
    Text(String),
    Texts(Vec<String>),
    /// The output of a plan, which is run before the template sees it.
    Rendered(Vec<Piece>),
    /// An identifier that no other call of the same counter has received.
    FreshId,
    /// The source of a code cell, highlighted as HTML.
    Highlighted(String),
    /// The identified shortcode calls of the document, as a record: under
    /// the id of each call its ordinal and its definition.
    References(Vec<Reference>),
    /// The defined templates, as a record: under the name of each its
    /// outline.
    Definitions(Vec<Outline>),
}

/// What a `CallParameter` holds.
pub struct CallParameterView {
    pub key: Option<Seq<char>>,
    pub value: Seq<char>,
}

impl View for CallParameter {
    type V = CallParameterView;

    open spec fn view(&self) -> CallParameterView {
        CallParameterView { key: crate::notebook::option_view(self.key), value: self.value@ }
    }
}

/// What the parameters of `v` hold.
pub open spec fn parameters_view(v: Seq<CallParameter>) -> Seq<CallParameterView> {
    Seq::new(v.len(), |k: int| v[k]@)
}

/// What a `Reference` holds.
pub struct ReferenceView {
    pub id: Seq<char>,
    pub num: nat,
    pub name: Seq<char>,
    pub parameters: Seq<CallParameterView>,
}

impl View for Reference {
    type V = ReferenceView;

    open spec fn view(&self) -> ReferenceView {
        ReferenceView {
            id: self.id@,
            num: self.num as nat,
            name: self.name@,
            parameters: parameters_view(self.parameters@),
        }
    }
}

/// What the references of `v` hold.
pub open spec fn references_view(v: Seq<Reference>) -> Seq<ReferenceView> {
    Seq::new(v.len(), |k: int| v[k]@)
}

/// What a `Piece` holds.
pub enum PieceView {
    Text(Seq<char>),
    Template { name: Seq<char>, kind: TemplateType, args: Seq<BindingView> },
    Json(serde_json::Value),
}

/// What a `Binding` holds.
pub struct BindingView {
    pub key: Seq<char>,
    pub value: ArgView,
}

/// What an `Arg` holds.
pub enum ArgView {
    Null,
    Bool(bool),
    Number(u64),
    Text(Seq<char>),
    Texts(Seq<Seq<char>>),
    Rendered(Seq<PieceView>),
    FreshId,
    Highlighted(Seq<char>),
    References(Seq<ReferenceView>),
    Definitions(Seq<OutlineView>),
}

/// What the pieces of `v` hold.
pub open spec fn pieces_view(v: Seq<Piece>) -> Seq<PieceView>
    decreases v,
{
    Seq::new(
        v.len(),
        |k: int|
            if 0 <= k < v.len() {
                piece_view(v[k])
            } else {
                arbitrary()
            },
    )
}

/// What the bindings of `v` hold.
pub open spec fn bindings_view(v: Seq<Binding>) -> Seq<BindingView>
    decreases v,
{
    Seq::new(
        v.len(),
        |k: int|
            if 0 <= k < v.len() {
                binding_view(v[k])
            } else {
                arbitrary()
            },
    )
}

/// What the binding `b` holds.
pub open spec fn binding_view(b: Binding) -> BindingView
    decreases b,
{
    BindingView { key: b.key@, value: arg_view(b.value) }
}

/// What the argument `a` holds.
pub open spec fn arg_view(a: Arg) -> ArgView
    decreases a,
{
    match a {
        Arg::Null => ArgView::Null,
        Arg::Bool(b) => ArgView::Bool(b),
        Arg::Number(n) => ArgView::Number(n),
        Arg::Text(s) => ArgView::Text(s@),
        Arg::Texts(v) => ArgView::Texts(strings_view(v@)),
        Arg::Rendered(p) => ArgView::Rendered(pieces_view(p@)),
        Arg::FreshId => ArgView::FreshId,
        Arg::Highlighted(s) => ArgView::Highlighted(s@),
        Arg::References(r) => ArgView::References(references_view(r@)),
        Arg::Definitions(d) => ArgView::Definitions(outlines_view(d@)),
    }
}

/// What the piece `p` holds.
pub open spec fn piece_view(p: Piece) -> PieceView
    decreases p,
{
    match p {
        Piece::Text(s) => PieceView::Text(s@),
        Piece::Template { name, kind, args } => PieceView::Template {
            name: name@,
            kind,
            args: bindings_view(args@),
        },
        Piece::Json(j) => PieceView::Json(j),
    }
}

impl View for Piece {
    type V = PieceView;

    open spec fn view(&self) -> PieceView {
        piece_view(*self)
    }
}

impl View for Binding {
    type V = BindingView;

    open spec fn view(&self) -> BindingView {
        binding_view(*self)
    }
}

impl View for Arg {
    type V = ArgView;

    open spec fn view(&self) -> ArgView {
        arg_view(*self)
    }
}

/// The binding of `value` to `key`.
pub open spec fn bound(key: Seq<char>, value: ArgView) -> BindingView {
    BindingView { key, value }
}

/// The literal text `s` as a plan.
pub open spec fn literal(s: Seq<char>) -> Seq<PieceView> {
    seq![PieceView::Text(s)]
}

/// A call of a builtin template as a plan.
pub open spec fn builtin(name: Seq<char>, args: Seq<BindingView>) -> Seq<PieceView> {
    seq![PieceView::Template { name, kind: TemplateType::Builtin, args }]
}

/// A copy of the declared parameters `v`.
pub fn clone_declared(v: &Vec<ShortcodeParameter>) -> (r: Vec<ShortcodeParameter>)
    ensures
        declared_view(r@) == declared_view(v@),
{
    let mut r: Vec<ShortcodeParameter> = Vec::new();
    let mut k: usize = 0;
    while k < v.len()
        invariant
            k <= v.len(),
            r.len() == k,
            forall|j: int| 0 <= j < k ==> r[j]@ == v[j]@,
        decreases v.len() - k,
    {
        r.push(ShortcodeParameter { name: v[k].name.clone(), optional: v[k].optional });
        k += 1;
    }
    assert(declared_view(r@) =~= declared_view(v@));
    r
}

/// A copy of the formats `v`.
pub fn clone_formats(v: &Vec<OutputFormat>) -> (r: Vec<OutputFormat>)
    ensures
        r@ == v@,
{
    let mut r: Vec<OutputFormat> = Vec::new();
    let mut k: usize = 0;
    while k < v.len()
        invariant
            k <= v.len(),
            r.len() == k,
            forall|j: int| 0 <= j < k ==> r[j] == v[j],
        decreases v.len() - k,
    {
        r.push(v[k]);
        k += 1;
    }
    assert(r@ =~= v@);
    r
}

/// A copy of `v`, outline by outline.
pub fn clone_outlines(v: &Vec<Outline>) -> (r: Vec<Outline>)
    ensures
        outlines_view(r@) == outlines_view(v@),
{
    let mut r: Vec<Outline> = Vec::new();
    let mut k: usize = 0;
    while k < v.len()
        invariant
            k <= v.len(),
            r.len() == k,
            forall|j: int| 0 <= j < k ==> r[j]@ == v[j]@,
        decreases v.len() - k,
    {
        let parameters = match &v[k].parameters {
            Some(p) => Some(clone_declared(p)),
            None => None,
        };
        r.push(
            Outline {
                name: v[k].name.clone(),
                kind: v[k].kind,
                parameters,
                formats: clone_formats(&v[k].formats),
            },
        );
        k += 1;
    }
    assert(outlines_view(r@) =~= outlines_view(v@));
    r
}

/// A copy of `v`, parameter by parameter.
pub fn clone_parameters(v: &Vec<CallParameter>) -> (r: Vec<CallParameter>)
    ensures
        parameters_view(r@) == parameters_view(v@),
{
    let mut r: Vec<CallParameter> = Vec::new();
    let mut k: usize = 0;
    while k < v.len()
        invariant
            k <= v.len(),
            r.len() == k,
            forall|j: int| 0 <= j < k ==> r[j]@ == v[j]@,
        decreases v.len() - k,
    {
        r.push(
            CallParameter { key: crate::notebook::clone_option(&v[k].key), value: v[k].value.clone() },
        );
        k += 1;
    }
    assert(parameters_view(r@) =~= parameters_view(v@));
    r
}

/// A copy of `v`, reference by reference.
pub fn clone_references(v: &Vec<Reference>) -> (r: Vec<Reference>)
    ensures
        references_view(r@) == references_view(v@),
{
    let mut r: Vec<Reference> = Vec::new();
    let mut k: usize = 0;
    while k < v.len()
        invariant
            k <= v.len(),
            r.len() == k,
            forall|j: int| 0 <= j < k ==> r[j]@ == v[j]@,
        decreases v.len() - k,
    {
        r.push(
            Reference {
                id: v[k].id.clone(),
                num: v[k].num,
                name: v[k].name.clone(),
                parameters: clone_parameters(&v[k].parameters),
            },
        );
        k += 1;
    }
    assert(references_view(r@) =~= references_view(v@));
    r
}

/// A copy of `v`, piece by piece.
pub fn clone_pieces(v: &Vec<Piece>) -> (r: Vec<Piece>)
    ensures
        pieces_view(r@) == pieces_view(v@),
    decreases v,
{
    let mut r: Vec<Piece> = Vec::new();
    let mut k: usize = 0;
    while k < v.len()
        invariant
            k <= v.len(),
            r.len() == k,
            forall|j: int| 0 <= j < k ==> piece_view(r[j]) == piece_view(v[j]),
        decreases v.len() - k,
    {
        r.push(clone_piece(&v[k]));
        k += 1;
    }
    assert(pieces_view(r@) =~= pieces_view(v@));
    r
}

/// A copy of `v`, binding by binding.
pub fn clone_bindings(v: &Vec<Binding>) -> (r: Vec<Binding>)
    ensures
        bindings_view(r@) == bindings_view(v@),
    decreases v,
{
    let mut r: Vec<Binding> = Vec::new();
    let mut k: usize = 0;
    while k < v.len()
        invariant
            k <= v.len(),
            r.len() == k,
            forall|j: int| 0 <= j < k ==> binding_view(r[j]) == binding_view(v[j]),
        decreases v.len() - k,
    {
        r.push(Binding { key: v[k].key.clone(), value: clone_arg(&v[k].value) });
        k += 1;
    }
    assert(bindings_view(r@) =~= bindings_view(v@));
    r
}

/// A copy of the argument `a`.
pub fn clone_arg(a: &Arg) -> (r: Arg)
    ensures
        r@ == a@,
    decreases a,
{
    match a {
        Arg::Null => Arg::Null,
        Arg::Bool(b) => Arg::Bool(*b),
        Arg::Number(n) => Arg::Number(*n),
        Arg::Text(s) => Arg::Text(s.clone()),
        Arg::Texts(v) => Arg::Texts(clone_strings(v)),
        Arg::Rendered(p) => Arg::Rendered(clone_pieces(p)),
        Arg::FreshId => Arg::FreshId,
        Arg::Highlighted(s) => Arg::Highlighted(s.clone()),
        Arg::References(r) => Arg::References(clone_references(r)),
        Arg::Definitions(d) => Arg::Definitions(clone_outlines(d)),
    }
}

/// A copy of the piece `p`.
pub fn clone_piece(p: &Piece) -> (r: Piece)
    ensures
        r@ == p@,
    decreases p,
{
    match p {
        Piece::Text(s) => Piece::Text(s.clone()),
        Piece::Template { name, kind, args } => Piece::Template {
            name: name.clone(),
            kind: *kind,
            args: clone_bindings(args),
        },
        Piece::Json(j) => Piece::Json(j.clone()),
    }
}

impl Clone for Piece {
    fn clone(&self) -> (r: Self)
        ensures
            r@ == self@,
    {
        clone_piece(self)
    }
}

impl Clone for Arg {
    fn clone(&self) -> (r: Self)
        ensures
            r@ == self@,
    {
        clone_arg(self)
    }
}

impl Clone for Binding {
    fn clone(&self) -> (r: Self)
        ensures
            r@ == self@,
    {
        Binding { key: self.key.clone(), value: clone_arg(&self.value) }
    }
}

/// The plan that is the literal text `s`.
pub fn text(s: &str) -> (r: Vec<Piece>)
    ensures
        pieces_view(r@) == literal(s@),
{
    let mut r: Vec<Piece> = Vec::new();
    r.push(Piece::Text(String::from_str(s)));
    assert(pieces_view(r@) =~= literal(s@));
    r
}

/// The plan without output.
pub fn nothing() -> (r: Vec<Piece>)
    ensures
        pieces_view(r@) == Seq::<PieceView>::empty(),
{
    let r: Vec<Piece> = Vec::new();
    assert(pieces_view(r@) =~= Seq::<PieceView>::empty());
    r
}

/// The plan that calls the builtin template `name` with `args`.
pub fn call_builtin(name: &str, args: Vec<Binding>) -> (r: Vec<Piece>)
    ensures
        pieces_view(r@) == builtin(name@, bindings_view(args@)),
{
    let mut r: Vec<Piece> = Vec::new();
    r.push(Piece::Template { name: String::from_str(name), kind: TemplateType::Builtin, args });
    assert(pieces_view(r@) =~= builtin(name@, bindings_view(args@)));
    r
}

/// The binding of `value` to `key`.
pub fn bind(key: &str, value: Arg) -> (r: Binding)
    ensures
        r@ == bound(key@, value@),
{
    Binding { key: String::from_str(key), value }
}

/// Puts `binding` behind `args`.
pub fn push_binding(args: &mut Vec<Binding>, binding: Binding)
    ensures
        bindings_view(final(args)@) == bindings_view(old(args)@).push(binding@),
{
    args.push(binding);
    assert(bindings_view(args@) =~= bindings_view(old(args)@).push(binding@));
}

/// Puts the plan `more` behind the plan `out`.
pub fn append(out: &mut Vec<Piece>, more: Vec<Piece>)
    ensures
        pieces_view(final(out)@) == pieces_view(old(out)@) + pieces_view(more@),
{
    let mut more = more;
    let ghost added = more@;
    out.append(&mut more);
    assert(pieces_view(out@) =~= pieces_view(old(out)@) + pieces_view(added));
}

/// Puts the literal text `s` behind the plan `out`.
pub fn append_text(out: &mut Vec<Piece>, s: &str)
    ensures
        pieces_view(final(out)@) == pieces_view(old(out)@) + literal(s@),
{
    out.push(Piece::Text(String::from_str(s)));
    assert(pieces_view(out@) =~= pieces_view(old(out)@) + literal(s@));
}

} // verus!
