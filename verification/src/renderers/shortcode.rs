//! What every renderer does with a shortcode call: it finds the template of
//! that name, holds the arguments of the call against the parameters that the
//! template declares, and binds them for the template.

use crate::ast::{Argument, ArgumentView, ShortcodeBase, ShortcodeBaseView};
use crate::document::{DocumentMetadata, OutputFormat};
use crate::notebook::option_view;
use crate::plan::{
    bind, bindings_view, bound, clone_bindings, clone_declared, clone_references,
    declared_view, outline_of, outlines_of, outlines_view, pieces_view, push_binding,
    references_view, Arg, ArgView, Binding, BindingView, Outline, Piece, PieceView, Reference,
    ReferenceView,
};
use crate::templates::{
    argument_keys, call_is_valid, definitions_view, errors_view, schema_errors, str_equal,
    validate_args, DefinitionView, ParameterView, SchemaError, SchemaErrorView,
    ShortcodeDefinition, TemplateDefinition, TemplateType,
};
use vstd::prelude::*;
use vstd::string::*;

verus! {

/// Why a document could not be rendered.
#[derive(Clone, Debug)]
pub enum RenderError {
    /// No template of this name is defined for the kind and format asked for.
    TemplateNotFound(String),
    /// The arguments of a call of the shortcode of this name do not fit its parameters.
    InvalidArguments(String, Vec<SchemaError>),
    /// The template engine failed over the template of this name; `message`
    /// is what it said.
    Engine { template: String, message: String },
    /// The source of a code cell could not be highlighted.
    Highlight(String),
    /// A JSON value could not be serialised.
    Json(String),
}

/// What a `RenderError` holds.
pub enum RenderErrorView {
    TemplateNotFound(Seq<char>),
    InvalidArguments(Seq<char>, Seq<SchemaErrorView>),
    Engine { template: Seq<char>, message: Seq<char> },
    Highlight(Seq<char>),
    Json(Seq<char>),
}

impl View for RenderError {
    type V = RenderErrorView;

    open spec fn view(&self) -> RenderErrorView {
        match *self {
            RenderError::TemplateNotFound(n) => RenderErrorView::TemplateNotFound(n@),
            RenderError::InvalidArguments(n, e) => RenderErrorView::InvalidArguments(
                n@,
                errors_view(e@),
            ),
            RenderError::Engine { template, message } => RenderErrorView::Engine {
                template: template@,
                message: message@,
            },
            RenderError::Highlight(m) => RenderErrorView::Highlight(m@),
            RenderError::Json(m) => RenderErrorView::Json(m@),
        }
    }
}

/// What a renderer knows of the document and of the templates while it plans.
pub struct PlanEnv<'a> {
    /// The templates that are defined.
    pub definitions: &'a Vec<TemplateDefinition>,
    /// What every shortcode template receives besides its own arguments.
    pub extra_args: &'a Vec<Binding>,
    /// The identified shortcode calls of the document.
    pub ids: &'a Vec<Reference>,
    /// The metadata of the document.
    pub metadata: &'a DocumentMetadata,
}

/// What a `PlanEnv` holds.
pub struct PlanEnvView {
    pub definitions: Seq<DefinitionView>,
    pub extra_args: Seq<BindingView>,
    pub ids: Seq<ReferenceView>,
    pub interactive: bool,
    pub cell_outputs: bool,
    pub editable: bool,
}

impl<'a> View for PlanEnv<'a> {
    type V = PlanEnvView;

    open spec fn view(&self) -> PlanEnvView {
        PlanEnvView {
            definitions: definitions_view(self.definitions@),
            extra_args: bindings_view(self.extra_args@),
            ids: references_view(self.ids@),
            interactive: self.metadata.interactive,
            cell_outputs: self.metadata.cell_outputs,
            editable: self.metadata.editable,
        }
    }
}

/// The index of the first of the first `n` definitions that has this name and kind.
pub open spec fn find_definition(
    defs: Seq<DefinitionView>,
    name: Seq<char>,
    kind: TemplateType,
    n: nat,
) -> Option<int>
    decreases n,
{
    if n == 0 {
        None
    } else {
        match find_definition(defs, name, kind, (n - 1) as nat) {
            Some(i) => Some(i),
            None => if defs[n - 1].name == name && defs[n - 1].type_ == kind {
                Some(n - 1)
            } else {
                None
            },
        }
    }
}

/// The definition of the template of this name and kind: the first, where
/// there are several.
pub open spec fn definition_of(defs: Seq<DefinitionView>, name: Seq<char>, kind: TemplateType)
    -> Option<DefinitionView> {
    match find_definition(defs, name, kind, defs.len()) {
        Some(i) => Some(defs[i]),
        None => None,
    }
}

/// What `find_definition` finds is a definition of that name and kind.
pub proof fn lemma_find_definition(
    defs: Seq<DefinitionView>,
    name: Seq<char>,
    kind: TemplateType,
    n: nat,
)
    requires
        n <= defs.len(),
    ensures
        find_definition(defs, name, kind, n) matches Some(i) ==> 0 <= i < n && defs[i].name == name
            && defs[i].type_ == kind,
        find_definition(defs, name, kind, n) is None ==> forall|i: int|
            0 <= i < n ==> !((#[trigger] defs[i]).name == name && defs[i].type_ == kind),
    decreases n,
{
    if n > 0 {
        lemma_find_definition(defs, name, kind, (n - 1) as nat);
    }
}

/// The position of the first definition of this name and kind.
pub fn get_template(defs: &Vec<TemplateDefinition>, name: &str, kind: TemplateType) -> (r: Option<
    usize,
>)
    ensures
        match r {
            Some(i) => find_definition(definitions_view(defs@), name@, kind, defs@.len()) == Some(
                i as int,
            ) && i < defs.len(),
            None => find_definition(definitions_view(defs@), name@, kind, defs@.len()) is None,
        },
{
    let ghost views = definitions_view(defs@);
    let mut k: usize = 0;
    while k < defs.len()
        invariant
            k <= defs.len(),
            views == definitions_view(defs@),
            find_definition(views, name@, kind, k as nat) is None,
        decreases defs.len() - k,
    {
        if str_equal(defs[k].name.as_str(), name) && defs[k].type_ == kind {
            proof {
                lemma_found_stays(views, name@, kind, (k + 1) as nat, defs@.len());
            }
            return Some(k);
        }
        k += 1;
    }
    None
}

/// A definition found among the first `n` is the one found among the first `m`.
proof fn lemma_found_stays(
    defs: Seq<DefinitionView>,
    name: Seq<char>,
    kind: TemplateType,
    n: nat,
    m: nat,
)
    requires
        n <= m,
        find_definition(defs, name, kind, n) is Some,
    ensures
        find_definition(defs, name, kind, m) == find_definition(defs, name, kind, n),
    decreases m,
{
    if n < m {
        lemma_found_stays(defs, name, kind, n, (m - 1) as nat);
    }
}

/// The parameters that a definition declares; none where it is no shortcode.
pub open spec fn declared_parameters(def: DefinitionView) -> Seq<ParameterView> {
    match def.shortcode {
        Some(p) => p,
        None => Seq::empty(),
    }
}

/// The keyword of an argument; a positional argument has none.
pub open spec fn view_key<T>(a: ArgumentView<T>) -> Option<Seq<char>> {
    match a {
        ArgumentView::Positional(_) => None,
        ArgumentView::Keyword(k, _) => Some(k),
    }
}

/// The keywords of the arguments of a call, in the order of the call.
pub open spec fn view_keys<T>(args: Seq<ArgumentView<T>>) -> Seq<Option<Seq<char>>> {
    Seq::new(args.len(), |k: int| view_key(args[k]))
}

/// The outlines of the definitions `defs`, in their order.
pub fn outlines_of_definitions(defs: &Vec<TemplateDefinition>) -> (r: Vec<Outline>)
    ensures
        outlines_view(r@) == outlines_of(definitions_view(defs@)),
{
    let mut out: Vec<Outline> = Vec::new();
    let mut k: usize = 0;
    while k < defs.len()
        invariant
            k <= defs.len(),
            out.len() == k,
            forall|j: int| 0 <= j < k ==> (#[trigger] out@[j])@ == outline_of(defs@[j]@),
        decreases defs.len() - k,
    {
        let def = &defs[k];
        let parameters = match &def.shortcode {
            Some(s) => {
                let copy = clone_declared(&s.parameters);
                assert(declared_view(copy@) =~= s@);
                Some(copy)
            },
            None => None,
        };
        let mut formats: Vec<OutputFormat> = Vec::new();
        let mut i: usize = 0;
        while i < def.templates.len()
            invariant
                i <= def.templates.len(),
                formats.len() == i,
                forall|j: int| 0 <= j < i ==> formats@[j] == def.templates@[j].format,
            decreases def.templates.len() - i,
        {
            formats.push(def.templates[i].format);
            i += 1;
        }
        assert(formats@ =~= def@.formats);
        out.push(Outline { name: def.name.clone(), kind: def.type_, parameters, formats });
        k += 1;
    }
    assert(outlines_view(out@) =~= outlines_of(definitions_view(defs@)));
    out
}

/// What the rendered arguments of `v` hold.
pub open spec fn rendered_view(v: Seq<Argument<Vec<Piece>>>) -> Seq<ArgumentView<Seq<PieceView>>> {
    Seq::new(
        v.len(),
        |k: int|
            match v[k] {
                Argument::Positional(p) => ArgumentView::Positional(pieces_view(p@)),
                Argument::Keyword(key, p) => ArgumentView::Keyword(key@, pieces_view(p@)),
            },
    )
}

/// The binding of the rendered argument `a` at position `i`: under its
/// keyword, or under the name of the parameter at its position.
pub open spec fn argument_binding(
    params: Seq<ParameterView>,
    a: ArgumentView<Seq<PieceView>>,
    i: int,
) -> BindingView {
    match a {
        ArgumentView::Positional(v) => bound(params[i].name, ArgView::Rendered(v)),
        ArgumentView::Keyword(k, v) => bound(k, ArgView::Rendered(v)),
    }
}

/// The bindings of the first `n` rendered arguments.
pub open spec fn argument_bindings(
    params: Seq<ParameterView>,
    rendered: Seq<ArgumentView<Seq<PieceView>>>,
    n: nat,
) -> Seq<BindingView> {
    Seq::new(n, |i: int| argument_binding(params, rendered[i], i))
}

/// The position of the first of the first `n` arguments that is positional
/// and stands behind the last of `count` parameters.
pub open spec fn first_surplus(count: nat, keys: Seq<Option<Seq<char>>>, n: nat) -> Option<int>
    decreases n,
{
    if n == 0 {
        None
    } else {
        match first_surplus(count, keys, (n - 1) as nat) {
            Some(i) => Some(i),
            None => if keys[n - 1] is None && n - 1 >= count {
                Some(n - 1)
            } else {
                None
            },
        }
    }
}

/// A surplus argument found among the first `n` is the one found among the
/// first `m`.
proof fn lemma_surplus_stays(count: nat, keys: Seq<Option<Seq<char>>>, n: nat, m: nat)
    requires
        n <= m,
        first_surplus(count, keys, n) is Some,
    ensures
        first_surplus(count, keys, m) == first_surplus(count, keys, n),
    decreases m,
{
    if n < m {
        lemma_surplus_stays(count, keys, n, (m - 1) as nat);
    }
}

/// A valid call has no surplus argument.
pub proof fn lemma_valid_has_no_surplus(
    params: Seq<ParameterView>,
    keys: Seq<Option<Seq<char>>>,
    n: nat,
)
    requires
        call_is_valid(params, keys),
        n <= keys.len(),
    ensures
        first_surplus(params.len(), keys, n) is None,
    decreases n,
{
    if n > 0 {
        lemma_valid_has_no_surplus(params, keys, (n - 1) as nat);
        assert(crate::templates::argument_error(params, keys, n - 1) is None);
    }
}

/// What identifies a call for its template: its id where it has one, its
/// ordinal, and under `ids` and `id_map` the identified calls of the
/// document, each under its id.
pub open spec fn identity_bindings(id: Option<Seq<char>>, num: nat, ids: Seq<ReferenceView>) -> Seq<
    BindingView,
> {
    (match id {
        Some(id) => seq![bound("id"@, ArgView::Text(id))],
        None => Seq::empty(),
    }) + seq![
        bound("num"@, ArgView::Number(num as u64)),
        bound("ids"@, ArgView::References(ids)),
        bound("id_map"@, ArgView::References(ids)),
    ]
}

/// Everything that the template of a shortcode receives for a call, but for the
/// body: what every shortcode receives, the outlines of the defined templates
/// under `defs`, what identifies the call, and its arguments. Where a key occurs
/// twice the later binding counts.
pub open spec fn shortcode_bindings(
    env: PlanEnvView,
    base: ShortcodeBaseView,
    params: Seq<ParameterView>,
    rendered: Seq<ArgumentView<Seq<PieceView>>>,
) -> Seq<BindingView> {
    env.extra_args + seq![bound("defs"@, ArgView::Definitions(outlines_of(env.definitions)))]
        + identity_bindings(base.id, base.num, env.ids) + argument_bindings(
        params,
        rendered,
        rendered.len(),
    )
}

/// What the template of a shortcode receives for a call with the rendered
/// arguments `rendered`, or why the call cannot be rendered: no shortcode of
/// that name is defined, or the arguments do not fit its parameters.
pub open spec fn shortcode_call(
    env: PlanEnvView,
    base: ShortcodeBaseView,
    rendered: Seq<ArgumentView<Seq<PieceView>>>,
) -> Result<Seq<BindingView>, RenderErrorView> {
    match definition_of(env.definitions, base.name, TemplateType::Shortcode) {
        None => Err(RenderErrorView::TemplateNotFound(base.name)),
        Some(def) => {
            let errors = schema_errors(declared_parameters(def), view_keys(rendered));
            if errors.len() > 0 {
                Err(RenderErrorView::InvalidArguments(base.name, errors))
            } else {
                Ok(shortcode_bindings(env, base, declared_parameters(def), rendered))
            }
        },
    }
}

/// Puts what identifies a call behind `args`, then its rendered arguments,
/// each under its name: a keyword argument under its keyword, a positional
/// argument under the name of the parameter at its position.
///
/// Fails, and leaves `args` as they are, where a positional argument stands
/// behind the last parameter; the error is about the first such argument.
pub fn add_args(
    params: &ShortcodeDefinition,
    args: &mut Vec<Binding>,
    id: &Option<String>,
    num: usize,
    ids: &Vec<Reference>,
    arguments: Vec<Argument<Vec<Piece>>>,
) -> (r: Result<(), SchemaError>)
    ensures
        match first_surplus(
            params@.len(),
            view_keys(rendered_view(arguments@)),
            arguments@.len(),
        ) {
            Some(i) => r matches Err(e) && e@ == (SchemaErrorView::TooManyArguments {
                expected: params@.len(),
                position: i as nat,
            }) && final(args)@ == old(args)@,
            None => r is Ok && bindings_view(final(args)@) == bindings_view(old(args)@)
                + identity_bindings(option_view(*id), num as nat, references_view(ids@))
                + argument_bindings(params@, rendered_view(arguments@), arguments@.len()),
        },
{
    let ghost all = rendered_view(arguments@);
    let ghost keys = view_keys(all);
    let ghost count = params@.len();
    let mut p: usize = 0;
    while p < arguments.len()
        invariant
            p <= arguments.len(),
            all == rendered_view(arguments@),
            keys == view_keys(all),
            count == params@.len(),
            first_surplus(count, keys, p as nat) is None,
        decreases arguments.len() - p,
    {
        let surplus = match &arguments[p] {
            Argument::Positional(_) => p >= params.parameters.len(),
            Argument::Keyword(_, _) => false,
        };
        if surplus {
            proof {
                lemma_surplus_stays(count, keys, (p + 1) as nat, arguments@.len());
            }
            return Err(
                SchemaError::TooManyArguments { expected: params.parameters.len(), position: p },
            );
        }
        p += 1;
    }
    let ghost start = bindings_view(args@);
    let ghost identity = identity_bindings(option_view(*id), num as nat, references_view(ids@));
    match id {
        Some(id) => {
            push_binding(args, bind("id", Arg::Text(id.clone())));
        },
        None => {},
    }
    push_binding(args, bind("num", Arg::Number(num as u64)));
    push_binding(args, bind("ids", Arg::References(clone_references(ids))));
    push_binding(args, bind("id_map", Arg::References(clone_references(ids))));
    assert(bindings_view(args@) =~= start + identity);
    let n = arguments.len();
    let mut arguments = arguments;
    let mut i: usize = 0;
    while i < n
        invariant
            i <= n,
            n == all.len(),
            keys == view_keys(all),
            count == params@.len(),
            arguments@.len() == n - i,
            first_surplus(count, keys, n as nat) is None,
            forall|l: int|
                0 <= l < arguments@.len() ==> (#[trigger] rendered_view(arguments@)[l]) == all[i
                    + l],
            bindings_view(args@) == start + identity + argument_bindings(params@, all, i as nat),
        decreases n - i,
    {
        proof {
            assert(rendered_view(arguments@)[0] == all[i as int]);
            if keys[i as int] is None && i >= count {
                lemma_surplus_at(count, keys, i as int, n as nat);
            }
        }
        let ghost rest_before = rendered_view(arguments@);
        let argument = arguments.remove(0);
        proof {
            assert forall|l: int| 0 <= l < arguments@.len() implies (#[trigger] rendered_view(
                arguments@,
            )[l]) == all[i + 1 + l] by {
                assert(rendered_view(arguments@)[l] == rest_before[l + 1]);
            }
        }
        match argument {
            Argument::Positional(value) => {
                let name = params.parameters[i].name.clone();
                assert(name@ == params@[i as int].name);
                push_binding(args, Binding { key: name, value: Arg::Rendered(value) });
            },
            Argument::Keyword(k, value) => {
                push_binding(args, Binding { key: k, value: Arg::Rendered(value) });
            },
        }
        proof {
            assert(bindings_view(args@) =~= start + identity + argument_bindings(
                params@,
                all,
                (i + 1) as nat,
            ));
        }
        i += 1;
    }
    Ok(())
}

/// A surplus argument at `i` is found among the arguments up to any `n` behind it.
proof fn lemma_surplus_at(count: nat, keys: Seq<Option<Seq<char>>>, i: int, n: nat)
    requires
        0 <= i < n,
        keys[i] is None,
        i >= count,
    ensures
        first_surplus(count, keys, n) is Some,
    decreases n,
{
    if i < n - 1 {
        lemma_surplus_at(count, keys, i, (n - 1) as nat);
    }
}

/// What the template of the shortcode `base` receives for a call with the
/// rendered arguments `rendered`.
///
/// Fails where no shortcode of that name is defined, and where the arguments
/// do not fit the parameters that it declares: then the error holds everything
/// that is wrong with them.
pub fn bind_shortcode(
    env: &PlanEnv,
    base: &ShortcodeBase,
    rendered: Vec<Argument<Vec<Piece>>>,
) -> (r: Result<Vec<Binding>, RenderError>)
    ensures
        match shortcode_call(env@, base@, rendered_view(rendered@)) {
            Ok(bindings) => r matches Ok(b) && bindings_view(b@) == bindings,
            Err(e) => r matches Err(f) && f@ == e,
        },
{
    let ghost all = rendered_view(rendered@);
    let ghost keys = view_keys(all);
    proof {
        assert(argument_keys(rendered@) =~= keys);
    }
    let position = match get_template(env.definitions, base.name.as_str(), TemplateType::Shortcode) {
        None => {
            return Err(RenderError::TemplateNotFound(base.name.clone()));
        },
        Some(p) => p,
    };
    let def = &env.definitions[position];
    let empty = ShortcodeDefinition { parameters: Vec::new() };
    let schema = match &def.shortcode {
        Some(s) => s,
        None => &empty,
    };
    proof {
        assert(definitions_view(env.definitions@)[position as int] == def@);
        assert(schema@ =~= declared_parameters(def@));
    }
    let errors = validate_args(schema, &rendered);
    if errors.len() > 0 {
        return Err(RenderError::InvalidArguments(base.name.clone(), errors));
    }
    let mut args = clone_bindings(env.extra_args);
    let outlines = outlines_of_definitions(env.definitions);
    proof {
        lemma_valid_has_no_surplus(schema@, keys, rendered@.len());
    }
    push_binding(&mut args, bind("defs", Arg::Definitions(outlines)));
    match add_args(schema, &mut args, &base.id, base.num, env.ids, rendered) {
        Ok(()) => {},
        Err(e) => {
            assert(false);
            return Err(RenderError::InvalidArguments(base.name.clone(), Vec::new()));
        },
    }
    proof {
        assert(bindings_view(args@) =~= shortcode_bindings(
            env@,
            base@,
            declared_parameters(def@),
            all,
        ));
    }
    Ok(args)
}

} // verus!
