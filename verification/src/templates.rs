//! Template definitions, and the binding of a shortcode call to the parameters
//! that its template declares.

use crate::ast::Argument;
use crate::document::OutputFormat;
use vstd::prelude::*;
use vstd::string::*;

verus! {

/// What a template is for.
#[derive(Clone, Copy, Debug, PartialEq, Eq, Structural)]
pub enum TemplateType {
    /// Called from a document as a shortcode.
    Shortcode,
    /// Renders a node of the syntax tree.
    Builtin,
    /// Lays out a whole page.
    Layout,
}

/// A parameter that a shortcode template declares.
#[derive(Clone, Debug)]
pub struct ShortcodeParameter {
    pub name: String,
    /// A call may leave the parameter out.
    pub optional: bool,
}

/// The parameters that a shortcode template declares, in positional order.
#[derive(Clone, Debug)]
pub struct ShortcodeDefinition {
    pub parameters: Vec<ShortcodeParameter>,
}

/// The source of a template for one output format.
#[derive(Clone, Debug)]
pub struct TemplateSource {
    pub format: OutputFormat,
    pub source: String,
}

/// A named template: one source for each output format it supports.
#[derive(Clone, Debug)]
pub struct TemplateDefinition {
    pub name: String,
    pub type_: TemplateType,
    /// The parameters, where the template is a shortcode.
    pub shortcode: Option<ShortcodeDefinition>,
    pub templates: Vec<TemplateSource>,
}

/// What a `ShortcodeParameter` holds.
pub struct ParameterView {
    pub name: Seq<char>,
    pub optional: bool,
}

impl View for ShortcodeParameter {
    type V = ParameterView;

    open spec fn view(&self) -> ParameterView {
        ParameterView { name: self.name@, optional: self.optional }
    }
}

impl View for ShortcodeDefinition {
    type V = Seq<ParameterView>;

    open spec fn view(&self) -> Seq<ParameterView> {
        Seq::new(self.parameters@.len(), |k: int| self.parameters@[k]@)
    }
}

/// What a `TemplateDefinition` holds: its sources by the formats they are for.
pub struct DefinitionView {
    pub name: Seq<char>,
    pub type_: TemplateType,
    pub shortcode: Option<Seq<ParameterView>>,
    pub formats: Seq<OutputFormat>,
    pub sources: Seq<Seq<char>>,
}

impl View for TemplateDefinition {
    type V = DefinitionView;

    open spec fn view(&self) -> DefinitionView {
        DefinitionView {
            name: self.name@,
            type_: self.type_,
            shortcode: match self.shortcode {
                Some(s) => Some(s@),
                None => None,
            },
            formats: Seq::new(self.templates@.len(), |k: int| self.templates@[k].format),
            sources: Seq::new(self.templates@.len(), |k: int| self.templates@[k].source@),
        }
    }
}

/// What the definitions of `v` hold.
pub open spec fn definitions_view(v: Seq<TemplateDefinition>) -> Seq<DefinitionView> {
    Seq::new(v.len(), |k: int| v[k]@)
}

/// What is wrong with the arguments of a shortcode call.
#[derive(Clone, Debug)]
pub enum SchemaError {
    /// A keyword argument names no parameter of the template.
    UnknownKeyword(String),
    /// No argument binds a parameter that is not optional.
    MissingArgument(String),
    /// A positional argument stands at a position behind the last parameter.
    TooManyArguments { expected: usize, position: usize },
}

/// What a `SchemaError` holds.
pub enum SchemaErrorView {
    UnknownKeyword(Seq<char>),
    MissingArgument(Seq<char>),
    TooManyArguments { expected: nat, position: nat },
}

impl View for SchemaError {
    type V = SchemaErrorView;

    open spec fn view(&self) -> SchemaErrorView {
        match *self {
            SchemaError::UnknownKeyword(k) => SchemaErrorView::UnknownKeyword(k@),
            SchemaError::MissingArgument(p) => SchemaErrorView::MissingArgument(p@),
            SchemaError::TooManyArguments { expected, position } => {
                SchemaErrorView::TooManyArguments {
                    expected: expected as nat,
                    position: position as nat,
                }
            },
        }
    }
}

/// What the errors of `v` hold.
pub open spec fn errors_view(v: Seq<SchemaError>) -> Seq<SchemaErrorView> {
    Seq::new(v.len(), |k: int| v[k]@)
}

impl SchemaError {
    /// The name that the error is about: the unknown keyword or the missing
    /// parameter. A surplus positional argument has no name.
    pub fn name(&self) -> (r: Option<String>)
        ensures
            match self@ {
                SchemaErrorView::UnknownKeyword(k) => r matches Some(s) && s@ == k,
                SchemaErrorView::MissingArgument(p) => r matches Some(s) && s@ == p,
                SchemaErrorView::TooManyArguments { .. } => r is None,
            },
    {
        match self {
            SchemaError::UnknownKeyword(k) => Some(k.clone()),
            SchemaError::MissingArgument(p) => Some(p.clone()),
            SchemaError::TooManyArguments { .. } => None,
        }
    }
}

/// The keyword of an argument; a positional argument has none.
pub open spec fn argument_key<T>(a: Argument<T>) -> Option<Seq<char>> {
    match a {
        Argument::Positional(_) => None,
        Argument::Keyword(k, _) => Some(k@),
    }
}

/// The keywords of the arguments of a call, in the order of the call.
pub open spec fn argument_keys<T>(args: Seq<Argument<T>>) -> Seq<Option<Seq<char>>> {
    Seq::new(args.len(), |k: int| argument_key(args[k]))
}

/// Some parameter is named `name`.
pub open spec fn declares(params: Seq<ParameterView>, name: Seq<char>) -> bool {
    exists|j: int| 0 <= j < params.len() && (#[trigger] params[j]).name == name
}

/// The argument at position `i` binds the parameter at index `j`: by standing
/// at that position, or by naming it.
pub open spec fn binds(
    params: Seq<ParameterView>,
    keys: Seq<Option<Seq<char>>>,
    i: int,
    j: int,
) -> bool {
    match keys[i] {
        None => i == j,
        Some(k) => params[j].name == k,
    }
}

/// Some argument binds the parameter at index `j`.
pub open spec fn is_bound(params: Seq<ParameterView>, keys: Seq<Option<Seq<char>>>, j: int) -> bool {
    exists|i: int| 0 <= i < keys.len() && #[trigger] binds(params, keys, i, j)
}

/// What is wrong with the argument at position `i`, if anything.
pub open spec fn argument_error(
    params: Seq<ParameterView>,
    keys: Seq<Option<Seq<char>>>,
    i: int,
) -> Option<SchemaErrorView> {
    match keys[i] {
        None => if i < params.len() {
            None
        } else {
            Some(SchemaErrorView::TooManyArguments { expected: params.len(), position: i as nat })
        },
        Some(k) => if declares(params, k) {
            None
        } else {
            Some(SchemaErrorView::UnknownKeyword(k))
        },
    }
}

/// The parameter at index `j` is missing: it is not optional and nothing binds it.
pub open spec fn missing_error(
    params: Seq<ParameterView>,
    keys: Seq<Option<Seq<char>>>,
    j: int,
) -> Option<SchemaErrorView> {
    if !params[j].optional && !is_bound(params, keys, j) {
        Some(SchemaErrorView::MissingArgument(params[j].name))
    } else {
        None
    }
}

/// No element, or one.
pub open spec fn optional_seq<A>(o: Option<A>) -> Seq<A> {
    match o {
        Some(a) => seq![a],
        None => Seq::empty(),
    }
}

/// The errors of the first `n` arguments, in the order of the call.
pub open spec fn argument_errors(
    params: Seq<ParameterView>,
    keys: Seq<Option<Seq<char>>>,
    n: nat,
) -> Seq<SchemaErrorView>
    decreases n,
{
    if n == 0 {
        Seq::empty()
    } else {
        argument_errors(params, keys, (n - 1) as nat) + optional_seq(
            argument_error(params, keys, n - 1),
        )
    }
}

/// The errors for the first `n` parameters, in the order of the declaration.
pub open spec fn missing_errors(
    params: Seq<ParameterView>,
    keys: Seq<Option<Seq<char>>>,
    n: nat,
) -> Seq<SchemaErrorView>
    decreases n,
{
    if n == 0 {
        Seq::empty()
    } else {
        missing_errors(params, keys, (n - 1) as nat) + optional_seq(
            missing_error(params, keys, n - 1),
        )
    }
}

/// Everything that is wrong with a call: first what is wrong with its
/// arguments, in their order, then the parameters that are missing, in theirs.
pub open spec fn schema_errors(params: Seq<ParameterView>, keys: Seq<Option<Seq<char>>>) -> Seq<
    SchemaErrorView,
> {
    argument_errors(params, keys, keys.len()) + missing_errors(params, keys, params.len())
}

/// A call is valid: each positional argument stands at the position of a
/// parameter, each keyword names a parameter, and each parameter that is not
/// optional is bound.
pub open spec fn call_is_valid(params: Seq<ParameterView>, keys: Seq<Option<Seq<char>>>) -> bool {
    &&& forall|i: int| 0 <= i < keys.len() ==> #[trigger] argument_error(params, keys, i) is None
    &&& forall|j: int| 0 <= j < params.len() ==> #[trigger] missing_error(params, keys, j) is None
}

/// The errors of the first `n` arguments hold the error of each of them, and
/// nothing else.
pub proof fn lemma_argument_errors(
    params: Seq<ParameterView>,
    keys: Seq<Option<Seq<char>>>,
    n: nat,
)
    ensures
        forall|i: int|
            0 <= i < n && argument_error(params, keys, i) is Some ==> argument_errors(
                params,
                keys,
                n,
            ).contains(#[trigger] argument_error(params, keys, i)->0),
        argument_errors(params, keys, n).len() == 0 <==> forall|i: int|
            0 <= i < n ==> #[trigger] argument_error(params, keys, i) is None,
    decreases n,
{
    if n > 0 {
        lemma_argument_errors(params, keys, (n - 1) as nat);
        let before = argument_errors(params, keys, (n - 1) as nat);
        let last = optional_seq(argument_error(params, keys, n - 1));
        let all = argument_errors(params, keys, n);
        assert(all == before + last);
        assert forall|i: int|
            0 <= i < n && argument_error(params, keys, i) is Some implies all.contains(
            #[trigger] argument_error(params, keys, i)->0,
        ) by {
            let e = argument_error(params, keys, i)->0;
            if i < n - 1 {
                let k = choose|k: int| 0 <= k < before.len() && before[k] == e;
                assert(all[k] == e);
            } else {
                assert(all[before.len() as int] == e);
            }
        }
    }
}

/// The errors for the first `n` parameters hold the error for each of them, and
/// nothing else.
pub proof fn lemma_missing_errors(
    params: Seq<ParameterView>,
    keys: Seq<Option<Seq<char>>>,
    n: nat,
)
    ensures
        forall|j: int|
            0 <= j < n && missing_error(params, keys, j) is Some ==> missing_errors(
                params,
                keys,
                n,
            ).contains(#[trigger] missing_error(params, keys, j)->0),
        missing_errors(params, keys, n).len() == 0 <==> forall|j: int|
            0 <= j < n ==> #[trigger] missing_error(params, keys, j) is None,
    decreases n,
{
    if n > 0 {
        lemma_missing_errors(params, keys, (n - 1) as nat);
        let before = missing_errors(params, keys, (n - 1) as nat);
        let last = optional_seq(missing_error(params, keys, n - 1));
        let all = missing_errors(params, keys, n);
        assert(all == before + last);
        assert forall|j: int|
            0 <= j < n && missing_error(params, keys, j) is Some implies all.contains(
            #[trigger] missing_error(params, keys, j)->0,
        ) by {
            let e = missing_error(params, keys, j)->0;
            if j < n - 1 {
                let k = choose|k: int| 0 <= k < before.len() && before[k] == e;
                assert(all[k] == e);
            } else {
                assert(all[before.len() as int] == e);
            }
        }
    }
}

/// Argument validation, unknown keywords: a keyword argument that names no
/// declared parameter is reported, by its name.
pub proof fn lemma_unknown_keyword_reported(
    params: Seq<ParameterView>,
    keys: Seq<Option<Seq<char>>>,
    i: int,
)
    requires
        0 <= i < keys.len(),
        keys[i] is Some,
        !declares(params, keys[i]->0),
    ensures
        schema_errors(params, keys).contains(SchemaErrorView::UnknownKeyword(keys[i]->0)),
{
    lemma_argument_errors(params, keys, keys.len());
    let e = SchemaErrorView::UnknownKeyword(keys[i]->0);
    assert(argument_error(params, keys, i) == Some(e));
    let first = argument_errors(params, keys, keys.len());
    let k = choose|k: int| 0 <= k < first.len() && first[k] == e;
    assert(schema_errors(params, keys)[k] == e);
}

/// Argument validation, missing arguments: a parameter that is not optional
/// and that no argument binds is reported, by its name.
pub proof fn lemma_missing_argument_reported(
    params: Seq<ParameterView>,
    keys: Seq<Option<Seq<char>>>,
    j: int,
)
    requires
        0 <= j < params.len(),
        !params[j].optional,
        !is_bound(params, keys, j),
    ensures
        schema_errors(params, keys).contains(SchemaErrorView::MissingArgument(params[j].name)),
{
    lemma_missing_errors(params, keys, params.len());
    let e = SchemaErrorView::MissingArgument(params[j].name);
    assert(missing_error(params, keys, j) == Some(e));
    let first = argument_errors(params, keys, keys.len());
    let second = missing_errors(params, keys, params.len());
    let k = choose|k: int| 0 <= k < second.len() && second[k] == e;
    assert(schema_errors(params, keys)[first.len() + k] == e);
}

/// A call has no errors exactly when it is valid.
pub proof fn lemma_no_errors_iff_valid(params: Seq<ParameterView>, keys: Seq<Option<Seq<char>>>)
    ensures
        schema_errors(params, keys).len() == 0 <==> call_is_valid(params, keys),
{
    lemma_argument_errors(params, keys, keys.len());
    lemma_missing_errors(params, keys, params.len());
}

/// Is some parameter of `schema` named `name`?
pub fn declares_parameter(schema: &ShortcodeDefinition, name: &str) -> (r: bool)
    ensures
        r == declares(schema@, name@),
{
    let mut j: usize = 0;
    while j < schema.parameters.len()
        invariant
            j <= schema.parameters.len(),
            forall|l: int| 0 <= l < j ==> (#[trigger] schema@[l]).name != name@,
        decreases schema.parameters.len() - j,
    {
        if str_equal(schema.parameters[j].name.as_str(), name) {
            assert(schema@[j as int].name == name@);
            return true;
        }
        j += 1;
    }
    false
}

/// Are two texts the same?
pub fn str_equal(a: &str, b: &str) -> (r: bool)
    ensures
        r == (a@ == b@),
{
    let x = String::from_str(a);
    let y = String::from_str(b);
    x == y
}

/// Does some argument of the call bind the parameter at index `j`?
fn parameter_is_bound<T>(schema: &ShortcodeDefinition, args: &Vec<Argument<T>>, j: usize) -> (r:
    bool)
    requires
        j < schema.parameters.len(),
    ensures
        r == is_bound(schema@, argument_keys(args@), j as int),
{
    let ghost params = schema@;
    let ghost keys = argument_keys(args@);
    let mut i: usize = 0;
    while i < args.len()
        invariant
            i <= args.len(),
            j < schema.parameters.len(),
            params == schema@,
            keys == argument_keys(args@),
            forall|l: int| 0 <= l < i ==> !#[trigger] binds(params, keys, l, j as int),
        decreases args.len() - i,
    {
        let hit = match &args[i] {
            Argument::Positional(_) => i == j,
            Argument::Keyword(k, _) => str_equal(schema.parameters[j].name.as_str(), k.as_str()),
        };
        if hit {
            assert(binds(params, keys, i as int, j as int));
            return true;
        }
        i += 1;
    }
    false
}

/// Everything that is wrong with the arguments of a call of the shortcode that
/// `schema` declares.
///
/// A positional argument binds the parameter at its own position in the call
/// and is surplus where there is none. A keyword argument binds the parameter
/// it names and is unknown where there is none. A parameter that is not
/// optional and that nothing binds is missing. The call is valid exactly where
/// the result is empty.
pub fn validate_args<T>(schema: &ShortcodeDefinition, args: &Vec<Argument<T>>) -> (r: Vec<
    SchemaError,
>)
    ensures
        errors_view(r@) == schema_errors(schema@, argument_keys(args@)),
        r@.len() == 0 <==> call_is_valid(schema@, argument_keys(args@)),
{
    let ghost params = schema@;
    let ghost keys = argument_keys(args@);
    let mut r: Vec<SchemaError> = Vec::new();
    let mut i: usize = 0;
    while i < args.len()
        invariant
            i <= args.len(),
            params == schema@,
            keys == argument_keys(args@),
            errors_view(r@) == argument_errors(params, keys, i as nat),
        decreases args.len() - i,
    {
        let ghost before = r@;
        match &args[i] {
            Argument::Positional(_) => {
                if i >= schema.parameters.len() {
                    r.push(
                        SchemaError::TooManyArguments {
                            expected: schema.parameters.len(),
                            position: i,
                        },
                    );
                }
            },
            Argument::Keyword(k, _) => {
                if !declares_parameter(schema, k.as_str()) {
                    r.push(SchemaError::UnknownKeyword(k.clone()));
                }
            },
        }
        proof {
            assert(errors_view(r@) =~= errors_view(before) + optional_seq(
                argument_error(params, keys, i as int),
            ));
        }
        i += 1;
    }
    let mut j: usize = 0;
    while j < schema.parameters.len()
        invariant
            j <= schema.parameters.len(),
            params == schema@,
            keys == argument_keys(args@),
            errors_view(r@) == argument_errors(params, keys, keys.len()) + missing_errors(
                params,
                keys,
                j as nat,
            ),
        decreases schema.parameters.len() - j,
    {
        let ghost before = r@;
        if !schema.parameters[j].optional && !parameter_is_bound(schema, args, j) {
            r.push(SchemaError::MissingArgument(schema.parameters[j].name.clone()));
        }
        proof {
            assert(errors_view(r@) =~= errors_view(before) + optional_seq(
                missing_error(params, keys, j as int),
            ));
        }
        j += 1;
    }
    proof {
        lemma_no_errors_iff_valid(params, keys);
    }
    r
}

} // verus!
