//! The template engine and the other outside services that running a plan needs:
//! Tera renders templates, syntect highlights code and serde_json writes JSON.
//! What is stated of them here is believed, not proved.

use crate::document::OutputFormat;
use crate::plan::{
    outlines_view, parameters_view, references_view, CallParameter, CallParameterView, Outline,
    OutlineView, Reference, ReferenceView,
};
use crate::notebook::strings_view;
use crate::renderers::shortcode::{
    definition_of, get_template, RenderError, RenderErrorView,
};
use crate::templates::{
    definitions_view, validate_args, DefinitionView, SchemaError, ShortcodeDefinition,
    TemplateDefinition, TemplateType,
};
use vstd::prelude::*;
use vstd::string::*;

verus! {

/// Tera's engine: the templates that were added to it, with Tera's own
/// filters, tests and functions.
#[verifier::external_type_specification]
#[verifier::external_body]
pub struct ExTera(tera::Tera);

/// The values that a template is rendered with.
#[verifier::external_type_specification]
#[verifier::external_body]
pub struct ExContext(tera::Context);

/// Why Tera could not parse or render a template.
#[verifier::external_type_specification]
#[verifier::external_body]
pub struct ExTeraError(tera::Error);

/// The syntax definitions that syntect highlights with.
#[verifier::external_type_specification]
#[verifier::external_body]
pub struct ExSyntaxSet(syntect::parsing::SyntaxSet);

/// One syntax definition of a set.
#[verifier::external_type_specification]
#[verifier::external_body]
pub struct ExSyntaxReference(syntect::parsing::SyntaxReference);

/// The colours that syntect highlights with.
#[verifier::external_type_specification]
#[verifier::external_body]
pub struct ExTheme(syntect::highlighting::Theme);

/// Why syntect could not highlight a text.
#[verifier::external_type_specification]
#[verifier::external_body]
pub struct ExSyntectError(syntect::Error);

/// Why serde_json could not write a value.
#[verifier::external_type_specification]
#[verifier::external_body]
pub struct ExJsonError(serde_json::Error);

/// A record of JSON values under their keys.
#[verifier::external_type_specification]
#[verifier::external_body]
#[verifier::reject_recursive_types(K)]
#[verifier::reject_recursive_types(V)]
pub struct ExJsonMap<K, V>(serde_json::Map<K, V>);

/// A value that a context holds under a key: a JSON value.
pub enum EntryView {
    Null,
    Bool(bool),
    Number(u64),
    Text(Seq<char>),
    /// A list of values, in their order.
    List(Seq<EntryView>),
    /// A record: values under their keys.
    Record(Map<Seq<char>, EntryView>),
}

/// What a context holds: the value under each key that was inserted.
pub uninterp spec fn context_entries(context: tera::Context) -> Map<Seq<char>, EntryView>;

/// What a record holds: the value under each key that was inserted.
pub uninterp spec fn record_entries(record: serde_json::Map<String, serde_json::Value>) -> Map<
    Seq<char>,
    EntryView,
>;

/// The texts `texts` as a list of values.
pub open spec fn text_entries(texts: Seq<Seq<char>>) -> Seq<EntryView> {
    Seq::new(texts.len(), |k: int| EntryView::Text(texts[k]))
}

/// What a JSON value holds.
pub uninterp spec fn json_entry(value: serde_json::Value) -> EntryView;

/// What the JSON values of `values` hold, in their order.
pub open spec fn json_entries(values: Seq<serde_json::Value>) -> Seq<EntryView> {
    Seq::new(values.len(), |k: int| json_entry(values[k]))
}

/// A text where there is one, null where there is none.
pub open spec fn optional_entry(text: Option<Seq<char>>) -> EntryView {
    match text {
        Some(t) => EntryView::Text(t),
        None => EntryView::Null,
    }
}

/// An argument of a call as a record: its key, null where it is an argument
/// by position, and the text of its value.
pub open spec fn parameter_entry(p: CallParameterView) -> EntryView {
    EntryView::Record(
        no_entries().insert("key"@, optional_entry(p.key)).insert(
            "value"@,
            EntryView::Text(p.value),
        ),
    )
}

/// The arguments `v` as a list of records.
pub open spec fn parameter_entries(v: Seq<CallParameterView>) -> Seq<EntryView> {
    Seq::new(v.len(), |k: int| parameter_entry(v[k]))
}

/// The definition of an identified call as a record: its name, its id and
/// its arguments.
pub open spec fn definition_entry(r: ReferenceView) -> EntryView {
    EntryView::Record(
        no_entries().insert("name"@, EntryView::Text(r.name)).insert(
            "id"@,
            EntryView::Text(r.id),
        ).insert("parameters"@, EntryView::List(parameter_entries(r.parameters))),
    )
}

/// What a record of references holds under the id of a reference: the list
/// of the ordinal of the call and its definition.
pub open spec fn reference_entry(r: ReferenceView) -> EntryView {
    EntryView::List(seq![EntryView::Number(r.num as u64), definition_entry(r)])
}

/// The record of the references `refs`: under the id of each reference the
/// ordinal of the call and its definition. Where two references have one id,
/// the later counts.
pub open spec fn references_record(refs: Seq<ReferenceView>) -> Map<Seq<char>, EntryView>
    decreases refs.len(),
{
    if refs.len() == 0 {
        Map::empty()
    } else {
        references_record(refs.drop_last()).insert(refs.last().id, reference_entry(refs.last()))
    }
}

/// A declared parameter as a record: its name, and whether a call may leave
/// it out.
pub open spec fn declared_entry(p: crate::templates::ParameterView) -> EntryView {
    EntryView::Record(
        no_entries().insert("name"@, EntryView::Text(p.name)).insert(
            "optional"@,
            EntryView::Bool(p.optional),
        ),
    )
}

/// The declared parameters `v` as a list of records.
pub open spec fn declared_entries(v: Seq<crate::templates::ParameterView>) -> Seq<EntryView> {
    Seq::new(v.len(), |k: int| declared_entry(v[k]))
}

/// The formats `v` as a list of their names.
pub open spec fn format_entries(v: Seq<OutputFormat>) -> Seq<EntryView> {
    Seq::new(v.len(), |k: int| EntryView::Text(format_name(v[k])))
}

/// The outline of a template as a record: its name, its kind under `type`,
/// its declared parameters, null where it is no shortcode, and the names of
/// the formats that it has a source for.
pub open spec fn outline_entry(o: OutlineView) -> EntryView {
    EntryView::Record(
        no_entries().insert("name"@, EntryView::Text(o.name)).insert(
            "type"@,
            EntryView::Text(kind_name(o.kind)),
        ).insert(
            "parameters"@,
            match o.parameters {
                Some(p) => EntryView::List(declared_entries(p)),
                None => EntryView::Null,
            },
        ).insert("formats"@, EntryView::List(format_entries(o.formats))),
    )
}

/// The record of the outlines `v`: each under its name. Where two have one
/// name, the later counts.
pub open spec fn outlines_record(v: Seq<OutlineView>) -> Map<Seq<char>, EntryView>
    decreases v.len(),
{
    if v.len() == 0 {
        Map::empty()
    } else {
        outlines_record(v.drop_last()).insert(v.last().name, outline_entry(v.last()))
    }
}

/// The entries of a context that holds nothing.
pub open spec fn no_entries() -> Map<Seq<char>, EntryView> {
    Map::empty()
}

/// `tera::Tera::default`: an engine without templates. Nothing is claimed
/// of it.
#[verifier::external_body]
pub(crate) fn engine_new() -> tera::Tera {
    tera::Tera::default()
}

/// `tera::Tera::autoescape_on`: the engine escapes what templates write
/// whose names end in one of `suffixes`. Nothing is claimed of it.
#[verifier::external_body]
pub(crate) fn engine_escape(engine: &mut tera::Tera, suffixes: Vec<&'static str>) {
    engine.autoescape_on(suffixes);
}

/// `tera::Tera::add_raw_template`: parses `source` and adds it under `name`.
/// Nothing is claimed of the outcome.
#[verifier::external_body]
pub(crate) fn engine_add(engine: &mut tera::Tera, name: &str, source: &str) -> Result<
    (),
    tera::Error,
> {
    engine.add_raw_template(name, source)
}

/// `tera::Tera::render`: what the template `name` makes of `context`. The
/// outcome depends on the templates of the engine and, through Tera's own
/// functions, on the environment of the process; nothing is claimed of it.
#[verifier::external_body]
pub(crate) fn engine_render(engine: &tera::Tera, name: &str, context: &tera::Context) -> Result<
    String,
    tera::Error,
> {
    engine.render(name, context)
}

/// `to_string` of a `tera::Error`: the message of the error.
#[verifier::external_body]
pub(crate) fn tera_error_text(error: &tera::Error) -> String {
    error.to_string()
}

/// `tera::Context::new`: a context that holds nothing.
#[verifier::external_body]
pub(crate) fn context_new() -> (context: tera::Context)
    ensures
        context_entries(context) == no_entries(),
{
    tera::Context::new()
}

/// `tera::Context::insert` of a JSON value: the context then holds what the
/// value holds under `key`, in place of what it held there, and under every
/// other key what it held.
#[verifier::external_body]
pub(crate) fn context_insert_value(
    context: &mut tera::Context,
    key: &str,
    value: &serde_json::Value,
)
    ensures
        context_entries(*final(context)) == context_entries(*old(context)).insert(
            key@,
            json_entry(*value),
        ),
{
    context.insert(key, value);
}

/// `serde_json::Value::Null`: the JSON value null.
#[verifier::external_body]
pub(crate) fn json_null() -> (r: serde_json::Value)
    ensures
        json_entry(r) == EntryView::Null,
{
    serde_json::Value::Null
}

/// `serde_json::Value::from` a `bool`: the JSON value of a truth value.
#[verifier::external_body]
pub(crate) fn json_bool(value: bool) -> (r: serde_json::Value)
    ensures
        json_entry(r) == EntryView::Bool(value),
{
    serde_json::Value::from(value)
}

/// `serde_json::Value::from` a `u64`: the JSON value of a number.
#[verifier::external_body]
pub(crate) fn json_number(value: u64) -> (r: serde_json::Value)
    ensures
        json_entry(r) == EntryView::Number(value),
{
    serde_json::Value::from(value)
}

/// `serde_json::Value::from` a `&str`: the JSON value of a text.
#[verifier::external_body]
pub(crate) fn json_string(value: &str) -> (r: serde_json::Value)
    ensures
        json_entry(r) == EntryView::Text(value@),
{
    serde_json::Value::from(value)
}

/// `serde_json::Value::Array`: the JSON list of the values, in their order.
#[verifier::external_body]
pub(crate) fn json_list(values: Vec<serde_json::Value>) -> (r: serde_json::Value)
    ensures
        json_entry(r) == EntryView::List(json_entries(values@)),
{
    serde_json::Value::Array(values)
}

/// `serde_json::Value::Object`: the JSON value of a record.
#[verifier::external_body]
pub(crate) fn json_record(record: serde_json::Map<String, serde_json::Value>) -> (r:
    serde_json::Value)
    ensures
        json_entry(r) == EntryView::Record(record_entries(record)),
{
    serde_json::Value::Object(record)
}

/// `serde_json::Map::new`: a record that holds nothing.
#[verifier::external_body]
pub(crate) fn record_new() -> (record: serde_json::Map<String, serde_json::Value>)
    ensures
        record_entries(record) == no_entries(),
{
    serde_json::Map::new()
}

/// `serde_json::Map::insert`: the record then holds what the value holds
/// under `key`, in place of what it held there, and under every other key
/// what it held.
#[verifier::external_body]
pub(crate) fn record_insert(
    record: &mut serde_json::Map<String, serde_json::Value>,
    key: &str,
    value: serde_json::Value,
)
    ensures
        record_entries(*final(record)) == record_entries(*old(record)).insert(
            key@,
            json_entry(value),
        ),
{
    record.insert(key.to_string(), value);
}

/// The JSON list of the texts `texts`.
pub fn texts_value(texts: &Vec<String>) -> (r: serde_json::Value)
    ensures
        json_entry(r) == EntryView::List(text_entries(strings_view(texts@))),
{
    let mut values: Vec<serde_json::Value> = Vec::new();
    let mut k: usize = 0;
    while k < texts.len()
        invariant
            k <= texts.len(),
            values.len() == k,
            forall|j: int|
                0 <= j < k ==> json_entry(#[trigger] values@[j]) == EntryView::Text(texts@[j]@),
        decreases texts.len() - k,
    {
        values.push(json_string(texts[k].as_str()));
        k += 1;
    }
    assert(json_entries(values@) =~= text_entries(strings_view(texts@)));
    json_list(values)
}

/// The name of the format `format`.
pub fn format_text(format: OutputFormat) -> (r: String)
    ensures
        r@ == format_name(format),
{
    match format {
        OutputFormat::Notebook => String::from_str("notebook"),
        OutputFormat::Html => String::from_str("html"),
        OutputFormat::Info => String::from_str("info"),
        OutputFormat::LaTeX => String::from_str("latex"),
        OutputFormat::Markdown => String::from_str("markdown"),
    }
}

/// The name of the kind `kind`.
pub fn kind_text(kind: TemplateType) -> (r: String)
    ensures
        r@ == kind_name(kind),
{
    match kind {
        TemplateType::Shortcode => String::from_str("shortcode"),
        TemplateType::Builtin => String::from_str("builtin"),
        TemplateType::Layout => String::from_str("layout"),
    }
}

/// The JSON value of the outline of a template.
pub fn outline_value(outline: &Outline) -> (r: serde_json::Value)
    ensures
        json_entry(r) == outline_entry(outline@),
{
    let parameters = match &outline.parameters {
        Some(declared) => {
            let mut values: Vec<serde_json::Value> = Vec::new();
            let mut k: usize = 0;
            while k < declared.len()
                invariant
                    k <= declared.len(),
                    values.len() == k,
                    forall|j: int|
                        0 <= j < k ==> json_entry(#[trigger] values@[j]) == declared_entry(
                            declared@[j]@,
                        ),
                decreases declared.len() - k,
            {
                let mut record = record_new();
                record_insert(&mut record, "name", json_string(declared[k].name.as_str()));
                record_insert(&mut record, "optional", json_bool(declared[k].optional));
                values.push(json_record(record));
                k += 1;
            }
            assert(json_entries(values@) =~= declared_entries(
                crate::plan::declared_view(declared@),
            ));
            json_list(values)
        },
        None => json_null(),
    };
    let mut formats: Vec<serde_json::Value> = Vec::new();
    let mut k: usize = 0;
    while k < outline.formats.len()
        invariant
            k <= outline.formats.len(),
            formats.len() == k,
            forall|j: int|
                0 <= j < k ==> json_entry(#[trigger] formats@[j]) == EntryView::Text(
                    format_name(outline.formats@[j]),
                ),
        decreases outline.formats.len() - k,
    {
        formats.push(json_string(format_text(outline.formats[k]).as_str()));
        k += 1;
    }
    assert(json_entries(formats@) =~= format_entries(outline.formats@));
    let mut record = record_new();
    record_insert(&mut record, "name", json_string(outline.name.as_str()));
    record_insert(&mut record, "type", json_string(kind_text(outline.kind).as_str()));
    record_insert(&mut record, "parameters", parameters);
    record_insert(&mut record, "formats", json_list(formats));
    json_record(record)
}

/// The record of the outlines `outlines`: each under its name.
pub fn outlines_value(outlines: &Vec<Outline>) -> (r: serde_json::Value)
    ensures
        json_entry(r) == EntryView::Record(outlines_record(outlines_view(outlines@))),
{
    let ghost views = outlines_view(outlines@);
    let mut record = record_new();
    let mut k: usize = 0;
    assert(views.subrange(0, 0) =~= Seq::<OutlineView>::empty());
    while k < outlines.len()
        invariant
            k <= outlines.len(),
            views == outlines_view(outlines@),
            record_entries(record) == outlines_record(views.subrange(0, k as int)),
        decreases outlines.len() - k,
    {
        proof {
            assert(views[k as int] == outlines[k as int]@);
            assert(views.subrange(0, k + 1).drop_last() =~= views.subrange(0, k as int));
            assert(views.subrange(0, k + 1).last() == views[k as int]);
        }
        record_insert(&mut record, outlines[k].name.as_str(), outline_value(&outlines[k]));
        k += 1;
    }
    assert(views.subrange(0, k as int) =~= views);
    json_record(record)
}

/// The JSON value of a text where there is one, null where there is none.
pub fn optional_value(text: &Option<String>) -> (r: serde_json::Value)
    ensures
        json_entry(r) == optional_entry(crate::notebook::option_view(*text)),
{
    match text {
        Some(t) => json_string(t.as_str()),
        None => json_null(),
    }
}

/// The JSON list of the arguments `parameters`, each as a record.
pub fn parameters_value(parameters: &Vec<CallParameter>) -> (r: serde_json::Value)
    ensures
        json_entry(r) == EntryView::List(parameter_entries(parameters_view(parameters@))),
{
    let mut values: Vec<serde_json::Value> = Vec::new();
    let mut k: usize = 0;
    while k < parameters.len()
        invariant
            k <= parameters.len(),
            values.len() == k,
            forall|j: int|
                0 <= j < k ==> json_entry(#[trigger] values@[j]) == parameter_entry(
                    parameters@[j]@,
                ),
        decreases parameters.len() - k,
    {
        let mut record = record_new();
        record_insert(&mut record, "key", optional_value(&parameters[k].key));
        record_insert(&mut record, "value", json_string(parameters[k].value.as_str()));
        values.push(json_record(record));
        k += 1;
    }
    assert(json_entries(values@) =~= parameter_entries(parameters_view(parameters@)));
    json_list(values)
}

/// The JSON value of a reference: the list of the ordinal of the call and
/// its definition.
pub fn reference_value(reference: &Reference) -> (r: serde_json::Value)
    ensures
        json_entry(r) == reference_entry(reference@),
{
    let mut record = record_new();
    record_insert(&mut record, "name", json_string(reference.name.as_str()));
    record_insert(&mut record, "id", json_string(reference.id.as_str()));
    record_insert(&mut record, "parameters", parameters_value(&reference.parameters));
    let mut pair: Vec<serde_json::Value> = Vec::new();
    pair.push(json_number(reference.num as u64));
    pair.push(json_record(record));
    assert(json_entries(pair@) =~= seq![
        EntryView::Number(reference@.num as u64),
        definition_entry(reference@),
    ]);
    json_list(pair)
}

/// The record of the references `refs`: under the id of each reference the
/// ordinal of the call and its definition.
pub fn reference_record(refs: &Vec<Reference>) -> (r: serde_json::Value)
    ensures
        json_entry(r) == EntryView::Record(references_record(references_view(refs@))),
{
    let ghost views = references_view(refs@);
    let mut record = record_new();
    let mut k: usize = 0;
    assert(views.subrange(0, 0) =~= Seq::<ReferenceView>::empty());
    while k < refs.len()
        invariant
            k <= refs.len(),
            views == references_view(refs@),
            record_entries(record) == references_record(views.subrange(0, k as int)),
        decreases refs.len() - k,
    {
        proof {
            assert(views[k as int] == refs[k as int]@);
            assert(views.subrange(0, k + 1).drop_last() =~= views.subrange(0, k as int));
            assert(views.subrange(0, k + 1).last() == views[k as int]);
        }
        record_insert(&mut record, refs[k].id.as_str(), reference_value(&refs[k]));
        k += 1;
    }
    assert(views.subrange(0, k as int) =~= views);
    json_record(record)
}

/// The syntax that a set has for files with an extension, `None` where it has
/// none.
pub uninterp spec fn syntax_for(
    syntax_set: syntect::parsing::SyntaxSet,
    extension: Seq<char>,
) -> Option<syntect::parsing::SyntaxReference>;

/// The HTML that syntect writes for a text highlighted with a syntax of a set
/// and the colours of a theme, `None` where it writes none.
pub uninterp spec fn highlighted(
    source: Seq<char>,
    syntax_set: syntect::parsing::SyntaxSet,
    syntax: syntect::parsing::SyntaxReference,
    theme: syntect::highlighting::Theme,
) -> Option<Seq<char>>;

/// The syntax `syntax` is one of the set `syntax_set`: the set has it for
/// the files of some extension.
pub open spec fn belongs(
    syntax: syntect::parsing::SyntaxReference,
    syntax_set: syntect::parsing::SyntaxSet,
) -> bool {
    exists|extension: Seq<char>| #[trigger] syntax_for(syntax_set, extension) == Some(syntax)
}

/// `syntect::parsing::SyntaxSet::find_syntax_by_extension`: the syntax of the
/// set for files with the extension `extension`, `None` where the set has
/// none. It is the same whenever the set and the extension are.
#[verifier::external_body]
pub(crate) fn find_syntax<'a>(
    syntax_set: &'a syntect::parsing::SyntaxSet,
    extension: &str,
) -> (r: Option<&'a syntect::parsing::SyntaxReference>)
    ensures
        match r {
            Some(syntax) => syntax_for(*syntax_set, extension@) == Some(*syntax),
            None => syntax_for(*syntax_set, extension@) is None,
        },
{
    syntax_set.find_syntax_by_extension(extension)
}

/// `syntect::html::highlighted_html_for_string`: `source` as highlighted HTML,
/// or why it could not be highlighted. The outcome is the same whenever the
/// text, the set, the syntax and the theme are. The syntax must come from the
/// set: with a syntax of another set syntect may panic.
#[verifier::external_body]
pub(crate) fn highlight_html(
    source: &str,
    syntax_set: &syntect::parsing::SyntaxSet,
    syntax: &syntect::parsing::SyntaxReference,
    theme: &syntect::highlighting::Theme,
) -> (r: Result<String, syntect::Error>)
    requires
        belongs(*syntax, *syntax_set),
    ensures
        match r {
            Ok(html) => highlighted(source@, *syntax_set, *syntax, *theme) == Some(html@),
            Err(_) => highlighted(source@, *syntax_set, *syntax, *theme) is None,
        },
{
    syntect::html::highlighted_html_for_string(source, syntax_set, syntax, theme)
}

/// `to_string` of a `syntect::Error`: the message of the error.
#[verifier::external_body]
pub(crate) fn syntect_error_text(error: &syntect::Error) -> String {
    error.to_string()
}

/// The JSON text that serde_json writes for a value, `None` where it writes
/// none.
pub uninterp spec fn json_written(value: serde_json::Value) -> Option<Seq<char>>;

/// `serde_json::to_string`: the JSON text of `value`, which is the same
/// whenever the value is.
#[verifier::external_body]
pub(crate) fn json_text(value: &serde_json::Value) -> (r: Result<String, serde_json::Error>)
    ensures
        match r {
            Ok(s) => json_written(*value) == Some(s@),
            Err(_) => json_written(*value) is None,
        },
{
    serde_json::to_string(value)
}

/// `to_string` of a `serde_json::Error`: the message of the error.
#[verifier::external_body]
pub(crate) fn json_error_text(error: &serde_json::Error) -> String {
    error.to_string()
}

/// The name of an output format in the names of templates.
pub open spec fn format_name(format: OutputFormat) -> Seq<char> {
    match format {
        OutputFormat::Notebook => "notebook"@,
        OutputFormat::Html => "html"@,
        OutputFormat::Info => "info"@,
        OutputFormat::LaTeX => "latex"@,
        OutputFormat::Markdown => "markdown"@,
    }
}

/// The name of a kind of template in the names of templates.
pub open spec fn kind_name(kind: TemplateType) -> Seq<char> {
    match kind {
        TemplateType::Shortcode => "shortcode"@,
        TemplateType::Builtin => "builtin"@,
        TemplateType::Layout => "layout"@,
    }
}

/// The name under which the engine holds the source of a template for a
/// format: kind, `_`, name, `.`, format.
pub open spec fn template_key(kind: TemplateType, name: Seq<char>, format: OutputFormat) -> Seq<
    char,
> {
    kind_name(kind) + seq!['_'] + name + seq!['.'] + format_name(format)
}

/// The name under which the engine holds the source of a template for a format.
pub fn template_id(kind: TemplateType, name: &str, format: OutputFormat) -> (r: String)
    ensures
        r@ == template_key(kind, name@, format),
{
    let kind_text = match kind {
        TemplateType::Shortcode => "shortcode",
        TemplateType::Builtin => "builtin",
        TemplateType::Layout => "layout",
    };
    let format_text = match format {
        OutputFormat::Notebook => "notebook",
        OutputFormat::Html => "html",
        OutputFormat::Info => "info",
        OutputFormat::LaTeX => "latex",
        OutputFormat::Markdown => "markdown",
    };
    let mut r = String::from_str(kind_text);
    proof {
        reveal_strlit("_");
        reveal_strlit(".");
    }
    r.append("_");
    r.append(name);
    r.append(".");
    r.append(format_text);
    assert(r@ =~= template_key(kind, name@, format));
    r
}

/// The definition `def` has a source for `format`.
pub open spec fn has_format(def: DefinitionView, format: OutputFormat) -> bool {
    exists|k: int| 0 <= k < def.formats.len() && #[trigger] def.formats[k] == format
}

/// The template of this name and kind is defined and has a source for `format`.
pub open spec fn supports(
    defs: Seq<DefinitionView>,
    name: Seq<char>,
    kind: TemplateType,
    format: OutputFormat,
) -> bool {
    match definition_of(defs, name, kind) {
        Some(def) => has_format(def, format),
        None => false,
    }
}

/// The templates of a project: what is known of each, and the engine that
/// holds their sources.
pub struct TemplateManager {
    definitions: Vec<TemplateDefinition>,
    engine: tera::Tera,
}

/// No definition of `definitions` has a source for any format.
pub open spec fn without_sources(definitions: Seq<TemplateDefinition>) -> bool {
    forall|k: int|
        0 <= k < definitions.len() ==> (#[trigger] definitions[k]).templates@.len() == 0
}

/// What the engine said of the template `template`, as a render error.
pub fn engine_error(template: &str, error: &tera::Error) -> (r: RenderError)
    ensures
        r matches RenderError::Engine { template: t, .. } && t@ == template@,
{
    RenderError::Engine {
        template: String::from_str(template),
        message: tera_error_text(error),
    }
}

/// What to return for what the engine returned for the template `template`:
/// its output, or its message as an engine error.
pub fn engine_result(template: &str, result: Result<String, tera::Error>) -> (r: Result<
    String,
    RenderError,
>)
    ensures
        match result {
            Ok(s) => r == Ok::<String, RenderError>(s),
            Err(_) => r matches Err(RenderError::Engine { template: t, .. }) && t@ == template@,
        },
{
    match result {
        Ok(s) => Ok(s),
        Err(e) => Err(engine_error(template, &e)),
    }
}

/// Does `def` have a source for `format`?
pub fn definition_has_format(def: &TemplateDefinition, format: OutputFormat) -> (r: bool)
    ensures
        r == has_format(def@, format),
{
    let mut k: usize = 0;
    while k < def.templates.len()
        invariant
            k <= def.templates.len(),
            forall|j: int| 0 <= j < k ==> #[trigger] def@.formats[j] != format,
        decreases def.templates.len() - k,
    {
        if def.templates[k].format == format {
            assert(def@.formats[k as int] == format);
            return true;
        }
        k += 1;
    }
    false
}

impl View for TemplateManager {
    type V = Seq<DefinitionView>;

    /// What the definitions of the manager hold.
    closed spec fn view(&self) -> Seq<DefinitionView> {
        definitions_view(self.definitions@)
    }
}

impl TemplateManager {
    /// The definitions of the manager.
    pub closed spec fn spec_definitions(&self) -> Vec<TemplateDefinition> {
        self.definitions
    }

    /// The view of a manager is that of its definitions.
    pub proof fn lemma_view(&self)
        ensures
            self@ == definitions_view(self.spec_definitions()@),
    {
    }

    /// The definitions of the manager.
    pub fn definitions(&self) -> (r: &Vec<TemplateDefinition>)
        ensures
            *r == self.spec_definitions(),
    {
        &self.definitions
    }

    /// A manager of `definitions`, every source of which is loaded into the
    /// engine. The engine escapes nothing: what a template writes is written
    /// as it is. Fails with what the engine says where it rejects a source,
    /// so never where no definition has a source.
    pub fn new(definitions: Vec<TemplateDefinition>) -> (r: Result<TemplateManager, RenderError>)
        ensures
            match r {
                Ok(m) => m.spec_definitions() == definitions,
                Err(e) => e is Engine,
            },
            without_sources(definitions@) ==> r is Ok,
    {
        let mut engine = engine_new();
        engine_escape(&mut engine, Vec::new());
        let mut d: usize = 0;
        while d < definitions.len()
            invariant
                d <= definitions.len(),
            decreases definitions.len() - d,
        {
            let def = &definitions[d];
            let mut k: usize = 0;
            while k < def.templates.len()
                invariant
                    d < definitions.len(),
                    *def == definitions@[d as int],
                    k <= def.templates.len(),
                decreases def.templates.len() - k,
            {
                let id = template_id(def.type_, def.name.as_str(), def.templates[k].format);
                match engine_add(&mut engine, id.as_str(), def.templates[k].source.as_str()) {
                    Ok(()) => {},
                    Err(e) => {
                        assert(definitions@[d as int].templates@.len() > 0);
                        return Err(engine_error(def.name.as_str(), &e));
                    },
                }
                k += 1;
            }
            d += 1;
        }
        Ok(TemplateManager { definitions, engine })
    }

    /// The definition of the template of this name and kind: the first, where
    /// there are several. Fails where there is none.
    pub fn get_template(&self, name: &str, kind: TemplateType) -> (r: Result<
        &TemplateDefinition,
        RenderError,
    >)
        ensures
            match definition_of(self@, name@, kind) {
                Some(def) => r matches Ok(d) && d@ == def,
                None => r matches Err(e) && e@ == RenderErrorView::TemplateNotFound(name@),
            },
    {
        match get_template(&self.definitions, name, kind) {
            Some(i) => {
                assert(self@[i as int] == self.definitions[i as int]@);
                Ok(&self.definitions[i])
            },
            None => Err(RenderError::TemplateNotFound(String::from_str(name))),
        }
    }

    /// Everything that is wrong with the arguments `args` of a call of the
    /// shortcode `name`. Fails where no shortcode of that name is defined.
    pub fn validate_args_for_template<T>(
        &self,
        name: &str,
        args: &Vec<crate::ast::Argument<T>>,
    ) -> (r: Result<Vec<SchemaError>, RenderError>)
        ensures
            match definition_of(
                self@,
                name@,
                TemplateType::Shortcode,
            ) {
                Some(def) => r matches Ok(errors) && crate::templates::errors_view(errors@)
                    == crate::templates::schema_errors(
                    crate::renderers::shortcode::declared_parameters(def),
                    crate::templates::argument_keys(args@),
                ),
                None => r matches Err(e) && e@ == RenderErrorView::TemplateNotFound(name@),
            },
    {
        let def = match self.get_template(name, TemplateType::Shortcode) {
            Ok(def) => def,
            Err(e) => {
                return Err(e);
            },
        };
        let empty = ShortcodeDefinition { parameters: Vec::new() };
        let schema = match &def.shortcode {
            Some(s) => s,
            None => &empty,
        };
        assert(schema@ =~= crate::renderers::shortcode::declared_parameters(def@));
        Ok(validate_args(schema, args))
    }

    /// What the template of this name and kind makes of `context` in `format`.
    ///
    /// Fails with `TemplateNotFound` exactly where the template is not defined
    /// or has no source for the format. Otherwise the engine decides: the
    /// result is its output, or its message as an `Engine` error.
    pub fn render(
        &self,
        name: &str,
        format: OutputFormat,
        kind: TemplateType,
        context: &tera::Context,
    ) -> (r: Result<String, RenderError>)
        ensures
            !supports(self@, name@, kind, format) ==> (r matches Err(
                e,
            ) && e@ == RenderErrorView::TemplateNotFound(name@)),
            supports(self@, name@, kind, format) ==> (r is Ok || (
            r matches Err(RenderError::Engine { template, .. }) && template@ == name@)),
    {
        let def = match self.get_template(name, kind) {
            Ok(def) => def,
            Err(e) => {
                return Err(e);
            },
        };
        if !definition_has_format(def, format) {
            return Err(RenderError::TemplateNotFound(String::from_str(name)));
        }
        let id = template_id(kind, name, format);
        engine_result(name, engine_render(&self.engine, id.as_str(), context))
    }
}

} // verus!
