use cdoc::ast::Argument;
use cdoc::document::OutputFormat;
use cdoc::engine::TemplateManager;
use cdoc::renderers::shortcode::{get_template, RenderError};
use cdoc::templates::{
    declares_parameter, str_equal, validate_args, SchemaError, ShortcodeDefinition,
    ShortcodeParameter, TemplateDefinition, TemplateSource, TemplateType,
};

fn schema(params: &[(&str, bool)]) -> ShortcodeDefinition {
    ShortcodeDefinition {
        parameters: params
            .iter()
            .map(|(name, optional)| ShortcodeParameter { name: name.to_string(), optional: *optional })
            .collect(),
    }
}

fn keyword(key: &str) -> Argument<String> {
    Argument::Keyword(key.to_string(), "v".to_string())
}

fn positional() -> Argument<String> {
    Argument::Positional("v".to_string())
}

fn names(errors: &[SchemaError]) -> Vec<String> {
    errors.iter().map(|e| format!("{:?}", e)).collect()
}

#[test]
fn valid_calls_have_no_errors() {
    let note = schema(&[("title", false), ("color", true)]);
    assert!(validate_args(&note, &vec![keyword("title")]).is_empty());
    assert!(validate_args(&note, &vec![positional()]).is_empty());
    assert!(validate_args(&note, &vec![positional(), positional()]).is_empty());
    assert!(validate_args(&note, &vec![keyword("color"), keyword("title")]).is_empty());
    assert!(validate_args(&schema(&[]), &Vec::<Argument<String>>::new()).is_empty());
}

#[test]
fn unknown_keyword_is_named() {
    let note = schema(&[("title", false)]);
    let errors = validate_args(&note, &vec![keyword("title"), keyword("bogus")]);
    assert_eq!(names(&errors), vec!["UnknownKeyword(\"bogus\")"]);
}

#[test]
fn missing_argument_is_named() {
    let note = schema(&[("title", false)]);
    let errors = validate_args(&note, &Vec::<Argument<String>>::new());
    assert_eq!(names(&errors), vec!["MissingArgument(\"title\")"]);
}

#[test]
fn errors_come_in_order() {
    let s = schema(&[("a", false), ("b", false), ("c", true)]);
    let errors = validate_args(&s, &vec![keyword("x"), keyword("b"), keyword("y"), positional()]);
    assert_eq!(
        names(&errors),
        vec![
            "UnknownKeyword(\"x\")",
            "UnknownKeyword(\"y\")",
            "TooManyArguments { expected: 3, position: 3 }",
            "MissingArgument(\"a\")"
        ]
    );
}

#[test]
fn positional_argument_binds_the_parameter_at_its_position() {
    let s = schema(&[("a", false), ("b", false)]);
    let errors = validate_args(&s, &vec![keyword("b"), positional()]);
    assert_eq!(names(&errors), vec!["MissingArgument(\"a\")"]);
}

#[test]
fn optional_parameters_may_be_left_out() {
    let s = schema(&[("a", true), ("b", true)]);
    assert!(validate_args(&s, &Vec::<Argument<String>>::new()).is_empty());
}

#[test]
fn parameters_are_declared_by_name() {
    let s = schema(&[("title", false)]);
    assert!(declares_parameter(&s, "title"));
    assert!(!declares_parameter(&s, "Title"));
    assert!(!declares_parameter(&schema(&[]), "title"));
    assert!(str_equal("a", "a"));
    assert!(!str_equal("a", "b"));
}

fn definition(name: &str, kind: TemplateType, formats: &[OutputFormat]) -> TemplateDefinition {
    TemplateDefinition {
        name: name.to_string(),
        type_: kind,
        shortcode: if kind == TemplateType::Shortcode { Some(schema(&[("title", false)])) } else { None },
        templates: formats.iter().map(|f| TemplateSource { format: *f, source: "x".to_string() }).collect(),
    }
}

#[test]
fn templates_are_found_by_name_and_kind() {
    let defs = vec![
        definition("note", TemplateType::Builtin, &[OutputFormat::Html]),
        definition("note", TemplateType::Shortcode, &[OutputFormat::Html]),
        definition("note", TemplateType::Shortcode, &[OutputFormat::LaTeX]),
    ];
    assert_eq!(get_template(&defs, "note", TemplateType::Shortcode), Some(1));
    assert_eq!(get_template(&defs, "note", TemplateType::Builtin), Some(0));
    assert_eq!(get_template(&defs, "note", TemplateType::Layout), None);
    assert_eq!(get_template(&defs, "other", TemplateType::Shortcode), None);
}

#[test]
fn manager_validates_against_the_declared_parameters() {
    let manager = TemplateManager::new(vec![definition("note", TemplateType::Shortcode, &[OutputFormat::Html])]).unwrap();
    assert_eq!(manager.definitions().len(), 1);
    assert_eq!(manager.get_template("note", TemplateType::Shortcode).unwrap().name, "note");
    assert!(matches!(
        manager.get_template("note", TemplateType::Builtin),
        Err(RenderError::TemplateNotFound(n)) if n == "note"
    ));
    let errors = manager.validate_args_for_template("note", &vec![keyword("bogus")]).unwrap();
    assert_eq!(names(&errors), vec!["UnknownKeyword(\"bogus\")", "MissingArgument(\"title\")"]);
    assert!(matches!(
        manager.validate_args_for_template("nope", &vec![keyword("bogus")]),
        Err(RenderError::TemplateNotFound(n)) if n == "nope"
    ));
}

#[test]
fn manager_without_sources_is_always_made() {
    let bare = vec![definition("a", TemplateType::Builtin, &[]), definition("b", TemplateType::Shortcode, &[])];
    let manager = TemplateManager::new(bare).unwrap();
    assert_eq!(manager.definitions().len(), 2);
    assert_eq!(manager.definitions()[1].name, "b");
    assert!(TemplateManager::new(Vec::new()).unwrap().definitions().is_empty());
}

#[test]
fn manager_reports_the_template_that_the_engine_rejects() {
    let broken = TemplateDefinition {
        name: "broken".to_string(),
        type_: TemplateType::Builtin,
        shortcode: None,
        templates: vec![TemplateSource { format: OutputFormat::Html, source: "{{ unclosed".to_string() }],
    };
    assert!(matches!(
        TemplateManager::new(vec![definition("a", TemplateType::Builtin, &[]), broken]),
        Err(RenderError::Engine { template, .. }) if template == "broken"
    ));
}
