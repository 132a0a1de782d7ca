use lvv_macros::attributes::{parse_attributes, serde_key, FieldWithAttributes};
use lvv_macros::input::{
    Attribute, Data, DataStruct, DeriveInput, Field, Fields, Meta, PathArguments,
    PathSegment, Type, TypePath,
};
use lvv_macros::types::{AttrErrorKind, Command, DeriveError};

fn path_type(name: &str) -> Type {
    Type::Path(TypePath {
        segments: vec![PathSegment { ident: name.to_string(), arguments: PathArguments::Bare }],
    })
}

fn list(path: &str, args: &str) -> Attribute {
    Attribute { ident: Some(path.to_string()), meta: Meta::List(args.to_string()) }
}

fn named(name: &str, ty: Type, attrs: Vec<Attribute>) -> Field {
    Field { ident: Some(name.to_string()), ty, attrs }
}

fn structure(name: &str, attrs: Vec<Attribute>, fields: Vec<Field>) -> DeriveInput {
    DeriveInput {
        ident: name.to_string(),
        attrs,
        data: Data::Struct(DataStruct { fields: Fields::Named(fields) }),
    }
}

fn one_field(attrs: Vec<Attribute>) -> DeriveInput {
    structure("Foo", vec![], vec![named("field", path_type("String"), attrs)])
}

fn commands_of(field_attrs: Vec<Attribute>, valid: &[&str]) -> Result<Vec<Command>, DeriveError> {
    let input = one_field(field_attrs);
    let Data::Struct(data) = &input.data else {
        panic!()
    };
    let result = parse_attributes(data, valid)?;
    Ok(result[0].attributes.clone())
}

#[test]
fn parses_attributes() -> Result<(), DeriveError> {
    let input = one_field(vec![list("lvv", "rename = \"bar\"")]);
    let Data::Struct(data) = &input.data else {
        panic!()
    };

    let result = parse_attributes(data, &["rename", "skip"])?;
    assert_eq!(result.len(), 1);
    assert!(matches!(result[0].attributes[0], Command::Rename(_)));
    Ok(())
}

#[test]
fn keeps_every_command_in_one_attribute() -> Result<(), DeriveError> {
    let input = structure(
        "Foo",
        vec![],
        vec![named("title", path_type("String"), vec![list("lvv", "description, rename = \"role\"")])],
    );
    let Data::Struct(data) = &input.data else {
        panic!()
    };

    let result = parse_attributes(data, &["rename", "skip", "description"])?;
    assert_eq!(
        result[0].attributes,
        vec![Command::Description, Command::Rename("role".into())]
    );
    Ok(())
}

#[test]
fn doesnt_parse_illegal_attributes() -> Result<(), DeriveError> {
    let input = one_field(vec![list("lvv", "va_cualquiera = \"bar\"")]);
    let Data::Struct(data) = &input.data else {
        panic!()
    };

    let result = parse_attributes(data, &["rename", "skip"]).inspect_err(|err| println!("{:?}", err));
    assert!(result.is_err());
    Ok(())
}

#[test]
fn ignores_invalid_attr_name() -> Result<(), DeriveError> {
    let input = one_field(vec![list("arre", "rename = \"bar\"")]);
    let Data::Struct(data) = &input.data else {
        panic!()
    };

    let result = parse_attributes(data, &["rename", "skip"]).inspect_err(|err| println!("{:?}", err))?;
    assert_eq!(result.first().unwrap().attributes.len(), 0);
    Ok(())
}

#[test]
fn no_attributes() -> Result<(), DeriveError> {
    let input = one_field(vec![]);
    let Data::Struct(data) = &input.data else {
        panic!()
    };

    let result = parse_attributes(data, &["rename", "skip"]).inspect_err(|err| println!("{:?}", err))?;
    assert_eq!(result.first().unwrap().attributes.len(), 0);
    Ok(())
}

#[test]
fn resolves_serde_keys() {
    let input = structure(
        "Foo",
        vec![list("serde", "rename_all = \"camelCase\"")],
        vec![
            named(
                "abstract_text",
                path_type("Option"),
                vec![list("serde", "rename = \"abstract\", skip_serializing_if = \"Option::is_none\"")],
            ),
            named("years_of_experience", path_type("u8"), vec![]),
        ],
    );
    let Data::Struct(data) = &input.data else {
        panic!()
    };
    let Fields::Named(fields) = &data.fields else {
        panic!()
    };

    let keys: Vec<_> = fields
        .iter()
        .map(|field| {
            let name = field.ident.as_ref().unwrap().to_string();
            serde_key(&name, &field.attrs, &input.attrs)
        })
        .collect();
    assert_eq!(keys, ["abstract", "yearsOfExperience"]);
}

#[test]
fn accepts_each_command_in_its_own_attribute() {
    let commands = commands_of(
        vec![list("lvv", "skip"), list("doc", "ignored"), list("lvv", "rename = \"x\"")],
        &["description", "skip", "rename"],
    );
    assert_eq!(commands, Ok(vec![Command::Skip, Command::Rename("x".into())]));
}

#[test]
fn accepts_a_trailing_comma_and_an_empty_list() {
    let valid = &["description", "skip", "rename"];
    assert_eq!(commands_of(vec![list("lvv", "skip,")], valid), Ok(vec![Command::Skip]));
    assert_eq!(commands_of(vec![list("lvv", "")], valid), Ok(vec![]));
}

#[test]
fn decodes_escapes_and_raw_strings_in_rename() {
    let valid = &["description", "skip", "rename"];
    assert_eq!(
        commands_of(vec![list("lvv", r#"rename = "a\"b\n""#)], valid),
        Ok(vec![Command::Rename("a\"b\n".into())])
    );
    assert_eq!(
        commands_of(vec![list("lvv", r###"rename = r#"x"y"#"###)], valid),
        Ok(vec![Command::Rename("x\"y".into())])
    );
}

fn kind_of(args: &str, valid: &[&str]) -> AttrErrorKind {
    match commands_of(vec![list("lvv", args)], valid) {
        Err(DeriveError::Attribute { field: 0, kind }) => kind,
        other => panic!("unexpected {:?}", other),
    }
}

#[test]
fn reports_each_kind_of_refusal() {
    let valid = &["description", "skip", "rename"];
    assert_eq!(kind_of("description", &["skip"]), AttrErrorKind::UnsupportedCommand);
    assert_eq!(kind_of("skip::inner", valid), AttrErrorKind::UnsupportedCommand);
    assert_eq!(kind_of("::skip", valid), AttrErrorKind::UnsupportedCommand);
    assert_eq!(kind_of("skip::", valid), AttrErrorKind::ExpectedIdent);
    assert_eq!(kind_of("skip,,", valid), AttrErrorKind::UnexpectedToken);
    assert_eq!(kind_of("\"skip\"", valid), AttrErrorKind::UnexpectedLiteral);
    assert_eq!(kind_of("-1", valid), AttrErrorKind::UnexpectedLiteral);
    assert_eq!(kind_of("(skip)", valid), AttrErrorKind::UnexpectedToken);
    assert_eq!(kind_of("rename", valid), AttrErrorKind::ExpectedEquals);
    assert_eq!(kind_of("rename(\"x\")", valid), AttrErrorKind::ExpectedEquals);
    assert_eq!(kind_of("rename = 5", valid), AttrErrorKind::ExpectedStringLiteral);
    assert_eq!(kind_of("rename =", valid), AttrErrorKind::ExpectedStringLiteral);
    assert_eq!(kind_of("skip description", valid), AttrErrorKind::ExpectedComma);
    assert_eq!(kind_of("skip = \"x\"", valid), AttrErrorKind::ExpectedComma);
    assert_eq!(kind_of("skip(", valid), AttrErrorKind::Unlexable);
    let bare = commands_of(
        vec![Attribute { ident: Some("lvv".into()), meta: Meta::Path }],
        valid,
    );
    assert_eq!(bare, Err(DeriveError::Attribute { field: 0, kind: AttrErrorKind::MissingArguments }));
    let valued = commands_of(
        vec![Attribute { ident: Some("lvv".into()), meta: Meta::NameValue }],
        valid,
    );
    assert_eq!(valued, Err(DeriveError::Attribute { field: 0, kind: AttrErrorKind::ExpectedParentheses }));
    assert_eq!(AttrErrorKind::UnsupportedCommand.message(), "unsupported lvv command");
}

#[test]
fn the_first_refused_attribute_decides() {
    let valid = &["description", "skip", "rename"];
    let input = structure(
        "Foo",
        vec![],
        vec![
            named("a", path_type("String"), vec![list("lvv", "skip")]),
            named("b", path_type("String"), vec![list("lvv", "rename"), list("lvv", "bogus")]),
            named("c", path_type("String"), vec![list("lvv", "bogus")]),
        ],
    );
    let Data::Struct(data) = &input.data else {
        panic!()
    };
    let result = parse_attributes(data, valid).map(|_| ());
    assert_eq!(result, Err(DeriveError::Attribute { field: 1, kind: AttrErrorKind::ExpectedEquals }));
}

#[test]
fn skip_wins_and_the_last_rename_wins() {
    let field = named("f", path_type("String"), vec![]);
    let fwa = FieldWithAttributes {
        field: &field,
        attributes: vec![
            Command::Description,
            Command::Rename("first".into()),
            Command::Skip,
            Command::Rename("second".into()),
        ],
    };
    assert!(fwa.is_skipped());
    assert!(!fwa.is_description());
    assert_eq!(fwa.rename(), Some("second"));
    let described = FieldWithAttributes { field: &field, attributes: vec![Command::Description] };
    assert!(described.is_description());
    assert_eq!(described.rename(), None);
}

fn key_under(style: &str, name: &str) -> String {
    serde_key(name, &[], &[list("serde", &format!("rename_all = \"{}\"", style))])
}

#[test]
fn applies_every_rename_all_style() {
    assert_eq!(key_under("lowercase", "field_name"), "field_name");
    assert_eq!(key_under("lowercase", "fieldA"), "fieldA");
    assert_eq!(key_under("snake_case", "fieldA"), "fieldA");
    assert_eq!(key_under("UPPERCASE", "fieldA"), "FIELDA");
    assert_eq!(key_under("SCREAMING_SNAKE_CASE", "fieldA"), "FIELDA");
    assert_eq!(key_under("PascalCase", "_a__bc_d"), "ABcD");
    assert_eq!(key_under("camelCase", "Field_name"), "fieldName");
    assert_eq!(key_under("kebab-case", "fieldA_b"), "fieldA-b");
    assert_eq!(key_under("SCREAMING-KEBAB-CASE", "fieldA_b"), "FIELDA-B");
    assert_eq!(key_under("UPPERCASE", "größe"), "GRößE");
    assert_eq!(key_under("UPPERCASE", "field_name"), "FIELD_NAME");
    assert_eq!(key_under("PascalCase", "field_name"), "FieldName");
    assert_eq!(key_under("camelCase", "field_name"), "fieldName");
    assert_eq!(key_under("SCREAMING_SNAKE_CASE", "field_name"), "FIELD_NAME");
    assert_eq!(key_under("kebab-case", "field_name"), "field-name");
    assert_eq!(key_under("SCREAMING-KEBAB-CASE", "field_name"), "FIELD-NAME");
    assert_eq!(key_under("snake_case", "field_name"), "field_name");
    assert_eq!(serde_key("field_name", &[], &[]), "field_name");
}

#[test]
fn field_rename_wins_over_rename_all_and_bad_serde_args_are_ignored() {
    let container = vec![list("serde", "rename_all = \"camelCase\"")];
    let own = vec![list("serde", "rename = 5"), list("serde", "rename = \"Own\"")];
    assert_eq!(serde_key("field_name", &own, &container), "Own");
    let broken = vec![list("serde", "rename = = \"x\""), list("serde", "default")];
    assert_eq!(serde_key("field_name", &broken, &container), "fieldName");
}
