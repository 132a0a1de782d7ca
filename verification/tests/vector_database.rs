use lvv_macros::input::{
    Attribute, Data, DataStruct, DeriveInput, Field, Fields, GenericArgument, Meta, PathArguments,
    PathSegment, Type, TypePath,
};
use lvv_macros::types::{AttrErrorKind, DeriveError, Member, RootField, RootFieldType};
use lvv_macros::vector_database::{expand, resolve_point_field_type};

fn path(segments: Vec<PathSegment>) -> Type {
    Type::Path(TypePath { segments })
}

fn bare(name: &str) -> PathSegment {
    PathSegment { ident: name.to_string(), arguments: PathArguments::Bare }
}

fn with_args(name: &str, args: Vec<Type>) -> PathSegment {
    PathSegment {
        ident: name.to_string(),
        arguments: PathArguments::AngleBracketed(
            args.into_iter().map(GenericArgument::Type).collect(),
        ),
    }
}

fn segment(name: &str) -> Type {
    path(vec![bare(name)])
}

fn generic(name: &str, args: Vec<Type>) -> Type {
    path(vec![with_args(name, args)])
}

fn lvv(args: &str) -> Attribute {
    Attribute { ident: Some("lvv".to_string()), meta: Meta::List(args.to_string()) }
}

fn field(name: &str, ty: Type, attrs: Vec<Attribute>) -> Field {
    Field { ident: Some(name.to_string()), ty, attrs }
}

fn container(fields: Fields) -> DeriveInput {
    DeriveInput { ident: "Portfolio".to_string(), attrs: vec![], data: Data::Struct(DataStruct { fields }) }
}

#[test]
fn classifies_field_shapes() {
    let shape = |ty: Type| resolve_point_field_type(&ty);

    assert!(matches!(shape(segment("Item")), RootFieldType::Scalar));
    assert!(matches!(shape(generic("Vec", vec![segment("Item")])), RootFieldType::Collection));
    assert!(matches!(
        shape(path(vec![bare("std"), bare("vec"), with_args("Vec", vec![segment("Item")])])),
        RootFieldType::Collection
    ));
    assert!(matches!(
        shape(generic("BTreeMap", vec![segment("String"), segment("Item")])),
        RootFieldType::Mapping
    ));
    assert!(matches!(
        shape(path(vec![
            bare("std"),
            bare("collections"),
            with_args("HashMap", vec![segment("u16"), segment("Item")]),
        ])),
        RootFieldType::Mapping
    ));
    assert!(matches!(
        shape(generic("Option", vec![segment("Item")])),
        RootFieldType::OptionScalar
    ));
    assert!(matches!(
        shape(generic("Option", vec![generic("Vec", vec![segment("Item")])])),
        RootFieldType::OptionCollection
    ));
    assert!(matches!(
        shape(generic("Option", vec![generic("BTreeMap", vec![segment("String"), segment("Item")])])),
        RootFieldType::OptionMap
    ));
}

#[test]
fn other_types_hold_one_item() {
    let shape = |ty: Type| resolve_point_field_type(&ty);
    assert_eq!(shape(generic("Box", vec![segment("Item")])), RootFieldType::Scalar);
    assert_eq!(shape(segment("Vec")), RootFieldType::Scalar);
    assert_eq!(shape(Type::Other), RootFieldType::Scalar);
    assert_eq!(shape(path(vec![])), RootFieldType::Scalar);
    // `Vec<Item>::Alias`: the last segment decides.
    assert_eq!(
        shape(path(vec![with_args("Vec", vec![segment("Item")]), bare("Alias")])),
        RootFieldType::Scalar
    );
    let lifetime_first = path(vec![PathSegment {
        ident: "Option".to_string(),
        arguments: PathArguments::AngleBracketed(vec![GenericArgument::Other]),
    }]);
    assert_eq!(shape(lifetime_first), RootFieldType::Scalar);
    let raw = generic("r#Vec", vec![segment("Item")]);
    assert_eq!(shape(raw), RootFieldType::Scalar);
    assert_eq!(shape(generic("Option", vec![Type::Other])), RootFieldType::OptionScalar);
}

#[test]
fn lists_the_fields_that_are_not_skipped_in_order() {
    let input = container(Fields::Named(vec![
        field("owner", segment("Contact"), vec![]),
        field("positions", generic("Vec", vec![segment("Position")]), vec![]),
        field("updated_at", segment("String"), vec![lvv("skip")]),
        field("current", generic("Option", vec![segment("Position")]), vec![]),
        field("projects", generic("BTreeMap", vec![segment("String"), segment("Project")]), vec![]),
    ]));
    let points = expand(&input).unwrap();
    assert_eq!(
        points,
        vec![
            RootField { member: Member::Named("owner".into()), field_type: RootFieldType::Scalar },
            RootField {
                member: Member::Named("positions".into()),
                field_type: RootFieldType::Collection,
            },
            RootField {
                member: Member::Named("current".into()),
                field_type: RootFieldType::OptionScalar,
            },
            RootField { member: Member::Named("projects".into()), field_type: RootFieldType::Mapping },
        ]
    );
}

#[test]
fn tuple_fields_keep_their_index() {
    let input = container(Fields::Unnamed(vec![
        Field { ident: None, ty: segment("String"), attrs: vec![lvv("skip")] },
        Field { ident: None, ty: generic("Vec", vec![segment("Item")]), attrs: vec![] },
    ]));
    assert_eq!(
        expand(&input).unwrap(),
        vec![RootField { member: Member::Unnamed(1), field_type: RootFieldType::Collection }]
    );
    assert_eq!(expand(&container(Fields::Unit)).unwrap(), vec![]);
}

#[test]
fn skip_is_the_only_database_command() {
    let input = container(Fields::Named(vec![
        field("a", segment("Item"), vec![lvv("skip")]),
        field("b", segment("Item"), vec![lvv("description")]),
    ]));
    assert_eq!(
        expand(&input),
        Err(DeriveError::Attribute { field: 1, kind: AttrErrorKind::UnsupportedCommand })
    );
}

#[test]
fn refuses_enums_and_unions() {
    let input = DeriveInput { ident: "E".to_string(), attrs: vec![], data: Data::Enum };
    assert_eq!(expand(&input), Err(DeriveError::NotAStruct));
    let input = DeriveInput { ident: "U".to_string(), attrs: vec![], data: Data::Union };
    assert_eq!(expand(&input), Err(DeriveError::NotAStruct));
}
