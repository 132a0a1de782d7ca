use lvv_macros::input::{
    Attribute, Data, DataStruct, DeriveInput, Field, Fields, GenericArgument, Meta, PathArguments,
    PathSegment, Type, TypePath,
};
use lvv_macros::types::{DeriveError, Member};
use lvv_macros::vector_database_item::{expand, DescriptionField, ObjectShape};

fn path(segments: Vec<PathSegment>) -> Type {
    Type::Path(TypePath { segments })
}

fn bare(name: &str) -> PathSegment {
    PathSegment { ident: name.to_string(), arguments: PathArguments::Bare }
}

fn with_args(name: &str, args: Vec<Type>) -> PathSegment {
    PathSegment {
        ident: name.to_string(),
        arguments: PathArguments::AngleBracketed(
            args.into_iter().map(GenericArgument::Type).collect(),
        ),
    }
}

fn segment(name: &str) -> Type {
    path(vec![bare(name)])
}

fn generic(name: &str, args: Vec<Type>) -> Type {
    path(vec![with_args(name, args)])
}

fn list(path: &str, args: &str) -> Attribute {
    Attribute { ident: Some(path.to_string()), meta: Meta::List(args.to_string()) }
}

fn field(name: &str, ty: Type, attrs: Vec<Attribute>) -> Field {
    Field { ident: Some(name.to_string()), ty, attrs }
}

fn structure(name: &str, attrs: Vec<Attribute>, fields: Fields) -> DeriveInput {
    DeriveInput { ident: name.to_string(), attrs, data: Data::Struct(DataStruct { fields }) }
}

/// `struct ResearchArticle<'a>` with its serde and lvv attributes.
fn research_article() -> DeriveInput {
    structure(
        "ResearchArticle",
        vec![list("derive", "Debug, Clone, Serialize, Deserialize")],
        Fields::Named(vec![
            field(
                "id",
                segment("u64"),
                vec![
                    Attribute { ident: Some("doc".into()), meta: Meta::NameValue },
                    list("lvv", "skip"),
                ],
            ),
            field(
                "title",
                segment("String"),
                vec![list("lvv", "rename = \"headline\""), list("lvv", "description")],
            ),
            field(
                "abstract_text",
                generic("Option", vec![segment("String")]),
                vec![list("serde", "rename = \"abstract\""), list("lvv", "description")],
            ),
            field("authors", generic("Vec", vec![segment("Author")]), vec![list("serde", "default")]),
            field(
                "tags",
                generic("Option", vec![generic("Vec", vec![segment("String")])]),
                vec![list("lvv", "rename = \"keywords\"")],
            ),
            field(
                "raw_html",
                Type::Other,
                vec![list("lvv", "skip"), list("serde", "skip_serializing")],
            ),
            field("published_at", path(vec![bare("chrono"), with_args("DateTime", vec![path(vec![bare("chrono"), bare("Utc")])])]), vec![]),
            field(
                "citation_counts",
                path(vec![bare("std"), bare("collections"), with_args("HashMap", vec![segment("String"), segment("u32")])]),
                vec![list("lvv", "rename = \"citations\"")],
            ),
            field(
                "embedding",
                Type::Other,
                vec![list("lvv", "skip"), list("lvv", "rename = \"vector\"")],
            ),
            field("doi", generic("Option", vec![Type::Other]), vec![]),
            field("related", generic("Vec", vec![Type::Other]), vec![]),
        ]),
    )
}

#[test]
fn lets_see_more() -> Result<(), DeriveError> {
    let res = expand(&research_article())?;
    println!("{:#?}", res);
    Ok(())
}

#[test]
fn plans_the_research_article() {
    let item = expand(&research_article()).unwrap();
    assert_eq!(item.category, "ResearchArticle");
    assert_eq!(
        item.description,
        vec![
            DescriptionField { index: 1, member: Member::Named("title".into()) },
            DescriptionField { index: 2, member: Member::Named("abstract_text".into()) },
        ]
    );
    assert_eq!(item.payload.object, ObjectShape::Named);
    assert_eq!(item.payload.removed, ["id", "raw_html", "embedding"]);
    assert_eq!(item.payload.renamed_from, ["title", "tags", "citation_counts"]);
    assert_eq!(item.payload.renamed_to, ["headline", "keywords", "citations"]);
}

#[test]
fn requires_a_description_field() {
    let input = structure(
        "Foo",
        vec![],
        Fields::Named(vec![field("name", segment("String"), vec![])]),
    );
    assert!(expand(&input).is_err());
}

#[test]
fn rejects_reserved_category_key() {
    let input = structure(
        "Foo",
        vec![],
        Fields::Named(vec![
            field("name", segment("String"), vec![list("lvv", "description")]),
            field("category", segment("String"), vec![]),
        ]),
    );
    assert!(expand(&input).is_err());
}

#[test]
fn names_the_refusal() {
    let no_description = structure(
        "Foo",
        vec![],
        Fields::Named(vec![field("name", segment("String"), vec![list("lvv", "skip, description")])]),
    );
    assert_eq!(expand(&no_description), Err(DeriveError::MissingDescription));
    let reserved = structure(
        "Foo",
        vec![],
        Fields::Named(vec![
            field("name", segment("String"), vec![list("lvv", "description")]),
            field("kind", segment("String"), vec![list("lvv", "rename = \"category\"")]),
        ]),
    );
    assert_eq!(expand(&reserved), Err(DeriveError::ReservedCategory { field: 1 }));
    let via_serde = structure(
        "Foo",
        vec![list("serde", "rename_all = \"camelCase\"")],
        Fields::Named(vec![
            field("name", segment("String"), vec![list("lvv", "description")]),
            field("kind", segment("String"), vec![list("serde", "rename = \"category\"")]),
        ]),
    );
    assert_eq!(expand(&via_serde), Err(DeriveError::ReservedCategory { field: 1 }));
    let enumeration = DeriveInput { ident: "E".into(), attrs: vec![], data: Data::Enum };
    assert_eq!(expand(&enumeration), Err(DeriveError::NotAStruct));
}

#[test]
fn a_skipped_or_renamed_category_field_is_accepted() {
    let skipped = structure(
        "Foo",
        vec![],
        Fields::Named(vec![
            field("name", segment("String"), vec![list("lvv", "description")]),
            field("category", segment("String"), vec![list("lvv", "skip")]),
        ]),
    );
    let item = expand(&skipped).unwrap();
    assert_eq!(item.payload.removed, ["category"]);
    let renamed = structure(
        "Foo",
        vec![],
        Fields::Named(vec![
            field("name", segment("String"), vec![list("lvv", "description")]),
            field("category", segment("String"), vec![list("lvv", "rename = \"kind\"")]),
        ]),
    );
    let item = expand(&renamed).unwrap();
    assert_eq!(item.payload.renamed_from, ["category"]);
    assert_eq!(item.payload.renamed_to, ["kind"]);
}

#[test]
fn tuple_fields_use_their_index_as_key() {
    let tuple = structure(
        "r#Pair",
        vec![],
        Fields::Unnamed(vec![
            Field { ident: None, ty: segment("String"), attrs: vec![list("lvv", "description")] },
            Field { ident: None, ty: segment("String"), attrs: vec![list("lvv", "skip")] },
            Field { ident: None, ty: segment("u8"), attrs: vec![list("lvv", "rename = \"n\"")] },
        ]),
    );
    let item = expand(&tuple).unwrap();
    assert_eq!(item.category, "Pair");
    assert_eq!(item.payload.object, ObjectShape::Tuple);
    assert_eq!(item.description, vec![DescriptionField { index: 0, member: Member::Unnamed(0) }]);
    assert_eq!(item.payload.removed, ["1"]);
    assert_eq!(item.payload.renamed_from, ["2"]);
    assert_eq!(item.payload.renamed_to, ["n"]);
    let newtype = structure(
        "Wrapper",
        vec![],
        Fields::Unnamed(vec![Field {
            ident: None,
            ty: segment("String"),
            attrs: vec![list("lvv", "description")],
        }]),
    );
    assert_eq!(expand(&newtype).unwrap().payload.object, ObjectShape::Newtype);
}

#[test]
fn raw_field_names_are_unrawed_for_serde() {
    let input = structure(
        "Item",
        vec![list("serde", "rename_all = \"UPPERCASE\"")],
        Fields::Named(vec![
            field("r#type", segment("String"), vec![list("lvv", "description, skip")]),
            field("name", segment("String"), vec![list("lvv", "description")]),
        ]),
    );
    let item = expand(&input).unwrap();
    assert_eq!(item.payload.removed, ["TYPE"]);
    assert_eq!(item.description, vec![DescriptionField { index: 1, member: Member::Named("name".into()) }]);
}

#[test]
fn index_keys_are_decimal() {
    assert_eq!(lvv_macros::text::index_key(0), "0");
    assert_eq!(lvv_macros::text::index_key(10), "10");
    assert_eq!(lvv_macros::text::index_key(907), "907");
}
