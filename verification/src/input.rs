use vstd::prelude::*;

verus! {

/// The parts of a derive macro's input that the derives read: the
/// container's name, its attributes and the shape of its data.
#[derive(Debug, PartialEq, Eq)]
pub struct DeriveInput {
    /// The container's name as written, `r#` prefix included.
    pub ident: String,
    pub attrs: Vec<Attribute>,
    pub data: Data,
}

#[derive(Debug, PartialEq, Eq)]
pub enum Data {
    Struct(DataStruct),
    Enum,
    Union,
}

#[derive(Debug, PartialEq, Eq)]
pub struct DataStruct {
    pub fields: Fields,
}

/// The fields of a struct: named (`{ a: A }`), unnamed (`(A, B)`) or none.
#[derive(Debug, PartialEq, Eq)]
pub enum Fields {
    Named(Vec<Field>),
    Unnamed(Vec<Field>),
    Unit,
}

impl Fields {
    /// The fields in declaration order.
    pub open spec fn items(&self) -> Seq<Field> {
        match self {
            Fields::Named(fields) => fields@,
            Fields::Unnamed(fields) => fields@,
            Fields::Unit => Seq::empty(),
        }
    }

    pub fn len(&self) -> (n: usize)
        ensures
            n == self.items().len(),
    {
        match self {
            Fields::Named(fields) => fields.len(),
            Fields::Unnamed(fields) => fields.len(),
            Fields::Unit => 0,
        }
    }

    pub fn get(&self, index: usize) -> (field: &Field)
        requires
            index < self.items().len(),
        ensures
            *field == self.items()[index as int],
    {
        match self {
            Fields::Named(fields) => &fields[index],
            Fields::Unnamed(fields) => &fields[index],
            Fields::Unit => vstd::pervasive::unreached(),
        }
    }
}

/// A field: its name (`None` in a tuple struct), its type and its attributes.
#[derive(Debug, PartialEq, Eq)]
pub struct Field {
    pub ident: Option<String>,
    pub ty: Type,
    pub attrs: Vec<Attribute>,
}

/// A field's type: a path type with all its segments, or any other type.
#[derive(Debug, PartialEq, Eq)]
pub enum Type {
    Path(TypePath),
    Other,
}

/// A path type such as `std::vec::Vec<Item>`; a qualified self type, if
/// any, is not kept.
#[derive(Debug, PartialEq, Eq)]
pub struct TypePath {
    pub segments: Vec<PathSegment>,
}

/// One segment of a path, such as `Vec<Item>` in `std::vec::Vec<Item>`.
#[derive(Debug, PartialEq, Eq)]
pub struct PathSegment {
    pub ident: String,
    pub arguments: PathArguments,
}

/// The arguments of a path segment: none, `<...>` or `(...) -> ...`.
#[derive(Debug, PartialEq, Eq)]
pub enum PathArguments {
    Bare,
    AngleBracketed(Vec<GenericArgument>),
    Parenthesized,
}

/// One angle-bracketed argument: a type, or another kind of argument
/// (a lifetime, a constant, an associated type or constraint).
#[derive(Debug, PartialEq, Eq)]
pub enum GenericArgument {
    Type(Type),
    Other,
}

/// An outer attribute `#[...]`.
#[derive(Debug, Clone, PartialEq, Eq)]
pub struct Attribute {
    /// The attribute's path when it is one identifier with no leading `::`.
    pub ident: Option<String>,
    pub meta: Meta,
}

/// What follows an attribute's path.
#[derive(Debug, Clone, PartialEq, Eq)]
pub enum Meta {
    /// `#[path]`
    Path,
    /// `#[path(...)]`, with the text of the tokens between the delimiters.
    List(String),
    /// `#[path = value]`
    NameValue,
}

} // verus!
