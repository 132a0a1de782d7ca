use vstd::prelude::*;

verus! {

/// How a `VectorDatabase` field holds its items.
#[derive(Debug, Clone, Copy, PartialEq, Eq)]
pub enum RootFieldType {
    Collection,
    OptionCollection,
    OptionScalar,
    Scalar,
    Mapping,
    OptionMap,
}

/// One command of an `#[lvv(...)]` attribute.
#[derive(Debug, Clone, PartialEq, Eq)]
pub enum Command {
    Description,
    Rename(String),
    Skip,
}

/// A command as a mathematical value.
pub enum CommandView {
    Description,
    Rename(Seq<char>),
    Skip,
}

impl View for Command {
    type V = CommandView;

    open spec fn view(&self) -> CommandView {
        match self {
            Command::Description => CommandView::Description,
            Command::Rename(name) => CommandView::Rename(name@),
            Command::Skip => CommandView::Skip,
        }
    }
}

/// How a field is reached from `self`: `self.name` or `self.0`.
#[derive(Debug, Clone, PartialEq, Eq)]
pub enum Member {
    Named(String),
    Unnamed(usize),
}

/// A `VectorDatabase` field that holds items, and how it holds them.
#[derive(Debug, Clone, PartialEq, Eq)]
pub struct RootField {
    pub member: Member,
    pub field_type: RootFieldType,
}

/// Why an `#[lvv(...)]` attribute was refused.
#[derive(Debug, Clone, Copy, PartialEq, Eq)]
pub enum AttrErrorKind {
    /// `#[lvv]`: the attribute has no argument list.
    MissingArguments,
    /// `#[lvv = ...]`: the attribute has a value in place of an argument list.
    ExpectedParentheses,
    /// The argument list is not made of Rust tokens.
    Unlexable,
    /// A command was expected and the list ended.
    ExpectedNestedAttribute,
    /// A literal stands where a command was expected.
    UnexpectedLiteral,
    /// Another token stands where a command was expected.
    UnexpectedToken,
    /// A path ends in `::` with no identifier after it.
    ExpectedIdent,
    /// The command is not one that the derive accepts.
    UnsupportedCommand,
    /// `rename` is not followed by `=`.
    ExpectedEquals,
    /// `rename =` is not followed by a string literal.
    ExpectedStringLiteral,
    /// A command is followed by something other than `,`.
    ExpectedComma,
}

/// The message of each refusal: the one `syn` gives for it, with `lvv` as
/// the attribute's path, except for `Unlexable`, which `syn` never reports
/// for tokens the compiler gave it and whose message is this library's.
pub open spec fn attr_error_message(kind: AttrErrorKind) -> Seq<char> {
    match kind {
        AttrErrorKind::MissingArguments => "expected attribute arguments in parentheses: #[lvv(...)]"@,
        AttrErrorKind::ExpectedParentheses => "expected parentheses: #[lvv(...)]"@,
        AttrErrorKind::Unlexable => "cannot read the attribute's tokens"@,
        AttrErrorKind::ExpectedNestedAttribute => "expected nested attribute"@,
        AttrErrorKind::UnexpectedLiteral => "unexpected literal in nested attribute, expected ident"@,
        AttrErrorKind::UnexpectedToken => "unexpected token in nested attribute, expected ident"@,
        AttrErrorKind::ExpectedIdent => "expected ident"@,
        AttrErrorKind::UnsupportedCommand => "unsupported lvv command"@,
        AttrErrorKind::ExpectedEquals => "expected `=`"@,
        AttrErrorKind::ExpectedStringLiteral => "expected string literal"@,
        AttrErrorKind::ExpectedComma => "expected `,`"@,
    }
}

impl AttrErrorKind {
    /// The message of the compile error for this refusal.
    pub fn message(&self) -> (res: String)
        ensures
            res@ == attr_error_message(*self),
    {
        match self {
            AttrErrorKind::MissingArguments => "expected attribute arguments in parentheses: #[lvv(...)]".to_owned(),
            AttrErrorKind::ExpectedParentheses => "expected parentheses: #[lvv(...)]".to_owned(),
            AttrErrorKind::Unlexable => "cannot read the attribute's tokens".to_owned(),
            AttrErrorKind::ExpectedNestedAttribute => "expected nested attribute".to_owned(),
            AttrErrorKind::UnexpectedLiteral => "unexpected literal in nested attribute, expected ident".to_owned(),
            AttrErrorKind::UnexpectedToken => "unexpected token in nested attribute, expected ident".to_owned(),
            AttrErrorKind::ExpectedIdent => "expected ident".to_owned(),
            AttrErrorKind::UnsupportedCommand => "unsupported lvv command".to_owned(),
            AttrErrorKind::ExpectedEquals => "expected `=`".to_owned(),
            AttrErrorKind::ExpectedStringLiteral => "expected string literal".to_owned(),
            AttrErrorKind::ExpectedComma => "expected `,`".to_owned(),
        }
    }
}

/// Why a derive refused its input.
#[derive(Debug, Clone, Copy, PartialEq, Eq)]
pub enum DeriveError {
    /// The input is an enum or a union.
    NotAStruct,
    /// An `#[lvv(...)]` attribute of the field at this index was refused.
    Attribute { field: usize, kind: AttrErrorKind },
    /// No field is marked `#[lvv(description)]`.
    MissingDescription,
    /// The field at this index would be stored under the reserved key `category`.
    ReservedCategory { field: usize },
}

} // verus!
