use vstd::prelude::*;

use crate::grammar::{
    all_named_in, command_list, command_name, command_list_accepts_only_valid, command_result_view,
    commands_view, known_commands, known_names, lex, lexed, names_view, opt_string_view,
    parse_command_list,
};
use crate::input::{Attribute, DataStruct, Field, Meta};
use crate::rename_rule::{
    camel_case_field, camel_case_lowers_only_the_first, camel_field, kebab_case_field, kebab_field,
    kebab_case_replaces_every_underscore, pascal_case_field, pascal_case_has_no_underscore,
    pascal_field, screaming_kebab_field, screaming_kebab_maps_each_character, upper_case_field,
    upper_case_maps_each_letter, upper_field,
};
use crate::text::same_text;
use crate::types::{AttrErrorKind, Command, CommandView, DeriveError, Member};

verus! {

/// A field with the commands of its `#[lvv(...)]` attributes, in the order
/// they are written.
#[derive(Debug, Clone)]
pub struct FieldWithAttributes<'a> {
    pub field: &'a Field,
    pub attributes: Vec<Command>,
}

/// Whether the commands hold `skip`.
pub open spec fn skipped(commands: Seq<CommandView>) -> bool {
    commands.contains(CommandView::Skip)
}

/// Whether the commands hold `description` and not `skip`: `skip` wins.
pub open spec fn described(commands: Seq<CommandView>) -> bool {
    !skipped(commands) && commands.contains(CommandView::Description)
}

/// The name of the last `rename` among the commands.
pub open spec fn last_rename(commands: Seq<CommandView>) -> Option<Seq<char>>
    decreases commands.len(),
{
    if commands.len() == 0 {
        None
    } else {
        match commands.last() {
            CommandView::Rename(name) => Some(name),
            _ => last_rename(commands.drop_last()),
        }
    }
}

/// `self.name` for a named field, `self.index` for a tuple field.
pub open spec fn member_of(field: Field, index: usize) -> Member {
    match field.ident {
        Some(ident) => Member::Named(ident),
        None => Member::Unnamed(index),
    }
}

pub open spec fn opt_str_view(s: Option<&str>) -> Option<Seq<char>> {
    match s {
        Some(s) => Some(s@),
        None => None,
    }
}

impl<'a> FieldWithAttributes<'a> {
    pub open spec fn commands(&self) -> Seq<CommandView> {
        commands_view(self.attributes@)
    }

    pub fn is_skipped(&self) -> (res: bool)
        ensures
            res == skipped(self.commands()),
    {
        let mut i: usize = 0;
        while i < self.attributes.len()
            invariant
                i <= self.attributes.len(),
                forall|j: int| 0 <= j < i ==> self.commands()[j] != CommandView::Skip,
            decreases self.attributes.len() - i,
        {
            if matches!(self.attributes[i], Command::Skip) {
                assert(self.commands()[i as int] == CommandView::Skip);
                return true;
            }
            i = i + 1;
        }
        false
    }

    /// `skip` wins over `description`.
    pub fn is_description(&self) -> (res: bool)
        ensures
            res == described(self.commands()),
    {
        let skip = self.is_skipped();
        if skip {
            return false;
        }
        let mut i: usize = 0;
        while i < self.attributes.len()
            invariant
                i <= self.attributes.len(),
                !skipped(self.commands()),
                forall|j: int| 0 <= j < i ==> self.commands()[j] != CommandView::Description,
            decreases self.attributes.len() - i,
        {
            if matches!(self.attributes[i], Command::Description) {
                assert(self.commands()[i as int] == CommandView::Description);
                return true;
            }
            i = i + 1;
        }
        false
    }

    /// The last `rename` wins when several are given.
    pub fn rename(&self) -> (res: Option<&str>)
        ensures
            opt_str_view(res) == last_rename(self.commands()),
    {
        let ghost commands = self.commands();
        let mut i = self.attributes.len();
        assert(commands.take(i as int) =~= commands);
        while i > 0
            invariant
                i <= self.attributes.len(),
                commands == self.commands(),
                last_rename(commands) == last_rename(commands.take(i as int)),
            decreases i,
        {
            i = i - 1;
            assert(commands.take(i + 1).drop_last() =~= commands.take(i as int));
            match &self.attributes[i] {
                Command::Rename(name) => {
                    return Some(name.as_str());
                },
                _ => {},
            }
        }
        None
    }

    /// `self.name` for named fields, `self.0` for tuple fields.
    pub fn member(&self, index: usize) -> (res: Member)
        ensures
            res == member_of(*self.field, index),
    {
        match &self.field.ident {
            Some(ident) => Member::Named(ident.clone()),
            None => Member::Unnamed(index),
        }
    }
}

/// Whether the attribute's path is the one identifier `name`.
pub open spec fn is_named(attr: Attribute, name: Seq<char>) -> bool {
    match attr.ident {
        Some(ident) => ident@ == name,
        None => false,
    }
}

/// The commands of one `#[lvv(...)]` attribute.
pub open spec fn attribute_commands(meta: Meta, valid: Seq<Seq<char>>) -> Result<
    Seq<CommandView>,
    AttrErrorKind,
> {
    match meta {
        Meta::Path => Err(AttrErrorKind::MissingArguments),
        Meta::NameValue => Err(AttrErrorKind::ExpectedParentheses),
        Meta::List(text) => match lexed(text@) {
            Some(tokens) => command_list(tokens, valid),
            None => Err(AttrErrorKind::Unlexable),
        },
    }
}

/// The commands of all `#[lvv(...)]` attributes among `attrs`, in order;
/// other attributes are ignored. The first refused attribute decides the error.
pub open spec fn field_commands(attrs: Seq<Attribute>, valid: Seq<Seq<char>>) -> Result<
    Seq<CommandView>,
    AttrErrorKind,
>
    decreases attrs.len(),
{
    if attrs.len() == 0 {
        Ok(Seq::empty())
    } else {
        match field_commands(attrs.drop_last(), valid) {
            Err(e) => Err(e),
            Ok(prev) => if is_named(attrs.last(), "lvv"@) {
                match attribute_commands(attrs.last().meta, valid) {
                    Ok(commands) => Ok(prev + commands),
                    Err(e) => Err(e),
                }
            } else {
                Ok(prev)
            },
        }
    }
}

/// The commands of each field in order; the first field with a refused
/// attribute decides the error.
pub open spec fn fields_commands(fields: Seq<Field>, valid: Seq<Seq<char>>) -> Result<
    Seq<Seq<CommandView>>,
    DeriveError,
>
    decreases fields.len(),
{
    if fields.len() == 0 {
        Ok(Seq::empty())
    } else {
        match fields_commands(fields.drop_last(), valid) {
            Err(e) => Err(e),
            Ok(prev) => match field_commands(fields.last().attrs@, valid) {
                Ok(commands) => Ok(prev.push(commands)),
                Err(kind) => Err(DeriveError::Attribute { field: (fields.len() - 1) as usize, kind }),
            },
        }
    }
}

pub open spec fn fwa_commands<'a>(fields: Seq<FieldWithAttributes<'a>>) -> Seq<Seq<CommandView>> {
    fields.map_values(|f: FieldWithAttributes<'a>| f.commands())
}

fn attribute_named(attr: &Attribute, name: &str) -> (res: bool)
    ensures
        res == is_named(*attr, name@),
{
    match &attr.ident {
        Some(ident) => same_text(ident.as_str(), name),
        None => false,
    }
}

fn lvv_commands(attr: &Attribute, valid: &[&str]) -> (res: Result<Vec<Command>, AttrErrorKind>)
    requires
        known_commands(valid@),
    ensures
        command_result_view(res) == attribute_commands(attr.meta, names_view(valid@)),
{
    match &attr.meta {
        Meta::Path => Err(AttrErrorKind::MissingArguments),
        Meta::NameValue => Err(AttrErrorKind::ExpectedParentheses),
        Meta::List(text) => match lex(text.as_str()) {
            Some(tokens) => parse_command_list(tokens.as_slice(), valid),
            None => Err(AttrErrorKind::Unlexable),
        },
    }
}

fn commands_of_field(field: &Field, valid: &[&str]) -> (res: Result<Vec<Command>, AttrErrorKind>)
    requires
        known_commands(valid@),
    ensures
        command_result_view(res) == field_commands(field.attrs@, names_view(valid@)),
{
    let ghost names = names_view(valid@);
    let mut commands: Vec<Command> = Vec::new();
    let mut i: usize = 0;
    assert(field.attrs@.take(0) =~= Seq::<Attribute>::empty());
    assert(commands_view(commands@) =~= Seq::<CommandView>::empty());
    while i < field.attrs.len()
        invariant
            i <= field.attrs.len(),
            names == names_view(valid@),
            known_commands(valid@),
            field_commands(field.attrs@.take(i as int), names) == Ok::<
                Seq<CommandView>,
                AttrErrorKind,
            >(commands_view(commands@)),
        decreases field.attrs.len() - i,
    {
        let attr = &field.attrs[i];
        assert(field.attrs@.take(i + 1).drop_last() =~= field.attrs@.take(i as int));
        if attribute_named(attr, "lvv") {
            let mut more = match lvv_commands(attr, valid) {
                Ok(more) => more,
                Err(e) => {
                    proof {
                        lemma_field_commands_error(field.attrs@, i as int, names);
                    }
                    return Err(e);
                },
            };
            let ghost before = commands@;
            let ghost added = more@;
            commands.append(&mut more);
            assert(commands_view(commands@) =~= commands_view(before) + commands_view(added));
        }
        i = i + 1;
    }
    assert(field.attrs@.take(i as int) =~= field.attrs@);
    Ok(commands)
}

/// An error in the attributes up to `i` is the error of all of them.
proof fn lemma_field_commands_error(attrs: Seq<Attribute>, i: int, valid: Seq<Seq<char>>)
    requires
        0 <= i < attrs.len(),
        field_commands(attrs.take(i + 1), valid) is Err,
    ensures
        field_commands(attrs, valid) == field_commands(attrs.take(i + 1), valid),
    decreases attrs.len() - i,
{
    if i + 1 < attrs.len() {
        assert(attrs.take(i + 2).drop_last() =~= attrs.take(i + 1));
        lemma_field_commands_error(attrs, i + 1, valid);
    } else {
        assert(attrs.take(i + 1) =~= attrs);
    }
}

/// Pairs each field with the commands of its `#[lvv(...)]` attributes.
/// `valid` names the commands that the derive accepts.
pub fn parse_attributes<'a>(input: &'a DataStruct, valid: &[&str]) -> (res: Result<
    Vec<FieldWithAttributes<'a>>,
    DeriveError,
>)
    requires
        known_commands(valid@),
    ensures
        match res {
            Ok(fields) => {
                &&& fields@.len() == input.fields.items().len()
                &&& forall|i: int|
                    0 <= i < fields@.len() ==> *(#[trigger] fields@[i]).field
                        == input.fields.items()[i]
                &&& fields_commands(input.fields.items(), names_view(valid@)) == Ok::<
                    Seq<Seq<CommandView>>,
                    DeriveError,
                >(fwa_commands(fields@))
            },
            Err(e) => fields_commands(input.fields.items(), names_view(valid@)) == Err::<
                Seq<Seq<CommandView>>,
                DeriveError,
            >(e),
        },
{
    let ghost items = input.fields.items();
    let ghost names = names_view(valid@);
    let n = input.fields.len();
    let mut res: Vec<FieldWithAttributes<'a>> = Vec::new();
    let mut i: usize = 0;
    assert(items.take(0) =~= Seq::<Field>::empty());
    assert(fwa_commands(res@) =~= Seq::<Seq<CommandView>>::empty());
    while i < n
        invariant
            n == items.len(),
            items == input.fields.items(),
            i <= n,
            names == names_view(valid@),
            known_commands(valid@),
            res@.len() == i,
            forall|j: int| 0 <= j < i ==> *(#[trigger] res@[j]).field == items[j],
            fields_commands(items.take(i as int), names) == Ok::<
                Seq<Seq<CommandView>>,
                DeriveError,
            >(fwa_commands(res@)),
        decreases n - i,
    {
        let field = input.fields.get(i);
        assert(items.take(i + 1).drop_last() =~= items.take(i as int));
        assert(items.take(i + 1).last() == items[i as int]);
        let attributes = match commands_of_field(field, valid) {
            Ok(attributes) => attributes,
            Err(kind) => {
                proof {
                    lemma_fields_commands_error(items, i as int, names);
                }
                return Err(DeriveError::Attribute { field: i, kind });
            },
        };
        let ghost before = res@;
        res.push(FieldWithAttributes { field, attributes });
        assert(fwa_commands(res@) =~= fwa_commands(before).push(commands_view(attributes@)));
        i = i + 1;
    }
    assert(items.take(n as int) =~= items);
    Ok(res)
}

/// An error in the fields up to `i` is the error of all of them.
proof fn lemma_fields_commands_error(fields: Seq<Field>, i: int, valid: Seq<Seq<char>>)
    requires
        0 <= i < fields.len(),
        fields_commands(fields.take(i + 1), valid) is Err,
    ensures
        fields_commands(fields, valid) == fields_commands(fields.take(i + 1), valid),
    decreases fields.len() - i,
{
    if i + 1 < fields.len() {
        assert(fields.take(i + 2).drop_last() =~= fields.take(i + 1));
        lemma_fields_commands_error(fields, i + 1, valid);
    } else {
        assert(fields.take(i + 1) =~= fields);
    }
}

/// One item of a `#[serde(...)]` argument list, as far as it is read: its
/// path when that is one identifier, and its value when it is written
/// `path = "string literal"`.
#[derive(Debug, Clone, PartialEq, Eq)]
pub struct MetaItem {
    pub ident: Option<String>,
    pub str_value: Option<String>,
}

pub struct MetaItemView {
    pub ident: Option<Seq<char>>,
    pub str_value: Option<Seq<char>>,
}

impl View for MetaItem {
    type V = MetaItemView;

    open spec fn view(&self) -> MetaItemView {
        MetaItemView { ident: opt_string_view(self.ident), str_value: opt_string_view(self.str_value) }
    }
}

pub open spec fn meta_items_view(items: Seq<MetaItem>) -> Seq<MetaItemView> {
    items.map_values(|m: MetaItem| m@)
}

pub open spec fn opt_meta_items_view(items: Option<Vec<MetaItem>>) -> Option<Seq<MetaItemView>> {
    match items {
        Some(items) => Some(meta_items_view(items@)),
        None => None,
    }
}

/// The items that `syn` parses `text` into as a comma-separated list of
/// `syn::Meta`, or `None` when `text` is not such a list.
pub uninterp spec fn meta_list(text: Seq<char>) -> Option<Seq<MetaItemView>>;

/// Calls `syn::parse::Parser::parse_str` with
/// `Punctuated::<syn::Meta, Comma>::parse_terminated`, and for each item
/// `Path::get_ident` and, for `path = "literal"`, `LitStr::value`.
/// Claims only that the result is `meta_list` of the text.
#[verifier::external_body]
fn parse_meta_list(text: &str) -> (res: Option<Vec<MetaItem>>)
    ensures
        opt_meta_items_view(res) == meta_list(text@),
{
    let parser = syn::punctuated::Punctuated::<syn::Meta, syn::token::Comma>::parse_terminated;
    let metas = syn::parse::Parser::parse_str(parser, text).ok()?;
    Some(metas.into_iter().map(|meta| MetaItem {
        ident: meta.path().get_ident().map(|ident| ident.to_string()),
        str_value: match meta {
            syn::Meta::NameValue(syn::MetaNameValue {
                value: syn::Expr::Lit(syn::ExprLit { lit: syn::Lit::Str(lit), .. }), ..
            }) => Some(lit.value()),
            _ => None,
        },
    }).collect())
}

/// The string value of the first item `key = "value"`.
pub open spec fn find_value(items: Seq<MetaItemView>, key: Seq<char>) -> Option<Seq<char>>
    decreases items.len(),
{
    if items.len() == 0 {
        None
    } else if items[0].ident == Some(key) && items[0].str_value is Some {
        items[0].str_value
    } else {
        find_value(items.drop_first(), key)
    }
}

/// The string value of the first item `key = "value"` among `items`.
pub fn find_str_value(items: &[MetaItem], key: &str) -> (res: Option<String>)
    ensures
        opt_string_view(res) == find_value(meta_items_view(items@), key@),
{
    let ghost all = meta_items_view(items@);
    let mut i: usize = 0;
    assert(all.skip(0) =~= all);
    while i < items.len()
        invariant
            i <= items.len(),
            all == meta_items_view(items@),
            find_value(all, key@) == find_value(all.skip(i as int), key@),
        decreases items.len() - i,
    {
        assert(all.skip(i as int).drop_first() =~= all.skip(i + 1));
        let item = &items[i];
        match (&item.ident, &item.str_value) {
            (Some(ident), Some(value)) => {
                if same_text(ident.as_str(), key) {
                    return Some(value.clone());
                }
            },
            _ => {},
        }
        i = i + 1;
    }
    None
}

/// The value that one attribute gives `key`, if it is `#[serde(...)]` and
/// its arguments parse.
pub open spec fn serde_attr_value(attr: Attribute, key: Seq<char>) -> Option<Seq<char>> {
    if is_named(attr, "serde"@) {
        match attr.meta {
            Meta::List(text) => match meta_list(text@) {
                Some(items) => find_value(items, key),
                None => None,
            },
            _ => None,
        }
    } else {
        None
    }
}

/// The value of the first `#[serde(key = "value")]` among `attrs`.
pub open spec fn serde_value(attrs: Seq<Attribute>, key: Seq<char>) -> Option<Seq<char>>
    decreases attrs.len(),
{
    if attrs.len() == 0 {
        None
    } else {
        match serde_attr_value(attrs[0], key) {
            Some(value) => Some(value),
            None => serde_value(attrs.drop_first(), key),
        }
    }
}

/// `#[serde(key = "value")]`. Serde attributes that do not parse are left to serde.
pub fn serde_str_value(attrs: &[Attribute], key: &str) -> (res: Option<String>)
    ensures
        opt_string_view(res) == serde_value(attrs@, key@),
{
    let mut i: usize = 0;
    assert(attrs@.skip(0) =~= attrs@);
    while i < attrs.len()
        invariant
            i <= attrs.len(),
            serde_value(attrs@, key@) == serde_value(attrs@.skip(i as int), key@),
        decreases attrs.len() - i,
    {
        assert(attrs@.skip(i as int).drop_first() =~= attrs@.skip(i + 1));
        let attr = &attrs[i];
        if attribute_named(attr, "serde") {
            match &attr.meta {
                Meta::List(text) => match parse_meta_list(text.as_str()) {
                    Some(items) => match find_str_value(items.as_slice(), key) {
                        Some(value) => {
                            return Some(value);
                        },
                        None => {},
                    },
                    None => {},
                },
                _ => {},
            }
        }
        i = i + 1;
    }
    None
}

/// The name serde gives a field under a container's `rename_all` style:
/// `lowercase` and `snake_case` keep it, `UPPERCASE` and
/// `SCREAMING_SNAKE_CASE` make it ASCII upper case, `PascalCase`,
/// `camelCase`, `kebab-case` and `SCREAMING-KEBAB-CASE` follow serde's
/// rules for field names; an unknown style, or none, keeps the name.
pub open spec fn rename_all_key(name: Seq<char>, style: Option<Seq<char>>) -> Seq<char> {
    match style {
        Some(style) => if style == "UPPERCASE"@ || style == "SCREAMING_SNAKE_CASE"@ {
            upper_field(name)
        } else if style == "PascalCase"@ {
            pascal_field(name)
        } else if style == "camelCase"@ {
            camel_field(name)
        } else if style == "kebab-case"@ {
            kebab_field(name)
        } else if style == "SCREAMING-KEBAB-CASE"@ {
            screaming_kebab_field(name)
        } else {
            name
        },
        None => name,
    }
}

/// The key serde gives a named field: its own `#[serde(rename)]`, else the
/// container's `#[serde(rename_all)]` applied to the field name.
pub open spec fn serde_key_of(
    name: Seq<char>,
    field_attrs: Seq<Attribute>,
    container_attrs: Seq<Attribute>,
) -> Seq<char> {
    match serde_value(field_attrs, "rename"@) {
        Some(rename) => rename,
        None => rename_all_key(name, serde_value(container_attrs, "rename_all"@)),
    }
}

/// The key serde gives a named field: its `#[serde(rename)]`, else the
/// container's `#[serde(rename_all)]` applied to the field name.
pub fn serde_key(field_name: &str, field_attrs: &[Attribute], container_attrs: &[Attribute]) -> (res:
    String)
    ensures
        res@ == serde_key_of(field_name@, field_attrs@, container_attrs@),
{
    if let Some(rename) = serde_str_value(field_attrs, "rename") {
        return rename;
    }
    match serde_str_value(container_attrs, "rename_all") {
        Some(style) => {
            let style = style.as_str();
            if same_text(style, "UPPERCASE") || same_text(style, "SCREAMING_SNAKE_CASE") {
                upper_case_field(field_name, false)
            } else if same_text(style, "PascalCase") {
                pascal_case_field(field_name)
            } else if same_text(style, "camelCase") {
                camel_case_field(field_name)
            } else if same_text(style, "kebab-case") {
                kebab_case_field(field_name)
            } else if same_text(style, "SCREAMING-KEBAB-CASE") {
                upper_case_field(field_name, true)
            } else {
                field_name.to_owned()
            }
        },
        None => field_name.to_owned(),
    }
}

/// `skip` wins over `description`: a skipped field is never a description field.
pub proof fn skip_wins_over_description(commands: Seq<CommandView>)
    ensures
        skipped(commands) ==> !described(commands),
        described(commands) <==> !skipped(commands) && commands.contains(CommandView::Description),
{
}

/// When `rename` is given more than once, the last one wins: commands
/// after it that are not renames leave it in force.
pub proof fn last_rename_wins(before: Seq<CommandView>, name: Seq<char>, after: Seq<CommandView>)
    requires
        forall|i: int| 0 <= i < after.len() ==> !(#[trigger] after[i] is Rename),
    ensures
        last_rename(before.push(CommandView::Rename(name)) + after) == Some(name),
    decreases after.len(),
{
    let all = before.push(CommandView::Rename(name)) + after;
    if after.len() == 0 {
        assert(all =~= before.push(CommandView::Rename(name)));
    } else {
        assert(!(after.last() is Rename));
        assert(all.drop_last() =~= before.push(CommandView::Rename(name)) + after.drop_last());
        last_rename_wins(before, name, after.drop_last());
    }
}

/// The commands of a field are those of its `#[lvv(...)]` attributes taken
/// one after the other: the attributes of `a` and then those of `b`.
pub proof fn field_commands_concatenate(a: Seq<Attribute>, b: Seq<Attribute>, valid: Seq<Seq<char>>)
    ensures
        field_commands(a + b, valid) == match field_commands(a, valid) {
            Err(e) => Err(e),
            Ok(x) => match field_commands(b, valid) {
                Ok(y) => Ok(x + y),
                Err(e) => Err(e),
            },
        },
    decreases b.len(),
{
    if b.len() == 0 {
        assert(a + b =~= a);
        if let Ok(x) = field_commands(a, valid) {
            assert(x + Seq::<CommandView>::empty() =~= x);
        }
    } else {
        assert((a + b).drop_last() =~= a + b.drop_last());
        assert((a + b).last() == b.last());
        field_commands_concatenate(a, b.drop_last(), valid);
        if let Ok(x) = field_commands(a, valid) {
            if let Ok(y) = field_commands(b.drop_last(), valid) {
                if is_named(b.last(), "lvv"@) {
                    if let Ok(c) = attribute_commands(b.last().meta, valid) {
                        assert(x + y + c =~= x + (y + c));
                    }
                }
            }
        }
    }
}

/// Attributes other than `#[lvv(...)]`, such as `#[serde(...)]`, do not
/// change a field's commands.
pub proof fn other_attributes_are_ignored(
    a: Seq<Attribute>,
    attr: Attribute,
    b: Seq<Attribute>,
    valid: Seq<Seq<char>>,
)
    requires
        !is_named(attr, "lvv"@),
    ensures
        field_commands(a + seq![attr] + b, valid) == field_commands(a + b, valid),
{
    field_commands_concatenate(a, seq![attr], valid);
    field_commands_concatenate(a + seq![attr], b, valid);
    field_commands_concatenate(a, b, valid);
    assert(seq![attr].drop_last() =~= Seq::<Attribute>::empty());
    assert(seq![attr].last() == attr);
    assert(field_commands(Seq::<Attribute>::empty(), valid) == Ok::<Seq<CommandView>, AttrErrorKind>(
        Seq::empty(),
    ));
    assert(field_commands(seq![attr], valid) == Ok::<Seq<CommandView>, AttrErrorKind>(
        Seq::empty(),
    ));
    if let Ok(x) = field_commands(a, valid) {
        assert(x + Seq::<CommandView>::empty() =~= x);
    }
}

proof fn lemma_field_commands_named_in(attrs: Seq<Attribute>, valid: Seq<Seq<char>>)
    requires
        known_names(valid),
    ensures
        field_commands(attrs, valid) matches Ok(commands) ==> all_named_in(commands, valid),
    decreases attrs.len(),
{
    if attrs.len() > 0 {
        lemma_field_commands_named_in(attrs.drop_last(), valid);
        if let Ok(prev) = field_commands(attrs.drop_last(), valid) {
            if is_named(attrs.last(), "lvv"@) {
                if let Meta::List(text) = attrs.last().meta {
                    if let Some(tokens) = lexed(text@) {
                        command_list_accepts_only_valid(tokens, valid);
                        if let Ok(more) = command_list(tokens, valid) {
                            let all = prev + more;
                            assert forall|i: int| 0 <= i < all.len() implies valid.contains(
                                command_name(#[trigger] all[i]),
                            ) by {
                                if i >= prev.len() {
                                    assert(all[i] == more[i - prev.len()]);
                                }
                            }
                        }
                    }
                }
            }
        }
    }
}

/// Every field's commands are among those the derive accepts; any other
/// command refuses the whole input.
pub proof fn fields_accept_only_valid(fields: Seq<Field>, valid: Seq<Seq<char>>)
    requires
        known_names(valid),
    ensures
        fields_commands(fields, valid) matches Ok(commands) ==> forall|i: int|
            0 <= i < commands.len() ==> all_named_in(#[trigger] commands[i], valid),
    decreases fields.len(),
{
    if fields.len() > 0 {
        fields_accept_only_valid(fields.drop_last(), valid);
        lemma_field_commands_named_in(fields.last().attrs@, valid);
    }
}

/// Under `lowercase` and `snake_case` serde keeps a field's name as it is,
/// so `fieldA` stays `fieldA`.
pub proof fn lowercase_keeps_field_names(name: Seq<char>)
    ensures
        rename_all_key(name, Some("lowercase"@)) == name,
        rename_all_key(name, Some("snake_case"@)) == name,
{
    reveal_strlit("lowercase");
    reveal_strlit("snake_case");
    reveal_strlit("UPPERCASE");
    reveal_strlit("SCREAMING_SNAKE_CASE");
    reveal_strlit("PascalCase");
    reveal_strlit("camelCase");
    reveal_strlit("kebab-case");
    reveal_strlit("SCREAMING-KEBAB-CASE");
    assert("lowercase"@.len() == 9 && "snake_case"@.len() == 10);
    assert("UPPERCASE"@.len() == 9 && "SCREAMING_SNAKE_CASE"@.len() == 20);
    assert("PascalCase"@.len() == 10 && "camelCase"@.len() == 9);
    assert("kebab-case"@.len() == 10 && "SCREAMING-KEBAB-CASE"@.len() == 20);
    assert("lowercase"@[0] != "UPPERCASE"@[0] && "lowercase"@[0] != "camelCase"@[0]);
    assert("snake_case"@[0] != "PascalCase"@[0] && "snake_case"@[0] != "kebab-case"@[0]);
}

/// What each `rename_all` style does to a field name, character by
/// character: `UPPERCASE` and `SCREAMING_SNAKE_CASE` capitalise ASCII
/// letters, `kebab-case` turns every `_` into `-`, `SCREAMING-KEBAB-CASE`
/// does both, and `PascalCase` and `camelCase` leave no `_`.
pub proof fn rename_all_styles_on_field_names(name: Seq<char>)
    ensures
        forall|style: Seq<char>|
            #![trigger rename_all_key(name, Some(style))]
            (style == "UPPERCASE"@ || style == "SCREAMING_SNAKE_CASE"@) ==> {
                let r = rename_all_key(name, Some(style));
                &&& r.len() == name.len()
                &&& forall|j: int|
                    0 <= j < name.len() ==> {
                        let c = name[j];
                        &&& ('a' <= c <= 'z' ==> #[trigger] r[j] as int == c as int - 32)
                        &&& (!('a' <= c <= 'z') ==> r[j] == c)
                    }
            },
        rename_all_key(name, Some("kebab-case"@)).len() == name.len(),
        forall|j: int|
            0 <= j < name.len() ==> #[trigger] rename_all_key(name, Some("kebab-case"@))[j] == (if name[j]
                == '_' {
                '-'
            } else {
                name[j]
            }),
        rename_all_key(name, Some("SCREAMING-KEBAB-CASE"@)).len() == name.len(),
        !rename_all_key(name, Some("SCREAMING-KEBAB-CASE"@)).contains('_'),
        forall|j: int|
            0 <= j < name.len() ==> {
                let c = name[j];
                let r = #[trigger] rename_all_key(name, Some("SCREAMING-KEBAB-CASE"@))[j];
                &&& (c == '_' ==> r == '-')
                &&& ('a' <= c <= 'z' ==> r as int == c as int - 32)
                &&& (c != '_' && !('a' <= c <= 'z') ==> r == c)
            },
        !rename_all_key(name, Some("PascalCase"@)).contains('_'),
        !rename_all_key(name, Some("camelCase"@)).contains('_'),
{
    reveal_strlit("UPPERCASE");
    reveal_strlit("SCREAMING_SNAKE_CASE");
    reveal_strlit("PascalCase");
    reveal_strlit("camelCase");
    reveal_strlit("kebab-case");
    reveal_strlit("SCREAMING-KEBAB-CASE");
    assert("UPPERCASE"@.len() == 9 && "SCREAMING_SNAKE_CASE"@.len() == 20);
    assert("PascalCase"@.len() == 10 && "camelCase"@.len() == 9);
    assert("kebab-case"@.len() == 10 && "SCREAMING-KEBAB-CASE"@.len() == 20);
    assert("UPPERCASE"@[0] != "camelCase"@[0]);
    assert("SCREAMING_SNAKE_CASE"@[9] != "SCREAMING-KEBAB-CASE"@[9]);
    assert("PascalCase"@[0] != "kebab-case"@[0]);
    upper_case_maps_each_letter(name);
    kebab_case_replaces_every_underscore(name);
    screaming_kebab_maps_each_character(name);
    pascal_case_has_no_underscore(name, true);
    camel_case_lowers_only_the_first(name);
    let p = pascal_field(name);
    let c = camel_field(name);
    assert(!c.contains('_')) by {
        if c.contains('_') {
            let k = choose|k: int| 0 <= k < c.len() && c[k] == '_';
            if k > 0 {
                assert(p[k] == '_');
            } else {
                assert(p[0] != '_');
            }
        }
    }
}

/// A field's own `#[serde(rename)]` wins over the container's `rename_all`.
pub proof fn serde_rename_wins(
    name: Seq<char>,
    field_attrs: Seq<Attribute>,
    container_attrs: Seq<Attribute>,
    rename: Seq<char>,
)
    requires
        serde_value(field_attrs, "rename"@) == Some(rename),
    ensures
        serde_key_of(name, field_attrs, container_attrs) == rename,
{
}

/// Whether the item is `key = "string"`.
pub open spec fn gives_value(item: MetaItemView, key: Seq<char>) -> bool {
    item.ident == Some(key) && item.str_value is Some
}

/// The first item `key = "value"` of a list decides, at whatever position
/// it stands; items before it that do not give `key` a string, such as
/// `default` or `skip_serializing_if = ...`, change nothing; with no such
/// item there is no value.
pub proof fn first_matching_item_decides(items: Seq<MetaItemView>, key: Seq<char>)
    ensures
        forall|k: int|
            0 <= k < items.len() && #[trigger] gives_value(items[k], key) && (forall|m: int|
                0 <= m < k ==> !gives_value(items[m], key)) ==> find_value(items, key)
                == items[k].str_value,
        (forall|m: int| 0 <= m < items.len() ==> !#[trigger] gives_value(items[m], key))
            ==> find_value(items, key) is None,
    decreases items.len(),
{
    if items.len() > 0 {
        let rest = items.drop_first();
        first_matching_item_decides(rest, key);
        assert forall|k: int|
            0 <= k < items.len() && #[trigger] gives_value(items[k], key) && (forall|m: int|
                0 <= m < k ==> !gives_value(items[m], key)) implies find_value(items, key)
            == items[k].str_value by {
            if k > 0 {
                assert(!gives_value(items[0], key));
                assert(rest[k - 1] == items[k]);
                assert forall|m: int| 0 <= m < k - 1 implies !gives_value(rest[m], key) by {
                    assert(rest[m] == items[m + 1]);
                }
            }
        }
        if forall|m: int| 0 <= m < items.len() ==> !#[trigger] gives_value(items[m], key) {
            assert(!gives_value(items[0], key));
            assert forall|m: int| 0 <= m < rest.len() implies !#[trigger] gives_value(rest[m], key) by {
                assert(rest[m] == items[m + 1]);
            }
        }
    }
}

/// Items that do not give `key` a string may stand before the one that
/// does without changing the value found.
pub proof fn leading_items_do_not_hide_the_value(
    before: Seq<MetaItemView>,
    items: Seq<MetaItemView>,
    key: Seq<char>,
)
    requires
        forall|m: int| 0 <= m < before.len() ==> !#[trigger] gives_value(before[m], key),
    ensures
        find_value(before + items, key) == find_value(items, key),
    decreases before.len(),
{
    if before.len() > 0 {
        assert((before + items)[0] == before[0]);
        assert(!gives_value(before[0], key));
        assert((before + items).drop_first() =~= before.drop_first() + items);
        assert forall|m: int| 0 <= m < before.drop_first().len() implies !#[trigger] gives_value(
            before.drop_first()[m],
            key,
        ) by {
            assert(before.drop_first()[m] == before[m + 1]);
        }
        leading_items_do_not_hide_the_value(before.drop_first(), items, key);
    } else {
        assert(before + items =~= items);
    }
}

/// The first `#[serde(...)]` attribute that gives `key` a string decides,
/// whatever attributes stand before it; with none there is no value.
pub proof fn first_serde_attribute_decides(attrs: Seq<Attribute>, key: Seq<char>)
    ensures
        forall|k: int|
            0 <= k < attrs.len() && #[trigger] serde_attr_value(attrs[k], key) is Some && (forall|
                m: int,
            | 0 <= m < k ==> serde_attr_value(attrs[m], key) is None) ==> serde_value(attrs, key)
                == serde_attr_value(attrs[k], key),
        (forall|m: int| 0 <= m < attrs.len() ==> #[trigger] serde_attr_value(attrs[m], key) is None)
            ==> serde_value(attrs, key) is None,
    decreases attrs.len(),
{
    if attrs.len() > 0 {
        let rest = attrs.drop_first();
        first_serde_attribute_decides(rest, key);
        assert forall|k: int|
            0 <= k < attrs.len() && #[trigger] serde_attr_value(attrs[k], key) is Some && (forall|
                m: int,
            | 0 <= m < k ==> serde_attr_value(attrs[m], key) is None) implies serde_value(attrs, key)
            == serde_attr_value(attrs[k], key) by {
            if k > 0 {
                assert(serde_attr_value(attrs[0], key) is None);
                assert(rest[k - 1] == attrs[k]);
                assert forall|m: int| 0 <= m < k - 1 implies serde_attr_value(rest[m], key) is None by {
                    assert(rest[m] == attrs[m + 1]);
                }
            }
        }
        if forall|m: int| 0 <= m < attrs.len() ==> #[trigger] serde_attr_value(attrs[m], key) is None {
            assert(serde_attr_value(attrs[0], key) is None);
            assert forall|m: int| 0 <= m < rest.len() implies #[trigger] serde_attr_value(rest[m], key) is None by {
                assert(rest[m] == attrs[m + 1]);
            }
        }
    }
}

} // verus!
