use vstd::prelude::*;

use crate::attributes::{
    described, fields_commands, fwa_commands, last_rename, member_of, opt_str_view,
    parse_attributes, serde_key, serde_key_of, skipped, FieldWithAttributes,
};
use crate::grammar::names_view;
use crate::input::{Attribute, Data, DeriveInput, Field, Fields};
use crate::text::{decimal, index_key, same_text, unraw, unraw_spec};
use crate::types::{CommandView, DeriveError, Member};

verus! {

/// A field that goes into the embedded description: its index among all
/// fields and how it is reached from `self`.
#[derive(Debug, Clone, PartialEq, Eq)]
pub struct DescriptionField {
    pub index: usize,
    pub member: Member,
}

/// What serde writes for the value: an object for named fields, the inner
/// value for a newtype, an array for other tuple structs, nothing for a
/// unit struct.
#[derive(Debug, Clone, Copy, PartialEq, Eq)]
pub enum ObjectShape {
    Named,
    Newtype,
    Tuple,
    Unit,
}

/// How the payload is made from the serialized value: the keys to remove
/// and the keys to rename, in field order.
#[derive(Debug, Clone, PartialEq, Eq)]
pub struct PayloadImpl {
    pub object: ObjectShape,
    pub removed: Vec<String>,
    pub renamed_from: Vec<String>,
    pub renamed_to: Vec<String>,
}

/// What `VectorDatabaseItem` generates for a struct: its category, the
/// fields of its description and the making of its payload.
#[derive(Debug, Clone, PartialEq, Eq)]
pub struct ItemImpl {
    pub category: String,
    pub description: Vec<DescriptionField>,
    pub payload: PayloadImpl,
}

/// The keys of a payload as mathematical values: removed, renamed from,
/// renamed to.
pub struct PayloadKeys {
    pub removed: Seq<Seq<char>>,
    pub renamed_from: Seq<Seq<char>>,
    pub renamed_to: Seq<Seq<char>>,
}

pub open spec fn strings_view(strings: Seq<String>) -> Seq<Seq<char>> {
    strings.map_values(|s: String| s@)
}

impl PayloadImpl {
    pub open spec fn keys(&self) -> PayloadKeys {
        PayloadKeys {
            removed: strings_view(self.removed@),
            renamed_from: strings_view(self.renamed_from@),
            renamed_to: strings_view(self.renamed_to@),
        }
    }
}

pub open spec fn fwa_fields<'a>(fields: Seq<FieldWithAttributes<'a>>) -> Seq<Field> {
    fields.map_values(|f: FieldWithAttributes<'a>| *f.field)
}

/// The description fields in declaration order: those marked
/// `description` and not `skip`.
pub open spec fn description_fields_of(fields: Seq<Field>, commands: Seq<Seq<CommandView>>) -> Seq<
    DescriptionField,
>
    decreases fields.len(),
{
    if fields.len() == 0 {
        Seq::empty()
    } else {
        let i = fields.len() - 1;
        let prev = description_fields_of(fields.drop_last(), commands);
        if described(commands[i]) {
            prev.push(
                DescriptionField { index: i as usize, member: member_of(fields[i], i as usize) },
            )
        } else {
            prev
        }
    }
}

/// The key serde writes a field under: for a named field its serde key,
/// for a tuple field its index.
pub open spec fn payload_key_of(field: Field, index: nat, container_attrs: Seq<Attribute>) -> Seq<
    char,
> {
    match field.ident {
        Some(ident) => serde_key_of(unraw_spec(ident@), field.attrs@, container_attrs),
        None => decimal(index),
    }
}

/// The key a field is stored under in the payload.
pub open spec fn target_key_of(key: Seq<char>, commands: Seq<CommandView>) -> Seq<char> {
    match last_rename(commands) {
        Some(name) => name,
        None => key,
    }
}

/// The payload keys, field by field: a skipped field's key is removed;
/// another field whose target key differs from its serde key is renamed;
/// a field whose target key is `category` is refused.
pub open spec fn payload_keys_of(
    fields: Seq<Field>,
    commands: Seq<Seq<CommandView>>,
    container_attrs: Seq<Attribute>,
) -> Result<PayloadKeys, DeriveError>
    decreases fields.len(),
{
    if fields.len() == 0 {
        Ok(PayloadKeys { removed: Seq::empty(), renamed_from: Seq::empty(), renamed_to: Seq::empty() })
    } else {
        let i = fields.len() - 1;
        match payload_keys_of(fields.drop_last(), commands, container_attrs) {
            Err(e) => Err(e),
            Ok(prev) => {
                let key = payload_key_of(fields[i], i as nat, container_attrs);
                let target = target_key_of(key, commands[i]);
                if skipped(commands[i]) {
                    Ok(PayloadKeys { removed: prev.removed.push(key), ..prev })
                } else if target == "category"@ {
                    Err(DeriveError::ReservedCategory { field: i as usize })
                } else if target != key {
                    Ok(
                        PayloadKeys {
                            renamed_from: prev.renamed_from.push(key),
                            renamed_to: prev.renamed_to.push(target),
                            ..prev
                        },
                    )
                } else {
                    Ok(prev)
                }
            },
        }
    }
}

/// What serde writes for a struct with these fields.
pub open spec fn object_shape_of(fields: Fields) -> ObjectShape {
    match fields {
        Fields::Named(_) => ObjectShape::Named,
        Fields::Unnamed(fields) => if fields.len() == 1 {
            ObjectShape::Newtype
        } else {
            ObjectShape::Tuple
        },
        Fields::Unit => ObjectShape::Unit,
    }
}

/// The fields of the description, in declaration order; refused when
/// no field is a description field.
pub fn description_impl(input: &DeriveInput, fields: &[FieldWithAttributes]) -> (res: Result<
    Vec<DescriptionField>,
    DeriveError,
>)
    ensures
        ({
            let expected = description_fields_of(fwa_fields(fields@), fwa_commands(fields@));
            if expected.len() == 0 {
                res == Err::<Vec<DescriptionField>, DeriveError>(DeriveError::MissingDescription)
            } else {
                res matches Ok(members) && members@ == expected
            }
        }),
{
    let ghost all = fwa_fields(fields@);
    let ghost commands = fwa_commands(fields@);
    let mut members: Vec<DescriptionField> = Vec::new();
    let mut index: usize = 0;
    assert(all.take(0) =~= Seq::<Field>::empty());
    while index < fields.len()
        invariant
            index <= fields.len(),
            all == fwa_fields(fields@),
            commands == fwa_commands(fields@),
            members@ == description_fields_of(all.take(index as int), commands),
        decreases fields.len() - index,
    {
        let fwa = &fields[index];
        assert(all.take(index + 1).drop_last() =~= all.take(index as int));
        assert(fwa.commands() == commands[index as int]);
        if fwa.is_description() {
            let member = fwa.member(index);
            members.push(DescriptionField { index, member });
        }
        index = index + 1;
    }
    assert(all.take(index as int) =~= all);
    if members.len() == 0 {
        return Err(DeriveError::MissingDescription);
    }
    Ok(members)
}

fn payload_key(input: &DeriveInput, fwa: &FieldWithAttributes, index: usize) -> (res: String)
    ensures
        res@ == payload_key_of(*fwa.field, index as nat, input.attrs@),
{
    match &fwa.field.ident {
        Some(ident) => {
            let name = unraw(ident.as_str());
            serde_key(name.as_str(), fwa.field.attrs.as_slice(), input.attrs.as_slice())
        },
        None => index_key(index),
    }
}

fn object_shape(shape: &Fields) -> (res: ObjectShape)
    ensures
        res == object_shape_of(*shape),
{
    match shape {
        Fields::Named(_) => ObjectShape::Named,
        Fields::Unnamed(fields) => if fields.len() == 1 {
            ObjectShape::Newtype
        } else {
            ObjectShape::Tuple
        },
        Fields::Unit => ObjectShape::Unit,
    }
}

/// An error among the first `i + 1` fields is the error of all of them.
proof fn lemma_payload_keys_error(
    fields: Seq<Field>,
    commands: Seq<Seq<CommandView>>,
    container_attrs: Seq<Attribute>,
    i: int,
)
    requires
        0 <= i < fields.len(),
        payload_keys_of(fields.take(i + 1), commands, container_attrs) is Err,
    ensures
        payload_keys_of(fields, commands, container_attrs) == payload_keys_of(
            fields.take(i + 1),
            commands,
            container_attrs,
        ),
    decreases fields.len() - i,
{
    if i + 1 < fields.len() {
        assert(fields.take(i + 2).drop_last() =~= fields.take(i + 1));
        lemma_payload_keys_error(fields, commands, container_attrs, i + 1);
    } else {
        assert(fields.take(i + 1) =~= fields);
    }
}

/// The keys to remove and to rename in the serialized value: `skip`
/// removes a field's key, `rename` moves it, and no field may end up
/// under `category`, which holds the item's category.
pub fn payload_impl(input: &DeriveInput, shape: &Fields, fields: &[FieldWithAttributes]) -> (res:
    Result<PayloadImpl, DeriveError>)
    ensures
        match payload_keys_of(fwa_fields(fields@), fwa_commands(fields@), input.attrs@) {
            Ok(keys) => res matches Ok(payload) && payload.keys() == keys && payload.object
                == object_shape_of(*shape),
            Err(e) => res == Err::<PayloadImpl, DeriveError>(e),
        },
{
    let ghost all = fwa_fields(fields@);
    let ghost commands = fwa_commands(fields@);
    let mut removed: Vec<String> = Vec::new();
    let mut renamed_from: Vec<String> = Vec::new();
    let mut renamed_to: Vec<String> = Vec::new();
    let mut index: usize = 0;
    assert(all.take(0) =~= Seq::<Field>::empty());
    assert(strings_view(removed@) =~= Seq::<Seq<char>>::empty());
    assert(strings_view(renamed_from@) =~= Seq::<Seq<char>>::empty());
    assert(strings_view(renamed_to@) =~= Seq::<Seq<char>>::empty());
    while index < fields.len()
        invariant
            index <= fields.len(),
            all == fwa_fields(fields@),
            commands == fwa_commands(fields@),
            payload_keys_of(all.take(index as int), commands, input.attrs@) == Ok::<
                PayloadKeys,
                DeriveError,
            >(
                PayloadKeys {
                    removed: strings_view(removed@),
                    renamed_from: strings_view(renamed_from@),
                    renamed_to: strings_view(renamed_to@),
                },
            ),
        decreases fields.len() - index,
    {
        let fwa = &fields[index];
        assert(all.take(index + 1).drop_last() =~= all.take(index as int));
        assert(all.take(index + 1).last() == *fwa.field);
        assert(fwa.commands() == commands[index as int]);
        let key = payload_key(input, fwa, index);
        if fwa.is_skipped() {
            let ghost before = removed@;
            removed.push(key);
            assert(strings_view(removed@) =~= strings_view(before).push(key@));
        } else {
            let target = match fwa.rename() {
                Some(name) => name.to_owned(),
                None => key.clone(),
            };
            assert(target@ == target_key_of(key@, commands[index as int]));
            if same_text(target.as_str(), "category") {
                proof {
                    lemma_payload_keys_error(all, commands, input.attrs@, index as int);
                }
                return Err(DeriveError::ReservedCategory { field: index });
            }
            if !same_text(target.as_str(), key.as_str()) {
                let ghost before_from = renamed_from@;
                let ghost before_to = renamed_to@;
                renamed_from.push(key);
                renamed_to.push(target);
                assert(strings_view(renamed_from@) =~= strings_view(before_from).push(key@));
                assert(strings_view(renamed_to@) =~= strings_view(before_to).push(target@));
            }
        }
        index = index + 1;
    }
    assert(all.take(index as int) =~= all);
    Ok(PayloadImpl { object: object_shape(shape), removed, renamed_from, renamed_to })
}

/// The `VectorDatabaseItem` implementation of a struct: its category is the
/// struct's name without `r#`; it is refused for an enum or union, for a
/// refused `#[lvv(...)]` attribute, when no field is a description field,
/// and when a field would be stored under `category`, in that order.
pub fn expand(input: &DeriveInput) -> (res: Result<ItemImpl, DeriveError>)
    ensures
        match input.data {
            Data::Struct(data) => match fields_commands(
                data.fields.items(),
                names_view(seq!["description", "skip", "rename"]),
            ) {
                Ok(commands) => {
                    let description = description_fields_of(data.fields.items(), commands);
                    if description.len() == 0 {
                        res == Err::<ItemImpl, DeriveError>(DeriveError::MissingDescription)
                    } else {
                        match payload_keys_of(data.fields.items(), commands, input.attrs@) {
                            Ok(keys) => res matches Ok(item) && item.category@ == unraw_spec(
                                input.ident@,
                            ) && item.description@ == description && item.payload.keys() == keys
                                && item.payload.object == object_shape_of(data.fields),
                            Err(e) => res == Err::<ItemImpl, DeriveError>(e),
                        }
                    }
                },
                Err(e) => res == Err::<ItemImpl, DeriveError>(e),
            },
            _ => res == Err::<ItemImpl, DeriveError>(DeriveError::NotAStruct),
        },
{
    let data_struct = match &input.data {
        Data::Struct(data_struct) => data_struct,
        _ => {
            return Err(DeriveError::NotAStruct);
        },
    };
    let valid: [&str; 3] = ["description", "skip", "rename"];
    assert(valid@ == seq!["description", "skip", "rename"]);
    let fields = parse_attributes(data_struct, valid.as_slice())?;
    assert(fwa_fields(fields@) =~= data_struct.fields.items());
    let category = unraw(input.ident.as_str());
    let description = description_impl(input, fields.as_slice())?;
    let payload = payload_impl(input, &data_struct.fields, fields.as_slice())?;
    Ok(ItemImpl { category, description, payload })
}

/// Whether field `i`, not skipped, would be stored under `category`.
pub open spec fn stored_under_category(
    fields: Seq<Field>,
    commands: Seq<Seq<CommandView>>,
    container_attrs: Seq<Attribute>,
    i: int,
) -> bool {
    &&& !skipped(commands[i])
    &&& target_key_of(payload_key_of(fields[i], i as nat, container_attrs), commands[i])
        == "category"@
}

/// `category` is reserved: whenever the payload keys are accepted, no
/// field that is not skipped ends up under `category`; so a field that
/// would refuses the whole input, and a refusal names such a field.
pub proof fn category_key_is_reserved(
    fields: Seq<Field>,
    commands: Seq<Seq<CommandView>>,
    container_attrs: Seq<Attribute>,
)
    ensures
        payload_keys_of(fields, commands, container_attrs) is Ok ==> forall|i: int|
            0 <= i < fields.len() ==> !#[trigger] stored_under_category(
                fields,
                commands,
                container_attrs,
                i,
            ),
        payload_keys_of(fields, commands, container_attrs) matches Err(e) ==> exists|i: int|
            0 <= i < fields.len() && e == (DeriveError::ReservedCategory { field: i as usize })
                && #[trigger] stored_under_category(fields, commands, container_attrs, i),
    decreases fields.len(),
{
    if fields.len() > 0 {
        let prefix = fields.drop_last();
        let last = fields.len() - 1;
        category_key_is_reserved(prefix, commands, container_attrs);
        assert forall|i: int| 0 <= i < prefix.len() implies stored_under_category(
            prefix,
            commands,
            container_attrs,
            i,
        ) == stored_under_category(fields, commands, container_attrs, i) by {
            assert(prefix[i] == fields[i]);
        }
        if let Err(e) = payload_keys_of(fields, commands, container_attrs) {
            if payload_keys_of(prefix, commands, container_attrs) is Ok {
                assert(stored_under_category(fields, commands, container_attrs, last));
            } else {
                let i = choose|i: int|
                    0 <= i < prefix.len() && e == (DeriveError::ReservedCategory {
                        field: i as usize,
                    }) && #[trigger] stored_under_category(prefix, commands, container_attrs, i);
                assert(stored_under_category(fields, commands, container_attrs, i));
            }
        }
    }
}

/// Whether the renames are pairs of different keys, none to `category`.
pub open spec fn renames_change_keys(keys: PayloadKeys) -> bool {
    &&& keys.renamed_from.len() == keys.renamed_to.len()
    &&& forall|j: int|
        0 <= j < keys.renamed_to.len() ==> #[trigger] keys.renamed_to[j] != keys.renamed_from[j]
            && keys.renamed_to[j] != "category"@
}

/// Each rename moves a key to a different key, never to `category`.
pub proof fn renames_change_the_key(
    fields: Seq<Field>,
    commands: Seq<Seq<CommandView>>,
    container_attrs: Seq<Attribute>,
)
    ensures
        payload_keys_of(fields, commands, container_attrs) matches Ok(keys) ==> renames_change_keys(
            keys,
        ),
    decreases fields.len(),
{
    if fields.len() > 0 {
        renames_change_the_key(fields.drop_last(), commands, container_attrs);
    }
}

/// The description fields are exactly the fields marked `description`
/// and not `skip`, in declaration order, each read at its own index: a
/// tuple field at index `i` is read as `self.i`.
pub proof fn description_reads_each_described_field(
    fields: Seq<Field>,
    commands: Seq<Seq<CommandView>>,
)
    requires
        fields.len() <= usize::MAX,
    ensures
        forall|k: int|
            0 <= k < description_fields_of(fields, commands).len() ==> {
                let d = #[trigger] description_fields_of(fields, commands)[k];
                &&& d.index < fields.len()
                &&& described(commands[d.index as int])
                &&& d.member == member_of(fields[d.index as int], d.index)
            },
        forall|k: int, l: int|
            0 <= k < l < description_fields_of(fields, commands).len() ==> description_fields_of(
                fields,
                commands,
            )[k].index < description_fields_of(fields, commands)[l].index,
        forall|i: int|
            0 <= i < fields.len() && described(commands[i]) ==> exists|k: int|
                0 <= k < description_fields_of(fields, commands).len()
                    && #[trigger] description_fields_of(fields, commands)[k].index == i,
    decreases fields.len(),
{
    if fields.len() > 0 {
        let prefix = fields.drop_last();
        let last = fields.len() - 1;
        description_reads_each_described_field(prefix, commands);
        let prev = description_fields_of(prefix, commands);
        let all = description_fields_of(fields, commands);
        assert forall|j: int| 0 <= j < prefix.len() implies prefix[j] == fields[j] by {}
        assert forall|k: int| 0 <= k < all.len() implies {
            let d = #[trigger] all[k];
            &&& d.index < fields.len()
            &&& described(commands[d.index as int])
            &&& d.member == member_of(fields[d.index as int], d.index)
        } by {
            if k < prev.len() {
                assert(all[k] == prev[k]);
                assert(prefix[prev[k].index as int] == fields[prev[k].index as int]);
            }
        }
        assert forall|i: int| 0 <= i < fields.len() && described(commands[i]) implies exists|k: int|
            0 <= k < all.len() && #[trigger] all[k].index == i by {
            if i < last {
                let k = choose|k: int| 0 <= k < prev.len() && #[trigger] prev[k].index == i;
                assert(all[k] == prev[k]);
            } else {
                assert(all[prev.len() as int].index == i);
            }
        }
    }
}

/// The key serde writes a field under: its own `#[serde(rename)]`, else
/// the container's `rename_all` applied to its unrawed name; for a tuple
/// field, its index.
pub open spec fn key_serde_writes(field: Field, i: int, container_attrs: Seq<Attribute>) -> Seq<
    char,
> {
    match field.ident {
        Some(ident) => serde_key_of(unraw_spec(ident@), field.attrs@, container_attrs),
        None => decimal(i as nat),
    }
}

/// The key a field ends up under: its last `rename`, else its serde key.
pub open spec fn key_stored_under(
    field: Field,
    i: int,
    commands: Seq<CommandView>,
    container_attrs: Seq<Attribute>,
) -> Seq<char> {
    match last_rename(commands) {
        Some(name) => name,
        None => key_serde_writes(field, i, container_attrs),
    }
}

/// Whether position `j` of the renames moves `from` to `to`.
pub open spec fn renamed_at(keys: PayloadKeys, j: int, from: Seq<char>, to: Seq<char>) -> bool {
    &&& 0 <= j < keys.renamed_from.len()
    &&& j < keys.renamed_to.len()
    &&& keys.renamed_from[j] == from
    &&& keys.renamed_to[j] == to
}

/// Whether position `j` of the removals removes `key`.
pub open spec fn removed_at(keys: PayloadKeys, j: int, key: Seq<char>) -> bool {
    0 <= j < keys.removed.len() && keys.removed[j] == key
}

/// Whether field `i` is renamed: not skipped, and stored under another key
/// than the one serde writes.
pub open spec fn is_moved(
    fields: Seq<Field>,
    commands: Seq<Seq<CommandView>>,
    container_attrs: Seq<Attribute>,
    i: int,
) -> bool {
    &&& !skipped(commands[i])
    &&& key_stored_under(fields[i], i, commands[i], container_attrs) != key_serde_writes(
        fields[i],
        i,
        container_attrs,
    )
}

/// Every renamed field's serde key is moved to its new key.
pub open spec fn moves_renamed_fields(
    fields: Seq<Field>,
    commands: Seq<Seq<CommandView>>,
    container_attrs: Seq<Attribute>,
    keys: PayloadKeys,
) -> bool {
    forall|i: int|
        0 <= i < fields.len() && #[trigger] is_moved(fields, commands, container_attrs, i)
            ==> exists|j: int|
            #[trigger] renamed_at(
                keys,
                j,
                key_serde_writes(fields[i], i, container_attrs),
                key_stored_under(fields[i], i, commands[i], container_attrs),
            )
}

/// Every skipped field's serde key is removed.
pub open spec fn removes_skipped_fields(
    fields: Seq<Field>,
    commands: Seq<Seq<CommandView>>,
    container_attrs: Seq<Attribute>,
    keys: PayloadKeys,
) -> bool {
    forall|i: int|
        0 <= i < fields.len() && #[trigger] skipped(commands[i]) ==> exists|j: int|
            #[trigger] removed_at(keys, j, key_serde_writes(fields[i], i, container_attrs))
}

/// Rename `j` moves the serde key of a renamed field to its new key.
pub open spec fn rename_comes_from_a_field(
    fields: Seq<Field>,
    commands: Seq<Seq<CommandView>>,
    container_attrs: Seq<Attribute>,
    keys: PayloadKeys,
    j: int,
) -> bool {
    exists|i: int|
        0 <= i < fields.len() && #[trigger] is_moved(fields, commands, container_attrs, i)
            && renamed_at(
            keys,
            j,
            key_serde_writes(fields[i], i, container_attrs),
            key_stored_under(fields[i], i, commands[i], container_attrs),
        )
}

/// Every rename moves the serde key of a renamed field to its new key.
pub open spec fn renames_only_renamed_fields(
    fields: Seq<Field>,
    commands: Seq<Seq<CommandView>>,
    container_attrs: Seq<Attribute>,
    keys: PayloadKeys,
) -> bool {
    &&& keys.renamed_from.len() == keys.renamed_to.len()
    &&& forall|j: int|
        0 <= j < keys.renamed_from.len() ==> #[trigger] rename_comes_from_a_field(
            fields,
            commands,
            container_attrs,
            keys,
            j,
        )
}

/// Removal `j` removes the serde key of a skipped field.
pub open spec fn removal_comes_from_a_field(
    fields: Seq<Field>,
    commands: Seq<Seq<CommandView>>,
    container_attrs: Seq<Attribute>,
    keys: PayloadKeys,
    j: int,
) -> bool {
    exists|i: int|
        0 <= i < fields.len() && #[trigger] skipped(commands[i]) && removed_at(
            keys,
            j,
            key_serde_writes(fields[i], i, container_attrs),
        )
}

/// Every removal removes the serde key of a skipped field.
pub open spec fn removes_only_skipped_fields(
    fields: Seq<Field>,
    commands: Seq<Seq<CommandView>>,
    container_attrs: Seq<Attribute>,
    keys: PayloadKeys,
) -> bool {
    forall|j: int|
        0 <= j < keys.removed.len() ==> #[trigger] removal_comes_from_a_field(
            fields,
            commands,
            container_attrs,
            keys,
            j,
        )
}

proof fn lemma_moves_renamed_fields(
    fields: Seq<Field>,
    commands: Seq<Seq<CommandView>>,
    container_attrs: Seq<Attribute>,
)
    ensures
        payload_keys_of(fields, commands, container_attrs) matches Ok(keys) ==> moves_renamed_fields(
            fields,
            commands,
            container_attrs,
            keys,
        ),
    decreases fields.len(),
{
    if fields.len() > 0 {
        let prefix = fields.drop_last();
        let last = fields.len() - 1;
        lemma_moves_renamed_fields(prefix, commands, container_attrs);
        renames_change_the_key(prefix, commands, container_attrs);
        renames_change_the_key(fields, commands, container_attrs);
        if let Ok(keys) = payload_keys_of(fields, commands, container_attrs) {
            let prev = payload_keys_of(prefix, commands, container_attrs)->Ok_0;
            assert forall|j: int| 0 <= j < prefix.len() implies prefix[j] == fields[j] by {}
            assert(payload_key_of(fields[last], last as nat, container_attrs) == key_serde_writes(
                fields[last],
                last,
                container_attrs,
            ));
            assert forall|i: int|
                0 <= i < fields.len() && #[trigger] is_moved(
                    fields,
                    commands,
                    container_attrs,
                    i,
                ) implies exists|j: int|
                #[trigger] renamed_at(
                    keys,
                    j,
                    key_serde_writes(fields[i], i, container_attrs),
                    key_stored_under(fields[i], i, commands[i], container_attrs),
                ) by {
                if i < last {
                    assert(prefix[i] == fields[i]);
                    assert(is_moved(prefix, commands, container_attrs, i));
                    let j = choose|j: int|
                        #[trigger] renamed_at(
                            prev,
                            j,
                            key_serde_writes(prefix[i], i, container_attrs),
                            key_stored_under(prefix[i], i, commands[i], container_attrs),
                        );
                    assert(renamed_at(
                        keys,
                        j,
                        key_serde_writes(fields[i], i, container_attrs),
                        key_stored_under(fields[i], i, commands[i], container_attrs),
                    ));
                } else {
                    assert(renamed_at(
                        keys,
                        prev.renamed_from.len() as int,
                        key_serde_writes(fields[i], i, container_attrs),
                        key_stored_under(fields[i], i, commands[i], container_attrs),
                    ));
                }
            }
        }
    }
}

proof fn lemma_removes_skipped_fields(
    fields: Seq<Field>,
    commands: Seq<Seq<CommandView>>,
    container_attrs: Seq<Attribute>,
)
    ensures
        payload_keys_of(fields, commands, container_attrs) matches Ok(keys) ==> removes_skipped_fields(
            fields,
            commands,
            container_attrs,
            keys,
        ),
    decreases fields.len(),
{
    if fields.len() > 0 {
        let prefix = fields.drop_last();
        let last = fields.len() - 1;
        lemma_removes_skipped_fields(prefix, commands, container_attrs);
        renames_change_the_key(prefix, commands, container_attrs);
        renames_change_the_key(fields, commands, container_attrs);
        if let Ok(keys) = payload_keys_of(fields, commands, container_attrs) {
            let prev = payload_keys_of(prefix, commands, container_attrs)->Ok_0;
            assert forall|j: int| 0 <= j < prefix.len() implies prefix[j] == fields[j] by {}
            assert(payload_key_of(fields[last], last as nat, container_attrs) == key_serde_writes(
                fields[last],
                last,
                container_attrs,
            ));
            assert forall|i: int|
                0 <= i < fields.len() && #[trigger] skipped(commands[i]) implies exists|j: int|
                #[trigger] removed_at(keys, j, key_serde_writes(fields[i], i, container_attrs)) by {
                if i < last {
                    assert(prefix[i] == fields[i]);
                    let j = choose|j: int|
                        #[trigger] removed_at(prev, j, key_serde_writes(prefix[i], i, container_attrs));
                    assert(removed_at(keys, j, key_serde_writes(fields[i], i, container_attrs)));
                } else {
                    assert(removed_at(
                        keys,
                        prev.removed.len() as int,
                        key_serde_writes(fields[i], i, container_attrs),
                    ));
                }
            }
        }
    }
}

proof fn lemma_renames_only_renamed_fields(
    fields: Seq<Field>,
    commands: Seq<Seq<CommandView>>,
    container_attrs: Seq<Attribute>,
)
    ensures
        payload_keys_of(fields, commands, container_attrs) matches Ok(keys) ==> renames_only_renamed_fields(
            fields,
            commands,
            container_attrs,
            keys,
        ),
    decreases fields.len(),
{
    if fields.len() > 0 {
        let prefix = fields.drop_last();
        let last = fields.len() - 1;
        lemma_renames_only_renamed_fields(prefix, commands, container_attrs);
        renames_change_the_key(prefix, commands, container_attrs);
        renames_change_the_key(fields, commands, container_attrs);
        if let Ok(keys) = payload_keys_of(fields, commands, container_attrs) {
            let prev = payload_keys_of(prefix, commands, container_attrs)->Ok_0;
            assert forall|j: int| 0 <= j < prefix.len() implies prefix[j] == fields[j] by {}
            assert(payload_key_of(fields[last], last as nat, container_attrs) == key_serde_writes(
                fields[last],
                last,
                container_attrs,
            ));
            assert forall|j: int| 0 <= j < keys.renamed_from.len() implies #[trigger]
                rename_comes_from_a_field(fields, commands, container_attrs, keys, j) by {
                if j < prev.renamed_from.len() {
                    assert(rename_comes_from_a_field(prefix, commands, container_attrs, prev, j));
                    let i = choose|i: int|
                        0 <= i < prefix.len() && #[trigger] is_moved(
                            prefix,
                            commands,
                            container_attrs,
                            i,
                        ) && renamed_at(
                            prev,
                            j,
                            key_serde_writes(prefix[i], i, container_attrs),
                            key_stored_under(prefix[i], i, commands[i], container_attrs),
                        );
                    assert(prefix[i] == fields[i]);
                    assert(is_moved(fields, commands, container_attrs, i));
                    assert(renamed_at(
                        keys,
                        j,
                        key_serde_writes(fields[i], i, container_attrs),
                        key_stored_under(fields[i], i, commands[i], container_attrs),
                    ));
                } else {
                    assert(is_moved(fields, commands, container_attrs, last));
                    assert(renamed_at(
                        keys,
                        j,
                        key_serde_writes(fields[last], last, container_attrs),
                        key_stored_under(fields[last], last, commands[last], container_attrs),
                    ));
                }
            }
            assert(renames_only_renamed_fields(fields, commands, container_attrs, keys));
        }
    }
}

proof fn lemma_removes_only_skipped_fields(
    fields: Seq<Field>,
    commands: Seq<Seq<CommandView>>,
    container_attrs: Seq<Attribute>,
)
    ensures
        payload_keys_of(fields, commands, container_attrs) matches Ok(keys) ==> removes_only_skipped_fields(
            fields,
            commands,
            container_attrs,
            keys,
        ),
    decreases fields.len(),
{
    if fields.len() > 0 {
        let prefix = fields.drop_last();
        let last = fields.len() - 1;
        lemma_removes_only_skipped_fields(prefix, commands, container_attrs);
        renames_change_the_key(prefix, commands, container_attrs);
        renames_change_the_key(fields, commands, container_attrs);
        if let Ok(keys) = payload_keys_of(fields, commands, container_attrs) {
            let prev = payload_keys_of(prefix, commands, container_attrs)->Ok_0;
            assert forall|j: int| 0 <= j < prefix.len() implies prefix[j] == fields[j] by {}
            assert(payload_key_of(fields[last], last as nat, container_attrs) == key_serde_writes(
                fields[last],
                last,
                container_attrs,
            ));
            assert forall|j: int| 0 <= j < keys.removed.len() implies #[trigger]
                removal_comes_from_a_field(fields, commands, container_attrs, keys, j) by {
                if j < prev.removed.len() {
                    assert(removal_comes_from_a_field(prefix, commands, container_attrs, prev, j));
                    let i = choose|i: int|
                        0 <= i < prefix.len() && #[trigger] skipped(commands[i]) && removed_at(
                            prev,
                            j,
                            key_serde_writes(prefix[i], i, container_attrs),
                        );
                    assert(prefix[i] == fields[i]);
                    assert(removed_at(keys, j, key_serde_writes(fields[i], i, container_attrs)));
                } else {
                    assert(skipped(commands[last]));
                    assert(removed_at(keys, j, key_serde_writes(fields[last], last, container_attrs)));
                }
            }
            assert(removes_only_skipped_fields(fields, commands, container_attrs, keys));
        }
    }
}

/// `skip` and `rename` act on the key serde writes: an accepted payload
/// removes the serde key of every skipped field and moves the serde key of
/// every renamed field to its new key, and it removes or moves nothing else.
pub proof fn payload_acts_on_serde_keys(
    fields: Seq<Field>,
    commands: Seq<Seq<CommandView>>,
    container_attrs: Seq<Attribute>,
)
    ensures
        payload_keys_of(fields, commands, container_attrs) matches Ok(keys) ==> {
            &&& moves_renamed_fields(fields, commands, container_attrs, keys)
            &&& removes_skipped_fields(fields, commands, container_attrs, keys)
            &&& renames_only_renamed_fields(fields, commands, container_attrs, keys)
            &&& removes_only_skipped_fields(fields, commands, container_attrs, keys)
        },
{
    lemma_moves_renamed_fields(fields, commands, container_attrs);
    lemma_removes_skipped_fields(fields, commands, container_attrs);
    lemma_renames_only_renamed_fields(fields, commands, container_attrs);
    lemma_removes_only_skipped_fields(fields, commands, container_attrs);
}

} // verus!
