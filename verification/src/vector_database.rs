use vstd::prelude::*;

use crate::attributes::{
    fields_accept_only_valid, fields_commands, fwa_commands, member_of, parse_attributes, skipped,
    FieldWithAttributes,
};
use crate::grammar::{all_named_in, command_name, names_view};
use crate::input::{Data, DeriveInput, Field, GenericArgument, PathArguments, PathSegment, Type};
use crate::text::same_text;
use crate::types::{CommandView, DeriveError, RootField, RootFieldType};

verus! {

/// The last segment of a path type; only it is read.
pub open spec fn last_segment_of(ty: Type) -> Option<PathSegment> {
    match ty {
        Type::Path(path) => if path.segments@.len() > 0 {
            Some(path.segments@.last())
        } else {
            None
        },
        Type::Other => None,
    }
}

/// Whether the type's last segment is `name<...>`.
pub open spec fn is_generic_named(ty: Type, name: Seq<char>) -> bool {
    match last_segment_of(ty) {
        Some(segment) => segment.ident@ == name && segment.arguments is AngleBracketed,
        None => false,
    }
}

/// `Vec<T>`, by its last segment.
pub open spec fn is_vec_type(ty: Type) -> bool {
    is_generic_named(ty, "Vec"@)
}

/// `BTreeMap<K, V>` or `HashMap<K, V>`, by the last segment.
pub open spec fn is_map_type(ty: Type) -> bool {
    is_generic_named(ty, "BTreeMap"@) || is_generic_named(ty, "HashMap"@)
}

/// `T` in `Option<T, ...>`, by the last segment, when its first argument
/// is a type.
pub open spec fn option_inner_of(ty: Type) -> Option<Type> {
    match last_segment_of(ty) {
        Some(segment) => if segment.ident@ == "Option"@ {
            match segment.arguments {
                PathArguments::AngleBracketed(args) => if args@.len() > 0 {
                    match args@[0] {
                        GenericArgument::Type(inner) => Some(inner),
                        GenericArgument::Other => None,
                    }
                } else {
                    None
                },
                _ => None,
            }
        } else {
            None
        },
        None => None,
    }
}

/// How a field of this type holds its items.
pub open spec fn shape_of(ty: Type) -> RootFieldType {
    if is_vec_type(ty) {
        RootFieldType::Collection
    } else if is_map_type(ty) {
        RootFieldType::Mapping
    } else if let Some(inner) = option_inner_of(ty) {
        if is_vec_type(inner) {
            RootFieldType::OptionCollection
        } else if is_map_type(inner) {
            RootFieldType::OptionMap
        } else {
            RootFieldType::OptionScalar
        }
    } else {
        RootFieldType::Scalar
    }
}

pub fn last_segment(ty: &Type) -> (res: Option<&PathSegment>)
    ensures
        match res {
            Some(segment) => last_segment_of(*ty) == Some(*segment),
            None => last_segment_of(*ty) is None,
        },
{
    match ty {
        Type::Path(path) => {
            let n = path.segments.len();
            if n > 0 {
                Some(&path.segments[n - 1])
            } else {
                None
            }
        },
        Type::Other => None,
    }
}

fn is_generic(ty: &Type, name: &str) -> (res: bool)
    ensures
        res == is_generic_named(*ty, name@),
{
    match last_segment(ty) {
        Some(segment) => same_text(segment.ident.as_str(), name) && matches!(
            segment.arguments,
            PathArguments::AngleBracketed(_)
        ),
        None => false,
    }
}

pub fn is_vec(ty: &Type) -> (res: bool)
    ensures
        res == is_vec_type(*ty),
{
    is_generic(ty, "Vec")
}

pub fn is_map(ty: &Type) -> (res: bool)
    ensures
        res == is_map_type(*ty),
{
    is_generic(ty, "BTreeMap") || is_generic(ty, "HashMap")
}

pub fn option_inner(ty: &Type) -> (res: Option<&Type>)
    ensures
        match res {
            Some(inner) => option_inner_of(*ty) == Some(*inner),
            None => option_inner_of(*ty) is None,
        },
{
    match last_segment(ty) {
        Some(segment) => {
            if !same_text(segment.ident.as_str(), "Option") {
                return None;
            }
            match &segment.arguments {
                PathArguments::AngleBracketed(args) => {
                    if args.len() == 0 {
                        return None;
                    }
                    match &args[0] {
                        GenericArgument::Type(inner) => Some(inner),
                        GenericArgument::Other => None,
                    }
                },
                _ => None,
            }
        },
        None => None,
    }
}

pub fn resolve_point_field_type(ty: &Type) -> (res: RootFieldType)
    ensures
        res == shape_of(*ty),
{
    if is_vec(ty) {
        RootFieldType::Collection
    } else if is_map(ty) {
        RootFieldType::Mapping
    } else if let Some(inner) = option_inner(ty) {
        if is_vec(inner) {
            RootFieldType::OptionCollection
        } else if is_map(inner) {
            RootFieldType::OptionMap
        } else {
            RootFieldType::OptionScalar
        }
    } else {
        RootFieldType::Scalar
    }
}

/// The fields that hold points, in declaration order: every field that is
/// not skipped, reached by its name or its index among all fields.
pub open spec fn root_fields_of(fields: Seq<Field>, commands: Seq<Seq<CommandView>>) -> Seq<
    RootField,
>
    decreases fields.len(),
{
    if fields.len() == 0 {
        Seq::empty()
    } else {
        let i = fields.len() - 1;
        let prev = root_fields_of(fields.drop_last(), commands);
        if skipped(commands[i]) {
            prev
        } else {
            prev.push(
                RootField {
                    member: member_of(fields[i], i as usize),
                    field_type: shape_of(fields[i].ty),
                },
            )
        }
    }
}

/// The points of a `VectorDatabase` container: each field that is not
/// `#[lvv(skip)]`, with how it holds its items. Only structs are accepted,
/// and `skip` is the only command.
pub fn expand(input: &DeriveInput) -> (res: Result<Vec<RootField>, DeriveError>)
    ensures
        match input.data {
            Data::Struct(data) => match fields_commands(
                data.fields.items(),
                names_view(seq!["skip"]),
            ) {
                Ok(commands) => res matches Ok(points) && points@ == root_fields_of(
                    data.fields.items(),
                    commands,
                ),
                Err(e) => res == Err::<Vec<RootField>, DeriveError>(e),
            },
            _ => res == Err::<Vec<RootField>, DeriveError>(DeriveError::NotAStruct),
        },
{
    let data_struct = match &input.data {
        Data::Struct(data_struct) => data_struct,
        _ => {
            return Err(DeriveError::NotAStruct);
        },
    };
    let valid: [&str; 1] = ["skip"];
    assert(valid@ == seq!["skip"]);
    let fields = parse_attributes(data_struct, valid.as_slice())?;
    let ghost items = data_struct.fields.items();
    let ghost commands = fwa_commands(fields@);
    let mut points: Vec<RootField> = Vec::new();
    let mut index: usize = 0;
    assert(items.take(0) =~= Seq::<Field>::empty());
    while index < fields.len()
        invariant
            index <= fields.len(),
            fields@.len() == items.len(),
            commands == fwa_commands(fields@),
            forall|j: int| 0 <= j < fields@.len() ==> *(#[trigger] fields@[j]).field == items[j],
            points@ == root_fields_of(items.take(index as int), commands),
        decreases fields.len() - index,
    {
        let fwa: &FieldWithAttributes = &fields[index];
        assert(items.take(index + 1).drop_last() =~= items.take(index as int));
        assert(fwa.commands() == commands[index as int]);
        if !fwa.is_skipped() {
            let member = fwa.member(index);
            let field_type = resolve_point_field_type(&fwa.field.ty);
            points.push(RootField { member, field_type });
        }
        index = index + 1;
    }
    assert(items.take(index as int) =~= items);
    Ok(points)
}

/// On `VectorDatabase` fields `skip` is the only command: whenever the
/// attributes are accepted, every command they hold is `skip`.
pub proof fn database_accepts_only_skip(fields: Seq<Field>)
    ensures
        fields_commands(fields, names_view(seq!["skip"])) matches Ok(commands) ==> forall|
            i: int,
            j: int,
        | 0 <= i < commands.len() && 0 <= j < commands[i].len() ==> #[trigger] commands[i][j]
            == CommandView::Skip,
{
    let valid = names_view(seq!["skip"]);
    assert(valid =~= seq!["skip"@]);
    fields_accept_only_valid(fields, valid);
    if let Ok(commands) = fields_commands(fields, valid) {
        assert forall|i: int, j: int|
            0 <= i < commands.len() && 0 <= j < commands[i].len() implies #[trigger] commands[i][j]
            == CommandView::Skip by {
            reveal_strlit("skip");
            reveal_strlit("description");
            reveal_strlit("rename");
            assert("description"@.len() == 11 && "rename"@.len() == 6 && "skip"@.len() == 4);
            assert(all_named_in(commands[i], valid));
            assert(valid.contains(command_name(commands[i][j])));
        }
    }
}

/// The shapes of the field table: `Vec<T>` holds one point per element,
/// `BTreeMap<K, T>` and `HashMap<K, T>` one per value, `Option<...>` of
/// these zero or as many, `Option<T>` zero or one, and any other type,
/// an alias of `Vec<T>` or `Box<T>` among them, exactly one.
pub proof fn field_shapes(ty: Type)
    ensures
        is_vec_type(ty) ==> shape_of(ty) == RootFieldType::Collection,
        is_map_type(ty) ==> shape_of(ty) == RootFieldType::Mapping,
        option_inner_of(ty) matches Some(inner) ==> {
            &&& is_vec_type(inner) ==> shape_of(ty) == RootFieldType::OptionCollection
            &&& is_map_type(inner) ==> shape_of(ty) == RootFieldType::OptionMap
            &&& !is_vec_type(inner) && !is_map_type(inner) ==> shape_of(ty)
                == RootFieldType::OptionScalar
        },
        !is_vec_type(ty) && !is_map_type(ty) && option_inner_of(ty) is None ==> shape_of(ty)
            == RootFieldType::Scalar,
{
    reveal_strlit("Vec");
    reveal_strlit("BTreeMap");
    reveal_strlit("HashMap");
    reveal_strlit("Option");
    assert("Vec"@.len() == 3 && "BTreeMap"@.len() == 8 && "HashMap"@.len() == 7);
    assert("Option"@.len() == 6);
}

/// Shapes are recognised by the type's last path segment alone: two types
/// that end in the same segment hold their items the same way, so
/// `std::vec::Vec<T>` is read as `Vec<T>`.
pub proof fn last_segment_decides_shape(a: Type, b: Type)
    requires
        last_segment_of(a) == last_segment_of(b),
    ensures
        shape_of(a) == shape_of(b),
{
}

/// The points are exactly the fields that are not skipped, in declaration
/// order, each reached by its own name or index and held as its own type
/// says, whatever the neighbouring fields are. The returned indices name,
/// for each point, the field it comes from.
pub proof fn points_are_the_unskipped_fields(
    fields: Seq<Field>,
    commands: Seq<Seq<CommandView>>,
) -> (idx: Seq<int>)
    requires
        fields.len() <= usize::MAX,
    ensures
        idx.len() == root_fields_of(fields, commands).len(),
        forall|k: int|
            0 <= k < idx.len() ==> {
                let i = #[trigger] idx[k];
                &&& 0 <= i < fields.len()
                &&& !skipped(commands[i])
                &&& root_fields_of(fields, commands)[k] == (RootField {
                    member: member_of(fields[i], i as usize),
                    field_type: shape_of(fields[i].ty),
                })
            },
        forall|k: int, l: int| 0 <= k < l < idx.len() ==> idx[k] < idx[l],
        forall|i: int|
            0 <= i < fields.len() && !skipped(commands[i]) ==> exists|k: int|
                0 <= k < idx.len() && #[trigger] idx[k] == i,
    decreases fields.len(),
{
    if fields.len() == 0 {
        Seq::empty()
    } else {
        let prefix = fields.drop_last();
        let last = fields.len() - 1;
        let prev = points_are_the_unskipped_fields(prefix, commands);
        assert forall|j: int| 0 <= j < prefix.len() implies prefix[j] == fields[j] by {}
        let idx = if skipped(commands[last]) {
            prev
        } else {
            prev.push(last)
        };
        assert forall|k: int| 0 <= k < idx.len() implies {
            let i = #[trigger] idx[k];
            &&& 0 <= i < fields.len()
            &&& !skipped(commands[i])
            &&& root_fields_of(fields, commands)[k] == (RootField {
                member: member_of(fields[i], i as usize),
                field_type: shape_of(fields[i].ty),
            })
        } by {
            if k < prev.len() {
                assert(idx[k] == prev[k]);
                assert(prefix[prev[k]] == fields[prev[k]]);
            }
        }
        assert forall|i: int| 0 <= i < fields.len() && !skipped(commands[i]) implies exists|k: int|
            0 <= k < idx.len() && #[trigger] idx[k] == i by {
            if i < last {
                let k = choose|k: int| 0 <= k < prev.len() && #[trigger] prev[k] == i;
                assert(idx[k] == i);
            } else {
                assert(idx[prev.len() as int] == i);
            }
        }
        idx
    }
}

} // verus!
