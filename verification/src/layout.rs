use vstd::prelude::*;

use std::collections::HashMap;

use crate::hir::{lift, lifts_to, all_lift_to, signature_lifts_to, HSignature, HType};
use crate::node::Target;
use crate::types::{RType, StructureId};

verus! {

/// Interned name of a structure field.
pub type Identifier = u64;

/// A structure item: its fields in declaration order.
#[derive(Debug)]
pub struct Structure {
    pub fields: Vec<(Identifier, HType)>,
}

/// The byte offset of each field of a structure, by name, and the size of
/// the whole structure. Fields are laid out one after another, in
/// declaration order, without padding.
#[derive(Debug)]
pub struct Offsets {
    pub fields: HashMap<Identifier, usize>,
    pub size: usize,
}

/// Why the size of a type cannot be computed.
#[derive(Debug, Clone, Copy, PartialEq, Eq, Structural)]
pub enum LayoutError {
    /// A pointer-sized type has no architecture.
    UnknownArchitecture,
    /// A structure path names no structure.
    UndefinedStructure,
    /// A structure contains itself.
    Cyclic,
    /// The size does not fit in the address space.
    Overflow,
}

/// A size, unless it exceeds the address space.
pub open spec fn bounded(size: int) -> Result<int, LayoutError> {
    if size <= usize::MAX {
        Ok(size)
    } else {
        Err(LayoutError::Overflow)
    }
}

/// The size of a pointer of the given architecture.
pub open spec fn pointer_size(target: Option<Target>) -> Result<int, LayoutError> {
    match target {
        Some(target) => Ok(target.spec_architecture().pointer.spec_bytes() as int),
        None => Err(LayoutError::UnknownArchitecture),
    }
}

/// The number of nested structures that a size computation may pass through
/// before a structure must have repeated.
pub open spec fn depth(table: Seq<Structure>) -> nat {
    table.len()
}

/// The size in bytes of a resolved type, passing through at most `fuel`
/// nested structures.
pub open spec fn size_of(table: Seq<Structure>, kind: RType, fuel: nat) -> Result<int, LayoutError>
    decreases fuel, 2nat, kind,
{
    match kind {
        RType::Void | RType::Never => Ok(0),
        RType::Rune => Ok(4),
        RType::Truth => Ok(1),
        RType::Integral(_, width) => Ok(width.spec_bytes() as int),
        RType::IntegralSize(target, _) => pointer_size(target),
        RType::Pointer(target, _) => pointer_size(target),
        RType::Structure(path) => structure_size(table, path, fuel),
        RType::Function(signature) => pointer_size(signature.target),
        RType::Slice(target, _) => match pointer_size(target) {
            Ok(size) => bounded(size * 2),
            Err(e) => Err(e),
        },
        RType::Array(k, length) => match size_of(table, *k, fuel) {
            Ok(size) => bounded(size * length),
            Err(e) => Err(e),
        },
    }
}

/// The size in bytes of a written type resolved inside an item of the given
/// architecture, passing through at most `fuel` nested structures.
pub open spec fn written_size(
    table: Seq<Structure>,
    target: Option<Target>,
    kind: HType,
    fuel: nat,
) -> Result<int, LayoutError>
    decreases fuel, 2nat, kind,
{
    match kind {
        HType::Void | HType::Never => Ok(0),
        HType::Rune => Ok(4),
        HType::Truth => Ok(1),
        HType::Integral(_, width) => Ok(width.spec_bytes() as int),
        HType::IntegralSize(_) => pointer_size(target),
        HType::Pointer(_) => pointer_size(target),
        HType::Structure(path) => structure_size(table, path, fuel),
        HType::Function(_) => pointer_size(target),
        HType::Slice(_) => match pointer_size(target) {
            Ok(size) => bounded(size * 2),
            Err(e) => Err(e),
        },
        HType::Array(k, _) => match written_size(table, target, *k, fuel) {
            Ok(_) => Ok(0),
            Err(e) => Err(e),
        },
    }
}

/// The size of the structure at `path`, whose fields are resolved inside
/// the structure's own item.
pub open spec fn structure_size(table: Seq<Structure>, path: StructureId, fuel: nat) -> Result<
    int,
    LayoutError,
>
    decreases fuel, 1nat, table,
{
    if path >= table.len() {
        Err(LayoutError::UndefinedStructure)
    } else if fuel == 0 {
        Err(LayoutError::Cyclic)
    } else {
        fields_total(table, table[path as int].fields@, (fuel - 1) as nat)
    }
}

/// The total size of a list of fields laid out one after another, the
/// first error met from the front otherwise.
pub open spec fn fields_total(table: Seq<Structure>, fields: Seq<(Identifier, HType)>, fuel: nat) -> Result<
    int,
    LayoutError,
>
    decreases fuel, 3nat, fields,
{
    if fields.len() == 0 {
        Ok(0)
    } else {
        match fields_total(table, fields.drop_last(), fuel) {
            Ok(total) => match written_size(table, Some(Target::Host), fields.last().1, fuel) {
                Ok(size) => bounded(total + size),
                Err(e) => Err(e),
            },
            Err(e) => Err(e),
        }
    }
}

/// The offset of each field by name: the total size of the fields declared
/// before it. A name declared twice keeps the offset of its last field.
pub open spec fn field_offsets(table: Seq<Structure>, fields: Seq<(Identifier, HType)>, fuel: nat) -> Map<
    Identifier,
    usize,
>
    decreases fields.len(),
{
    if fields.len() == 0 {
        Map::empty()
    } else {
        let prior = fields.drop_last();
        field_offsets(table, prior, fuel).insert(
            fields.last().0,
            fields_total(table, prior, fuel)->Ok_0 as usize,
        )
    }
}

/// The size of a resolved type is the size of the written type it was
/// resolved from.
pub proof fn lemma_lifted_size(
    table: Seq<Structure>,
    target: Option<Target>,
    kind: HType,
    lifted: RType,
    fuel: nat,
)
    requires
        lifts_to(target, kind, lifted),
    ensures
        size_of(table, lifted, fuel) == written_size(table, target, kind, fuel),
    decreases kind,
{
    match kind {
        HType::Array(k, _) => {
            if let RType::Array(r, _) = lifted {
                lemma_lifted_size(table, target, *k, *r, fuel);
            }
        },
        HType::Function(s) => {
            if let RType::Function(g) = lifted {
                assert(signature_lifts_to(target, *s, *g));
            }
        },
        _ => {},
    }
}

/// Once a prefix of the fields fails, every longer prefix fails the same
/// way.
proof fn lemma_fields_error_persists(
    table: Seq<Structure>,
    fields: Seq<(Identifier, HType)>,
    fuel: nat,
    i: int,
    j: int,
)
    requires
        0 <= i <= j <= fields.len(),
        fields_total(table, fields.take(i), fuel) is Err,
    ensures
        fields_total(table, fields.take(j), fuel) == fields_total(table, fields.take(i), fuel),
    decreases j - i,
{
    if j > i {
        lemma_fields_error_persists(table, fields, fuel, i, j - 1);
        assert(fields.take(j).drop_last() =~= fields.take(j - 1));
    }
}

/// Computes the size of a resolved type with at most `fuel` nested
/// structures.
fn size_with(table: &Vec<Structure>, kind: &RType, fuel: usize) -> (r: Result<usize, LayoutError>)
    requires
        size_of(table@, *kind, fuel as nat) != Err::<int, LayoutError>(LayoutError::Overflow),
    ensures
        match r {
            Ok(n) => size_of(table@, *kind, fuel as nat) == Ok::<int, LayoutError>(n as int),
            Err(e) => size_of(table@, *kind, fuel as nat) == Err::<int, LayoutError>(e),
        },
    decreases fuel, 2nat, *kind,
{
    match kind {
        RType::Void | RType::Never => Ok(0),
        RType::Rune => Ok(4),
        RType::Truth => Ok(1),
        RType::Integral(_, width) => Ok(width.bytes()),
        RType::IntegralSize(target, _) => pointer(*target),
        RType::Pointer(target, _) => pointer(*target),
        RType::Structure(path) => match offsets_with(table, *path, fuel) {
            Ok(offsets) => Ok(offsets.size),
            Err(e) => Err(e),
        },
        RType::Function(signature) => pointer(signature.target),
        RType::Slice(target, _) => {
            let size = pointer(*target)?;
            Ok(size * 2)
        },
        RType::Array(k, length) => {
            let size = size_with(table, k, fuel)?;
            proof {
                assert(size * *length <= usize::MAX);
            }
            Ok(size * *length)
        },
    }
}

/// The size of a pointer of the given architecture.
fn pointer(target: Option<Target>) -> (r: Result<usize, LayoutError>)
    ensures
        match r {
            Ok(n) => pointer_size(target) == Ok::<int, LayoutError>(n as int),
            Err(e) => pointer_size(target) == Err::<int, LayoutError>(e),
        },
        r matches Ok(n) ==> n <= 8,
{
    match target {
        Some(target) => Ok(target.architecture().pointer.bytes()),
        None => Err(LayoutError::UnknownArchitecture),
    }
}

/// Lays out the structure at `path` with at most `fuel` nested structures.
fn offsets_with(table: &Vec<Structure>, path: StructureId, fuel: usize) -> (r: Result<
    Offsets,
    LayoutError,
>)
    requires
        structure_size(table@, path, fuel as nat) != Err::<int, LayoutError>(LayoutError::Overflow),
    ensures
        offsets_match(table@, path, fuel as nat, r),
    decreases fuel, 1nat, table@,
{
    broadcast use vstd::std_specs::hash::group_hash_axioms;

    if path >= table.len() {
        return Err(LayoutError::UndefinedStructure);
    }
    if fuel == 0 {
        return Err(LayoutError::Cyclic);
    }
    let inner: usize = fuel - 1;
    let data = &table[path];
    let ghost fields = data.fields@;
    let n = data.fields.len();
    let mut result: HashMap<Identifier, usize> = HashMap::new();
    let mut total: usize = 0;
    let mut i: usize = 0;
    proof {
        assert(fields.take(0) =~= Seq::<(Identifier, HType)>::empty());
        assert(fields.take(n as int) =~= fields);
    }
    while i < n
        invariant
            n == fields.len(),
            fields == table@[path as int].fields@,
            data == table@[path as int],
            path < table.len(),
            inner + 1 == fuel,
            fields_total(table@, fields, inner as nat) != Err::<int, LayoutError>(
                LayoutError::Overflow,
            ),
            i <= n,
            fields_total(table@, fields.take(i as int), inner as nat) == Ok::<int, LayoutError>(
                total as int,
            ),
            result@ == field_offsets(table@, fields.take(i as int), inner as nat),
        decreases n - i,
    {
        let name = data.fields[i].0;
        proof {
            assert(fields.take(i + 1).drop_last() =~= fields.take(i as int));
            assert(fields.take(i + 1).last() == fields[i as int]);
        }
        result.insert(name, total);
        let kind = lift(Some(Target::Host), &data.fields[i].1);
        proof {
            assert(fields.take(n as int) =~= fields);
            assert(fields.take(i + 1).drop_last() =~= fields.take(i as int));
            assert(fields.take(i + 1).last() == fields[i as int]);
            lemma_lifted_size(table@, Some(Target::Host), fields[i as int].1, kind, inner as nat);
            if written_size(table@, Some(Target::Host), fields[i as int].1, inner as nat)
                == Err::<int, LayoutError>(LayoutError::Overflow) {
                lemma_fields_error_persists(table@, fields, inner as nat, i + 1, n as int);
            }
        }
        let size = match size_with(table, &kind, inner) {
            Ok(size) => size,
            Err(e) => {
                proof {
                    lemma_fields_error_persists(table@, fields, inner as nat, i + 1, n as int);
                    assert(fields_total(table@, fields, inner as nat) == Err::<int, LayoutError>(
                        e,
                    ));
                }
                return Err(e);
            },
        };
        proof {
            assert(fields.take(n as int) =~= fields);
            if total + size > usize::MAX {
                lemma_fields_error_persists(table@, fields, inner as nat, i + 1, n as int);
            }
        }
        total = total + size;
        i = i + 1;
    }
    Ok(Offsets { fields: result, size: total })
}

/// Whether `r` is the layout of the structure at `path`: on success each
/// field's name gives the total size of the fields declared before it, and
/// the structure's size is the total size of all its fields; on failure
/// the error is the one that its size computation meets.
pub open spec fn offsets_match(
    table: Seq<Structure>,
    path: StructureId,
    fuel: nat,
    r: Result<Offsets, LayoutError>,
) -> bool {
    match r {
        Ok(offsets) => {
            &&& structure_size(table, path, fuel) == Ok::<int, LayoutError>(offsets.size as int)
            &&& path < table.len()
            &&& offsets.fields@ == field_offsets(
                table,
                table[path as int].fields@,
                (fuel - 1) as nat,
            )
        },
        Err(e) => structure_size(table, path, fuel) == Err::<int, LayoutError>(e),
    }
}

/// Computes the size in bytes of a resolved type. Structures are looked up
/// in `table` by path; nesting deeper than the table is a cycle.
pub fn size(table: &Vec<Structure>, kind: &RType) -> (r: Result<usize, LayoutError>)
    requires
        size_of(table@, *kind, depth(table@)) != Err::<int, LayoutError>(LayoutError::Overflow),
    ensures
        match r {
            Ok(n) => size_of(table@, *kind, depth(table@)) == Ok::<int, LayoutError>(n as int),
            Err(e) => size_of(table@, *kind, depth(table@)) == Err::<int, LayoutError>(e),
        },
{
    size_with(table, kind, table.len())
}

/// Lays out the fields of the structure at `path` one after another.
pub fn offsets(table: &Vec<Structure>, path: StructureId) -> (r: Result<Offsets, LayoutError>)
    requires
        structure_size(table@, path, depth(table@)) != Err::<int, LayoutError>(
            LayoutError::Overflow,
        ),
    ensures
        offsets_match(table@, path, depth(table@), r),
{
    offsets_with(table, path, table.len())
}

} // verus!

verus! {

/// An array occupies its length times the size of its element.
pub proof fn lemma_array_size(table: Seq<Structure>, element: RType, length: usize, fuel: nat)
    requires
        size_of(table, element, fuel) is Ok,
        size_of(table, RType::Array(Box::new(element), length), fuel) is Ok,
    ensures
        size_of(table, RType::Array(Box::new(element), length), fuel)
            == Ok::<int, LayoutError>(size_of(table, element, fuel)->Ok_0 * length),
{
}

/// In a laid-out structure every field occupies exactly the bytes from the
/// total size of the fields before it up to that of the fields up to it,
/// the last one up to the end of the structure: fields neither overlap nor
/// leave gaps. Every field's name has an offset, and a field whose name is
/// not declared again sits where its bytes start.
pub proof fn lemma_fields_adjacent(
    table: Seq<Structure>,
    path: StructureId,
    fuel: nat,
    offsets: Offsets,
    j: int,
)
    requires
        offsets_match(table, path, fuel, Ok::<Offsets, LayoutError>(offsets)),
        0 <= j < table[path as int].fields@.len(),
    ensures
        ({
            let fields = table[path as int].fields@;
            let inner = (fuel - 1) as nat;
            let start = fields_total(table, fields.take(j), inner);
            let end = if j + 1 < fields.len() {
                fields_total(table, fields.take(j + 1), inner)->Ok_0
            } else {
                offsets.size as int
            };
            &&& start is Ok
            &&& written_size(table, Some(Target::Host), fields[j].1, inner) == Ok::<int, LayoutError>(
                end - start->Ok_0,
            )
            &&& offsets.fields@.contains_key(fields[j].0)
            &&& (forall|k: int| j < k < fields.len() ==> #[trigger] fields[k].0 != fields[j].0)
                ==> offsets.fields@[fields[j].0] == start->Ok_0 as usize
        }),
{
    let fields = table[path as int].fields@;
    let inner = (fuel - 1) as nat;
    let n = fields.len() as int;
    assert(fields.take(n) =~= fields);
    assert(fields_total(table, fields.take(n), inner) is Ok);
    if fields_total(table, fields.take(j + 1), inner) is Err {
        lemma_fields_error_persists(table, fields, inner, j + 1, n);
    }
    assert(fields.take(j + 1).drop_last() =~= fields.take(j));
    assert(fields.take(j + 1).last() == fields[j]);
    lemma_field_offset(table, fields, inner, j, n);
}

/// The name of field `j` has an offset once the fields up to it are laid
/// out; while it is not declared again, the offset is the total size of
/// the fields before it.
proof fn lemma_field_offset(
    table: Seq<Structure>,
    fields: Seq<(Identifier, HType)>,
    fuel: nat,
    j: int,
    k: int,
)
    requires
        0 <= j < k <= fields.len(),
    ensures
        field_offsets(table, fields.take(k), fuel).contains_key(fields[j].0),
        (forall|m: int| j < m < k ==> #[trigger] fields[m].0 != fields[j].0) ==> field_offsets(
            table,
            fields.take(k),
            fuel,
        )[fields[j].0] == fields_total(table, fields.take(j), fuel)->Ok_0 as usize,
    decreases k - j,
{
    assert(fields.take(k).drop_last() =~= fields.take(k - 1));
    assert(fields.take(k).last() == fields[k - 1]);
    if k > j + 1 {
        lemma_field_offset(table, fields, fuel, j, k - 1);
    }
}

} // verus!
