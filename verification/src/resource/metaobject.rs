//! Metaobjects: definitions (the schema) and entries (the objects).
//!
//! Definitions are created before entries. A field that references another
//! record (a product, a collection or another metaobject) holds an id of the
//! source store; on import it is resolved, by handle, to the target store's
//! id. A list of references is written as the JSON text of the list of ids.

use vstd::prelude::*;

use crate::json::{
    entries_view, entry, lemma_entries_view, opt_text_v, owned, seq_view, str_eq, Json, JsonV,
};
use crate::resource::{kind_name, ResourceKind};

verus! {

pub struct Metaobject;

impl Metaobject {
    /// The name used on the command line.
    pub fn name(&self) -> (r: &'static str)
        ensures
            r@ == kind_name(ResourceKind::Metaobjects),
    {
        "metaobjects"
    }

    /// The resource kind this is.
    pub fn kind(&self) -> (r: ResourceKind)
        ensures
            r == ResourceKind::Metaobjects,
    {
        ResourceKind::Metaobjects
    }
}

/// A field definition's type.
pub struct FieldType {
    pub name: String,
}

/// One field of a definition.
pub struct FieldDefinitionRecord {
    pub key: String,
    pub name: Option<String>,
    pub field_type: FieldType,
}

/// One exported metaobject definition.
pub struct DefinitionRecord {
    pub name: Option<String>,
    pub metaobject_type: String,
    pub field_definitions: Vec<FieldDefinitionRecord>,
}

/// One field of an exported entry: a plain value, or a reference, or a list
/// of references (each in the read shape, naming its target by handle).
pub struct FieldValue {
    pub key: String,
    pub value: Option<String>,
    pub reference: Option<Json>,
    pub references: Option<Json>,
}

/// One exported entry.
pub struct ObjectRecord {
    pub metaobject_type: String,
    pub handle: Option<String>,
    pub fields: Vec<FieldValue>,
}

/// A metaobject export: definitions and entries.
pub struct MetaobjectExport {
    pub definitions: Vec<DefinitionRecord>,
    pub objects: Vec<ObjectRecord>,
}

// ---- definitions ----

pub open spec fn field_definition_input(fd: FieldDefinitionRecord) -> JsonV {
    JsonV::Object(
        seq![
            ("key"@, JsonV::Str(fd.key@)),
            ("name"@, opt_text_v(fd.name)),
            ("type"@, JsonV::Str(fd.field_type.name@)),
        ],
    )
}

/// The `MetaobjectDefinitionCreateInput` for an exported definition.
pub open spec fn definition_input_spec(def: DefinitionRecord) -> JsonV {
    JsonV::Object(
        seq![
            ("name"@, opt_text_v(def.name)),
            ("type"@, JsonV::Str(def.metaobject_type@)),
            (
                "fieldDefinitions"@,
                JsonV::Array(def.field_definitions@.map_values(|fd| field_definition_input(fd))),
            ),
        ],
    )
}

fn build_field_definition(fd: &FieldDefinitionRecord) -> (r: Json)
    ensures
        r@ == field_definition_input(*fd),
{
    let es = vec![
        entry("key", Json::Str(fd.key.clone())),
        entry("name", Json::opt_text(&fd.name)),
        entry("type", Json::Str(fd.field_type.name.clone())),
    ];
    proof {
        lemma_entries_view(es@);
        assert(entries_view(es@) =~= field_definition_input(*fd)->Object_0);
    }
    Json::Object(es)
}

/// Turns an exported definition into `MetaobjectDefinitionCreateInput`.
pub fn definition_input(def: &DefinitionRecord) -> (r: Json)
    ensures
        r@ == definition_input_spec(*def),
{
    let fds = &def.field_definitions;
    let mut out: Vec<Json> = Vec::new();
    let mut i: usize = 0;
    while i < fds.len()
        invariant
            i <= fds@.len(),
            seq_view(out@) == fds@.take(i as int).map_values(|fd| field_definition_input(fd)),
        decreases fds@.len() - i,
    {
        let item = build_field_definition(&fds[i]);
        proof {
            crate::json::lemma_seq_view_push(out@, item);
            assert(fds@.take(i + 1).map_values(|fd| field_definition_input(fd)) =~= fds@.take(
                i as int,
            ).map_values(|fd| field_definition_input(fd)).push(field_definition_input(fds@[i as int])));
        }
        out.push(item);
        i = i + 1;
    }
    proof {
        assert(fds@.take(fds@.len() as int) =~= fds@);
    }
    let es = vec![
        entry("name", Json::opt_text(&def.name)),
        entry("type", Json::Str(def.metaobject_type.clone())),
        entry("fieldDefinitions", Json::Array(out)),
    ];
    proof {
        lemma_entries_view(es@);
        assert(entries_view(es@) =~= definition_input_spec(*def)->Object_0);
    }
    Json::Object(es)
}

// ---- references ----

/// What a reference points at, named so that the target store can find it.
pub enum Reference {
    Product { handle: String },
    Collection { handle: String },
    Metaobject { metaobject_type: String, handle: String },
}

/// The view of a [`Reference`].
pub enum ReferenceV {
    Product(Seq<char>),
    Collection(Seq<char>),
    Metaobject(Seq<char>, Seq<char>),
}

pub open spec fn reference_view(r: Reference) -> ReferenceV {
    match r {
        Reference::Product { handle } => ReferenceV::Product(handle@),
        Reference::Collection { handle } => ReferenceV::Collection(handle@),
        Reference::Metaobject { metaobject_type, handle } => ReferenceV::Metaobject(metaobject_type@, handle@),
    }
}

/// Why a field value cannot be carried over.
pub enum FieldError<E> {
    /// A reference has no `__typename`.
    MissingTypename,
    /// A product reference has no handle.
    ProductMissingHandle,
    /// A collection reference has no handle.
    CollectionMissingHandle,
    /// A metaobject reference has no type.
    MetaobjectMissingType,
    /// A metaobject reference has no handle.
    MetaobjectMissingHandle,
    /// A reference to a type that cannot be remapped (its `__typename`).
    Unsupported { typename: String },
    /// A reference could not be resolved in the target store.
    Resolve(E),
}

/// The kinds of [`FieldError`] that reading a reference can give.
pub enum ReferenceFault {
    MissingTypename,
    ProductMissingHandle,
    CollectionMissingHandle,
    MetaobjectMissingType,
    MetaobjectMissingHandle,
    Unsupported(Seq<char>),
}

pub open spec fn str_field(j: JsonV, k: Seq<char>) -> Option<Seq<char>> {
    match j.at(k) {
        JsonV::Str(s) => Some(s),
        _ => None,
    }
}

/// What a read-shape reference points at, or why it cannot be remapped.
pub open spec fn reference_spec(r: JsonV) -> Result<ReferenceV, ReferenceFault> {
    match str_field(r, "__typename"@) {
        None => Err(ReferenceFault::MissingTypename),
        Some(t) => if t == "Product"@ {
            match str_field(r, "handle"@) {
                Some(h) => Ok(ReferenceV::Product(h)),
                None => Err(ReferenceFault::ProductMissingHandle),
            }
        } else if t == "Collection"@ {
            match str_field(r, "handle"@) {
                Some(h) => Ok(ReferenceV::Collection(h)),
                None => Err(ReferenceFault::CollectionMissingHandle),
            }
        } else if t == "Metaobject"@ {
            match str_field(r, "type"@) {
                None => Err(ReferenceFault::MetaobjectMissingType),
                Some(ty) => match str_field(r, "handle"@) {
                    Some(h) => Ok(ReferenceV::Metaobject(ty, h)),
                    None => Err(ReferenceFault::MetaobjectMissingHandle),
                },
            }
        } else {
            Err(ReferenceFault::Unsupported(t))
        },
    }
}

/// The fault an error reports, if it is one of reading a reference.
pub open spec fn fault_of<E>(e: FieldError<E>) -> Option<ReferenceFault> {
    match e {
        FieldError::MissingTypename => Some(ReferenceFault::MissingTypename),
        FieldError::ProductMissingHandle => Some(ReferenceFault::ProductMissingHandle),
        FieldError::CollectionMissingHandle => Some(ReferenceFault::CollectionMissingHandle),
        FieldError::MetaobjectMissingType => Some(ReferenceFault::MetaobjectMissingType),
        FieldError::MetaobjectMissingHandle => Some(ReferenceFault::MetaobjectMissingHandle),
        FieldError::Unsupported { typename } => Some(ReferenceFault::Unsupported(typename@)),
        _ => None,
    }
}

/// Reads what a read-shape reference points at (see [`reference_spec`]).
pub fn reference_target<E>(r: &Json) -> (out: Result<Reference, FieldError<E>>)
    ensures
        match out {
            Ok(t) => reference_spec(r@) == Ok::<ReferenceV, ReferenceFault>(reference_view(t)),
            Err(e) => reference_spec(r@) is Err && fault_of(e) == Some(reference_spec(r@)->Err_0),
        },
{
    let t = match r.str_at("__typename") {
        Some(t) => t,
        None => {
            return Err(FieldError::MissingTypename);
        },
    };
    if str_eq(t.as_str(), "Product") {
        match r.str_at("handle") {
            Some(h) => Ok(Reference::Product { handle: h.clone() }),
            None => Err(FieldError::ProductMissingHandle),
        }
    } else if str_eq(t.as_str(), "Collection") {
        match r.str_at("handle") {
            Some(h) => Ok(Reference::Collection { handle: h.clone() }),
            None => Err(FieldError::CollectionMissingHandle),
        }
    } else if str_eq(t.as_str(), "Metaobject") {
        let ty = match r.str_at("type") {
            Some(ty) => ty,
            None => {
                return Err(FieldError::MetaobjectMissingType);
            },
        };
        match r.str_at("handle") {
            Some(h) => Ok(Reference::Metaobject { metaobject_type: ty.clone(), handle: h.clone() }),
            None => Err(FieldError::MetaobjectMissingHandle),
        }
    } else {
        Err(FieldError::Unsupported { typename: t.clone() })
    }
}

/// `resolve` may answer a reference to `target` with `id`.
pub open spec fn ref_resolves_to<E, F: Fn(&Reference) -> Result<String, E>>(
    resolve: F,
    target: ReferenceV,
    id: Seq<char>,
) -> bool {
    exists|t: &Reference, s: String|
        #![trigger resolve.ensures((t,), Ok::<String, E>(s))]
        reference_view(*t) == target && s@ == id && resolve.ensures((t,), Ok::<String, E>(s))
}

/// `resolve` may answer a reference to `target` with the error `e`.
pub open spec fn ref_fails_with<E, F: Fn(&Reference) -> Result<String, E>>(
    resolve: F,
    target: ReferenceV,
    e: E,
) -> bool {
    exists|t: &Reference|
        #![trigger resolve.ensures((t,), Err::<String, E>(e))]
        reference_view(*t) == target && resolve.ensures((t,), Err::<String, E>(e))
}

/// What resolving a read-shape reference may answer: an id or an error that
/// `resolve` may give for its target, or the fault in the reference.
pub open spec fn reference_outcome<E, F: Fn(&Reference) -> Result<String, E>>(
    resolve: F,
    r: JsonV,
    out: Result<Seq<char>, FieldError<E>>,
) -> bool {
    match reference_spec(r) {
        Ok(t) => match out {
            Ok(id) => ref_resolves_to(resolve, t, id),
            Err(FieldError::Resolve(e)) => ref_fails_with(resolve, t, e),
            Err(_) => false,
        },
        Err(f) => match out {
            Ok(_) => false,
            Err(e) => fault_of(e) == Some(f),
        },
    }
}

pub open spec fn string_result_view<E>(r: Result<String, FieldError<E>>) -> Result<
    Seq<char>,
    FieldError<E>,
> {
    match r {
        Ok(s) => Ok(s@),
        Err(e) => Err(e),
    }
}

/// Resolves a read-shape reference to the target store's id of what it points
/// at (see [`reference_outcome`]).
pub fn resolve_reference<E, F: Fn(&Reference) -> Result<String, E>>(resolve: &F, r: &Json) -> (out:
    Result<String, FieldError<E>>)
    requires
        forall|t: &Reference| resolve.requires((t,)),
    ensures
        reference_outcome(*resolve, r@, string_result_view(out)),
{
    let target = match reference_target(r) {
        Ok(t) => t,
        Err(e) => {
            return Err(e);
        },
    };
    match resolve(&target) {
        Ok(id) => {
            proof {
                assert(ref_resolves_to(*resolve, reference_view(target), id@));
            }
            Ok(id)
        },
        Err(e) => {
            proof {
                assert(ref_fails_with(*resolve, reference_view(target), e));
            }
            Err(FieldError::Resolve(e))
        },
    }
}

// ---- entries ----

/// A lower-case hexadecimal digit, for `0 <= d < 16`.
pub open spec fn hex_digit(d: int) -> char {
    if d < 10 {
        (('0' as int) + d) as char
    } else {
        (('a' as int) + d - 10) as char
    }
}

/// How one character stands inside a JSON string as `serde_json` writes it:
/// `"` and `\` and the control characters are escaped (the named escapes
/// where JSON has one, else `\u00xx`); every other character stands as it is.
pub open spec fn json_char_text(c: char) -> Seq<char> {
    if c == '"' {
        seq!['\\', '"']
    } else if c == '\\' {
        seq!['\\', '\\']
    } else if c == '\u{8}' {
        seq!['\\', 'b']
    } else if c == '\t' {
        seq!['\\', 't']
    } else if c == '\n' {
        seq!['\\', 'n']
    } else if c == '\u{c}' {
        seq!['\\', 'f']
    } else if c == '\r' {
        seq!['\\', 'r']
    } else if (c as int) < 0x20 {
        seq!['\\', 'u', '0', '0', hex_digit((c as int) / 16), hex_digit((c as int) % 16)]
    } else {
        seq![c]
    }
}

/// The escaped characters of a string.
pub open spec fn json_str_body(s: Seq<char>) -> Seq<char>
    decreases s.len(),
{
    if s.len() == 0 {
        Seq::empty()
    } else {
        json_str_body(s.drop_last()) + json_char_text(s.last())
    }
}

/// A string as a JSON string literal.
pub open spec fn json_str_text(s: Seq<char>) -> Seq<char> {
    seq!['"'] + json_str_body(s) + seq!['"']
}

/// The elements of a list of strings, as JSON literals separated by commas.
pub open spec fn json_items_text(items: Seq<Seq<char>>) -> Seq<char>
    decreases items.len(),
{
    if items.len() == 0 {
        Seq::empty()
    } else if items.len() == 1 {
        json_str_text(items[0])
    } else {
        json_items_text(items.drop_last()) + seq![','] + json_str_text(items.last())
    }
}

/// The compact JSON text of a list of strings: `[`, the quoted strings
/// separated by commas, `]`.
pub open spec fn json_list_text(items: Seq<Seq<char>>) -> Seq<char> {
    seq!['['] + json_items_text(items) + seq![']']
}

/// `serde_json::to_string` of a list of strings: its compact JSON text. It
/// does not fail: a `String` always serializes, and a list of them holds no
/// map.
#[verifier::external_body]
fn encode_string_list(items: &Vec<String>) -> (r: Option<String>)
    ensures
        r is Some,
        r->Some_0@ == json_list_text(items@.map_values(|s: String| s@)),
{
    serde_json::to_string(items).ok()
}

/// The value a field is written with, given the ids its references resolved
/// to: the single reference's id, the JSON text of a list's ids, else its
/// plain value. `None` fields are left out.
pub open spec fn field_value_spec(f: FieldValue, ids: Seq<Seq<char>>) -> Option<Seq<char>> {
    if f.reference is Some {
        Some(ids[0])
    } else if f.references is Some && f.references->Some_0@.at("nodes"@) is Array {
        Some(json_list_text(ids))
    } else {
        match f.value {
            Some(v) => Some(v@),
            None => None,
        }
    }
}

/// The references a field holds, in the read shape: its single reference, or
/// the nodes of its list of references, or none.
pub open spec fn field_refs(f: FieldValue) -> Seq<JsonV> {
    match f.reference {
        Some(r) => seq![r@],
        None => match f.references {
            Some(rs) => match rs@.at("nodes"@) {
                JsonV::Array(nodes) => nodes,
                _ => Seq::empty(),
            },
            None => Seq::empty(),
        },
    }
}

/// Each reference of `refs` resolves to the matching id of `ids`.
pub open spec fn refs_resolve<E, F: Fn(&Reference) -> Result<String, E>>(
    resolve: F,
    refs: Seq<JsonV>,
    ids: Seq<Seq<char>>,
) -> bool {
    &&& ids.len() == refs.len()
    &&& forall|i: int|
        0 <= i < refs.len() ==> #[trigger] reference_outcome(resolve, refs[i], Ok(ids[i]))
}

/// The first references of `refs`, one for each of `ids`, resolve to them.
pub open spec fn resolved_prefix<E, F: Fn(&Reference) -> Result<String, E>>(
    resolve: F,
    refs: Seq<JsonV>,
    ids: Seq<Seq<char>>,
) -> bool {
    &&& ids.len() <= refs.len()
    &&& forall|j: int|
        0 <= j < ids.len() ==> #[trigger] reference_outcome(resolve, refs[j], Ok(ids[j]))
}

/// What [`resolve_field_value`] may answer for a field: the value written
/// when every reference resolves, else the error of the first one that does
/// not.
pub open spec fn field_outcome<E, F: Fn(&Reference) -> Result<String, E>>(
    resolve: F,
    f: FieldValue,
    out: Result<Option<Seq<char>>, FieldError<E>>,
) -> bool {
    match out {
        Ok(v) => exists|ids: Seq<Seq<char>>|
            refs_resolve(resolve, field_refs(f), ids) && v == #[trigger] field_value_spec(f, ids),
        Err(e) => exists|ids: Seq<Seq<char>>|
            #[trigger] resolved_prefix(resolve, field_refs(f), ids) && ids.len() < field_refs(f).len()
                && reference_outcome(resolve, field_refs(f)[ids.len() as int], Err(e)),
    }
}

pub open spec fn option_result_view<E>(r: Result<Option<String>, FieldError<E>>) -> Result<
    Option<Seq<char>>,
    FieldError<E>,
> {
    match r {
        Ok(Some(s)) => Ok(Some(s@)),
        Ok(None) => Ok(None),
        Err(e) => Err(e),
    }
}

/// The value a field is written with on import (see [`field_outcome`]).
pub fn resolve_field_value<E, F: Fn(&Reference) -> Result<String, E>>(
    resolve: &F,
    f: &FieldValue,
) -> (out: Result<Option<String>, FieldError<E>>)
    requires
        forall|t: &Reference| resolve.requires((t,)),
    ensures
        field_outcome(*resolve, *f, option_result_view(out)),
{
    if let Some(reference) = &f.reference {
        return match resolve_reference(resolve, reference) {
            Ok(id) => {
                proof {
                    let ids = seq![id@];
                    assert(field_refs(*f) =~= seq![reference@]);
                    assert(refs_resolve(*resolve, field_refs(*f), ids));
                    assert(field_value_spec(*f, ids) == Some(id@));
                }
                Ok(Some(id))
            },
            Err(e) => {
                proof {
                    assert(field_refs(*f)[0] == reference@);
                    assert(resolved_prefix(*resolve, field_refs(*f), Seq::<Seq<char>>::empty()));
                }
                Err(e)
            },
        };
    }
    if let Some(references) = &f.references {
        if let Some(nodes) = references.at("nodes").as_array() {
            let ghost nv = seq_view(nodes@);
            proof {
                crate::json::lemma_seq_view(nodes@);
                assert(field_refs(*f) == nv);
            }
            let mut ids: Vec<String> = Vec::new();
            let mut i: usize = 0;
            while i < nodes.len()
                invariant
                    i <= nodes@.len(),
                    field_refs(*f) == nv,
                    nv == seq_view(nodes@),
                    nv.len() == nodes@.len(),
                    forall|j: int| 0 <= j < nodes@.len() ==> #[trigger] nv[j] == nodes@[j]@,
                    forall|t: &Reference| resolve.requires((t,)),
                    ids@.len() == i,
                    forall|j: int|
                        0 <= j < i ==> #[trigger] reference_outcome(*resolve, nv[j], Ok(ids@[j]@)),
                decreases nodes@.len() - i,
            {
                match resolve_reference(resolve, &nodes[i]) {
                    Ok(id) => {
                        ids.push(id);
                    },
                    Err(e) => {
                        proof {
                            assert(reference_outcome(*resolve, nv[i as int], Err(e)));
                            let pv = ids@.map_values(|s: String| s@);
                            assert forall|j: int| 0 <= j < i implies #[trigger] reference_outcome(
                                *resolve,
                                field_refs(*f)[j],
                                Ok(pv[j]),
                            ) by {
                                assert(pv[j] == ids@[j]@);
                            }
                            assert(pv.len() == i);
                            assert(resolved_prefix(*resolve, field_refs(*f), pv));
                            assert(reference_outcome(*resolve, field_refs(*f)[pv.len() as int], Err(e)));
                        }
                        return Err(e);
                    },
                }
                i = i + 1;
            }
            let ghost iv = ids@.map_values(|s: String| s@);
            proof {
                assert forall|j: int| 0 <= j < nv.len() implies #[trigger] reference_outcome(
                    *resolve,
                    nv[j],
                    Ok(iv[j]),
                ) by {
                    assert(iv[j] == ids@[j]@);
                }
                assert(refs_resolve(*resolve, nv, iv));
            }
            return match encode_string_list(&ids) {
                Some(text) => {
                    proof {
                        assert(field_value_spec(*f, iv) == Some(text@));
                    }
                    Ok(Some(text))
                },
                None => Ok(None),
            };
        }
    }
    proof {
        assert(field_refs(*f) =~= Seq::<JsonV>::empty());
        assert(refs_resolve(*resolve, field_refs(*f), Seq::<Seq<char>>::empty()));
        assert(field_value_spec(*f, Seq::<Seq<char>>::empty()) == match f.value {
            Some(v) => Some(v@),
            None => None::<Seq<char>>,
        });
    }
    match &f.value {
        Some(v) => Ok(Some(v.clone())),
        None => Ok(None),
    }
}

/// One written field, `{ key, value }`.
pub open spec fn field_input(key: Seq<char>, value: Seq<char>) -> JsonV {
    JsonV::Object(seq![("key"@, JsonV::Str(key)), ("value"@, JsonV::Str(value))])
}

/// The written fields of an entry, given what each field's value came to:
/// the fields with a value, in order.
pub open spec fn fields_input(fields: Seq<FieldValue>, values: Seq<Option<Seq<char>>>) -> Seq<JsonV> {
    crate::json::filter_some(
        Seq::new(
            fields.len(),
            |i: int|
                match values[i] {
                    Some(v) => Some(field_input(fields[i].key@, v)),
                    None => None,
                },
        ),
    )
}

/// The `MetaobjectCreateInput` for an entry, given what each field's value
/// came to: its type and written fields, and its handle when it has one.
pub open spec fn object_input_spec(obj: ObjectRecord, values: Seq<Option<Seq<char>>>) -> JsonV {
    let base = JsonV::Object(
        seq![
            ("type"@, JsonV::Str(obj.metaobject_type@)),
            ("fields"@, JsonV::Array(fields_input(obj.fields@, values))),
        ],
    );
    match obj.handle {
        Some(h) => base.set("handle"@, JsonV::Str(h@)),
        None => base,
    }
}

/// The first `values.len()` fields are written with those values.
pub open spec fn fields_prefix<E, F: Fn(&Reference) -> Result<String, E>>(
    resolve: F,
    fields: Seq<FieldValue>,
    values: Seq<Option<Seq<char>>>,
) -> bool {
    &&& values.len() <= fields.len()
    &&& forall|i: int| 0 <= i < values.len() ==> #[trigger] field_outcome(resolve, fields[i], Ok(values[i]))
}

/// What [`object_input`] may answer for an entry: the input when every field
/// can be written, else the error of the first field that cannot.
pub open spec fn object_outcome<E, F: Fn(&Reference) -> Result<String, E>>(
    resolve: F,
    obj: ObjectRecord,
    out: Result<JsonV, FieldError<E>>,
) -> bool {
    match out {
        Ok(j) => exists|values: Seq<Option<Seq<char>>>|
            #![trigger object_input_spec(obj, values)]
            values.len() == obj.fields@.len() && (forall|i: int|
                0 <= i < obj.fields@.len() ==> #[trigger] field_outcome(
                    resolve,
                    obj.fields@[i],
                    Ok(values[i]),
                )) && j == object_input_spec(obj, values),
        Err(e) => exists|values: Seq<Option<Seq<char>>>|
            #[trigger] fields_prefix(resolve, obj.fields@, values) && values.len() < obj.fields@.len()
                && field_outcome(resolve, obj.fields@[values.len() as int], Err(e)),
    }
}

pub open spec fn json_result_view<E>(r: Result<Json, FieldError<E>>) -> Result<JsonV, FieldError<E>> {
    match r {
        Ok(j) => Ok(j@),
        Err(e) => Err(e),
    }
}

/// Turns an exported entry into `MetaobjectCreateInput`, resolving the
/// references of its fields through `resolve` (see [`object_outcome`]).
pub fn object_input<E, F: Fn(&Reference) -> Result<String, E>>(resolve: &F, obj: &ObjectRecord) -> (out:
    Result<Json, FieldError<E>>)
    requires
        forall|t: &Reference| resolve.requires((t,)),
    ensures
        object_outcome(*resolve, *obj, json_result_view(out)),
{
    let fs = &obj.fields;
    let mut fields: Vec<Json> = Vec::new();
    let ghost mut values: Seq<Option<Seq<char>>> = Seq::empty();
    let mut i: usize = 0;
    while i < fs.len()
        invariant
            i <= fs@.len(),
            fs@ == obj.fields@,
            forall|t: &Reference| resolve.requires((t,)),
            values.len() == i,
            forall|j: int| 0 <= j < i ==> #[trigger] field_outcome(*resolve, fs@[j], Ok(values[j])),
            seq_view(fields@) == fields_input(fs@.take(i as int), values),
        decreases fs@.len() - i,
    {
        let ghost before = fields_input(fs@.take(i as int), values);
        match resolve_field_value(resolve, &fs[i]) {
            Ok(v) => {
                let ghost vv = match &v {
                    Some(s) => Some(s@),
                    None => None::<Seq<char>>,
                };
                let ghost nvalues = values.push(vv);
                let ghost g = |k: int|
                    match nvalues[k] {
                        Some(x) => Some(field_input(fs@.take(i + 1)[k].key@, x)),
                        None => None,
                    };
                let ghost g0 = |k: int|
                    match values[k] {
                        Some(x) => Some(field_input(fs@.take(i as int)[k].key@, x)),
                        None => None,
                    };
                proof {
                    assert(Seq::new((i + 1) as nat, g) =~= Seq::new(i as nat, g0).push(g(i as int)));
                    crate::json::lemma_filter_some_push(Seq::new(i as nat, g0), g(i as int));
                }
                match v {
                    Some(value) => {
                        let item_es = vec![
                            entry("key", Json::Str(fs[i].key.clone())),
                            entry("value", Json::Str(value)),
                        ];
                        proof {
                            lemma_entries_view(item_es@);
                            assert(entries_view(item_es@) =~= field_input(fs@[i as int].key@, vv->Some_0)->Object_0);
                        }
                        let item = Json::Object(item_es);
                        proof {
                            crate::json::lemma_seq_view_push(fields@, item);
                        }
                        fields.push(item);
                    },
                    None => {},
                }
                proof {
                    values = nvalues;
                }
            },
            Err(e) => {
                proof {
                    assert(field_outcome(*resolve, obj.fields@[i as int], Err(e)));
                    assert(fields_prefix(*resolve, obj.fields@, values));
                }
                return Err(e);
            },
        }
        i = i + 1;
    }
    proof {
        assert(fs@.take(fs@.len() as int) =~= fs@);
    }
    let es = vec![entry("type", Json::Str(obj.metaobject_type.clone())), entry("fields", Json::Array(fields))];
    proof {
        lemma_entries_view(es@);
        assert(entries_view(es@) =~= seq![
            ("type"@, JsonV::Str(obj.metaobject_type@)),
            ("fields"@, JsonV::Array(fields_input(obj.fields@, values))),
        ]);
    }
    let mut input = Json::Object(es);
    if let Some(h) = &obj.handle {
        input.set(owned("handle"), Json::Str(h.clone()));
    }
    proof {
        assert(input@ == object_input_spec(*obj, values));
    }
    Ok(input)
}

// ---- export ----

/// A field's list of references was cut short: its
/// `references.pageInfo.hasNextPage` is `true`, and it has a string key.
pub open spec fn cut_short(field: JsonV) -> bool {
    field.at("references"@).at("pageInfo"@).at("hasNextPage"@) == JsonV::Bool(true)
        && field.at("key"@) is Str
}

/// The positions and keys of the fields among the first `n` that were cut short.
pub open spec fn cut_short_upto(fields: Seq<JsonV>, n: int) -> Seq<(int, Seq<char>)>
    decreases n,
{
    if n <= 0 {
        Seq::empty()
    } else {
        let before = cut_short_upto(fields, n - 1);
        if cut_short(fields[n - 1]) {
            before.push((n - 1, fields[n - 1].at("key"@)->Str_0))
        } else {
            before
        }
    }
}

/// The fields of an exported entry whose references are fetched in full: those
/// cut short, with their keys, when the entry has a string `id` (without one
/// nothing can be fetched).
pub open spec fn truncated_spec(obj: JsonV) -> Seq<(int, Seq<char>)> {
    if obj.at("id"@) is Str {
        let fields = crate::resource::delivery_profile::arr_v(obj.at("fields"@));
        cut_short_upto(fields, fields.len() as int)
    } else {
        Seq::empty()
    }
}

/// The fields of an exported entry whose references are fetched in full (see
/// [`truncated_spec`]).
pub fn truncated_reference_fields(obj: &Json) -> (r: Vec<(usize, String)>)
    ensures
        r@.len() == truncated_spec(obj@).len(),
        forall|k: int|
            0 <= k < r@.len() ==> #[trigger] r@[k].0 as int == truncated_spec(obj@)[k].0
                && r@[k].1@ == truncated_spec(obj@)[k].1,
{
    let mut out: Vec<(usize, String)> = Vec::new();
    if obj.str_at("id").is_none() {
        return out;
    }
    let fields = crate::resource::delivery_profile::arr(&obj.at("fields"));
    let ghost fv = seq_view(fields@);
    proof {
        crate::json::lemma_seq_view(fields@);
    }
    let mut i: usize = 0;
    while i < fields.len()
        invariant
            i <= fields@.len(),
            fv == seq_view(fields@),
            fv == crate::resource::delivery_profile::arr_v(obj@.at("fields"@)),
            fv.len() == fields@.len(),
            forall|j: int| 0 <= j < fields@.len() ==> #[trigger] fv[j] == fields@[j]@,
            out@.len() == cut_short_upto(fv, i as int).len(),
            forall|k: int|
                0 <= k < out@.len() ==> #[trigger] out@[k].0 as int == cut_short_upto(fv, i as int)[k].0
                    && out@[k].1@ == cut_short_upto(fv, i as int)[k].1,
        decreases fields@.len() - i,
    {
        let f = &fields[i];
        let more = match f.at("references").at("pageInfo").get("hasNextPage") {
            Some(b) => match b.as_bool() {
                Some(x) => x,
                None => false,
            },
            None => false,
        };
        if more {
            if let Some(key) = f.str_at("key") {
                out.push((i, key.clone()));
            }
        }
        i = i + 1;
    }
    out
}

/// An entry with field `i`'s references replaced by `{ nodes }`.
pub open spec fn with_references(obj: JsonV, i: int, nodes: Seq<JsonV>) -> JsonV {
    let fields = obj.at("fields"@)->Array_0;
    obj.set(
        "fields"@,
        JsonV::Array(
            fields.update(
                i,
                fields[i].set("references"@, JsonV::Object(seq![("nodes"@, JsonV::Array(nodes))])),
            ),
        ),
    )
}

/// Replaces field `i`'s list of references with the full list `nodes`.
pub fn replace_references(obj: &mut Json, i: usize, nodes: Vec<Json>)
    requires
        old(obj)@ is Object,
        old(obj)@.at("fields"@) is Array,
        i < old(obj)@.at("fields"@)->Array_0.len(),
        crate::json::settable(old(obj)@.at("fields"@)->Array_0[i as int]),
    ensures
        final(obj)@ == with_references(old(obj)@, i as int, seq_view(nodes@)),
{
    let ghost orig = obj@;
    let mut fields = match obj.take("fields") {
        Some(Json::Array(v)) => v,
        _ => {
            proof {
                assert(false);
            }
            Vec::new()
        },
    };
    proof {
        crate::json::lemma_seq_view(fields@);
    }
    let ghost fv = seq_view(fields@);
    let mut item = fields.remove(i);
    let ghost nv = seq_view(nodes@);
    let refs = vec![entry("nodes", Json::Array(nodes))];
    proof {
        lemma_entries_view(refs@);
        assert(entries_view(refs@) =~= seq![("nodes"@, JsonV::Array(nv))]);
    }
    item.set(owned("references"), Json::Object(refs));
    fields.insert(i, item);
    proof {
        crate::json::lemma_seq_view(fields@);
        assert(seq_view(fields@) =~= fv.update(
            i as int,
            fv[i as int].set("references"@, JsonV::Object(seq![("nodes"@, JsonV::Array(nv))])),
        ));
        crate::json::lemma_set_set(orig, "fields"@, JsonV::Null, JsonV::Array(seq_view(fields@)));
    }
    obj.set(owned("fields"), Json::Array(fields));
}

/// The words for a field error (see [`FieldError::message`]).
pub open spec fn field_error_text<E>(e: FieldError<E>) -> Seq<char> {
    match e {
        FieldError::MissingTypename => "reference is missing __typename"@,
        FieldError::ProductMissingHandle => "product reference missing handle"@,
        FieldError::CollectionMissingHandle => "collection reference missing handle"@,
        FieldError::MetaobjectMissingType => "metaobject reference missing type"@,
        FieldError::MetaobjectMissingHandle => "metaobject reference missing handle"@,
        FieldError::Unsupported { typename } => "reference to '"@ + typename@
            + "' can't be remapped across stores yet (only Product / Collection / Metaobject references are supported)"@,
        FieldError::Resolve(_) => Seq::empty(),
    }
}

impl<E> FieldError<E> {
    /// Why the field cannot be carried over, in words; `None` for a failed
    /// resolution, whose own error says why.
    pub fn message(&self) -> (r: Option<String>)
        ensures
            match r {
                Some(m) => !(*self is Resolve) && m@ == field_error_text(*self),
                None => *self is Resolve,
            },
    {
        let m = match self {
            FieldError::MissingTypename => owned("reference is missing __typename"),
            FieldError::ProductMissingHandle => owned("product reference missing handle"),
            FieldError::CollectionMissingHandle => owned("collection reference missing handle"),
            FieldError::MetaobjectMissingType => owned("metaobject reference missing type"),
            FieldError::MetaobjectMissingHandle => owned("metaobject reference missing handle"),
            FieldError::Unsupported { typename } => {
                let mut m = owned("reference to '");
                m.append(typename.as_str());
                m.append("' can't be remapped across stores yet (only Product / Collection / Metaobject references are supported)");
                m
            },
            FieldError::Resolve(_) => {
                return None;
            },
        };
        Some(m)
    }
}

/// A definition is written with one field definition per exported one, in
/// order, each carrying its own key, display name (as text, or `null` when
/// absent) and type name.
pub proof fn law_field_definitions_carry_over(def: DefinitionRecord, i: int)
    requires
        0 <= i < def.field_definitions@.len(),
    ensures
        definition_input_spec(def).at("fieldDefinitions"@) matches JsonV::Array(fs) && fs.len()
            == def.field_definitions@.len() && {
            let fd = def.field_definitions@[i];
            &&& fs[i].get("key"@) == Some(JsonV::Str(fd.key@))
            &&& fs[i].get("name"@) == Some(
                match fd.name {
                    Some(t) => JsonV::Str(t@),
                    None => JsonV::Null,
                },
            )
            &&& fs[i].get("type"@) == Some(JsonV::Str(fd.field_type.name@))
        },
{
    reveal_strlit("name");
    reveal_strlit("type");
    reveal_strlit("key");
    reveal_strlit("fieldDefinitions");
    assert("name"@.len() == 4 && "type"@.len() == 4 && "key"@.len() == 3);
    assert("fieldDefinitions"@.len() == 16 && "name"@[0] != "type"@[0]);
    let des = definition_input_spec(def)->Object_0;
    assert forall|j: int| 0 <= j < 2 implies (#[trigger] des[j]).0 != des[2].0 by {
        if j == 0 {} else if j == 1 {}
    }
    crate::json::lemma_get_entry(des, 2);
    let es = field_definition_input(def.field_definitions@[i])->Object_0;
    crate::json::lemma_get_entry(es, 0);
    assert forall|j: int| 0 <= j < 1 implies (#[trigger] es[j]).0 != es[1].0 by {}
    crate::json::lemma_get_entry(es, 1);
    assert forall|j: int| 0 <= j < 2 implies (#[trigger] es[j]).0 != es[2].0 by {
        if j == 0 {} else if j == 1 {}
    }
    crate::json::lemma_get_entry(es, 2);
}

/// A definition is written with its own name (as text, or `null` when
/// absent) and type.
pub proof fn law_definition_fields_carry_over(def: DefinitionRecord)
    ensures
        definition_input_spec(def).get("name"@) == Some(match def.name {
                Some(t) => JsonV::Str(t@),
                None => JsonV::Null,
            }),
        definition_input_spec(def).get("type"@) == Some(JsonV::Str(def.metaobject_type@)),
{
    reveal_strlit("fieldDefinitions");
    reveal_strlit("name");
    reveal_strlit("type");
    assert("fieldDefinitions"@.len() == 16);
    assert("name"@.len() == 4);
    assert("type"@.len() == 4);
    assert("name"@[0] != "type"@[0]);
    let es = definition_input_spec(def)->Object_0;
    crate::json::lemma_get_entry(es, 0);
    assert forall|j: int| 0 <= j < 1 implies (#[trigger] es[j]).0 != es[1].0 by {
        if j == 0 {}
    }
    crate::json::lemma_get_entry(es, 1);
}

/// An entry is created with its own type, and with its handle exactly when
/// it has one.
pub proof fn law_entry_keeps_type_and_handle<E, F: Fn(&Reference) -> Result<String, E>>(
    resolve: F,
    obj: ObjectRecord,
    j: JsonV,
)
    requires
        object_outcome(resolve, obj, Ok(j)),
    ensures
        j.get("type"@) == Some(JsonV::Str(obj.metaobject_type@)),
        j.get("handle"@) == match obj.handle {
            Some(h) => Some(JsonV::Str(h@)),
            None => None,
        },
{
    reveal_strlit("fields");
    reveal_strlit("handle");
    reveal_strlit("type");
    assert("fields"@.len() == 6);
    assert("handle"@.len() == 6);
    assert("type"@.len() == 4);
    assert("fields"@[0] != "handle"@[0]);
    let values = choose|values: Seq<Option<Seq<char>>>|
        #![trigger object_input_spec(obj, values)]
        values.len() == obj.fields@.len() && (forall|i: int|
            0 <= i < obj.fields@.len() ==> #[trigger] field_outcome(resolve, obj.fields@[i], Ok(values[i])))
            && j == object_input_spec(obj, values);
    let base = JsonV::Object(
        seq![
            ("type"@, JsonV::Str(obj.metaobject_type@)),
            ("fields"@, JsonV::Array(fields_input(obj.fields@, values))),
        ],
    );
    let es = base->Object_0;
    crate::json::lemma_get_entry(es, 0);
    match obj.handle {
        Some(h) => {
            crate::json::law_set_then_get(base, "handle"@, JsonV::Str(h@));
            crate::json::law_set_keeps_other_keys(base, "handle"@, JsonV::Str(h@), "type"@);
        },
        None => {
            assert forall|q: int| 0 <= q < es.len() implies (#[trigger] es[q]).0 != "handle"@ by {
                if q == 0 {} else if q == 1 {}
            }
            crate::json::law_absent_key(es, "handle"@);
        },
    }
}

} // verus!
