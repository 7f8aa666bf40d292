//! The schema of an Arrow table in its IPC form.

use arrow::datatypes::DataType::{
    Dictionary, FixedSizeList, LargeList, LargeListView, List, ListView, RunEndEncoded, Struct,
    Timestamp, Union,
};
use arrow::datatypes::{DataType, Field, Schema};
use crate::schema::TypeTree::{
    DictionaryOf, FixedSizeListOf, LargeListOf, LargeViewList, ListOf, MapOf, Plain, RunEndsOf,
    StructOf, UnionOf, ViewList, Zoned,
};
use std::sync::Arc;
use vstd::multiset::*;
use vstd::prelude::*;
use vstd::string::*;
use vstd::utf8::*;

verus! {

/// The type of an Arrow column.
#[verifier::external_type_specification]
#[verifier::external_body]
pub struct ExDataType(arrow::datatypes::DataType);

/// The field of an Arrow schema.
#[verifier::external_type_specification]
#[verifier::external_body]
pub struct ExField(arrow::datatypes::Field);

/// What an Arrow type is made up of, as far as it decides whether the type has
/// an IPC form and how large that is. A timestamp has the name of its time
/// zone, where it has one.
pub enum TypeForm {
    ListOf(FieldForm),
    LargeListOf(FieldForm),
    FixedSizeListOf(FieldForm),
    ViewList,
    LargeViewList,
    StructOf(Seq<FieldForm>),
    UnionOf(Seq<FieldForm>),
    DictionaryOf(Box<TypeForm>),
    MapOf(FieldForm),
    RunEndsOf(FieldForm, FieldForm),
    Zoned(Option<Seq<char>>),
    Plain,
}

/// What the field of a schema is made up of.
pub struct FieldForm {
    pub name: Seq<char>,
    pub metadata: Multiset<(Seq<char>, Seq<char>)>,
    pub data_type: Box<TypeForm>,
}

/// [`TypeForm`], to be walked.
pub enum TypeTree {
    ListOf(FieldTree),
    LargeListOf(FieldTree),
    FixedSizeListOf(FieldTree),
    ViewList,
    LargeViewList,
    StructOf(Vec<FieldTree>),
    UnionOf(Vec<FieldTree>),
    DictionaryOf(Box<TypeTree>),
    MapOf(FieldTree),
    RunEndsOf(FieldTree, FieldTree),
    Zoned(Option<String>),
    Plain,
}

/// [`FieldForm`], to be walked.
pub struct FieldTree {
    pub name: String,
    pub metadata: Vec<(String, String)>,
    pub data_type: Box<TypeTree>,
}

impl TypeTree {
    /// What the tree stands for.
    pub open spec fn form(self) -> TypeForm
        decreases self,
    {
        match self {
            TypeTree::ListOf(f) => TypeForm::ListOf(f.form()),
            TypeTree::LargeListOf(f) => TypeForm::LargeListOf(f.form()),
            TypeTree::FixedSizeListOf(f) => TypeForm::FixedSizeListOf(f.form()),
            TypeTree::ViewList => TypeForm::ViewList,
            TypeTree::LargeViewList => TypeForm::LargeViewList,
            TypeTree::StructOf(fs) => TypeForm::StructOf(field_forms(fs@)),
            TypeTree::UnionOf(fs) => TypeForm::UnionOf(field_forms(fs@)),
            TypeTree::DictionaryOf(t) => TypeForm::DictionaryOf(Box::new(t.form())),
            TypeTree::MapOf(f) => TypeForm::MapOf(f.form()),
            TypeTree::RunEndsOf(ends, values) => TypeForm::RunEndsOf(
                ends.form(),
                values.form(),
            ),
            TypeTree::Zoned(zone) => TypeForm::Zoned(
                match zone {
                    Some(z) => Some(z@),
                    None => None,
                },
            ),
            TypeTree::Plain => TypeForm::Plain,
        }
    }
}

impl FieldTree {
    /// What the tree stands for.
    pub open spec fn form(self) -> FieldForm
        decreases self,
    {
        FieldForm {
            name: self.name@,
            metadata: self.metadata.deep_view().to_multiset(),
            data_type: Box::new(self.data_type.form()),
        }
    }
}

/// What the trees stand for.
pub open spec fn field_forms(trees: Seq<FieldTree>) -> Seq<FieldForm>
    decreases trees,
{
    if trees.len() == 0 {
        Seq::empty()
    } else {
        field_forms(trees.drop_last()).push(trees.last().form())
    }
}

/// What a type is made up of.
pub uninterp spec fn type_form(data_type: DataType) -> TypeForm;

/// What a field is made up of.
pub uninterp spec fn field_form(field: Field) -> FieldForm;

/// The fields of a schema.
pub uninterp spec fn fields_of(schema: Schema) -> Seq<Arc<Field>>;

/// The metadata of a schema.
pub uninterp spec fn metadata_of(schema: Schema) -> Multiset<(Seq<char>, Seq<char>)>;

/// The IPC form of a schema.
pub uninterp spec fn ipc_form(schema: Schema) -> Seq<u8>;

/// The most bytes of an IPC form.
pub const MAX_IPC_LEN: u64 = 0x7fff_ffff;

/// The room that a schema takes in its IPC form beside its fields and its
/// metadata, by a generous estimate.
pub const SCHEMA_ROOM: u64 = 1024;

/// The room that a field takes beside its name, its type and its metadata, by
/// a generous estimate.
pub const FIELD_ROOM: u64 = 320;

/// The room that an entry of metadata takes beside its texts, by a generous
/// estimate.
pub const ENTRY_ROOM: u64 = 64;

/// The room that an entry of metadata takes.
pub open spec fn entry_room(entry: (Seq<char>, Seq<char>)) -> nat {
    ENTRY_ROOM as nat + encode_utf8(entry.0).len() + encode_utf8(entry.1).len()
}

/// The room that the entries take, taken together.
pub open spec fn entries_room(entries: Seq<(Seq<char>, Seq<char>)>) -> nat {
    entries.fold_left(0nat, |room: nat, entry: (Seq<char>, Seq<char>)| room + entry_room(entry))
}

/// The room that metadata takes, in whichever order its entries stand.
pub open spec fn metadata_room(metadata: Multiset<(Seq<char>, Seq<char>)>) -> nat {
    entries_room(choose|entries: Seq<(Seq<char>, Seq<char>)>| entries.to_multiset() == metadata)
}

/// The room that a type takes beside its field.
pub open spec fn type_room(form: TypeForm) -> nat
    decreases form,
{
    match form {
        TypeForm::ListOf(f) => field_room(f),
        TypeForm::LargeListOf(f) => field_room(f),
        TypeForm::FixedSizeListOf(f) => field_room(f),
        TypeForm::StructOf(fs) => fields_room(fs),
        TypeForm::UnionOf(fs) => fields_room(fs),
        TypeForm::DictionaryOf(t) => type_room(*t),
        TypeForm::MapOf(f) => field_room(f),
        TypeForm::RunEndsOf(ends, values) => field_room(ends) + field_room(values),
        TypeForm::Zoned(Some(zone)) => encode_utf8(zone).len(),
        _ => 0,
    }
}

/// The room that a field takes.
pub open spec fn field_room(form: FieldForm) -> nat
    decreases form,
{
    FIELD_ROOM as nat + encode_utf8(form.name).len() + metadata_room(form.metadata) + type_room(
        *form.data_type,
    )
}

/// The room that fields take, taken together.
pub open spec fn fields_room(forms: Seq<FieldForm>) -> nat
    decreases forms,
{
    if forms.len() == 0 {
        0
    } else {
        fields_room(forms.drop_last()) + field_room(forms.last())
    }
}

/// Whether a list of views stands in the type.
pub open spec fn has_list_view(form: TypeForm) -> bool
    decreases form,
{
    match form {
        TypeForm::ViewList => true,
        TypeForm::LargeViewList => true,
        TypeForm::ListOf(f) => has_list_view(*f.data_type),
        TypeForm::LargeListOf(f) => has_list_view(*f.data_type),
        TypeForm::FixedSizeListOf(f) => has_list_view(*f.data_type),
        TypeForm::StructOf(fs) => any_list_view(fs),
        TypeForm::UnionOf(fs) => any_list_view(fs),
        TypeForm::DictionaryOf(t) => has_list_view(*t),
        TypeForm::MapOf(f) => has_list_view(*f.data_type),
        TypeForm::RunEndsOf(ends, values) => has_list_view(*ends.data_type) || has_list_view(
            *values.data_type,
        ),
        TypeForm::Zoned(_) => false,
        TypeForm::Plain => false,
    }
}

/// Whether a list of views stands in the type of a field.
pub open spec fn any_list_view(forms: Seq<FieldForm>) -> bool
    decreases forms,
{
    forms.len() > 0 && (any_list_view(forms.drop_last()) || has_list_view(*forms.last().data_type))
}

/// What the fields of a schema are made up of.
pub open spec fn schema_form(schema: Schema) -> Seq<FieldForm> {
    fields_of(schema).map_values(|field: Arc<Field>| field_form(*field))
}

/// Whether the schema is known to be encoded: no list of views stands in the
/// types of its fields, and even by a generous estimate it fits into the 2 GiB
/// that a FlatBuffers buffer holds. Lists of views are never encoded; of a
/// schema that is larger by the estimate only the encoder itself can tell.
pub open spec fn is_surely_encoded(schema: Schema) -> bool {
    &&& !any_list_view(schema_form(schema))
    &&& SCHEMA_ROOM + fields_room(schema_form(schema)) + metadata_room(metadata_of(schema))
        <= MAX_IPC_LEN
}

/// The variants of `arrow::datatypes::DataType`, each with what it is made up
/// of. Variants that hold no other type and no text are taken as one.
#[verifier::external_body]
fn tree_of(data_type: &DataType) -> (r: TypeTree)
    ensures
        r.form() == type_form(*data_type),
{
    match data_type {
        List(f) => ListOf(field_tree(f)),
        LargeList(f) => LargeListOf(field_tree(f)),
        FixedSizeList(f, _) => FixedSizeListOf(field_tree(f)),
        ListView(_) => ViewList,
        LargeListView(_) => LargeViewList,
        Struct(fs) => StructOf(fs.iter().map(field_tree).collect()),
        Union(fs, _) => UnionOf(fs.iter().map(|u| field_tree(u.1)).collect()),
        Dictionary(_, values) => DictionaryOf(Box::new(tree_of(values))),
        DataType::Map(f, _) => MapOf(field_tree(f)),
        RunEndEncoded(e, v) => RunEndsOf(field_tree(e), field_tree(v)),
        Timestamp(_, zone) => Zoned(zone.as_deref().map(String::from)),
        _ => Plain,
    }
}

/// `arrow::datatypes::Field::name`, `metadata` and `data_type`, taken together
/// as what the field is made up of. The metadata comes in any order.
#[verifier::external_body]
fn field_tree(field: &Arc<Field>) -> (r: FieldTree)
    ensures
        r.form() == field_form(**field),
{
    FieldTree {
        name: field.name().clone(),
        metadata: field.metadata().iter().map(|(k, v)| (k.clone(), v.clone())).collect(),
        data_type: Box::new(tree_of(field.data_type())),
    }
}

/// `arrow::datatypes::Schema::fields`: the fields of the schema, in order.
#[verifier::external_body]
fn list_fields(schema: &Schema) -> (r: Vec<Arc<Field>>)
    ensures
        r@ == fields_of(*schema),
{
    schema.fields().iter().cloned().collect()
}

/// `arrow::datatypes::Schema::metadata`: the metadata of the schema, in any
/// order.
#[verifier::external_body]
fn list_metadata(schema: &Schema) -> (r: Vec<(String, String)>)
    ensures
        r.deep_view().to_multiset() == metadata_of(*schema),
{
    schema.metadata().iter().map(|(k, v)| (k.clone(), v.clone())).collect()
}

/// `arrow_flight::FlightInfo::try_with_schema`: the IPC form of the schema.
/// The encoder panics on lists of views, and on what does not fit into the
/// 2 GiB of a FlatBuffers buffer, so these are left out. It writes a message
/// without a body into memory, which cannot fail.
#[verifier::external_body]
fn ipc_bytes(schema: &Schema) -> (r: Result<Vec<u8>, String>)
    requires
        is_surely_encoded(*schema),
    ensures
        r is Ok,
        r matches Ok(bytes) ==> bytes@ == ipc_form(*schema),
{
    match arrow_flight::FlightInfo::new().try_with_schema(schema) {
        Ok(info) => Ok(info.schema.to_vec()),
        Err(e) => Err(e.to_string()),
    }
}

/// The room of entries is the same in any order.
proof fn lemma_metadata_room(entries: Seq<(Seq<char>, Seq<char>)>)
    ensures
        metadata_room(entries.to_multiset()) == entries_room(entries),
{
    let chosen = choose|other: Seq<(Seq<char>, Seq<char>)>|
        other.to_multiset() == entries.to_multiset();
    let f = |room: nat, entry: (Seq<char>, Seq<char>)| room + entry_room(entry);
    assert(vstd::seq_lib::commutative_foldl(f));
    vstd::seq_lib::lemma_fold_left_permutation(chosen, entries, f, 0nat);
}

/// `a + b`, or `None` where it is too large.
fn sum(a: Option<u64>, b: Option<u64>) -> (r: Option<u64>)
    ensures
        match (a, b) {
            (Some(x), Some(y)) => counts(r, (x + y) as nat),
            _ => r is None,
        },
{
    match (a, b) {
        (Some(x), Some(y)) => x.checked_add(y),
        _ => None,
    }
}

/// Whether `r` is the count `n`, or `None` because that is too large.
spec fn counts(r: Option<u64>, n: nat) -> bool {
    match r {
        Some(x) => x == n,
        None => n > u64::MAX,
    }
}

/// How many bytes the text takes.
fn text_len(s: &str) -> (r: Option<u64>)
    ensures
        counts(r, encode_utf8(s@).len()),
{
    Some(s.as_bytes().len() as u64)
}

/// The room that the entries of metadata take.
fn count_entries(entries: &Vec<(String, String)>) -> (r: Option<u64>)
    ensures
        counts(r, metadata_room(entries.deep_view().to_multiset())),
{
    let ghost all = entries.deep_view();
    let mut total: Option<u64> = Some(0);
    let mut i: usize = 0;
    assert(entries_room(all.take(0)) == 0) by {
        reveal(Seq::fold_left);
    }
    while i < entries.len()
        invariant
            i <= entries.len(),
            all == entries.deep_view(),
            counts(total, entries_room(all.take(i as int))),
        decreases entries.len() - i,
    {
        let entry: &(String, String) = &entries[i];
        let texts: Option<u64> = sum(text_len(entry.0.as_str()), text_len(entry.1.as_str()));
        proof {
            let next = all.take(i + 1);
            reveal(Seq::fold_left);
            assert(next.drop_last() =~= all.take(i as int));
            assert(next.last() == entries[i as int].deep_view());
            assert(counts(Some(ENTRY_ROOM), ENTRY_ROOM as nat));
            assert(entries_room(next) == entries_room(all.take(i as int)) + entry_room(
                next.last(),
            ));
        }
        total = sum(total, sum(Some(ENTRY_ROOM), texts));
        i = i + 1;
    }
    assert(all.take(i as int) =~= all);
    proof {
        lemma_metadata_room(all);
    }
    total
}

/// The room that a type takes beside its field.
fn count_type(tree: &TypeTree) -> (r: Option<u64>)
    ensures
        counts(r, type_room(tree.form())),
    decreases *tree,
{
    match tree {
        TypeTree::ListOf(f) => count_field(f),
        TypeTree::LargeListOf(f) => count_field(f),
        TypeTree::FixedSizeListOf(f) => count_field(f),
        TypeTree::StructOf(fs) => count_fields(fs),
        TypeTree::UnionOf(fs) => count_fields(fs),
        TypeTree::DictionaryOf(t) => count_type(t),
        TypeTree::MapOf(f) => count_field(f),
        TypeTree::RunEndsOf(ends, values) => sum(count_field(ends), count_field(values)),
        TypeTree::Zoned(Some(zone)) => text_len(zone.as_str()),
        _ => Some(0),
    }
}

/// The room that a field takes.
fn count_field(tree: &FieldTree) -> (r: Option<u64>)
    ensures
        counts(r, field_room(tree.form())),
    decreases *tree,
{
    let own: Option<u64> = Some(FIELD_ROOM);
    assert(counts(own, FIELD_ROOM as nat));
    let named: Option<u64> = sum(own, text_len(tree.name.as_str()));
    sum(sum(named, count_entries(&tree.metadata)), count_type(&tree.data_type))
}

/// The room that fields take, taken together.
#[verifier::loop_isolation(false)]
fn count_fields(trees: &Vec<FieldTree>) -> (r: Option<u64>)
    ensures
        counts(r, fields_room(field_forms(trees@))),
    decreases *trees,
{
    let mut total: Option<u64> = Some(0);
    let mut i: usize = 0;
    while i < trees.len()
        invariant
            i <= trees.len(),
            counts(total, fields_room(field_forms(trees@.take(i as int)))),
        decreases trees.len() - i,
    {
        proof {
            assert(decreases_to!(*trees => trees@[i as int]));
            lemma_next_field(trees@, i as int);
        }
        total = sum(total, count_field(&trees[i]));
        i = i + 1;
    }
    assert(trees@.take(i as int) =~= trees@);
    total
}

/// The forms of the first fields, and those of one field more.
proof fn lemma_next_field(trees: Seq<FieldTree>, i: int)
    requires
        0 <= i < trees.len(),
    ensures
        field_forms(trees.take(i + 1)) == field_forms(trees.take(i)).push(trees[i].form()),
        field_forms(trees.take(i + 1)).drop_last() == field_forms(trees.take(i)),
        field_forms(trees.take(i + 1)).last() == trees[i].form(),
{
    assert(trees.take(i + 1).drop_last() =~= trees.take(i));
    assert(field_forms(trees.take(i + 1)).drop_last() =~= field_forms(trees.take(i)));
}

/// Whether a list of views stands in the type.
fn finds_list_view(tree: &TypeTree) -> (r: bool)
    ensures
        r == has_list_view(tree.form()),
    decreases *tree,
{
    match tree {
        TypeTree::ViewList => true,
        TypeTree::LargeViewList => true,
        TypeTree::ListOf(f) => finds_in_field(f),
        TypeTree::LargeListOf(f) => finds_in_field(f),
        TypeTree::FixedSizeListOf(f) => finds_in_field(f),
        TypeTree::StructOf(fs) => finds_any_list_view(fs),
        TypeTree::UnionOf(fs) => finds_any_list_view(fs),
        TypeTree::DictionaryOf(t) => finds_list_view(t),
        TypeTree::MapOf(f) => finds_in_field(f),
        TypeTree::RunEndsOf(ends, values) => finds_in_field(ends) || finds_in_field(values),
        TypeTree::Zoned(_) => false,
        TypeTree::Plain => false,
    }
}

/// Whether a list of views stands in the type of the field.
fn finds_in_field(tree: &FieldTree) -> (r: bool)
    ensures
        r == has_list_view(*tree.form().data_type),
    decreases *tree,
{
    finds_list_view(&tree.data_type)
}

/// Whether a list of views stands in the type of a field.
#[verifier::loop_isolation(false)]
fn finds_any_list_view(trees: &Vec<FieldTree>) -> (r: bool)
    ensures
        r == any_list_view(field_forms(trees@)),
    decreases *trees,
{
    let mut found: bool = false;
    let mut i: usize = 0;
    while i < trees.len()
        invariant
            i <= trees.len(),
            found == any_list_view(field_forms(trees@.take(i as int))),
        decreases trees.len() - i,
    {
        proof {
            assert(decreases_to!(*trees => trees@[i as int]));
            lemma_next_field(trees@, i as int);
        }
        let here: bool = finds_in_field(&trees[i]);
        found = found || here;
        i = i + 1;
    }
    assert(trees@.take(i as int) =~= trees@);
    found
}

/// What the fields of the schema are made up of.
fn field_trees(schema: &Schema) -> (r: Vec<FieldTree>)
    ensures
        field_forms(r@) == schema_form(*schema),
{
    let fields: Vec<Arc<Field>> = list_fields(schema);
    let mut trees: Vec<FieldTree> = Vec::new();
    let mut i: usize = 0;
    while i < fields.len()
        invariant
            i <= fields.len(),
            fields@ == fields_of(*schema),
            field_forms(trees@) =~= schema_form(*schema).take(i as int),
        decreases fields.len() - i,
    {
        let ghost before = trees@;
        let tree: FieldTree = field_tree(&fields[i]);
        trees.push(tree);
        assert(trees@.drop_last() =~= before);
        i = i + 1;
    }
    assert(schema_form(*schema).take(i as int) =~= schema_form(*schema));
    trees
}

/// The IPC form of a schema that is known to be encoded.
pub fn schema_ipc(schema: &Schema) -> (r: Result<Vec<u8>, String>)
    requires
        is_surely_encoded(*schema),
    ensures
        r matches Ok(bytes) && bytes@ == ipc_form(*schema),
{
    ipc_bytes(schema)
}

/// The IPC form of the schema. `None` where the schema is not known to be
/// encoded, so that the encoder was not asked.
pub fn encode_schema(schema: &Schema) -> (r: Option<Result<Vec<u8>, String>>)
    ensures
        match r {
            Some(encoded) => is_surely_encoded(*schema) && (encoded matches Ok(bytes) && bytes@
                == ipc_form(*schema)),
            None => !is_surely_encoded(*schema),
        },
{
    let trees: Vec<FieldTree> = field_trees(schema);
    let own: Option<u64> = Some(SCHEMA_ROOM);
    assert(counts(own, SCHEMA_ROOM as nat));
    let room: Option<u64> = sum(
        sum(own, count_fields(&trees)),
        count_entries(&list_metadata(schema)),
    );
    match room {
        Some(n) => if n <= MAX_IPC_LEN && !finds_any_list_view(&trees) {
            Some(schema_ipc(schema))
        } else {
            None
        },
        None => None,
    }
}

/// A list of views is found wherever it stands: in a list, a dictionary, a map,
/// run ends or their values, and in any field of a struct or a union.
pub proof fn list_views_are_found(
    field: FieldForm,
    other: FieldForm,
    inner: TypeForm,
    fields: Seq<FieldForm>,
    i: int,
)
    ensures
        has_list_view(TypeForm::ViewList),
        has_list_view(TypeForm::LargeViewList),
        !has_list_view(TypeForm::Plain),
        has_list_view(*field.data_type) <==> has_list_view(TypeForm::ListOf(field)),
        has_list_view(*field.data_type) <==> has_list_view(TypeForm::LargeListOf(field)),
        has_list_view(*field.data_type) <==> has_list_view(TypeForm::FixedSizeListOf(field)),
        has_list_view(*field.data_type) <==> has_list_view(TypeForm::MapOf(field)),
        has_list_view(inner) <==> has_list_view(TypeForm::DictionaryOf(Box::new(inner))),
        has_list_view(*field.data_type) || has_list_view(*other.data_type) <==> has_list_view(
            TypeForm::RunEndsOf(field, other),
        ),
        0 <= i < fields.len() && has_list_view(*fields[i].data_type) ==> has_list_view(
            TypeForm::StructOf(fields),
        ) && has_list_view(TypeForm::UnionOf(fields)) && any_list_view(fields),
        (forall|k: int| 0 <= k < fields.len() ==> !has_list_view(*(#[trigger] fields[k]).data_type))
            ==> !has_list_view(TypeForm::StructOf(fields)) && !has_list_view(
            TypeForm::UnionOf(fields),
        ) && !any_list_view(fields),
{
    if 0 <= i < fields.len() && has_list_view(*fields[i].data_type) {
        lemma_view_is_found(fields, i);
    }
    if forall|k: int| 0 <= k < fields.len() ==> !has_list_view(*(#[trigger] fields[k]).data_type) {
        lemma_no_view_is_found(fields);
    }
}

/// A list of views in a field is found among the fields.
proof fn lemma_view_is_found(fields: Seq<FieldForm>, i: int)
    requires
        0 <= i < fields.len(),
        has_list_view(*fields[i].data_type),
    ensures
        any_list_view(fields),
    decreases fields.len(),
{
    if i < fields.len() - 1 {
        assert(fields.drop_last()[i] == fields[i]);
        lemma_view_is_found(fields.drop_last(), i);
    }
}

/// Where no field has a list of views, none is found.
proof fn lemma_no_view_is_found(fields: Seq<FieldForm>)
    requires
        forall|k: int| 0 <= k < fields.len() ==> !has_list_view(*(#[trigger] fields[k]).data_type),
    ensures
        !any_list_view(fields),
    decreases fields.len(),
{
    if fields.len() > 0 {
        let less = fields.drop_last();
        assert forall|k: int| 0 <= k < less.len() implies !has_list_view(
            *(#[trigger] less[k]).data_type,
        ) by {
            assert(less[k] == fields[k]);
        }
        lemma_no_view_is_found(less);
        assert(!has_list_view(*fields[fields.len() - 1].data_type));
    }
}

/// The room of fields is that of each of them, taken together, and the room of a
/// field is at least that of its name and of its type. The room of a type that
/// is made up of fields is at least theirs.
pub proof fn rooms_add_up(
    fields: Seq<FieldForm>,
    last: FieldForm,
    field: FieldForm,
    inner: TypeForm,
    zone: Seq<char>,
)
    ensures
        fields_room(Seq::<FieldForm>::empty()) == 0,
        fields_room(fields.push(last)) == fields_room(fields) + field_room(last),
        field_room(field) >= encode_utf8(field.name).len() + type_room(*field.data_type),
        field_room(field) > type_room(*field.data_type),
        type_room(TypeForm::ListOf(field)) == field_room(field),
        type_room(TypeForm::LargeListOf(field)) == field_room(field),
        type_room(TypeForm::FixedSizeListOf(field)) == field_room(field),
        type_room(TypeForm::MapOf(field)) == field_room(field),
        type_room(TypeForm::RunEndsOf(field, last)) == field_room(field) + field_room(last),
        type_room(TypeForm::StructOf(fields)) == fields_room(fields),
        type_room(TypeForm::UnionOf(fields)) == fields_room(fields),
        type_room(TypeForm::DictionaryOf(Box::new(inner))) == type_room(inner),
        type_room(TypeForm::Zoned(Some(zone))) == encode_utf8(zone).len(),
{
    assert(fields.push(last).drop_last() =~= fields);
}

/// The room of metadata is at least that of its texts.
pub proof fn metadata_takes_room(
    entries: Seq<(Seq<char>, Seq<char>)>,
    entry: (Seq<char>, Seq<char>),
)
    ensures
        metadata_room(Seq::<(Seq<char>, Seq<char>)>::empty().to_multiset()) == 0,
        metadata_room(entries.push(entry).to_multiset()) >= metadata_room(entries.to_multiset())
            + encode_utf8(entry.0).len() + encode_utf8(entry.1).len(),
{
    lemma_metadata_room(entries);
    lemma_metadata_room(entries.push(entry));
    lemma_metadata_room(Seq::empty());
    let f = |room: nat, entry: (Seq<char>, Seq<char>)| room + entry_room(entry);
    reveal_with_fuel(Seq::fold_left, 2);
    assert(entries.push(entry).drop_last() =~= entries);
    assert(Seq::<(Seq<char>, Seq<char>)>::empty().fold_left(0nat, f) == 0);
    assert(entries.push(entry).fold_left(0nat, f) == entries.fold_left(0nat, f) + entry_room(
        entry,
    ));
}

/// A schema with a list of views in the type of a field is not encoded. One of
/// up to a million plain fields with names of up to a thousand bytes, without
/// metadata, is.
pub proof fn ordinary_schema_is_encoded(
    schema: &Schema,
    r: Option<Result<Vec<u8>, String>>,
    i: int,
)
    requires
        call_ensures(encode_schema, (schema,), r),
    ensures
        0 <= i < schema_form(*schema).len() && has_list_view(*schema_form(*schema)[i].data_type)
            ==> r is None,
        ({
            &&& schema_form(*schema).len() <= 1_000_000
            &&& metadata_of(*schema) == Multiset::<(Seq<char>, Seq<char>)>::empty()
            &&& forall|k: int|
                0 <= k < schema_form(*schema).len() ==> is_ordinary(
                    #[trigger] schema_form(*schema)[k],
                )
        }) ==> (r matches Some(Ok(bytes)) && bytes@ == ipc_form(*schema)),
{
    let forms = schema_form(*schema);
    if 0 <= i < forms.len() && has_list_view(*forms[i].data_type) {
        lemma_view_is_found(forms, i);
    }
    if {
        &&& forms.len() <= 1_000_000
        &&& metadata_of(*schema) == Multiset::<(Seq<char>, Seq<char>)>::empty()
        &&& forall|k: int| 0 <= k < forms.len() ==> is_ordinary(#[trigger] forms[k])
    } {
        lemma_ordinary_room(forms);
        lemma_no_metadata();
        assert forall|k: int| 0 <= k < forms.len() implies !has_list_view(
            *(#[trigger] forms[k]).data_type,
        ) by {
            assert(is_ordinary(forms[k]));
        }
        lemma_no_view_is_found(forms);
    }
}

/// Whether a field is of a plain type, has a name of up to a thousand bytes, and
/// no metadata.
pub open spec fn is_ordinary(field: FieldForm) -> bool {
    &&& *field.data_type is Plain
    &&& encode_utf8(field.name).len() <= 1000
    &&& field.metadata == Multiset::<(Seq<char>, Seq<char>)>::empty()
}

/// No metadata takes no room.
proof fn lemma_no_metadata()
    ensures
        metadata_room(Multiset::empty()) == 0,
{
    let none = Seq::<(Seq<char>, Seq<char>)>::empty();
    metadata_takes_room(none, arbitrary());
    none.to_multiset_ensures();
    assert(none.to_multiset() =~= Multiset::empty());
}

/// The room of ordinary fields.
proof fn lemma_ordinary_room(fields: Seq<FieldForm>)
    requires
        forall|k: int| 0 <= k < fields.len() ==> is_ordinary(#[trigger] fields[k]),
    ensures
        fields_room(fields) <= 1320 * fields.len(),
    decreases fields.len(),
{
    if fields.len() > 0 {
        let less = fields.drop_last();
        assert forall|k: int| 0 <= k < less.len() implies is_ordinary(#[trigger] less[k]) by {
            assert(less[k] == fields[k]);
        }
        lemma_ordinary_room(less);
        lemma_no_metadata();
        let last = fields[fields.len() - 1];
        assert(is_ordinary(last));
        assert(type_room(*last.data_type) == 0);
        assert(field_room(last) <= 1320);
    }
}

/// The IPC form of a schema is what it is encoded as.
pub proof fn schema_is_encoded(schema: &Schema, r: Result<Vec<u8>, String>)
    requires
        call_ensures(schema_ipc, (schema,), r),
    ensures
        r matches Ok(bytes) && bytes@ == ipc_form(*schema),
{
}

} // verus!
