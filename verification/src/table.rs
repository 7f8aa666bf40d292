//! Query results as Arrow tables: the table that stands in for results without
//! columns or without batches, and the size of a table.

use crate::text;
use arrow::array::{RecordBatch, StringArray};
use arrow::datatypes::{DataType, Field, Schema};
use std::sync::Arc;
use vstd::prelude::*;
use vstd::string::*;
use vstd::utf8::*;

verus! {

/// The schema of an Arrow table.
#[verifier::external_type_specification]
#[verifier::external_body]
pub struct ExSchema(arrow::datatypes::Schema);

/// A batch of rows of an Arrow table.
#[verifier::external_body]
pub struct Batch {
    pub rows: arrow::array::RecordBatch,
}

/// The type of a column, as far as it decides how cells are read.
#[derive(Clone, Copy, Debug, PartialEq, Eq, Structural)]
pub enum ColumnKind {
    Int8,
    Int16,
    Int32,
    Int64,
    UInt8,
    UInt16,
    UInt32,
    UInt64,
    Float32,
    Float64,
    Boolean,
    Utf8,
    LargeUtf8,
    Other,
}

/// What a cell holds. Floating-point numbers stand as their 64 bits.
pub enum CellForm {
    Null,
    Signed(i64),
    Unsigned(u64),
    FloatBits(u64),
    Boolean(bool),
    Text(Seq<char>),
    Other,
}

/// The fields of a schema: of each its name, its type, and whether it may hold
/// nulls.
pub uninterp spec fn schema_fields(schema: Schema) -> Seq<(Seq<char>, ColumnKind, bool)>;

/// The schema of a batch.
pub uninterp spec fn batch_schema(batch: Batch) -> Schema;

/// The fields of the schema of a batch.
pub open spec fn batch_fields(batch: Batch) -> Seq<(Seq<char>, ColumnKind, bool)> {
    schema_fields(batch_schema(batch))
}

/// The number of rows of a batch.
pub uninterp spec fn row_count(batch: Batch) -> nat;

/// The cells of a batch, column by column.
pub uninterp spec fn batch_cells(batch: Batch) -> Seq<Seq<CellForm>>;

/// A column of texts.
#[derive(Debug)]
pub struct TextColumn {
    pub name: String,
    pub nullable: bool,
    pub values: Vec<String>,
}

impl TextColumn {
    /// The field of the column.
    pub open spec fn field(self) -> (Seq<char>, ColumnKind, bool) {
        (self.name@, ColumnKind::Utf8, self.nullable)
    }

    /// The cells of the column.
    pub open spec fn cells(self) -> Seq<CellForm> {
        self.values.deep_view().map_values(|s: Seq<char>| CellForm::Text(s))
    }

    /// How many bytes the texts take.
    pub open spec fn byte_len(self) -> nat {
        self.values.deep_view().fold_left(
            0nat,
            |sum: nat, s: Seq<char>| sum + encode_utf8(s).len(),
        )
    }
}

/// Whether the columns are the columns of a table: at least one, all of the
/// same length.
pub open spec fn is_table(columns: Seq<TextColumn>) -> bool {
    &&& columns.len() > 0
    &&& forall|i: int|
        0 <= i < columns.len() ==> (#[trigger] columns[i]).values.len() == columns[0].values.len()
}

/// `arrow::array::RecordBatch::try_new` on columns of type `Utf8` without
/// nulls, with the schema of those columns: a batch that holds them where
/// there is at least one and all are of the same length, and an error where
/// not. The text of the error is not stated. The offsets of such a column
/// are 32 bits wide, so its texts may take no more bytes than these can count.
#[verifier::external_body]
fn text_batch(columns: &Vec<TextColumn>) -> (r: Result<(Arc<Schema>, Batch), String>)
    requires
        forall|i: int|
            0 <= i < columns.len() ==> (#[trigger] columns[i]).byte_len() <= i32::MAX,
    ensures
        r is Ok <==> is_table(columns@),
        r matches Ok((schema, batch)) ==> {
            let fields = Seq::new(columns@.len(), |i: int| columns@[i].field());
            &&& schema_fields(*schema) == fields
            &&& batch_schema(batch) == *schema
            &&& row_count(batch) == columns@[0].values.len()
            &&& batch_cells(batch) == Seq::new(columns@.len(), |i: int| columns@[i].cells())
        },
{
    let fields: Vec<Field> =
        columns.iter().map(|c| Field::new(c.name.as_str(), DataType::Utf8, c.nullable)).collect();
    let schema = Arc::new(Schema::new(fields));
    let arrays: Vec<Arc<dyn arrow::array::Array>> =
        columns.iter().map(|c| Arc::new(StringArray::from(c.values.clone())) as _).collect();
    match RecordBatch::try_new(schema.clone(), arrays) {
        Ok(rows) => Ok((schema, Batch { rows })),
        Err(e) => Err(e.to_string()),
    }
}

impl Batch {
    /// `arrow::array::RecordBatch::schema`: the schema of the batch.
    #[verifier::external_body]
    fn schema(&self) -> (r: Arc<Schema>)
        ensures
            *r == batch_schema(*self),
    {
        self.rows.schema()
    }

    /// `arrow::array::RecordBatch::num_rows`: the number of rows of the batch.
    #[verifier::external_body]
    pub(crate) fn num_rows(&self) -> (r: usize)
        ensures
            r == row_count(*self),
    {
        self.rows.num_rows()
    }

    /// `arrow::array::RecordBatch::get_array_memory_size`: how many bytes the
    /// columns of the batch take in memory. This depends on what was allocated
    /// for them, so nothing is said of it.
    #[verifier::external_body]
    fn memory_size(&self) -> usize {
        self.rows.get_array_memory_size()
    }
}

/// `arrow::datatypes::Schema::fields`, of which only the number is asked.
#[verifier::external_body]
fn field_count(schema: &Schema) -> (r: usize)
    ensures
        r == schema_fields(*schema).len(),
{
    schema.fields().len()
}

/// The size of a batch: its rows, and the bytes it takes in memory.
#[derive(Debug)]
pub struct BatchSize {
    pub rows: usize,
    pub bytes: usize,
}

/// The rows of the batches, taken together.
pub open spec fn total_rows(sizes: Seq<BatchSize>) -> nat
    decreases sizes.len(),
{
    if sizes.len() == 0 {
        0
    } else {
        total_rows(sizes.drop_last()) + sizes.last().rows as nat
    }
}

/// The bytes of the batches, taken together.
pub open spec fn total_bytes(sizes: Seq<BatchSize>) -> nat
    decreases sizes.len(),
{
    if sizes.len() == 0 {
        0
    } else {
        total_bytes(sizes.drop_last()) + sizes.last().bytes as nat
    }
}

/// The rows of Arrow batches, taken together.
pub open spec fn table_rows(batches: Seq<Batch>) -> nat
    decreases batches.len(),
{
    if batches.len() == 0 {
        0
    } else {
        table_rows(batches.drop_last()) + row_count(batches.last())
    }
}

/// `n` as it is counted in a `usize`, which starts anew where it is full.
pub open spec fn counted(n: nat) -> usize {
    (n % (usize::MAX as nat + 1)) as usize
}

/// The rows and the bytes of the batches, taken together. A sum that is too
/// large wraps.
pub fn sum_sizes(sizes: &Vec<BatchSize>) -> (r: (usize, usize))
    ensures
        r.0 == counted(total_rows(sizes@)),
        r.1 == counted(total_bytes(sizes@)),
{
    let mut rows: usize = 0;
    let mut bytes: usize = 0;
    let mut i: usize = 0;
    proof {
        lemma_counted(0, 0);
    }
    while i < sizes.len()
        invariant
            i <= sizes.len(),
            rows == counted(total_rows(sizes@.take(i as int))),
            bytes == counted(total_bytes(sizes@.take(i as int))),
        decreases sizes.len() - i,
    {
        proof {
            let next = sizes@.take(i + 1);
            assert(next.drop_last() =~= sizes@.take(i as int));
            lemma_counted(total_rows(sizes@.take(i as int)), sizes[i as int].rows);
            lemma_counted(total_bytes(sizes@.take(i as int)), sizes[i as int].bytes);
        }
        rows = rows.wrapping_add(sizes[i].rows);
        bytes = bytes.wrapping_add(sizes[i].bytes);
        i = i + 1;
    }
    assert(sizes@.take(i as int) =~= sizes@);
    (rows, bytes)
}

/// Counting on from a count.
proof fn lemma_counted(n: nat, more: usize)
    ensures
        counted((n + more) as nat) == (if counted(n) + more > usize::MAX {
            counted(n) + more - (usize::MAX + 1)
        } else {
            counted(n) + more
        }),
        n <= usize::MAX ==> counted(n) == n,
{
    let m = usize::MAX as int + 1;
    let q = n as int / m;
    let r = n as int % m;
    vstd::arithmetic::div_mod::lemma_fundamental_div_mod(n as int, m);
    if r + more >= m {
        assert(n + more == (q + 1) * m + (r + more - m)) by (nonlinear_arith)
            requires
                n == m * q + r,
        ;
        vstd::arithmetic::div_mod::lemma_fundamental_div_mod_converse(
            n + more,
            m,
            q + 1,
            r + more - m,
        );
    } else {
        assert(n + more == q * m + (r + more)) by (nonlinear_arith)
            requires
                n == m * q + r,
        ;
        vstd::arithmetic::div_mod::lemma_fundamental_div_mod_converse(n + more, m, q, r + more);
    }
    if n < m {
        vstd::arithmetic::div_mod::lemma_small_mod(n, m as nat);
    }
}

/// Whether `bytes` is what the batch answers when it is asked how many bytes it
/// takes in memory.
pub closed spec fn is_memory_size(batch: Batch, bytes: usize) -> bool {
    call_ensures(Batch::memory_size, (&batch,), bytes)
}

/// Whether these are sizes of the batches: each with the rows of its batch, and
/// with the bytes that the batch answered when it was asked.
pub open spec fn measures(batches: Seq<Batch>, sizes: Seq<BatchSize>) -> bool {
    &&& sizes.len() == batches.len()
    &&& forall|i: int|
        0 <= i < sizes.len() ==> {
            &&& (#[trigger] sizes[i]).rows == row_count(batches[i])
            &&& is_memory_size(batches[i], sizes[i].bytes)
        }
}

/// The size of each batch.
fn measure(batches: &[Batch]) -> (r: Vec<BatchSize>)
    ensures
        measures(batches@, r@),
{
    let mut out: Vec<BatchSize> = Vec::new();
    let mut i: usize = 0;
    while i < batches.len()
        invariant
            i <= batches.len(),
            out.len() == i,
            forall|k: int|
                0 <= k < i ==> {
                    &&& (#[trigger] out[k]).rows == row_count(batches[k])
                    &&& is_memory_size(batches[k], out[k].bytes)
                },
        decreases batches.len() - i,
    {
        let batch: &Batch = &batches[i];
        out.push(BatchSize { rows: batch.num_rows(), bytes: batch.memory_size() });
        i = i + 1;
    }
    out
}

/// Whether these are the rows, the columns and the bytes of an Arrow table. The
/// bytes are the sum of those that the batches take in memory, of which nothing
/// more is said.
pub open spec fn is_stats(
    schema: Schema,
    batches: Seq<Batch>,
    stats: (usize, usize, usize),
) -> bool {
    &&& stats.0 == counted(table_rows(batches))
    &&& stats.1 == schema_fields(schema).len()
    &&& exists|sizes: Seq<BatchSize>| #[trigger]
        measures(batches, sizes) && stats.2 == counted(total_bytes(sizes))
}

/// The rows, the columns and the bytes of an Arrow table. A sum that is too
/// large wraps.
pub fn table_stats(schema: &Schema, batches: &[Batch]) -> (r: (usize, usize, usize))
    ensures
        is_stats(*schema, batches@, r),
        table_rows(batches@) <= usize::MAX ==> r.0 == table_rows(batches@),
{
    let columns: usize = field_count(schema);
    let sizes: Vec<BatchSize> = measure(batches);
    let (rows, bytes) = sum_sizes(&sizes);
    proof {
        measured_rows(batches@, sizes@);
        lemma_counted(table_rows(batches@), 0);
    }
    (rows, columns, bytes)
}

/// The rows and the bytes of two lists of batches, one behind the other, are
/// the sums of those of the two lists.
pub proof fn sizes_add_up(
    batches: Seq<Batch>,
    sizes: Seq<BatchSize>,
    more: Seq<Batch>,
    more_sizes: Seq<BatchSize>,
)
    requires
        measures(batches, sizes),
        measures(more, more_sizes),
    ensures
        measures(batches + more, sizes + more_sizes),
        total_rows(sizes + more_sizes) == total_rows(sizes) + total_rows(more_sizes),
        total_bytes(sizes + more_sizes) == total_bytes(sizes) + total_bytes(more_sizes),
        table_rows(batches + more) == table_rows(batches) + table_rows(more),
    decreases more.len(),
{
    if more.len() == 0 {
        assert(sizes + more_sizes =~= sizes);
        assert(batches + more =~= batches);
    } else {
        sizes_add_up(batches, sizes, more.drop_last(), more_sizes.drop_last());
        assert((sizes + more_sizes).drop_last() =~= sizes + more_sizes.drop_last());
        assert((batches + more).drop_last() =~= batches + more.drop_last());
    }
}

/// Whether `left` tells what is left of `sum` in front of each of the amounts
/// and behind the last: nothing there.
pub open spec fn leaves(amounts: Seq<nat>, sum: nat, left: Seq<int>) -> bool {
    &&& left.len() == amounts.len() + 1
    &&& left[0] == sum
    &&& left.last() == 0
    &&& forall|i: int| 0 <= i < amounts.len() ==> left[i] == left[i + 1] + #[trigger] amounts[i]
}

/// Whether `amounts` add up to `sum`.
pub open spec fn adds_up(amounts: Seq<nat>, sum: nat) -> bool {
    exists|left: Seq<int>| leaves(amounts, sum, left)
}

/// Every batch of a table counts: its rows are the rows of all of its batches
/// added up, and its bytes are what each of its batches answers when it is
/// asked how many it takes in memory, added up. A sum that is too large for a
/// `usize` starts anew.
pub proof fn every_batch_counts(
    schema: &Schema,
    batches: &[Batch],
    stats: (usize, usize, usize),
)
    requires
        call_ensures(table_stats, (schema, batches), stats),
    ensures
        stats.1 == schema_fields(*schema).len(),
        exists|rows: Seq<nat>, bytes: Seq<nat>, row_sum: nat, byte_sum: nat|
            {
                &&& rows.len() == batches@.len() && bytes.len() == batches@.len()
                &&& forall|i: int|
                    0 <= i < batches@.len() ==> #[trigger] rows[i] == row_count(batches@[i])
                &&& forall|i: int|
                    0 <= i < batches@.len() ==> bytes[i] <= usize::MAX && is_memory_size(
                        batches@[i],
                        #[trigger] bytes[i] as usize,
                    )
                &&& #[trigger] adds_up(rows, row_sum) && stats.0 == row_sum % (usize::MAX as nat
                    + 1)
                &&& #[trigger] adds_up(bytes, byte_sum) && stats.2 == byte_sum % (usize::MAX as nat
                    + 1)
            },
{
    stats_count_every_batch(batches@, stats.0, stats.2);
}

/// The rows and the bytes of a table are those of all of its batches added up.
pub(crate) proof fn stats_count_every_batch(
    batches: Seq<Batch>,
    all_rows: usize,
    all_bytes: usize,
)
    requires
        all_rows == counted(table_rows(batches)),
        exists|sizes: Seq<BatchSize>| #[trigger]
            measures(batches, sizes) && all_bytes == counted(total_bytes(sizes)),
    ensures
        exists|rows: Seq<nat>, bytes: Seq<nat>, row_sum: nat, byte_sum: nat|
            {
                &&& rows.len() == batches.len() && bytes.len() == batches.len()
                &&& forall|i: int|
                    0 <= i < batches.len() ==> #[trigger] rows[i] == row_count(batches[i])
                &&& forall|i: int|
                    0 <= i < batches.len() ==> bytes[i] <= usize::MAX && is_memory_size(
                        batches[i],
                        #[trigger] bytes[i] as usize,
                    )
                &&& #[trigger] adds_up(rows, row_sum) && all_rows == row_sum % (usize::MAX as nat
                    + 1)
                &&& #[trigger] adds_up(bytes, byte_sum) && all_bytes == byte_sum % (usize::MAX as nat
                    + 1)
            },
{
    let sizes = choose|sizes: Seq<BatchSize>| #[trigger]
        measures(batches, sizes) && all_bytes == counted(total_bytes(sizes));
    let rows = Seq::new(sizes.len(), |i: int| sizes[i].rows as nat);
    let bytes = Seq::new(sizes.len(), |i: int| sizes[i].bytes as nat);
    measured_rows(batches, sizes);
    lemma_adds_up(sizes);
    lemma_counted(total_rows(sizes), 0);
    lemma_counted(total_bytes(sizes), 0);
    assert forall|i: int| 0 <= i < batches.len() implies bytes[i] <= usize::MAX && is_memory_size(
        batches[i],
        #[trigger] bytes[i] as usize,
    ) by {
        assert(is_memory_size(batches[i], sizes[i].bytes));
    }
    assert(adds_up(rows, total_rows(sizes)) && adds_up(bytes, total_bytes(sizes)));
}

/// Any answer of a batch that is asked for its bytes is one of its sizes in
/// memory, and nothing else is.
proof fn memory_size_is_the_answer(batch: &Batch, bytes: usize)
    ensures
        is_memory_size(*batch, bytes) <==> call_ensures(Batch::memory_size, (batch,), bytes),
{
}

/// Of one list of amounts there is one sum, and an amount behind the others
/// counts in full.
pub proof fn sums_are_unique(amounts: Seq<nat>, sum: nat, other: nat, last: nat)
    requires
        adds_up(amounts, sum),
    ensures
        adds_up(amounts, other) ==> other == sum,
        adds_up(amounts.push(last), sum + last),
    decreases amounts.len(),
{
    let left = choose|left: Seq<int>| leaves(amounts, sum, left);
    let longer = amounts.push(last);
    let more = Seq::new(longer.len() + 1, |i: int| if i < left.len() { left[i] + last } else { 0 });
    assert forall|i: int| 0 <= i < longer.len() implies more[i] == more[i + 1]
        + #[trigger] longer[i] by {
        if i < amounts.len() {
            assert(longer[i] == amounts[i]);
        }
    }
    assert(leaves(longer, sum + last, more));
    if adds_up(amounts, other) {
        let rest = choose|rest: Seq<int>| leaves(amounts, other, rest);
        lemma_same_left(amounts, sum, other, left, rest, amounts.len() as int);
    }
}

/// What is left of two sums of the same amounts is the same at every place.
proof fn lemma_same_left(
    amounts: Seq<nat>,
    sum: nat,
    other: nat,
    left: Seq<int>,
    rest: Seq<int>,
    back: int,
)
    requires
        leaves(amounts, sum, left),
        leaves(amounts, other, rest),
        0 <= back <= amounts.len(),
    ensures
        left[amounts.len() - back] == rest[amounts.len() - back],
    decreases back,
{
    if back > 0 {
        lemma_same_left(amounts, sum, other, left, rest, back - 1);
        let i = amounts.len() - back;
        assert(left[i] == left[i + 1] + amounts[i]);
        assert(rest[i] == rest[i + 1] + amounts[i]);
    }
}

/// The totals add up.
proof fn lemma_adds_up(sizes: Seq<BatchSize>)
    ensures
        adds_up(Seq::new(sizes.len(), |i: int| sizes[i].rows as nat), total_rows(sizes)),
        adds_up(Seq::new(sizes.len(), |i: int| sizes[i].bytes as nat), total_bytes(sizes)),
{
    let n = sizes.len();
    let rows_left = Seq::new(n + 1, |i: int| total_rows(sizes) - total_rows(sizes.take(i)));
    let bytes_left = Seq::new(n + 1, |i: int| total_bytes(sizes) - total_bytes(sizes.take(i)));
    assert(sizes.take(n as int) =~= sizes);
    assert(sizes.take(0).len() == 0);
    assert forall|i: int| 0 <= i < n implies {
        &&& rows_left[i] == rows_left[i + 1] + sizes[i].rows
        &&& bytes_left[i] == #[trigger] bytes_left[i + 1] + sizes[i].bytes
    } by {
        assert(sizes.take(i + 1).drop_last() =~= sizes.take(i));
    }
    let rows = Seq::new(sizes.len(), |i: int| sizes[i].rows as nat);
    let bytes = Seq::new(sizes.len(), |i: int| sizes[i].bytes as nat);
    assert forall|i: int| 0 <= i < n implies rows_left[i] == rows_left[i + 1]
        + #[trigger] rows[i] by {
        assert(bytes_left[i] == bytes_left[i + 1] + sizes[i].bytes);
    }
    assert forall|i: int| 0 <= i < n implies bytes_left[i] == bytes_left[i + 1]
        + #[trigger] bytes[i] by {
    }
    assert(leaves(rows, total_rows(sizes), rows_left));
    assert(leaves(bytes, total_bytes(sizes), bytes_left));
}

/// The rows of the sizes are the rows of the batches.
pub proof fn measured_rows(batches: Seq<Batch>, sizes: Seq<BatchSize>)
    requires
        measures(batches, sizes),
    ensures
        total_rows(sizes) == table_rows(batches),
    decreases sizes.len(),
{
    if sizes.len() > 0 {
        measured_rows(batches.drop_last(), sizes.drop_last());
    }
}

/// The result of a query: its schema and its batches.
pub struct Table {
    pub schema: Arc<Schema>,
    pub batches: Vec<Batch>,
}

impl Table {
    /// Whether this is the table that stands for a result without columns or
    /// without batches: one row whose only column, "status", holds "ok".
    pub open spec fn is_status(self) -> bool {
        &&& schema_fields(*self.schema) == seq![("status"@, ColumnKind::Utf8, false)]
        &&& self.batches.len() == 1
        &&& batch_fields(self.batches[0]) == seq![("status"@, ColumnKind::Utf8, false)]
        &&& row_count(self.batches[0]) == 1
        &&& batch_cells(self.batches[0]) == seq![seq![CellForm::Text("ok"@)]]
    }

    /// Whether there is a batch, and the schema is that of the first.
    pub open spec fn wf(self) -> bool {
        self.batches.len() > 0 && *self.schema == batch_schema(self.batches[0])
    }
}

/// The table that stands for a result without columns or without batches.
pub fn status_table() -> (r: Table)
    ensures
        r.wf(),
        r.is_status(),
{
    let column = TextColumn {
        name: "status".to_owned(),
        nullable: false,
        values: vec!["ok".to_owned()],
    };
    let columns: Vec<TextColumn> = vec![column];
    proof {
        let values = columns[0].values.deep_view();
        assert(values =~= seq!["ok"@]);
        assert(columns[0].byte_len() <= i32::MAX) by {
            reveal_with_fuel(Seq::fold_left, 2);
            reveal_strlit("ok");
            is_ascii_chars_encode_utf8("ok"@);
            assert(values.drop_last() =~= Seq::<Seq<char>>::empty());
        }
    }
    match text_batch(&columns) {
        Ok((schema, batch)) => {
            let r = Table { schema, batches: vec![batch] };
            assert(schema_fields(*r.schema) =~= seq![("status"@, ColumnKind::Utf8, false)]);
            assert(batch_fields(r.batches[0]) =~= seq![("status"@, ColumnKind::Utf8, false)]);
            proof {
                assert(columns[0].cells() =~= seq![CellForm::Text("ok"@)]);
                assert(batch_cells(r.batches[0]) =~= seq![seq![CellForm::Text("ok"@)]]);
            }
            r
        },
        Err(_) => {
            assert(is_table(columns@));
            vstd::pervasive::unreached()
        },
    }
}

/// What is left to do once a query was run.
pub enum QueryStep {
    /// The query failed with this message.
    Failed(String),
    /// The result has no columns, and this table stands for it.
    Finished(Table),
    /// The batches of the result are to be fetched.
    Export,
}

/// The query to run for `cypher`: its text, trimmed. A blank text is refused.
pub fn checked_query(cypher: &str) -> (r: Result<String, String>)
    ensures
        match r {
            Ok(query) => !text::is_blank(cypher@) && query@ == text::trimmed(cypher@),
            Err(e) => text::is_blank(cypher@) && e@ == "empty query"@,
        },
{
    let query: &str = cypher.trim();
    if query.is_empty() {
        return Err("empty query".to_owned());
    }
    Ok(query.to_owned())
}

/// What to do after a query was run, which gave the number of the columns of
/// its result or failed.
pub fn after_query(outcome: Result<usize, String>) -> (r: QueryStep)
    ensures
        match outcome {
            Ok(columns) => if columns == 0 {
                r matches QueryStep::Finished(table) && table.wf() && table.is_status()
            } else {
                r is Export
            },
            Err(e) => r matches QueryStep::Failed(message) && message@ == "ladybug query failed: "@
                + e@,
        },
{
    match outcome {
        Ok(columns) => if columns == 0 {
            QueryStep::Finished(status_table())
        } else {
            QueryStep::Export
        },
        Err(e) => QueryStep::Failed("ladybug query failed: ".to_owned().concat(e.as_str())),
    }
}

/// The table of a result with columns, once its batches were fetched or could
/// not be. The batches are the table, with the schema of the first; where there
/// is none, the status table stands for the result.
pub fn after_export(outcome: Result<Vec<Batch>, String>) -> (r: Result<Table, String>)
    ensures
        match outcome {
            Ok(batches) => {
                &&& r matches Ok(table)
                &&& table.wf()
                &&& if batches.len() > 0 {
                    table.batches@ == batches@ && *table.schema == batch_schema(batches[0])
                } else {
                    table.is_status()
                }
            },
            Err(e) => r matches Err(message) && message@ == "ladybug arrow export failed: "@ + e@,
        },
{
    match outcome {
        Ok(batches) => if batches.len() > 0 {
            Ok(Table { schema: batches[0].schema(), batches })
        } else {
            Ok(status_table())
        },
        Err(e) => Err("ladybug arrow export failed: ".to_owned().concat(e.as_str())),
    }
}

/// The query that is run is the text that was given, trimmed, and a text of
/// which nothing is left is refused.
pub proof fn given_query_is_run(cypher: &str, r: Result<String, String>)
    requires
        call_ensures(checked_query, (cypher,), r),
    ensures
        r matches Ok(query) ==> query@ == text::trimmed(cypher@) && query@.len() > 0,
        r matches Err(e) ==> e@ == "empty query"@ && text::trimmed(cypher@).len() == 0,
{
}

/// A query that fails, or whose batches cannot be fetched, is told by its
/// reason. A result without columns or without batches is the status table: one
/// row, with "ok" under "status". Any other result is its batches, all of them
/// and in order, with the schema of the first.
pub proof fn results_are_tables(
    outcome: Result<usize, String>,
    step: QueryStep,
    fetched: Result<Vec<Batch>, String>,
    r: Result<Table, String>,
)
    requires
        call_ensures(after_query, (outcome,), step),
        call_ensures(after_export, (fetched,), r),
    ensures
        outcome matches Err(e) ==> (step matches QueryStep::Failed(message) && message@
            == "ladybug query failed: "@ + e@),
        outcome matches Ok(columns) ==> columns > 0 ==> step is Export,
        outcome matches Ok(columns) ==> columns == 0 ==> (step matches QueryStep::Finished(table)
            && table.batches.len() == 1 && row_count(table.batches[0]) == 1 && batch_cells(
            table.batches[0],
        ) == seq![seq![CellForm::Text("ok"@)]] && schema_fields(*table.schema) == seq![
            ("status"@, ColumnKind::Utf8, false),
        ]),
        fetched matches Err(e) ==> (r matches Err(message) && message@
            == "ladybug arrow export failed: "@ + e@),
        fetched matches Ok(batches) ==> batches.len() > 0 ==> (r matches Ok(table)
            && table.batches@ == batches@ && *table.schema == batch_schema(batches[0])),
        fetched matches Ok(batches) ==> batches.len() == 0 ==> (r matches Ok(table)
            && table.batches.len() == 1 && row_count(table.batches[0]) == 1 && batch_cells(
            table.batches[0],
        ) == seq![seq![CellForm::Text("ok"@)]] && schema_fields(*table.schema) == seq![
            ("status"@, ColumnKind::Utf8, false),
        ]),
{
}

/// The rows and the bytes of the sizes are those of all of them added up. A sum
/// that is too large for a `usize` starts anew.
pub proof fn every_size_counts(
    sizes: &Vec<BatchSize>,
    r: (usize, usize),
    row_sum: nat,
    byte_sum: nat,
)
    requires
        call_ensures(sum_sizes, (sizes,), r),
        adds_up(Seq::new(sizes@.len(), |i: int| sizes@[i].rows as nat), row_sum),
        adds_up(Seq::new(sizes@.len(), |i: int| sizes@[i].bytes as nat), byte_sum),
    ensures
        r.0 == row_sum % (usize::MAX as nat + 1),
        r.1 == byte_sum % (usize::MAX as nat + 1),
{
    lemma_adds_up(sizes@);
    sums_are_unique(
        Seq::new(sizes@.len(), |i: int| sizes@[i].rows as nat),
        row_sum,
        total_rows(sizes@),
        0,
    );
    sums_are_unique(
        Seq::new(sizes@.len(), |i: int| sizes@[i].bytes as nat),
        byte_sum,
        total_bytes(sizes@),
        0,
    );
}

/// The table that stands for a result without columns or without batches has
/// one row, with "ok" under "status", a column of texts that are never null.
pub proof fn status_is_ok(r: Table)
    requires
        call_ensures(status_table, (), r),
    ensures
        schema_fields(*r.schema) == seq![("status"@, ColumnKind::Utf8, false)],
        r.batches.len() == 1,
        *r.schema == batch_schema(r.batches[0]),
        row_count(r.batches[0]) == 1,
        batch_cells(r.batches[0]) == seq![seq![CellForm::Text("ok"@)]],
{
}

} // verus!
