//! The cells of an Arrow table, row by row, as they are written as JSON.

use crate::table;
use crate::table::{Batch, CellForm, ColumnKind};
use arrow::array::Array;
use arrow::datatypes::DataType;
use vstd::prelude::*;
use vstd::string::*;

verus! {

/// A cell that was read. A floating-point number is held as its 64 bits.
#[derive(Debug)]
pub enum Cell {
    Null,
    Signed(i64),
    Unsigned(u64),
    FloatBits(u64),
    Boolean(bool),
    Text(String),
}

impl Cell {
    /// What the cell holds.
    pub open spec fn form(self) -> CellForm {
        match self {
            Cell::Null => CellForm::Null,
            Cell::Signed(n) => CellForm::Signed(n),
            Cell::Unsigned(n) => CellForm::Unsigned(n),
            Cell::FloatBits(bits) => CellForm::FloatBits(bits),
            Cell::Boolean(b) => CellForm::Boolean(b),
            Cell::Text(s) => CellForm::Text(s@),
        }
    }
}

/// Why a cell cannot be read.
#[derive(Debug)]
pub enum CellError {
    /// Columns of this type are not written as JSON.
    Unsupported(String),
    /// The column is one of narrow numbers or of large texts, and only wide
    /// numbers and ordinary texts are read.
    Narrow,
}

/// Whether the batch has a cell at this column and this row.
pub open spec fn has_cell(batch: Batch, column: int, row: int) -> bool {
    0 <= column < table::batch_fields(batch).len() && 0 <= row < table::row_count(batch)
}

impl Batch {
    /// `arrow::array::RecordBatch::schema`, of which only the names of the
    /// fields are asked.
    #[verifier::external_body]
    fn column_names(&self) -> (r: Vec<String>)
        ensures
            r.deep_view() == table::batch_fields(*self).map_values(
                |field: (Seq<char>, ColumnKind, bool)| field.0,
            ),
    {
        self.rows.schema().fields().iter().map(|f| f.name().clone()).collect()
    }

    /// `arrow::array::Array::data_type` of a column, of which only the kind is
    /// asked.
    #[verifier::external_body]
    fn column_kind(&self, column: usize) -> (r: ColumnKind)
        requires
            column < table::batch_fields(*self).len(),
        ensures
            r == table::batch_fields(*self)[column as int].1,
    {
        match self.rows.column(column).data_type() {
            DataType::Int8 => ColumnKind::Int8, DataType::Int16 => ColumnKind::Int16,
            DataType::Int32 => ColumnKind::Int32, DataType::Int64 => ColumnKind::Int64,
            DataType::UInt8 => ColumnKind::UInt8, DataType::UInt16 => ColumnKind::UInt16,
            DataType::UInt32 => ColumnKind::UInt32, DataType::UInt64 => ColumnKind::UInt64,
            DataType::Float32 => ColumnKind::Float32, DataType::Float64 => ColumnKind::Float64,
            DataType::Boolean => ColumnKind::Boolean,
            DataType::Utf8 => ColumnKind::Utf8, DataType::LargeUtf8 => ColumnKind::LargeUtf8,
            _ => ColumnKind::Other,
        }
    }

    /// `arrow::array::Array::data_type` of a column, written out by its
    /// `Debug`. The text may show metadata in any order, so nothing is said of
    /// it.
    #[verifier::external_body]
    fn column_type_text(&self, column: usize) -> String
        requires
            column < table::batch_fields(*self).len(),
    {
        format!("{:?}", self.rows.column(column).data_type())
    }

    /// `arrow::array::Array::is_null`: whether the cell is null.
    #[verifier::external_body]
    fn cell_is_null(&self, column: usize, row: usize) -> (r: bool)
        requires
            has_cell(*self, column as int, row as int),
        ensures
            r == (table::batch_cells(*self)[column as int][row as int] is Null),
    {
        self.rows.column(column).is_null(row)
    }

    /// `arrow::array::PrimitiveArray::value` on a column of type `Int64`.
    #[verifier::external_body]
    fn signed_cell(&self, column: usize, row: usize) -> (r: i64)
        requires
            has_cell(*self, column as int, row as int),
            table::batch_fields(*self)[column as int].1 == ColumnKind::Int64,
            !(table::batch_cells(*self)[column as int][row as int] is Null),
        ensures
            table::batch_cells(*self)[column as int][row as int] == CellForm::Signed(r),
    {
        arrow::array::cast::as_primitive_array::<arrow::datatypes::Int64Type>(
            self.rows.column(column).as_ref(),
        ).value(row)
    }

    /// `arrow::array::PrimitiveArray::value` on a column of type `UInt64`.
    #[verifier::external_body]
    fn unsigned_cell(&self, column: usize, row: usize) -> (r: u64)
        requires
            has_cell(*self, column as int, row as int),
            table::batch_fields(*self)[column as int].1 == ColumnKind::UInt64,
            !(table::batch_cells(*self)[column as int][row as int] is Null),
        ensures
            table::batch_cells(*self)[column as int][row as int] == CellForm::Unsigned(r),
    {
        arrow::array::cast::as_primitive_array::<arrow::datatypes::UInt64Type>(
            self.rows.column(column).as_ref(),
        ).value(row)
    }

    /// `arrow::array::PrimitiveArray::value` on a column of type `Float64`, as
    /// the bits of the number.
    #[verifier::external_body]
    fn float_cell_bits(&self, column: usize, row: usize) -> (r: u64)
        requires
            has_cell(*self, column as int, row as int),
            table::batch_fields(*self)[column as int].1 == ColumnKind::Float64,
            !(table::batch_cells(*self)[column as int][row as int] is Null),
        ensures
            table::batch_cells(*self)[column as int][row as int] == CellForm::FloatBits(r),
    {
        arrow::array::cast::as_primitive_array::<arrow::datatypes::Float64Type>(
            self.rows.column(column).as_ref(),
        ).value(row).to_bits()
    }

    /// `arrow::array::BooleanArray::value` on a column of type `Boolean`.
    #[verifier::external_body]
    fn boolean_cell(&self, column: usize, row: usize) -> (r: bool)
        requires
            has_cell(*self, column as int, row as int),
            table::batch_fields(*self)[column as int].1 == ColumnKind::Boolean,
            !(table::batch_cells(*self)[column as int][row as int] is Null),
        ensures
            table::batch_cells(*self)[column as int][row as int] == CellForm::Boolean(r),
    {
        arrow::array::cast::as_boolean_array(self.rows.column(column).as_ref()).value(row)
    }

    /// `arrow::array::StringArray::value` on a column of type `Utf8`.
    #[verifier::external_body]
    fn text_cell(&self, column: usize, row: usize) -> (r: String)
        requires
            has_cell(*self, column as int, row as int),
            table::batch_fields(*self)[column as int].1 == ColumnKind::Utf8,
            !(table::batch_cells(*self)[column as int][row as int] is Null),
        ensures
            table::batch_cells(*self)[column as int][row as int] == CellForm::Text(r@),
    {
        arrow::array::cast::as_string_array(self.rows.column(column).as_ref()).value(row).to_owned()
    }
}

/// How a cell is read, by whether it is null and by the type of its column.
#[derive(Clone, Copy, Debug, PartialEq, Eq, Structural)]
pub enum Reading {
    Null,
    Signed,
    Unsigned,
    Float,
    Boolean,
    Text,
    /// Columns of this type are not written as JSON.
    Unsupported,
    /// The column is one of narrow numbers or of large texts.
    Narrow,
}

/// How a cell is read.
pub open spec fn reading_of(is_null: bool, kind: ColumnKind) -> Reading {
    if is_null {
        Reading::Null
    } else {
        match kind {
            ColumnKind::Int64 => Reading::Signed,
            ColumnKind::UInt64 => Reading::Unsigned,
            ColumnKind::Float64 => Reading::Float,
            ColumnKind::Boolean => Reading::Boolean,
            ColumnKind::Utf8 => Reading::Text,
            ColumnKind::Other => Reading::Unsupported,
            _ => Reading::Narrow,
        }
    }
}

/// How a cell is read, by whether it is null and by the type of its column.
pub fn cell_reading(is_null: bool, kind: ColumnKind) -> (r: Reading)
    ensures
        r == reading_of(is_null, kind),
{
    if is_null {
        return Reading::Null;
    }
    match kind {
        ColumnKind::Int64 => Reading::Signed,
        ColumnKind::UInt64 => Reading::Unsigned,
        ColumnKind::Float64 => Reading::Float,
        ColumnKind::Boolean => Reading::Boolean,
        ColumnKind::Utf8 => Reading::Text,
        ColumnKind::Other => Reading::Unsupported,
        _ => Reading::Narrow,
    }
}

/// How the cell at this column and this row is read.
pub open spec fn cell_reading_at(batch: Batch, column: int, row: int) -> Reading {
    reading_of(table::batch_cells(batch)[column][row] is Null, table::batch_fields(batch)[column].1)
}

/// Whether `shown` is what the column answers when it is asked for its type,
/// written out.
pub closed spec fn is_type_text(batch: Batch, column: int, shown: Seq<char>) -> bool {
    exists|r: String| #[trigger]
        call_ensures(Batch::column_type_text, (&batch, column as usize), r) && r@ == shown
}

/// Whether a message says that columns of the type of this column are not
/// written as JSON. It ends in the type, written out.
pub open spec fn names_type(batch: Batch, column: int, message: Seq<char>) -> bool {
    exists|shown: Seq<char>| #[trigger]
        is_type_text(batch, column, shown) && message == "unsupported type for JSON leg: "@ + shown
}

/// Whether the cell at this column and this row cannot be read, with this
/// error. The message of an error ends in the type, written out.
pub open spec fn fails_at(batch: Batch, column: int, row: int, e: CellError) -> bool {
    match cell_reading_at(batch, column, row) {
        Reading::Unsupported => e matches CellError::Unsupported(message)
            && "unsupported type for JSON leg: "@.is_prefix_of(message@) && names_type(
            batch,
            column,
            message@,
        ),
        Reading::Narrow => e is Narrow,
        _ => false,
    }
}

/// Whether the cell at this column and this row can be read.
pub open spec fn is_readable(batch: Batch, column: int, row: int) -> bool {
    !(cell_reading_at(batch, column, row) is Unsupported) && !(cell_reading_at(
        batch,
        column,
        row,
    ) is Narrow)
}

/// The message for a column of a type that is not written as JSON.
pub fn unsupported_message(data_type: &str) -> (r: String)
    ensures
        r@ == "unsupported type for JSON leg: "@ + data_type@,
        "unsupported type for JSON leg: "@.is_prefix_of(r@),
{
    let r: String = "unsupported type for JSON leg: ".to_owned().concat(data_type);
    assert("unsupported type for JSON leg: "@ =~= r@.subrange(
        0,
        "unsupported type for JSON leg: "@.len() as int,
    ));
    r
}

/// Reads the cell at this column and this row.
fn cell_to_json(batch: &Batch, column: usize, row: usize) -> (r: Result<Cell, CellError>)
    requires
        has_cell(*batch, column as int, row as int),
    ensures
        match r {
            Ok(cell) => is_readable(*batch, column as int, row as int) && cell.form()
                == table::batch_cells(*batch)[column as int][row as int],
            Err(e) => fails_at(*batch, column as int, row as int, e),
        },
{
    match cell_reading(batch.cell_is_null(column, row), batch.column_kind(column)) {
        Reading::Null => Ok(Cell::Null),
        Reading::Signed => Ok(Cell::Signed(batch.signed_cell(column, row))),
        Reading::Unsigned => Ok(Cell::Unsigned(batch.unsigned_cell(column, row))),
        Reading::Float => Ok(Cell::FloatBits(batch.float_cell_bits(column, row))),
        Reading::Boolean => Ok(Cell::Boolean(batch.boolean_cell(column, row))),
        Reading::Text => Ok(Cell::Text(batch.text_cell(column, row))),
        Reading::Unsupported => {
            let data_type: String = batch.column_type_text(column);
            assert(is_type_text(*batch, column as int, data_type@));
            Err(CellError::Unsupported(unsupported_message(data_type.as_str())))
        },
        Reading::Narrow => Err(CellError::Narrow),
    }
}

/// The names and the cells of a row.
pub open spec fn row_form(batch: Batch, row: int) -> Seq<(Seq<char>, CellForm)> {
    Seq::new(
        table::batch_fields(batch).len(),
        |c: int| (table::batch_fields(batch)[c].0, table::batch_cells(batch)[c][row]),
    )
}

/// The rows of a batch.
pub open spec fn batch_rows(batch: Batch) -> Seq<Seq<(Seq<char>, CellForm)>> {
    Seq::new(table::row_count(batch), |r: int| row_form(batch, r))
}

/// The rows of the batches, one batch behind the other.
pub open spec fn all_rows(batches: Seq<Batch>) -> Seq<Seq<(Seq<char>, CellForm)>>
    decreases batches.len(),
{
    if batches.len() == 0 {
        Seq::empty()
    } else {
        all_rows(batches.drop_last()) + batch_rows(batches.last())
    }
}

/// Whether every cell of the row can be read.
pub open spec fn is_row_readable(batch: Batch, row: int) -> bool {
    forall|c: int| has_cell(batch, c, row) ==> #[trigger] is_readable(batch, c, row)
}

/// Whether every cell of the batch can be read.
pub open spec fn is_batch_readable(batch: Batch) -> bool {
    forall|r: int| 0 <= r < table::row_count(batch) ==> #[trigger] is_row_readable(batch, r)
}

/// Whether `e` is the error of the first cell of the row that cannot be read.
pub open spec fn row_fails(batch: Batch, row: int, e: CellError) -> bool {
    exists|c: int|
        {
            &&& has_cell(batch, c, row)
            &&& #[trigger] fails_at(batch, c, row, e)
            &&& forall|before: int| 0 <= before < c ==> #[trigger] is_readable(batch, before, row)
        }
}

/// Whether `e` is the error of the first row of the batch that cannot be read.
pub open spec fn batch_fails(batch: Batch, e: CellError) -> bool {
    exists|r: int|
        {
            &&& 0 <= r < table::row_count(batch)
            &&& #[trigger] row_fails(batch, r, e)
            &&& forall|before: int| 0 <= before < r ==> #[trigger] is_row_readable(batch, before)
        }
}

/// Whether `e` is the error of the first batch that cannot be read.
pub open spec fn batches_fail(batches: Seq<Batch>, e: CellError) -> bool {
    exists|b: int|
        {
            &&& 0 <= b < batches.len()
            &&& #[trigger] batch_fails(batches[b], e)
            &&& forall|before: int|
                0 <= before < b ==> #[trigger] is_batch_readable(batches[before])
        }
}

/// The names and the cells of a row that was read.
pub open spec fn row_shown(row: Seq<(String, Cell)>) -> Seq<(Seq<char>, CellForm)> {
    row.map_values(|cell: (String, Cell)| (cell.0@, cell.1.form()))
}

/// The names and the cells of the rows that were read.
pub open spec fn rows_shown(rows: Seq<Vec<(String, Cell)>>) -> Seq<Seq<(Seq<char>, CellForm)>> {
    rows.map_values(|row: Vec<(String, Cell)>| row_shown(row@))
}

/// Reads a row of the batch, whose columns have these names.
fn read_row(batch: &Batch, names: &Vec<String>, row: usize) -> (r: Result<
    Vec<(String, Cell)>,
    CellError,
>)
    requires
        row < table::row_count(*batch),
        names.deep_view() == table::batch_fields(*batch).map_values(
            |field: (Seq<char>, ColumnKind, bool)| field.0,
        ),
    ensures
        match r {
            Ok(cells) => is_row_readable(*batch, row as int) && row_shown(cells@) == row_form(
                *batch,
                row as int,
            ),
            Err(e) => row_fails(*batch, row as int, e),
        },
{
    let ghost shown = names.deep_view();
    assert(shown.len() == names.len());
    let mut out: Vec<(String, Cell)> = Vec::new();
    let mut c: usize = 0;
    while c < names.len()
        invariant
            c <= names.len(),
            shown == names.deep_view(),
            names.len() == table::batch_fields(*batch).len(),
            shown == table::batch_fields(*batch).map_values(
                |field: (Seq<char>, ColumnKind, bool)| field.0,
            ),
            row < table::row_count(*batch),
            row_shown(out@) =~= row_form(*batch, row as int).take(c as int),
            forall|before: int|
                0 <= before < c ==> #[trigger] is_readable(*batch, before, row as int),
        decreases names.len() - c,
    {
        let cell: Cell = match cell_to_json(batch, c, row) {
            Ok(cell) => cell,
            Err(e) => {
                assert(fails_at(*batch, c as int, row as int, e));
                return Err(e);
            },
        };
        let name: String = names[c].clone();
        assert(name@ == shown[c as int]);
        let ghost before = out@;
        out.push((name, cell));
        assert(row_shown(out@) =~= row_shown(before).push((name@, cell.form())));
        c = c + 1;
    }
    assert(row_form(*batch, row as int).take(c as int) =~= row_form(*batch, row as int));
    Ok(out)
}

/// Reads the rows of a batch, behind those that were read before.
fn read_batch(batch: &Batch, out: &mut Vec<Vec<(String, Cell)>>) -> (r: Result<(), CellError>)
    ensures
        match r {
            Ok(()) => is_batch_readable(*batch) && rows_shown(final(out)@) == rows_shown(old(out)@)
                + batch_rows(*batch),
            Err(e) => batch_fails(*batch, e),
        },
{
    let names: Vec<String> = batch.column_names();
    let count: usize = batch.num_rows();
    let ghost given = rows_shown(out@);
    let mut row: usize = 0;
    assert(batch_rows(*batch).take(0) =~= Seq::empty());
    while row < count
        invariant
            row <= count,
            count == table::row_count(*batch),
            names.deep_view() == table::batch_fields(*batch).map_values(
                |field: (Seq<char>, ColumnKind, bool)| field.0,
            ),
            rows_shown(out@) =~= given + batch_rows(*batch).take(row as int),
            forall|before: int| 0 <= before < row ==> #[trigger] is_row_readable(*batch, before),
        decreases count - row,
    {
        let cells: Vec<(String, Cell)> = match read_row(batch, &names, row) {
            Ok(cells) => cells,
            Err(e) => {
                assert(row_fails(*batch, row as int, e));
                return Err(e);
            },
        };
        let ghost before = out@;
        out.push(cells);
        assert(rows_shown(out@) =~= rows_shown(before).push(row_shown(cells@)));
        row = row + 1;
    }
    assert(batch_rows(*batch).take(row as int) =~= batch_rows(*batch));
    Ok(())
}

/// Reads the rows of the batches, each as the names and the cells of its
/// columns. The first cell that cannot be read ends the reading.
pub fn batches_to_json_rows(batches: &[Batch]) -> (r: Result<Vec<Vec<(String, Cell)>>, CellError>)
    ensures
        match r {
            Ok(rows) => {
                &&& forall|b: int|
                    0 <= b < batches.len() ==> #[trigger] is_batch_readable(batches[b])
                &&& rows_shown(rows@) == all_rows(batches@)
            },
            Err(e) => batches_fail(batches@, e),
        },
{
    let mut out: Vec<Vec<(String, Cell)>> = Vec::new();
    let mut b: usize = 0;
    assert(rows_shown(out@) =~= all_rows(batches@.take(0)));
    while b < batches.len()
        invariant
            b <= batches.len(),
            rows_shown(out@) == all_rows(batches@.take(b as int)),
            forall|before: int|
                0 <= before < b ==> #[trigger] is_batch_readable(batches[before]),
        decreases batches.len() - b,
    {
        assert(batches@.take(b + 1).drop_last() =~= batches@.take(b as int));
        match read_batch(&batches[b], &mut out) {
            Ok(()) => {},
            Err(e) => {
                assert(batch_fails(batches@[b as int], e));
                return Err(e);
            },
        }
        b = b + 1;
    }
    assert(batches@.take(b as int) =~= batches@);
    Ok(out)
}

/// Reading the batches row by row loses no row and adds none.
pub proof fn every_row_is_read(batches: Seq<Batch>)
    ensures
        all_rows(batches).len() == table::table_rows(batches),
    decreases batches.len(),
{
    if batches.len() > 0 {
        every_row_is_read(batches.drop_last());
    }
}

/// How a cell is read: a null as null in any column; else by the type of the
/// column alone, of which the wide numbers, the truth values and the ordinary
/// texts are read, and no other.
pub proof fn readings_go_by_type(is_null: bool, kind: ColumnKind, r: Reading)
    requires
        call_ensures(cell_reading, (is_null, kind), r),
    ensures
        r == Reading::Null <==> is_null,
        r == Reading::Signed <==> !is_null && kind == ColumnKind::Int64,
        r == Reading::Unsigned <==> !is_null && kind == ColumnKind::UInt64,
        r == Reading::Float <==> !is_null && kind == ColumnKind::Float64,
        r == Reading::Boolean <==> !is_null && kind == ColumnKind::Boolean,
        r == Reading::Text <==> !is_null && kind == ColumnKind::Utf8,
        r == Reading::Unsupported <==> !is_null && kind == ColumnKind::Other,
        r == Reading::Narrow <==> !is_null && (kind == ColumnKind::Int8 || kind == ColumnKind::Int16
            || kind == ColumnKind::Int32 || kind == ColumnKind::UInt8 || kind == ColumnKind::UInt16
            || kind == ColumnKind::UInt32 || kind == ColumnKind::Float32 || kind
            == ColumnKind::LargeUtf8),
{
}

/// Whether a cell can be read: it is null, or its column is one of wide numbers,
/// of truth values or of ordinary texts.
pub open spec fn can_be_read(batch: Batch, column: int, row: int) -> bool {
    let kind = table::batch_fields(batch)[column].1;
    ||| table::batch_cells(batch)[column][row] is Null
    ||| kind == ColumnKind::Int64
    ||| kind == ColumnKind::UInt64
    ||| kind == ColumnKind::Float64
    ||| kind == ColumnKind::Boolean
    ||| kind == ColumnKind::Utf8
}

/// Batches are read where every cell can be, and only there.
pub proof fn readable_batches_are_read(
    batches: &[Batch],
    r: Result<Vec<Vec<(String, Cell)>>, CellError>,
)
    requires
        call_ensures(batches_to_json_rows, (batches,), r),
    ensures
        r is Ok <==> forall|b: int, row: int, column: int|
            0 <= b < batches@.len() && has_cell(batches@[b], column, row)
                ==> #[trigger] can_be_read(batches@[b], column, row),
{
    if r is Ok {
        assert forall|b: int, row: int, column: int|
            0 <= b < batches@.len() && has_cell(batches@[b], column, row)
                implies #[trigger] can_be_read(batches@[b], column, row) by {
            assert(is_batch_readable(batches[b]));
            assert(is_row_readable(batches@[b], row));
            assert(is_readable(batches@[b], column, row));
        }
    } else if let Err(e) = r {
        let b = choose|b: int| 0 <= b < batches@.len() && #[trigger] batch_fails(batches@[b], e);
        let batch = batches@[b];
        let row = choose|row: int|
            0 <= row < table::row_count(batch) && #[trigger] row_fails(batch, row, e);
        let c = choose|c: int| has_cell(batch, c, row) && #[trigger] fails_at(batch, c, row, e);
        assert(!can_be_read(batch, c, row));
    }
}

/// Every row of every batch is read, in order, and each of its cells under the
/// name of its column: the row stands behind those of the batches in front and
/// those in front of it in its own batch.
pub proof fn rows_are_read_in_order(
    batches: &[Batch],
    rows: Vec<Vec<(String, Cell)>>,
    b: int,
    row: int,
    column: int,
)
    requires
        call_ensures(
            batches_to_json_rows,
            (batches,),
            Ok::<Vec<Vec<(String, Cell)>>, CellError>(rows),
        ),
        0 <= b < batches@.len(),
        has_cell(batches@[b], column, row),
    ensures
        rows.len() == table::table_rows(batches@),
        ({
            let at = table::table_rows(batches@.take(b)) + row;
            &&& at < rows.len()
            &&& rows[at].len() == table::batch_fields(batches@[b]).len()
            &&& rows[at][column].0@ == table::batch_fields(batches@[b])[column].0
            &&& rows[at][column].1.form() == table::batch_cells(batches@[b])[column][row]
        }),
{
    let at = table::table_rows(batches@.take(b)) + row;
    let shown = rows_shown(rows@);
    every_row_is_read(batches@);
    lemma_row_stands(batches@, b, row);
    assert(shown[at] == row_shown(rows@[at]@));
    assert(row_shown(rows@[at]@).len() == rows@[at]@.len());
    assert(row_shown(rows@[at]@)[column] == (rows@[at]@[column].0@, rows@[at]@[column].1.form()));
}

/// A row stands behind those of the batches in front of its own.
proof fn lemma_row_stands(batches: Seq<Batch>, b: int, row: int)
    requires
        0 <= b < batches.len(),
        0 <= row < table::row_count(batches[b]),
    ensures
        0 <= table::table_rows(batches.take(b)) + row < all_rows(batches).len(),
        all_rows(batches)[table::table_rows(batches.take(b)) + row] == row_form(batches[b], row),
    decreases batches.len(),
{
    let less = batches.drop_last();
    every_row_is_read(less);
    every_row_is_read(batches);
    if b < batches.len() - 1 {
        lemma_row_stands(less, b, row);
        assert(less.take(b) =~= batches.take(b));
    } else {
        assert(batches.take(b) =~= less);
    }
}

/// The reading ends at the first cell that cannot be read, batch by batch and
/// row by row, with the reason that lies in the type of its column.
pub proof fn first_unreadable_cell_is_told(
    batches: &[Batch],
    e: CellError,
    b: int,
    row: int,
    column: int,
)
    requires
        call_ensures(
            batches_to_json_rows,
            (batches,),
            Err::<Vec<Vec<(String, Cell)>>, CellError>(e),
        ),
        0 <= b < batches@.len(),
        has_cell(batches@[b], column, row),
        !can_be_read(batches@[b], column, row),
        forall|c: int| 0 <= c < column ==> #[trigger] can_be_read(batches@[b], c, row),
        forall|r: int, c: int|
            0 <= r < row && has_cell(batches@[b], c, r) ==> #[trigger] can_be_read(
                batches@[b],
                c,
                r,
            ),
        forall|k: int, r: int, c: int|
            0 <= k < b && has_cell(batches@[k], c, r) ==> #[trigger] can_be_read(
                batches@[k],
                c,
                r,
            ),
    ensures
        table::batch_fields(batches@[b])[column].1 == ColumnKind::Other <==> e is Unsupported,
        table::batch_fields(batches@[b])[column].1 != ColumnKind::Other <==> e is Narrow,
        e matches CellError::Unsupported(message) ==> exists|shown: Seq<char>| #[trigger]
            is_type_text(batches@[b], column, shown) && message@
                == "unsupported type for JSON leg: "@ + shown,
{
    let k = choose|k: int|
        {
            &&& 0 <= k < batches@.len()
            &&& #[trigger] batch_fails(batches@[k], e)
            &&& forall|before: int|
                0 <= before < k ==> #[trigger] is_batch_readable(batches@[before])
        };
    let batch = batches@[k];
    let r = choose|r: int|
        {
            &&& 0 <= r < table::row_count(batch)
            &&& #[trigger] row_fails(batch, r, e)
            &&& forall|before: int| 0 <= before < r ==> #[trigger] is_row_readable(batch, before)
        };
    let c = choose|c: int|
        {
            &&& has_cell(batch, c, r)
            &&& #[trigger] fails_at(batch, c, r, e)
            &&& forall|before: int| 0 <= before < c ==> #[trigger] is_readable(batch, before, r)
        };
    assert(!can_be_read(batch, c, r));
    if k > b {
        assert(is_batch_readable(batches@[b]));
        assert(is_row_readable(batches@[b], row));
        assert(is_readable(batches@[b], column, row));
    }
    assert(k == b);
    if r > row {
        assert(is_row_readable(batch, row));
        assert(is_readable(batch, column, row));
    }
    assert(r == row);
    if c > column {
        assert(is_readable(batch, column, row));
    }
    assert(c == column);
}

/// The type of a column, written out, is what the column answers when it is
/// asked for it, and nothing else is.
proof fn type_text_is_the_answer(batch: &Batch, column: usize, r: String, shown: Seq<char>)
    ensures
        call_ensures(Batch::column_type_text, (batch, column), r) ==> is_type_text(
            *batch,
            column as int,
            r@,
        ),
        is_type_text(*batch, column as int, shown) ==> exists|s: String| #[trigger]
            call_ensures(Batch::column_type_text, (batch, column), s) && s@ == shown,
{
}

/// The message for a column that cannot be read ends in the type, as it is
/// written out.
pub proof fn unsupported_type_is_named(data_type: &str, r: String)
    requires
        call_ensures(unsupported_message, (data_type,), r),
    ensures
        r@ == "unsupported type for JSON leg: "@ + data_type@,
{
}

} // verus!
