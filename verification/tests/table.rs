use std::sync::Arc;

use arrow::array::{
    Array, ArrayRef, BooleanArray, Float64Array, Int32Array, Int64Array, RecordBatch, StringArray,
    UInt64Array,
};
use arrow::datatypes::{DataType, Field, Schema};
use arrow::util::pretty::pretty_format_batches;
use ladybug_adbc::json::{batches_to_json_rows, cell_reading, Cell, CellError, Reading};
use ladybug_adbc::table::{
    after_export, after_query, checked_query, status_table, sum_sizes, Batch,
    BatchSize, ColumnKind, QueryStep, Table,
};
use ladybug_adbc::{table_stats, CHUNK_SIZE};

fn numbers(values: Vec<i64>) -> Batch {
    let schema = Arc::new(Schema::new(vec![Field::new("n", DataType::Int64, false)]));
    let column: ArrayRef = Arc::new(Int64Array::from(values));
    Batch { rows: RecordBatch::try_new(schema, vec![column]).unwrap() }
}

fn names(table: &Table) -> Vec<String> {
    table.schema.fields().iter().map(|f| f.name().clone()).collect()
}

#[test]
fn chunk_size() {
    assert_eq!(CHUNK_SIZE, 2048);
}

#[test]
fn queries_are_trimmed_and_blank_ones_refused() {
    assert_eq!(checked_query(" RETURN 1\n"), Ok("RETURN 1".to_string()));
    assert_eq!(checked_query("\u{2003}\t"), Err("empty query".to_string()));
    assert_eq!(checked_query(""), Err("empty query".to_string()));
}

#[test]
fn results_without_columns_become_a_status() {
    let table = status_table();
    assert_eq!(names(&table), vec!["status"]);
    assert!(!table.schema.field(0).is_nullable());
    assert_eq!(table.schema.field(0).data_type(), &DataType::Utf8);
    assert_eq!(table.batches.len(), 1);
    let shown = pretty_format_batches(&[table.batches[0].rows.clone()]).unwrap().to_string();
    assert!(shown.contains("| ok     |"));
    assert_eq!(table.batches[0].rows.num_rows(), 1);
    assert!(matches!(after_query(Ok(0)), QueryStep::Finished(t) if t.batches.len() == 1));
    assert!(matches!(after_query(Ok(2)), QueryStep::Export));
    let QueryStep::Failed(message) = after_query(Err("x".to_string())) else {
        panic!("not failed");
    };
    assert_eq!(message, "ladybug query failed: x");
}

#[test]
fn results_without_batches_become_a_status() {
    let table = after_export(Ok(vec![])).ok().unwrap();
    assert_eq!(names(&table), vec!["status"]);
    assert_eq!(table.batches.len(), 1);
    let shown = pretty_format_batches(&[table.batches[0].rows.clone()]).unwrap().to_string();
    assert!(shown.contains("| ok     |"));
    assert_eq!(table.schema, table.batches[0].rows.schema());
}

#[test]
fn results_with_rows_stay_as_they_are() {
    let batches = vec![numbers(vec![1, 2]), numbers(vec![3])];
    let table = after_export(Ok(batches)).ok().unwrap();
    assert_eq!(table.batches.len(), 2);
    assert_eq!(table.schema, table.batches[0].rows.schema());
    assert_eq!(names(&table), vec!["n"]);
    assert_eq!(table.schema.field(0).data_type(), &DataType::Int64);
    assert_eq!(table.batches[0].rows.num_rows(), 2);
    assert_eq!(
        after_export(Err("x".to_string())).err().unwrap(),
        "ladybug arrow export failed: x"
    );
}

#[test]
fn sizes_are_added_up() {
    let batches = vec![numbers(vec![1, 2]), numbers(vec![3, 4, 5])];
    let schema = batches[0].rows.schema();
    let bytes: usize = batches.iter().map(|b| b.rows.get_array_memory_size()).sum();
    assert!(bytes > 0);
    assert_eq!(table_stats(&schema, &batches), (5, 1, bytes));
    assert_eq!(table_stats(&schema, &[]), (0, 1, 0));
    let sizes = vec![BatchSize { rows: 2, bytes: 10 }, BatchSize { rows: 3, bytes: 7 }];
    assert_eq!(sum_sizes(&sizes), (5, 17));
    let large = vec![BatchSize { rows: usize::MAX, bytes: 4 }, BatchSize { rows: 3, bytes: 0 }];
    assert_eq!(sum_sizes(&large), (2, 4));
    // Two lists, one behind the other.
    let one = table_stats(&schema, &batches[..1]);
    let other = table_stats(&schema, &batches[1..]);
    assert_eq!((one.0 + other.0, one.1, one.2 + other.2), (5, 1, bytes));
    assert_eq!(one, (2, 1, batches[0].rows.get_array_memory_size()));
}

#[test]
fn readings() {
    assert_eq!(cell_reading(true, ColumnKind::Other), Reading::Null);
    assert_eq!(cell_reading(false, ColumnKind::Int64), Reading::Signed);
    assert_eq!(cell_reading(false, ColumnKind::UInt64), Reading::Unsigned);
    assert_eq!(cell_reading(false, ColumnKind::Float64), Reading::Float);
    assert_eq!(cell_reading(false, ColumnKind::Boolean), Reading::Boolean);
    assert_eq!(cell_reading(false, ColumnKind::Utf8), Reading::Text);
    assert_eq!(cell_reading(false, ColumnKind::Int8), Reading::Narrow);
    assert_eq!(cell_reading(false, ColumnKind::LargeUtf8), Reading::Narrow);
    assert_eq!(cell_reading(false, ColumnKind::Other), Reading::Unsupported);
}

#[test]
fn rows_of_cells() {
    let schema = Schema::new(vec![
        Field::new("i", DataType::Int64, true),
        Field::new("u", DataType::UInt64, true),
        Field::new("f", DataType::Float64, true),
        Field::new("b", DataType::Boolean, true),
        Field::new("s", DataType::Utf8, true),
    ]);
    let columns: Vec<ArrayRef> = vec![
        Arc::new(Int64Array::from(vec![Some(-7), None])),
        Arc::new(UInt64Array::from(vec![Some(7), None])),
        Arc::new(Float64Array::from(vec![Some(1.5), None])),
        Arc::new(BooleanArray::from(vec![Some(true), None])),
        Arc::new(StringArray::from(vec![Some("x"), None])),
    ];
    let batch = Batch { rows: RecordBatch::try_new(Arc::new(schema), columns).unwrap() };
    let rows = batches_to_json_rows(&[batch, numbers(vec![9])]).unwrap_or_else(|_| vec![]);
    assert_eq!(rows.len(), 3);
    let names: Vec<&str> = rows[0].iter().map(|c| c.0.as_str()).collect();
    assert_eq!(names, vec!["i", "u", "f", "b", "s"]);
    assert!(matches!(rows[0][0].1, Cell::Signed(-7)));
    assert!(matches!(rows[0][1].1, Cell::Unsigned(7)));
    assert!(matches!(rows[0][2].1, Cell::FloatBits(bits) if f64::from_bits(bits) == 1.5));
    assert!(matches!(rows[0][3].1, Cell::Boolean(true)));
    assert!(matches!(&rows[0][4].1, Cell::Text(s) if s == "x"));
    assert!(rows[1].iter().all(|c| matches!(c.1, Cell::Null)));
    assert!(matches!(rows[2][0].1, Cell::Signed(9)));
}

#[test]
fn cells_that_cannot_be_read() {
    let narrow: ArrayRef = Arc::new(Int32Array::from(vec![1]));
    let schema = Schema::new(vec![Field::new("n", narrow.data_type().clone(), false)]);
    let batch = Batch { rows: RecordBatch::try_new(Arc::new(schema), vec![narrow]).unwrap() };
    assert!(matches!(batches_to_json_rows(&[batch]), Err(CellError::Narrow)));
    let days: ArrayRef = Arc::new(arrow::array::Date32Array::from(vec![1]));
    let schema = Schema::new(vec![Field::new("d", DataType::Date32, false)]);
    let batch = Batch { rows: RecordBatch::try_new(Arc::new(schema), vec![days]).unwrap() };
    let Err(CellError::Unsupported(message)) = batches_to_json_rows(&[batch]) else {
        panic!("read");
    };
    assert_eq!(message, "unsupported type for JSON leg: Date32");
    // Nulls can be read whatever the type is.
    let nulls: ArrayRef = Arc::new(Int32Array::from(vec![None, None]));
    let schema = Schema::new(vec![Field::new("n", DataType::Int32, true)]);
    let batch = Batch { rows: RecordBatch::try_new(Arc::new(schema), vec![nulls]).unwrap() };
    assert!(matches!(batches_to_json_rows(&[batch]), Ok(rows) if rows.len() == 2));
}
