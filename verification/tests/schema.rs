use std::sync::Arc;

use arrow::datatypes::{DataType, Field, Schema};
use ladybug_adbc::schema::encode_schema;
use ladybug_adbc::server::describe;
use ladybug_adbc::table::{checked_query, status_table, Table};

fn of_type(data_type: DataType) -> Schema {
    Schema::new(vec![
        Field::new("id", DataType::Int64, false),
        Field::new("x", data_type, true),
    ])
}

fn item(data_type: DataType) -> Arc<Field> {
    Arc::new(Field::new("item", data_type, true))
}

#[test]
fn schemas_are_encoded() {
    let schema = of_type(DataType::List(item(DataType::Utf8)));
    let Some(Ok(bytes)) = encode_schema(&schema) else {
        panic!("not encoded");
    };
    let info = arrow_flight::FlightInfo::new().try_with_schema(&schema).unwrap();
    assert_eq!(bytes, info.schema.to_vec());
    assert_eq!(info.try_decode_schema().unwrap(), schema);
    // The form depends on the schema.
    let other = encode_schema(&of_type(DataType::Utf8)).unwrap().unwrap();
    assert_ne!(bytes, other);
}

#[test]
fn lists_of_views_are_not_encoded() {
    let view = DataType::ListView(item(DataType::Utf8));
    assert!(encode_schema(&of_type(view.clone())).is_none());
    let nested = DataType::Struct(vec![Field::new("deep", view.clone(), true)].into());
    assert!(encode_schema(&of_type(DataType::List(item(nested)))).is_none());
    let keyed = DataType::Dictionary(Box::new(DataType::Int8), Box::new(view));
    assert!(encode_schema(&of_type(keyed)).is_none());
    let runs = DataType::RunEndEncoded(
        Arc::new(Field::new("run_ends", DataType::Int32, false)),
        item(DataType::ListView(item(DataType::Utf8))),
    );
    assert!(encode_schema(&of_type(runs)).is_none());
    let large = DataType::LargeListView(item(DataType::Int64));
    assert!(encode_schema(&of_type(large)).is_none());
}

#[test]
fn nested_types_texts_and_metadata_are_encoded() {
    let zone = DataType::Timestamp(arrow::datatypes::TimeUnit::Second, Some("UTC".into()));
    let nested = DataType::Struct(vec![Field::new("at", zone, true)].into());
    let mut schema = of_type(DataType::LargeList(item(nested)));
    schema.metadata.insert("k".to_string(), "v".to_string());
    schema.metadata.insert("l".to_string(), "w".to_string());
    let Some(Ok(bytes)) = encode_schema(&schema) else {
        panic!("not encoded");
    };
    let info = arrow_flight::FlightInfo { schema: bytes.into(), ..Default::default() };
    assert_eq!(info.try_decode_schema().unwrap(), schema);
}

#[test]
fn too_many_fields_are_left_to_the_encoder() {
    let field = Arc::new(Field::new("x", DataType::Int64, true));
    let fields: arrow::datatypes::Fields = vec![field; 7_000_000].into();
    assert!(encode_schema(&Schema::new(fields)).is_none());
}

#[test]
fn results_are_described() {
    let table = status_table();
    let ran = describe(&table).unwrap();
    assert_eq!(ran.rows, 1);
    assert_eq!(ran.bytes, table.batches[0].rows.get_array_memory_size());
    assert_eq!(ran.schema.unwrap(), encode_schema(&table.schema).unwrap().unwrap());
    let views = DataType::ListView(item(DataType::Utf8));
    let odd = Table { schema: Arc::new(of_type(views)), batches: vec![] };
    assert!(describe(&odd).is_none());
}

#[test]
fn trimming_twice_is_trimming_once() {
    let once = checked_query("\n\u{a0} RETURN 1 \t").unwrap();
    assert_eq!(once, "RETURN 1");
    assert_eq!(checked_query(&once).unwrap(), once);
}
