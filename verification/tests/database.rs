use arrow::array::ArrayRef;
use arrow::array::AsArray;
use arrow::datatypes::DataType;
use arrow::datatypes::TimeUnit;
use arrow::ipc::reader::StreamReader;
use optic::database::Config;
use optic::database::Database;
use optic::database::Files;
use optic::database::Table;
use optic::error::Error;
use optic::measurements::builder::Dimensions;
use optic::schema::Column;
use optic::schema::ColumnKind;
use optic::stream::EmptyCommit;
use optic::stream::Stored;
use optic::stream::StoredField;
use optic::stream::StoredStream;

fn bits(values: &[f64]) -> Vec<u64> {
    values.iter().map(|value| value.to_bits()).collect()
}

fn config() -> Config {
    Config {
        dimensions: Dimensions { x: true, y: true, z: true, a: true },
        empty_commit: EmptyCommit::Skip,
    }
}

fn fresh() -> Database {
    let files = Files { wavelengths: Stored::Absent, measurements: Stored::Absent, intensities: Stored::Absent };
    Database::new(&files, config()).unwrap()
}

fn kind_of(data_type: &DataType) -> Option<ColumnKind> {
    match data_type {
        DataType::UInt32 => Some(ColumnKind::UInt32),
        DataType::Float64 => Some(ColumnKind::Float64),
        DataType::Timestamp(TimeUnit::Microsecond, None) => Some(ColumnKind::Timestamp),
        DataType::Duration(TimeUnit::Microsecond) => Some(ColumnKind::Duration),
        _ => None,
    }
}

fn column_of(array: &ArrayRef) -> Column {
    match array.data_type() {
        DataType::UInt32 => Column::UInt32(array.as_primitive::<arrow::datatypes::UInt32Type>().values().to_vec()),
        DataType::Float64 => Column::Float64(
            array.as_primitive::<arrow::datatypes::Float64Type>().values().iter().map(|value| value.to_bits()).collect(),
        ),
        DataType::Timestamp(TimeUnit::Microsecond, None) => Column::Timestamp(
            array.as_primitive::<arrow::datatypes::TimestampMicrosecondType>().values().to_vec(),
        ),
        DataType::Duration(TimeUnit::Microsecond) => Column::Duration(
            array.as_primitive::<arrow::datatypes::DurationMicrosecondType>().values().to_vec(),
        ),
        other => panic!("no kind stands for {}", other),
    }
}

/// What the bytes of a file hold, read with the stream reader of `arrow`.
fn stored(bytes: &[u8]) -> Stored {
    let reader = match StreamReader::try_new(bytes, None) {
        Ok(reader) => reader,
        Err(_) => return Stored::Unreadable,
    };
    let schema = reader.schema();
    let fields = schema
        .fields()
        .iter()
        .map(|field| StoredField {
            name: field.name().clone(),
            kind: kind_of(field.data_type()),
            nullable: field.is_nullable(),
        })
        .collect();
    let metadata = !schema.metadata().is_empty();
    let mut batches = Vec::new();
    for batch in reader {
        match batch {
            Ok(batch) => batches.push(batch.columns().iter().map(column_of).collect()),
            Err(_) => return Stored::Unreadable,
        }
    }
    Stored::Stream(StoredStream { fields, metadata, batches })
}

fn ids_of(bytes: &[u8], column: &str) -> Vec<u32> {
    let reader = arrow::ipc::reader::StreamReader::try_new(bytes, None).unwrap();
    let mut ids = Vec::new();
    for batch in reader {
        let batch = batch.unwrap();
        let array = batch.column_by_name(column).unwrap();
        ids.extend(array.as_primitive::<arrow::datatypes::UInt32Type>().values().iter().copied());
    }
    ids
}

#[test]
fn database_creation() {
    let mut db = fresh();
    let ids = db.push_wavelengths(bits(&[0.0, 0.1, 0.2, 0.3])).unwrap();
    assert_eq!(ids, vec![0, 1, 2, 3]);
    db.wavelengths.commit().unwrap();
    let bytes = db.take(Table::Wavelengths);
    let reader = arrow::ipc::reader::StreamReader::try_new(bytes.as_slice(), None).unwrap();
    let schema = reader.schema();
    assert_eq!(schema.fields().len(), 2);
    assert_eq!(schema.field(0).name(), "id");
    assert_eq!(schema.field(0).data_type(), &arrow::datatypes::DataType::UInt32);
    assert_eq!(schema.field(1).name(), "nm");
    assert_eq!(schema.field(1).data_type(), &arrow::datatypes::DataType::Float64);
}

#[test]
fn wavelengths_survive_a_commit_and_a_reopening() {
    let mut db = fresh();
    let ids = db.push_wavelengths(bits(&[1e-9, 1e-3, 1e3, 1e9])).unwrap();
    assert_eq!(ids, vec![0, 1, 2, 3]);
    db.commit(Table::Wavelengths).unwrap();
    let file = db.take(Table::Wavelengths);
    assert_eq!(ids_of(&file, "id"), vec![0, 1, 2, 3]);

    let files = Files { wavelengths: stored(&file), measurements: Stored::Absent, intensities: Stored::Absent };
    let mut reopened = Database::new(&files, config()).unwrap();
    assert_eq!(reopened.take(Table::Wavelengths), Vec::<u8>::new());
    let again = reopened.push_wavelengths(bits(&[1e9, 1e-9, 5.0, 1e3, 1e-3])).unwrap();
    assert_eq!(again, vec![3, 0, 4, 2, 1]);
    reopened.commit(Table::Wavelengths).unwrap();
    let mut whole = file;
    whole.extend(reopened.take(Table::Wavelengths));
    assert_eq!(ids_of(&whole, "id"), vec![0, 1, 2, 3, 4]);
}

#[test]
fn pushing_the_same_wavelengths_again_gives_the_same_keys() {
    let mut db = fresh();
    let values = bits(&[500.0, 350.0, 500.0, 632.8, 350.0]);
    let first = db.push_wavelengths(values.clone()).unwrap();
    assert_eq!(first, vec![0, 1, 0, 2, 1]);
    let before_commit = db.push_wavelengths(values.clone()).unwrap();
    assert_eq!(before_commit, first);
    db.commit(Table::Wavelengths).unwrap();
    let after_commit = db.push_wavelengths(values).unwrap();
    assert_eq!(after_commit, first);
    assert_eq!(db.wavelengths.buffered(), 0);
}

#[test]
fn near_wavelengths_share_a_key_and_far_ones_do_not() {
    let mut db = fresh();
    let ids = db.push_wavelengths(bits(&[500.0, 500.0 + 1e-13, 500.000001])).unwrap();
    assert_eq!(ids, vec![0, 0, 1]);
}

#[test]
fn a_near_wavelength_on_either_side_is_found() {
    let mut db = fresh();
    let ids = db.push_wavelengths(bits(&[1.0, 1.0 + 4e-13, 1.0 - 4e-13, 2.0, 2.0 - 4e-13])).unwrap();
    assert_eq!(ids, vec![0, 0, 0, 1, 1]);
}

#[test]
fn between_two_near_records_the_older_key_wins() {
    let mut db = fresh();
    let ids = db.push_wavelengths(bits(&[3e-12, 1.5e-12, 2.2e-12, 2.3e-12])).unwrap();
    assert_eq!(ids, vec![0, 1, 0, 0]);
}

#[test]
fn measurements_continue_after_a_reopening() {
    let mut db = fresh();
    for expected in 0..3u32 {
        let id = db.push_measurement(1.0f64.to_bits(), 2.0f64.to_bits(), 3.0f64.to_bits(), 0.1f64.to_bits(), 500_000).unwrap();
        assert_eq!(id, expected);
    }
    db.commit(Table::Measurements).unwrap();
    let file = db.take(Table::Measurements);
    assert_eq!(ids_of(&file, "id"), vec![0, 1, 2]);

    let files = Files { wavelengths: Stored::Absent, measurements: stored(&file), intensities: Stored::Absent };
    let mut reopened = Database::new(&files, config()).unwrap();
    let id = reopened.push_measurement(4.0f64.to_bits(), 5.0f64.to_bits(), 6.0f64.to_bits(), 0.2f64.to_bits(), 1_000_000).unwrap();
    assert_eq!(id, 3);
}

#[test]
fn intensities_of_unequal_lengths_are_refused() {
    let mut db = fresh();
    db.push_intensities(0, vec![0, 1], bits(&[0.5, 0.25])).unwrap();
    assert_eq!(db.intensities.buffered(), 2);
    let refused = db.push_intensities(1, vec![0, 1, 2], bits(&[0.5, 0.25]));
    assert_eq!(refused, Err(Error::ValidationError));
    assert_eq!(db.intensities.buffered(), 2);
}

#[test]
fn a_commit_writes_the_buffered_rows_in_push_order_and_empties_the_buffer() {
    let mut db = fresh();
    let _ = db.take(Table::Intensities);
    db.push_intensities(7, vec![2, 0, 1], bits(&[0.5, 0.25, 0.125])).unwrap();
    db.push_intensities(8, vec![1], bits(&[4.0])).unwrap();
    assert_eq!(db.intensities.buffered(), 4);
    db.commit(Table::Intensities).unwrap();
    assert_eq!(db.intensities.buffered(), 0);
    let message = db.take(Table::Intensities);
    let mut file = fresh().take(Table::Intensities);
    file.extend(message);
    let batches: Vec<_> = arrow::ipc::reader::StreamReader::try_new(file.as_slice(), None)
        .unwrap()
        .map(|batch| batch.unwrap())
        .collect();
    assert_eq!(batches.len(), 1);
    let batch = &batches[0];
    assert_eq!(batch.num_rows(), 4);
    let measurement = batch.column(0).as_primitive::<arrow::datatypes::UInt32Type>().values().to_vec();
    let wavelength = batch.column(1).as_primitive::<arrow::datatypes::UInt32Type>().values().to_vec();
    let intensity = batch.column(2).as_primitive::<arrow::datatypes::Float64Type>().values().to_vec();
    assert_eq!(measurement, vec![7, 7, 7, 8]);
    assert_eq!(wavelength, vec![2, 0, 1, 1]);
    assert_eq!(intensity, vec![0.5, 0.25, 0.125, 4.0]);
    db.commit(Table::Intensities).unwrap();
    assert_eq!(db.take(Table::Intensities), Vec::<u8>::new());
}

#[test]
fn a_database_does_not_open_on_a_file_that_cannot_be_read() {
    let files = Files { wavelengths: Stored::Absent, measurements: Stored::Unreadable, intensities: Stored::Absent };
    assert!(matches!(Database::new(&files, config()), Err(Error::IOError)));
    let files = Files { wavelengths: stored(&[1, 2, 3]), measurements: Stored::Absent, intensities: Stored::Absent };
    assert!(matches!(Database::new(&files, config()), Err(Error::IOError)));
}

#[test]
fn a_database_does_not_open_on_the_file_of_another_table() {
    let mut db = fresh();
    let wavelengths = db.take(Table::Wavelengths);
    let intensities = db.take(Table::Intensities);
    let files = Files { wavelengths: stored(&intensities), measurements: Stored::Absent, intensities: Stored::Absent };
    assert!(matches!(Database::new(&files, config()), Err(Error::SchemaError)));
    let files = Files { wavelengths: stored(&wavelengths), measurements: Stored::Absent, intensities: stored(&wavelengths) };
    assert!(matches!(Database::new(&files, config()), Err(Error::SchemaError)));
    let files = Files { wavelengths: stored(&wavelengths), measurements: Stored::Unreadable, intensities: stored(&wavelengths) };
    assert!(matches!(Database::new(&files, config()), Err(Error::IOError)));
    let files = Files { wavelengths: stored(&wavelengths), measurements: Stored::Absent, intensities: stored(&intensities) };
    assert!(Database::new(&files, config()).is_ok());
}

#[test]
fn a_commit_on_an_open_table_succeeds_with_and_without_rows() {
    let mut db = fresh();
    assert_eq!(db.commit(Table::Wavelengths), Ok(()));
    assert_eq!(db.commit(Table::Intensities), Ok(()));
    db.push_intensities(1, vec![0], vec![1.0f64.to_bits()]).unwrap();
    assert_eq!(db.commit(Table::Intensities), Ok(()));
    assert_eq!(db.commit(Table::Intensities), Ok(()));
    assert_eq!(db.commit(Table::Measurements), Ok(()));
    db.release();
    assert_eq!(db.commit(Table::Wavelengths), Err(Error::IOError));
    assert_eq!(db.commit(Table::Measurements), Err(Error::IOError));
    assert_eq!(db.commit(Table::Intensities), Err(Error::IOError));
}
