use arrow::array::Array;
use arrow::array::ArrayRef;
use arrow::array::AsArray;
use arrow::array::RecordBatch;
use arrow::datatypes::DataType;
use arrow::datatypes::TimeUnit;
use arrow::ipc::reader::StreamReader;
use optic::error::Error;
use optic::intensities::Intensities;
use optic::measurements::builder::Dimensions;
use optic::measurements::Measurements;
use optic::schema::Column;
use optic::schema::ColumnKind;
use optic::stream::fits;
use optic::stream::header_matches;
use optic::stream::validate;
use optic::stream::Stored;
use optic::stream::StoredField;
use optic::stream::StoredStream;
use optic::stream::EmptyCommit;
use optic::stream::Writer;
use optic::wavelengths::record::Record;
use optic::wavelengths::Wavelengths;

const ALL: Dimensions = Dimensions { x: true, y: true, z: true, a: true };

fn read(bytes: &[u8]) -> Vec<RecordBatch> {
    StreamReader::try_new(bytes, None).unwrap().map(|batch| batch.unwrap()).collect()
}

fn double(value: f64) -> u64 {
    value.to_bits()
}

fn kind_of(data_type: &DataType) -> Option<ColumnKind> {
    match data_type {
        DataType::UInt32 => Some(ColumnKind::UInt32),
        DataType::Float64 => Some(ColumnKind::Float64),
        DataType::Timestamp(TimeUnit::Microsecond, None) => Some(ColumnKind::Timestamp),
        DataType::Duration(TimeUnit::Microsecond) => Some(ColumnKind::Duration),
        _ => None,
    }
}

fn column_of(array: &ArrayRef) -> Column {
    match array.data_type() {
        DataType::UInt32 => Column::UInt32(array.as_primitive::<arrow::datatypes::UInt32Type>().values().to_vec()),
        DataType::Float64 => Column::Float64(
            array.as_primitive::<arrow::datatypes::Float64Type>().values().iter().map(|value| value.to_bits()).collect(),
        ),
        DataType::Timestamp(TimeUnit::Microsecond, None) => Column::Timestamp(
            array.as_primitive::<arrow::datatypes::TimestampMicrosecondType>().values().to_vec(),
        ),
        DataType::Duration(TimeUnit::Microsecond) => Column::Duration(
            array.as_primitive::<arrow::datatypes::DurationMicrosecondType>().values().to_vec(),
        ),
        other => panic!("no kind stands for {}", other),
    }
}

/// What the bytes of a file hold, read with the stream reader of `arrow`.
fn stored(bytes: &[u8]) -> Stored {
    let reader = match StreamReader::try_new(bytes, None) {
        Ok(reader) => reader,
        Err(_) => return Stored::Unreadable,
    };
    let schema = reader.schema();
    let fields = schema
        .fields()
        .iter()
        .map(|field| StoredField {
            name: field.name().clone(),
            kind: kind_of(field.data_type()),
            nullable: field.is_nullable(),
        })
        .collect();
    let metadata = !schema.metadata().is_empty();
    let mut batches = Vec::new();
    for batch in reader {
        match batch {
            Ok(batch) => batches.push(batch.columns().iter().map(column_of).collect()),
            Err(_) => return Stored::Unreadable,
        }
    }
    Stored::Stream(StoredStream { fields, metadata, batches })
}

#[test]
fn a_new_stream_starts_with_the_header_and_a_resumed_one_with_nothing() {
    let schema = Wavelengths::schema();
    let mut new = Writer::new(&schema, false).unwrap();
    let mut resumed = Writer::new(&schema, true).unwrap();
    assert!(new.accepts());
    assert!(new.len() > 0);
    assert_eq!(resumed.len(), 0);
    let header = new.take();
    assert_eq!(new.len(), 0);
    assert_eq!(new.take(), Vec::<u8>::new());
    assert_eq!(resumed.take(), Vec::<u8>::new());
    let reader = StreamReader::try_new(header.as_slice(), None).unwrap();
    assert_eq!(reader.schema().fields().len(), 2);
    assert!(!reader.schema().field(0).is_nullable());
    assert_eq!(reader.count(), 0);
}

#[test]
fn a_stream_appends_what_it_is_given() {
    let schema = Wavelengths::schema();
    let mut stream = Writer::new(&schema, false).unwrap();
    let header = stream.len();
    stream.write(&vec![Column::UInt32(vec![3, 1]), Column::Float64(vec![double(0.5), double(-2.0)])]).unwrap();
    let one = stream.len();
    assert!(one > header);
    stream.write(&vec![Column::UInt32(vec![7]), Column::Float64(vec![double(1e300)])]).unwrap();
    assert!(stream.len() > one);
    let bytes = stream.take();
    let batches = read(&bytes);
    assert_eq!(batches.len(), 2);
    assert_eq!(batches[0].column(0).as_primitive::<arrow::datatypes::UInt32Type>().values().to_vec(), vec![3, 1]);
    assert_eq!(batches[0].column(1).as_primitive::<arrow::datatypes::Float64Type>().values().to_vec(), vec![0.5, -2.0]);
    assert_eq!(batches[0].column(1).null_count(), 0);
    assert_eq!(batches[1].column(0).as_primitive::<arrow::datatypes::UInt32Type>().values().to_vec(), vec![7]);
    assert_eq!(batches[1].column(1).as_primitive::<arrow::datatypes::Float64Type>().values().to_vec(), vec![1e300]);
}

#[test]
fn a_stream_refuses_columns_that_do_not_fit_its_schema() {
    let schema = Wavelengths::schema();
    let mut stream = Writer::new(&schema, true).unwrap();
    let no_column: Vec<Column> = vec![];
    assert_eq!(stream.write(&no_column), Err(Error::SchemaError));
    assert_eq!(stream.write(&vec![Column::UInt32(vec![1])]), Err(Error::SchemaError));
    assert_eq!(stream.write(&vec![Column::UInt32(vec![1]), Column::UInt32(vec![1])]), Err(Error::SchemaError));
    assert_eq!(stream.write(&vec![Column::Float64(vec![1]), Column::UInt32(vec![1])]), Err(Error::SchemaError));
    assert_eq!(stream.write(&vec![Column::UInt32(vec![1, 2]), Column::Float64(vec![1])]), Err(Error::SchemaError));
    assert_eq!(
        stream.write(&vec![Column::UInt32(vec![1]), Column::Float64(vec![1]), Column::Float64(vec![1])]),
        Err(Error::SchemaError)
    );
    assert_eq!(stream.len(), 0);
    assert_eq!(stream.write(&vec![Column::UInt32(vec![]), Column::Float64(vec![])]), Ok(()));
    assert!(stream.len() > 0);
}

#[test]
fn a_released_stream_refuses_to_write_and_still_hands_out_its_bytes() {
    let schema = Intensities::schema();
    let mut stream = Writer::new(&schema, false).unwrap();
    let held = stream.len();
    stream.release();
    assert!(!stream.accepts());
    let columns = vec![Column::UInt32(vec![1]), Column::UInt32(vec![2]), Column::Float64(vec![3])];
    assert_eq!(stream.write(&columns), Err(Error::IOError));
    assert_eq!(stream.len(), held);
    assert_eq!(stream.take().len(), held);
}

#[test]
fn a_stored_stream_of_the_table_is_accepted() {
    let schema = Measurements::schema(ALL);
    let mut stream = Writer::new(&schema, false).unwrap();
    let columns = vec![
        Column::UInt32(vec![0, 1]),
        Column::Timestamp(vec![-5, 1_700_000_000_000_000]),
        Column::Float64(vec![double(1.0), double(f64::NAN)]),
        Column::Float64(vec![double(2.0), double(-0.0)]),
        Column::Float64(vec![double(3.0), double(f64::INFINITY)]),
        Column::Float64(vec![double(4.0), double(5e-324)]),
        Column::Duration(vec![i64::MAX, i64::MIN]),
    ];
    stream.write(&columns).unwrap();
    stream.write(&columns).unwrap();
    let bytes = stream.take();
    let read = stored(&bytes);
    assert_eq!(validate(&schema, &read), Ok(()));
    let held = match read {
        Stored::Stream(held) => held,
        other => panic!("{:?} is no stream", other),
    };
    assert!(header_matches(&schema, &held));
    assert_eq!(held.batches.len(), 2);
    for batch in held.batches.iter() {
        assert!(fits(&schema, batch));
        assert_eq!(batch.len(), 7);
        assert_eq!(batch[0].kind(), ColumnKind::UInt32);
        assert_eq!(batch[1].kind(), ColumnKind::Timestamp);
        assert_eq!(batch[2].kind(), ColumnKind::Float64);
        assert_eq!(batch[6].kind(), ColumnKind::Duration);
        assert_eq!(batch[3].len(), 2);
        assert!(matches!(&batch[0], Column::UInt32(v) if v == &vec![0, 1]));
        assert!(matches!(&batch[1], Column::Timestamp(v) if v == &vec![-5, 1_700_000_000_000_000]));
        assert!(matches!(&batch[2], Column::Float64(v) if v == &vec![double(1.0), double(f64::NAN)]));
        assert!(matches!(&batch[3], Column::Float64(v) if v == &vec![double(2.0), double(-0.0)]));
        assert!(matches!(&batch[5], Column::Float64(v) if v == &vec![double(4.0), double(5e-324)]));
        assert!(matches!(&batch[6], Column::Duration(v) if v == &vec![i64::MAX, i64::MIN]));
    }
}

#[test]
fn a_file_that_cannot_be_read_opens_no_table() {
    assert_eq!(validate(&Wavelengths::schema(), &Stored::Unreadable), Err(Error::IOError));
    assert_eq!(validate(&Wavelengths::schema(), &Stored::Absent), Ok(()));
    assert!(matches!(Wavelengths::open(&Stored::Unreadable, EmptyCommit::Skip), Err(Error::IOError)));
    assert!(matches!(Measurements::open(&Stored::Unreadable, ALL, EmptyCommit::Skip), Err(Error::IOError)));
    assert!(matches!(Intensities::open(&Stored::Unreadable, EmptyCommit::Skip), Err(Error::IOError)));
    assert!(matches!(Wavelengths::open(&stored(&[9, 9]), EmptyCommit::Skip), Err(Error::IOError)));
}

#[test]
fn a_stream_of_another_schema_is_refused() {
    let wavelengths = Writer::new(&Wavelengths::schema(), false).unwrap().take();
    let intensities = Writer::new(&Intensities::schema(), false).unwrap().take();
    let measurements = Writer::new(&Measurements::schema(ALL), false).unwrap().take();
    assert_eq!(validate(&Wavelengths::schema(), &stored(&intensities)), Err(Error::SchemaError));
    assert_eq!(validate(&Wavelengths::schema(), &stored(&wavelengths)), Ok(()));
    assert!(matches!(Wavelengths::open(&stored(&measurements), EmptyCommit::Skip), Err(Error::SchemaError)));
    assert!(matches!(Intensities::open(&stored(&wavelengths), EmptyCommit::Skip), Err(Error::SchemaError)));
    let fewer = Dimensions { x: true, y: false, z: true, a: false };
    assert!(matches!(Measurements::open(&stored(&measurements), fewer, EmptyCommit::Skip), Err(Error::SchemaError)));
    assert!(Measurements::open(&stored(&measurements), ALL, EmptyCommit::Skip).is_ok());
}

fn wavelength_stream(name: &str, kind: Option<ColumnKind>, nullable: bool, metadata: bool, batch: Vec<Column>) -> Stored {
    Stored::Stream(StoredStream {
        fields: vec![
            StoredField { name: "id".to_string(), kind: Some(ColumnKind::UInt32), nullable: false },
            StoredField { name: name.to_string(), kind, nullable },
        ],
        metadata,
        batches: vec![batch],
    })
}

#[test]
fn a_stream_is_refused_for_each_way_in_which_it_differs() {
    let schema = Wavelengths::schema();
    let good = || vec![Column::UInt32(vec![1, 2]), Column::Float64(vec![3, 4])];
    let float = Some(ColumnKind::Float64);
    assert_eq!(validate(&schema, &wavelength_stream("nm", float, false, false, good())), Ok(()));
    assert_eq!(validate(&schema, &wavelength_stream("mm", float, false, false, good())), Err(Error::SchemaError));
    assert_eq!(validate(&schema, &wavelength_stream("nm", None, false, false, good())), Err(Error::SchemaError));
    assert_eq!(
        validate(&schema, &wavelength_stream("nm", Some(ColumnKind::UInt32), false, false, good())),
        Err(Error::SchemaError)
    );
    assert_eq!(validate(&schema, &wavelength_stream("nm", float, true, false, good())), Err(Error::SchemaError));
    assert_eq!(validate(&schema, &wavelength_stream("nm", float, false, true, good())), Err(Error::SchemaError));
    let short = vec![Column::UInt32(vec![1, 2]), Column::Float64(vec![3])];
    assert_eq!(validate(&schema, &wavelength_stream("nm", float, false, false, short)), Err(Error::SchemaError));
    let swapped = vec![Column::Float64(vec![3, 4]), Column::UInt32(vec![1, 2])];
    assert_eq!(validate(&schema, &wavelength_stream("nm", float, false, false, swapped)), Err(Error::SchemaError));
    let one = vec![Column::UInt32(vec![1, 2])];
    assert_eq!(validate(&schema, &wavelength_stream("nm", float, false, false, one)), Err(Error::SchemaError));
    assert!(!fits(&schema, &vec![]));
    assert!(fits(&schema, &good()));
    assert!(matches!(
        Wavelengths::open(&wavelength_stream("nm", float, false, true, good()), EmptyCommit::Skip),
        Err(Error::SchemaError)
    ));
}

#[test]
fn a_table_opened_on_a_stored_stream_goes_on_where_the_stream_ends() {
    let float = Some(ColumnKind::Float64);
    let batch = vec![Column::UInt32(vec![0, 1, 5]), Column::Float64(vec![double(500.0), double(350.0), double(632.8)])];
    let held = wavelength_stream("nm", float, false, false, batch);
    let mut table = Wavelengths::open(&held, EmptyCommit::Skip).unwrap();
    assert_eq!(table.take(), Vec::<u8>::new());
    let known: Vec<u32> = table.records().iter().map(|record| record.id).collect();
    assert_eq!(known, vec![1, 0, 5]);
    assert_eq!(table.push(vec![double(632.8), double(1.0), double(350.0)]), Ok(vec![5, 6, 1]));
}

#[test]
fn the_schemas_have_the_columns_of_their_tables() {
    let wavelengths = Wavelengths::schema();
    let names: Vec<&str> = wavelengths.fields.iter().map(|field| field.name).collect();
    let kinds: Vec<ColumnKind> = wavelengths.fields.iter().map(|field| field.kind).collect();
    assert_eq!(names, vec!["id", "nm"]);
    assert_eq!(kinds, vec![ColumnKind::UInt32, ColumnKind::Float64]);
    let intensities = Intensities::schema();
    let names: Vec<&str> = intensities.fields.iter().map(|field| field.name).collect();
    let kinds: Vec<ColumnKind> = intensities.fields.iter().map(|field| field.kind).collect();
    assert_eq!(names, vec!["measurement", "wavelength", "intensity"]);
    assert_eq!(kinds, vec![ColumnKind::UInt32, ColumnKind::UInt32, ColumnKind::Float64]);
    let measurements = Measurements::schema(ALL);
    let names: Vec<&str> = measurements.fields.iter().map(|field| field.name).collect();
    assert_eq!(names, vec!["id", "timestamp", "x", "y", "z", "a", "integration"]);
    let some = Measurements::schema(Dimensions { x: false, y: true, z: false, a: true });
    let names: Vec<&str> = some.fields.iter().map(|field| field.name).collect();
    let kinds: Vec<ColumnKind> = some.fields.iter().map(|field| field.kind).collect();
    assert_eq!(names, vec!["id", "timestamp", "y", "a", "integration"]);
    assert_eq!(
        kinds,
        vec![ColumnKind::UInt32, ColumnKind::Timestamp, ColumnKind::Float64, ColumnKind::Float64, ColumnKind::Duration]
    );
    let none = Measurements::schema(Dimensions { x: false, y: false, z: false, a: false });
    assert_eq!(none.fields.len(), 3);
}

#[test]
fn the_header_of_a_measurement_stream_has_the_arrow_types() {
    let header = Writer::new(&Measurements::schema(ALL), false).unwrap().take();
    let reader = StreamReader::try_new(header.as_slice(), None).unwrap();
    let schema = reader.schema();
    assert_eq!(schema.field(0).data_type(), &DataType::UInt32);
    assert_eq!(schema.field(1).data_type(), &DataType::Timestamp(TimeUnit::Microsecond, None));
    assert_eq!(schema.field(2).data_type(), &DataType::Float64);
    assert_eq!(schema.field(5).name(), "a");
    assert_eq!(schema.field(6).data_type(), &DataType::Duration(TimeUnit::Microsecond));
    assert!(schema.metadata().is_empty());
}

#[test]
fn a_commit_without_rows_follows_the_policy() {
    let mut skipping = Intensities::open(&Stored::Absent, EmptyCommit::Skip).unwrap();
    let header = skipping.take();
    assert_eq!(skipping.commit(), Ok(()));
    assert_eq!(skipping.take(), Vec::<u8>::new());

    let mut writing = Intensities::open(&Stored::Absent, EmptyCommit::Write).unwrap();
    assert_eq!(writing.take(), header);
    assert_eq!(writing.commit(), Ok(()));
    let message = writing.take();
    assert!(message.len() > 0);
    let mut file = header.clone();
    file.extend(message);
    let batches = read(&file);
    assert_eq!(batches.len(), 1);
    assert_eq!(batches[0].num_rows(), 0);
    assert_eq!(batches[0].num_columns(), 3);

    let mut wavelengths = Wavelengths::open(&Stored::Absent, EmptyCommit::Write).unwrap();
    let mut file = wavelengths.take();
    assert_eq!(wavelengths.commit(), Ok(()));
    file.extend(wavelengths.take());
    assert_eq!(read(&file).len(), 1);
    let mut measurements = Measurements::open(&Stored::Absent, ALL, EmptyCommit::Write).unwrap();
    let mut file = measurements.take();
    assert_eq!(measurements.commit(), Ok(()));
    file.extend(measurements.take());
    assert_eq!(read(&file).len(), 1);
    let mut measurements = Measurements::open(&Stored::Absent, ALL, EmptyCommit::Skip).unwrap();
    let mut file = measurements.take();
    assert_eq!(measurements.commit(), Ok(()));
    file.extend(measurements.take());
    assert_eq!(read(&file).len(), 0);
}

#[test]
fn a_released_table_refuses_pushes_and_commits_and_keeps_its_rows() {
    let mut wavelengths = Wavelengths::open(&Stored::Absent, EmptyCommit::Skip).unwrap();
    assert_eq!(wavelengths.push(vec![double(500.0)]), Ok(vec![0]));
    wavelengths.release();
    assert_eq!(wavelengths.push(vec![double(500.0)]), Err(Error::IOError));
    assert_eq!(wavelengths.push(vec![double(600.0)]), Err(Error::IOError));
    assert_eq!(wavelengths.commit(), Err(Error::IOError));
    assert_eq!(wavelengths.buffered(), 1);
    assert!(wavelengths.take().len() > 0);

    let mut measurements = Measurements::open(&Stored::Absent, ALL, EmptyCommit::Skip).unwrap();
    assert_eq!(measurements.push_at(1, 2, 3, 4, 5, 6), Ok(0));
    measurements.release();
    assert_eq!(measurements.push_at(1, 2, 3, 4, 5, 6), Err(Error::IOError));
    assert_eq!(measurements.push(2, 3, 4, 5, 6), Err(Error::IOError));
    assert_eq!(measurements.commit(), Err(Error::IOError));
    assert_eq!(measurements.buffered(), 1);

    let mut intensities = Intensities::open(&Stored::Absent, EmptyCommit::Skip).unwrap();
    assert_eq!(intensities.push(0, vec![1], vec![2]), Ok(()));
    intensities.release();
    assert_eq!(intensities.push(0, vec![1], vec![2]), Err(Error::IOError));
    assert_eq!(intensities.push(0, vec![1], vec![]), Err(Error::IOError));
    assert_eq!(intensities.commit(), Err(Error::IOError));
    assert_eq!(intensities.buffered(), 1);
}

#[test]
fn a_wavelength_table_resumes_from_its_records() {
    let stream = Writer::new(&Wavelengths::schema(), true).unwrap();
    let records = vec![
        Record::new(0, double(500.0)),
        Record::new(1, double(350.0)),
        Record::new(2, double(632.8)),
        Record::new(6, double(500.0 + 1e-13)),
        Record::new(4, double(f64::NAN)),
    ];
    let mut table = Wavelengths::resume(stream, &records, EmptyCommit::Skip);
    let known: Vec<u32> = table.records().iter().map(|record| record.id).collect();
    assert_eq!(known, vec![1, 0, 2]);
    assert_eq!(table.remaining(), (1u64 << 32) - 7);
    assert_eq!(table.push(vec![double(632.8), double(1.0), double(500.0), double(350.0)]), Ok(vec![2, 7, 0, 1]));
    assert_eq!(table.buffered(), 1);
}

#[test]
fn a_wavelength_table_without_keys_left_refuses_new_wavelengths_only() {
    let stream = Writer::new(&Wavelengths::schema(), true).unwrap();
    let records = vec![Record::new(u32::MAX - 1, double(500.0))];
    let mut table = Wavelengths::resume(stream, &records, EmptyCommit::Skip);
    assert_eq!(table.remaining(), 1);
    assert_eq!(table.push(vec![double(500.0), double(1.0), double(2.0)]), Err(Error::Exhausted));
    assert_eq!(table.buffered(), 0);
    assert_eq!(table.remaining(), 1);
    assert_eq!(table.records().len(), 1);
    assert_eq!(table.push(vec![double(500.0), double(1.0), double(1.0)]), Ok(vec![u32::MAX - 1, u32::MAX, u32::MAX]));
    assert_eq!(table.remaining(), 0);
    assert_eq!(table.push(vec![double(f64::NAN)]), Err(Error::Exhausted));
    assert_eq!(table.push(vec![double(1.0), double(500.0)]), Ok(vec![u32::MAX, u32::MAX - 1]));
    assert_eq!(table.buffered(), 1);
}

#[test]
fn infinities_and_nans_get_a_new_key_each_time() {
    let mut table = Wavelengths::open(&Stored::Absent, EmptyCommit::Skip).unwrap();
    let values = vec![double(f64::NAN), double(f64::NAN), double(f64::INFINITY), double(f64::INFINITY), double(1.0)];
    assert_eq!(table.push(values.clone()), Ok(vec![0, 1, 2, 3, 4]));
    assert_eq!(table.push(values), Ok(vec![5, 6, 7, 8, 4]));
    assert_eq!(table.records().len(), 1);
    assert_eq!(table.buffered(), 9);
}

#[test]
fn a_measurement_table_resumes_from_its_keys() {
    let stream = Writer::new(&Measurements::schema(ALL), true).unwrap();
    let mut table = Measurements::resume(stream, &vec![0, 1, 2], ALL, EmptyCommit::Skip);
    assert_eq!(table.push_at(10, 1, 2, 3, 4, 5), Ok(3));
    assert_eq!(table.push(1, 2, 3, 4, 5), Ok(4));
    assert_eq!(table.buffered(), 2);
    let stream = Writer::new(&Measurements::schema(ALL), true).unwrap();
    let mut full = Measurements::resume(stream, &vec![u32::MAX], ALL, EmptyCommit::Skip);
    assert_eq!(full.remaining(), 0);
    assert_eq!(full.push_at(10, 1, 2, 3, 4, 5), Err(Error::Exhausted));
    assert_eq!(full.push(1, 2, 3, 4, 5), Err(Error::Exhausted));
    assert_eq!(full.buffered(), 0);
}

#[test]
fn test_add_measurements() {
    let mut m = Measurements::open(&Stored::Absent, ALL, EmptyCommit::Skip).unwrap();
    let header = m.take();
    let first = m.push(double(1.0), double(2.0), double(3.0), double(0.1), 500_000).unwrap();
    m.commit().unwrap();
    let one = m.take();
    let second = m.push(double(4.0), double(5.0), double(6.0), double(0.2), 1_000_000).unwrap();
    m.commit().unwrap();
    let two = m.take();
    assert_eq!(first, 0);
    assert_eq!(second, 1);
    let mut file = header.clone();
    assert_eq!(read(&file).len(), 0);
    file.extend(one);
    file.extend(two);
    let batches = read(&file);
    assert_eq!(batches.len(), 2);
    assert_eq!(batches[0].num_rows(), 1);
    assert_eq!(batches[1].num_rows(), 1);
    assert_eq!(m.remaining(), (1u64 << 32) - 2);
}

#[test]
fn a_measurement_records_the_active_dimensions_only() {
    let dimensions = Dimensions { x: true, y: false, z: false, a: true };
    let mut table = Measurements::open(&Stored::Absent, dimensions, EmptyCommit::Skip).unwrap();
    assert_eq!(table.push_at(1_700_000_000_000_000, double(1.5), double(2.5), double(3.5), double(4.5), 250), Ok(0));
    assert_eq!(table.push_at(1_700_000_000_000_001, double(5.5), double(6.5), double(7.5), double(8.5), 500), Ok(1));
    table.commit().unwrap();
    assert_eq!(table.buffered(), 0);
    let batches = read(&table.take());
    assert_eq!(batches.len(), 1);
    let batch = &batches[0];
    assert_eq!(batch.num_columns(), 5);
    assert_eq!(batch.column(0).as_primitive::<arrow::datatypes::UInt32Type>().values().to_vec(), vec![0, 1]);
    assert_eq!(
        batch.column(1).as_primitive::<arrow::datatypes::TimestampMicrosecondType>().values().to_vec(),
        vec![1_700_000_000_000_000, 1_700_000_000_000_001]
    );
    assert_eq!(batch.column_by_name("x").unwrap().as_primitive::<arrow::datatypes::Float64Type>().values().to_vec(), vec![1.5, 5.5]);
    assert_eq!(batch.column_by_name("a").unwrap().as_primitive::<arrow::datatypes::Float64Type>().values().to_vec(), vec![4.5, 8.5]);
    assert!(batch.column_by_name("y").is_none());
    assert_eq!(
        batch.column(4).as_primitive::<arrow::datatypes::DurationMicrosecondType>().values().to_vec(),
        vec![250, 500]
    );
}

#[test]
fn a_measurement_is_stamped_with_the_time_of_the_push() {
    let mut table = Measurements::open(&Stored::Absent, ALL, EmptyCommit::Skip).unwrap();
    table.push(1, 2, 3, 4, 5).unwrap();
    table.push(1, 2, 3, 4, 5).unwrap();
    table.commit().unwrap();
    let batches = read(&table.take());
    let stamps = batches[0].column(1).as_primitive::<arrow::datatypes::TimestampMicrosecondType>().values().to_vec();
    // Later than the first of January 2020, and in order.
    assert!(stamps[0] > 1_577_836_800_000_000);
    assert!(stamps[0] <= stamps[1]);
}

#[test]
fn a_failed_intensity_push_buffers_nothing() {
    let mut table = Intensities::open(&Stored::Absent, EmptyCommit::Skip).unwrap();
    assert_eq!(table.push(3, vec![0, 1, 2], vec![double(1.0), double(2.0)]), Err(Error::ValidationError));
    assert_eq!(table.push(3, vec![], vec![double(1.0)]), Err(Error::ValidationError));
    assert_eq!(table.buffered(), 0);
    assert_eq!(table.push(3, vec![], vec![]), Ok(()));
    assert_eq!(table.buffered(), 0);
    assert_eq!(table.push(3, vec![5], vec![double(1.0)]), Ok(()));
    assert_eq!(table.buffered(), 1);
}

#[test]
fn rows_pushed_after_a_commit_go_into_the_next_batch() {
    let mut table = Wavelengths::open(&Stored::Absent, EmptyCommit::Skip).unwrap();
    let mut file = table.take();
    table.push(vec![double(3.0), double(1.0)]).unwrap();
    table.commit().unwrap();
    file.extend(table.take());
    table.push(vec![double(1.0), double(2.0), double(3.0), double(0.0)]).unwrap();
    assert_eq!(table.buffered(), 2);
    table.commit().unwrap();
    file.extend(table.take());
    let batches = read(&file);
    assert_eq!(batches.len(), 2);
    assert_eq!(batches[0].column(0).as_primitive::<arrow::datatypes::UInt32Type>().values().to_vec(), vec![0, 1]);
    assert_eq!(batches[0].column(1).as_primitive::<arrow::datatypes::Float64Type>().values().to_vec(), vec![3.0, 1.0]);
    assert_eq!(batches[1].column(0).as_primitive::<arrow::datatypes::UInt32Type>().values().to_vec(), vec![2, 3]);
    assert_eq!(batches[1].column(1).as_primitive::<arrow::datatypes::Float64Type>().values().to_vec(), vec![2.0, 0.0]);
}

#[test]
fn errors_describe_themselves() {
    assert_eq!(Error::IOError.message(), "IO Error: the stream cannot be read or written");
    assert_eq!(Error::SchemaError.message(), "Schema Error: the columns do not match the schema");
    assert_eq!(Error::ValidationError.message(), "Validation Error: the arguments do not fit together");
    assert_eq!(Error::Exhausted.message(), "Exhausted: no identifier is left");
}

#[test]
fn bit_patterns_pass_through_the_buffer_unchanged() {
    let patterns = vec![
        double(0.5),
        double(-0.0),
        double(f64::INFINITY),
        0x7ff8_0000_0000_0001,
        0xfff8_dead_beef_0000,
        1,
        u64::MAX,
    ];
    let mut table = Intensities::open(&Stored::Absent, EmptyCommit::Skip).unwrap();
    let mut file = table.take();
    table.push(9, vec![0, 1, 2, 3, 4, 5, 6], patterns.clone()).unwrap();
    assert_eq!(table.buffered(), 7);
    table.commit().unwrap();
    assert_eq!(table.buffered(), 0);
    file.extend(table.take());
    let batches = read(&file);
    let written: Vec<u64> = batches[0]
        .column(2)
        .as_primitive::<arrow::datatypes::Float64Type>()
        .values()
        .iter()
        .map(|value| value.to_bits())
        .collect();
    assert_eq!(written, patterns);
    match stored(&file) {
        Stored::Stream(held) => assert!(matches!(&held.batches[0][2], Column::Float64(v) if v == &patterns)),
        other => panic!("{:?} is no stream", other),
    }
}

#[test]
fn a_measurement_buffer_is_empty_after_a_commit_and_keeps_counting() {
    let mut table = Measurements::open(&Stored::Absent, ALL, EmptyCommit::Skip).unwrap();
    let mut file = table.take();
    assert_eq!(table.push_at(-7, 1, 2, 3, 4, i64::MIN), Ok(0));
    assert_eq!(table.push_at(8, 5, 6, 7, 8, i64::MAX), Ok(1));
    assert_eq!(table.buffered(), 2);
    assert_eq!(table.commit(), Ok(()));
    assert_eq!(table.buffered(), 0);
    assert_eq!(table.push_at(9, 0, 0, 0, 0, 0), Ok(2));
    assert_eq!(table.buffered(), 1);
    assert_eq!(table.commit(), Ok(()));
    file.extend(table.take());
    let batches = read(&file);
    assert_eq!(batches.len(), 2);
    assert_eq!(
        batches[0].column(1).as_primitive::<arrow::datatypes::TimestampMicrosecondType>().values().to_vec(),
        vec![-7, 8]
    );
    assert_eq!(
        batches[0].column(6).as_primitive::<arrow::datatypes::DurationMicrosecondType>().values().to_vec(),
        vec![i64::MIN, i64::MAX]
    );
    assert_eq!(batches[1].column(0).as_primitive::<arrow::datatypes::UInt32Type>().values().to_vec(), vec![2]);
    let reopened = Measurements::open(&stored(&file), ALL, EmptyCommit::Skip).unwrap();
    assert_eq!(reopened.remaining(), (1u64 << 32) - 3);
}
