//! The columnar stream of one table, in the Arrow IPC streaming format.
//!
//! The stream is kept in memory: a schema header, written once, and one
//! message per committed batch. Its owner drains the bytes and appends them
//! to the table's file. The encoding is the `arrow` crate's; what this
//! module states of it is taken on trust from that crate. What a file
//! already holds comes in as plain values, read by the owner of the file,
//! and is checked here against the table's schema.

use vstd::prelude::*;
use arrow::array::Array;
use arrow::array::DurationMicrosecondArray;
use arrow::array::Float64Array;
use arrow::array::RecordBatch;
use arrow::array::TimestampMicrosecondArray;
use arrow::array::UInt32Array;
use arrow::buffer::Buffer;
use arrow::datatypes::DataType;
use arrow::datatypes::TimeUnit;
use arrow::error::ArrowError;
use arrow::ipc::writer::StreamWriter;
use crate::error::Error;
use crate::schema::conforms;
use crate::schema::views;
use crate::schema::Column;
use crate::schema::ColumnKind;
use crate::schema::TableSchema;

verus! {

/// The schema type of the `arrow` crate, carried through as it is.
#[verifier::external_type_specification]
#[verifier::external_body]
pub struct ExArrowSchema(arrow::datatypes::Schema);

/// The error type of the `arrow` crate, carried through as it is.
#[verifier::external_type_specification]
#[verifier::external_body]
pub struct ExArrowError(arrow::error::ArrowError);

/// The stream writer of the `arrow` crate, carried through as it is.
#[verifier::external_type_specification]
#[verifier::external_body]
#[verifier::reject_recursive_types(W)]
pub struct ExStreamWriter<W>(arrow::ipc::writer::StreamWriter<W>);

/// A record batch of the `arrow` crate: columns of one length under a
/// schema. Nothing is known of what is inside it but what the functions
/// below state.
#[verifier::external_body]
pub struct Batch {
    inner: RecordBatch,
}

/// The names and types of the fields of an Arrow schema, in order, where
/// the schema is one of non-nullable fields of the four kinds, without
/// metadata; `None` for any other schema.
pub uninterp spec fn schema_fields(schema: arrow::datatypes::Schema) -> Option<Seq<(Seq<char>, ColumnKind)>>;

/// The types and values of the columns of a record batch, in order, where
/// each column is of one of the four kinds and has no validity buffer;
/// `None` for any other batch.
pub uninterp spec fn batch_columns(batch: Batch) -> Option<Seq<(ColumnKind, Seq<int>)>>;

/// The bytes that a stream writer has written to its sink.
pub uninterp spec fn stream_bytes(stream: StreamWriter<Vec<u8>>) -> Seq<u8>;

/// Whether a stream writer has been finished, and so takes no batch any
/// more.
pub uninterp spec fn stream_finished(stream: StreamWriter<Vec<u8>>) -> bool;

/// The header of a stream: the schema message of non-nullable fields of
/// the given names and types, without metadata, under the default write
/// options.
pub uninterp spec fn schema_message(fields: Seq<(Seq<char>, ColumnKind)>) -> Seq<u8>;

/// The message of one batch of the given columns, none with a validity
/// buffer, under the default write options.
pub uninterp spec fn batch_message(columns: Seq<(ColumnKind, Seq<int>)>) -> Seq<u8>;

/// `arrow::datatypes::Schema::new` on one non-nullable field, made by
/// `Field::new`, for each field of the table's schema: the Arrow schema has
/// the same names, in order, and for each kind the Arrow type that stands
/// for it.
#[verifier::external_body]
fn arrow_schema(schema: &TableSchema) -> (made: arrow::datatypes::Schema)
    ensures
        schema_fields(made) == Some(schema@),
{
    arrow::datatypes::Schema::new(schema.fields.iter().map(|field| arrow::datatypes::Field::new(
        field.name,
        match field.kind {
            ColumnKind::UInt32 => DataType::UInt32,
            ColumnKind::Float64 => DataType::Float64,
            ColumnKind::Timestamp => DataType::Timestamp(TimeUnit::Microsecond, None),
            ColumnKind::Duration => DataType::Duration(TimeUnit::Microsecond),
        },
        false,
    )).collect::<Vec<_>>())
}

/// `arrow::array::RecordBatch::try_new` on arrays made of the given
/// columns, each without a validity buffer. Under a schema of the four
/// kinds it succeeds exactly where there is at least one column, the
/// columns are as many as the fields, each has the type of its field, and
/// all have one length. A batch that it returns holds the columns as given.
#[verifier::external_body]
fn record_batch(schema: &arrow::datatypes::Schema, columns: &Vec<Column>) -> (made: Result<Batch, ArrowError>)
    ensures
        schema_fields(*schema) is Some ==> (made is Ok <==> conforms(
            schema_fields(*schema)->Some_0,
            views(columns@),
        )),
        made is Ok ==> batch_columns(made->Ok_0) == Some(views(columns@)),
{
    let arrays = columns.iter().map(|column| arrow::array::make_array(match column {
        Column::UInt32(v) => UInt32Array::from(v.clone()).into_data(),
        Column::Float64(v) => Float64Array::new(Buffer::from_vec(v.clone()).into(), None).into_data(),
        Column::Timestamp(v) => TimestampMicrosecondArray::from(v.clone()).into_data(),
        Column::Duration(v) => DurationMicrosecondArray::from(v.clone()).into_data(),
    })).collect();
    RecordBatch::try_new(std::sync::Arc::new(schema.clone()), arrays).map(|inner| Batch { inner })
}

/// `arrow::ipc::writer::StreamWriter::try_new` on an empty sink. It
/// succeeds for a schema of the four kinds: the format has a place for each
/// of them, and the sink does not fail. The new writer is not finished, and
/// has written the header of the schema and nothing else.
#[verifier::external_body]
fn stream_open(schema: &arrow::datatypes::Schema) -> (made: Result<StreamWriter<Vec<u8>>, ArrowError>)
    ensures
        schema_fields(*schema) is Some ==> made is Ok,
        made is Ok ==> !stream_finished(made->Ok_0),
        made is Ok && schema_fields(*schema) is Some ==> stream_bytes(made->Ok_0) == schema_message(
            schema_fields(*schema)->Some_0,
        ),
{
    StreamWriter::try_new(Vec::new(), schema)
}

/// `arrow::ipc::writer::StreamWriter::write`: what was written stays, and
/// on success the message of the batch follows it. A writer that is not
/// finished takes a batch of columns of the four kinds: the sink does not
/// fail. Writing finishes no writer.
#[verifier::external_body]
fn stream_write(stream: &mut StreamWriter<Vec<u8>>, batch: &Batch) -> (done: Result<(), ArrowError>)
    ensures
        stream_bytes(*old(stream)).is_prefix_of(stream_bytes(*final(stream))),
        stream_finished(*final(stream)) == stream_finished(*old(stream)),
        !stream_finished(*old(stream)) && batch_columns(*batch) is Some ==> done is Ok,
        done is Ok && batch_columns(*batch) is Some ==> stream_bytes(*final(stream)) == stream_bytes(
            *old(stream),
        ) + batch_message(batch_columns(*batch)->Some_0),
{
    stream.write(&batch.inner)
}

/// `arrow::ipc::writer::StreamWriter::get_mut`, to take the written bytes
/// out of the sink and leave it empty. The writer is finished no more and
/// no less than before.
#[verifier::external_body]
fn stream_take(stream: &mut StreamWriter<Vec<u8>>) -> (bytes: Vec<u8>)
    ensures
        bytes@ == stream_bytes(*old(stream)),
        stream_bytes(*final(stream)) == Seq::<u8>::empty(),
        stream_finished(*final(stream)) == stream_finished(*old(stream)),
{
    std::mem::take(stream.get_mut())
}

/// `arrow::ipc::writer::StreamWriter::get_ref`, for the number of bytes in
/// the sink.
#[verifier::external_body]
fn stream_len(stream: &StreamWriter<Vec<u8>>) -> (n: usize)
    ensures
        n == stream_bytes(*stream).len(),
{
    stream.get_ref().len()
}

/// What a commit does where no row is buffered.
#[derive(Clone, Copy, Debug, PartialEq, Eq, Structural)]
pub enum EmptyCommit {
    /// Nothing is written.
    Skip,
    /// A batch without rows is written.
    Write,
}

/// What a write returns for each outcome of the stream.
pub fn written(done: Result<(), ArrowError>) -> (result: Result<(), Error>)
    ensures
        result == match done {
            Ok(()) => Ok::<(), Error>(()),
            Err(_) => Err::<(), Error>(Error::IOError),
        },
{
    match done {
        Ok(()) => Ok(()),
        Err(_) => Err(Error::IOError),
    }
}

/// The stream of one table: the bytes that are still to be appended to the
/// table's file.
pub struct Writer {
    schema: arrow::datatypes::Schema,
    stream: StreamWriter<Vec<u8>>,
    open: bool,
}

impl Writer {
    /// The names and types of the columns that the stream takes.
    pub closed spec fn fields(&self) -> Seq<(Seq<char>, ColumnKind)> {
        schema_fields(self.schema)->Some_0
    }

    /// The stream's schema is one of the four kinds, and its writer is not
    /// finished.
    pub closed spec fn wf(&self) -> bool {
        &&& schema_fields(self.schema) is Some
        &&& !stream_finished(self.stream)
    }

    /// The bytes written and not yet taken.
    pub closed spec fn pending(&self) -> Seq<u8> {
        stream_bytes(self.stream)
    }

    /// Whether the stream still takes batches.
    pub closed spec fn is_open(&self) -> bool {
        self.open
    }

    /// The stream of a table. A new table starts it with the schema's
    /// header; a table that exists has its header already, and starts with
    /// nothing to append. It does not fail: the format has a place for
    /// every schema of the four kinds.
    pub fn new(schema: &TableSchema, exists: bool) -> (made: Result<Writer, Error>)
        ensures
            made is Ok,
            match made {
                Ok(writer) => {
                    &&& writer.wf()
                    &&& writer.is_open()
                    &&& writer.fields() == schema@
                    &&& writer.pending() == if exists {
                        Seq::<u8>::empty()
                    } else {
                        schema_message(schema@)
                    }
                },
                Err(error) => error == Error::SchemaError,
            },
    {
        let converted = arrow_schema(schema);
        match stream_open(&converted) {
            Ok(stream) => {
                let mut writer = Writer { schema: converted, stream, open: true };
                if exists {
                    let _ = stream_take(&mut writer.stream);
                }
                Ok(writer)
            },
            Err(_) => Err(Error::SchemaError),
        }
    }

    /// Whether the stream still takes batches.
    pub fn accepts(&self) -> (open: bool)
        ensures
            open == self.is_open(),
    {
        self.open
    }

    /// Appends one batch of the given columns, as one message. A released
    /// stream fails with `IOError`, columns that do not fit the schema fail
    /// with `SchemaError`, and nothing is written in either case.
    pub fn write(&mut self, columns: &Vec<Column>) -> (result: Result<(), Error>)
        requires
            old(self).wf(),
        ensures
            final(self).wf(),
            final(self).fields() == old(self).fields(),
            final(self).is_open() == old(self).is_open(),
            old(self).pending().is_prefix_of(final(self).pending()),
            !old(self).is_open() ==> {
                &&& result == Err::<(), Error>(Error::IOError)
                &&& final(self).pending() == old(self).pending()
            },
            old(self).is_open() && !conforms(old(self).fields(), views(columns@)) ==> {
                &&& result == Err::<(), Error>(Error::SchemaError)
                &&& final(self).pending() == old(self).pending()
            },
            old(self).is_open() && conforms(old(self).fields(), views(columns@)) ==> {
                &&& result is Ok
                &&& final(self).pending() == old(self).pending() + batch_message(views(columns@))
            },
    {
        if !self.open {
            proof {
                assert(self.pending().is_prefix_of(self.pending()));
            }
            return Err(Error::IOError);
        }
        match record_batch(&self.schema, columns) {
            Ok(batch) => written(stream_write(&mut self.stream, &batch)),
            Err(_) => Err(Error::SchemaError),
        }
    }

    /// The number of bytes written and not yet taken.
    pub fn len(&self) -> (n: usize)
        ensures
            n == self.pending().len(),
    {
        stream_len(&self.stream)
    }

    /// Takes the bytes that are to be appended to the table's file.
    pub fn take(&mut self) -> (bytes: Vec<u8>)
        ensures
            bytes@ == old(self).pending(),
            final(self).pending() == Seq::<u8>::empty(),
            final(self).fields() == old(self).fields(),
            final(self).wf() == old(self).wf(),
            final(self).is_open() == old(self).is_open(),
    {
        stream_take(&mut self.stream)
    }

    /// Releases the stream: it takes no batch from now on. What was written
    /// can still be taken.
    pub fn release(&mut self)
        ensures
            !final(self).is_open(),
            final(self).pending() == old(self).pending(),
            final(self).fields() == old(self).fields(),
            final(self).wf() == old(self).wf(),
    {
        self.open = false;
    }
}

/// One field of the header of a stored stream, as it was read.
#[derive(Debug)]
pub struct StoredField {
    /// The field's name.
    pub name: String,
    /// The field's type, or `None` where no kind stands for it.
    pub kind: Option<ColumnKind>,
    /// Whether the field may hold nulls.
    pub nullable: bool,
}

/// What a stored stream holds, as plain values.
#[derive(Debug)]
pub struct StoredStream {
    /// The fields of the header, in order.
    pub fields: Vec<StoredField>,
    /// Whether the header carries metadata beside its fields.
    pub metadata: bool,
    /// The batches, in order, each as its columns.
    pub batches: Vec<Vec<Column>>,
}

/// What the file of a table was found to hold when it was read.
#[derive(Debug)]
pub enum Stored {
    /// There is no file yet, or an empty one: the table is new.
    Absent,
    /// The file cannot be read as a stream.
    Unreadable,
    /// The file holds this stream.
    Stream(StoredStream),
}

/// The header of a stored stream is that of a table of the given fields:
/// the same names and types in the same order, no field nullable, and no
/// metadata.
pub open spec fn header_fits(fields: Seq<(Seq<char>, ColumnKind)>, stream: StoredStream) -> bool {
    &&& !stream.metadata
    &&& stream.fields@.len() == fields.len()
    &&& forall|i: int|
        0 <= i < fields.len() ==> {
            &&& (#[trigger] stream.fields@[i]).name@ == fields[i].0
            &&& stream.fields@[i].kind == Some(fields[i].1)
            &&& !stream.fields@[i].nullable
        }
}

/// A stored stream is one of a table of the given fields: its header fits,
/// and the columns of each batch fit.
pub open spec fn stream_fits(fields: Seq<(Seq<char>, ColumnKind)>, stream: StoredStream) -> bool {
    &&& header_fits(fields, stream)
    &&& forall|b: int| 0 <= b < stream.batches@.len() ==> conforms(fields, views((#[trigger] stream.batches@[b])@))
}

/// Whether a table of the given fields can be opened on what its file
/// holds: a file that cannot be read gives `IOError`, a stream of another
/// schema gives `SchemaError`.
pub open spec fn verdict(fields: Seq<(Seq<char>, ColumnKind)>, stored: Stored) -> Result<(), Error> {
    match stored {
        Stored::Absent => Ok(()),
        Stored::Unreadable => Err(Error::IOError),
        Stored::Stream(stream) => if stream_fits(fields, stream) {
            Ok(())
        } else {
            Err(Error::SchemaError)
        },
    }
}

impl Stored {
    /// The batches that the file holds: those of its stream, and none where
    /// it has no stream.
    pub open spec fn batches(&self) -> Seq<Vec<Column>> {
        match self {
            Stored::Stream(stream) => stream.batches@,
            _ => Seq::empty(),
        }
    }
}

/// Whether the columns fit the schema.
pub fn fits(schema: &TableSchema, columns: &Vec<Column>) -> (yes: bool)
    ensures
        yes == conforms(schema@, views(columns@)),
{
    if columns.len() == 0 || columns.len() != schema.fields.len() {
        return false;
    }
    let rows = columns[0].len();
    let mut i: usize = 0;
    while i < columns.len()
        invariant
            i <= columns.len(),
            columns.len() == schema.fields.len(),
            columns@.len() > 0,
            rows == columns@[0].values().len(),
            forall|j: int| 0 <= j < i ==> (#[trigger] columns@[j]).spec_kind() == schema.fields@[j].kind,
            forall|j: int| 0 <= j < i ==> (#[trigger] columns@[j]).values().len() == rows,
        decreases columns.len() - i,
    {
        if columns[i].kind() != schema.fields[i].kind || columns[i].len() != rows {
            proof {
                let seen = views(columns@);
                assert(seen[i as int].0 != schema@[i as int].1 || seen[i as int].1.len() != seen[0].1.len());
            }
            return false;
        }
        i = i + 1;
    }
    proof {
        let seen = views(columns@);
        assert forall|j: int| 0 <= j < seen.len() implies (#[trigger] seen[j]).0 == schema@[j].1 by {
            assert(columns@[j].spec_kind() == schema.fields@[j].kind);
        }
        assert forall|j: int| 0 <= j < seen.len() implies (#[trigger] seen[j]).1.len() == seen[0].1.len() by {
            assert(columns@[j].values().len() == rows);
        }
    }
    true
}

/// Whether the header of a stored stream is that of the schema.
pub fn header_matches(schema: &TableSchema, stream: &StoredStream) -> (yes: bool)
    ensures
        yes == header_fits(schema@, *stream),
{
    if stream.metadata || stream.fields.len() != schema.fields.len() {
        return false;
    }
    let mut i: usize = 0;
    while i < schema.fields.len()
        invariant
            i <= schema.fields.len(),
            !stream.metadata,
            stream.fields.len() == schema.fields.len(),
            forall|j: int|
                0 <= j < i ==> {
                    &&& (#[trigger] stream.fields@[j]).name@ == schema@[j].0
                    &&& stream.fields@[j].kind == Some(schema@[j].1)
                    &&& !stream.fields@[j].nullable
                },
        decreases schema.fields.len() - i,
    {
        let expected = &schema.fields[i];
        let found = &stream.fields[i];
        let same_kind = match found.kind {
            Some(kind) => kind == expected.kind,
            None => false,
        };
        if found.nullable || !same_kind || expected.name.to_owned() != found.name {
            proof {
                assert(schema@[i as int] == expected@);
            }
            return false;
        }
        proof {
            assert(schema@[i as int] == expected@);
        }
        i = i + 1;
    }
    true
}

/// Decides whether a table of the schema can be opened on what its file
/// holds.
pub fn validate(schema: &TableSchema, stored: &Stored) -> (read: Result<(), Error>)
    ensures
        read == verdict(schema@, *stored),
{
    match stored {
        Stored::Absent => Ok(()),
        Stored::Unreadable => Err(Error::IOError),
        Stored::Stream(stream) => {
            if !header_matches(schema, stream) {
                return Err(Error::SchemaError);
            }
            let mut b: usize = 0;
            while b < stream.batches.len()
                invariant
                    b <= stream.batches.len(),
                    *stored == Stored::Stream(*stream),
                    header_fits(schema@, *stream),
                    forall|k: int| 0 <= k < b ==> conforms(schema@, views((#[trigger] stream.batches@[k])@)),
                decreases stream.batches.len() - b,
            {
                if !fits(schema, &stream.batches[b]) {
                    proof {
                        assert(!conforms(schema@, views(stream.batches@[b as int]@)));
                    }
                    return Err(Error::SchemaError);
                }
                b = b + 1;
            }
            Ok(())
        },
    }
}

} // verus!
