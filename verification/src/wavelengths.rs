//! The wavelength table: a deduplicated dimension of wavelengths.
//!
//! A wavelength is pushed as a binary64 number of nanometres, given as its
//! bit pattern. It resolves to the key of a known wavelength within the
//! tolerance, or becomes a new record under the next key. New records are
//! buffered, and a commit moves them into the table's stream.

pub mod builder;
pub mod record;
pub mod resolver;

use vstd::prelude::*;
use crate::allocator::continues;
use crate::allocator::IdAllocator;
use crate::allocator::ID_LIMIT;
use crate::error::Error;
use crate::schema::Column;
use crate::schema::ColumnKind;
use crate::schema::TableField;
use crate::schema::TableSchema;
use crate::stream::batch_message;
use crate::stream::validate;
use crate::stream::verdict;
use crate::stream::Stored;
use crate::stream::schema_message;
use crate::stream::EmptyCommit;
use crate::stream::Writer;
use crate::tolerance::finite;
use crate::tolerance::near;
use crate::tolerance::is_finite;
use crate::wavelengths::builder::columns_of;
use crate::wavelengths::builder::Builder;
use crate::wavelengths::record::Record;
use crate::wavelengths::resolver::below;
use crate::wavelengths::resolver::learn_all;
use crate::wavelengths::resolver::lemma_learn_all_grows;
use crate::wavelengths::resolver::lemma_learn_all_keeps;
use crate::wavelengths::resolver::lemma_learn_keeps;
use crate::wavelengths::resolver::lemma_learn_next;
use crate::wavelengths::resolver::lemma_not_a_number;
use crate::wavelengths::resolver::lemma_rank_splits;
use crate::wavelengths::resolver::lemma_resolution;
use crate::wavelengths::resolver::lemma_vacant;
use crate::wavelengths::resolver::rank;
use crate::wavelengths::resolver::resolution;
use crate::wavelengths::resolver::separated;
use crate::wavelengths::resolver::Lookup;
use crate::wavelengths::resolver::Outcome;
use crate::wavelengths::resolver::Resolver;

verus! {

/// The columns of the wavelength table.
pub open spec fn fields() -> Seq<(Seq<char>, ColumnKind)> {
    seq![("id"@, ColumnKind::UInt32), ("nm"@, ColumnKind::Float64)]
}

/// The stored records that become known: each number that is near no
/// record admitted before it, in ascending order of wavelength.
pub open spec fn admitted(records: Seq<Record>) -> Seq<Record>
    decreases records.len(),
{
    if records.len() == 0 {
        Seq::empty()
    } else {
        let known = admitted(records.drop_last());
        let last = records.last();
        if finite(last.nm) && resolution(known, last.nm) is None {
            known.insert(rank(known, last.nm) as int, last)
        } else {
            known
        }
    }
}

/// The records that one batch holds: one for each row of a batch of keys
/// and wavelengths, none for a batch of another shape.
pub open spec fn batch_records(batch: Seq<Column>) -> Seq<Record> {
    if batch.len() == 2 {
        match (batch[0], batch[1]) {
            (Column::UInt32(id), Column::Float64(nm)) => if id@.len() == nm@.len() {
                Seq::new(id@.len(), |i: int| Record { id: id@[i], nm: nm@[i] })
            } else {
                Seq::empty()
            },
            _ => Seq::empty(),
        }
    } else {
        Seq::empty()
    }
}

/// The records that some batches hold, batch after batch.
pub open spec fn stored_records(batches: Seq<Vec<Column>>) -> Seq<Record>
    decreases batches.len(),
{
    if batches.len() == 0 {
        Seq::empty()
    } else {
        stored_records(batches.drop_last()) + batch_records(batches.last()@)
    }
}

/// The keys of some records, in order.
pub open spec fn keys(records: Seq<Record>) -> Seq<u32> {
    Seq::new(records.len(), |i: int| records[i].id)
}

/// The admitted records are in order and apart, and each is one of the
/// stored records.
pub proof fn lemma_admitted(records: Seq<Record>)
    ensures
        separated(admitted(records)),
        forall|k: int|
            0 <= k < admitted(records).len() ==> records.contains(#[trigger] admitted(records)[k]),
    decreases records.len(),
{
    if records.len() > 0 {
        let front = records.drop_last();
        let last = records.last();
        let known = admitted(front);
        lemma_admitted(front);
        assert forall|k: int| 0 <= k < known.len() implies records.contains(#[trigger] known[k]) by {
            let j = choose|j: int| 0 <= j < front.len() && front[j] == known[k];
            assert(records[j] == known[k]);
        }
        if finite(last.nm) && resolution(known, last.nm) is None {
            let place = rank(known, last.nm) as int;
            lemma_rank_splits(known, last.nm);
            lemma_resolution(known, last.nm);
            lemma_vacant(known, last.nm, place);
            let grown = known.insert(place, last);
            assert(grown == known.insert(place, Record { id: last.id, nm: last.nm }));
            assert forall|k: int| 0 <= k < grown.len() implies records.contains(#[trigger] grown[k]) by {
                if k < place {
                    assert(grown[k] == known[k]);
                } else if k > place {
                    assert(grown[k] == known[k - 1]);
                } else {
                    assert(records[records.len() - 1] == grown[k]);
                }
            }
        }
    }
}

/// A table can be restored from its stored records at any time: after
/// wavelengths were pushed into a table that was restored from some
/// records, those records and the new ones together restore what the table
/// knows, and their keys are continued by the table's next key.
pub proof fn lemma_restart(stored: Seq<Record>, next: nat, values: Seq<u64>)
    requires
        continues(keys(stored), next),
        learn_all(admitted(stored), next, values).next <= ID_LIMIT,
    ensures
        ({
            let after = learn_all(admitted(stored), next, values);
            &&& admitted(stored + after.fresh) == after.known
            &&& continues(keys(stored + after.fresh), after.next)
        }),
    decreases values.len(),
{
    let known = admitted(stored);
    lemma_admitted(stored);
    assert(below(known, next)) by {
        assert forall|k: int| 0 <= k < known.len() implies (#[trigger] known[k]).id < next by {
            let j = choose|j: int| 0 <= j < stored.len() && stored[j] == known[k];
            assert(keys(stored)[j] == stored[j].id);
        }
    }
    if values.len() == 0 {
        assert(stored + Seq::<Record>::empty() =~= stored);
    } else {
        let front = values.drop_last();
        let nm = values.last();
        let before = learn_all(known, next, front);
        let after = learn_all(known, next, values);
        lemma_learn_all_keeps(known, next, front);
        lemma_learn_keeps(before, nm);
        lemma_restart(stored, next, front);
        let held = stored + before.fresh;
        if resolution(before.known, nm) is None {
            let record = Record { id: before.next as u32, nm };
            assert(stored + after.fresh =~= held.push(record));
            assert(held.push(record).drop_last() =~= held);
            let ids = keys(held.push(record));
            assert(ids[ids.len() - 1] + 1 == after.next);
            assert forall|i: int| 0 <= i < ids.len() implies ids[i] < after.next by {
                if i < held.len() {
                    assert(keys(held)[i] == ids[i]);
                }
            }
        }
    }
}

/// One number pushed into a table whose next key continues the keys of its
/// known records. Where a record is near, the number gets the least key of
/// a near record, which is the key of that record where it is the only near
/// one, and nothing changes. Where none is near, it gets one more than the
/// largest key, which is the key of no known record, and one record of the
/// number under that key is made and becomes known.
pub proof fn lemma_single(known: Seq<Record>, next: nat, nm: u64)
    requires
        separated(known),
        continues(keys(known), next),
        finite(nm),
        learn_all(known, next, seq![nm]).next <= ID_LIMIT,
    ensures
        ({
            let after = learn_all(known, next, seq![nm]);
            match resolution(known, nm) {
                Some(id) => {
                    &&& after.ids == seq![id]
                    &&& after.known == known
                    &&& after.next == next
                    &&& after.fresh == Seq::<Record>::empty()
                    &&& forall|i: int|
                        0 <= i < known.len() && near((#[trigger] known[i]).nm, nm) && (forall|j: int|
                            0 <= j < known.len() && near((#[trigger] known[j]).nm, nm) ==> j == i)
                            ==> id == known[i].id
                },
                None => {
                    &&& after.ids == seq![next as u32]
                    &&& next < ID_LIMIT
                    &&& after.next == next + 1
                    &&& after.fresh == seq![Record { id: next as u32, nm }]
                    &&& after.known == known.insert(rank(known, nm) as int, Record { id: next as u32, nm })
                    &&& !keys(known).contains(next as u32)
                    &&& forall|i: int| 0 <= i < known.len() ==> !near((#[trigger] known[i]).nm, nm)
                },
            }
        }),
{
    let one = seq![nm];
    assert(one.drop_last() =~= Seq::<u64>::empty());
    let start = Outcome { known, next, ids: Seq::empty(), fresh: Seq::empty() };
    assert(learn_all(known, next, Seq::<u64>::empty()) == start);
    assert(learn_all(known, next, one) == crate::wavelengths::resolver::learn(start, nm));
    let after = learn_all(known, next, one);
    lemma_resolution(known, nm);
    match resolution(known, nm) {
        Some(id) => {
            assert(after.ids =~= seq![id]);
            assert forall|i: int|
                0 <= i < known.len() && near((#[trigger] known[i]).nm, nm) && (forall|j: int|
                    0 <= j < known.len() && near((#[trigger] known[j]).nm, nm) ==> j == i) implies id
                == known[i].id by {
                let w = choose|w: int| 0 <= w < known.len() && (#[trigger] known[w]).id == id && near(known[w].nm, nm);
                assert(w == i);
            }
        },
        None => {
            assert(after.ids =~= seq![next as u32]);
            assert(after.fresh =~= seq![Record { id: next as u32, nm }]);
            if keys(known).contains(next as u32) {
                let j = choose|j: int| 0 <= j < keys(known).len() && keys(known)[j] == next as u32;
                assert(keys(known)[j] < next);
            }
        },
    }
}

/// The wavelength table.
pub struct Wavelengths {
    stream: Writer,
    builder: Builder,
    resolver: Resolver,
    allocator: IdAllocator,
    policy: EmptyCommit,
}

impl Wavelengths {
    /// The known records, in ascending order of wavelength: those that a
    /// pushed wavelength can resolve to.
    pub closed spec fn known(&self) -> Seq<Record> {
        self.resolver.known()
    }

    /// The key that the next new wavelength gets.
    pub closed spec fn next(&self) -> nat {
        self.allocator.next()
    }

    /// The records buffered since the last commit, in push order.
    pub closed spec fn rows(&self) -> Seq<Record> {
        self.builder.rows()
    }

    /// The bytes that are to be appended to the table's file.
    pub closed spec fn pending(&self) -> Seq<u8> {
        self.stream.pending()
    }

    /// Whether the table has not been released.
    pub closed spec fn is_open(&self) -> bool {
        self.stream.is_open()
    }

    /// What a commit without rows does.
    pub closed spec fn policy(&self) -> EmptyCommit {
        self.policy
    }

    /// The known records are in order and apart, their keys are below the
    /// next key, and the stream has the table's schema.
    pub closed spec fn wf(&self) -> bool {
        &&& self.stream.wf()
        &&& self.stream.fields() == fields()
        &&& self.builder.wf()
        &&& self.resolver.wf()
        &&& self.allocator.wf()
        &&& below(self.resolver.known(), self.allocator.next())
    }

    /// What well-formedness says of the known records and the next key.
    pub proof fn lemma_wf(&self)
        requires
            self.wf(),
        ensures
            separated(self.known()),
            below(self.known(), self.next()),
            self.next() <= ID_LIMIT,
    {
        self.allocator.lemma_wf();
    }

    /// The schema of the table.
    pub fn schema() -> (schema: TableSchema)
        ensures
            schema@ == fields(),
    {
        let mut columns: Vec<TableField> = Vec::new();
        columns.push(TableField { name: "id", kind: ColumnKind::UInt32 });
        columns.push(TableField { name: "nm", kind: ColumnKind::Float64 });
        let schema = TableSchema { fields: columns };
        proof {
            assert(schema@ =~= fields());
        }
        schema
    }

    /// Opens the table on what its file was found to hold. Without a file
    /// the table is new: it knows no wavelength, and its stream starts with
    /// the schema's header. With a stored stream it knows the records that
    /// the stream holds, its next key continues theirs, and it has nothing
    /// to append. Fails with `IOError` where the file cannot be read, and
    /// with `SchemaError` where the stream is not one of this table.
    pub fn open(stored: &Stored, policy: EmptyCommit) -> (opened: Result<Self, Error>)
        ensures
            match opened {
                Ok(table) => {
                    &&& verdict(fields(), *stored) is Ok
                    &&& table.wf()
                    &&& table.is_open()
                    &&& table.policy() == policy
                    &&& table.rows() == Seq::<Record>::empty()
                    &&& table.known() == admitted(stored_records(stored.batches()))
                    &&& continues(keys(stored_records(stored.batches())), table.next())
                    &&& table.pending() == if *stored is Absent {
                        schema_message(fields())
                    } else {
                        Seq::<u8>::empty()
                    }
                },
                Err(error) => verdict(fields(), *stored) == Err::<(), Error>(error),
            },
    {
        let schema = Self::schema();
        validate(&schema, stored)?;
        match stored {
            Stored::Stream(stream) => {
                let records = Self::read(&stream.batches);
                let writer = Writer::new(&schema, true)?;
                Ok(Self::resume(writer, &records, policy))
            },
            _ => {
                let writer = Writer::new(&schema, false)?;
                Ok(Self::resume(writer, &Vec::new(), policy))
            },
        }
    }

    /// A table that holds the given records already, with a stream of its
    /// own: the next key continues their keys, and the known records are
    /// those that are admitted.
    pub fn resume(stream: Writer, records: &Vec<Record>, policy: EmptyCommit) -> (table: Self)
        requires
            stream.wf(),
            stream.fields() == fields(),
        ensures
            table.wf(),
            table.is_open() == stream.is_open(),
            table.pending() == stream.pending(),
            table.policy() == policy,
            table.rows() == Seq::<Record>::empty(),
            table.known() == admitted(records@),
            continues(keys(records@), table.next()),
    {
        let (resolver, allocator) = Self::restore(records);
        Wavelengths { stream, builder: Builder::new(), resolver, allocator, policy }
    }

    /// The records that the batches of a stored stream hold, in order.
    /// Batches of another shape than the table's hold none.
    pub fn read(batches: &Vec<Vec<Column>>) -> (records: Vec<Record>)
        ensures
            records@ == stored_records(batches@),
    {
        let mut records: Vec<Record> = Vec::new();
        let mut b: usize = 0;
        while b < batches.len()
            invariant
                b <= batches.len(),
                records@ == stored_records(batches@.take(b as int)),
            decreases batches.len() - b,
        {
            let batch = &batches[b];
            let ghost before = records@;
            proof {
                assert(batches@.take(b + 1).drop_last() =~= batches@.take(b as int));
            }
            if batch.len() == 2 {
                match (&batch[0], &batch[1]) {
                    (Column::UInt32(id), Column::Float64(nm)) => {
                        if id.len() == nm.len() {
                            let mut i: usize = 0;
                            while i < id.len()
                                invariant
                                    i <= id.len(),
                                    id.len() == nm.len(),
                                    records@ == before + batch_records(batch@).take(i as int),
                                    batch_records(batch@) == Seq::new(
                                        id@.len(),
                                        |k: int| Record { id: id@[k], nm: nm@[k] },
                                    ),
                                decreases id.len() - i,
                            {
                                records.push(Record::new(id[i], nm[i]));
                                proof {
                                    assert(batch_records(batch@).take(i + 1) =~= batch_records(batch@).take(
                                        i as int,
                                    ).push(Record { id: id@[i as int], nm: nm@[i as int] }));
                                    assert(records@ =~= before + batch_records(batch@).take(i + 1));
                                }
                                i = i + 1;
                            }
                            proof {
                                assert(batch_records(batch@).take(id.len() as int) =~= batch_records(batch@));
                            }
                        }
                    },
                    _ => {},
                }
            }
            proof {
                assert(records@ =~= before + batch_records(batch@));
            }
            b = b + 1;
        }
        proof {
            assert(batches@.take(batches.len() as int) =~= batches@);
        }
        records
    }

    /// The resolver and the allocator of a table that holds the given
    /// records: the next key continues their keys, and the known records are
    /// those that are admitted.
    pub fn restore(records: &Vec<Record>) -> (state: (Resolver, IdAllocator))
        ensures
            state.0.wf(),
            state.1.wf(),
            state.0.known() == admitted(records@),
            continues(keys(records@), state.1.next()),
            below(state.0.known(), state.1.next()),
    {
        let mut ids: Vec<u32> = Vec::new();
        let mut resolver = Resolver::new();
        let mut i: usize = 0;
        while i < records.len()
            invariant
                i <= records.len(),
                resolver.wf(),
                resolver.known() == admitted(records@.take(i as int)),
                ids@ == keys(records@.take(i as int)),
                forall|k: int|
                    0 <= k < resolver.known().len() ==> exists|j: int|
                        0 <= j < i && records@[j] == #[trigger] resolver.known()[k],
            decreases records.len() - i,
        {
            let record = records[i];
            let ghost before = resolver.known();
            proof {
                assert(records@.take(i + 1).drop_last() =~= records@.take(i as int));
                assert(keys(records@.take(i + 1)) =~= keys(records@.take(i as int)).push(record.id));
            }
            ids.push(record.id);
            if is_finite(record.nm) {
                match resolver.lookup(record.nm) {
                    Lookup::Vacant(place) => {
                        proof {
                            assert(Record { id: record.id, nm: record.nm } == record);
                        }
                        resolver.insert(place, record);
                        proof {
                            assert forall|k: int| 0 <= k < resolver.known().len() implies exists|j: int|
                                0 <= j < i + 1 && records@[j] == #[trigger] resolver.known()[k] by {
                                if k < place {
                                    assert(resolver.known()[k] == before[k]);
                                    let j = choose|j: int| 0 <= j < i && records@[j] == before[k];
                                    assert(records@[j] == resolver.known()[k]);
                                } else if k > place {
                                    assert(resolver.known()[k] == before[k - 1]);
                                    let j = choose|j: int| 0 <= j < i && records@[j] == before[k - 1];
                                    assert(records@[j] == resolver.known()[k]);
                                } else {
                                    assert(records@[i as int] == resolver.known()[k]);
                                }
                            }
                        }
                    },
                    Lookup::Known(_) => {},
                }
            }
            i = i + 1;
        }
        let allocator = IdAllocator::recover(&ids);
        proof {
            assert(records@.take(records.len() as int) =~= records@);
            assert forall|k: int| 0 <= k < resolver.known().len() implies (#[trigger] resolver.known()[k]).id
                < allocator.next() by {
                let j = choose|j: int| 0 <= j < i && records@[j] == resolver.known()[k];
                assert(keys(records@)[j] == records@[j].id);
            }
        }
        (resolver, allocator)
    }

    /// Resolves wavelengths to keys, in their order, and buffers a record
    /// for each that was new. Fails with `IOError` on a released table and
    /// with `Exhausted` where the wavelengths need more keys than are left;
    /// the table is then left as it was.
    pub fn push(&mut self, wavelengths: Vec<u64>) -> (result: Result<Vec<u32>, Error>)
        requires
            old(self).wf(),
        ensures
            final(self).wf(),
            final(self).pending() == old(self).pending(),
            final(self).is_open() == old(self).is_open(),
            final(self).policy() == old(self).policy(),
            match result {
                Ok(ids) => {
                    let resolved = learn_all(old(self).known(), old(self).next(), wavelengths@);
                    &&& old(self).is_open()
                    &&& resolved.next <= ID_LIMIT
                    &&& ids@ == resolved.ids
                    &&& final(self).known() == resolved.known
                    &&& final(self).next() == resolved.next
                    &&& final(self).rows() == old(self).rows() + resolved.fresh
                },
                Err(error) => {
                    &&& final(self).known() == old(self).known()
                    &&& final(self).next() == old(self).next()
                    &&& final(self).rows() == old(self).rows()
                    &&& error == if old(self).is_open() {
                        Error::Exhausted
                    } else {
                        Error::IOError
                    }
                    &&& old(self).is_open() ==> learn_all(
                        old(self).known(),
                        old(self).next(),
                        wavelengths@,
                    ).next > ID_LIMIT
                },
            },
    {
        if !self.stream.accepts() {
            return Err(Error::IOError);
        }
        let ghost known = self.resolver.known();
        let ghost next = self.allocator.next();
        let mut resolver = self.resolver.duplicate();
        let mut allocator = self.allocator;
        let mut ids: Vec<u32> = Vec::new();
        let mut fresh: Vec<Record> = Vec::new();
        let mut i: usize = 0;
        while i < wavelengths.len()
            invariant
                i <= wavelengths.len(),
                *self == *old(self),
                old(self).wf(),
                old(self).is_open(),
                known == old(self).known(),
                next == old(self).next(),
                separated(known),
                below(known, next),
                resolver.wf(),
                allocator.wf(),
                below(resolver.known(), allocator.next()),
                learn_all(known, next, wavelengths@.take(i as int)) == (Outcome {
                    known: resolver.known(),
                    next: allocator.next(),
                    ids: ids@,
                    fresh: fresh@,
                }),
            decreases wavelengths.len() - i,
        {
            let nm = wavelengths[i];
            let ghost state = learn_all(known, next, wavelengths@.take(i as int));
            proof {
                lemma_learn_next(known, next, wavelengths@, i as int);
                lemma_learn_keeps(state, nm);
                allocator.lemma_wf();
            }
            let found = if is_finite(nm) {
                resolver.lookup(nm)
            } else {
                proof {
                    lemma_not_a_number(resolver.known(), nm);
                }
                Lookup::Vacant(0)
            };
            match found {
                Lookup::Known(id) => {
                    ids.push(id);
                },
                Lookup::Vacant(place) => {
                    match allocator.allocate() {
                        Some(id) => {
                            let record = Record::new(id, nm);
                            if is_finite(nm) {
                                resolver.insert(place, record);
                            }
                            ids.push(id);
                            fresh.push(record);
                        },
                        None => {
                            proof {
                                lemma_learn_all_grows(known, next, wavelengths@, i + 1);
                            }
                            return Err(Error::Exhausted);
                        },
                    }
                },
            }
            i = i + 1;
        }
        proof {
            assert(wavelengths@.take(wavelengths.len() as int) =~= wavelengths@);
            allocator.lemma_wf();
        }
        self.resolver = resolver;
        self.allocator = allocator;
        let mut j: usize = 0;
        while j < fresh.len()
            invariant
                j <= fresh.len(),
                self.builder.wf(),
                self.builder.rows() == old(self).builder.rows() + fresh@.take(j as int),
                self.stream == old(self).stream,
                self.policy == old(self).policy,
                self.resolver == resolver,
                self.allocator == allocator,
            decreases fresh.len() - j,
        {
            let record = fresh[j];
            self.builder.append(record.id, record.nm);
            proof {
                assert(fresh@.take(j + 1) =~= fresh@.take(j as int).push(record));
                assert(self.builder.rows() =~= old(self).builder.rows() + fresh@.take(j + 1));
            }
            j = j + 1;
        }
        proof {
            assert(fresh@.take(fresh.len() as int) =~= fresh@);
        }
        Ok(ids)
    }

    /// The known records, in ascending order of wavelength.
    pub fn records(&self) -> (records: Vec<Record>)
        ensures
            records@ == self.known(),
    {
        self.resolver.records()
    }

    /// How many keys are left to hand out.
    pub fn remaining(&self) -> (left: u64)
        requires
            self.wf(),
        ensures
            left == ID_LIMIT - self.next(),
    {
        self.allocator.remaining()
    }

    /// The number of rows buffered since the last commit.
    pub fn buffered(&self) -> (n: usize)
        requires
            self.wf(),
        ensures
            n == self.rows().len(),
    {
        self.builder.len()
    }

    /// Moves the buffered rows into the stream, as one batch, in push order,
    /// and empties the buffer. Without rows it follows the table's policy:
    /// it writes nothing, or a batch without rows. Fails with `IOError` on a
    /// released table, and on no other; the rows then stay buffered.
    pub fn commit(&mut self) -> (result: Result<(), Error>)
        requires
            old(self).wf(),
        ensures
            final(self).wf(),
            final(self).known() == old(self).known(),
            final(self).next() == old(self).next(),
            final(self).is_open() == old(self).is_open(),
            final(self).policy() == old(self).policy(),
            old(self).pending().is_prefix_of(final(self).pending()),
            result is Ok <==> old(self).is_open(),
            !old(self).is_open() ==> final(self).pending() == old(self).pending(),
            match result {
                Ok(()) => {
                    &&& final(self).rows() == Seq::<Record>::empty()
                    &&& final(self).pending() == if old(self).rows().len() == 0 && old(self).policy()
                        == EmptyCommit::Skip {
                        old(self).pending()
                    } else {
                        old(self).pending() + batch_message(columns_of(old(self).rows()))
                    }
                },
                Err(error) => {
                    &&& error == Error::IOError
                    &&& final(self).rows() == old(self).rows()
                },
            },
    {
        if !self.stream.accepts() {
            return Err(Error::IOError);
        }
        if self.builder.len() == 0 && self.policy == EmptyCommit::Skip {
            proof {
                assert(self.builder.rows() =~= Seq::<Record>::empty());
            }
            return Ok(());
        }
        let columns = self.builder.columns();
        proof {
            let seen = columns_of(self.builder.rows());
            assert(crate::schema::conforms(fields(), seen));
        }
        match self.stream.write(&columns) {
            Ok(()) => {
                self.builder.clear();
                Ok(())
            },
            Err(_) => Err(Error::IOError),
        }
    }

    /// Takes the bytes that are to be appended to the table's file.
    pub fn take(&mut self) -> (bytes: Vec<u8>)
        requires
            old(self).wf(),
        ensures
            final(self).wf(),
            bytes@ == old(self).pending(),
            final(self).pending() == Seq::<u8>::empty(),
            final(self).known() == old(self).known(),
            final(self).next() == old(self).next(),
            final(self).rows() == old(self).rows(),
            final(self).is_open() == old(self).is_open(),
            final(self).policy() == old(self).policy(),
    {
        self.stream.take()
    }

    /// Releases the table: it takes no push and no commit from now on.
    pub fn release(&mut self)
        requires
            old(self).wf(),
        ensures
            final(self).wf(),
            !final(self).is_open(),
            final(self).pending() == old(self).pending(),
            final(self).known() == old(self).known(),
            final(self).next() == old(self).next(),
            final(self).rows() == old(self).rows(),
            final(self).policy() == old(self).policy(),
    {
        self.stream.release();
    }
}

} // verus!
