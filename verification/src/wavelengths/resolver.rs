//! Which key a wavelength resolves to.
//!
//! The resolver keeps the known wavelengths in ascending order, any two of
//! them at least the tolerance apart. A wavelength then has at most two known
//! neighbours within the tolerance, one on each side of the place where it
//! would be inserted, and the search looks at both.

use vstd::prelude::*;
use crate::tolerance::apart;
use crate::tolerance::compare;
use crate::tolerance::finite;
use crate::tolerance::lemma_sides;
use crate::tolerance::near;
use crate::tolerance::Side;
use crate::wavelengths::record::Record;

verus! {

/// The records are numbers, in ascending order, each at least the tolerance
/// above the one before.
pub open spec fn separated(known: Seq<Record>) -> bool {
    &&& forall|i: int| 0 <= i < known.len() ==> finite((#[trigger] known[i]).nm)
    &&& forall|i: int, j: int|
        0 <= i < j < known.len() ==> apart((#[trigger] known[i]).nm, (#[trigger] known[j]).nm)
}

/// The key that `nm` resolves to among `known`: the least key of a record
/// within the tolerance of `nm`, or `None` where no record is.
pub open spec fn resolution(known: Seq<Record>, nm: u64) -> Option<u32>
    decreases known.len(),
{
    if known.len() == 0 {
        None
    } else {
        let earlier = resolution(known.drop_last(), nm);
        let last = known.last();
        if near(last.nm, nm) {
            match earlier {
                Some(id) if id <= last.id => Some(id),
                _ => Some(last.id),
            }
        } else {
            earlier
        }
    }
}

/// How many of `known` lie at least the tolerance below `nm`: the place of
/// `nm` among them.
pub open spec fn rank(known: Seq<Record>, nm: u64) -> nat
    decreases known.len(),
{
    if known.len() == 0 {
        0
    } else if apart(known.last().nm, nm) {
        rank(known.drop_last(), nm) + 1
    } else {
        rank(known.drop_last(), nm)
    }
}

/// `id` is the key of a record near `nm`, and no record near `nm` has a
/// smaller one.
pub open spec fn least_near(known: Seq<Record>, nm: u64, id: u32) -> bool {
    &&& exists|i: int| 0 <= i < known.len() && (#[trigger] known[i]).id == id && near(known[i].nm, nm)
    &&& forall|j: int| 0 <= j < known.len() && near((#[trigger] known[j]).nm, nm) ==> id <= known[j].id
}

/// No record is near `nm`.
pub open spec fn unknown(known: Seq<Record>, nm: u64) -> bool {
    forall|j: int| 0 <= j < known.len() ==> !near((#[trigger] known[j]).nm, nm)
}

/// The resolution is the least key among the near records, and is `None`
/// exactly where there is no near record.
pub proof fn lemma_resolution(known: Seq<Record>, nm: u64)
    ensures
        match resolution(known, nm) {
            Some(id) => least_near(known, nm, id),
            None => unknown(known, nm),
        },
    decreases known.len(),
{
    if known.len() > 0 {
        let front = known.drop_last();
        let last = known.last();
        lemma_resolution(front, nm);
        assert(forall|j: int| 0 <= j < front.len() ==> front[j] == known[j]);
        match resolution(known, nm) {
            Some(id) => {
                if near(last.nm, nm) && id == last.id {
                    assert(known[known.len() - 1].id == id);
                } else {
                    let w = choose|i: int|
                        0 <= i < front.len() && (#[trigger] front[i]).id == id && near(front[i].nm, nm);
                    assert(known[w].id == id);
                }
                assert forall|j: int| 0 <= j < known.len() && near((#[trigger] known[j]).nm, nm) implies id
                    <= known[j].id by {
                    if j < front.len() {
                        assert(front[j] == known[j]);
                    }
                }
            },
            None => {
                assert forall|j: int| 0 <= j < known.len() implies !near((#[trigger] known[j]).nm, nm) by {
                    if j < front.len() {
                        assert(front[j] == known[j]);
                    }
                }
            },
        }
    }
}

/// A key that is least among the near records is the resolution.
pub proof fn lemma_resolution_is(known: Seq<Record>, nm: u64, id: u32)
    requires
        least_near(known, nm, id),
    ensures
        resolution(known, nm) == Some(id),
{
    lemma_resolution(known, nm);
    let w = choose|i: int| 0 <= i < known.len() && (#[trigger] known[i]).id == id && near(known[i].nm, nm);
    match resolution(known, nm) {
        Some(other) => {
            let v = choose|i: int|
                0 <= i < known.len() && (#[trigger] known[i]).id == other && near(known[i].nm, nm);
            assert(id <= known[v].id);
            assert(other <= known[w].id);
        },
        None => {
            assert(!near(known[w].nm, nm));
        },
    }
}

/// The place of `nm` is where the records below it end.
pub proof fn lemma_rank(known: Seq<Record>, nm: u64, place: int)
    requires
        0 <= place <= known.len(),
        forall|i: int| 0 <= i < place ==> apart((#[trigger] known[i]).nm, nm),
        forall|i: int| place <= i < known.len() ==> !apart((#[trigger] known[i]).nm, nm),
    ensures
        rank(known, nm) == place,
    decreases known.len(),
{
    if known.len() > 0 {
        let front = known.drop_last();
        assert(forall|j: int| 0 <= j < front.len() ==> front[j] == known[j]);
        if place == known.len() {
            assert(apart(known[known.len() - 1].nm, nm));
            lemma_rank(front, nm, place - 1);
        } else {
            assert(!apart(known[known.len() - 1].nm, nm));
            lemma_rank(front, nm, place);
        }
    }
}

/// What a search found: the key that the wavelength resolves to, or the
/// place where its record belongs.
#[derive(Clone, Copy, Debug, PartialEq, Eq, Structural)]
pub enum Lookup {
    /// The wavelength resolves to this key.
    Known(u32),
    /// No record is near; a new one belongs at this index.
    Vacant(usize),
}

/// The known wavelengths, in ascending order.
pub struct Resolver {
    index: Vec<Record>,
}

impl Resolver {
    /// The known records, in ascending order of wavelength.
    pub closed spec fn known(&self) -> Seq<Record> {
        self.index@
    }

    /// The records are in order and apart.
    pub open spec fn wf(&self) -> bool {
        separated(self.known())
    }

    /// A resolver that knows no wavelength.
    pub fn new() -> (resolver: Self)
        ensures
            resolver.wf(),
            resolver.known() == Seq::<Record>::empty(),
    {
        Resolver { index: Vec::new() }
    }

    /// How many wavelengths are known.
    pub fn len(&self) -> (n: usize)
        ensures
            n == self.known().len(),
    {
        self.index.len()
    }

    /// The known records, in ascending order of wavelength.
    pub fn records(&self) -> (records: Vec<Record>)
        ensures
            records@ == self.known(),
    {
        let mut records: Vec<Record> = Vec::new();
        let mut i: usize = 0;
        while i < self.index.len()
            invariant
                i <= self.index.len(),
                records@ == self.index@.take(i as int),
            decreases self.index.len() - i,
        {
            records.push(self.index[i]);
            proof {
                assert(self.index@.take(i + 1) =~= self.index@.take(i as int).push(self.index@[i as int]));
            }
            i = i + 1;
        }
        proof {
            assert(self.index@.take(self.index.len() as int) =~= self.index@);
        }
        records
    }

    /// A second resolver that knows the same wavelengths.
    pub fn duplicate(&self) -> (copy: Self)
        ensures
            copy.known() == self.known(),
    {
        Resolver { index: self.records() }
    }

    /// The index where the records at least the tolerance below `nm` end.
    fn place(&self, nm: u64) -> (place: usize)
        requires
            self.wf(),
            finite(nm),
        ensures
            place <= self.known().len(),
            forall|i: int| 0 <= i < place ==> apart((#[trigger] self.known()[i]).nm, nm),
            forall|i: int| place <= i < self.known().len() ==> !apart((#[trigger] self.known()[i]).nm, nm),
    {
        let mut low: usize = 0;
        let mut high: usize = self.index.len();
        while low < high
            invariant
                low <= high <= self.index.len(),
                self.wf(),
                finite(nm),
                forall|i: int| 0 <= i < low ==> apart((#[trigger] self.index@[i]).nm, nm),
                forall|i: int| high <= i < self.index.len() ==> !apart((#[trigger] self.index@[i]).nm, nm),
            decreases high - low,
        {
            let middle: usize = low + (high - low) / 2;
            let pivot = self.index[middle];
            proof {
                lemma_sides(pivot.nm, nm);
            }
            match compare(pivot.nm, nm) {
                Side::Below => {
                    proof {
                        assert forall|i: int| 0 <= i < middle + 1 implies apart(
                            (#[trigger] self.index@[i]).nm,
                            nm,
                        ) by {
                            if i < middle {
                                assert(apart(self.index@[i].nm, self.index@[middle as int].nm));
                            }
                        }
                    }
                    low = middle + 1;
                },
                _ => {
                    proof {
                        assert forall|i: int| middle <= i < self.index.len() implies !apart(
                            (#[trigger] self.index@[i]).nm,
                            nm,
                        ) by {
                            if i > middle {
                                assert(apart(self.index@[middle as int].nm, self.index@[i].nm));
                            }
                        }
                    }
                    high = middle;
                },
            }
        }
        low
    }

    /// Searches for `nm`: finds the key that it resolves to, or the place
    /// where its record belongs.
    pub fn lookup(&self, nm: u64) -> (found: Lookup)
        requires
            self.wf(),
            finite(nm),
        ensures
            match found {
                Lookup::Known(id) => resolution(self.known(), nm) == Some(id),
                Lookup::Vacant(place) => {
                    &&& resolution(self.known(), nm) is None
                    &&& place == rank(self.known(), nm)
                    &&& place <= self.known().len()
                    &&& forall|id: u32| separated(#[trigger] self.known().insert(place as int, Record { id, nm }))
                },
            },
    {
        let place = self.place(nm);
        let ghost known = self.index@;
        proof {
            lemma_rank(known, nm, place as int);
            lemma_resolution(known, nm);
            crate::tolerance::lemma_tolerance_positive();
        }
        if place == self.index.len() {
            proof {
                assert forall|j: int| 0 <= j < known.len() implies !near((#[trigger] known[j]).nm, nm) by {
                    lemma_sides(known[j].nm, nm);
                }
                lemma_vacant(known, nm, place as int);
            }
            return Lookup::Vacant(place);
        }
        let first = self.index[place];
        proof {
            lemma_sides(first.nm, nm);
        }
        match compare(first.nm, nm) {
            Side::Near => {
                let mut id: u32 = first.id;
                if place + 1 < self.index.len() {
                    let second = self.index[place + 1];
                    proof {
                        lemma_sides(second.nm, nm);
                    }
                    match compare(second.nm, nm) {
                        Side::Near => {
                            if second.id < id {
                                id = second.id;
                            }
                        },
                        _ => {},
                    }
                }
                proof {
                    assert forall|j: int| 0 <= j < known.len() && near((#[trigger] known[j]).nm, nm) implies id
                        <= known[j].id by {
                        lemma_sides(known[j].nm, nm);
                        if j > place + 1 {
                            assert(apart(known[place as int].nm, known[place + 1].nm));
                            assert(apart(known[place + 1].nm, known[j].nm));
                        }
                    }
                    if id == first.id {
                        assert(known[place as int].id == id && near(known[place as int].nm, nm));
                    } else {
                        assert(known[place + 1].id == id && near(known[place + 1].nm, nm));
                    }
                    lemma_resolution_is(known, nm, id);
                }
                Lookup::Known(id)
            },
            _ => {
                proof {
                    assert forall|j: int| 0 <= j < known.len() implies !near((#[trigger] known[j]).nm, nm) by {
                        lemma_sides(known[j].nm, nm);
                        if j > place {
                            assert(apart(known[place as int].nm, known[j].nm));
                        }
                    }
                    lemma_vacant(known, nm, place as int);
                }
                Lookup::Vacant(place)
            },
        }
    }

    /// Puts a record at the place that a search found vacant.
    pub fn insert(&mut self, place: usize, record: Record)
        requires
            place <= old(self).known().len(),
            separated(old(self).known().insert(place as int, record)),
        ensures
            final(self).known() == old(self).known().insert(place as int, record),
            final(self).wf(),
    {
        self.index.insert(place, record);
    }
}

/// Where no record is near `nm`, a record of `nm` at its place keeps the
/// records in order and apart, whatever its key.
pub proof fn lemma_vacant(known: Seq<Record>, nm: u64, place: int)
    requires
        separated(known),
        finite(nm),
        unknown(known, nm),
        0 <= place <= known.len(),
        forall|i: int| 0 <= i < place ==> apart((#[trigger] known[i]).nm, nm),
        forall|i: int| place <= i < known.len() ==> !apart((#[trigger] known[i]).nm, nm),
    ensures
        forall|id: u32| separated(#[trigger] known.insert(place, Record { id, nm })),
        resolution(known, nm) is None,
{
    lemma_resolution(known, nm);
    match resolution(known, nm) {
        Some(id) => {
            let w = choose|i: int| 0 <= i < known.len() && (#[trigger] known[i]).id == id && near(known[i].nm, nm);
            assert(!near(known[w].nm, nm));
        },
        None => {},
    }
    assert forall|id: u32| separated(#[trigger] known.insert(place, Record { id, nm })) by {
        let grown = known.insert(place, Record { id, nm });
        assert forall|i: int, j: int| 0 <= i < j < grown.len() implies apart(
            (#[trigger] grown[i]).nm,
            (#[trigger] grown[j]).nm,
        ) by {
            if j == place {
                assert(grown[i] == known[i]);
            } else if i == place {
                assert(grown[j] == known[j - 1]);
                lemma_sides(known[j - 1].nm, nm);
            } else {
                let a = if i < place { i } else { i - 1 };
                let b = if j < place { j } else { j - 1 };
                assert(grown[i] == known[a]);
                assert(grown[j] == known[b]);
            }
        }
        assert forall|i: int| 0 <= i < grown.len() implies finite((#[trigger] grown[i]).nm) by {
            if i < place {
                assert(grown[i] == known[i]);
            } else if i > place {
                assert(grown[i] == known[i - 1]);
            }
        }
    }
}

/// The state of a resolution in progress: the known records, the next key,
/// the keys given so far, and the records that were new.
pub struct Outcome {
    /// The known records, in ascending order of wavelength.
    pub known: Seq<Record>,
    /// The key that the next new wavelength gets.
    pub next: nat,
    /// The keys of the wavelengths resolved so far, in their order.
    pub ids: Seq<u32>,
    /// The records made so far, in the order in which they were made.
    pub fresh: Seq<Record>,
}

/// Resolves one wavelength: it takes the least key among the records near
/// it, or, where none is near, the next key. A new number joins the known
/// records at its place; an infinity or a NaN gets a key and stays unknown.
pub open spec fn learn(state: Outcome, nm: u64) -> Outcome {
    match resolution(state.known, nm) {
        Some(id) => Outcome { ids: state.ids.push(id), ..state },
        None => {
            let record = Record { id: state.next as u32, nm };
            Outcome {
                known: if finite(nm) {
                    state.known.insert(rank(state.known, nm) as int, record)
                } else {
                    state.known
                },
                next: state.next + 1,
                ids: state.ids.push(record.id),
                fresh: state.fresh.push(record),
            }
        },
    }
}

/// Resolves wavelengths one after the other, from the first.
pub open spec fn learn_all(known: Seq<Record>, next: nat, values: Seq<u64>) -> Outcome
    decreases values.len(),
{
    if values.len() == 0 {
        Outcome { known, next, ids: Seq::empty(), fresh: Seq::empty() }
    } else {
        learn(learn_all(known, next, values.drop_last()), values.last())
    }
}

/// Every key of `known` is below `next`.
pub open spec fn below(known: Seq<Record>, next: nat) -> bool {
    forall|i: int| 0 <= i < known.len() ==> (#[trigger] known[i]).id < next
}

/// An infinity or a NaN resolves to nothing.
pub proof fn lemma_not_a_number(known: Seq<Record>, nm: u64)
    requires
        !finite(nm),
    ensures
        resolution(known, nm) is None,
{
    lemma_resolution(known, nm);
    match resolution(known, nm) {
        Some(id) => {
            let w = choose|i: int| 0 <= i < known.len() && (#[trigger] known[i]).id == id && near(known[i].nm, nm);
            assert(near(known[w].nm, nm));
        },
        None => {},
    }
}

/// Resolving one more wavelength is one more step.
pub proof fn lemma_learn_next(known: Seq<Record>, next: nat, values: Seq<u64>, i: int)
    requires
        0 <= i < values.len(),
    ensures
        learn_all(known, next, values.take(i + 1)) == learn(learn_all(known, next, values.take(i)), values[i]),
{
    assert(values.take(i + 1).drop_last() =~= values.take(i));
}

/// One step keeps the records in order and apart and their keys below the
/// next key, gives one key more, and never lowers the next key.
pub proof fn lemma_learn_keeps(state: Outcome, nm: u64)
    requires
        separated(state.known),
        below(state.known, state.next),
    ensures
        separated(learn(state, nm).known),
        below(learn(state, nm).known, learn(state, nm).next),
        state.next <= learn(state, nm).next <= state.next + 1,
        learn(state, nm).ids.len() == state.ids.len() + 1,
{
    let after = learn(state, nm);
    if resolution(state.known, nm) is None && finite(nm) {
        lemma_resolution(state.known, nm);
        lemma_rank_splits(state.known, nm);
        let place = rank(state.known, nm) as int;
        lemma_vacant(state.known, nm, place);
        let record = Record { id: state.next as u32, nm };
        assert(separated(state.known.insert(place, record)));
        assert forall|i: int| 0 <= i < after.known.len() implies (#[trigger] after.known[i]).id < after.next by {
            if i < place {
                assert(after.known[i] == state.known[i]);
            } else if i > place {
                assert(after.known[i] == state.known[i - 1]);
            }
        }
    }
}

/// Among records in order and apart, those below a wavelength come first.
pub proof fn lemma_rank_splits(known: Seq<Record>, nm: u64)
    requires
        separated(known),
    ensures
        rank(known, nm) <= known.len(),
        forall|i: int| 0 <= i < rank(known, nm) ==> apart((#[trigger] known[i]).nm, nm),
        forall|i: int| rank(known, nm) <= i < known.len() ==> !apart((#[trigger] known[i]).nm, nm),
    decreases known.len(),
{
    if known.len() > 0 {
        let front = known.drop_last();
        let last = known.last();
        assert(forall|j: int| 0 <= j < front.len() ==> front[j] == known[j]);
        assert(separated(front)) by {
            assert forall|i: int, j: int| 0 <= i < j < front.len() implies apart(
                (#[trigger] front[i]).nm,
                (#[trigger] front[j]).nm,
            ) by {
                assert(apart(known[i].nm, known[j].nm));
            }
            assert forall|i: int| 0 <= i < front.len() implies finite((#[trigger] front[i]).nm) by {
                assert(finite(known[i].nm));
            }
        }
        lemma_rank_splits(front, nm);
        crate::tolerance::lemma_tolerance_positive();
        if apart(last.nm, nm) {
            assert forall|i: int| 0 <= i < known.len() implies apart((#[trigger] known[i]).nm, nm) by {
                if i < known.len() - 1 {
                    assert(apart(known[i].nm, known[known.len() - 1].nm));
                }
            }
            lemma_rank(front, nm, front.len() as int);
        } else {
            assert forall|i: int| rank(known, nm) <= i < known.len() implies !apart(
                (#[trigger] known[i]).nm,
                nm,
            ) by {
                if i < known.len() - 1 {
                    assert(front[i] == known[i]);
                }
            }
        }
    }
}

/// Resolving keeps the records in order and apart and their keys below the
/// next key, gives one key for each wavelength, and never lowers the next
/// key.
pub proof fn lemma_learn_all_keeps(known: Seq<Record>, next: nat, values: Seq<u64>)
    requires
        separated(known),
        below(known, next),
    ensures
        separated(learn_all(known, next, values).known),
        below(learn_all(known, next, values).known, learn_all(known, next, values).next),
        next <= learn_all(known, next, values).next <= next + values.len(),
        learn_all(known, next, values).ids.len() == values.len(),
    decreases values.len(),
{
    if values.len() > 0 {
        lemma_learn_all_keeps(known, next, values.drop_last());
        lemma_learn_keeps(learn_all(known, next, values.drop_last()), values.last());
    }
}

/// The next key after a part of the wavelengths is at most the next key
/// after all of them.
pub proof fn lemma_learn_all_grows(known: Seq<Record>, next: nat, values: Seq<u64>, i: int)
    requires
        separated(known),
        below(known, next),
        0 <= i <= values.len(),
    ensures
        learn_all(known, next, values.take(i)).next <= learn_all(known, next, values).next,
    decreases values.len() - i,
{
    if i < values.len() {
        lemma_learn_next(known, next, values, i);
        lemma_learn_all_keeps(known, next, values.take(i));
        lemma_learn_keeps(learn_all(known, next, values.take(i)), values[i]);
        lemma_learn_all_grows(known, next, values, i + 1);
    } else {
        assert(values.take(i) =~= values);
    }
}

/// How many different keys a sequence holds.
pub open spec fn distinct(ids: Seq<u32>) -> nat
    decreases ids.len(),
{
    if ids.len() == 0 {
        0
    } else if ids.drop_last().contains(ids.last()) {
        distinct(ids.drop_last())
    } else {
        distinct(ids.drop_last()) + 1
    }
}

/// What holds while wavelengths are resolved against a table that was
/// empty: the next key is the number of different keys given, every key
/// given is below it, and every known record has a key that was given.
spec fn numbered(state: Outcome) -> bool {
    &&& separated(state.known)
    &&& state.next == distinct(state.ids)
    &&& forall|i: int| 0 <= i < state.ids.len() ==> state.ids[i] < state.next
    &&& forall|k: int| 0 <= k < state.known.len() ==> state.ids.contains((#[trigger] state.known[k]).id)
}

proof fn lemma_numbered(values: Seq<u64>)
    requires
        learn_all(Seq::empty(), 0, values).next <= crate::allocator::ID_LIMIT,
    ensures
        numbered(learn_all(Seq::empty(), 0, values)),
        learn_all(Seq::empty(), 0, values).ids.len() == values.len(),
        values.len() > 0 ==> {
            let before = learn_all(Seq::empty(), 0, values.drop_last());
            let after = learn_all(Seq::empty(), 0, values);
            &&& after.ids == before.ids.push(after.ids.last())
            &&& before.ids.contains(after.ids.last()) || after.ids.last() == distinct(before.ids)
        },
    decreases values.len(),
{
    if values.len() > 0 {
        let front = values.drop_last();
        let nm = values.last();
        let before = learn_all(Seq::empty(), 0, front);
        let after = learn(before, nm);
        lemma_learn_all_keeps(Seq::empty(), 0, front);
        lemma_learn_keeps(before, nm);
        lemma_numbered(front);
        assert(below(before.known, before.next)) by {
            assert forall|k: int| 0 <= k < before.known.len() implies (#[trigger] before.known[k]).id
                < before.next by {
                let key = before.known[k].id;
                assert(before.ids.contains(key));
                let j = choose|j: int| 0 <= j < before.ids.len() && before.ids[j] == key;
                assert(before.ids[j] < before.next);
            }
        }
        lemma_learn_keeps(before, nm);
        lemma_resolution(before.known, nm);
        let key = after.ids.last();
        assert(after.ids.drop_last() =~= before.ids);
        match resolution(before.known, nm) {
            Some(id) => {
                let w = choose|i: int|
                    0 <= i < before.known.len() && (#[trigger] before.known[i]).id == id && near(
                        before.known[i].nm,
                        nm,
                    );
                assert(before.ids.contains(before.known[w].id));
                assert forall|i: int| 0 <= i < after.ids.len() implies after.ids[i] < after.next by {
                    if i < before.ids.len() {
                        assert(after.ids[i] == before.ids[i]);
                    } else {
                        let j = choose|j: int| 0 <= j < before.ids.len() && before.ids[j] == id;
                        assert(before.ids[j] < before.next);
                    }
                }
                assert forall|k: int| 0 <= k < after.known.len() implies after.ids.contains(
                    (#[trigger] after.known[k]).id,
                ) by {
                    let held = after.known[k].id;
                    assert(before.ids.contains(held));
                    let j = choose|j: int| 0 <= j < before.ids.len() && before.ids[j] == held;
                    assert(after.ids[j] == held);
                }
            },
            None => {
                assert(key == before.next);
                assert(!before.ids.contains(key)) by {
                    if before.ids.contains(key) {
                        let j = choose|j: int| 0 <= j < before.ids.len() && before.ids[j] == key;
                        assert(before.ids[j] < before.next);
                    }
                }
                assert forall|i: int| 0 <= i < after.ids.len() implies after.ids[i] < after.next by {
                    if i < before.ids.len() {
                        assert(after.ids[i] == before.ids[i]);
                        assert(before.ids[i] < before.next);
                    }
                }
                assert forall|k: int| 0 <= k < after.known.len() implies after.ids.contains(
                    (#[trigger] after.known[k]).id,
                ) by {
                    let held = after.known[k].id;
                    if finite(nm) {
                        let place = rank(before.known, nm) as int;
                        lemma_rank_splits(before.known, nm);
                        if k < place {
                            assert(after.known[k] == before.known[k]);
                        } else if k > place {
                            assert(after.known[k] == before.known[k - 1]);
                        }
                    }
                    if held == key {
                        assert(after.ids[after.ids.len() - 1] == held);
                    } else {
                        assert(before.ids.contains(held));
                        let j = choose|j: int| 0 <= j < before.ids.len() && before.ids[j] == held;
                        assert(after.ids[j] == held);
                    }
                }
            },
        }
    }
}

/// Wavelengths pushed into an empty table get the keys 0, 1, 2, ... in the
/// order in which they are first seen: each key either was given before, or
/// is the number of different keys given before it.
pub proof fn lemma_first_seen_order(values: Seq<u64>, i: int)
    requires
        learn_all(Seq::empty(), 0, values).next <= crate::allocator::ID_LIMIT,
        0 <= i < values.len(),
    ensures
        ({
            let ids = learn_all(Seq::empty(), 0, values).ids;
            &&& ids.len() == values.len()
            &&& ids.take(i).contains(ids[i]) || ids[i] == distinct(ids.take(i))
        }),
    decreases values.len(),
{
    lemma_numbered(values);
    let ids = learn_all(Seq::empty(), 0, values).ids;
    let front = learn_all(Seq::empty(), 0, values.drop_last()).ids;
    lemma_learn_all_keeps(Seq::empty(), 0, values.drop_last());
    lemma_learn_keeps(learn_all(Seq::empty(), 0, values.drop_last()), values.last());
    lemma_numbered(values.drop_last());
    if i == values.len() - 1 {
        assert(ids.take(i) =~= front);
    } else {
        lemma_first_seen_order(values.drop_last(), i);
        assert(ids.take(i) =~= front.take(i));
        assert(ids[i] == front[i]);
    }
}

/// A resolution stands when one more wavelength is resolved: a record that
/// comes later has a larger key.
proof fn lemma_stands(state: Outcome, nm: u64, id: u32, later: u64)
    requires
        separated(state.known),
        below(state.known, state.next),
        state.next < crate::allocator::ID_LIMIT,
        resolution(state.known, nm) == Some(id),
    ensures
        resolution(learn(state, later).known, nm) == Some(id),
{
    let after = learn(state, later);
    if resolution(state.known, later) is None && finite(later) {
        lemma_resolution(state.known, nm);
        lemma_rank_splits(state.known, later);
        let place = rank(state.known, later) as int;
        let w = choose|i: int|
            0 <= i < state.known.len() && (#[trigger] state.known[i]).id == id && near(state.known[i].nm, nm);
        let moved = if w < place { w } else { w + 1 };
        assert(after.known[moved] == state.known[w]);
        assert forall|j: int| 0 <= j < after.known.len() && near((#[trigger] after.known[j]).nm, nm) implies id
            <= after.known[j].id by {
            if j < place {
                assert(after.known[j] == state.known[j]);
            } else if j > place {
                assert(after.known[j] == state.known[j - 1]);
            } else {
                assert(state.known[w].id < state.next);
            }
        }
        lemma_resolution_is(after.known, nm, id);
    }
}

/// A number resolves, right after it was resolved, to the key that it got.
proof fn lemma_settled(state: Outcome, nm: u64)
    requires
        separated(state.known),
        below(state.known, state.next),
        state.next < crate::allocator::ID_LIMIT,
        finite(nm),
    ensures
        resolution(learn(state, nm).known, nm) == Some(learn(state, nm).ids.last()),
{
    let after = learn(state, nm);
    if resolution(state.known, nm) is None {
        lemma_resolution(state.known, nm);
        lemma_rank_splits(state.known, nm);
        lemma_sides(nm, nm);
        let place = rank(state.known, nm) as int;
        let id = state.next as u32;
        assert(after.known[place].id == id && near(after.known[place].nm, nm));
        assert forall|j: int| 0 <= j < after.known.len() && near((#[trigger] after.known[j]).nm, nm) implies id
            <= after.known[j].id by {
            if j < place {
                assert(after.known[j] == state.known[j]);
            } else if j > place {
                assert(after.known[j] == state.known[j - 1]);
            }
        }
        lemma_resolution_is(after.known, nm, id);
    }
}

/// After numbers were resolved, each of them resolves to the key that it
/// got.
proof fn lemma_all_settled(known: Seq<Record>, next: nat, values: Seq<u64>, j: int)
    requires
        separated(known),
        below(known, next),
        forall|i: int| 0 <= i < values.len() ==> finite(values[i]),
        learn_all(known, next, values).next <= crate::allocator::ID_LIMIT,
        0 <= j < values.len(),
    ensures
        learn_all(known, next, values).ids.len() == values.len(),
        resolution(learn_all(known, next, values).known, values[j]) == Some(
            learn_all(known, next, values).ids[j],
        ),
    decreases values.len(),
{
    let front = values.drop_last();
    let before = learn_all(known, next, front);
    lemma_learn_all_keeps(known, next, front);
    lemma_learn_all_keeps(known, next, values);
    lemma_learn_keeps(before, values.last());
    let after = learn(before, values.last());
    if resolution(before.known, values.last()) is None {
        assert(before.next < crate::allocator::ID_LIMIT);
    }
    if j == values.len() - 1 {
        if resolution(before.known, values.last()) is None {
            lemma_settled(before, values.last());
        }
    } else {
        lemma_all_settled(known, next, front, j);
        assert(after.ids[j] == before.ids[j]);
        if resolution(before.known, values.last()) is None {
            lemma_stands(before, values[j], before.ids[j], values.last());
        }
    }
}

/// Where every one of some wavelengths resolves to a key already, resolving
/// them changes nothing and gives those keys.
proof fn lemma_nothing_new(known: Seq<Record>, next: nat, values: Seq<u64>, ids: Seq<u32>)
    requires
        ids.len() == values.len(),
        forall|j: int| 0 <= j < values.len() ==> resolution(known, values[j]) == Some(ids[j]),
    ensures
        learn_all(known, next, values) == (Outcome { known, next, ids, fresh: Seq::empty() }),
    decreases values.len(),
{
    if values.len() > 0 {
        lemma_nothing_new(known, next, values.drop_last(), ids.drop_last());
        assert(ids.drop_last().push(ids.last()) =~= ids);
    } else {
        assert(ids =~= Seq::<u32>::empty());
    }
}

/// Pushing the same numbers again gives the same keys, and makes no new
/// record: neither the known records nor the next key change.
pub proof fn lemma_repeat(known: Seq<Record>, next: nat, values: Seq<u64>)
    requires
        separated(known),
        below(known, next),
        forall|i: int| 0 <= i < values.len() ==> finite(values[i]),
        learn_all(known, next, values).next <= crate::allocator::ID_LIMIT,
    ensures
        ({
            let first = learn_all(known, next, values);
            let second = learn_all(first.known, first.next, values);
            &&& second.ids == first.ids
            &&& second.known == first.known
            &&& second.next == first.next
            &&& second.fresh == Seq::<Record>::empty()
        }),
{
    let first = learn_all(known, next, values);
    lemma_learn_all_keeps(known, next, values);
    assert forall|j: int| 0 <= j < values.len() implies resolution(first.known, values[j]) == Some(
        first.ids[j],
    ) by {
        lemma_all_settled(known, next, values, j);
    }
    lemma_nothing_new(first.known, first.next, values, first.ids);
}

/// Two wavelengths, neither of them near a known record, get the same key
/// exactly where they are near each other.
pub proof fn lemma_same_key(known: Seq<Record>, next: nat, a: u64, b: u64)
    requires
        separated(known),
        below(known, next),
        learn_all(known, next, seq![a, b]).next <= crate::allocator::ID_LIMIT,
        unknown(known, a),
        unknown(known, b),
    ensures
        ({
            let ids = learn_all(known, next, seq![a, b]).ids;
            &&& ids.len() == 2
            &&& ids[0] == ids[1] <==> near(a, b)
        }),
{
    let both = seq![a, b];
    assert(both.drop_last() =~= seq![a]);
    assert(seq![a].drop_last() =~= Seq::<u64>::empty());
    let start = Outcome { known, next, ids: Seq::empty(), fresh: Seq::empty() };
    assert(learn_all(known, next, Seq::<u64>::empty()) == start);
    assert(learn_all(known, next, seq![a]) == learn(start, a));
    let one = learn(start, a);
    let two = learn(one, b);
    assert(learn_all(known, next, both) == two);
    lemma_resolution(known, a);
    lemma_resolution(known, b);
    assert(resolution(known, a) is None) by {
        if resolution(known, a) is Some {
            let id = resolution(known, a)->Some_0;
            let w = choose|i: int| 0 <= i < known.len() && (#[trigger] known[i]).id == id && near(known[i].nm, a);
            assert(!near(known[w].nm, a));
        }
    }
    lemma_resolution(one.known, b);
    if !finite(b) {
        lemma_not_a_number(one.known, b);
    } else if finite(a) {
        lemma_rank_splits(known, a);
        lemma_sides(a, b);
        let place = rank(known, a) as int;
        let id = next as u32;
        if near(a, b) {
            assert(one.known[place].id == id && near(one.known[place].nm, b));
            assert forall|j: int| 0 <= j < one.known.len() && near((#[trigger] one.known[j]).nm, b) implies id
                <= one.known[j].id by {
                if j < place {
                    assert(one.known[j] == known[j]);
                } else if j > place {
                    assert(one.known[j] == known[j - 1]);
                }
            }
            lemma_resolution_is(one.known, b, id);
        } else {
            assert forall|j: int| 0 <= j < one.known.len() implies !near((#[trigger] one.known[j]).nm, b) by {
                if j < place {
                    assert(one.known[j] == known[j]);
                } else if j > place {
                    assert(one.known[j] == known[j - 1]);
                }
            }
            if resolution(one.known, b) is Some {
                let found = resolution(one.known, b)->Some_0;
                let w = choose|i: int|
                    0 <= i < one.known.len() && (#[trigger] one.known[i]).id == found && near(one.known[i].nm, b);
                assert(!near(one.known[w].nm, b));
            }
        }
    } else {
        if resolution(known, b) is Some {
            let found = resolution(known, b)->Some_0;
            let w = choose|i: int| 0 <= i < known.len() && (#[trigger] known[i]).id == found && near(known[i].nm, b);
            assert(!near(known[w].nm, b));
        }
    }
}

} // verus!
