use vstd::prelude::*;

use crate::constellation::{all_of_len, points_bytes, view_points, Constellation, SIMDConstellation};
use crate::name_index::{index_contents, index_get, index_insert, new_index, NameIndex};
use crate::supported_sizes::{
    all_sizes, append_decimal, choices_text, decimal, is_supported, size_value, SupportedSize,
};

verus! {

/// What the registry knows of one collection: its dimensionality and its
/// points, in the order in which they were added.
pub type Collection = (nat, Seq<Seq<u32>>);

/// Why a registry operation was refused.
#[derive(Debug)]
pub enum SkyError {
    /// The first point of a batch has a length outside the supported set.
    InvalidSize { given: usize },
    /// A point's length differs from the dimensionality of the collection.
    IncorrectSize { name: String, expected: usize, given: usize },
    /// No collection has this name.
    NotFound(String),
    /// The operation is reserved and not available.
    Unimplemented,
}

/// The human-readable text of an error.
pub open spec fn message_text(e: SkyError) -> Seq<char> {
    match e {
        SkyError::InvalidSize { given } => "A vector with length "@ + decimal(given as nat)
            + " is not valid. Valid sizes: "@ + choices_text(all_sizes()),
        SkyError::IncorrectSize { name, expected, given } => "Constellation "@ + name@
            + " requires vectors with length "@ + decimal(expected as nat) + ", but you gave "@
            + decimal(given as nat),
        SkyError::NotFound(name) => "A constellation with the name "@ + name@
            + " does not exist."@,
        SkyError::Unimplemented => "This operation is not implemented."@,
    }
}

impl SkyError {
    /// A message that tells the user what was wrong.
    pub fn message(&self) -> (r: String)
        ensures
            r@ == message_text(*self),
    {
        let mut text = String::new();
        match self {
            SkyError::InvalidSize { given } => {
                text.append("A vector with length ");
                append_decimal(&mut text, *given);
                text.append(" is not valid. Valid sizes: ");
                let choices = SupportedSize::possible_choices();
                text.append(choices.as_str());
            },
            SkyError::IncorrectSize { name, expected, given } => {
                text.append("Constellation ");
                text.append(name.as_str());
                text.append(" requires vectors with length ");
                append_decimal(&mut text, *expected);
                text.append(", but you gave ");
                append_decimal(&mut text, *given);
            },
            SkyError::NotFound(name) => {
                text.append("A constellation with the name ");
                text.append(name.as_str());
                text.append(" does not exist.");
            },
            SkyError::Unimplemented => {
                text.append("This operation is not implemented.");
            },
        }
        assert(text@ =~= message_text(*self));
        text
    }
}

/// The figures that describe one collection.
#[derive(Debug)]
pub struct Metrics {
    pub name: String,
    pub count: usize,
    pub dimensions: usize,
    pub memory_size: u128,
}

/// `m` describes the collection `col` under the name `name`.
pub open spec fn reports(m: Metrics, name: Seq<char>, col: Collection) -> bool {
    &&& m.name@ == name
    &&& m.count == col.1.len()
    &&& m.dimensions == col.0
    &&& m.memory_size == points_bytes(col.1.len(), col.0)
}

impl Metrics {
    /// The figures of `constellation`, under the name `name`.
    pub fn from_constellation<C: Constellation>(name: String, constellation: &C) -> (r: Metrics)
        requires
            constellation.wf(),
        ensures
            reports(r, name@, (constellation.dims(), constellation.points())),
    {
        Metrics {
            name,
            count: constellation.count(),
            dimensions: constellation.dimensions(),
            memory_size: constellation.memory_size(),
        }
    }
}

/// Makes the store that backs a collection of one supported size.
pub struct ConstellationBuilder {
    size: SupportedSize,
}

impl ConstellationBuilder {
    pub fn new(size: SupportedSize) -> (r: ConstellationBuilder)
        ensures
            r.size() == size,
    {
        ConstellationBuilder { size }
    }

    /// The size that the builder makes stores for.
    pub closed spec fn size(&self) -> SupportedSize {
        self.size
    }

    /// An empty lane-packed store for points of the builder's size.
    pub fn build(&self) -> (r: SIMDConstellation)
        ensures
            r.wf(),
            r.dims() == size_value(self.size()),
            r.points() == Seq::<Seq<u32>>::empty(),
    {
        let lanes: usize = match self.size {
            SupportedSize::U4 => 1,
            SupportedSize::U64 => 16,
            SupportedSize::U128 => 32,
            SupportedSize::U256 => 64,
            SupportedSize::U512 => 128,
        };
        SIMDConstellation::new(lanes)
    }
}

/// The points already stored under `name`, none if it is unbound.
pub open spec fn stored(c: Map<Seq<char>, Collection>, name: Seq<char>) -> Seq<Seq<u32>> {
    if c.contains_key(name) {
        c[name].1
    } else {
        Seq::empty()
    }
}

/// The dimensionality that a batch for `name` must have: the one bound to
/// the name, or else the length of the batch's first point.
pub open spec fn bound_dims(
    c: Map<Seq<char>, Collection>,
    name: Seq<char>,
    values: Seq<Seq<u32>>,
) -> nat {
    if c.contains_key(name) {
        c[name].0
    } else {
        values[0].len()
    }
}

/// A non-empty batch is taken whole: its first point has a supported length
/// and every point has the dimensionality bound to the name.
pub open spec fn batch_accepted(
    c: Map<Seq<char>, Collection>,
    name: Seq<char>,
    values: Seq<Seq<u32>>,
) -> bool {
    &&& values.len() > 0
    &&& is_supported(values[0].len())
    &&& all_of_len(values, bound_dims(c, name, values))
}

/// The collections after an `add` of `values` under `name`.
pub open spec fn after_add(
    c: Map<Seq<char>, Collection>,
    name: Seq<char>,
    values: Seq<Seq<u32>>,
) -> Map<Seq<char>, Collection> {
    if batch_accepted(c, name, values) {
        c.insert(name, (bound_dims(c, name, values), stored(c, name) + values))
    } else {
        c
    }
}

/// The names, in order of creation, after an `add` of `values` under `name`.
pub open spec fn names_after_add(
    names: Seq<Seq<char>>,
    c: Map<Seq<char>, Collection>,
    name: Seq<char>,
    values: Seq<Seq<u32>>,
) -> Seq<Seq<char>> {
    if batch_accepted(c, name, values) && !c.contains_key(name) {
        names.push(name)
    } else {
        names
    }
}

/// `given` is the length of the first point of `values` whose length is not
/// `expected`.
pub open spec fn first_mismatch(values: Seq<Seq<u32>>, expected: nat, given: nat) -> bool {
    exists|i: int|
        0 <= i < values.len() && values[i].len() == given && given != expected && forall|j: int|
            0 <= j < i ==> (#[trigger] values[j]).len() == expected
}

/// The names, among `names`, that start with `prefix`.
pub open spec fn with_prefix(names: Seq<Seq<char>>, prefix: Seq<char>) -> Seq<Seq<char>> {
    names.filter(|n: Seq<char>| prefix.is_prefix_of(n))
}

/// Whether `name` starts with `prefix`.
pub fn has_prefix(name: &String, prefix: &String) -> (r: bool)
    ensures
        r == prefix@.is_prefix_of(name@),
{
    let n = name.as_str().unicode_len();
    let p = prefix.as_str().unicode_len();
    if p > n {
        return false;
    }
    let mut i: usize = 0;
    while i < p
        invariant
            p == prefix@.len(),
            n == name@.len(),
            p <= n,
            0 <= i <= p,
            forall|j: int| 0 <= j < i ==> prefix@[j] == name@[j],
        decreases p - i,
    {
        if prefix.as_str().get_char(i) != name.as_str().get_char(i) {
            assert(prefix@[i as int] != name@.subrange(0, p as int)[i as int]);
            return false;
        }
        i = i + 1;
    }
    assert(prefix@ =~= name@.subrange(0, p as int));
    true
}

/// One collection of the registry, under its name.
struct Slot {
    name: String,
    store: SIMDConstellation,
}

/// The registry: each name bound to one collection of one dimensionality.
pub struct Sky {
    index: NameIndex,
    slots: Vec<Slot>,
}

impl Sky {
    /// The registry's internal invariant.
    pub closed spec fn wf(&self) -> bool {
        let idx = index_contents(self.index);
        &&& forall|k: Seq<char>|
            #[trigger] idx.contains_key(k) ==> idx[k] < self.slots@.len() && self.slots@[idx[k] as int].name@
                == k
        &&& forall|i: int|
            0 <= i < self.slots@.len() ==> idx.contains_key((#[trigger] self.slots@[i]).name@)
                && idx[self.slots@[i].name@] == i
        &&& forall|i: int|
            0 <= i < self.slots@.len() ==> (#[trigger] self.slots@[i]).store.wf() && is_supported(
                self.slots@[i].store.dims(),
            )
    }

    /// Each bound name with its collection.
    pub closed spec fn collections(&self) -> Map<Seq<char>, Collection> {
        let idx = index_contents(self.index);
        Map::new(
            |k: Seq<char>| idx.contains_key(k),
            |k: Seq<char>|
                (self.slots@[idx[k] as int].store.dims(), self.slots@[idx[k] as int].store.points()),
        )
    }

    /// The bound names, in the order in which their collections were made.
    pub closed spec fn names(&self) -> Seq<Seq<char>> {
        self.slots@.map_values(|s: Slot| s.name@)
    }

    /// The names are those of the collections, each once, and each
    /// collection has a supported dimensionality.
    pub proof fn lemma_names_are_bound(&self)
        requires
            self.wf(),
        ensures
            self.names().no_duplicates(),
            forall|k: Seq<char>| #[trigger]
                self.collections().contains_key(k) <==> self.names().contains(k),
            forall|k: Seq<char>| #[trigger]
                self.collections().contains_key(k) ==> is_supported(self.collections()[k].0),
    {
        let idx = index_contents(self.index);
        assert forall|k: Seq<char>| #[trigger]
            self.collections().contains_key(k) <==> self.names().contains(k) by {
            if self.collections().contains_key(k) {
                assert(self.names()[idx[k] as int] == k);
            }
            if self.names().contains(k) {
                let i = choose|i: int| 0 <= i < self.names().len() && self.names()[i] == k;
                assert(self.slots@[i].name@ == k);
            }
        }
        assert forall|a: int, b: int|
            0 <= a < self.names().len() && 0 <= b < self.names().len() && a != b implies self.names()[a]
            != self.names()[b] by {
            assert(self.slots@[a].name@ == self.names()[a]);
            assert(self.slots@[b].name@ == self.names()[b]);
        }
        assert forall|k: Seq<char>| #[trigger]
            self.collections().contains_key(k) implies is_supported(self.collections()[k].0) by {
            assert(self.slots@[idx[k] as int].store.wf());
        }
    }

    /// An empty registry.
    pub fn new() -> (r: Sky)
        ensures
            r.wf(),
            r.collections() == Map::<Seq<char>, Collection>::empty(),
            r.names() == Seq::<Seq<char>>::empty(),
    {
        let r = Sky { index: new_index(), slots: Vec::new() };
        assert(r.collections() =~= Map::<Seq<char>, Collection>::empty());
        assert(r.names() =~= Seq::<Seq<char>>::empty());
        r
    }

    /// Adds a batch of points to the collection `name`, making the
    /// collection if the name is unbound. An empty batch changes nothing.
    /// The batch is checked whole before anything is stored: the first point
    /// must have a supported length, and every point the dimensionality bound
    /// to the name (or, for a new name, that of the first point). Returns the
    /// number of points added.
    pub fn add(&mut self, name: String, values: Vec<Vec<u32>>) -> (r: Result<usize, SkyError>)
        requires
            old(self).wf(),
        ensures
            final(self).wf(),
            final(self).collections() == after_add(
                old(self).collections(),
                name@,
                view_points(values@),
            ),
            final(self).names() == names_after_add(
                old(self).names(),
                old(self).collections(),
                name@,
                view_points(values@),
            ),
            r is Ok <==> (values@.len() == 0 || batch_accepted(
                old(self).collections(),
                name@,
                view_points(values@),
            )),
            r matches Ok(n) ==> n == values@.len(),
            values@.len() > 0 && !is_supported(values@[0]@.len()) ==> (r matches Err(
                SkyError::InvalidSize { given },
            ) && given == values@[0]@.len()),
            values@.len() > 0 && is_supported(values@[0]@.len()) && !batch_accepted(
                old(self).collections(),
                name@,
                view_points(values@),
            ) ==> (r matches Err(SkyError::IncorrectSize { name: n, expected, given }) && n@
                == name@ && expected == bound_dims(
                old(self).collections(),
                name@,
                view_points(values@),
            ) && first_mismatch(view_points(values@), expected as nat, given as nat)),
    {
        let ghost vals = view_points(values@);
        let ghost c0 = self.collections();
        if values.len() == 0 {
            return Ok(0);
        }
        assert(vals[0] == values@[0]@);
        let first_len = values[0].len();
        let size = match SupportedSize::from_len(first_len) {
            Some(s) => s,
            None => {
                return Err(SkyError::InvalidSize { given: first_len });
            },
        };
        let existing = index_get(&self.index, &name);
        let expected = match existing {
            Some(slot) => self.slots[slot].store.dimensions(),
            None => first_len,
        };
        assert(expected == bound_dims(c0, name@, vals));
        let mut i: usize = 0;
        while i < values.len()
            invariant
                vals == view_points(values@),
                *self == *old(self),
                c0 == old(self).collections(),
                self.wf(),
                values@.len() > 0,
                vals[0].len() == first_len,
                is_supported(first_len as nat),
                expected == bound_dims(c0, name@, vals),
                0 <= i <= values@.len(),
                forall|j: int| 0 <= j < i ==> (#[trigger] vals[j]).len() == expected,
            decreases values@.len() - i,
        {
            assert(vals[i as int] == values@[i as int]@);
            if values[i].len() != expected {
                let given = values[i].len();
                assert(first_mismatch(vals, expected as nat, given as nat));
                assert(!all_of_len(vals, expected as nat));
                return Err(SkyError::IncorrectSize { name, expected, given });
            }
            i = i + 1;
        }
        assert(batch_accepted(c0, name@, vals));
        let total = values.len();
        let ghost idx = index_contents(self.index);
        match existing {
            Some(slot) => {
                let ghost before = self.slots@;
                self.slots[slot].store.add_points(values);
                proof {
                    assert forall|j: int| 0 <= j < self.slots@.len() && j != slot implies #[trigger]
                        self.slots@[j] == before[j] by {}
                    assert(self.collections() =~= after_add(c0, name@, vals));
                    assert(self.names() =~= names_after_add(old(self).names(), c0, name@, vals));
                }
            },
            None => {
                let mut store = ConstellationBuilder::new(size).build();
                store.add_points(values);
                let slot = self.slots.len();
                index_insert(&mut self.index, name.clone(), slot);
                let ghost before = self.slots@;
                self.slots.push(Slot { name, store });
                proof {
                    assert(stored(c0, name@) =~= Seq::<Seq<u32>>::empty());
                    assert(Seq::<Seq<u32>>::empty() + vals =~= vals);
                    assert(self.collections() =~= after_add(c0, name@, vals));
                    assert(self.names() =~= names_after_add(old(self).names(), c0, name@, vals));
                }
            },
        }
        Ok(total)
    }

    /// The store of the collection `name`, to be scanned for points near
    /// `point`: refused when the name is unbound, or when the point's length
    /// is not the collection's dimensionality.
    pub fn query(&self, name: &String, point: &Vec<u32>) -> (r: Result<&SIMDConstellation, SkyError>)
        requires
            self.wf(),
        ensures
            r is Ok <==> self.collections().contains_key(name@) && point@.len()
                == self.collections()[name@].0,
            !self.collections().contains_key(name@) ==> (r matches Err(SkyError::NotFound(n))
                && n@ == name@),
            self.collections().contains_key(name@) && point@.len() != self.collections()[name@].0
                ==> (r matches Err(SkyError::IncorrectSize { name: n, expected, given }) && n@
                == name@ && expected == self.collections()[name@].0 && given == point@.len()),
            r matches Ok(c) ==> (c.wf() && c.dims() == self.collections()[name@].0 && c.points()
                == self.collections()[name@].1),
    {
        match index_get(&self.index, name) {
            None => Err(SkyError::NotFound(name.clone())),
            Some(slot) => {
                let store = &self.slots[slot].store;
                let expected = store.dimensions();
                if expected != point.len() {
                    Err(SkyError::IncorrectSize { name: name.clone(), expected, given: point.len() })
                } else {
                    Ok(store)
                }
            },
        }
    }

    /// The figures of the collection `name`.
    pub fn describe(&self, name: &String) -> (r: Result<Metrics, SkyError>)
        requires
            self.wf(),
        ensures
            r is Ok <==> self.collections().contains_key(name@),
            r matches Ok(m) ==> reports(m, name@, self.collections()[name@]),
            r matches Err(e) ==> (e matches SkyError::NotFound(n) && n@ == name@),
    {
        match index_get(&self.index, name) {
            None => Err(SkyError::NotFound(name.clone())),
            Some(slot) => Ok(Metrics::from_constellation(name.clone(), &self.slots[slot].store)),
        }
    }

    /// The figures of every collection whose name starts with `prefix`, in
    /// the order in which the collections were made.
    pub fn list(&self, prefix: &String) -> (r: Vec<Metrics>)
        requires
            self.wf(),
        ensures
            r@.len() == with_prefix(self.names(), prefix@).len(),
            forall|j: int|
                0 <= j < r@.len() ==> self.collections().contains_key(
                    #[trigger] with_prefix(self.names(), prefix@)[j],
                ),
            forall|j: int|
                0 <= j < r@.len() ==> reports(
                    #[trigger] r@[j],
                    with_prefix(self.names(), prefix@)[j],
                    self.collections()[with_prefix(self.names(), prefix@)[j]],
                ),
    {
        let ghost pred = |n: Seq<char>| prefix@.is_prefix_of(n);
        let mut out: Vec<Metrics> = Vec::new();
        let mut i: usize = 0;
        while i < self.slots.len()
            invariant
                self.wf(),
                pred == (|n: Seq<char>| prefix@.is_prefix_of(n)),
                0 <= i <= self.slots@.len(),
                out@.len() == self.names().subrange(0, i as int).filter(pred).len(),
                forall|j: int|
                    0 <= j < out@.len() ==> self.collections().contains_key(
                        #[trigger] self.names().subrange(0, i as int).filter(pred)[j],
                    ),
                forall|j: int|
                    0 <= j < out@.len() ==> reports(
                        #[trigger] out@[j],
                        self.names().subrange(0, i as int).filter(pred)[j],
                        self.collections()[self.names().subrange(0, i as int).filter(pred)[j]],
                    ),
            decreases self.slots@.len() - i,
        {
            let ghost seen = self.names().subrange(0, i as int);
            let ghost next = self.names().subrange(0, i + 1);
            assert(next.drop_last() =~= seen);
            assert(next.last() == self.slots@[i as int].name@);
            let slot = &self.slots[i];
            proof {
                let idx = index_contents(self.index);
                assert(idx.contains_key(slot.name@) && idx[slot.name@] == i);
                assert(self.collections()[slot.name@] == (slot.store.dims(), slot.store.points()));
            }
            proof {
                reveal(Seq::filter);
            }
            assert(pred(next.last()) == prefix@.is_prefix_of(slot.name@));
            assert(next.len() > 0);
            if has_prefix(&slot.name, prefix) {
                let m = Metrics::from_constellation(slot.name.clone(), &slot.store);
                out.push(m);
                assert(next.filter(pred) == seen.filter(pred).push(slot.name@));
            } else {
                assert(next.filter(pred) == seen.filter(pred));
            }
            i = i + 1;
        }
        assert(self.names().subrange(0, self.slots@.len() as int) =~= self.names());
        out
    }

    /// Deleting a collection is reserved and not available: always refused
    /// with `Unimplemented`, and nothing changes.
    pub fn delete(&mut self, name: &String) -> (r: Result<usize, SkyError>)
        requires
            old(self).wf(),
        ensures
            *final(self) == *old(self),
            r matches Err(e) && e is Unimplemented,
    {
        Err(SkyError::Unimplemented)
    }
}

impl Default for Sky {
    /// An empty registry.
    fn default() -> (r: Sky)
        ensures
            r.wf(),
            r.collections() == Map::<Seq<char>, Collection>::empty(),
            r.names() == Seq::<Seq<char>>::empty(),
    {
        Sky::new()
    }
}

/// Adding a batch of points of one supported length `d` under a fresh name
/// makes a collection of dimensionality `d` that holds exactly that batch:
/// describing it then reports as many points as were added, and `d`.
pub proof fn lemma_add_then_describe(
    c: Map<Seq<char>, Collection>,
    name: Seq<char>,
    values: Seq<Seq<u32>>,
    d: nat,
)
    requires
        !c.contains_key(name),
        values.len() > 0,
        is_supported(d),
        all_of_len(values, d),
    ensures
        batch_accepted(c, name, values),
        after_add(c, name, values).contains_key(name),
        after_add(c, name, values)[name].0 == d,
        after_add(c, name, values)[name].1 == values,
        after_add(c, name, values)[name].1.len() == values.len(),
{
    assert(values[0].len() == d);
    assert(Seq::<Seq<u32>>::empty() + values =~= values);
}

/// A batch whose points do not all have the same length is refused whole:
/// nothing is stored, under any name.
pub proof fn lemma_mixed_batch_rejected(
    c: Map<Seq<char>, Collection>,
    name: Seq<char>,
    values: Seq<Seq<u32>>,
    i: int,
    j: int,
)
    requires
        0 <= i < values.len(),
        0 <= j < values.len(),
        values[i].len() != values[j].len(),
    ensures
        !batch_accepted(c, name, values),
        after_add(c, name, values) == c,
{
}

/// Two batches of one supported length `d` added one after the other under
/// a name that was unbound both succeed and land in one collection, which
/// holds the first batch followed by the second; the name is listed once.
pub proof fn lemma_first_adds_share_collection(
    c: Map<Seq<char>, Collection>,
    names: Seq<Seq<char>>,
    name: Seq<char>,
    first: Seq<Seq<u32>>,
    second: Seq<Seq<u32>>,
    d: nat,
)
    requires
        !c.contains_key(name),
        first.len() > 0,
        second.len() > 0,
        is_supported(d),
        all_of_len(first, d),
        all_of_len(second, d),
    ensures
        batch_accepted(c, name, first),
        batch_accepted(after_add(c, name, first), name, second),
        after_add(after_add(c, name, first), name, second) == c.insert(name, (d, first + second)),
        names_after_add(
            names_after_add(names, c, name, first),
            after_add(c, name, first),
            name,
            second,
        ) == names.push(name),
{
    lemma_add_then_describe(c, name, first, d);
    let c1 = after_add(c, name, first);
    assert(second[0].len() == d);
    assert(c1.insert(name, (d, first + second)) =~= c.insert(name, (d, first + second)));
}

} // verus!
