//! Label definitions supplied by the caller and the table they are merged into.
use vstd::prelude::*;

verus! {

/// Defines the location of a label by absolute address.
#[derive(Clone, Copy, Debug, PartialEq, Eq)]
pub struct LabelDefinition<'name> {
    /// Name of the label.
    pub name: &'name str,
    /// Absolute address of the label.
    pub address: u64,
}

impl<'name> LabelDefinition<'name> {
    pub fn new(name: &'name str, address: u64) -> (r: Self)
        ensures
            r.name == name,
            r.address == address,
    {
        LabelDefinition { name, address }
    }
}

impl<'name> From<(&&'name str, &u64)> for LabelDefinition<'name> {
    fn from(value: (&&'name str, &u64)) -> (r: Self)
        ensures
            r.name@ == (*value.0)@,
            r.address == *value.1,
    {
        LabelDefinition::new(*value.0, *value.1)
    }
}

impl<'name> vstd::std_specs::convert::FromSpecImpl<(&&'name str, &u64)> for LabelDefinition<'name> {
    open spec fn obeys_from_spec() -> bool {
        true
    }

    open spec fn from_spec(value: (&&'name str, &u64)) -> Self {
        LabelDefinition { name: *value.0, address: *value.1 }
    }
}

/// The name and address of each definition, in the order given.
pub open spec fn definitions_view(defs: Seq<LabelDefinition>) -> Seq<(Seq<char>, u64)> {
    defs.map_values(|d: LabelDefinition| (d.name@, d.address))
}

/// The mapping that a list of definitions describes: a later definition of a
/// name replaces an earlier one.
pub open spec fn labels_map(defs: Seq<(Seq<char>, u64)>) -> Map<Seq<char>, u64>
    decreases defs.len(),
{
    if defs.len() == 0 {
        Map::empty()
    } else {
        labels_map(defs.drop_last()).insert(defs.last().0, defs.last().1)
    }
}

/// A mapping from label name to absolute address.
pub struct LabelTable {
    names: Vec<String>,
    addresses: Vec<u64>,
    map: Ghost<Map<Seq<char>, u64>>,
}

impl View for LabelTable {
    type V = Map<Seq<char>, u64>;

    closed spec fn view(&self) -> Map<Seq<char>, u64> {
        self.map@
    }
}

impl LabelTable {
    /// The entries agree with the mapping, one entry per name.
    pub closed spec fn wf(&self) -> bool {
        &&& self.names@.len() == self.addresses@.len()
        &&& self.map@.dom().finite()
        &&& forall|i: int| 0 <= i < self.names@.len() ==> #[trigger] self.map@.contains_key(self.names@[i]@)
            && self.map@[self.names@[i]@] == self.addresses@[i]
        &&& forall|k: Seq<char>| #[trigger] self.map@.contains_key(k) ==> exists|i: int|
            0 <= i < self.names@.len() && #[trigger] self.names@[i]@ == k
        &&& forall|i: int, j: int|
            0 <= i < self.names@.len() && 0 <= j < self.names@.len() && i != j ==> self.names@[i]@
                != self.names@[j]@
    }

    /// An empty table.
    pub fn new() -> (r: LabelTable)
        ensures
            r.wf(),
            r@ == Map::<Seq<char>, u64>::empty(),
    {
        LabelTable { names: Vec::new(), addresses: Vec::new(), map: Ghost(Map::empty()) }
    }

    /// Number of distinct names in the table.
    pub fn len(&self) -> (r: usize)
        requires
            self.wf(),
        ensures
            r == self@.len(),
    {
        proof {
            self.lemma_len();
        }
        self.names.len()
    }

    /// The table holds as many names as entries.
    proof fn lemma_len(&self)
        requires
            self.wf(),
        ensures
            self@.len() == self.names@.len(),
    {
        let keys = self.names@.map_values(|n: String| n@);
        assert(keys.no_duplicates());
        assert(keys.to_set() =~= self@.dom()) by {
            assert forall|k: Seq<char>| self@.dom().contains(k) implies keys.to_set().contains(k) by {
                let i = choose|i: int| 0 <= i < self.names@.len() && #[trigger] self.names@[i]@ == k;
                assert(keys[i] == k);
            }
        }
        keys.unique_seq_to_set();
    }

    /// Position of `name` among the entries, if it is there.
    fn find(&self, name: &String) -> (r: Option<usize>)
        requires
            self.wf(),
        ensures
            match r {
                Some(i) => i < self.names@.len() && self.names@[i as int]@ == name@,
                None => !self@.contains_key(name@),
            },
    {
        let mut i: usize = 0;
        while i < self.names.len()
            invariant
                self.wf(),
                i <= self.names@.len(),
                forall|k: int| 0 <= k < i ==> self.names@[k]@ != name@,
            decreases self.names@.len() - i,
        {
            if self.names[i] == *name {
                return Some(i);
            }
            i = i + 1;
        }
        None
    }

    /// Defines `name` at `address`; an earlier definition of the name is replaced.
    pub fn insert(&mut self, name: &str, address: u64)
        requires
            old(self).wf(),
        ensures
            final(self).wf(),
            final(self)@ == old(self)@.insert(name@, address),
    {
        let n = name.to_owned();
        let ghost m = self.map@.insert(name@, address);
        match self.find(&n) {
            Some(i) => {
                self.addresses.set(i, address);
                self.map = Ghost(m);
                assert forall|j: int| 0 <= j < self.names@.len() implies #[trigger] self.map@.contains_key(
                    self.names@[j]@,
                ) && self.map@[self.names@[j]@] == self.addresses@[j] by {
                    if j != i {
                        assert(self.names@[j]@ != self.names@[i as int]@);
                        assert(old(self).map@.contains_key(old(self).names@[j]@));
                        assert(self.addresses@[j] == old(self).addresses@[j]);
                    }
                }
                assert forall|k: Seq<char>| #[trigger] self.map@.contains_key(k) implies exists|j: int|
                    0 <= j < self.names@.len() && #[trigger] self.names@[j]@ == k by {
                    if k != name@ {
                        assert(old(self).map@.contains_key(k));
                    } else {
                        assert(self.names@[i as int]@ == k);
                    }
                }
            },
            None => {
                self.names.push(n);
                self.addresses.push(address);
                self.map = Ghost(m);
                assert forall|j: int| 0 <= j < old(self).names@.len() implies self.names@[j]@ != name@ by {
                    assert(old(self).map@.contains_key(old(self).names@[j]@));
                }
                assert forall|j: int| 0 <= j < self.names@.len() implies #[trigger] self.map@.contains_key(
                    self.names@[j]@,
                ) && self.map@[self.names@[j]@] == self.addresses@[j] by {
                    if j < old(self).names@.len() {
                        assert(self.names@[j] == old(self).names@[j]);
                    }
                }
                assert forall|k: Seq<char>| #[trigger] self.map@.contains_key(k) implies exists|j: int|
                    0 <= j < self.names@.len() && #[trigger] self.names@[j]@ == k by {
                    if k != name@ {
                        assert(old(self).map@.contains_key(k));
                        let j = choose|j: int|
                            0 <= j < old(self).names@.len() && #[trigger] old(self).names@[j]@ == k;
                        assert(self.names@[j]@ == k);
                    } else {
                        assert(self.names@[self.names@.len() - 1]@ == k);
                    }
                }
            },
        }
    }

    /// Merges a list of definitions into one table; a later definition of a name
    /// replaces an earlier one.
    pub fn from_definitions(defs: &[LabelDefinition]) -> (r: LabelTable)
        ensures
            r.wf(),
            r@ == labels_map(definitions_view(defs@)),
    {
        let mut table = LabelTable::new();
        let mut i: usize = 0;
        while i < defs.len()
            invariant
                i <= defs@.len(),
                table.wf(),
                table@ == labels_map(definitions_view(defs@).take(i as int)),
            decreases defs@.len() - i,
        {
            table.insert(defs[i].name, defs[i].address);
            proof {
                let v = definitions_view(defs@);
                assert(v.take(i as int + 1).drop_last() =~= v.take(i as int));
            }
            i = i + 1;
        }
        proof {
            assert(definitions_view(defs@).take(i as int) =~= definitions_view(defs@));
        }
        table
    }

    /// The address of `name`, if the table defines it.
    pub fn resolve(&self, name: &str) -> (r: Option<u64>)
        requires
            self.wf(),
        ensures
            r == (if self@.contains_key(name@) {
                Some(self@[name@])
            } else {
                None
            }),
    {
        let n = name.to_owned();
        match self.find(&n) {
            Some(i) => Some(self.addresses[i]),
            None => None,
        }
    }

    /// One definition per name in the table, in the order each name was first defined.
    pub fn definitions(&self) -> (r: Vec<LabelDefinition<'_>>)
        requires
            self.wf(),
        ensures
            r@.len() == self@.len(),
            labels_map(definitions_view(r@)) == self@,
            forall|i: int, j: int|
                0 <= i < r@.len() && 0 <= j < r@.len() && i != j ==> r@[i].name@ != r@[j].name@,
    {
        proof {
            self.lemma_len();
        }
        let mut out: Vec<LabelDefinition<'_>> = Vec::new();
        let mut i: usize = 0;
        while i < self.names.len()
            invariant
                self.wf(),
                i <= self.names@.len(),
                out@.len() == i,
                forall|k: int| 0 <= k < i ==> (#[trigger] out@[k]).name@ == self.names@[k]@
                    && out@[k].address == self.addresses@[k],
                forall|k: int| 0 <= k < i ==> #[trigger] labels_map(definitions_view(out@)).contains_key(
                    self.names@[k]@,
                ) && labels_map(definitions_view(out@))[self.names@[k]@] == self.addresses@[k],
                forall|k: Seq<char>| #[trigger] labels_map(definitions_view(out@)).contains_key(k) ==> exists|j: int|
                    0 <= j < i && #[trigger] self.names@[j]@ == k,
            decreases self.names@.len() - i,
        {
            let ghost prev = out@;
            out.push(LabelDefinition::new(self.names[i].as_str(), self.addresses[i]));
            proof {
                let m = labels_map(definitions_view(out@));
                assert(definitions_view(out@).drop_last() =~= definitions_view(prev));
                assert(m == labels_map(definitions_view(prev)).insert(self.names@[i as int]@, self.addresses@[i as int]));
                assert forall|k: int| 0 <= k < i + 1 implies #[trigger] m.contains_key(self.names@[k]@)
                    && m[self.names@[k]@] == self.addresses@[k] by {
                    if k < i {
                        assert(self.names@[k]@ != self.names@[i as int]@);
                    }
                }
                assert forall|k: Seq<char>| #[trigger] m.contains_key(k) implies exists|j: int|
                    0 <= j < i + 1 && #[trigger] self.names@[j]@ == k by {
                    if k != self.names@[i as int]@ {
                        let j = choose|j: int| 0 <= j < i && #[trigger] self.names@[j]@ == k;
                    } else {
                        assert(self.names@[i as int]@ == k);
                    }
                }
            }
            i = i + 1;
        }
        proof {
            let m = labels_map(definitions_view(out@));
            assert forall|k: Seq<char>| #[trigger] m.contains_key(k) <==> self@.contains_key(k) by {
                if self@.contains_key(k) {
                    let j = choose|j: int| 0 <= j < self.names@.len() && #[trigger] self.names@[j]@ == k;
                }
            }
            assert(m =~= self@);
            assert forall|a: int, b: int| 0 <= a < out@.len() && 0 <= b < out@.len() && a != b implies out@[a].name@ != out@[b].name@ by {
                assert(out@[a].name@ == self.names@[a]@);
                assert(out@[b].name@ == self.names@[b]@);
            }
        }
        out
    }
}

} // verus!
