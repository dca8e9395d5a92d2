use vstd::prelude::*;

verus! {

/// The values that each original value was converted into, by value id, and the number of
/// block arguments converted.
#[derive(Debug)]
pub struct ConversionValueMapping {
    values: Vec<(u64, Vec<u64>)>,
    block_arguments_converted: usize,
}

pub open spec fn mapping_of(values: Seq<(u64, Vec<u64>)>) -> Map<u64, Seq<u64>> {
    Map::new(
        |k: u64| exists|i: int| 0 <= i < values.len() && (#[trigger] values[i]).0 == k,
        |k: u64| values[choose|i: int| 0 <= i < values.len() && (#[trigger] values[i]).0 == k].1@,
    )
}

pub open spec fn keys_distinct(values: Seq<(u64, Vec<u64>)>) -> bool {
    forall|i: int, j: int| 0 <= i < j < values.len() ==> (#[trigger] values[i]).0 != (#[trigger] values[j]).0
}

proof fn lemma_mapping_at(values: Seq<(u64, Vec<u64>)>, i: int)
    requires
        keys_distinct(values),
        0 <= i < values.len(),
    ensures
        mapping_of(values).contains_key(values[i].0),
        mapping_of(values)[values[i].0] == values[i].1@,
{
    let k = values[i].0;
    assert(mapping_of(values).dom().contains(k));
    let j = choose|j: int| 0 <= j < values.len() && (#[trigger] values[j]).0 == k;
    if j < i {
        assert(values[j].0 != values[i].0);
    } else if i < j {
        assert(values[i].0 != values[j].0);
    }
}

pub struct MappingView {
    pub values: Map<u64, Seq<u64>>,
    pub block_arguments_converted: nat,
}

impl View for ConversionValueMapping {
    type V = MappingView;

    closed spec fn view(&self) -> MappingView {
        MappingView {
            values: mapping_of(self.values@),
            block_arguments_converted: self.block_arguments_converted as nat,
        }
    }
}

impl ConversionValueMapping {
    #[verifier::type_invariant]
    spec fn inv(self) -> bool {
        keys_distinct(self.values@)
    }

    pub fn new() -> (r: ConversionValueMapping)
        ensures
            r@.values == Map::<u64, Seq<u64>>::empty(),
            r@.block_arguments_converted == 0,
    {
        let r = ConversionValueMapping { values: Vec::new(), block_arguments_converted: 0 };
        proof {
            assert(mapping_of(r.values@) =~= Map::<u64, Seq<u64>>::empty());
        }
        r
    }

    fn position(&self, source: u64) -> (r: Option<usize>)
        ensures
            match r {
                Some(i) => i < self.values@.len() && self.values@[i as int].0 == source,
                None => !self@.values.contains_key(source),
            },
    {
        let mut i: usize = 0;
        while i < self.values.len()
            invariant
                0 <= i <= self.values@.len(),
                forall|k: int| 0 <= k < i ==> (#[trigger] self.values@[k]).0 != source,
            decreases self.values@.len() - i,
        {
            if self.values[i].0 == source {
                return Some(i);
            }
            i = i + 1;
        }
        proof {
            if self@.values.contains_key(source) {
                let k = choose|k: int| 0 <= k < self.values@.len() && (#[trigger] self.values@[k]).0 == source;
            }
        }
        None
    }

    /// Records that `source` was converted into `targets`, replacing an earlier record.
    pub fn map(&mut self, source: u64, targets: Vec<u64>)
        ensures
            final(self)@ == (MappingView { values: old(self)@.values.insert(source, targets@), ..old(self)@ }),
    {
        proof {
            use_type_invariant(&*self);
        }
        let ghost tv = targets@;
        let mut values = Vec::new();
        std::mem::swap(&mut values, &mut self.values);
        let ghost before = values@;
        let mut i: usize = 0;
        let mut found = false;
        while i < values.len() && !found
            invariant
                0 <= i <= values@.len(),
                values@ == before,
                keys_distinct(before),
                found ==> i < values@.len() && before[i as int].0 == source,
                !found ==> forall|k: int| 0 <= k < i ==> (#[trigger] before[k]).0 != source,
            decreases values@.len() - i + (if found { 0int } else { 1int }),
        {
            if values[i].0 == source {
                found = true;
            } else {
                i = i + 1;
            }
        }
        if found {
            values.set(i, (source, targets));
        } else {
            values.push((source, targets));
        }
        proof {
            let after = values@;
            assert(keys_distinct(after)) by {
                assert forall|a: int, b: int| 0 <= a < b < after.len() implies (#[trigger] after[a]).0 != (#[trigger] after[b]).0 by {
                    if b < before.len() && !(found && (a == i || b == i)) {
                        assert(before[a].0 != before[b].0);
                    }
                }
            }
            assert forall|x: u64| #[trigger] mapping_of(after).contains_key(x) <==> mapping_of(before).insert(source, tv).contains_key(x) by {
                if mapping_of(after).contains_key(x) {
                    let k = choose|k: int| 0 <= k < after.len() && (#[trigger] after[k]).0 == x;
                    if k < before.len() && !(found && k == i) {
                        assert(before[k].0 == x);
                    }
                }
                if mapping_of(before).contains_key(x) {
                    let k = choose|k: int| 0 <= k < before.len() && (#[trigger] before[k]).0 == x;
                    assert(after[k].0 == x);
                }
                if x == source {
                    if found {
                        assert(after[i as int].0 == x);
                    } else {
                        assert(after[before.len() as int].0 == x);
                    }
                }
            }
            assert forall|x: u64| #[trigger] mapping_of(after).contains_key(x) implies mapping_of(after)[x] == mapping_of(before).insert(source, tv)[x] by {
                let k = choose|k: int| 0 <= k < after.len() && (#[trigger] after[k]).0 == x;
                lemma_mapping_at(after, k);
                if k < before.len() && !(found && k == i) {
                    assert(after[k] == before[k]);
                    lemma_mapping_at(before, k);
                }
            }
            assert(mapping_of(after) =~= mapping_of(before).insert(source, tv));
        }
        self.values = values;
    }

    /// The values `source` was converted into.
    pub fn get(&self, source: u64) -> (r: Option<&[u64]>)
        ensures
            match r {
                Some(t) => self@.values.contains_key(source) && t@ == self@.values[source],
                None => !self@.values.contains_key(source),
            },
    {
        proof {
            use_type_invariant(self);
        }
        match self.position(source) {
            Some(i) => {
                proof {
                    lemma_mapping_at(self.values@, i as int);
                }
                Some(self.values[i].1.as_slice())
            },
            None => None,
        }
    }

    pub fn contains(&self, source: u64) -> (r: bool)
        ensures
            r == self@.values.contains_key(source),
    {
        self.position(source).is_some()
    }

    pub fn block_arguments_converted(&self) -> (r: usize)
        ensures
            r == self@.block_arguments_converted,
    {
        self.block_arguments_converted
    }

    /// Adds to the number of converted block arguments.
    pub fn record_block_arguments_converted(&mut self, count: usize)
        requires
            old(self)@.block_arguments_converted + count <= usize::MAX,
        ensures
            final(self)@ == (MappingView {
                block_arguments_converted: (old(self)@.block_arguments_converted + count) as nat,
                ..old(self)@
            }),
    {
        proof {
            use_type_invariant(&*self);
        }
        self.block_arguments_converted = self.block_arguments_converted + count;
    }
}

impl Default for ConversionValueMapping {
    fn default() -> (r: ConversionValueMapping)
        ensures
            r@.values == Map::<u64, Seq<u64>>::empty(),
            r@.block_arguments_converted == 0,
    {
        ConversionValueMapping::new()
    }
}

/// A lookup gives back what the last mapping of the value recorded, and mapping one value
/// leaves the others as they were.
pub proof fn law_lookup_after_map(values: Map<u64, Seq<u64>>, source: u64, targets: Seq<u64>, other: u64)
    requires
        other != source,
    ensures
        values.insert(source, targets).contains_key(source),
        values.insert(source, targets)[source] == targets,
        values.insert(source, targets).contains_key(other) == values.contains_key(other),
        values.contains_key(other) ==> values.insert(source, targets)[other] == values[other],
{
}

} // verus!
