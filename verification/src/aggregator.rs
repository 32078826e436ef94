//! The result aggregator: extraction results filed under distinct keys.

use vstd::prelude::*;

verus! {

/// What became of the extraction of one match.
#[derive(Clone, Debug, PartialEq, Eq)]
pub struct ExtractionResult {
    /// Bytes that the extractor consumed, where it could tell.
    pub size: Option<usize>,
    pub success: bool,
    /// Name of the extractor used; empty where none is registered.
    pub extractor: String,
    /// Directory that received the output; empty where nothing was attempted.
    pub output_directory: String,
}

/// The mathematical content of an [`ExtractionResult`].
pub struct ExtractionView {
    pub size: Option<usize>,
    pub success: bool,
    pub extractor: Seq<char>,
    pub output_directory: Seq<char>,
}

impl View for ExtractionResult {
    type V = ExtractionView;

    open spec fn view(&self) -> ExtractionView {
        ExtractionView {
            size: self.size,
            success: self.success,
            extractor: self.extractor@,
            output_directory: self.output_directory@,
        }
    }
}

impl ExtractionResult {
    /// A copy of this result.
    pub fn duplicate(&self) -> (r: ExtractionResult)
        ensures
            r@ == self@,
    {
        ExtractionResult {
            size: self.size,
            success: self.success,
            extractor: self.extractor.clone(),
            output_directory: self.output_directory.clone(),
        }
    }
}

/// A result together with the key it is filed under.
#[derive(Clone, Debug, PartialEq, Eq)]
pub struct FiledResult {
    pub key: String,
    pub result: ExtractionResult,
}

/// The mathematical content of a [`FiledResult`].
pub struct FiledView {
    pub key: Seq<char>,
    pub result: ExtractionView,
}

impl View for FiledResult {
    type V = FiledView;

    open spec fn view(&self) -> FiledView {
        FiledView { key: self.key@, result: self.result@ }
    }
}

/// No two entries are filed under the same key.
pub open spec fn keys_distinct(s: Seq<FiledView>) -> bool {
    forall|i: int, j: int| 0 <= i < j < s.len() ==> s[i].key != s[j].key
}

/// Some entry is filed under `key`.
pub open spec fn has_key(s: Seq<FiledView>, key: Seq<char>) -> bool {
    exists|i: int| 0 <= i < s.len() && (#[trigger] s[i]).key == key
}

/// The index of the first entry of `added`, at or behind `from`, whose key
/// is taken by an entry of `held` or by an earlier entry of `added`; the
/// length of `added` where there is none.
pub open spec fn first_collision(held: Seq<FiledView>, added: Seq<FiledView>, from: int) -> int
    decreases added.len() - from,
{
    if from < 0 || from >= added.len() {
        added.len() as int
    } else if has_key(held + added.subrange(0, from), added[from].key) {
        from
    } else {
        first_collision(held, added, from + 1)
    }
}

/// The first collision lies between `from` and the end of `added`, and
/// where it lies before the end, the key there is taken.
pub proof fn lemma_first_collision(held: Seq<FiledView>, added: Seq<FiledView>, from: int)
    requires
        0 <= from <= added.len(),
    ensures
        from <= first_collision(held, added, from) <= added.len(),
        first_collision(held, added, from) < added.len() ==> has_key(
            held + added.subrange(0, first_collision(held, added, from)),
            added[first_collision(held, added, from)].key,
        ),
    decreases added.len() - from,
{
    if from < added.len() && !has_key(held + added.subrange(0, from), added[from].key) {
        lemma_first_collision(held, added, from + 1);
    }
}

/// Where no entry of `added` from `from` on collides, and the entries
/// before it are filed under distinct keys, all keys are distinct.
pub proof fn lemma_no_collision(held: Seq<FiledView>, added: Seq<FiledView>, from: int)
    requires
        0 <= from <= added.len(),
        keys_distinct(held + added.subrange(0, from)),
        first_collision(held, added, from) == added.len(),
    ensures
        keys_distinct(held + added),
    decreases added.len() - from,
{
    if from == added.len() {
        assert(added.subrange(0, from) =~= added);
    } else {
        let before = held + added.subrange(0, from);
        let next = held + added.subrange(0, from + 1);
        assert(next =~= before.push(added[from]));
        assert forall|i: int, j: int| 0 <= i < j < next.len() implies next[i].key != next[j].key by {
            if j == before.len() {
                assert(before[i].key != added[from].key);
            } else {
                assert(before[i].key != before[j].key);
            }
        }
        lemma_no_collision(held, added, from + 1);
    }
}

/// Where all keys are distinct, no entry collides.
pub proof fn lemma_distinct_no_collision(held: Seq<FiledView>, added: Seq<FiledView>, from: int)
    requires
        0 <= from <= added.len(),
        keys_distinct(held + added),
    ensures
        first_collision(held, added, from) == added.len(),
    decreases added.len() - from,
{
    if from < added.len() {
        let before = held + added.subrange(0, from);
        let whole = held + added;
        if has_key(before, added[from].key) {
            let i = choose|i: int| 0 <= i < before.len() && (#[trigger] before[i]).key == added[from].key;
            assert(whole[i] == before[i]);
            assert(whole[held.len() + from] == added[from]);
        }
        lemma_distinct_no_collision(held, added, from + 1);
    }
}

/// An internal inconsistency of the result set.
#[derive(Clone, Debug, PartialEq, Eq)]
pub enum AggregateError {
    /// A second result arrived for a key that is already taken.
    KeyCollision(String),
}

/// Extraction results in the order they were filed, under distinct keys.
#[derive(Debug)]
pub struct ExtractionResults {
    entries: Vec<FiledResult>,
}

impl View for ExtractionResults {
    type V = Seq<FiledView>;

    closed spec fn view(&self) -> Seq<FiledView> {
        self.entries@.map_values(|e: FiledResult| e@)
    }
}

impl ExtractionResults {
    #[verifier::type_invariant]
    spec fn well_formed(self) -> bool {
        keys_distinct(self@)
    }

    /// An empty result set.
    pub fn new() -> (r: ExtractionResults)
        ensures
            r@ == Seq::<FiledView>::empty(),
    {
        let r = ExtractionResults { entries: Vec::new() };
        assert(r@ =~= Seq::<FiledView>::empty());
        r
    }

    /// Number of results.
    pub fn len(&self) -> (n: usize)
        ensures
            n == self@.len(),
    {
        self.entries.len()
    }

    /// The result filed at position `index`, with its key.
    pub fn entry(&self, index: usize) -> (e: &FiledResult)
        requires
            index < self@.len(),
        ensures
            e@ == self@[index as int],
    {
        &self.entries[index]
    }

    /// All results with their keys, in the order they were filed.
    pub fn entries(&self) -> (v: &Vec<FiledResult>)
        ensures
            v@.map_values(|e: FiledResult| e@) == self@,
    {
        &self.entries
    }

    /// Keys are distinct in every result set.
    pub fn invariants(&self)
        ensures
            keys_distinct(self@),
    {
        proof {
            use_type_invariant(self);
        }
    }

    /// The position of the result filed under `key`, if there is one.
    pub fn position(&self, key: &String) -> (r: Option<usize>)
        ensures
            r is Some <==> has_key(self@, key@),
            r is Some ==> r.unwrap() < self@.len() && self@[r.unwrap() as int].key == key@,
    {
        let mut i: usize = 0;
        while i < self.entries.len()
            invariant
                i <= self.entries@.len(),
                forall|k: int| 0 <= k < i ==> (#[trigger] self@[k]).key != key@,
            decreases self.entries@.len() - i,
        {
            if self.entries[i].key == *key {
                assert(self@[i as int].key == key@);
                return Some(i);
            }
            i += 1;
        }
        None
    }

    /// The result filed under `key`, if there is one.
    pub fn get(&self, key: &String) -> (r: Option<&ExtractionResult>)
        ensures
            r is Some <==> has_key(self@, key@),
            r is Some ==> exists|i: int|
                0 <= i < self@.len() && (#[trigger] self@[i]).key == key@ && self@[i].result
                    == r.unwrap()@,
    {
        match self.position(key) {
            Some(i) => {
                assert(self@[i as int].result == self.entries@[i as int].result@);
                Some(&self.entries[i].result)
            },
            None => None,
        }
    }

    /// Files a result under a key. A key that is already taken is an
    /// inconsistency: nothing is overwritten, the set stays as it was and the
    /// key is handed back in the error.
    pub fn insert(&mut self, key: String, result: ExtractionResult) -> (r: Result<
        (),
        AggregateError,
    >)
        ensures
            r is Err <==> has_key(old(self)@, key@),
            r is Ok ==> final(self)@ == old(self)@.push(FiledView { key: key@, result: result@ }),
            r is Err ==> final(self)@ == old(self)@,
            r is Err ==> (r->Err_0 matches AggregateError::KeyCollision(k) && k@ == key@),
    {
        proof {
            use_type_invariant(&*self);
        }
        match self.position(&key) {
            Some(_) => Err(AggregateError::KeyCollision(key)),
            None => {
                let ghost before = self@;
                let ghost filed = FiledView { key: key@, result: result@ };
                let mut entries: Vec<FiledResult> = Vec::new();
                assert(entries@.map_values(|e: FiledResult| e@) =~= Seq::<FiledView>::empty());
                core::mem::swap(&mut self.entries, &mut entries);
                entries.push(FiledResult { key, result });
                assert(entries@.map_values(|e: FiledResult| e@) =~= before.push(filed));
                core::mem::swap(&mut self.entries, &mut entries);
                Ok(())
            },
        }
    }

    /// Replaces the result at `index`; the key stays.
    pub(crate) fn settle(&mut self, index: usize, result: ExtractionResult)
        requires
            index < old(self)@.len(),
        ensures
            final(self)@ == old(self)@.update(
                index as int,
                FiledView { key: old(self)@[index as int].key, result: result@ },
            ),
    {
        proof {
            use_type_invariant(&*self);
        }
        let ghost before = self@;
        let ghost filed = FiledView { key: before[index as int].key, result: result@ };
        let mut entries: Vec<FiledResult> = Vec::new();
        assert(entries@.map_values(|e: FiledResult| e@) =~= Seq::<FiledView>::empty());
        core::mem::swap(&mut self.entries, &mut entries);
        let key = entries[index].key.clone();
        entries.set(index, FiledResult { key, result });
        assert(entries@.map_values(|e: FiledResult| e@) =~= before.update(index as int, filed));
        core::mem::swap(&mut self.entries, &mut entries);
    }

    /// Drops the results filed at position `len` and behind it.
    pub(crate) fn truncate(&mut self, len: usize)
        requires
            len <= old(self)@.len(),
        ensures
            final(self)@ == old(self)@.subrange(0, len as int),
    {
        proof {
            use_type_invariant(&*self);
        }
        let ghost before = self@;
        let mut entries: Vec<FiledResult> = Vec::new();
        assert(entries@.map_values(|e: FiledResult| e@) =~= Seq::<FiledView>::empty());
        core::mem::swap(&mut self.entries, &mut entries);
        entries.truncate(len);
        assert(entries@.map_values(|e: FiledResult| e@) =~= before.subrange(0, len as int));
        core::mem::swap(&mut self.entries, &mut entries);
    }

    /// Files every result of `other` behind those already held, in order.
    /// If any key of `other` is taken, nothing is added and the first such
    /// key is handed back in the error.
    pub fn merge(&mut self, other: &ExtractionResults) -> (r: Result<(), AggregateError>)
        ensures
            r is Err <==> first_collision(old(self)@, other@, 0) < other@.len(),
            r is Ok ==> final(self)@ == old(self)@ + other@,
            r is Err ==> final(self)@ == old(self)@,
            r is Err ==> (r->Err_0 matches AggregateError::KeyCollision(k) && k@
                == other@[first_collision(old(self)@, other@, 0)].key),
    {
        proof {
            use_type_invariant(&*self);
            use_type_invariant(other);
        }
        let ghost before = self@;
        let held: usize = self.len();
        let mut i: usize = 0;
        while i < other.len()
            invariant
                i <= other@.len(),
                held == before.len(),
                before == old(self)@,
                self@ == before + other@.subrange(0, i as int),
                first_collision(before, other@, 0) == first_collision(before, other@, i as int),
            decreases other@.len() - i,
        {
            let entry = other.entry(i);
            match self.insert(entry.key.clone(), entry.result.duplicate()) {
                Ok(()) => {
                    assert(self@ =~= before + other@.subrange(0, i + 1));
                },
                Err(e) => {
                    assert(first_collision(before, other@, i as int) == i);
                    self.truncate(held);
                    assert(self@ =~= before);
                    return Err(e);
                },
            }
            i += 1;
        }
        assert(other@.subrange(0, i as int) =~= other@);
        Ok(())
    }
}

} // verus!
