//! Byte patterns with wildcard positions, and the search for their occurrences
//! in a buffer.

use vstd::prelude::*;

verus! {

/// One position of a pattern.
#[derive(Clone, Copy, Debug, PartialEq, Eq)]
pub enum PatternByte {
    /// The buffer must hold exactly this byte.
    Exact(u8),
    /// Any byte is accepted.
    Any,
}

impl PatternByte {
    /// Whether this position accepts the byte `b`.
    pub open spec fn accepts(self, b: u8) -> bool {
        match self {
            PatternByte::Exact(e) => e == b,
            PatternByte::Any => true,
        }
    }
}

/// The pattern lies wholly inside the buffer at `offset` and every position
/// accepts the byte under it.
pub open spec fn occurs_at(pattern: Seq<PatternByte>, buffer: Seq<u8>, offset: int) -> bool {
    &&& 0 <= offset
    &&& offset + pattern.len() <= buffer.len()
    &&& forall|j: int| 0 <= j < pattern.len() ==> (#[trigger] pattern[j]).accepts(buffer[offset + j])
}

/// The offsets below `limit` at which the pattern occurs, in ascending order.
pub open spec fn occurrences_below(pattern: Seq<PatternByte>, buffer: Seq<u8>, limit: nat) -> Seq<
    usize,
>
    decreases limit,
{
    if limit == 0 {
        Seq::empty()
    } else {
        let earlier = occurrences_below(pattern, buffer, (limit - 1) as nat);
        if occurs_at(pattern, buffer, limit - 1) {
            earlier.push((limit - 1) as usize)
        } else {
            earlier
        }
    }
}

/// Every offset of the buffer at which the pattern occurs, in ascending order.
pub open spec fn occurrences(pattern: Seq<PatternByte>, buffer: Seq<u8>) -> Seq<usize> {
    occurrences_below(pattern, buffer, buffer.len())
}

/// A skip table is safe when following it can never jump over an occurrence:
/// it holds one shift for each byte value, each shift is at least one, and a
/// byte that some position before the last accepts never shifts the pattern
/// past the alignment that puts that position under it.
pub open spec fn safe_shifts(pattern: Seq<PatternByte>, table: Seq<usize>) -> bool {
    &&& table.len() == 256
    &&& forall|c: u8| 1 <= #[trigger] table[c as int] <= pattern.len()
    &&& forall|c: u8, j: int|
        0 <= j < pattern.len() - 1 && #[trigger] pattern[j].accepts(c) ==> table[c as int]
            <= pattern.len() - 1 - j
}

/// The index of the last position before `upto` that accepts the byte `c`,
/// or -1 where none does.
pub open spec fn last_accepting(pattern: Seq<PatternByte>, c: u8, upto: int) -> int
    decreases upto,
{
    if upto <= 0 {
        -1
    } else if pattern[upto - 1].accepts(c) {
        upto - 1
    } else {
        last_accepting(pattern, c, upto - 1)
    }
}

/// The shift of the skipping search for the byte `c`: the distance from the
/// last position of the pattern back to the nearest earlier position that
/// accepts `c`, and the whole length where there is none.
pub open spec fn shift_of(pattern: Seq<PatternByte>, c: u8) -> int {
    pattern.len() - 1 - last_accepting(pattern, c, pattern.len() - 1)
}

/// The table holds the shift of every byte value.
pub open spec fn is_shift_table(pattern: Seq<PatternByte>, table: Seq<usize>) -> bool {
    &&& table.len() == 256
    &&& forall|c: u8| #[trigger] table[c as int] == shift_of(pattern, c)
}

/// The last accepting position lies before `upto`, and no position behind it
/// and before `upto` accepts the byte.
pub proof fn lemma_last_accepting(pattern: Seq<PatternByte>, c: u8, upto: int)
    requires
        0 <= upto <= pattern.len(),
    ensures
        -1 <= last_accepting(pattern, c, upto) < upto || upto == 0,
        last_accepting(pattern, c, upto) >= -1,
        forall|j: int|
            last_accepting(pattern, c, upto) < j < upto ==> !(#[trigger] pattern[j]).accepts(c),
    decreases upto,
{
    if upto > 0 && !pattern[upto - 1].accepts(c) {
        lemma_last_accepting(pattern, c, upto - 1);
    }
}

/// The table of shifts is safe to skip by.
pub proof fn lemma_shift_table_safe(pattern: Seq<PatternByte>, table: Seq<usize>)
    requires
        pattern.len() > 0,
        is_shift_table(pattern, table),
    ensures
        safe_shifts(pattern, table),
{
    assert forall|c: u8| 1 <= #[trigger] table[c as int] <= pattern.len() by {
        lemma_last_accepting(pattern, c, pattern.len() - 1);
    }
    assert forall|c: u8, j: int|
        0 <= j < pattern.len() - 1 && #[trigger] pattern[j].accepts(c) implies table[c as int]
        <= pattern.len() - 1 - j by {
        lemma_last_accepting(pattern, c, pattern.len() - 1);
    }
}

/// `occurrences_below` lists exactly the occurrences under the limit, each
/// once, smallest first.
pub proof fn lemma_occurrences_below(pattern: Seq<PatternByte>, buffer: Seq<u8>, limit: nat)
    requires
        limit <= usize::MAX,
    ensures
        forall|i: int|
            0 <= i < occurrences_below(pattern, buffer, limit).len() ==> ({
                let o = #[trigger] occurrences_below(pattern, buffer, limit)[i];
                o < limit && occurs_at(pattern, buffer, o as int)
            }),
        forall|i: int, j: int|
            0 <= i < j < occurrences_below(pattern, buffer, limit).len()
                ==> occurrences_below(pattern, buffer, limit)[i] < occurrences_below(
                pattern,
                buffer,
                limit,
            )[j],
        forall|o: usize|
            o < limit && occurs_at(pattern, buffer, o as int) ==> occurrences_below(
                pattern,
                buffer,
                limit,
            ).contains(o),
    decreases limit,
{
    if limit > 0 {
        let earlier = occurrences_below(pattern, buffer, (limit - 1) as nat);
        let all = occurrences_below(pattern, buffer, limit);
        lemma_occurrences_below(pattern, buffer, (limit - 1) as nat);
        assert forall|o: usize| o < limit && occurs_at(pattern, buffer, o as int) implies all.contains(
            o,
        ) by {
            if o < limit - 1 {
                let k = choose|k: int| 0 <= k < earlier.len() && earlier[k] == o;
                assert(all[k] == o);
            } else {
                assert(all[all.len() - 1] == o);
            }
        }
    }
}

/// Where no occurrence starts in `[from, to)`, the list of occurrences does
/// not grow between the two limits.
pub proof fn lemma_no_occurrence_between(
    pattern: Seq<PatternByte>,
    buffer: Seq<u8>,
    from: nat,
    to: nat,
)
    requires
        from <= to,
        forall|q: int| from <= q < to ==> !occurs_at(pattern, buffer, q),
    ensures
        occurrences_below(pattern, buffer, to) == occurrences_below(pattern, buffer, from),
    decreases to - from,
{
    if from < to {
        lemma_no_occurrence_between(pattern, buffer, from, (to - 1) as nat);
    }
}

/// A non-empty byte pattern made of exact bytes and wildcard positions.
#[derive(Debug)]
pub struct Pattern {
    cells: Vec<PatternByte>,
}

impl View for Pattern {
    type V = Seq<PatternByte>;

    closed spec fn view(&self) -> Seq<PatternByte> {
        self.cells@
    }
}

impl Pattern {
    #[verifier::type_invariant]
    spec fn non_empty(self) -> bool {
        self.cells@.len() > 0
    }

    /// Builds a pattern from its positions; an empty list is no pattern.
    pub fn new(cells: Vec<PatternByte>) -> (r: Option<Pattern>)
        ensures
            r.is_some() <==> cells@.len() > 0,
            r.is_some() ==> r.unwrap()@ == cells@,
    {
        if cells.len() == 0 {
            None
        } else {
            Some(Pattern { cells })
        }
    }

    /// Builds a pattern that matches exactly the given bytes; an empty
    /// literal is no pattern.
    pub fn literal(bytes: &[u8]) -> (r: Option<Pattern>)
        ensures
            r.is_some() <==> bytes@.len() > 0,
            r.is_some() ==> r.unwrap()@ == Seq::new(
                bytes@.len(),
                |i: int| PatternByte::Exact(bytes@[i]),
            ),
    {
        let mut cells: Vec<PatternByte> = Vec::new();
        let mut i: usize = 0;
        while i < bytes.len()
            invariant
                i <= bytes@.len(),
                cells@ == Seq::new(i as nat, |k: int| PatternByte::Exact(bytes@[k])),
            decreases bytes@.len() - i,
        {
            cells.push(PatternByte::Exact(bytes[i]));
            i += 1;
        }
        Pattern::new(cells)
    }

    /// Number of positions; never zero.
    pub fn len(&self) -> (n: usize)
        ensures
            n == self@.len(),
            n > 0,
    {
        proof {
            use_type_invariant(self);
        }
        self.cells.len()
    }

    /// The position at index `i`.
    pub fn cell(&self, i: usize) -> (c: PatternByte)
        requires
            i < self@.len(),
        ensures
            c == self@[i as int],
    {
        self.cells[i]
    }

    /// Whether the pattern occurs in the buffer at `offset`.
    pub fn matches_at(&self, buffer: &[u8], offset: usize) -> (r: bool)
        ensures
            r == occurs_at(self@, buffer@, offset as int),
    {
        let m: usize = self.cells.len();
        let n: usize = buffer.len();
        if offset > n || m > n - offset {
            return false;
        }
        let mut j: usize = 0;
        while j < m
            invariant
                j <= m,
                m == self.cells@.len(),
                n == buffer@.len(),
                offset + m <= n,
                forall|k: int| 0 <= k < j ==> (#[trigger] self.cells@[k]).accepts(buffer@[offset + k]),
            decreases m - j,
        {
            match self.cells[j] {
                PatternByte::Exact(e) => {
                    if buffer[offset + j] != e {
                        assert(!self.cells@[j as int].accepts(buffer@[offset + j]));
                        return false;
                    }
                },
                PatternByte::Any => {},
            }
            j += 1;
        }
        true
    }

    /// Builds the skip table of the fast search: for each byte value, the
    /// distance from the last position to the nearest earlier position that
    /// accepts the byte, and the whole length where there is none.
    pub fn shift_table(&self) -> (table: Vec<usize>)
        ensures
            is_shift_table(self@, table@),
    {
        proof {
            use_type_invariant(self);
        }
        let m: usize = self.cells.len();
        let mut anchor: usize = 0;
        let mut j: usize = 0;
        while j < m - 1
            invariant
                m == self.cells@.len(),
                m > 0,
                j <= m - 1,
                anchor <= j,
                forall|k: int| anchor <= k < j ==> self.cells@[k] is Exact,
                anchor > 0 ==> self.cells@[anchor - 1] is Any,
            decreases m - 1 - j,
        {
            match self.cells[j] {
                PatternByte::Exact(_) => {},
                PatternByte::Any => {
                    anchor = j + 1;
                },
            }
            j += 1;
        }
        let widest: usize = m - anchor;
        let mut table: Vec<usize> = vec![widest; 256];
        let mut k: usize = anchor;
        while k < m - 1
            invariant
                m == self.cells@.len(),
                m > 0,
                anchor <= k <= m - 1,
                table@.len() == 256,
                forall|i: int| anchor <= i < m - 1 ==> self.cells@[i] is Exact,
                forall|c: u8| #[trigger] table@[c as int] == m - 1 - last_accepting(self@, c, k as int),
            decreases m - 1 - k,
        {
            match self.cells[k] {
                PatternByte::Exact(b) => {
                    proof {
                        assert forall|c: u8| c != b implies last_accepting(self@, c, k + 1)
                            == last_accepting(self@, c, k as int) by {}
                        assert(last_accepting(self@, b, k + 1) == k);
                    }
                    table.set(b as usize, m - 1 - k);
                },
                PatternByte::Any => {},
            }
            k += 1;
        }
        table
    }

    /// Searches by trying every offset in turn.
    pub fn find_exhaustive(&self, buffer: &[u8]) -> (hits: Vec<usize>)
        ensures
            hits@ == occurrences(self@, buffer@),
    {
        let n: usize = buffer.len();
        let mut hits: Vec<usize> = Vec::new();
        let mut p: usize = 0;
        while p < n
            invariant
                p <= n,
                n == buffer@.len(),
                hits@ == occurrences_below(self@, buffer@, p as nat),
            decreases n - p,
        {
            if self.matches_at(buffer, p) {
                hits.push(p);
            }
            p += 1;
        }
        hits
    }

    /// Searches with the skip table: after each alignment the pattern moves
    /// on by the shift of the byte under its last position.
    pub fn find_skipping(&self, buffer: &[u8]) -> (hits: Vec<usize>)
        ensures
            hits@ == occurrences(self@, buffer@),
    {
        let m: usize = self.len();
        let n: usize = buffer.len();
        let mut hits: Vec<usize> = Vec::new();
        if n < m {
            proof {
                lemma_no_occurrence_between(self@, buffer@, 0, n as nat);
            }
            return hits;
        }
        let table = self.shift_table();
        proof {
            lemma_shift_table_safe(self@, table@);
        }
        let last: usize = n - m;
        let mut p: usize = 0;
        while p <= last
            invariant
                m == self@.len(),
                m > 0,
                n == buffer@.len(),
                last == n - m,
                p <= n,
                safe_shifts(self@, table@),
                hits@ == occurrences_below(self@, buffer@, p as nat),
            decreases n - p,
        {
            let under: u8 = buffer[p + m - 1];
            let shift: usize = table[under as usize];
            if self.matches_at(buffer, p) {
                hits.push(p);
            }
            proof {
                assert(1 <= table@[under as int] <= m);
                assert forall|q: int| p + 1 <= q < p + shift implies !occurs_at(
                    self@,
                    buffer@,
                    q,
                ) by {
                    if occurs_at(self@, buffer@, q) {
                        let j = m - 1 - (q - p);
                        assert(self@[j].accepts(buffer@[q + j]));
                        assert(table@[under as int] <= m - 1 - j);
                    }
                }
                lemma_no_occurrence_between(self@, buffer@, (p + 1) as nat, (p + shift) as nat);
            }
            p += shift;
        }
        proof {
            lemma_no_occurrence_between(self@, buffer@, p as nat, n as nat);
        }
        hits
    }

    /// Every offset at which the pattern occurs in the buffer, ascending.
    /// Both search modes give the same list; `full_search` only chooses the
    /// exhaustive walk over the skipping one.
    pub fn find_all(&self, buffer: &[u8], full_search: bool) -> (hits: Vec<usize>)
        ensures
            hits@ == occurrences(self@, buffer@),
    {
        if full_search {
            self.find_exhaustive(buffer)
        } else {
            self.find_skipping(buffer)
        }
    }
}

} // verus!
