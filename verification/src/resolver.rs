//! The match resolver: filters confirmed matches and puts them into the
//! canonical order.

use crate::confidence::Confidence;
use crate::filter::{Filter, FilterView};
use crate::scanner::ScanMatch;
use crate::signature::{Registry, RuleView};
use vstd::prelude::*;

verus! {

/// The canonical order of matches: ascending offset, then the higher
/// confidence first, then the earlier declared rule first.
pub open spec fn before(a: ScanMatch, b: ScanMatch) -> bool {
    ||| a.offset < b.offset
    ||| a.offset == b.offset && a.confidence.rank() > b.confidence.rank()
    ||| a.offset == b.offset && a.confidence.rank() == b.confidence.rank() && a.rule < b.rule
}

/// Each match stands before all that follow it.
pub open spec fn ordered(s: Seq<ScanMatch>) -> bool {
    forall|i: int, j: int| 0 <= i < j < s.len() ==> before(s[i], s[j])
}

/// No two matches share both the rule and the offset.
pub open spec fn distinct_places(s: Seq<ScanMatch>) -> bool {
    forall|i: int, j: int|
        0 <= i < j < s.len() ==> !(s[i].rule == s[j].rule && s[i].offset == s[j].offset)
}

/// Every match names a rule of a registry with `count` rules.
pub open spec fn rules_known(s: Seq<ScanMatch>, count: nat) -> bool {
    forall|i: int| 0 <= i < s.len() ==> (#[trigger] s[i]).rule < count
}

/// Appending an element adds exactly that element.
pub proof fn lemma_push_contains<T>(s: Seq<T>, x: T, m: T)
    ensures
        s.push(x).contains(m) <==> s.contains(m) || m == x,
{
    if s.push(x).contains(m) {
        let k = choose|k: int| 0 <= k < s.push(x).len() && s.push(x)[k] == m;
        if k < s.len() {
            assert(s[k] == m);
        }
    }
    if s.contains(m) {
        let k = choose|k: int| 0 <= k < s.len() && s[k] == m;
        assert(s.push(x)[k] == m);
    }
    if m == x {
        assert(s.push(x)[s.len() as int] == m);
    }
}

/// Extending a range by one index adds exactly the element at that index.
pub proof fn lemma_subrange_contains<T>(s: Seq<T>, lo: int, hi: int, m: T)
    requires
        0 <= lo <= hi < s.len(),
    ensures
        s.subrange(lo, hi + 1).contains(m) <==> s.subrange(lo, hi).contains(m) || m == s[hi],
{
    assert(s.subrange(lo, hi + 1) =~= s.subrange(lo, hi).push(s[hi]));
    lemma_push_contains(s.subrange(lo, hi), s[hi], m);
}

/// Whether `a` stands before `b` in the canonical order.
pub fn comes_before(a: &ScanMatch, b: &ScanMatch) -> (r: bool)
    ensures
        r == before(*a, *b),
{
    if a.offset != b.offset {
        a.offset < b.offset
    } else {
        let ra: u8 = a.confidence.level();
        let rb: u8 = b.confidence.level();
        if ra != rb {
            ra > rb
        } else {
            a.rule < b.rule
        }
    }
}

/// Merges two ordered lists into one.
fn merge(a: &Vec<ScanMatch>, b: &Vec<ScanMatch>) -> (out: Vec<ScanMatch>)
    requires
        ordered(a@),
        ordered(b@),
        a@.len() + b@.len() <= usize::MAX,
        forall|i: int, j: int|
            0 <= i < a@.len() && 0 <= j < b@.len() ==> before(a@[i], b@[j]) || before(b@[j], a@[i]),
    ensures
        ordered(out@),
        out@.len() == a@.len() + b@.len(),
        forall|m: ScanMatch| out@.contains(m) <==> a@.contains(m) || b@.contains(m),
{
    let mut out: Vec<ScanMatch> = Vec::new();
    let mut i: usize = 0;
    let mut j: usize = 0;
    while i < a.len() || j < b.len()
        invariant
            i <= a@.len(),
            j <= b@.len(),
            a@.len() + b@.len() <= usize::MAX,
            out@.len() == i + j,
            ordered(a@),
            ordered(b@),
            ordered(out@),
            forall|x: int, y: int|
                0 <= x < a@.len() && 0 <= y < b@.len() ==> before(a@[x], b@[y]) || before(
                    b@[y],
                    a@[x],
                ),
            forall|k: int, x: int| 0 <= k < out@.len() && i <= x < a@.len() ==> before(out@[k], a@[x]),
            forall|k: int, y: int| 0 <= k < out@.len() && j <= y < b@.len() ==> before(out@[k], b@[y]),
            forall|m: ScanMatch|
                out@.contains(m) <==> a@.subrange(0, i as int).contains(m) || b@.subrange(
                    0,
                    j as int,
                ).contains(m),
        decreases a@.len() - i + b@.len() - j,
    {
        let take_left: bool = if i >= a.len() {
            false
        } else if j >= b.len() {
            true
        } else {
            comes_before(&a[i], &b[j])
        };
        let ghost earlier = out@;
        if take_left {
            let x: ScanMatch = a[i];
            out.push(x);
            proof {
                assert forall|m: ScanMatch|
                    out@.contains(m) <==> a@.subrange(0, i + 1).contains(m) || b@.subrange(
                        0,
                        j as int,
                    ).contains(m) by {
                    assert(out@ == earlier.push(x));
                    lemma_push_contains(earlier, x, m);
                    lemma_subrange_contains(a@, 0, i as int, m);
                }
                assert forall|k: int, y: int|
                    0 <= k < out@.len() && j <= y < b@.len() implies before(out@[k], b@[y]) by {
                    if k == earlier.len() {
                        assert(before(x, b@[j as int]));
                        if y > j {
                            assert(before(b@[j as int], b@[y]));
                        }
                    } else {
                        assert(out@[k] == earlier[k]);
                    }
                }
                assert forall|k: int, z: int|
                    0 <= k < out@.len() && i + 1 <= z < a@.len() implies before(out@[k], a@[z]) by {
                    if k == earlier.len() {
                        assert(before(a@[i as int], a@[z]));
                    } else {
                        assert(out@[k] == earlier[k]);
                    }
                }
            }
            i += 1;
        } else {
            let y: ScanMatch = b[j];
            out.push(y);
            proof {
                assert forall|m: ScanMatch|
                    out@.contains(m) <==> a@.subrange(0, i as int).contains(m) || b@.subrange(
                        0,
                        j + 1,
                    ).contains(m) by {
                    assert(out@ == earlier.push(y));
                    lemma_push_contains(earlier, y, m);
                    lemma_subrange_contains(b@, 0, j as int, m);
                }
                assert forall|k: int, z: int|
                    0 <= k < out@.len() && i <= z < a@.len() implies before(out@[k], a@[z]) by {
                    if k == earlier.len() {
                        assert(before(y, a@[i as int]));
                        if z > i {
                            assert(before(a@[i as int], a@[z]));
                        }
                    } else {
                        assert(out@[k] == earlier[k]);
                    }
                }
                assert forall|k: int, z: int|
                    0 <= k < out@.len() && j + 1 <= z < b@.len() implies before(out@[k], b@[z]) by {
                    if k == earlier.len() {
                        assert(before(b@[j as int], b@[z]));
                    } else {
                        assert(out@[k] == earlier[k]);
                    }
                }
            }
            j += 1;
        }
    }
    proof {
        assert(a@.subrange(0, i as int) =~= a@);
        assert(b@.subrange(0, j as int) =~= b@);
    }
    out
}

/// Sorts the matches at indices `lo..hi` by merging sorted halves.
fn sort_range(v: &Vec<ScanMatch>, lo: usize, hi: usize) -> (out: Vec<ScanMatch>)
    requires
        lo <= hi <= v@.len(),
        distinct_places(v@),
    ensures
        ordered(out@),
        out@.len() == hi - lo,
        forall|m: ScanMatch| out@.contains(m) <==> v@.subrange(lo as int, hi as int).contains(m),
    decreases hi - lo,
{
    if hi - lo <= 1 {
        let mut out: Vec<ScanMatch> = Vec::new();
        if hi - lo == 1 {
            out.push(v[lo]);
        }
        assert(out@ =~= v@.subrange(lo as int, hi as int));
        out
    } else {
        let mid: usize = lo + (hi - lo) / 2;
        let left = sort_range(v, lo, mid);
        let right = sort_range(v, mid, hi);
        proof {
            let l = v@.subrange(lo as int, mid as int);
            let r = v@.subrange(mid as int, hi as int);
            assert forall|i: int, j: int|
                0 <= i < left@.len() && 0 <= j < right@.len() implies before(left@[i], right@[j])
                || before(right@[j], left@[i]) by {
                assert(left@.contains(left@[i]));
                assert(right@.contains(right@[j]));
                let x = choose|x: int| 0 <= x < l.len() && l[x] == left@[i];
                let y = choose|y: int| 0 <= y < r.len() && r[y] == right@[j];
                assert(v@[lo + x] == left@[i]);
                assert(v@[mid + y] == right@[j]);
            }
        }
        let out = merge(&left, &right);
        proof {
            let whole = v@.subrange(lo as int, hi as int);
            let l = v@.subrange(lo as int, mid as int);
            let r = v@.subrange(mid as int, hi as int);
            assert(whole =~= l + r);
            assert forall|m: ScanMatch| out@.contains(m) <==> whole.contains(m) by {
                if l.contains(m) {
                    let x = choose|x: int| 0 <= x < l.len() && l[x] == m;
                    assert(whole[x] == m);
                }
                if r.contains(m) {
                    let y = choose|y: int| 0 <= y < r.len() && r[y] == m;
                    assert(whole[l.len() + y] == m);
                }
                if whole.contains(m) {
                    let z = choose|z: int| 0 <= z < whole.len() && whole[z] == m;
                    if z < l.len() {
                        assert(l[z] == m);
                    } else {
                        assert(r[z - l.len()] == m);
                    }
                }
            }
        }
        out
    }
}

/// Puts matches with distinct places into the canonical order.
pub fn sort_matches(v: &Vec<ScanMatch>) -> (out: Vec<ScanMatch>)
    requires
        distinct_places(v@),
    ensures
        ordered(out@),
        out@.len() == v@.len(),
        forall|m: ScanMatch| out@.contains(m) <==> v@.contains(m),
{
    let out = sort_range(v, 0, v.len());
    assert(v@.subrange(0, v@.len() as int) =~= v@);
    out
}

/// One finalized match of an analysis.
#[derive(Clone, Debug, PartialEq, Eq)]
pub struct AnalysisResult {
    /// Position of the signature in the registry's declaration order.
    pub rule: usize,
    pub id: String,
    pub name: String,
    pub description: String,
    pub confidence: Confidence,
    pub offset: usize,
    /// Payload size in bytes; 0 where the validator could not bound it.
    pub size: usize,
}

/// The mathematical content of an [`AnalysisResult`].
pub struct ResultView {
    pub rule: usize,
    pub id: Seq<char>,
    pub name: Seq<char>,
    pub description: Seq<char>,
    pub confidence: Confidence,
    pub offset: usize,
    pub size: usize,
}

impl View for AnalysisResult {
    type V = ResultView;

    open spec fn view(&self) -> ResultView {
        ResultView {
            rule: self.rule,
            id: self.id@,
            name: self.name@,
            description: self.description@,
            confidence: self.confidence,
            offset: self.offset,
            size: self.size,
        }
    }
}

/// The entry that reports the match `m` of a rule of `registry`.
pub open spec fn entry_of(registry: Seq<RuleView>, m: ScanMatch) -> ResultView {
    let rule = registry[m.rule as int];
    ResultView {
        rule: m.rule,
        id: rule.id,
        name: rule.name,
        description: rule.description,
        confidence: m.confidence,
        offset: m.offset,
        size: match m.size {
            Some(n) => n,
            None => 0,
        },
    }
}

/// The canonical order, read off two entries.
pub open spec fn entry_before(a: ResultView, b: ResultView) -> bool {
    ||| a.offset < b.offset
    ||| a.offset == b.offset && a.confidence.rank() > b.confidence.rank()
    ||| a.offset == b.offset && a.confidence.rank() == b.confidence.rank() && a.rule < b.rule
}

/// Each entry stands before all that follow it.
pub open spec fn entries_ordered(s: Seq<ResultView>) -> bool {
    forall|i: int, j: int| 0 <= i < j < s.len() ==> entry_before(s[i], s[j])
}

/// No two entries share both the offset and the signature identifier.
pub open spec fn entries_distinct(s: Seq<ResultView>) -> bool {
    forall|i: int, j: int| 0 <= i < j < s.len() ==> !(s[i].offset == s[j].offset && s[i].id == s[j].id)
}

/// `results` is the resolution of the raw matches: it is in canonical order
/// and holds exactly the entries of the raw matches whose rule the filter
/// admits.
pub open spec fn is_resolution(
    results: Seq<ResultView>,
    registry: Seq<RuleView>,
    filter: FilterView,
    raw: Seq<ScanMatch>,
) -> bool {
    &&& entries_ordered(results)
    &&& forall|e: ResultView|
        results.contains(e) <==> exists|m: ScanMatch|
            #[trigger] raw.contains(m) && filter.admits(registry[m.rule as int]) && e == entry_of(
                registry,
                m,
            )
}

/// Neighbouring entries ascend by offset, and at equal offsets the
/// confidence does not rise.
pub proof fn lemma_neighbours_ordered(results: Seq<ResultView>, i: int)
    requires
        entries_ordered(results),
        0 <= i,
        i + 1 < results.len(),
    ensures
        results[i].offset <= results[i + 1].offset,
        results[i].offset == results[i + 1].offset ==> results[i].confidence.rank() >= results[i
            + 1].confidence.rank(),
{
    assert(entry_before(results[i], results[i + 1]));
}

/// Two ordered sequences with the same members are the same sequence.
pub proof fn lemma_ordered_members_determine(a: Seq<ResultView>, b: Seq<ResultView>)
    requires
        entries_ordered(a),
        entries_ordered(b),
        forall|e: ResultView| a.contains(e) <==> b.contains(e),
    ensures
        a == b,
    decreases a.len(),
{
    if a.len() == 0 {
        if b.len() > 0 {
            assert(b.contains(b[0]));
        }
        assert(a =~= b);
    } else {
        assert(a.contains(a[0]));
        let k = choose|k: int| 0 <= k < b.len() && b[k] == a[0];
        assert(b.contains(b[0]));
        let l = choose|l: int| 0 <= l < a.len() && a[l] == b[0];
        if k > 0 {
            assert(entry_before(b[0], b[k]));
            if l > 0 {
                assert(entry_before(a[0], a[l]));
            }
        }
        assert(a[0] == b[0]);
        let ta = a.subrange(1, a.len() as int);
        let tb = b.subrange(1, b.len() as int);
        assert forall|e: ResultView| ta.contains(e) <==> tb.contains(e) by {
            if ta.contains(e) {
                let x = choose|x: int| 0 <= x < ta.len() && ta[x] == e;
                assert(a[x + 1] == e);
                assert(entry_before(a[0], a[x + 1]));
                assert(a.contains(e));
                let y = choose|y: int| 0 <= y < b.len() && b[y] == e;
                assert(tb[y - 1] == e);
            }
            if tb.contains(e) {
                let y = choose|y: int| 0 <= y < tb.len() && tb[y] == e;
                assert(b[y + 1] == e);
                assert(entry_before(b[0], b[y + 1]));
                assert(b.contains(e));
                let x = choose|x: int| 0 <= x < a.len() && a[x] == e;
                assert(ta[x - 1] == e);
            }
        }
        lemma_ordered_members_determine(ta, tb);
        assert(a =~= seq![a[0]] + ta);
        assert(b =~= seq![b[0]] + tb);
    }
}

/// The resolution of given raw matches under a given registry and filter is
/// unique: any two sequences that qualify are equal, entry for entry.
pub proof fn lemma_resolution_unique(
    a: Seq<ResultView>,
    b: Seq<ResultView>,
    registry: Seq<RuleView>,
    filter: FilterView,
    raw: Seq<ScanMatch>,
)
    requires
        is_resolution(a, registry, filter, raw),
        is_resolution(b, registry, filter, raw),
    ensures
        a == b,
{
    lemma_ordered_members_determine(a, b);
}

/// A match whose rule the filter does not admit is absent from the
/// resolution: one that the suppressing list names, and, where a restricting
/// list is set, one that it does not name. Suppression holds whatever the
/// restricting list says.
pub proof fn lemma_filter_respected(
    results: Seq<ResultView>,
    registry: Seq<RuleView>,
    filter: FilterView,
    raw: Seq<ScanMatch>,
    m: ScanMatch,
)
    requires
        is_resolution(results, registry, filter, raw),
    ensures
        filter.suppress is Some && crate::filter::lists(
            filter.suppress.unwrap(),
            registry[m.rule as int],
        ) ==> !results.contains(entry_of(registry, m)),
        filter.restrict_to is Some && !crate::filter::lists(
            filter.restrict_to.unwrap(),
            registry[m.rule as int],
        ) ==> !results.contains(entry_of(registry, m)),
{
    if !filter.admits(registry[m.rule as int]) && results.contains(entry_of(registry, m)) {
        let w = choose|w: ScanMatch|
            #[trigger] raw.contains(w) && filter.admits(registry[w.rule as int]) && entry_of(
                registry,
                m,
            ) == entry_of(registry, w);
        assert(w.rule == m.rule);
    }
}

/// Every raw match whose rule the filter admits is reported, and reported
/// once: no entry of a resolution occurs at two indices.
pub proof fn lemma_nothing_lost(
    results: Seq<ResultView>,
    registry: Seq<RuleView>,
    filter: FilterView,
    raw: Seq<ScanMatch>,
    m: ScanMatch,
)
    requires
        is_resolution(results, registry, filter, raw),
        raw.contains(m),
        filter.admits(registry[m.rule as int]),
    ensures
        results.contains(entry_of(registry, m)),
        forall|i: int, j: int|
            0 <= i < results.len() && 0 <= j < results.len() && results[i] == entry_of(registry, m)
                && results[j] == entry_of(registry, m) ==> i == j,
{
    assert forall|i: int, j: int|
        0 <= i < results.len() && 0 <= j < results.len() && results[i] == entry_of(registry, m)
            && results[j] == entry_of(registry, m) implies i == j by {
        if i < j {
            assert(entry_before(results[i], results[j]));
        }
        if j < i {
            assert(entry_before(results[j], results[i]));
        }
    }
}

/// The ordered sequence of finalized matches that a scan returns.
#[derive(Debug)]
pub struct AnalysisResults {
    entries: Vec<AnalysisResult>,
}

impl View for AnalysisResults {
    type V = Seq<ResultView>;

    closed spec fn view(&self) -> Seq<ResultView> {
        self.entries@.map_values(|e: AnalysisResult| e@)
    }
}

impl AnalysisResults {
    #[verifier::type_invariant]
    spec fn well_formed(self) -> bool {
        entries_ordered(self@) && entries_distinct(self@)
    }

    /// The results of an analysis that found nothing.
    pub fn empty() -> (r: AnalysisResults)
        ensures
            r@ == Seq::<ResultView>::empty(),
    {
        let r = AnalysisResults { entries: Vec::new() };
        assert(r@ =~= Seq::<ResultView>::empty());
        r
    }

    /// Number of entries.
    pub fn len(&self) -> (n: usize)
        ensures
            n == self@.len(),
    {
        self.entries.len()
    }

    /// The entry at position `index`.
    pub fn get(&self, index: usize) -> (e: &AnalysisResult)
        requires
            index < self@.len(),
        ensures
            e@ == self@[index as int],
    {
        &self.entries[index]
    }

    /// All entries, in order.
    pub fn entries(&self) -> (v: &Vec<AnalysisResult>)
        ensures
            v@.map_values(|e: AnalysisResult| e@) == self@,
    {
        &self.entries
    }

    /// Every value of this type is in canonical order and holds no two
    /// entries with the same offset and identifier.
    pub fn invariants(&self)
        ensures
            entries_ordered(self@),
            entries_distinct(self@),
    {
        proof {
            use_type_invariant(self);
        }
    }
}

/// Turns raw matches into the ordered results: drops the matches whose rule
/// the filter does not admit, sorts the rest into the canonical order and
/// attaches each rule's identifier, name and description.
pub fn resolve(registry: &Registry, filter: &Filter, raw: &Vec<ScanMatch>) -> (r: AnalysisResults)
    requires
        rules_known(raw@, registry@.len()),
        distinct_places(raw@),
    ensures
        is_resolution(r@, registry@, filter@, raw@),
{
    let mut kept: Vec<ScanMatch> = Vec::new();
    let ghost mut origin: Seq<int> = Seq::empty();
    let mut i: usize = 0;
    while i < raw.len()
        invariant
            i <= raw@.len(),
            rules_known(raw@, registry@.len()),
            origin.len() == kept@.len(),
            forall|k: int| 0 <= k < kept@.len() ==> 0 <= #[trigger] origin[k] < i && kept@[k] == raw@[origin[k]],
            forall|k: int, l: int| 0 <= k < l < kept@.len() ==> origin[k] < origin[l],
            forall|x: int|
                0 <= x < i && filter@.admits(registry@[(#[trigger] raw@[x]).rule as int])
                    ==> kept@.contains(raw@[x]),
            forall|k: int| 0 <= k < kept@.len() ==> filter@.admits(registry@[(#[trigger] kept@[k]).rule as int]),
        decreases raw@.len() - i,
    {
        let m: ScanMatch = raw[i];
        if filter.admits(registry.rule(m.rule)) {
            let ghost earlier = kept@;
            kept.push(m);
            proof {
                origin = origin.push(i as int);
                assert forall|x: int|
                    0 <= x < i + 1 && filter@.admits(
                        registry@[(#[trigger] raw@[x]).rule as int],
                    ) implies kept@.contains(raw@[x]) by {
                    lemma_push_contains(earlier, m, raw@[x]);
                }
            }
        }
        i += 1;
    }
    assert(distinct_places(kept@)) by {
        assert forall|k: int, l: int| 0 <= k < l < kept@.len() implies !(kept@[k].rule
            == kept@[l].rule && kept@[k].offset == kept@[l].offset) by {
            assert(origin[k] < origin[l]);
        }
    }
    let sorted = sort_matches(&kept);
    assert forall|m: ScanMatch| sorted@.contains(m) implies m.rule < registry@.len() by {
        let a = choose|a: int| 0 <= a < kept@.len() && kept@[a] == m;
        assert(raw@[origin[a]] == m);
    }
    let mut entries: Vec<AnalysisResult> = Vec::new();
    let mut k: usize = 0;
    while k < sorted.len()
        invariant
            k <= sorted@.len(),
            entries@.len() == k,
            forall|m: ScanMatch| sorted@.contains(m) ==> m.rule < registry@.len(),
            forall|x: int| 0 <= x < k ==> (#[trigger] entries@[x])@ == entry_of(registry@, sorted@[x]),
        decreases sorted@.len() - k,
    {
        let m: ScanMatch = sorted[k];
        assert(sorted@.contains(m));
        let rule = registry.rule(m.rule);
        let size: usize = match m.size {
            Some(n) => n,
            None => 0,
        };
        entries.push(
            AnalysisResult {
                rule: m.rule,
                id: rule.id.clone(),
                name: rule.name.clone(),
                description: rule.description.clone(),
                confidence: m.confidence,
                offset: m.offset,
                size,
            },
        );
        k += 1;
    }
    let ghost results = entries@.map_values(|e: AnalysisResult| e@);
    registry.identifiers_distinct();
    proof {
        assert forall|x: int, y: int| 0 <= x < y < results.len() implies entry_before(
            results[x],
            results[y],
        ) by {
            assert(before(sorted@[x], sorted@[y]));
        }
        assert forall|x: int, y: int| 0 <= x < y < results.len() implies !(results[x].offset
            == results[y].offset && results[x].id == results[y].id) by {
            assert(before(sorted@[x], sorted@[y]));
            assert(sorted@.contains(sorted@[x]));
            assert(sorted@.contains(sorted@[y]));
            let a = choose|a: int| 0 <= a < kept@.len() && kept@[a] == sorted@[x];
            let b = choose|b: int| 0 <= b < kept@.len() && kept@[b] == sorted@[y];
            if results[x].offset == results[y].offset && results[x].id == results[y].id {
                let rx = sorted@[x].rule as int;
                let ry = sorted@[y].rule as int;
                if rx < ry {
                    assert(registry@[rx].id != registry@[ry].id);
                }
                if ry < rx {
                    assert(registry@[ry].id != registry@[rx].id);
                }
                if a < b {
                    assert(!(kept@[a].rule == kept@[b].rule && kept@[a].offset == kept@[b].offset));
                }
                if b < a {
                    assert(!(kept@[b].rule == kept@[a].rule && kept@[b].offset == kept@[a].offset));
                }
            }
        }
        assert forall|e: ResultView|
            results.contains(e) <==> exists|m: ScanMatch|
                #[trigger] raw@.contains(m) && filter@.admits(registry@[m.rule as int]) && e
                    == entry_of(registry@, m) by {
            if results.contains(e) {
                let x = choose|x: int| 0 <= x < results.len() && results[x] == e;
                let m = sorted@[x];
                assert(sorted@.contains(m));
                let a = choose|a: int| 0 <= a < kept@.len() && kept@[a] == m;
                assert(raw@[origin[a]] == m);
                assert(raw@.contains(m));
            }
            if exists|m: ScanMatch|
                #[trigger] raw@.contains(m) && filter@.admits(registry@[m.rule as int]) && e
                    == entry_of(registry@, m) {
                let m = choose|m: ScanMatch|
                    #[trigger] raw@.contains(m) && filter@.admits(registry@[m.rule as int]) && e
                        == entry_of(registry@, m);
                let x = choose|x: int| 0 <= x < raw@.len() && raw@[x] == m;
                assert(kept@.contains(raw@[x]));
                assert(sorted@.contains(m));
                let y = choose|y: int| 0 <= y < sorted@.len() && sorted@[y] == m;
                assert(results[y] == e);
            }
        }
    }
    AnalysisResults { entries }
}

} // verus!
