//! The pattern scanner: raw hits of every registered pattern, and their
//! confirmation by structural validators.

use crate::confidence::Confidence;
use crate::filter::{lists, Filter, FilterView};
use crate::pattern::{lemma_occurrences_below, occurrences, occurs_at, PatternByte};
use crate::resolver::{
    entry_of, is_resolution, lemma_filter_respected, lemma_nothing_lost, lemma_resolution_unique,
    resolve, AnalysisResults, ResultView,
};
use crate::signature::{Registry, RuleView, SignatureRule};
use vstd::prelude::*;

verus! {

/// A place where the pattern of a rule occurs: the rule's position in the
/// registry and the offset in the buffer.
#[derive(Clone, Copy, Debug, PartialEq, Eq)]
pub struct Hit {
    pub rule: usize,
    pub offset: usize,
}

/// What a structural validator says of a hit.
#[derive(Clone, Copy, Debug, PartialEq, Eq)]
pub enum Verdict {
    /// The hit is a false positive.
    Reject,
    /// The hit is genuine, with this confidence and, where the validator
    /// could bound it, this payload size.
    Accept { confidence: Confidence, size: Option<usize> },
}

/// A confirmed hit.
#[derive(Clone, Copy, Debug, PartialEq, Eq)]
pub struct ScanMatch {
    pub rule: usize,
    pub offset: usize,
    pub confidence: Confidence,
    pub size: Option<usize>,
}

/// The structural validators that rules refer to by name.
///
/// An implementation inspects the bytes around a hit and either rejects it
/// or accepts it with a confidence and, where it can bound it, the payload
/// size. A hit that it cannot judge is rejected.
pub trait Validators {
    /// Judges the hit of a rule that names `validator`, at `offset`.
    fn validate(&self, validator: &String, buffer: &[u8], offset: usize) -> (verdict: Verdict)
        requires
            offset < buffer@.len(),
    ;
}

/// A signal that the caller raises to stop work that is under way.
pub trait StopSignal {
    /// Whether the signal is raised.
    fn raised(&self) -> (stop: bool);
}

/// The signal that is never raised.
#[derive(Clone, Copy, Debug)]
pub struct NeverStop;

impl StopSignal for NeverStop {
    fn raised(&self) -> (stop: bool)
        ensures
            !stop,
    {
        false
    }
}

/// The empty set of validators: whatever is asked of it is rejected.
#[derive(Clone, Copy, Debug)]
pub struct NoValidators;

impl Validators for NoValidators {
    fn validate(&self, validator: &String, buffer: &[u8], offset: usize) -> (verdict: Verdict)
        ensures
            verdict == Verdict::Reject,
    {
        Verdict::Reject
    }
}

/// The hits of one rule: one for each occurrence of its pattern, ascending.
pub open spec fn rule_hits(rule: usize, pattern: Seq<PatternByte>, buffer: Seq<u8>) -> Seq<Hit> {
    occurrences(pattern, buffer).map_values(|o: usize| Hit { rule, offset: o })
}

/// The hits of the first `count` rules that the filter admits, rule by rule
/// in declaration order.
pub open spec fn hits_below(
    registry: Seq<RuleView>,
    filter: FilterView,
    buffer: Seq<u8>,
    count: nat,
) -> Seq<Hit>
    decreases count,
{
    if count == 0 {
        Seq::empty()
    } else {
        let earlier = hits_below(registry, filter, buffer, (count - 1) as nat);
        let rule = registry[count - 1];
        if filter.admits(rule) {
            earlier + rule_hits((count - 1) as usize, rule.pattern, buffer)
        } else {
            earlier
        }
    }
}

/// Every hit of every rule that the filter admits.
pub open spec fn all_hits(registry: Seq<RuleView>, filter: FilterView, buffer: Seq<u8>) -> Seq<Hit> {
    hits_below(registry, filter, buffer, registry.len())
}

/// What becomes of a hit: without a validator it is confirmed with the
/// rule's own confidence and no size; with one, the verdict decides.
pub open spec fn confirm(rule: RuleView, hit: Hit, verdict: Verdict) -> Option<ScanMatch> {
    if rule.validator is None {
        Some(ScanMatch { rule: hit.rule, offset: hit.offset, confidence: rule.confidence, size: None })
    } else {
        match verdict {
            Verdict::Reject => None,
            Verdict::Accept { confidence, size } => Some(
                ScanMatch { rule: hit.rule, offset: hit.offset, confidence, size },
            ),
        }
    }
}

/// The confirmed matches of a list of hits, given one verdict for each hit,
/// in the order of the hits.
pub open spec fn confirmed(registry: Seq<RuleView>, hits: Seq<Hit>, verdicts: Seq<Verdict>) -> Seq<
    ScanMatch,
>
    decreases hits.len(),
{
    if hits.len() == 0 {
        Seq::empty()
    } else {
        let earlier = confirmed(registry, hits.drop_last(), verdicts.drop_last());
        match confirm(registry[hits.last().rule as int], hits.last(), verdicts.last()) {
            Some(m) => earlier.push(m),
            None => earlier,
        }
    }
}

/// `results` is what a scan of `buffer` returns when the validators give
/// `verdicts`, one for each hit: the resolution of the confirmed hits.
pub open spec fn is_scan_result(
    results: Seq<ResultView>,
    registry: Seq<RuleView>,
    filter: FilterView,
    buffer: Seq<u8>,
    verdicts: Seq<Verdict>,
) -> bool {
    &&& verdicts.len() == all_hits(registry, filter, buffer).len()
    &&& is_resolution(
        results,
        registry,
        filter,
        confirmed(registry, all_hits(registry, filter, buffer), verdicts),
    )
}

/// `results` is what a scan returns that was stopped after `verdicts` were
/// given: the resolution of the first hits, one for each verdict, as far as
/// they are confirmed.
pub open spec fn is_partial_scan_result(
    results: Seq<ResultView>,
    registry: Seq<RuleView>,
    filter: FilterView,
    buffer: Seq<u8>,
    verdicts: Seq<Verdict>,
) -> bool {
    &&& verdicts.len() <= all_hits(registry, filter, buffer).len()
    &&& is_resolution(
        results,
        registry,
        filter,
        confirmed(
            registry,
            all_hits(registry, filter, buffer).subrange(0, verdicts.len() as int),
            verdicts,
        ),
    )
}

/// Hits ascend by rule, and within a rule by offset.
pub open spec fn hit_before(a: Hit, b: Hit) -> bool {
    a.rule < b.rule || (a.rule == b.rule && a.offset < b.offset)
}

/// Each hit stands before all that follow it.
pub open spec fn hits_ascending(s: Seq<Hit>) -> bool {
    forall|i: int, j: int| 0 <= i < j < s.len() ==> hit_before(s[i], s[j])
}

/// The hits of the first `count` rules ascend, each names an admitted rule
/// below `count` and an offset at which that rule's pattern occurs, and no
/// occurrence of an admitted rule's non-empty pattern is missing.
pub proof fn lemma_hits_below(
    registry: Seq<RuleView>,
    filter: FilterView,
    buffer: Seq<u8>,
    count: nat,
)
    requires
        count <= registry.len(),
        count <= usize::MAX,
        buffer.len() <= usize::MAX,
    ensures
        hits_ascending(hits_below(registry, filter, buffer, count)),
        forall|i: int|
            0 <= i < hits_below(registry, filter, buffer, count).len() ==> ({
                let h = #[trigger] hits_below(registry, filter, buffer, count)[i];
                &&& h.rule < count
                &&& filter.admits(registry[h.rule as int])
                &&& occurs_at(registry[h.rule as int].pattern, buffer, h.offset as int)
            }),
        forall|h: Hit|
            h.rule < count && filter.admits(registry[h.rule as int]) && registry[h.rule as int].pattern.len()
                > 0 && occurs_at(registry[h.rule as int].pattern, buffer, h.offset as int)
                ==> hits_below(registry, filter, buffer, count).contains(h),
    decreases count,
{
    if count > 0 {
        let earlier = hits_below(registry, filter, buffer, (count - 1) as nat);
        let all = hits_below(registry, filter, buffer, count);
        let rule = registry[count - 1];
        let own = rule_hits((count - 1) as usize, rule.pattern, buffer);
        lemma_hits_below(registry, filter, buffer, (count - 1) as nat);
        lemma_occurrences_below(rule.pattern, buffer, buffer.len());
        assert forall|h: Hit|
            h.rule < count && filter.admits(registry[h.rule as int]) && registry[h.rule as int].pattern.len()
                > 0 && occurs_at(registry[h.rule as int].pattern, buffer, h.offset as int)
            implies all.contains(h) by {
            if h.rule < count - 1 {
                assert(earlier.contains(h));
                let k = choose|k: int| 0 <= k < earlier.len() && earlier[k] == h;
                assert(all[k] == h);
            } else {
                assert(h.offset < buffer.len());
                let k = choose|k: int|
                    0 <= k < occurrences(rule.pattern, buffer).len() && occurrences(
                        rule.pattern,
                        buffer,
                    )[k] == h.offset;
                assert(own[k] == h);
                assert(all[earlier.len() + k] == h);
            }
        }
        if filter.admits(rule) {
            assert forall|i: int, j: int| 0 <= i < j < all.len() implies hit_before(all[i], all[j]) by {
                if j < earlier.len() {
                    assert(hit_before(earlier[i], earlier[j]));
                } else if i < earlier.len() {
                    assert(earlier[i].rule < count - 1);
                    assert(all[j] == own[j - earlier.len()]);
                } else {
                    assert(all[i] == own[i - earlier.len()]);
                    assert(all[j] == own[j - earlier.len()]);
                }
            }
            assert forall|i: int| 0 <= i < all.len() implies {
                let h = #[trigger] all[i];
                &&& h.rule < count
                &&& filter.admits(registry[h.rule as int])
                &&& occurs_at(registry[h.rule as int].pattern, buffer, h.offset as int)
            } by {
                if i < earlier.len() {
                    assert(all[i] == earlier[i]);
                } else {
                    assert(all[i] == own[i - earlier.len()]);
                }
            }
        }
    }
}

/// The confirmed matches keep the order of the hits they come from: each has
/// the place of a hit that was confirmed as it, places ascend, and every hit
/// that is confirmed is among them.
pub proof fn lemma_confirmed(registry: Seq<RuleView>, hits: Seq<Hit>, verdicts: Seq<Verdict>)
    requires
        hits_ascending(hits),
        verdicts.len() == hits.len(),
    ensures
        forall|k: int|
            0 <= k < confirmed(registry, hits, verdicts).len() ==> exists|i: int|
                0 <= i < hits.len() && confirm(registry[hits[i].rule as int], hits[i], verdicts[i])
                    == Some(#[trigger] confirmed(registry, hits, verdicts)[k]),
        forall|k: int, l: int|
            0 <= k < l < confirmed(registry, hits, verdicts).len() ==> hit_before(
                Hit {
                    rule: confirmed(registry, hits, verdicts)[k].rule,
                    offset: confirmed(registry, hits, verdicts)[k].offset,
                },
                Hit {
                    rule: confirmed(registry, hits, verdicts)[l].rule,
                    offset: confirmed(registry, hits, verdicts)[l].offset,
                },
            ),
        forall|i: int, m: ScanMatch|
            0 <= i < hits.len() && confirm(registry[hits[i].rule as int], hits[i], verdicts[i])
                == Some(m) ==> confirmed(registry, hits, verdicts).contains(m),
    decreases hits.len(),
{
    if hits.len() > 0 {
        let all = confirmed(registry, hits, verdicts);
        let fewer = hits.drop_last();
        let earlier = confirmed(registry, fewer, verdicts.drop_last());
        let last = hits.len() - 1;
        lemma_confirmed(registry, fewer, verdicts.drop_last());
        assert forall|k: int| 0 <= k < all.len() implies exists|i: int|
            0 <= i < hits.len() && confirm(registry[hits[i].rule as int], hits[i], verdicts[i])
                == Some(#[trigger] all[k]) by {
            if k < earlier.len() {
                let i = choose|i: int|
                    0 <= i < fewer.len() && confirm(
                        registry[fewer[i].rule as int],
                        fewer[i],
                        verdicts.drop_last()[i],
                    ) == Some(earlier[k]);
                assert(fewer[i] == hits[i]);
                assert(confirm(registry[hits[i].rule as int], hits[i], verdicts[i]) == Some(all[k]));
            } else {
                assert(confirm(registry[hits[last].rule as int], hits[last], verdicts[last])
                    == Some(all[k]));
            }
        }
        assert forall|k: int, l: int| 0 <= k < l < all.len() implies hit_before(
            Hit { rule: all[k].rule, offset: all[k].offset },
            Hit { rule: all[l].rule, offset: all[l].offset },
        ) by {
            if l >= earlier.len() {
                let i = choose|i: int|
                    0 <= i < fewer.len() && confirm(
                        registry[fewer[i].rule as int],
                        fewer[i],
                        verdicts.drop_last()[i],
                    ) == Some(earlier[k]);
                assert(fewer[i] == hits[i]);
                assert(hit_before(hits[i], hits[last]));
            }
        }
        assert forall|i: int, m: ScanMatch|
            0 <= i < hits.len() && confirm(registry[hits[i].rule as int], hits[i], verdicts[i])
                == Some(m) implies all.contains(m) by {
            if i < last {
                assert(fewer[i] == hits[i]);
                assert(verdicts.drop_last()[i] == verdicts[i]);
                assert(earlier.contains(m));
                let k = choose|k: int| 0 <= k < earlier.len() && earlier[k] == m;
                assert(all[k] == m);
            } else {
                assert(all[all.len() - 1] == m);
            }
        }
    }
}

/// A scan is a function of the buffer, the registry, the filter and the
/// verdicts: two results of the same scan under the same verdicts are equal,
/// entry for entry.
pub proof fn lemma_scan_deterministic(
    a: Seq<ResultView>,
    b: Seq<ResultView>,
    registry: Seq<RuleView>,
    filter: FilterView,
    buffer: Seq<u8>,
    verdicts: Seq<Verdict>,
)
    requires
        is_scan_result(a, registry, filter, buffer, verdicts),
        is_scan_result(b, registry, filter, buffer, verdicts),
    ensures
        a == b,
{
    lemma_resolution_unique(
        a,
        b,
        registry,
        filter,
        confirmed(registry, all_hits(registry, filter, buffer), verdicts),
    );
}

/// A scan reports no match of a signature that the suppressing list names,
/// and, where a restricting list is set, none of a signature that it does
/// not name, whatever the verdicts.
pub proof fn lemma_scan_respects_filter(
    results: Seq<ResultView>,
    registry: Seq<RuleView>,
    filter: FilterView,
    buffer: Seq<u8>,
    verdicts: Seq<Verdict>,
    m: ScanMatch,
)
    requires
        is_scan_result(results, registry, filter, buffer, verdicts),
    ensures
        filter.suppress is Some && lists(filter.suppress.unwrap(), registry[m.rule as int])
            ==> !results.contains(entry_of(registry, m)),
        filter.restrict_to is Some && !lists(filter.restrict_to.unwrap(), registry[m.rule as int])
            ==> !results.contains(entry_of(registry, m)),
{
    lemma_filter_respected(
        results,
        registry,
        filter,
        confirmed(registry, all_hits(registry, filter, buffer), verdicts),
        m,
    );
}

/// No confirmed hit is lost: the hit at index `i`, if its rule has no
/// validator or its verdict accepts it, is reported by exactly one entry of
/// the scan's result, whatever other rules matched at the same offset.
pub proof fn lemma_scan_loses_nothing(
    results: Seq<ResultView>,
    registry: Seq<RuleView>,
    filter: FilterView,
    buffer: Seq<u8>,
    verdicts: Seq<Verdict>,
    i: int,
)
    requires
        registry.len() <= usize::MAX,
        buffer.len() <= usize::MAX,
        is_scan_result(results, registry, filter, buffer, verdicts),
        0 <= i < all_hits(registry, filter, buffer).len(),
        confirm(
            registry[all_hits(registry, filter, buffer)[i].rule as int],
            all_hits(registry, filter, buffer)[i],
            verdicts[i],
        ) is Some,
    ensures
        ({
            let hit = all_hits(registry, filter, buffer)[i];
            let m = confirm(registry[hit.rule as int], hit, verdicts[i]).unwrap();
            &&& results.contains(entry_of(registry, m))
            &&& forall|x: int, y: int|
                0 <= x < results.len() && 0 <= y < results.len() && results[x] == entry_of(
                    registry,
                    m,
                ) && results[y] == entry_of(registry, m) ==> x == y
        }),
{
    let hits = all_hits(registry, filter, buffer);
    let hit = hits[i];
    let m = confirm(registry[hit.rule as int], hit, verdicts[i]).unwrap();
    lemma_hits_below(registry, filter, buffer, registry.len());
    lemma_confirmed(registry, hits, verdicts);
    assert(confirmed(registry, hits, verdicts).contains(m));
    assert(m.rule == hit.rule);
    lemma_nothing_lost(results, registry, filter, confirmed(registry, hits, verdicts), m);
}

/// Finds every occurrence of the pattern of every rule that the filter
/// admits. `full_search` walks every offset; otherwise the search skips
/// ahead by the pattern's skip table. The result is the same.
pub fn find_hits(registry: &Registry, filter: &Filter, buffer: &[u8], full_search: bool) -> (hits:
    Vec<Hit>)
    ensures
        hits@ == all_hits(registry@, filter@, buffer@),
        forall|i: int| 0 <= i < hits@.len() ==> (#[trigger] hits@[i]).offset < buffer@.len(),
{
    let mut hits: Vec<Hit> = Vec::new();
    let mut r: usize = 0;
    while r < registry.len()
        invariant
            r <= registry@.len(),
            hits@ == hits_below(registry@, filter@, buffer@, r as nat),
            forall|i: int| 0 <= i < hits@.len() ==> (#[trigger] hits@[i]).offset < buffer@.len(),
        decreases registry@.len() - r,
    {
        let rule = registry.rule(r);
        if filter.admits(rule) {
            let offsets = rule.pattern.find_all(buffer, full_search);
            let size: usize = buffer.len();
            proof {
                lemma_occurrences_below(rule.pattern@, buffer@, buffer@.len());
            }
            let ghost earlier = hits@;
            let mut k: usize = 0;
            while k < offsets.len()
                invariant
                    k <= offsets@.len(),
                    hits@ == earlier + Seq::new(
                        k as nat,
                        |x: int| Hit { rule: r, offset: offsets@[x] },
                    ),
                    forall|i: int| 0 <= i < hits@.len() ==> (#[trigger] hits@[i]).offset < buffer@.len(),
                    forall|x: int| 0 <= x < offsets@.len() ==> (#[trigger] offsets@[x]) < buffer@.len(),
                decreases offsets@.len() - k,
            {
                hits.push(Hit { rule: r, offset: offsets[k] });
                k += 1;
            }
            assert(hits@ == earlier + rule_hits(r, rule.pattern@, buffer@));
        }
        r += 1;
    }
    hits
}

/// Decides what becomes of one hit, given the verdict of the rule's
/// validator. The verdict is not consulted for a rule without a validator.
pub fn judge(rule: &SignatureRule, hit: Hit, verdict: Verdict) -> (r: Option<ScanMatch>)
    ensures
        r == confirm(rule@, hit, verdict),
{
    match &rule.validator {
        None => Some(
            ScanMatch { rule: hit.rule, offset: hit.offset, confidence: rule.confidence, size: None },
        ),
        Some(_) => match verdict {
            Verdict::Reject => None,
            Verdict::Accept { confidence, size } => Some(
                ScanMatch { rule: hit.rule, offset: hit.offset, confidence, size },
            ),
        },
    }
}

/// Confirms the hits of a scan with the given verdicts and resolves them.
fn conclude(
    registry: &Registry,
    filter: &Filter,
    buffer: &[u8],
    hits: &Vec<Hit>,
    verdicts: &Vec<Verdict>,
) -> (r: AnalysisResults)
    requires
        hits@ == all_hits(registry@, filter@, buffer@),
        verdicts@.len() <= hits@.len(),
    ensures
        is_partial_scan_result(r@, registry@, filter@, buffer@, verdicts@),
{
    let rules: usize = registry.len();
    let size: usize = buffer.len();
    proof {
        lemma_hits_below(registry@, filter@, buffer@, registry@.len());
    }
    let mut raw: Vec<ScanMatch> = Vec::new();
    let mut i: usize = 0;
    while i < verdicts.len()
        invariant
            i <= verdicts@.len(),
            verdicts@.len() <= hits@.len(),
            forall|x: int| 0 <= x < hits@.len() ==> (#[trigger] hits@[x]).rule < registry@.len(),
            raw@ == confirmed(registry@, hits@.subrange(0, i as int), verdicts@.subrange(0, i as int)),
        decreases verdicts@.len() - i,
    {
        let hit: Hit = hits[i];
        let verdict: Verdict = verdicts[i];
        proof {
            let longer = hits@.subrange(0, i + 1);
            assert(longer.drop_last() == hits@.subrange(0, i as int));
            assert(verdicts@.subrange(0, i + 1).drop_last() == verdicts@.subrange(0, i as int));
            assert(longer.last() == hit);
            assert(verdicts@.subrange(0, i + 1).last() == verdict);
        }
        match judge(registry.rule(hit.rule), hit, verdict) {
            Some(m) => {
                raw.push(m);
            },
            None => {},
        }
        i += 1;
    }
    proof {
        let judged = hits@.subrange(0, i as int);
        assert(verdicts@.subrange(0, i as int) == verdicts@);
        assert forall|x: int, y: int| 0 <= x < y < judged.len() implies hit_before(
            judged[x],
            judged[y],
        ) by {
            assert(hit_before(hits@[x], hits@[y]));
        }
        lemma_confirmed(registry@, judged, verdicts@);
        assert forall|k: int| 0 <= k < raw@.len() implies (#[trigger] raw@[k]).rule < registry@.len() by {
            let x = choose|x: int|
                0 <= x < judged.len() && confirm(
                    registry@[judged[x].rule as int],
                    judged[x],
                    verdicts@[x],
                ) == Some(raw@[k]);
            assert(judged[x] == hits@[x]);
            assert(hits@[x].rule < registry@.len());
        }
        assert forall|k: int, l: int| 0 <= k < l < raw@.len() implies !(raw@[k].rule == raw@[l].rule
            && raw@[k].offset == raw@[l].offset) by {
            assert(hit_before(
                Hit { rule: raw@[k].rule, offset: raw@[k].offset },
                Hit { rule: raw@[l].rule, offset: raw@[l].offset },
            ));
        }
    }
    resolve(registry, filter, &raw)
}

/// Scans with verdicts that were obtained beforehand, one for each hit of
/// [`find_hits`] and in its order. A list of another length is refused.
pub fn scan_with_verdicts(
    registry: &Registry,
    filter: &Filter,
    buffer: &[u8],
    full_search: bool,
    verdicts: &Vec<Verdict>,
) -> (r: Option<AnalysisResults>)
    ensures
        r is Some <==> verdicts@.len() == all_hits(registry@, filter@, buffer@).len(),
        r is Some ==> is_scan_result(r.unwrap()@, registry@, filter@, buffer@, verdicts@),
{
    let hits = find_hits(registry, filter, buffer, full_search);
    if verdicts.len() != hits.len() {
        return None;
    }
    assert(hits@.subrange(0, hits@.len() as int) == hits@);
    Some(conclude(registry, filter, buffer, &hits, verdicts))
}

/// Scans the buffer: finds every hit of every admitted rule, lets the rule's
/// validator judge each hit of a rule that has one, and resolves what is
/// confirmed. The buffer may be empty. The result is determined by the
/// verdicts that the validators gave.
pub fn scan<V: Validators>(
    registry: &Registry,
    filter: &Filter,
    buffer: &[u8],
    full_search: bool,
    validators: &V,
) -> (r: AnalysisResults)
    ensures
        exists|verdicts: Seq<Verdict>| is_scan_result(r@, registry@, filter@, buffer@, verdicts),
{
    let hits = find_hits(registry, filter, buffer, full_search);
    let rules: usize = registry.len();
    let size: usize = buffer.len();
    proof {
        lemma_hits_below(registry@, filter@, buffer@, registry@.len());
    }
    let mut verdicts: Vec<Verdict> = Vec::new();
    let mut i: usize = 0;
    while i < hits.len()
        invariant
            i <= hits@.len(),
            verdicts@.len() == i,
            forall|x: int| 0 <= x < hits@.len() ==> (#[trigger] hits@[x]).rule < registry@.len(),
            forall|x: int| 0 <= x < hits@.len() ==> (#[trigger] hits@[x]).offset < buffer@.len(),
        decreases hits@.len() - i,
    {
        let hit: Hit = hits[i];
        let verdict: Verdict = match &registry.rule(hit.rule).validator {
            Some(name) => validators.validate(name, buffer, hit.offset),
            None => Verdict::Reject,
        };
        verdicts.push(verdict);
        i += 1;
    }
    assert(hits@.subrange(0, hits@.len() as int) == hits@);
    let r = conclude(registry, filter, buffer, &hits, &verdicts);
    assert(is_scan_result(r@, registry@, filter@, buffer@, verdicts@));
    r
}

/// Scans like [`scan`], but asks the signal before each hit is judged and
/// stops judging when it is raised. What was confirmed until then is
/// resolved and returned: the result of a scan in which only the first hits,
/// as many as there are verdicts, were found.
pub fn scan_until<V: Validators, S: StopSignal>(
    registry: &Registry,
    filter: &Filter,
    buffer: &[u8],
    full_search: bool,
    validators: &V,
    stop: &S,
) -> (r: AnalysisResults)
    ensures
        exists|verdicts: Seq<Verdict>|
            is_partial_scan_result(r@, registry@, filter@, buffer@, verdicts),
{
    let hits = find_hits(registry, filter, buffer, full_search);
    let rules: usize = registry.len();
    let size: usize = buffer.len();
    proof {
        lemma_hits_below(registry@, filter@, buffer@, registry@.len());
    }
    let mut verdicts: Vec<Verdict> = Vec::new();
    let mut i: usize = 0;
    while i < hits.len()
        invariant_except_break
            i <= hits@.len(),
            verdicts@.len() == i,
        invariant
            forall|x: int| 0 <= x < hits@.len() ==> (#[trigger] hits@[x]).rule < registry@.len(),
            forall|x: int| 0 <= x < hits@.len() ==> (#[trigger] hits@[x]).offset < buffer@.len(),
        ensures
            verdicts@.len() <= hits@.len(),
        decreases hits@.len() - i,
    {
        if stop.raised() {
            break ;
        }
        let hit: Hit = hits[i];
        let verdict: Verdict = match &registry.rule(hit.rule).validator {
            Some(name) => validators.validate(name, buffer, hit.offset),
            None => Verdict::Reject,
        };
        verdicts.push(verdict);
        i += 1;
    }
    let r = conclude(registry, filter, buffer, &hits, &verdicts);
    assert(is_partial_scan_result(r@, registry@, filter@, buffer@, verdicts@));
    r
}

} // verus!
