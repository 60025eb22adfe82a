//! Resolving a recognized name and series to a character of the store.
//!
//! The store is asked from outside the library. The library decides what to
//! ask and what the answers mean: first the exact pair, then, on a miss, one
//! query with the fuzzy patterns of both fields. Several cards of one drop
//! can share a single query with one branch per card.

use vstd::prelude::*;
use crate::pattern::{compile, pattern_text, regexify_text};
use crate::records::{
    card_showing, unknown_character, Character, CharacterView, DroppedCard, DroppedCardView,
};
use crate::text::{chars_of, is_match_at, string_of};

verus! {

/// A question to the store.
#[derive(Debug, Clone, PartialEq, Eq)]
pub enum StoreQuery {
    /// The record whose name and series are exactly these.
    Exact { name: String, series: String },
    /// The first record whose name and series match these patterns, letter
    /// case set aside.
    Fuzzy { name_pattern: String, series_pattern: String },
}

/// What resolving does next.
#[derive(Debug, Clone, PartialEq, Eq)]
pub enum ResolveStep {
    /// Ask the store this.
    Ask(StoreQuery),
    /// Resolving is over, with this result.
    Done(Option<Character>),
}

/// A question to the store as plain values.
pub ghost enum StoreQueryView {
    Exact { name: Seq<char>, series: Seq<char> },
    Fuzzy { name_pattern: Seq<char>, series_pattern: Seq<char> },
}

/// A step of resolving as plain values.
pub ghost enum ResolveStepView {
    Ask(StoreQueryView),
    Done(Option<CharacterView>),
}

impl View for StoreQuery {
    type V = StoreQueryView;

    open spec fn view(&self) -> StoreQueryView {
        match *self {
            StoreQuery::Exact { name, series } => StoreQueryView::Exact {
                name: name@,
                series: series@,
            },
            StoreQuery::Fuzzy { name_pattern, series_pattern } => StoreQueryView::Fuzzy {
                name_pattern: name_pattern@,
                series_pattern: series_pattern@,
            },
        }
    }
}

impl View for ResolveStep {
    type V = ResolveStepView;

    open spec fn view(&self) -> ResolveStepView {
        match *self {
            ResolveStep::Ask(q) => ResolveStepView::Ask(q@),
            ResolveStep::Done(found) => ResolveStepView::Done(record_view(found)),
        }
    }
}

/// A record that may be missing, as plain values.
pub open spec fn record_view(found: Option<Character>) -> Option<CharacterView> {
    match found {
        Some(c) => Some(c@),
        None => None,
    }
}

/// The fuzzy query for a name and a series.
pub open spec fn fuzzy_query(name: Seq<char>, series: Seq<char>) -> StoreQueryView {
    StoreQueryView::Fuzzy {
        name_pattern: pattern_text(compile(name)),
        series_pattern: pattern_text(compile(series)),
    }
}

/// What follows the store's answer to the exact query: a record that was
/// found ends the resolving; a miss leads to the fuzzy query.
pub open spec fn step_after_exact(
    name: Seq<char>,
    series: Seq<char>,
    answer: Option<CharacterView>,
) -> ResolveStepView {
    match answer {
        Some(c) => ResolveStepView::Done(Some(c)),
        None => ResolveStepView::Ask(fuzzy_query(name, series)),
    }
}

/// The card for a field pair and what resolving found: the record found, or
/// a record that holds the recognized texts and nothing else.
pub open spec fn resolved_card(
    name: Seq<char>,
    series: Seq<char>,
    found: Option<CharacterView>,
) -> DroppedCardView {
    match found {
        Some(c) => card_showing(c),
        None => card_showing(unknown_character(name, series)),
    }
}

/// The first question: the exact pair.
pub fn begin_resolve(name: &str, series: &str) -> (query: StoreQuery)
    ensures
        query@ == (StoreQueryView::Exact { name: name@, series: series@ }),
{
    StoreQuery::Exact { name: name.to_owned(), series: series.to_owned() }
}

/// Takes the store's answer to the exact query. A record that was found is
/// the result, and no pattern is compiled; a miss leads to the fuzzy query
/// with the patterns of both fields.
pub fn after_exact(name: &str, series: &str, answer: Option<Character>) -> (step: ResolveStep)
    ensures
        step@ == step_after_exact(name@, series@, record_view(answer)),
        answer is Some ==> step@ == ResolveStepView::Done(record_view(answer)),
{
    match answer {
        Some(c) => ResolveStep::Done(Some(c)),
        None => ResolveStep::Ask(
            StoreQuery::Fuzzy {
                name_pattern: regexify_text(&name.to_owned()),
                series_pattern: regexify_text(&series.to_owned()),
            },
        ),
    }
}

/// Takes the store's answer to the fuzzy query: it is the result, found or
/// not.
pub fn after_fuzzy(answer: Option<Character>) -> (step: ResolveStep)
    ensures
        step@ == ResolveStepView::Done(record_view(answer)),
{
    ResolveStep::Done(answer)
}

/// The card for a field pair and what resolving found.
pub fn card_for(name: String, series: String, found: Option<Character>) -> (card: DroppedCard)
    ensures
        card@ == resolved_card(name@, series@, record_view(found)),
{
    match found {
        Some(c) => DroppedCard::showing(c),
        None => DroppedCard::showing(Character::unknown(name, series)),
    }
}

/// By which field a batch query narrows the scan before it matches.
#[derive(Debug, Clone, Copy, PartialEq, Eq, Structural)]
pub enum PrefixFilter {
    /// Names that begin like the first name.
    Name,
    /// Series that begin like the first series.
    Series,
    /// Both.
    NameAndSeries,
}

/// One branch of a batch query: a label and the patterns of one card.
#[derive(Debug, Clone, PartialEq, Eq)]
pub struct Branch {
    pub label: String,
    pub name_pattern: String,
    pub series_pattern: String,
}

/// A query that resolves several cards at once.
#[derive(Debug, Clone, PartialEq, Eq)]
pub struct BatchQuery {
    /// The pattern that names must begin with, where names narrow the scan.
    pub name_prefix: Option<String>,
    /// The pattern that series must begin with, where series narrow the scan.
    pub series_prefix: Option<String>,
    /// One branch per card, in the order of the cards.
    pub branches: Vec<Branch>,
}

/// Why no batch query can be made.
#[derive(Debug, Clone, Copy, PartialEq, Eq, Structural)]
pub enum BatchError {
    /// Fewer than two cards.
    TooFew,
    /// More than four cards.
    TooMany,
    /// The field that should narrow the scan is empty in the first card.
    NoPrefix,
}

/// What the store found for one branch.
#[derive(Debug, Clone, PartialEq, Eq)]
pub struct Facet {
    pub label: String,
    pub matches: Vec<Character>,
}

/// A branch as plain values.
pub ghost struct BranchView {
    pub label: Seq<char>,
    pub name_pattern: Seq<char>,
    pub series_pattern: Seq<char>,
}

/// A batch query as plain values.
pub ghost struct BatchQueryView {
    pub name_prefix: Option<Seq<char>>,
    pub series_prefix: Option<Seq<char>>,
    pub branches: Seq<BranchView>,
}

/// A facet as plain values.
pub ghost struct FacetView {
    pub label: Seq<char>,
    pub matches: Seq<CharacterView>,
}

impl View for Branch {
    type V = BranchView;

    open spec fn view(&self) -> BranchView {
        BranchView {
            label: self.label@,
            name_pattern: self.name_pattern@,
            series_pattern: self.series_pattern@,
        }
    }
}

impl View for BatchQuery {
    type V = BatchQueryView;

    open spec fn view(&self) -> BatchQueryView {
        BatchQueryView {
            name_prefix: text_view(self.name_prefix),
            series_prefix: text_view(self.series_prefix),
            branches: self.branches@.map_values(|b: Branch| b@),
        }
    }
}

impl View for Facet {
    type V = FacetView;

    open spec fn view(&self) -> FacetView {
        FacetView {
            label: self.label@,
            matches: self.matches@.map_values(|c: Character| c@),
        }
    }
}

/// The characters of a text that may be missing.
pub open spec fn text_view(t: Option<String>) -> Option<Seq<char>> {
    match t {
        Some(s) => Some(s@),
        None => None,
    }
}

/// The facets of `v` as plain values.
pub open spec fn facets_view(v: Seq<Facet>) -> Seq<FacetView> {
    v.map_values(|f: Facet| f@)
}

/// The records of `v` as plain values.
pub open spec fn records_view(v: Seq<Option<Character>>) -> Seq<Option<CharacterView>> {
    v.map_values(|c: Option<Character>| record_view(c))
}

/// Pairs of name and series as plain values.
pub open spec fn pairs_view(v: Seq<(String, String)>) -> Seq<(Seq<char>, Seq<char>)> {
    v.map_values(|p: (String, String)| (p.0@, p.1@))
}

/// The label of branch `i`, counted from zero: `character1` and so on.
pub open spec fn branch_label(i: int) -> Seq<char> {
    seq!['c', 'h', 'a', 'r', 'a', 'c', 't', 'e', 'r'].push((('1' as u8) + i as u8) as char)
}

/// The branch for card `i`.
pub open spec fn branch_for(i: int, name: Seq<char>, series: Seq<char>) -> BranchView {
    BranchView {
        label: branch_label(i),
        name_pattern: pattern_text(compile(name)),
        series_pattern: pattern_text(compile(series)),
    }
}

/// The pattern of the texts that begin with the first character of `text`.
pub open spec fn prefix_pattern(text: Seq<char>) -> Seq<char> {
    seq!['^', text[0]]
}

/// The field or fields that `filter` needs are not empty.
pub open spec fn has_prefix_fields(filter: PrefixFilter, name: Seq<char>, series: Seq<char>) -> bool {
    match filter {
        PrefixFilter::Name => name.len() > 0,
        PrefixFilter::Series => series.len() > 0,
        PrefixFilter::NameAndSeries => name.len() > 0 && series.len() > 0,
    }
}

/// The batch query for `entries`: the scan narrowed by the first card, and
/// one branch per card, in order.
pub open spec fn batch_for(entries: Seq<(Seq<char>, Seq<char>)>, filter: PrefixFilter) -> Result<
    BatchQueryView,
    BatchError,
> {
    if entries.len() < 2 {
        Err(BatchError::TooFew)
    } else if entries.len() > 4 {
        Err(BatchError::TooMany)
    } else if !has_prefix_fields(filter, entries[0].0, entries[0].1) {
        Err(BatchError::NoPrefix)
    } else {
        Ok(
            BatchQueryView {
                name_prefix: if filter == PrefixFilter::Series {
                    None
                } else {
                    Some(prefix_pattern(entries[0].0))
                },
                series_prefix: if filter == PrefixFilter::Name {
                    None
                } else {
                    Some(prefix_pattern(entries[0].1))
                },
                branches: Seq::new(
                    entries.len(),
                    |i: int| branch_for(i, entries[i].0, entries[i].1),
                ),
            },
        )
    }
}

/// The first facet from `from` on that carries `label`.
pub open spec fn facet_for(facets: Seq<FacetView>, label: Seq<char>, from: int) -> Option<int>
    decreases facets.len() - from,
{
    if from < 0 || from >= facets.len() {
        None
    } else if facets[from].label == label {
        Some(from)
    } else {
        facet_for(facets, label, from + 1)
    }
}

/// What was found for the branch labelled `label`: the first match of its
/// facet, if it has a facet and the facet has a match.
pub open spec fn branch_result(facets: Seq<FacetView>, label: Seq<char>) -> Option<CharacterView> {
    match facet_for(facets, label, 0) {
        Some(k) => if facets[k].matches.len() > 0 {
            Some(facets[k].matches[0])
        } else {
            None
        },
        None => None,
    }
}

/// What was found for each branch of `branches`, in their order.
pub open spec fn batch_results(facets: Seq<FacetView>, branches: Seq<BranchView>) -> Seq<
    Option<CharacterView>,
> {
    Seq::new(branches.len(), |i: int| branch_result(facets, branches[i].label))
}

fn make_label(i: usize) -> (label: Vec<char>)
    requires
        i < 4,
    ensures
        label@ == branch_label(i as int),
{
    let mut label: Vec<char> = vec!['c', 'h', 'a', 'r', 'a', 'c', 't', 'e', 'r'];
    let digit: char = (('1' as u8) + i as u8) as char;
    label.push(digit);
    assert(label@ =~= branch_label(i as int));
    label
}

fn make_prefix(text: &Vec<char>) -> (pattern: String)
    requires
        text.len() > 0,
    ensures
        pattern@ == prefix_pattern(text@),
{
    let v: Vec<char> = vec!['^', text[0]];
    assert(v@ =~= prefix_pattern(text@));
    string_of(&v)
}

/// Makes the one query that resolves the cards of `entries`, each a name and
/// a series: between two and four of them.
pub fn plan_batch(entries: &Vec<(String, String)>, filter: PrefixFilter) -> (plan: Result<
    BatchQuery,
    BatchError,
>)
    ensures
        match plan {
            Ok(q) => batch_for(pairs_view(entries@), filter) == Ok::<BatchQueryView, BatchError>(
                q@,
            ),
            Err(e) => batch_for(pairs_view(entries@), filter) == Err::<BatchQueryView, BatchError>(
                e,
            ),
        },
{
    let n = entries.len();
    let ghost pairs = pairs_view(entries@);
    assert(pairs.len() == n);
    if n < 2 {
        return Err(BatchError::TooFew);
    }
    if n > 4 {
        return Err(BatchError::TooMany);
    }
    assert(pairs[0] == (entries@[0].0@, entries@[0].1@));
    let first_name = chars_of(entries[0].0.as_str());
    let first_series = chars_of(entries[0].1.as_str());
    let by_name = filter == PrefixFilter::Name || filter == PrefixFilter::NameAndSeries;
    let by_series = filter == PrefixFilter::Series || filter == PrefixFilter::NameAndSeries;
    if (by_name && first_name.len() == 0) || (by_series && first_series.len() == 0) {
        return Err(BatchError::NoPrefix);
    }
    let name_prefix = if by_name {
        Some(make_prefix(&first_name))
    } else {
        None
    };
    let series_prefix = if by_series {
        Some(make_prefix(&first_series))
    } else {
        None
    };
    let mut branches: Vec<Branch> = Vec::new();
    let mut i: usize = 0;
    while i < n
        invariant
            i <= n <= 4,
            n == entries.len(),
            pairs == pairs_view(entries@),
            branches.len() == i,
            forall|j: int|
                0 <= j < i ==> (#[trigger] branches@[j])@ == branch_for(j, pairs[j].0, pairs[j].1),
        decreases n - i,
    {
        assert(pairs[i as int] == (entries@[i as int].0@, entries@[i as int].1@));
        let branch = Branch {
            label: string_of(&make_label(i)),
            name_pattern: regexify_text(&entries[i].0),
            series_pattern: regexify_text(&entries[i].1),
        };
        branches.push(branch);
        i += 1;
    }
    let plan = BatchQuery { name_prefix, series_prefix, branches };
    proof {
        let want = Seq::new(pairs.len(), |i: int| branch_for(i, pairs[i].0, pairs[i].1));
        assert(plan@.branches =~= want);
    }
    Ok(plan)
}

fn same_label(a: &Vec<char>, b: &Vec<char>) -> (same: bool)
    ensures
        same == (a@ == b@),
{
    if a.len() != b.len() {
        return false;
    }
    let same = is_match_at(a, b, 0);
    assert(a@.subrange(0, a@.len() as int) =~= a@);
    same
}

fn find_facet(facets: &Vec<Facet>, label: &Vec<char>) -> (found: Option<usize>)
    ensures
        match found {
            Some(k) => facet_for(facets_view(facets@), label@, 0) == Some(k as int) && k
                < facets.len(),
            None => facet_for(facets_view(facets@), label@, 0) is None,
        },
{
    let mut k: usize = 0;
    let ghost all = facets_view(facets@);
    while k < facets.len()
        invariant
            k <= facets.len(),
            all == facets_view(facets@),
            facet_for(all, label@, 0) == facet_for(all, label@, k as int),
        decreases facets.len() - k,
    {
        assert(all[k as int] == facets@[k as int]@);
        let here = chars_of(facets[k].label.as_str());
        if same_label(&here, label) {
            return Some(k);
        }
        k += 1;
    }
    None
}

/// Puts what the store found in the order of the cards: for each branch of
/// `query` the first match that the store returned under its label, or
/// nothing. The order in which the store returned the facets plays no part.
pub fn collect_batch(facets: &Vec<Facet>, query: &BatchQuery) -> (found: Vec<Option<Character>>)
    ensures
        records_view(found@) == batch_results(facets_view(facets@), query@.branches),
        found.len() == query.branches.len(),
{
    let mut found: Vec<Option<Character>> = Vec::new();
    let ghost all = facets_view(facets@);
    let ghost branches = query@.branches;
    let count = query.branches.len();
    let mut i: usize = 0;
    while i < count
        invariant
            i <= count,
            count == query.branches.len(),
            all == facets_view(facets@),
            branches == query@.branches,
            found.len() == i,
            forall|j: int|
                0 <= j < i ==> record_view(#[trigger] found@[j]) == branch_result(
                    all,
                    branches[j].label,
                ),
        decreases count - i,
    {
        assert(branches[i as int] == query.branches@[i as int]@);
        let label = chars_of(query.branches[i].label.as_str());
        let hit = match find_facet(facets, &label) {
            Some(k) => {
                assert(all[k as int] == facets@[k as int]@);
                let facet = &facets[k];
                if facet.matches.len() > 0 {
                    Some(facet.matches[0].duplicate())
                } else {
                    None
                }
            },
            None => None,
        };
        found.push(hit);
        i += 1;
    }
    assert(records_view(found@) =~= batch_results(all, branches));
    found
}

/// The label that `facets` carries at most once each.
pub open spec fn labels_distinct(facets: Seq<FacetView>) -> bool {
    forall|a: int, b: int|
        0 <= a < facets.len() && 0 <= b < facets.len() && a != b ==> facets[a].label
            != facets[b].label
}

/// The facet that `facet_for` finds carries the label, and none before it
/// does.
pub proof fn lemma_facet_for(facets: Seq<FacetView>, label: Seq<char>, from: int)
    requires
        0 <= from,
    ensures
        match facet_for(facets, label, from) {
            Some(k) => from <= k < facets.len() && facets[k].label == label,
            None => forall|j: int| from <= j < facets.len() ==> facets[j].label != label,
        },
    decreases facets.len() - from,
{
    if from < facets.len() && facets[from].label != label {
        lemma_facet_for(facets, label, from + 1);
    }
}

/// What is found for a branch does not depend on the order in which the
/// store returns the facets: two answers that hold the same facets, each
/// label at most once, give every branch the same result.
pub proof fn lemma_batch_order_free(
    a: Seq<FacetView>,
    b: Seq<FacetView>,
    branches: Seq<BranchView>,
)
    requires
        labels_distinct(a),
        labels_distinct(b),
        forall|f: FacetView| a.contains(f) <==> b.contains(f),
    ensures
        batch_results(a, branches) == batch_results(b, branches),
{
    assert forall|i: int| 0 <= i < branches.len() implies branch_result(a, branches[i].label)
        == branch_result(b, branches[i].label) by {
        let label = branches[i].label;
        lemma_facet_for(a, label, 0);
        lemma_facet_for(b, label, 0);
        match facet_for(a, label, 0) {
            Some(k) => {
                assert(a.contains(a[k]));
                assert(b.contains(a[k]));
                let m = choose|m: int| 0 <= m < b.len() && b[m] == a[k];
                let kb = facet_for(b, label, 0)->0;
                assert(facet_for(b, label, 0) is Some);
                assert(kb == m);
            },
            None => {
                if facet_for(b, label, 0) is Some {
                    let kb = facet_for(b, label, 0)->0;
                    assert(b.contains(b[kb]));
                    assert(a.contains(b[kb]));
                    let m = choose|m: int| 0 <= m < a.len() && a[m] == b[kb];
                    assert(a[m].label == label);
                }
            },
        }
    }
    assert(batch_results(a, branches) =~= batch_results(b, branches));
}

} // verus!
