//! Putting the cards of one drop together. Each card slot is worked on by
//! itself and finishes when it finishes; the result keeps the order of the
//! slots, and one failed slot fails the whole drop.

use vstd::prelude::*;
use crate::records::{cards_view, DroppedCard, DroppedCardView};
use crate::text::{append_chars, chars_of, string_of};

verus! {

/// What can go wrong between the message and the cards.
#[derive(Debug, Clone, PartialEq, Eq)]
pub enum PipelineError {
    /// The message has no attachment, or it could not be fetched.
    Attachment(String),
    /// The attachment is no image.
    Decode(String),
    /// A recognition engine could not be made.
    OcrInit(String),
    /// Recognition failed on one field.
    OcrExecution(String),
    /// The store failed.
    Store(String),
}

/// A failure as plain values.
pub ghost enum PipelineErrorView {
    Attachment(Seq<char>),
    Decode(Seq<char>),
    OcrInit(Seq<char>),
    OcrExecution(Seq<char>),
    Store(Seq<char>),
}

impl View for PipelineError {
    type V = PipelineErrorView;

    open spec fn view(&self) -> PipelineErrorView {
        match *self {
            PipelineError::Attachment(why) => PipelineErrorView::Attachment(why@),
            PipelineError::Decode(why) => PipelineErrorView::Decode(why@),
            PipelineError::OcrInit(why) => PipelineErrorView::OcrInit(why@),
            PipelineError::OcrExecution(why) => PipelineErrorView::OcrExecution(why@),
            PipelineError::Store(why) => PipelineErrorView::Store(why@),
        }
    }
}

/// What one slot came to.
pub type SlotOutcome = Result<DroppedCard, PipelineError>;

/// The outcome of a slot as plain values.
pub open spec fn outcome_view(o: SlotOutcome) -> Result<DroppedCardView, PipelineErrorView> {
    match o {
        Ok(card) => Ok(card@),
        Err(e) => Err(e@),
    }
}

/// The outcomes of the slots as plain values.
pub open spec fn outcomes_view(v: Seq<SlotOutcome>) -> Seq<
    Result<DroppedCardView, PipelineErrorView>,
> {
    v.map_values(|o: SlotOutcome| outcome_view(o))
}

/// What is filed under the slots, as plain values.
pub open spec fn slots_view(v: Seq<Option<SlotOutcome>>) -> Seq<
    Option<Result<DroppedCardView, PipelineErrorView>>,
> {
    v.map_values(
        |o: Option<SlotOutcome>|
            match o {
                Some(r) => Some(outcome_view(r)),
                None => None,
            },
    )
}

/// The first failed slot from `from` on.
pub open spec fn first_failure(
    outcomes: Seq<Result<DroppedCardView, PipelineErrorView>>,
    from: int,
) -> Option<int>
    decreases outcomes.len() - from,
{
    if from < 0 || from >= outcomes.len() {
        None
    } else if outcomes[from] is Err {
        Some(from)
    } else {
        first_failure(outcomes, from + 1)
    }
}

/// The drop as a whole: the cards of all slots in slot order where every
/// slot succeeded, and otherwise the failure of the first slot that failed.
pub open spec fn aggregated(outcomes: Seq<Result<DroppedCardView, PipelineErrorView>>) -> Result<
    Seq<DroppedCardView>,
    PipelineErrorView,
> {
    match first_failure(outcomes, 0) {
        Some(k) => Err(outcomes[k]->Err_0),
        None => Ok(Seq::new(outcomes.len(), |i: int| outcomes[i]->Ok_0)),
    }
}

/// The result for a drop as plain values.
pub open spec fn aggregate_view(r: Result<Vec<DroppedCard>, PipelineError>) -> Result<
    Seq<DroppedCardView>,
    PipelineErrorView,
> {
    match r {
        Ok(cards) => Ok(cards_view(cards@)),
        Err(e) => Err(e@),
    }
}

/// The first failure found from `from` on is a failure, and no slot between
/// failed.
pub proof fn lemma_first_failure(
    outcomes: Seq<Result<DroppedCardView, PipelineErrorView>>,
    from: int,
)
    requires
        0 <= from,
    ensures
        match first_failure(outcomes, from) {
            Some(k) => from <= k < outcomes.len() && outcomes[k] is Err && forall|j: int|
                from <= j < k ==> outcomes[j] is Ok,
            None => forall|j: int| from <= j < outcomes.len() ==> outcomes[j] is Ok,
        },
    decreases outcomes.len() - from,
{
    if from < outcomes.len() && outcomes[from] is Ok {
        lemma_first_failure(outcomes, from + 1);
    }
}

/// A drop gives cards exactly where no slot failed, and then one card per
/// slot.
pub proof fn lemma_all_or_nothing(outcomes: Seq<Result<DroppedCardView, PipelineErrorView>>)
    ensures
        aggregated(outcomes) is Ok <==> forall|i: int|
            0 <= i < outcomes.len() ==> outcomes[i] is Ok,
        aggregated(outcomes) is Ok ==> aggregated(outcomes)->Ok_0.len() == outcomes.len(),
{
    lemma_first_failure(outcomes, 0);
}

/// Puts the outcomes of the slots together, in slot order.
pub fn aggregate(outcomes: Vec<SlotOutcome>) -> (result: Result<Vec<DroppedCard>, PipelineError>)
    ensures
        aggregate_view(result) == aggregated(outcomes_view(outcomes@)),
{
    let ghost all = outcomes_view(outcomes@);
    let mut cards: Vec<DroppedCard> = Vec::new();
    let ghost given = outcomes@;
    let mut queue = outcomes;
    let n = queue.len();
    let mut rest: Vec<SlotOutcome> = Vec::new();
    // Take the outcomes from the back, so that each can be moved out.
    while queue.len() > 0
        invariant
            given.len() == n,
            queue.len() + rest.len() == n,
            queue@ == given.take(queue.len() as int),
            forall|j: int| 0 <= j < rest.len() ==> #[trigger] rest@[j] == given[n - 1 - j],
        decreases queue.len(),
    {
        let ghost m = queue.len();
        let last = queue.pop().unwrap();
        rest.push(last);
        assert(queue@ =~= given.take(m - 1));
    }
    let mut i: usize = 0;
    assert(cards_view(cards@) =~= Seq::<DroppedCardView>::empty());
    while i < n
        invariant
            i <= n,
            given.len() == n,
            given == outcomes@,
            all == outcomes_view(given),
            rest.len() == n - i,
            forall|j: int| 0 <= j < rest.len() ==> #[trigger] rest@[j] == given[n - 1 - j],
            first_failure(all, 0) == first_failure(all, i as int),
            cards.len() == i,
            forall|j: int| 0 <= j < i ==> (#[trigger] all[j]) is Ok,
            forall|j: int| 0 <= j < i ==> (#[trigger] cards@[j])@ == all[j]->Ok_0,
        decreases n - i,
    {
        let next = rest.pop().unwrap();
        assert(next == given[i as int]);
        assert(all.len() == n);
        assert(all[i as int] == outcome_view(next));
        match next {
            Ok(card) => {
                assert(all[i as int] == Ok::<DroppedCardView, PipelineErrorView>(card@));
                cards.push(card);
                assert(first_failure(all, i as int) == first_failure(all, i + 1));
            },
            Err(e) => {
                assert(all[i as int] == Err::<DroppedCardView, PipelineErrorView>(e@));
                assert(first_failure(all, i as int) == Some(i as int));
                return Err(e);
            },
        }
        i += 1;
    }
    assert(cards_view(cards@) =~= Seq::new(all.len(), |i: int| all[i]->Ok_0));
    Ok(cards)
}

/// The outcomes of a drop's slots, each filed under its slot as it arrives.
pub struct SlotBoard {
    slots: Vec<Option<SlotOutcome>>,
}

impl SlotBoard {
    /// What has been filed so far, by slot.
    pub closed spec fn filed(&self) -> Seq<Option<Result<DroppedCardView, PipelineErrorView>>> {
        slots_view(self.slots@)
    }

    /// How many slots the drop has.
    pub open spec fn spec_len(&self) -> nat {
        self.filed().len()
    }

    /// Every slot has its outcome.
    pub open spec fn is_full(&self) -> bool {
        forall|i: int| 0 <= i < self.filed().len() ==> self.filed()[i] is Some
    }

    /// The outcomes of a full board, by slot.
    pub open spec fn outcomes(&self) -> Seq<Result<DroppedCardView, PipelineErrorView>> {
        Seq::new(self.filed().len(), |i: int| self.filed()[i]->0)
    }

    /// A board for `count` slots, with nothing filed.
    pub fn new(count: usize) -> (board: SlotBoard)
        ensures
            board.spec_len() == count,
            forall|i: int| 0 <= i < count ==> board.filed()[i] is None,
    {
        let mut slots: Vec<Option<SlotOutcome>> = Vec::new();
        let mut i: usize = 0;
        while i < count
            invariant
                i <= count,
                slots.len() == i,
                forall|j: int| 0 <= j < i ==> slots@[j] is None,
            decreases count - i,
        {
            slots.push(None);
            i += 1;
        }
        SlotBoard { slots }
    }

    /// How many slots the drop has.
    pub fn len(&self) -> (n: usize)
        ensures
            n == self.spec_len(),
    {
        self.slots.len()
    }

    /// Files the outcome of slot `slot`, over whatever was filed there. A
    /// slot that the drop does not have changes nothing; the answer tells
    /// whether the outcome was filed.
    pub fn record(&mut self, slot: usize, outcome: SlotOutcome) -> (done: bool)
        ensures
            done == (slot < old(self).spec_len()),
            done ==> final(self).filed() == old(self).filed().update(
                slot as int,
                Some(outcome_view(outcome)),
            ),
            !done ==> final(self).filed() == old(self).filed(),
    {
        if slot >= self.slots.len() {
            return false;
        }
        let ghost before = self.slots@;
        self.slots[slot] = Some(outcome);
        assert(slots_view(self.slots@) =~= slots_view(before).update(
            slot as int,
            Some(outcome_view(outcome)),
        ));
        true
    }

    /// The drop as a whole, once every slot has its outcome: the order is
    /// that of the slots, whatever the order in which they were filed. While
    /// a slot is outstanding there is no result.
    pub fn finish(self) -> (result: Option<Result<Vec<DroppedCard>, PipelineError>>)
        ensures
            result is Some <==> self.is_full(),
            result is Some ==> aggregate_view(result->0) == aggregated(self.outcomes()),
    {
        let ghost filed = self.filed();
        let mut slots = self.slots;
        let n = slots.len();
        let ghost given = slots@;
        let mut back: Vec<SlotOutcome> = Vec::new();
        while slots.len() > 0
            invariant
                given.len() == n,
                filed == slots_view(given),
                filed == self.filed(),
                slots.len() + back.len() == n,
                slots@ == given.take(slots.len() as int),
                forall|j: int|
                    0 <= j < back.len() ==> given[n - 1 - j] == Some(#[trigger] back@[j]),
            decreases slots.len(),
        {
            let ghost m = slots.len();
            let last = slots.pop().unwrap();
            assert(slots@ =~= given.take(m - 1));
            assert(last == given[m - 1]);
            match last {
                Some(outcome) => {
                    back.push(outcome);
                },
                None => {
                    assert(filed.len() == n);
                    assert(filed[m - 1] is None);
                    return None;
                },
            }
        }
        assert forall|i: int| 0 <= i < filed.len() implies filed[i] is Some by {
            assert(given[n - 1 - (n - 1 - i)] == Some(back@[n - 1 - i]));
        }
        let mut outcomes: Vec<SlotOutcome> = Vec::new();
        while back.len() > 0
            invariant
                given.len() == n,
                outcomes.len() + back.len() == n,
                forall|j: int|
                    0 <= j < back.len() ==> given[n - 1 - j] == Some(#[trigger] back@[j]),
                forall|j: int| 0 <= j < outcomes.len() ==> given[j] == Some(#[trigger] outcomes@[j]),
            decreases back.len(),
        {
            let next = back.pop().unwrap();
            outcomes.push(next);
        }
        assert(outcomes_view(outcomes@) =~= Seq::new(filed.len(), |i: int| filed[i]->0)) by {
            assert forall|i: int| 0 <= i < n implies outcome_view(outcomes@[i]) == filed[i]->0 by {
                assert(given[i] == Some(outcomes@[i]));
            }
        }
        Some(aggregate(outcomes))
    }
}

/// Outcomes filed under two different slots give the same board in
/// whichever order they are filed.
pub proof fn lemma_filing_order_free(
    filed: Seq<Option<Result<DroppedCardView, PipelineErrorView>>>,
    a: int,
    x: Result<DroppedCardView, PipelineErrorView>,
    b: int,
    y: Result<DroppedCardView, PipelineErrorView>,
)
    requires
        0 <= a < filed.len(),
        0 <= b < filed.len(),
        a != b,
    ensures
        filed.update(a, Some(x)).update(b, Some(y)) == filed.update(b, Some(y)).update(
            a,
            Some(x),
        ),
{
    assert(filed.update(a, Some(x)).update(b, Some(y)) =~= filed.update(b, Some(y)).update(
        a,
        Some(x),
    ));
}

/// The message that tells a user what went wrong.
pub open spec fn described(e: PipelineErrorView) -> Seq<char> {
    match e {
        PipelineErrorView::Attachment(why) => "Failed to download attachment: "@ + why,
        PipelineErrorView::Decode(why) => "Failed to decode image: "@ + why,
        PipelineErrorView::OcrInit(why) => "Failed to create Tesseract: "@ + why,
        PipelineErrorView::OcrExecution(why) => "Failed to analyze card: "@ + why,
        PipelineErrorView::Store(why) => "Failed to query the store: "@ + why,
    }
}

impl PipelineError {
    /// The message that tells a user what went wrong.
    pub fn describe(&self) -> (message: String)
        ensures
            message@ == described(self@),
    {
        let (head, why) = match self {
            PipelineError::Attachment(why) => ("Failed to download attachment: ", why),
            PipelineError::Decode(why) => ("Failed to decode image: ", why),
            PipelineError::OcrInit(why) => ("Failed to create Tesseract: ", why),
            PipelineError::OcrExecution(why) => ("Failed to analyze card: ", why),
            PipelineError::Store(why) => ("Failed to query the store: ", why),
        };
        let mut out = chars_of(head);
        append_chars(&mut out, &chars_of(why.as_str()));
        string_of(&out)
    }
}

} // verus!
