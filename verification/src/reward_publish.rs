//! What is told of the rewards on screen.

use vstd::prelude::*;

use crate::keyed::NameMap;
use crate::relic_pool::{ducats_of, relic_pool_entries, RewardCatalogEntry};
#[allow(unused_imports)]
use crate::relic_pool::{is_pool_of, is_worth};
use crate::reward_choices::{local_choice, RewardNeedle};
#[allow(unused_imports)]
use crate::reward_choices::is_choice_of;
use crate::reward_session::PendingRewardSquad;
use crate::text::decimal_text;
#[allow(unused_imports)]
use crate::text::{decimal, law_decimal_reads_back, number, opt_text};

verus! {

/// How long the cards are looked for on the screen before that is given up, in milliseconds.
pub const READING_DEADLINE_MS: u64 = 8000;

/// What is needed to read the cards of a squad off the screen.
pub struct CardRequest {
    /// The rewards that the cards can show.
    pub pool: Vec<RewardCatalogEntry>,
    /// How many cards there are.
    pub expected: usize,
    /// The reward that has to be among them, where it is known.
    pub local_choice: Option<String>,
    /// How long to look for them, in milliseconds.
    pub deadline_ms: u64,
}

/// Works out what is needed to read the cards of a squad off the screen: the rewards that its relics
/// can drop, a card for each of its members, and the reward that the log says the local player got.
pub fn card_request<F: Fn(&String, &String) -> bool>(
    squad: &PendingRewardSquad,
    candidates: &[RewardNeedle],
    reward_catalog: &[RewardCatalogEntry],
    matches: &F,
) -> (request: CardRequest)
    requires
        forall|a: &String, b: &String| call_requires(*matches, (a, b)),
    ensures
        request.pool@.len() == candidates@.len(),
        forall|i: int|
            0 <= i < request.pool@.len() ==> (#[trigger] request.pool@[i]).name
                == candidates@[i].choice_name && is_worth(
                *matches,
                reward_catalog@,
                candidates@[i].choice_name,
                request.pool@[i].ducats,
            ),
        is_pool_of(*matches, reward_catalog@, candidates@, request.pool@),
        request.expected == squad.screen_order@.len(),
        is_choice_of(
            candidates@,
            opt_text(squad.local_reward_path),
            opt_text(request.local_choice),
        ),
        request.deadline_ms == READING_DEADLINE_MS,
{
    let path = match &squad.local_reward_path {
        Some(path) => Some(path.as_str()),
        None => None,
    };
    CardRequest {
        pool: relic_pool_entries(candidates, reward_catalog, matches),
        expected: squad.screen_order.len(),
        local_choice: local_choice(candidates, path),
        deadline_ms: READING_DEADLINE_MS,
    }
}

/// Where reward choices were read.
#[derive(Clone, Copy, Debug, PartialEq, Eq, Structural)]
pub enum RewardChoiceSource {
    Memory,
    Ocr,
}

/// What is recorded of the capture of rewards.
pub enum CaptureNote {
    /// Rewards were captured from this source, in that many milliseconds, at that time.
    Ready { source: String, elapsed_ms: u128, at: String },
    /// The capture is not as it should be, for this reason.
    Degraded { reason: String },
}

/// [`CaptureNote`] with its contents as sequences.
pub enum CaptureNoteView {
    Ready { source: Seq<char>, elapsed_ms: u128, at: Seq<char> },
    Degraded { reason: Seq<char> },
}

impl View for CaptureNote {
    type V = CaptureNoteView;

    open spec fn view(&self) -> CaptureNoteView {
        match self {
            CaptureNote::Ready { source, elapsed_ms, at } => CaptureNoteView::Ready {
                source: source@,
                elapsed_ms: *elapsed_ms,
                at: at@,
            },
            CaptureNote::Degraded { reason } => CaptureNoteView::Degraded { reason: reason@ },
        }
    }
}

/// What a source of reward choices is called.
pub open spec fn source_name(source: RewardChoiceSource) -> Seq<char> {
    match source {
        RewardChoiceSource::Memory => "memory"@,
        RewardChoiceSource::Ocr => "ocr"@,
    }
}

/// What is recorded once rewards were captured: that they were; then, if the overlay could not be
/// placed, the notice that says so; then, if the sources disagreed, that they did.
pub open spec fn captured(
    source: RewardChoiceSource,
    elapsed_ms: u128,
    now: u64,
    notice: Option<Seq<char>>,
    disagreed: bool,
) -> Seq<CaptureNoteView> {
    seq![
        CaptureNoteView::Ready { source: source_name(source), elapsed_ms, at: decimal(now as nat) },
    ] + (match notice {
        Some(reason) => seq![CaptureNoteView::Degraded { reason }],
        None => Seq::empty(),
    }) + (if disagreed {
        seq![
            CaptureNoteView::Degraded { reason: "memory and OCR reward recognition disagreed"@ },
        ]
    } else {
        Seq::empty()
    })
}

/// The views of a list of notes.
pub open spec fn note_views(notes: Seq<CaptureNote>) -> Seq<CaptureNoteView> {
    notes.map_values(|note: CaptureNote| note@)
}

/// What to record once rewards were captured, in order.
pub fn capture_notes(
    source: RewardChoiceSource,
    elapsed_ms: u128,
    now: u64,
    notice: Option<String>,
    disagreed: bool,
) -> (notes: Vec<CaptureNote>)
    ensures
        note_views(notes@) == captured(
            source,
            elapsed_ms,
            now,
            opt_text(notice),
            disagreed,
        ),
{
    let name = match source {
        RewardChoiceSource::Memory => "memory".to_owned(),
        RewardChoiceSource::Ocr => "ocr".to_owned(),
    };
    let mut notes: Vec<CaptureNote> = Vec::new();
    notes.push(CaptureNote::Ready { source: name, elapsed_ms, at: decimal_text(now) });
    if let Some(reason) = notice {
        notes.push(CaptureNote::Degraded { reason });
    }
    if disagreed {
        notes.push(
            CaptureNote::Degraded {
                reason: "memory and OCR reward recognition disagreed".to_owned(),
            },
        );
    }
    assert(note_views(notes@) =~= captured(
        source,
        elapsed_ms,
        now,
        opt_text(notice),
        disagreed,
    ));
    notes
}

/// An item of the collection and how many of it are owned.
pub struct HeldItem {
    pub name: String,
    pub quantity: u32,
}

/// A reward on screen and what is known of its worth.
pub struct RewardFigures {
    pub name: String,
    /// Its price in platinum.
    pub platinum: u32,
    /// Its worth in ducats.
    pub ducats: u32,
    /// How many are owned.
    pub owned: u32,
}

/// Whether `owned` is how many of `name` are held: as many as the first item says that `matches`
/// finds for it, and none if it finds no item.
pub open spec fn is_holding<F: Fn(&String, &String) -> bool>(
    matches: F,
    held: Seq<HeldItem>,
    name: String,
    owned: u32,
) -> bool {
    ||| owned == 0 && forall|k: int|
        0 <= k < held.len() ==> call_ensures(matches, (&(#[trigger] held[k]).name, &name), false)
    ||| exists|at: int|
        0 <= at < held.len() && owned == (#[trigger] held[at]).quantity && call_ensures(
            matches,
            (&held[at].name, &name),
            true,
        ) && forall|k: int|
            0 <= k < at ==> call_ensures(matches, (&(#[trigger] held[k]).name, &name), false)
}

/// How many of a reward are owned. `matches` says whether the name of an item and the name of a
/// reward mean the same.
pub fn owned_of<F: Fn(&String, &String) -> bool>(matches: &F, held: &[HeldItem], name: &String) -> (owned:
    u32)
    requires
        forall|a: &String, b: &String| call_requires(*matches, (a, b)),
    ensures
        is_holding(*matches, held@, *name, owned),
{
    let mut i: usize = 0;
    while i < held.len()
        invariant
            i <= held@.len(),
            forall|a: &String, b: &String| call_requires(*matches, (a, b)),
            forall|k: int|
                0 <= k < i ==> call_ensures(*matches, (&(#[trigger] held@[k]).name, name), false),
        decreases held@.len() - i,
    {
        if matches(&held[i].name, name) {
            return held[i].quantity;
        }
        i += 1;
    }
    0
}

/// The price of a reward: nothing where it is not known.
pub open spec fn price_of(prices: Map<Seq<char>, u32>, name: Seq<char>) -> u32 {
    if prices.contains_key(name) {
        prices[name]
    } else {
        0
    }
}

/// Whether these figures are those of a reward: its name, the price known for it, its worth and how
/// many are owned.
pub open spec fn are_figures_of<F: Fn(&String, &String) -> bool>(
    matches: F,
    catalog: Seq<RewardCatalogEntry>,
    held: Seq<HeldItem>,
    prices: Map<Seq<char>, u32>,
    name: String,
    figures: RewardFigures,
) -> bool {
    &&& figures.name == name
    &&& figures.platinum == price_of(prices, name@)
    &&& is_worth(matches, catalog, name, figures.ducats)
    &&& is_holding(matches, held, name, figures.owned)
}

/// Whether these are the figures of the rewards on screen, each in its place.
pub open spec fn are_all_figures<F: Fn(&String, &String) -> bool>(
    matches: F,
    catalog: Seq<RewardCatalogEntry>,
    held: Seq<HeldItem>,
    prices: Map<Seq<char>, u32>,
    observed: Seq<String>,
    figures: Seq<RewardFigures>,
) -> bool {
    figures.len() == observed.len() && forall|i: int|
        0 <= i < figures.len() ==> are_figures_of(
            matches,
            catalog,
            held,
            prices,
            observed[i],
            #[trigger] figures[i],
        )
}

/// Puts together what is known of the rewards on screen, each in its place. `matches` says whether
/// a name in the catalog or the collection and the name of a reward mean the same.
pub fn reward_figures<F: Fn(&String, &String) -> bool>(
    observed: &[String],
    catalog: &[RewardCatalogEntry],
    held: &[HeldItem],
    prices: &NameMap<u32>,
    matches: &F,
) -> (figures: Vec<RewardFigures>)
    requires
        prices.wf(),
        forall|a: &String, b: &String| call_requires(*matches, (a, b)),
    ensures
        figures@.len() == observed@.len(),
        forall|i: int|
            0 <= i < figures@.len() ==> {
                let f = #[trigger] figures@[i];
                &&& f.name == observed@[i]
                &&& f.platinum == price_of(prices@, observed@[i]@)
                &&& is_worth(*matches, catalog@, observed@[i], f.ducats)
                &&& is_holding(*matches, held@, observed@[i], f.owned)
            },
        are_all_figures(*matches, catalog@, held@, prices@, observed@, figures@),
{
    let mut figures: Vec<RewardFigures> = Vec::new();
    let mut i: usize = 0;
    while i < observed.len()
        invariant
            i <= observed@.len(),
            figures@.len() == i,
            prices.wf(),
            forall|a: &String, b: &String| call_requires(*matches, (a, b)),
            forall|k: int|
                0 <= k < i ==> {
                    let f = #[trigger] figures@[k];
                    &&& f.name == observed@[k]
                    &&& f.platinum == price_of(prices@, observed@[k]@)
                    &&& is_worth(*matches, catalog@, observed@[k], f.ducats)
                    &&& is_holding(*matches, held@, observed@[k], f.owned)
                },
        decreases observed@.len() - i,
    {
        let name = observed[i].clone();
        let platinum: u32 = match prices.get(name.as_str()) {
            Some(price) => *price,
            None => 0,
        };
        let ducats = ducats_of(matches, catalog, &name);
        let owned = owned_of(matches, held, &name);
        figures.push(RewardFigures { name, platinum, ducats, owned });
        i += 1;
    }
    figures
}

/// The number of a reward that is owned is that of the first item that matches it, whole, and none
/// if none does. `matches` is taken to answer the same way every time: yes exactly where `same`
/// holds.
pub proof fn law_holding_is_that_of_the_first_match<F: Fn(&String, &String) -> bool>(
    matches: F,
    same: spec_fn(String, String) -> bool,
    held: Seq<HeldItem>,
    name: String,
    owned: u32,
)
    requires
        is_holding(matches, held, name, owned),
        forall|a: String, b: String, yes: bool| #[trigger]
            call_ensures(matches, (&a, &b), yes) ==> yes == same(a, b),
    ensures
        forall|at: int|
            0 <= at < held.len() && same((#[trigger] held[at]).name, name) && (forall|k: int|
                0 <= k < at ==> !same((#[trigger] held[k]).name, name)) ==> owned
                == held[at].quantity,
        (forall|k: int| 0 <= k < held.len() ==> !same((#[trigger] held[k]).name, name)) ==> owned == 0,
{
    if exists|at: int|
        0 <= at < held.len() && owned == (#[trigger] held[at]).quantity && call_ensures(
            matches,
            (&held[at].name, &name),
            true,
        ) && forall|k: int|
            0 <= k < at ==> call_ensures(matches, (&(#[trigger] held[k]).name, &name), false) {
        let found = choose|at: int|
            0 <= at < held.len() && owned == (#[trigger] held[at]).quantity && call_ensures(
                matches,
                (&held[at].name, &name),
                true,
            ) && forall|k: int|
                0 <= k < at ==> call_ensures(matches, (&(#[trigger] held[k]).name, &name), false);
        assert(same(held[found].name, name));
        assert forall|k: int| 0 <= k < found implies !same((#[trigger] held[k]).name, name) by {
            assert(call_ensures(matches, (&held[k].name, &name), false));
        }
    } else {
        assert forall|k: int| 0 <= k < held.len() implies !same((#[trigger] held[k]).name, name) by {
            assert(call_ensures(matches, (&held[k].name, &name), false));
        }
    }
}

/// The price that a reward is shown with is the one that is known for it, whole, and nothing where
/// none is.
pub proof fn law_shown_price_is_the_known_one(prices: Map<Seq<char>, u32>, name: Seq<char>)
    ensures
        prices.contains_key(name) ==> price_of(prices, name) == prices[name],
        !prices.contains_key(name) ==> price_of(prices, name) == 0,
{
}

/// The first note on a capture is that it succeeded, with its source, its time and when it was. A
/// notice on the overlay and a disagreement each add one note, in this order, and nothing else does.
pub proof fn law_capture_is_noted_with_its_troubles(
    source: RewardChoiceSource,
    elapsed_ms: u128,
    now: u64,
    notice: Option<Seq<char>>,
    disagreed: bool,
)
    ensures
        ({
            let notes = captured(source, elapsed_ms, now, notice, disagreed);
            let troubles: int = (if notice is Some {
                1int
            } else {
                0int
            }) + (if disagreed {
                1int
            } else {
                0int
            });
            &&& notes.len() == 1 + troubles
            &&& notes[0] is Ready
            &&& notes[0]->elapsed_ms == elapsed_ms
            &&& number(notes[0]->at) == now
            &&& source is Memory ==> notes[0]->source == "memory"@
            &&& source is Ocr ==> notes[0]->source == "ocr"@
            &&& notice is Some ==> notes[1] == (CaptureNoteView::Degraded { reason: notice->0 })
            &&& disagreed ==> notes.last() == (CaptureNoteView::Degraded {
                reason: "memory and OCR reward recognition disagreed"@,
            })
        }),
{
    law_decimal_reads_back(now as nat);
}

} // verus!
