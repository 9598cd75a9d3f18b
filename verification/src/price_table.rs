//! Putting a new table of prices in the place of the one that is served.
//!
//! A new table comes of a download or of prices that the player had checked. Either way it takes
//! over what the served table holds at that moment, is saved, and is then served itself. The shared
//! state is held from taking over to serving, so that no other table comes in between; a download
//! happens before, with nothing held.

use vstd::prelude::*;

use crate::prices::{dump_note, DumpOutcome, Persisted, PriceNote};
#[allow(unused_imports)]
use crate::prices::PriceNoteView;

verus! {

/// What has happened to a new table so far.
pub enum TableEvent {
    /// There is nowhere to download prices from.
    NoSource,
    /// The day's prices could not be read.
    Unread,
    /// The day's prices were downloaded.
    Downloaded,
    /// The player had prices checked. `served` says whether there is a table to put them into.
    Checked { served: bool },
    /// The new table has taken over the served one.
    Folded,
    /// The new table was saved, or could not be.
    Stored { table: Persisted },
}

/// What is done about a new table next.
pub enum TableAction {
    /// Nothing: no table is saved or served.
    Rest,
    /// This is recorded, and no table is saved or served.
    Record { note: PriceNote },
    /// The new table takes over what is served now: downloaded prices adopt the served table, if
    /// there is one; checked prices go into a copy of it.
    FoldServed,
    /// The new table is saved.
    Store,
    /// The new table is served, whether or not it was saved.
    Publish { table: Persisted },
}

/// [`TableAction`] with its note as sequences.
pub enum TableActionView {
    Rest,
    Record { note: PriceNoteView },
    FoldServed,
    Store,
    Publish { table: Persisted },
}

impl View for TableAction {
    type V = TableActionView;

    open spec fn view(&self) -> TableActionView {
        match self {
            TableAction::Rest => TableActionView::Rest,
            TableAction::Record { note } => TableActionView::Record { note: note@ },
            TableAction::FoldServed => TableActionView::FoldServed,
            TableAction::Store => TableActionView::Store,
            TableAction::Publish { table } => TableActionView::Publish { table: *table },
        }
    }
}

/// What is done about a new table after this event.
pub open spec fn answer(event: TableEvent) -> TableActionView {
    match event {
        TableEvent::NoSource => TableActionView::Rest,
        TableEvent::Unread => TableActionView::Record {
            note: PriceNoteView::CollectionDegraded {
                reason: "No warframe.market price dump could be read"@,
            },
        },
        TableEvent::Downloaded => TableActionView::FoldServed,
        TableEvent::Checked { served } => if served {
            TableActionView::FoldServed
        } else {
            TableActionView::Rest
        },
        TableEvent::Folded => TableActionView::Store,
        TableEvent::Stored { table } => TableActionView::Publish { table },
    }
}

/// Decides what is done about a new table next.
pub fn table_step(event: TableEvent) -> (action: TableAction)
    ensures
        action@ == answer(event),
{
    match event {
        TableEvent::NoSource => TableAction::Rest,
        TableEvent::Unread => TableAction::Record { note: dump_note(DumpOutcome::Unread) },
        TableEvent::Downloaded => TableAction::FoldServed,
        TableEvent::Checked { served } => {
            if served {
                TableAction::FoldServed
            } else {
                TableAction::Rest
            }
        },
        TableEvent::Folded => TableAction::Store,
        TableEvent::Stored { table } => TableAction::Publish { table },
    }
}

/// Whether an event begins the way of a new table.
pub open spec fn begins(event: TableEvent) -> bool {
    event is NoSource || event is Unread || event is Downloaded || event is Checked
}

/// Whether carrying out an action can lead to this event.
pub open spec fn leads_to(action: TableActionView, event: TableEvent) -> bool {
    match action {
        TableActionView::FoldServed => event is Folded,
        TableActionView::Store => event is Stored,
        _ => false,
    }
}

/// Whether these events are the way of one new table, as far as it has come: each action is carried
/// out and leads to the next event.
pub open spec fn is_way(events: Seq<TableEvent>) -> bool {
    &&& events.len() > 0
    &&& begins(events[0])
    &&& forall|i: int, j: int|
        0 <= i && j == i + 1 && j < events.len() ==> leads_to(
            answer(#[trigger] events[i]),
            #[trigger] events[j],
        )
}

/// Whether the way of a new table is at its end: the last action leads to nothing more.
pub open spec fn is_at_end(events: Seq<TableEvent>) -> bool {
    let last = answer(events.last());
    !(last is FoldServed) && !(last is Store)
}

/// A way has at most three events, each in its place.
proof fn lemma_way(events: Seq<TableEvent>)
    requires
        is_way(events),
    ensures
        events.len() <= 3,
        events.len() > 1 ==> events[1] is Folded && answer(events[0]) is FoldServed,
        events.len() > 2 ==> events[2] is Stored,
{
    if events.len() > 1 {
        assert(leads_to(answer(events[0]), events[1]));
    }
    if events.len() > 2 {
        assert(leads_to(answer(events[1]), events[2]));
    }
    if events.len() > 3 {
        assert(leads_to(answer(events[2]), events[3]));
    }
}

/// A table is saved only right after it took over what was served, and it did that only after it
/// was downloaded or its prices were checked. So what came into the served table meanwhile is not
/// lost.
pub proof fn law_saved_table_took_over_the_served_one(events: Seq<TableEvent>, i: int)
    requires
        is_way(events),
        0 <= i < events.len(),
        answer(events[i]) is Store,
    ensures
        i > 0,
        events[i] is Folded,
        answer(events[i - 1]) is FoldServed,
        events[0] is Downloaded || (events[0] matches TableEvent::Checked { served } && served),
{
    lemma_way(events);
}

/// A table that was saved, or could not be, is served next, and nothing is served in any other way.
pub proof fn law_saving_is_followed_by_serving(events: Seq<TableEvent>, i: int)
    requires
        is_way(events),
        0 <= i < events.len(),
    ensures
        answer(events[i]) is Store && is_at_end(events) ==> i + 1 < events.len() && (events[i + 1] matches
            TableEvent::Stored { table } && answer(events[i + 1]) == (TableActionView::Publish { table })),
        answer(events[i]) is Publish ==> i > 0 && answer(events[i - 1]) is Store,
{
    lemma_way(events);
}

/// Checked prices without a table to put them into, and a download that came to nothing, change
/// nothing: no table is saved and none is served.
pub proof fn law_nothing_to_serve_changes_nothing(events: Seq<TableEvent>)
    requires
        is_way(events),
        events[0] is NoSource || events[0] is Unread || (events[0] matches TableEvent::Checked {
            served,
        } && !served),
    ensures
        events.len() == 1,
        answer(events[0]) is Rest || answer(events[0]) is Record,
{
    lemma_way(events);
}

/// Each action has its events: a new table takes over the served one exactly if prices were
/// downloaded, or were checked while a table is served; it is saved exactly once it took over; it is
/// served exactly once saving was tried, and it is the one that saving was tried on.
pub proof fn law_actions_have_their_events(event: TableEvent)
    ensures
        answer(event) is FoldServed <==> event is Downloaded || (event is Checked && event->served),
        answer(event) is Store <==> event is Folded,
        answer(event) is Publish <==> event is Stored,
        event matches TableEvent::Stored { table } ==> answer(event) == (TableActionView::Publish {
            table,
        }),
        answer(event) is Rest <==> event is NoSource || (event is Checked && !event->served),
        answer(event) is Record <==> event is Unread,
        answer(event) matches TableActionView::Record { note } ==> note == (
        PriceNoteView::CollectionDegraded { reason: "No warframe.market price dump could be read"@ }),
{
}

} // verus!
