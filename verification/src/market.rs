//! The linked warframe.market account.
//!
//! Asking the market takes long, and in the meantime the player can sign out or change an order.
//! Each such change starts a new generation, and what was asked for in an earlier one is dropped
//! when it arrives.

use vstd::prelude::*;

use crate::generation::following;
#[allow(unused_imports)]
use crate::generation::{generation_after, law_changes_lead_elsewhere, next_generation};

verus! {

/// How the account stands.
#[derive(Clone, Copy, Debug, PartialEq, Eq, Structural)]
pub enum LinkState {
    /// No account is linked.
    Unlinked,
    /// An account is linked.
    Linked,
    /// An account was linked, and the market no longer accepts its token.
    NeedsRelink,
}

/// Why the market could not be asked.
#[derive(Debug)]
pub enum MarketError {
    /// It does not accept the token.
    Unauthorized,
    /// It cannot be reached.
    Unreachable,
    /// Anything else, in words.
    Other { message: String },
}

/// The account as it is shown.
#[derive(Clone, Copy, Debug, PartialEq, Eq, Structural)]
pub struct MarketAccount {
    /// How it stands.
    pub link: LinkState,
    /// Counts the changes to it.
    pub generation: u64,
    /// Whether the market's items are at hand.
    pub items_kept: bool,
}

/// What fetching the account came to.
pub enum FetchOutcome {
    /// There is no token to fetch it with.
    NoToken,
    /// No connection could be made.
    NoTransport,
    /// The market could not be asked.
    Failed { error: MarketError },
    /// The account was fetched and stands like this.
    Fetched { link: LinkState },
}

/// What is to be done about a fetched account.
pub enum AccountStep {
    /// Nothing: what is shown and kept is newer.
    Keep,
    /// The account is shown as it stands now.
    Show { link: LinkState },
    /// The failure is recorded.
    Fail { error: MarketError },
    /// The items and the renewed token are kept; the account is shown if that succeeds.
    Adopt { link: LinkState },
}

/// What is to be done about a fetched account, if it is not too late for it.
pub open spec fn step_for(outcome: FetchOutcome) -> AccountStep {
    match outcome {
        FetchOutcome::NoToken => AccountStep::Show { link: LinkState::Unlinked },
        FetchOutcome::NoTransport => AccountStep::Fail { error: MarketError::Unreachable },
        FetchOutcome::Failed { error } => AccountStep::Fail { error },
        FetchOutcome::Fetched { link } => AccountStep::Adopt { link },
    }
}

/// The account and what is to be done about it after it was fetched for `generation`.
pub open spec fn fetch_settled(account: MarketAccount, generation: u64, outcome: FetchOutcome) -> (
    MarketAccount,
    AccountStep,
) {
    if account.generation != generation {
        (account, AccountStep::Keep)
    } else {
        (
            MarketAccount {
                link: if outcome is NoToken {
                    LinkState::Unlinked
                } else {
                    account.link
                },
                items_kept: account.items_kept || outcome is Fetched,
                ..account
            },
            step_for(outcome),
        )
    }
}

/// The account and what is to be done about it after its renewed token was kept or was not.
pub open spec fn adoption_settled(
    account: MarketAccount,
    link: LinkState,
    failure: Option<MarketError>,
) -> (MarketAccount, AccountStep) {
    match failure {
        None => (MarketAccount { link, ..account }, AccountStep::Show { link }),
        Some(error) => (account, AccountStep::Fail { error }),
    }
}

/// What writing to the account came to.
pub enum WriteOutcome {
    /// There is no token to write with.
    NoToken,
    /// No connection could be made.
    NoTransport,
    /// The market did not do it.
    Failed { error: MarketError },
    /// It was done, and this is the renewed token.
    Written { renewed: String },
}

/// The account after the player has signed out.
pub open spec fn signed_out(account: MarketAccount) -> MarketAccount {
    MarketAccount {
        link: LinkState::Unlinked,
        generation: next_generation(account.generation),
        items_kept: false,
    }
}

/// The account after something was written to it.
pub open spec fn written(account: MarketAccount) -> MarketAccount {
    MarketAccount { generation: next_generation(account.generation), ..account }
}

impl MarketAccount {
    /// No account is linked yet.
    pub fn new() -> (account: Self)
        ensures
            account == (MarketAccount {
                link: LinkState::Unlinked,
                generation: 0,
                items_kept: false,
            }),
    {
        MarketAccount { link: LinkState::Unlinked, generation: 0, items_kept: false }
    }

    /// How the account stands, if what was asked for in `generation` comes too late for it and is to
    /// be dropped.
    pub fn discard_if_stale(&self, generation: u64) -> (shown: Option<LinkState>)
        ensures
            shown == (if self.generation == generation {
                None
            } else {
                Some(self.link)
            }),
    {
        if self.generation == generation {
            return None;
        }
        Some(self.link)
    }

    /// Takes in what fetching the account for `generation` came to.
    pub fn settle_fetch(&mut self, generation: u64, outcome: FetchOutcome) -> (step: AccountStep)
        ensures
            (*final(self), step) == fetch_settled(*old(self), generation, outcome),
    {
        if self.discard_if_stale(generation).is_some() {
            return AccountStep::Keep;
        }
        match outcome {
            FetchOutcome::NoToken => {
                self.link = LinkState::Unlinked;
                AccountStep::Show { link: LinkState::Unlinked }
            },
            FetchOutcome::NoTransport => AccountStep::Fail { error: MarketError::Unreachable },
            FetchOutcome::Failed { error } => AccountStep::Fail { error },
            FetchOutcome::Fetched { link } => {
                self.items_kept = true;
                AccountStep::Adopt { link }
            },
        }
    }

    /// Takes in whether the renewed token of an account that stands like `link` could be kept. Where
    /// it could not, that is a failure, and the account is shown as before.
    pub fn settle_adoption(&mut self, link: LinkState, failure: Option<MarketError>) -> (step:
        AccountStep)
        ensures
            (*final(self), step) == adoption_settled(*old(self), link, failure),
    {
        match failure {
            None => {
                self.link = link;
                AccountStep::Show { link }
            },
            Some(error) => AccountStep::Fail { error },
        }
    }

    /// Takes in what writing to the account came to. What was written starts a new generation, and
    /// the renewed token is to be kept; otherwise this says why nothing was written.
    pub fn settle_write(&mut self, outcome: WriteOutcome) -> (renewed: Result<String, MarketError>)
        ensures
            *final(self) == (if outcome is Written {
                written(*old(self))
            } else {
                *old(self)
            }),
            renewed == (match outcome {
                WriteOutcome::NoToken => Err::<String, MarketError>(MarketError::Unauthorized),
                WriteOutcome::NoTransport => Err(MarketError::Unreachable),
                WriteOutcome::Failed { error } => Err(error),
                WriteOutcome::Written { renewed } => Ok(renewed),
            }),
    {
        match outcome {
            WriteOutcome::NoToken => Err(MarketError::Unauthorized),
            WriteOutcome::NoTransport => Err(MarketError::Unreachable),
            WriteOutcome::Failed { error } => Err(error),
            WriteOutcome::Written { renewed } => {
                self.generation = following(self.generation);
                Ok(renewed)
            },
        }
    }

    /// The player has signed out.
    pub fn sign_out(&mut self)
        ensures
            *final(self) == signed_out(*old(self)),
    {
        self.link = LinkState::Unlinked;
        self.generation = following(self.generation);
        self.items_kept = false;
    }
}

/// What listing the account's orders came to: how the account stands and the token to go on with,
/// or why the market could not be asked. A token that the market refuses is no failure to ask: the
/// account has to be linked anew, and the token stays as it was.
pub open spec fn listed(token: String, listing: Result<String, MarketError>) -> Result<
    (LinkState, String),
    MarketError,
> {
    match listing {
        Ok(renewed) => Ok((LinkState::Linked, renewed)),
        Err(MarketError::Unauthorized) => Ok((LinkState::NeedsRelink, token)),
        Err(error) => Err(error),
    }
}

/// Takes in what listing the account's orders with `token` came to: the renewed token or an error.
pub fn settle_listing(token: String, listing: Result<String, MarketError>) -> (outcome: Result<
    (LinkState, String),
    MarketError,
>)
    ensures
        outcome == listed(token, listing),
{
    match listing {
        Ok(renewed) => Ok((LinkState::Linked, renewed)),
        Err(MarketError::Unauthorized) => Ok((LinkState::NeedsRelink, token)),
        Err(error) => Err(error),
    }
}

/// What has happened so far while the account is fetched.
pub enum FetchEvent {
    /// Fetching begins. `items_kept` says whether the market's items are at hand from before.
    Begun { items_kept: bool },
    /// The items were loaded.
    ItemsLoaded,
    /// The items could not be loaded.
    ItemsFailed { error: MarketError },
    /// The orders were listed, which gave the renewed token, or could not be.
    Listed { listing: Result<String, MarketError> },
}

/// What is done next while the account is fetched.
pub enum FetchStep {
    /// The market's items are loaded.
    LoadItems,
    /// The account's orders are listed.
    ListOrders,
    /// Nothing more: this is how the account stands and the token to go on with, or why the market
    /// could not be asked.
    Done { outcome: Result<(LinkState, String), MarketError> },
}

/// What is done next while the account is fetched with `token`. Items that are at hand are not
/// loaded again.
pub open spec fn fetch_answer(token: String, event: FetchEvent) -> FetchStep {
    match event {
        FetchEvent::Begun { items_kept } => if items_kept {
            FetchStep::ListOrders
        } else {
            FetchStep::LoadItems
        },
        FetchEvent::ItemsLoaded => FetchStep::ListOrders,
        FetchEvent::ItemsFailed { error } => FetchStep::Done { outcome: Err(error) },
        FetchEvent::Listed { listing } => FetchStep::Done { outcome: listed(token, listing) },
    }
}

/// Decides what is done next while the account is fetched with `token`.
pub fn fetch_step(token: String, event: FetchEvent) -> (step: FetchStep)
    ensures
        step == fetch_answer(token, event),
{
    match event {
        FetchEvent::Begun { items_kept } => {
            if items_kept {
                FetchStep::ListOrders
            } else {
                FetchStep::LoadItems
            }
        },
        FetchEvent::ItemsLoaded => FetchStep::ListOrders,
        FetchEvent::ItemsFailed { error } => FetchStep::Done { outcome: Err(error) },
        FetchEvent::Listed { listing } => FetchStep::Done {
            outcome: settle_listing(token, listing),
        },
    }
}

/// Whether carrying out a step can lead to this event.
pub open spec fn fetch_leads_to(step: FetchStep, event: FetchEvent) -> bool {
    match step {
        FetchStep::LoadItems => event is ItemsLoaded || event is ItemsFailed,
        FetchStep::ListOrders => event is Listed,
        FetchStep::Done { .. } => false,
    }
}

/// Whether these events are one fetch, as far as it has come: each step is carried out and leads to
/// the next event.
pub open spec fn is_fetch(token: String, events: Seq<FetchEvent>) -> bool {
    &&& events.len() > 0
    &&& events[0] is Begun
    &&& forall|i: int, j: int|
        0 <= i && j == i + 1 && j < events.len() ==> fetch_leads_to(
            fetch_answer(token, #[trigger] events[i]),
            #[trigger] events[j],
        )
}

proof fn lemma_fetch(token: String, events: Seq<FetchEvent>)
    requires
        is_fetch(token, events),
    ensures
        events.len() <= 3,
        events.len() > 1 ==> fetch_leads_to(fetch_answer(token, events[0]), events[1]),
        events.len() > 2 ==> events[1] is ItemsLoaded && events[2] is Listed,
{
    if events.len() > 1 {
        assert(fetch_leads_to(fetch_answer(token, events[0]), events[1]));
    }
    if events.len() > 2 {
        assert(fetch_leads_to(fetch_answer(token, events[1]), events[2]));
    }
    if events.len() > 3 {
        assert(fetch_leads_to(fetch_answer(token, events[2]), events[3]));
    }
}

/// The market's items are loaded at most once, at the beginning, and not at all if they are at hand;
/// orders are listed only once the items are at hand.
pub proof fn law_items_are_loaded_once(token: String, events: Seq<FetchEvent>, i: int)
    requires
        is_fetch(token, events),
        0 <= i < events.len(),
    ensures
        fetch_answer(token, events[i]) is LoadItems <==> i == 0 && !events[0]->items_kept,
        fetch_answer(token, events[i]) is ListOrders ==> (i == 0 && events[0]->items_kept) || (i == 1
            && events[1] is ItemsLoaded),
{
    lemma_fetch(token, events);
}

/// What has happened so far while something is written to the account.
pub enum WriteEvent {
    /// Writing came to this.
    Ended { outcome: WriteOutcome },
    /// The renewed token was kept, or could not be.
    Adopted { failure: Option<MarketError> },
}

/// What is done next while something is written to the account.
pub enum WriteStep {
    /// Nothing was written, for this reason.
    Refuse { error: MarketError },
    /// The renewed token is kept.
    Adopt { renewed: String },
    /// The account is fetched anew.
    Refresh,
}

/// What is done next while something is written to the account. Once it was written the account is
/// fetched anew, even if the renewed token could not be kept: what is shown would otherwise be what
/// was there before, and invite the player to write it again.
pub open spec fn write_answer(event: WriteEvent) -> WriteStep {
    match event {
        WriteEvent::Ended { outcome } => match outcome {
            WriteOutcome::NoToken => WriteStep::Refuse { error: MarketError::Unauthorized },
            WriteOutcome::NoTransport => WriteStep::Refuse { error: MarketError::Unreachable },
            WriteOutcome::Failed { error } => WriteStep::Refuse { error },
            WriteOutcome::Written { renewed } => WriteStep::Adopt { renewed },
        },
        WriteEvent::Adopted { .. } => WriteStep::Refresh,
    }
}

/// Whether an event says that something was written.
pub open spec fn says_written(event: WriteEvent) -> bool {
    event matches WriteEvent::Ended { outcome } && outcome is Written
}

/// The account after an event of writing to it.
pub open spec fn after_write_event(account: MarketAccount, event: WriteEvent) -> MarketAccount {
    if says_written(event) {
        written(account)
    } else {
        account
    }
}

impl MarketAccount {
    /// Takes in what has happened while something is written to the account, and decides what is
    /// done next.
    pub fn write_step(&mut self, event: WriteEvent) -> (step: WriteStep)
        ensures
            *final(self) == after_write_event(*old(self), event),
            step == write_answer(event),
    {
        match event {
            WriteEvent::Ended { outcome } => match self.settle_write(outcome) {
                Ok(renewed) => WriteStep::Adopt { renewed },
                Err(error) => WriteStep::Refuse { error },
            },
            WriteEvent::Adopted { .. } => WriteStep::Refresh,
        }
    }
}

/// After something was written the account is fetched anew, whether or not the renewed token could
/// be kept, and whatever fetch was under way before comes too late. After nothing was written no
/// token is kept and nothing is fetched.
pub proof fn law_writing_is_followed_by_fetching(
    account: MarketAccount,
    outcome: WriteOutcome,
    failure: Option<MarketError>,
    late: FetchOutcome,
)
    ensures
        write_answer(WriteEvent::Ended { outcome }) is Adopt <==> outcome is Written,
        write_answer(WriteEvent::Ended { outcome }) is Refuse <==> !(outcome is Written),
        write_answer(WriteEvent::Adopted { failure }) is Refresh,
        outcome is Written ==> {
            let after = after_write_event(
                after_write_event(account, WriteEvent::Ended { outcome }),
                WriteEvent::Adopted { failure },
            );
            fetch_settled(after, account.generation, late) == (after, AccountStep::Keep)
        },
{
}

/// What is done about an order that the player asks for.
pub enum OrderStep {
    /// It is written, with this quantity where the device derives one.
    Write { quantity: Option<u32> },
    /// It is refused, for this reason, and nothing is written.
    Refuse { message: String },
}

/// Decides what is done about an order that the player asks for, given whether it is allowed.
pub fn order_step(allowed: Result<Option<u32>, String>) -> (step: OrderStep)
    ensures
        step == (match allowed {
            Ok(quantity) => OrderStep::Write { quantity },
            Err(message) => OrderStep::Refuse { message },
        }),
{
    match allowed {
        Ok(quantity) => OrderStep::Write { quantity },
        Err(message) => OrderStep::Refuse { message },
    }
}

/// Why nothing can be listed, if the market's items are not at hand.
pub fn items_missing(items_kept: bool) -> (error: Option<MarketError>)
    ensures
        error == (if items_kept {
            None
        } else {
            Some(MarketError::Unreachable)
        }),
{
    if items_kept {
        None
    } else {
        Some(MarketError::Unreachable)
    }
}

/// One thing that happens to the account.
pub enum AccountChange {
    /// The player signs out.
    SignOut,
    /// Something is written.
    Write,
    /// A fetch is settled.
    Settle { generation: u64, outcome: FetchOutcome },
    /// A renewed token is kept or not.
    Adopt { link: LinkState, failure: Option<MarketError> },
}

/// The account after one change.
pub open spec fn changed(account: MarketAccount, change: AccountChange) -> MarketAccount {
    match change {
        AccountChange::SignOut => signed_out(account),
        AccountChange::Write => written(account),
        AccountChange::Settle { generation, outcome } => fetch_settled(
            account,
            generation,
            outcome,
        ).0,
        AccountChange::Adopt { link, failure } => adoption_settled(account, link, failure).0,
    }
}

/// The account after these changes.
pub open spec fn changed_by(account: MarketAccount, changes: Seq<AccountChange>) -> MarketAccount
    decreases changes.len(),
{
    if changes.len() == 0 {
        account
    } else {
        changed(changed_by(account, changes.drop_last()), changes.last())
    }
}

/// How many of these changes are the player's: signing out and writing.
pub open spec fn players_changes(changes: Seq<AccountChange>) -> nat
    decreases changes.len(),
{
    if changes.len() == 0 {
        0
    } else {
        players_changes(changes.drop_last()) + (if changes.last() is SignOut || changes.last() is Write {
            1nat
        } else {
            0nat
        })
    }
}

proof fn lemma_generation_counts_changes(account: MarketAccount, changes: Seq<AccountChange>)
    ensures
        changed_by(account, changes).generation == generation_after(
            account.generation,
            players_changes(changes),
        ),
    decreases changes.len(),
{
    if changes.len() > 0 {
        lemma_generation_counts_changes(account, changes.drop_last());
    }
}

/// A fetch that was under way when the player signed out or wrote something changes nothing when it
/// arrives, whatever it found, unless there were as many such changes as there are generations.
pub proof fn law_late_fetch_changes_nothing(
    account: MarketAccount,
    changes: Seq<AccountChange>,
    outcome: FetchOutcome,
)
    requires
        0 < players_changes(changes) <= u64::MAX,
    ensures
        fetch_settled(changed_by(account, changes), account.generation, outcome) == (
            changed_by(account, changes),
            AccountStep::Keep,
        ),
{
    lemma_generation_counts_changes(account, changes);
    law_changes_lead_elsewhere(account.generation, players_changes(changes));
}

/// A fetch that nothing overtook is taken in.
pub proof fn law_timely_fetch_is_taken_in(
    account: MarketAccount,
    changes: Seq<AccountChange>,
    outcome: FetchOutcome,
)
    requires
        players_changes(changes) == 0,
    ensures
        fetch_settled(changed_by(account, changes), account.generation, outcome).1 == step_for(
            outcome,
        ),
{
    lemma_generation_counts_changes(account, changes);
}

/// An account has to be linked anew exactly if the market refused its token, and the token is then
/// the one from before. It is linked exactly if the orders were listed, with the renewed token. Every
/// other error comes out as that same error.
pub proof fn law_relinking_is_for_refused_tokens(token: String, listing: Result<String, MarketError>)
    ensures
        listed(token, listing) matches Ok((link, kept)) ==> {
            &&& link is NeedsRelink <==> listing is Err && listing->Err_0 is Unauthorized
            &&& link is NeedsRelink ==> kept == token
            &&& link is Linked <==> listing is Ok
            &&& link is Linked ==> kept == listing->Ok_0
        },
        listed(token, listing) is Err <==> listing is Err && !(listing->Err_0 is Unauthorized),
        listed(token, listing) is Err ==> listed(token, listing)->Err_0 == listing->Err_0,
{
}

/// What a fetch comes to is dropped exactly if it comes too late. Otherwise an account without a
/// token is shown as unlinked, one that was fetched goes on to have its token kept, standing as it
/// was found, and whatever failed is recorded as that failure.
pub proof fn law_fetch_is_settled_by_what_it_found(
    account: MarketAccount,
    generation: u64,
    outcome: FetchOutcome,
)
    ensures
        ({
            let (after, step) = fetch_settled(account, generation, outcome);
            let timely = account.generation == generation;
            &&& step is Keep <==> !timely
            &&& step is Show <==> timely && outcome is NoToken
            &&& step matches AccountStep::Show { link } ==> link is Unlinked
            &&& step is Adopt <==> timely && outcome is Fetched
            &&& step matches AccountStep::Adopt { link } ==> outcome matches FetchOutcome::Fetched {
                link: found,
            } && link == found
            &&& step is Fail <==> timely && (outcome is NoTransport || outcome is Failed)
            &&& step matches AccountStep::Fail { error } ==> {
                &&& outcome is NoTransport ==> error is Unreachable
                &&& outcome matches FetchOutcome::Failed { error: found } ==> error == found
            }
            &&& after.generation == account.generation
            &&& after.items_kept <==> account.items_kept || (timely && outcome is Fetched)
            &&& timely && outcome is NoToken ==> after.link is Unlinked
            &&& !(timely && outcome is NoToken) ==> after.link == account.link
        }),
{
}

/// A fetched account is shown, standing as it was found, exactly if its renewed token could be kept.
/// Otherwise that failure is recorded, and the account is shown as before.
pub proof fn law_account_is_shown_once_its_token_is_kept(
    account: MarketAccount,
    link: LinkState,
    failure: Option<MarketError>,
)
    ensures
        ({
            let (after, step) = adoption_settled(account, link, failure);
            &&& failure is None ==> step == (AccountStep::Show { link }) && after.link == link
            &&& failure is Some ==> step == (AccountStep::Fail { error: failure->0 })
                && after.link == account.link
            &&& after.generation == account.generation
            &&& after.items_kept == account.items_kept
        }),
{
}

/// Signing out leaves nothing of the account: it is unlinked and no items are kept. Writing leaves
/// it as it stands. Both make what was asked for before come too late.
pub proof fn law_players_changes_overtake(account: MarketAccount)
    ensures
        signed_out(account).link is Unlinked,
        !signed_out(account).items_kept,
        signed_out(account).generation != account.generation,
        written(account).link == account.link,
        written(account).items_kept == account.items_kept,
        written(account).generation != account.generation,
{
}

/// A fetch is over exactly when the orders were listed or the items could not be loaded. It then
/// came to the error that the items came to, or to what the listing came to.
pub proof fn law_fetch_ends_with_its_last_answer(token: String, event: FetchEvent)
    ensures
        fetch_answer(token, event) is Done <==> event is Listed || event is ItemsFailed,
        event matches FetchEvent::ItemsFailed { error } ==> fetch_answer(token, event) == (
        FetchStep::Done { outcome: Err::<(LinkState, String), MarketError>(error) }),
        event matches FetchEvent::Listed { listing: Ok(renewed) } ==> fetch_answer(token, event) == (
        FetchStep::Done { outcome: Ok::<(LinkState, String), MarketError>((LinkState::Linked, renewed)) }),
        event matches FetchEvent::Listed { listing: Err(error) } ==> fetch_answer(token, event) == (
        FetchStep::Done {
            outcome: if error is Unauthorized {
                Ok::<(LinkState, String), MarketError>((LinkState::NeedsRelink, token))
            } else {
                Err(error)
            },
        }),
{
}

/// The token that is kept after a write is the one it gave, and a write that did not happen is
/// refused with its own reason. Only a write that happened changes the account.
pub proof fn law_writing_hands_on_its_outcome(account: MarketAccount, outcome: WriteOutcome)
    ensures
        ({
            let event = WriteEvent::Ended { outcome };
            let step = write_answer(event);
            &&& outcome matches WriteOutcome::Written { renewed } ==> step == (WriteStep::Adopt {
                renewed,
            })
            &&& outcome matches WriteOutcome::Failed { error } ==> step == (WriteStep::Refuse {
                error,
            })
            &&& outcome is NoToken ==> step is Refuse && step->error is Unauthorized
            &&& outcome is NoTransport ==> step is Refuse && step->error is Unreachable
            &&& after_write_event(account, event).generation != account.generation <==> outcome is Written
            &&& after_write_event(account, event).link == account.link
            &&& after_write_event(account, event).items_kept == account.items_kept
        }),
{
}

} // verus!
