//! What the operations on the market account and on presence do, said of what they can return.

use vstd::prelude::*;

#[allow(unused_imports)]
use crate::generation::following;
#[allow(unused_imports)]
use crate::market::{
    fetch_step, items_missing, order_step, settle_listing, AccountStep, FetchEvent, FetchOutcome,
    FetchStep, LinkState, MarketAccount, MarketError, OrderStep, WriteEvent, WriteOutcome, WriteStep,
};
#[allow(unused_imports)]
use crate::presence::{auto_presence, Presence, PresenceControl, PresenceError, PresenceStep};

verus! {

/// A change leads to the next generation, and from the last one to the first.
pub proof fn law_generations_follow_each_other(generation: u64, next: u64)
    requires
        call_ensures(following, (generation,), next),
    ensures
        generation < u64::MAX ==> next == generation + 1,
        generation == u64::MAX ==> next == 0,
{
}

/// What was asked for in another generation is dropped for how the account stands now; what was
/// asked for in this one is not.
pub proof fn law_what_comes_late_is_dropped(
    account: MarketAccount,
    generation: u64,
    shown: Option<LinkState>,
)
    requires
        call_ensures(MarketAccount::discard_if_stale, (&account, generation), shown),
    ensures
        shown is Some <==> account.generation != generation,
        shown is Some ==> shown->0 == account.link,
{
}

/// A fetch that comes late changes nothing. One that is timely shows the account as unlinked where
/// there was no token, goes on to keep the renewed token where the account was fetched, with the
/// items then kept, and fails with its own error otherwise.
pub proof fn law_fetch_is_taken_in(
    account: &mut MarketAccount,
    generation: u64,
    outcome: FetchOutcome,
    step: AccountStep,
)
    requires
        call_ensures(MarketAccount::settle_fetch, (account, generation, outcome), step),
    ensures
        old(account).generation != generation ==> step is Keep && *final(account) == *old(account),
        old(account).generation == generation ==> {
            &&& outcome is NoToken ==> step == (AccountStep::Show { link: LinkState::Unlinked })
                && final(account).link is Unlinked && final(account).items_kept == old(
                account,
            ).items_kept
            &&& outcome is NoTransport ==> step == (AccountStep::Fail {
                error: MarketError::Unreachable,
            }) && *final(account) == *old(account)
            &&& outcome matches FetchOutcome::Failed { error } ==> step == (AccountStep::Fail { error })
                && *final(account) == *old(account)
            &&& outcome matches FetchOutcome::Fetched { link } ==> step == (AccountStep::Adopt { link })
                && final(account).items_kept && final(account).link == old(account).link
        },
        final(account).generation == old(account).generation,
{
}

/// An account is shown as it was found exactly if its renewed token was kept; otherwise it is shown
/// as before, and the failure is handed on.
pub proof fn law_adopted_account_is_shown(
    account: &mut MarketAccount,
    link: LinkState,
    failure: Option<MarketError>,
    step: AccountStep,
)
    requires
        call_ensures(MarketAccount::settle_adoption, (account, link, failure), step),
    ensures
        failure is None ==> step == (AccountStep::Show { link }) && final(account).link == link,
        failure matches Some(error) ==> step == (AccountStep::Fail { error }) && final(account).link
            == old(account).link,
        final(account).generation == old(account).generation,
        final(account).items_kept == old(account).items_kept,
{
}

/// A write gives its renewed token or its own error. Only one that was done makes what was asked for
/// before come late, and nothing else of the account changes.
pub proof fn law_write_counts_once_done(
    account: &mut MarketAccount,
    outcome: WriteOutcome,
    renewed: Result<String, MarketError>,
)
    requires
        call_ensures(MarketAccount::settle_write, (account, outcome), renewed),
    ensures
        renewed is Ok <==> outcome is Written,
        outcome matches WriteOutcome::Written { renewed: token } ==> renewed->Ok_0 == token
            && final(account).generation != old(account).generation,
        outcome is NoToken ==> renewed->Err_0 is Unauthorized,
        outcome is NoTransport ==> renewed->Err_0 is Unreachable,
        outcome matches WriteOutcome::Failed { error } ==> renewed->Err_0 == error,
        !(outcome is Written) ==> final(account).generation == old(account).generation,
        final(account).link == old(account).link,
        final(account).items_kept == old(account).items_kept,
{
}

/// What comes of writing leads on: to keeping the renewed token once it was done, to refusing with its
/// own error where it was not, and to fetching the account anew once the token was kept or was not.
pub proof fn law_writing_leads_on(account: &mut MarketAccount, event: WriteEvent, step: WriteStep)
    requires
        call_ensures(MarketAccount::write_step, (account, event), step),
    ensures
        event matches WriteEvent::Ended { outcome: WriteOutcome::Written { renewed } } ==> step == (
        WriteStep::Adopt { renewed }) && final(account).generation != old(account).generation,
        event matches WriteEvent::Ended { outcome: WriteOutcome::Failed { error } } ==> step == (
        WriteStep::Refuse { error }) && *final(account) == *old(account),
        event matches WriteEvent::Ended { outcome: WriteOutcome::NoToken } ==> step == (
        WriteStep::Refuse { error: MarketError::Unauthorized }) && *final(account) == *old(account),
        event matches WriteEvent::Ended { outcome: WriteOutcome::NoTransport } ==> step == (
        WriteStep::Refuse { error: MarketError::Unreachable }) && *final(account) == *old(account),
        event is Adopted ==> step is Refresh && *final(account) == *old(account),
        final(account).link == old(account).link,
        final(account).items_kept == old(account).items_kept,
{
}

/// After signing out nothing of the account is left, and what was asked for before comes late.
pub proof fn law_signing_out_leaves_nothing(account: &mut MarketAccount)
    requires
        call_ensures(MarketAccount::sign_out, (account,), ()),
    ensures
        final(account).link is Unlinked,
        !final(account).items_kept,
        final(account).generation != old(account).generation,
{
}

/// Listing that went well links the account, with the renewed token; a refused token, and no other
/// error, has it linked anew, with the token from before; every other error is handed on as it is.
pub proof fn law_listing_tells_how_the_account_stands(
    token: String,
    listing: Result<String, MarketError>,
    outcome: Result<(LinkState, String), MarketError>,
)
    requires
        call_ensures(settle_listing, (token, listing), outcome),
    ensures
        listing matches Ok(renewed) ==> outcome is Ok && outcome->Ok_0.0 is Linked && outcome->Ok_0.1
            == renewed,
        listing matches Err(error) ==> {
            &&& outcome is Ok <==> error is Unauthorized
            &&& outcome is Ok ==> outcome->Ok_0.0 is NeedsRelink && outcome->Ok_0.1 == token
            &&& outcome is Err ==> outcome->Err_0 == error
        },
{
}

/// A fetch loads the items exactly if it begins without them, and lists the orders once they are at
/// hand. It is over with the error that loading the items came to, or with what listing the orders
/// came to.
pub proof fn law_fetch_goes_step_by_step(
    token: String,
    event: FetchEvent,
    step: FetchStep,
    listing: Result<String, MarketError>,
    outcome: Result<(LinkState, String), MarketError>,
)
    requires
        call_ensures(fetch_step, (token, event), step),
        call_ensures(settle_listing, (token, listing), outcome),
    ensures
        step is LoadItems <==> event is Begun && !event->items_kept,
        step is ListOrders <==> event is ItemsLoaded || (event is Begun && event->items_kept),
        event matches FetchEvent::ItemsFailed { error } ==> step is Done && step->outcome
            == Err::<(LinkState, String), MarketError>(error),
        event == (FetchEvent::Listed { listing }) ==> step is Done && step->outcome == outcome,
{
}

/// An order is written exactly if it is allowed, with just the quantity that was derived for it, and
/// is refused with just the reason otherwise.
pub proof fn law_allowed_orders_are_written(allowed: Result<Option<u32>, String>, step: OrderStep)
    requires
        call_ensures(order_step, (allowed,), step),
    ensures
        step is Write <==> allowed is Ok,
        step matches OrderStep::Write { quantity } ==> allowed->Ok_0 == quantity,
        step matches OrderStep::Refuse { message } ==> allowed->Err_0 == message,
{
}

/// Nothing can be listed exactly while the items are not at hand: the market could not be reached.
pub proof fn law_listing_needs_the_items(items_kept: bool, error: Option<MarketError>)
    requires
        call_ensures(items_missing, (items_kept,), error),
    ensures
        error is None <==> items_kept,
        error is Some ==> error->0 is Unreachable,
{
}

/// Presence that follows the game is in game exactly while the game is played, and online otherwise.
pub proof fn law_presence_tells_whether_the_game_is_played(game_ready: bool, presence: Presence)
    requires
        call_ensures(auto_presence, (game_ready,), presence),
    ensures
        presence is Ingame <==> game_ready,
        presence is Online <==> !game_ready,
{
}

/// What the player asks for is asked of an open connection, and needs one to be made if none is
/// open. Asking for nothing, and not to follow the game, closes the connection. Only what is asked
/// of a connection is held, and the choice to follow the game is always taken in.
pub proof fn law_request_is_carried_out(
    control: &mut PresenceControl,
    auto: bool,
    status: Option<Presence>,
    game_ready: bool,
    step: PresenceStep,
    following: Presence,
)
    requires
        call_ensures(PresenceControl::request, (control, auto, status, game_ready), step),
        call_ensures(auto_presence, (game_ready,), following),
    ensures
        final(control).auto == auto,
        step is Close <==> !auto && status is None,
        step is Close ==> !final(control).connected && final(control).wanted is None,
        step is Ask <==> !(step is Close) && old(control).connected,
        step is Connect <==> !(step is Close) && !old(control).connected,
        step matches PresenceStep::Ask { presence } ==> presence == (if auto {
            following
        } else {
            status->0
        }) && final(control).connected && final(control).wanted == Some(presence),
        step matches PresenceStep::Connect { presence } ==> presence == (if auto {
            following
        } else {
            status->0
        }) && !final(control).connected && final(control).wanted == old(control).wanted,
{
}

/// A connection is made exactly if there is a token, with that token, and then holds the presence it
/// was made for. Without a token nothing changes: either it could not be read, for its own reason, or
/// no account is linked.
pub proof fn law_connection_needs_a_token(
    control: &mut PresenceControl,
    presence: Presence,
    token: Result<Option<String>, MarketError>,
    outcome: Result<String, PresenceError>,
)
    requires
        call_ensures(PresenceControl::connect, (control, presence, token), outcome),
    ensures
        outcome is Ok <==> token is Ok && token->Ok_0 is Some,
        outcome is Ok ==> outcome->Ok_0 == token->Ok_0->0 && final(control).connected
            && final(control).wanted == Some(presence) && final(control).auto == old(control).auto,
        outcome is Err ==> *final(control) == *old(control),
        token matches Err(error) ==> outcome->Err_0 == (PresenceError::Token { error }),
        token matches Ok(None) ==> outcome->Err_0 is NoAccount && outcome->Err_0->message@
            == "No warframe.market account is linked"@,
{
}

/// Only presence that follows the game changes with it, and then to what follows from the game. The
/// connection is asked exactly if it is open and that is another presence than it holds.
pub proof fn law_followed_game_changes_presence(
    control: &mut PresenceControl,
    game_ready: bool,
    ask: Option<Presence>,
    following: Presence,
)
    requires
        call_ensures(PresenceControl::update, (control, game_ready), ask),
        call_ensures(auto_presence, (game_ready,), following),
    ensures
        final(control).auto == old(control).auto,
        final(control).connected == old(control).connected,
        old(control).auto ==> final(control).wanted == Some(following),
        !old(control).auto ==> final(control).wanted == old(control).wanted,
        ask is Some <==> old(control).auto && old(control).connected && old(control).wanted != Some(
            following,
        ),
        ask is Some ==> ask->0 == following,
{
}

/// After signing out there is no connection, nothing is followed and nothing is held.
pub proof fn law_signed_out_presence_is_offline(control: &mut PresenceControl)
    requires
        call_ensures(PresenceControl::sign_out, (control,), ()),
    ensures
        !final(control).connected,
        !final(control).auto,
        final(control).wanted is None,
{
}

/// At first no account is linked and no items are kept, and nobody is seen.
pub proof fn law_nothing_is_linked_at_first(account: MarketAccount, control: PresenceControl)
    requires
        call_ensures(MarketAccount::new, (), account),
        call_ensures(PresenceControl::new, (), control),
    ensures
        account.link is Unlinked,
        !account.items_kept,
        !control.connected,
        !control.auto,
        control.wanted is None,
{
}

} // verus!
