use tennoscope::generation::following;
use tennoscope::market::{
    fetch_step, items_missing, order_step, settle_listing, AccountStep, FetchEvent, FetchOutcome, FetchStep, LinkState,
    MarketAccount, MarketError, OrderStep, WriteEvent, WriteOutcome, WriteStep,
};
use tennoscope::presence::{auto_presence, Presence, PresenceControl, PresenceError, PresenceStep};

/// A fetch that is still under way when a sign-out happens must not show its account over it.
#[test]
fn a_stale_fetch_does_not_overwrite_a_sign_out() {
    let mut account = MarketAccount::new();
    account.settle_adoption(LinkState::Linked, None);
    let generation = account.generation;

    account.sign_out();

    let outcome = account.discard_if_stale(generation);
    let link = outcome.expect("a stale generation is caught");
    assert_eq!(
        link,
        LinkState::Unlinked,
        "the sign-out's view must survive a late fetch from before it"
    );
    assert!(matches!(
        account.settle_fetch(
            generation,
            FetchOutcome::Fetched {
                link: LinkState::Linked
            }
        ),
        AccountStep::Keep
    ));
    assert_eq!(account.link, LinkState::Unlinked);
}

#[test]
fn a_timely_fetch_is_not_discarded() {
    let account = MarketAccount::new();
    assert_eq!(account.discard_if_stale(0), None);
    assert_eq!(account.discard_if_stale(1), Some(LinkState::Unlinked));
}

#[test]
fn a_fetched_account_is_shown_once_its_token_is_kept() {
    let mut account = MarketAccount::new();
    assert!(matches!(
        account.settle_fetch(
            0,
            FetchOutcome::Fetched {
                link: LinkState::Linked
            }
        ),
        AccountStep::Adopt {
            link: LinkState::Linked
        }
    ));
    assert_eq!(account.link, LinkState::Unlinked);
    assert!(matches!(
        account.settle_adoption(
            LinkState::Linked,
            Some(MarketError::Other {
                message: "full".to_owned()
            })
        ),
        AccountStep::Fail { error: MarketError::Other { message } } if message == "full"
    ));
    assert_eq!(account.link, LinkState::Unlinked);
    assert!(matches!(
        account.settle_adoption(LinkState::Linked, None),
        AccountStep::Show {
            link: LinkState::Linked
        }
    ));
    assert_eq!(account.link, LinkState::Linked);
}

#[test]
fn a_fetch_can_fail_in_several_ways() {
    let mut account = MarketAccount {
        link: LinkState::Linked,
        generation: 4,
        items_kept: false,
    };
    assert!(matches!(
        account.settle_fetch(4, FetchOutcome::NoTransport),
        AccountStep::Fail {
            error: MarketError::Unreachable
        }
    ));
    assert!(matches!(
        account.settle_fetch(
            4,
            FetchOutcome::Failed {
                error: MarketError::Unauthorized
            }
        ),
        AccountStep::Fail {
            error: MarketError::Unauthorized
        }
    ));
    assert_eq!(account.link, LinkState::Linked);
    assert!(matches!(
        account.settle_fetch(4, FetchOutcome::NoToken),
        AccountStep::Show {
            link: LinkState::Unlinked
        }
    ));
    assert_eq!(account.link, LinkState::Unlinked);
    assert!(matches!(
        account.settle_fetch(3, FetchOutcome::NoToken),
        AccountStep::Keep
    ));
}

#[test]
fn a_write_overtakes_a_fetch() {
    let mut account = MarketAccount::new();
    let renewed = account.settle_write(WriteOutcome::Written {
        renewed: "token".to_owned(),
    });
    assert!(matches!(renewed, Ok(token) if token == "token"));
    assert_eq!(account.generation, 1);
    assert!(matches!(
        account.settle_fetch(0, FetchOutcome::NoToken),
        AccountStep::Keep
    ));
}

#[test]
fn a_write_that_failed_overtakes_nothing() {
    let mut account = MarketAccount::new();
    assert!(matches!(
        account.settle_write(WriteOutcome::NoToken),
        Err(MarketError::Unauthorized)
    ));
    assert!(matches!(
        account.settle_write(WriteOutcome::NoTransport),
        Err(MarketError::Unreachable)
    ));
    assert!(matches!(
        account.settle_write(WriteOutcome::Failed {
            error: MarketError::Other {
                message: "busy".to_owned()
            }
        }),
        Err(MarketError::Other { message }) if message == "busy"
    ));
    assert_eq!(account.generation, 0);
}

#[test]
fn a_refused_token_asks_for_a_new_link() {
    assert!(matches!(
        settle_listing("old".to_owned(), Ok("new".to_owned())),
        Ok((LinkState::Linked, token)) if token == "new"
    ));
    assert!(matches!(
        settle_listing("old".to_owned(), Err(MarketError::Unauthorized)),
        Ok((LinkState::NeedsRelink, token)) if token == "old"
    ));
    assert!(matches!(
        settle_listing("old".to_owned(), Err(MarketError::Unreachable)),
        Err(MarketError::Unreachable)
    ));
}

#[test]
fn items_at_hand_are_not_loaded_again() {
    let step = |event| fetch_step("old".to_owned(), event);
    assert!(matches!(
        step(FetchEvent::Begun { items_kept: true }),
        FetchStep::ListOrders
    ));
    assert!(matches!(
        step(FetchEvent::Begun { items_kept: false }),
        FetchStep::LoadItems
    ));
    assert!(matches!(
        step(FetchEvent::ItemsLoaded),
        FetchStep::ListOrders
    ));
    assert!(matches!(
        step(FetchEvent::ItemsFailed {
            error: MarketError::Unauthorized
        }),
        FetchStep::Done {
            outcome: Err(MarketError::Unauthorized)
        }
    ));
    assert!(matches!(
        step(FetchEvent::Listed {
            listing: Ok("new".to_owned())
        }),
        FetchStep::Done { outcome: Ok((LinkState::Linked, token)) } if token == "new"
    ));
    assert!(matches!(
        step(FetchEvent::Listed {
            listing: Err(MarketError::Unauthorized)
        }),
        FetchStep::Done { outcome: Ok((LinkState::NeedsRelink, token)) } if token == "old"
    ));
}

#[test]
fn what_was_written_is_fetched_whatever_became_of_the_token() {
    let mut account = MarketAccount::new();
    assert!(matches!(
        account.write_step(WriteEvent::Ended {
            outcome: WriteOutcome::Written {
                renewed: "token".to_owned()
            }
        }),
        WriteStep::Adopt { renewed } if renewed == "token"
    ));
    assert_eq!(account.generation, 1);
    assert!(matches!(
        account.write_step(WriteEvent::Adopted { failure: None }),
        WriteStep::Refresh
    ));
    assert!(matches!(
        account.write_step(WriteEvent::Adopted {
            failure: Some(MarketError::Unreachable)
        }),
        WriteStep::Refresh
    ));
    assert_eq!(account.generation, 1);
    assert!(matches!(
        account.write_step(WriteEvent::Ended {
            outcome: WriteOutcome::NoToken
        }),
        WriteStep::Refuse {
            error: MarketError::Unauthorized
        }
    ));
    assert_eq!(account.generation, 1);
}

#[test]
fn fetched_items_are_kept_until_the_sign_out() {
    let mut account = MarketAccount::new();
    assert!(matches!(
        items_missing(account.items_kept),
        Some(MarketError::Unreachable)
    ));
    account.settle_fetch(
        0,
        FetchOutcome::Fetched {
            link: LinkState::NeedsRelink,
        },
    );
    assert!(account.items_kept);
    account.settle_fetch(0, FetchOutcome::NoTransport);
    assert!(items_missing(account.items_kept).is_none());
    account.sign_out();
    assert!(!account.items_kept);
    account.settle_fetch(
        0,
        FetchOutcome::Fetched {
            link: LinkState::Linked,
        },
    );
    assert!(!account.items_kept);
}

#[test]
fn an_order_that_is_not_allowed_is_not_written() {
    assert!(matches!(
        order_step(Ok(Some(3))),
        OrderStep::Write { quantity: Some(3) }
    ));
    assert!(matches!(
        order_step(Ok(None)),
        OrderStep::Write { quantity: None }
    ));
    assert!(matches!(
        order_step(Err("not held".to_owned())),
        OrderStep::Refuse { message } if message == "not held"
    ));
}

#[test]
fn generations_come_round() {
    assert_eq!(following(0), 1);
    assert_eq!(following(u64::MAX), 0);
}

#[test]
fn presence_is_asked_of_an_open_connection() {
    let mut control = PresenceControl::new();
    assert_eq!(
        control.request(false, Some(Presence::Invisible), false),
        PresenceStep::Connect {
            presence: Presence::Invisible
        }
    );
    assert_eq!(control.wanted, None);
    let token = control.connect(Presence::Invisible, Ok(Some("token".to_owned())));
    assert!(matches!(token, Ok(token) if token == "token"));
    assert_eq!(control.wanted, Some(Presence::Invisible));
    assert_eq!(
        control.request(false, Some(Presence::Online), true),
        PresenceStep::Ask {
            presence: Presence::Online
        }
    );
    assert_eq!(control.wanted, Some(Presence::Online));
    assert_eq!(control.request(false, None, true), PresenceStep::Close);
    assert_eq!(control, PresenceControl::new());
}

#[test]
fn presence_needs_an_account() {
    let mut control = PresenceControl::new();
    control.request(true, None, true);
    assert!(matches!(
        control.connect(Presence::Ingame, Ok(None)),
        Err(PresenceError::NoAccount { message }) if message == "No warframe.market account is linked"
    ));
    assert!(matches!(
        control.connect(Presence::Ingame, Err(MarketError::Unreachable)),
        Err(PresenceError::Token {
            error: MarketError::Unreachable
        })
    ));
    assert!(control.auto && !control.connected);
    assert_eq!(control.wanted, None);
}

#[test]
fn automatic_presence_follows_the_game() {
    assert_eq!(auto_presence(true), Presence::Ingame);
    assert_eq!(auto_presence(false), Presence::Online);
    let mut control = PresenceControl {
        connected: true,
        auto: true,
        wanted: Some(Presence::Online),
    };
    assert_eq!(control.update(false), None);
    assert_eq!(control.update(true), Some(Presence::Ingame));
    assert_eq!(control.update(true), None);
    assert_eq!(control.update(false), Some(Presence::Online));
    control.connected = false;
    assert_eq!(control.update(true), None);
    assert_eq!(control.wanted, Some(Presence::Ingame));
}

#[test]
fn chosen_presence_stays_chosen() {
    let mut control = PresenceControl {
        connected: true,
        auto: false,
        wanted: Some(Presence::Invisible),
    };
    assert_eq!(control.update(true), None);
    assert_eq!(control.update(false), None);
    assert_eq!(control.wanted, Some(Presence::Invisible));
}

#[test]
fn signing_out_ends_presence() {
    let mut control = PresenceControl {
        connected: true,
        auto: true,
        wanted: Some(Presence::Ingame),
    };
    control.sign_out();
    assert_eq!(control, PresenceControl::new());
}
