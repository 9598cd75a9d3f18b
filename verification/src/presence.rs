//! What other players see of this one on warframe.market.
//!
//! Presence is held by a connection. There is no way to hold "offline": being offline is having no
//! connection.

use vstd::prelude::*;

use crate::market::MarketError;

verus! {

/// A presence that a connection can hold.
#[derive(Clone, Copy, Debug, PartialEq, Eq, Structural)]
pub enum Presence {
    Online,
    Ingame,
    Invisible,
}

/// How presence is held.
#[derive(Clone, Copy, Debug, PartialEq, Eq, Structural)]
pub struct PresenceControl {
    /// Whether there is a connection.
    pub connected: bool,
    /// Whether presence follows the game.
    pub auto: bool,
    /// What the connection was last asked to hold.
    pub wanted: Option<Presence>,
}

/// What is to be done about the connection.
#[derive(Clone, Copy, Debug, PartialEq, Eq, Structural)]
pub enum PresenceStep {
    /// It is closed.
    Close,
    /// It is asked to hold this.
    Ask { presence: Presence },
    /// One is to be made that holds this; a token is needed for it.
    Connect { presence: Presence },
}

/// Why no connection can be made.
pub enum PresenceError {
    /// The token could not be read.
    Token { error: MarketError },
    /// There is no account to hold presence for.
    NoAccount { message: String },
}

/// What presence follows from the game: it is played or it is not.
pub open spec fn following_game(game_ready: bool) -> Presence {
    if game_ready {
        Presence::Ingame
    } else {
        Presence::Online
    }
}

/// What presence follows from the game.
pub fn auto_presence(game_ready: bool) -> (presence: Presence)
    ensures
        presence == following_game(game_ready),
{
    if game_ready {
        Presence::Ingame
    } else {
        Presence::Online
    }
}

/// What is asked for: what follows from the game, or what the player chose.
pub open spec fn asked_for(auto: bool, status: Option<Presence>, game_ready: bool) -> Option<Presence> {
    if auto {
        Some(following_game(game_ready))
    } else {
        status
    }
}

/// How presence is held once it is brought up to date with the game.
pub open spec fn up_to_date(control: PresenceControl, game_ready: bool) -> PresenceControl {
    PresenceControl {
        wanted: if control.auto {
            Some(following_game(game_ready))
        } else {
            control.wanted
        },
        ..control
    }
}

impl PresenceControl {
    /// Whether an open connection was asked to hold something.
    pub open spec fn holds_something(self) -> bool {
        self.connected ==> self.wanted is Some
    }

    /// Offline.
    pub fn new() -> (control: Self)
        ensures
            control == (PresenceControl { connected: false, auto: false, wanted: None }),
            control.holds_something(),
    {
        PresenceControl { connected: false, auto: false, wanted: None }
    }

    /// Takes in what the player asks for: to follow the game, a presence, or to be offline. What has
    /// to be connected for first is not held yet.
    pub fn request(&mut self, auto: bool, status: Option<Presence>, game_ready: bool) -> (step:
        PresenceStep)
        ensures
            ({
                let wanted = asked_for(auto, status, game_ready);
                match wanted {
                    None => step == PresenceStep::Close && *final(self) == (PresenceControl {
                        connected: false,
                        auto,
                        wanted,
                    }),
                    Some(presence) => if old(self).connected {
                        step == (PresenceStep::Ask { presence }) && *final(self) == (
                        PresenceControl { connected: true, auto, wanted })
                    } else {
                        step == (PresenceStep::Connect { presence }) && *final(self) == (
                        PresenceControl { connected: false, auto, wanted: old(self).wanted })
                    },
                }
            }),
            old(self).holds_something() ==> final(self).holds_something(),
    {
        self.auto = auto;
        let wanted = if auto {
            Some(auto_presence(game_ready))
        } else {
            status
        };
        match wanted {
            None => {
                self.connected = false;
                self.wanted = None;
                PresenceStep::Close
            },
            Some(presence) => {
                if self.connected {
                    self.wanted = wanted;
                    PresenceStep::Ask { presence }
                } else {
                    PresenceStep::Connect { presence }
                }
            },
        }
    }

    /// Takes in the token that a connection for `presence` is to be made with. Gives it back if the
    /// connection can be made; it then holds this presence.
    pub fn connect(
        &mut self,
        presence: Presence,
        token: Result<Option<String>, MarketError>,
    ) -> (outcome: Result<String, PresenceError>)
        ensures
            match token {
                Ok(Some(token)) => outcome == Ok::<String, PresenceError>(token) && *final(self) == (
                PresenceControl { connected: true, auto: old(self).auto, wanted: Some(presence) }),
                Ok(None) => *final(self) == *old(self) && (outcome matches Err(
                    PresenceError::NoAccount { message },
                ) && message@ == "No warframe.market account is linked"@),
                Err(error) => *final(self) == *old(self) && outcome == Err::<String, PresenceError>(
                    PresenceError::Token { error },
                ),
            },
            old(self).holds_something() ==> final(self).holds_something(),
    {
        match token {
            Ok(Some(token)) => {
                self.connected = true;
                self.wanted = Some(presence);
                Ok(token)
            },
            Ok(None) => Err(
                PresenceError::NoAccount {
                    message: "No warframe.market account is linked".to_owned(),
                },
            ),
            Err(error) => Err(PresenceError::Token { error }),
        }
    }

    /// Brings presence up to date before it is shown: where it follows the game, it changes with
    /// the game. Says what the connection is to be asked for, if that changes.
    pub fn update(&mut self, game_ready: bool) -> (ask: Option<Presence>)
        ensures
            *final(self) == up_to_date(*old(self), game_ready),
            ask == (if old(self).auto && old(self).connected && old(self).wanted != Some(
                following_game(game_ready),
            ) {
                Some(following_game(game_ready))
            } else {
                None
            }),
            old(self).holds_something() ==> final(self).holds_something(),
    {
        if !self.auto {
            return None;
        }
        let wanted = auto_presence(game_ready);
        let unchanged = match self.wanted {
            Some(before) => before == wanted,
            None => false,
        };
        if unchanged {
            return None;
        }
        self.wanted = Some(wanted);
        if self.connected {
            Some(wanted)
        } else {
            None
        }
    }

    /// The account is unlinked: the connection that was made for it is closed.
    pub fn sign_out(&mut self)
        ensures
            *final(self) == (PresenceControl { connected: false, auto: false, wanted: None }),
    {
        self.connected = false;
        self.auto = false;
        self.wanted = None;
    }
}

/// How presence is held after it was brought up to date each time the game was seen to be played or
/// not.
pub open spec fn updated(control: PresenceControl, games: Seq<bool>) -> PresenceControl
    decreases games.len(),
{
    if games.len() == 0 {
        control
    } else {
        up_to_date(updated(control, games.drop_last()), games.last())
    }
}

/// Presence that follows the game goes on following it, however often the game comes and goes, and
/// presence that the player chose stays as it was chosen.
pub proof fn law_presence_follows_the_game(control: PresenceControl, games: Seq<bool>)
    requires
        games.len() > 0,
    ensures
        updated(control, games).auto == control.auto,
        updated(control, games).connected == control.connected,
        updated(control, games).wanted == (if control.auto {
            Some(following_game(games.last()))
        } else {
            control.wanted
        }),
    decreases games.len(),
{
    if games.len() > 1 {
        law_presence_follows_the_game(control, games.drop_last());
    } else {
        assert(updated(control, games.drop_last()) == control);
    }
}

/// What is asked for is what follows from the game if it is to be followed, in game exactly while it
/// is played and online otherwise, and else just what the player chose, be that nothing.
pub proof fn law_player_gets_what_they_ask_for(auto: bool, status: Option<Presence>, game_ready: bool)
    ensures
        !auto ==> asked_for(auto, status, game_ready) == status,
        auto && game_ready ==> asked_for(auto, status, game_ready) == Some(Presence::Ingame),
        auto && !game_ready ==> asked_for(auto, status, game_ready) == Some(Presence::Online),
{
}

/// Bringing presence up to date changes it only where it follows the game, and then to what follows
/// from the game. The connection and the choice to follow stay.
pub proof fn law_update_changes_what_follows(control: PresenceControl, game_ready: bool)
    ensures
        ({
            let after = up_to_date(control, game_ready);
            &&& after.connected == control.connected
            &&& after.auto == control.auto
            &&& !control.auto ==> after.wanted == control.wanted
            &&& control.auto && game_ready ==> after.wanted == Some(Presence::Ingame)
            &&& control.auto && !game_ready ==> after.wanted == Some(Presence::Online)
        }),
{
}

} // verus!
