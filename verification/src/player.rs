//! Player identity and seats.
//!
//! A [`PlayerId`] is an opaque string identity: two ids name the same logical
//! player exactly when their strings are equal.  A [`Player`] is one occupied
//! seat on a board: an identity plus the label the registry assigned to it.

use vstd::prelude::*;
use crate::game::Label;

verus! {

/// Opaque string identity of a client.
#[derive(Debug)]
pub struct PlayerId {
    id: String,
}

/// One seat on a board: who sits there and under which label.
#[derive(Debug)]
pub struct Player {
    pub id: PlayerId,
    pub label: Label,
}

/// Mathematical model of a seat.
pub ghost struct PlayerModel {
    pub id: Seq<char>,
    pub label: Label,
}

impl View for PlayerId {
    type V = Seq<char>;

    closed spec fn view(&self) -> Seq<char> {
        self.id@
    }
}

impl View for Player {
    type V = PlayerModel;

    open spec fn view(&self) -> PlayerModel {
        PlayerModel { id: self.id@, label: self.label }
    }
}

impl Clone for PlayerId {
    fn clone(&self) -> (r: Self)
        ensures
            r@ == self@,
    {
        PlayerId { id: self.id.clone() }
    }
}

impl Clone for Player {
    fn clone(&self) -> (r: Self)
        ensures
            r@ == self@,
    {
        Player { id: self.id.clone(), label: self.label }
    }
}

impl PlayerId {
    pub fn new(id: String) -> (r: PlayerId)
        ensures
            r@ == id@,
    {
        PlayerId { id }
    }

    /// The underlying identity string.
    pub fn as_string(&self) -> (r: &String)
        ensures
            r@ == self@,
    {
        &self.id
    }

    /// Whether the two ids name the same logical player.
    pub fn same_player(&self, other: &PlayerId) -> (r: bool)
        ensures
            r == (self@ == other@),
    {
        self.id == other.id
    }
}

/// The models of a sequence of seats, in seat order.
pub open spec fn models_of(players: Seq<Player>) -> Seq<PlayerModel> {
    players.map_values(|p: Player| p@)
}

/// The identity a connecting client is known under: the token it supplied if
/// any, otherwise a freshly minted name.  The registry recognizes a
/// reconnecting player purely by this value.
pub fn resolve_identity(token: Option<String>, minted: String) -> (r: PlayerId)
    ensures
        r@ == match token {
            Some(t) => t@,
            None => minted@,
        },
{
    match token {
        Some(t) => PlayerId { id: t },
        None => PlayerId { id: minted },
    }
}

} // verus!
