use vstd::prelude::*;

use crate::store::Roster;
use crate::store::RosterView;
use crate::store::has_id;
use crate::store::has_name;
use crate::store::index_of_id;
use crate::store::index_of_name;
use crate::store::lemma_id_index;
use crate::store::set_visited_model;
use crate::store::upsert_model;

verus! {

/// The ghost image of a player: what every contract of this crate
/// says about a participant.
pub struct PlayerView {
    pub id: u64,
    pub name: Seq<char>,
    pub visited: bool,
}

/// A participant of the session: a stable id, a display name that is
/// unique across the roster, and whether someone has visited them.
pub struct PlayerData {
    pub id: u64,
    pub name: String,
    pub visited: bool,
}

impl View for PlayerData {
    type V = PlayerView;

    open spec fn view(&self) -> PlayerView {
        PlayerView { id: self.id, name: self.name@, visited: self.visited }
    }
}

impl Clone for PlayerData {
    fn clone(&self) -> (r: Self)
        ensures
            r == *self,
    {
        PlayerData { id: self.id, name: self.name.clone(), visited: self.visited }
    }
}

/// The one error the room surfaces: a referenced player does not exist.
#[derive(Debug, PartialEq, Eq, Structural)]
pub enum RoomError {
    NotFound,
}

/// The roster seen by the request gateway: rename, visit and clear,
/// each atomic on this single value. Wrap a `Room` in one lock and the
/// four operations serialize.
pub struct Room {
    store: Roster,
}

impl View for Room {
    type V = RosterView;

    closed spec fn view(&self) -> RosterView {
        self.store@
    }
}

impl Room {
    pub closed spec fn inv(&self) -> bool {
        self.store.inv()
    }

    /// An empty room over the in-memory store.
    pub fn new() -> (r: Room)
        ensures
            r.inv(),
            r@.players.len() == 0,
            r@.next_id == 0,
    {
        Room { store: Roster::new() }
    }

    /// Whether another player can still be created: the id counter has
    /// not run out. Callers test this before `change_name`.
    pub fn id_space_left(&self) -> (b: bool)
        ensures
            b == (self@.next_id < u64::MAX),
    {
        self.store.id_space_left()
    }

    /// All players in creation order. Never fails.
    pub fn all_players(&self) -> (r: Vec<PlayerData>)
        ensures
            r@.map_values(|p: PlayerData| p@) == self@.players,
    {
        self.store.all_players()
    }

    /// Rename `old_name` to `new_name`, claiming the name from any other
    /// holder; with no player named `old_name`, create or leave the
    /// claimed name alone (see `upsert_model`). Never fails.
    pub fn change_name(&mut self, old_name: &str, new_name: &str)
        requires
            old(self).inv(),
            old(self)@.next_id < u64::MAX,
        ensures
            final(self).inv(),
            final(self)@ == upsert_model(old(self)@, old_name@, new_name@),
    {
        self.store.change_name(old_name, new_name);
    }

    /// Record that the player named `visitor_name` visited the player
    /// with id `player_id`. A missing visitor fails with `NotFound` and
    /// moves nothing; a missing target id is a silent no-op yielding
    /// `None`; otherwise the updated target comes back.
    pub fn visited(&mut self, player_id: u64, visitor_name: &str) -> (r: Result<
        Option<PlayerData>,
        RoomError,
    >)
        requires
            old(self).inv(),
        ensures
            final(self).inv(),
            !has_name(old(self)@.players, visitor_name@) ==> r is Err && final(self)@ == old(
                self,
            )@,
            has_name(old(self)@.players, visitor_name@) ==> {
                &&& final(self)@ == set_visited_model(old(self)@, player_id, true)
                &&& match r {
                    Ok(Some(p)) => has_id(old(self)@.players, player_id) && p@ == (PlayerView {
                        visited: true,
                        ..old(self)@.players[index_of_id(old(self)@.players, player_id)]
                    }),
                    Ok(None) => !has_id(old(self)@.players, player_id),
                    Err(_) => false,
                }
            },
    {
        let ghost m = self@;
        match self.store.get_player_by_name(visitor_name) {
            None => Err(RoomError::NotFound),
            Some(visitor) => {
                self.store.record_visit(visitor.id, player_id);
                let got = self.store.get_player(player_id);
                proof {
                    if has_id(m.players, player_id) {
                        let i = index_of_id(m.players, player_id);
                        lemma_id_index(m.players, player_id, i);
                        assert(self@.players[i].id == player_id);
                        lemma_id_index(self@.players, player_id, i);
                    } else {
                        if has_id(self@.players, player_id) {
                            let i = index_of_id(self@.players, player_id);
                            assert(m.players[i].id == player_id);
                        }
                    }
                }
                Ok(got)
            },
        }
    }

    /// Clear the visited mark of the player with this name; the cleared
    /// player comes back, or `None` when no player holds the name.
    /// Clearing an already-cleared player changes nothing.
    pub fn cleared(&mut self, name: &str) -> (r: Option<PlayerData>)
        requires
            old(self).inv(),
        ensures
            final(self).inv(),
            !has_name(old(self)@.players, name@) ==> r is None && final(self)@ == old(self)@,
            has_name(old(self)@.players, name@) ==> {
                let i = index_of_name(old(self)@.players, name@);
                &&& final(self)@ == set_visited_model(
                    old(self)@,
                    old(self)@.players[i].id,
                    false,
                )
                &&& match r {
                    Some(p) => p@ == (PlayerView { visited: false, ..old(self)@.players[i] }),
                    None => false,
                }
            },
    {
        let ghost m = self@;
        match self.store.get_player_by_name(name) {
            None => None,
            Some(player) => {
                proof {
                    let i = index_of_name(m.players, name@);
                    lemma_id_index(m.players, player.id, i);
                }
                self.store.clear_visit(player.id);
                let got = self.store.get_player(player.id);
                proof {
                    let i = index_of_name(m.players, name@);
                    assert(self@.players[i].id == player.id);
                    lemma_id_index(self@.players, player.id, i);
                }
                got
            },
        }
    }
}

} // verus!
