//! The request gateway's dispatcher and the broadcast coordinator:
//! one tagged request type, one function that applies it to the room,
//! one that renders the outcome to its wire form, and one that fans
//! the rendered message out to every subscriber. The roster and the
//! registry stay two separate values with two separate serialization
//! points: `apply` touches only the room, `publish` only the registry.
use vstd::prelude::*;

use crate::api;
use crate::api::player_html;
use crate::api::roster_html;
use crate::registry::Registry;
use crate::registry::appears_in;
use crate::registry::has_sub;
use crate::room::PlayerData;
use crate::room::PlayerView;
use crate::room::Room;
use crate::store::has_id;
use crate::store::has_name;
use crate::store::index_of_id;
use crate::store::index_of_name;
use crate::store::set_visited_model;
use crate::store::upsert_model;

verus! {

/// One inbound mutation, as the request gateway decodes it from the
/// transport.
pub enum Request {
    /// Rename the player named `user_name` to `name`.
    ChangeName { user_name: String, name: String },
    /// The player named `user_name` visits the player with this id.
    Visited { visited_id: u64, user_name: String },
    /// Clear the visited mark of the player named `user_name`.
    Cleared { user_name: String },
}

/// What an applied mutation asks the broadcast coordinator to push.
pub enum Update {
    /// The whole roster, after a rename: a rename can replace the
    /// player behind a cached row, so only a full refresh is safe.
    FullRoster(Vec<PlayerData>),
    /// One updated player, after a visit or a clear, addressed by its
    /// stable id.
    OnePlayer(PlayerData),
    /// Nothing to push: the mutation changed nothing observable.
    Quiet,
    /// Nothing to push: the visit failed for want of the visitor.
    VisitorMissing,
}

/// Apply one request to the room and say what to broadcast. The room
/// is the single serialization point of the roster: hold its lock for
/// exactly this call.
pub fn apply(room: &mut Room, req: &Request) -> (u: Update)
    requires
        old(room).inv(),
        old(room)@.next_id < u64::MAX,
    ensures
        final(room).inv(),
        match req {
            Request::ChangeName { user_name, name } => {
                &&& final(room)@ == upsert_model(old(room)@, user_name@, name@)
                &&& match u {
                    Update::FullRoster(list) => list@.map_values(|p: PlayerData| p@)
                        == final(room)@.players,
                    _ => false,
                }
            },
            Request::Visited { visited_id, user_name } => {
                &&& !has_name(old(room)@.players, user_name@) ==> u is VisitorMissing
                    && final(room)@ == old(room)@
                &&& has_name(old(room)@.players, user_name@) ==> {
                    &&& final(room)@ == set_visited_model(old(room)@, *visited_id, true)
                    &&& match u {
                        Update::OnePlayer(p) => has_id(old(room)@.players, *visited_id) && p@
                            == (PlayerView {
                            visited: true,
                            ..old(room)@.players[index_of_id(old(room)@.players, *visited_id)]
                        }),
                        Update::Quiet => !has_id(old(room)@.players, *visited_id),
                        _ => false,
                    }
                }
            },
            Request::Cleared { user_name } => {
                &&& !has_name(old(room)@.players, user_name@) ==> u is Quiet && final(room)@
                    == old(room)@
                &&& has_name(old(room)@.players, user_name@) ==> {
                    let i = index_of_name(old(room)@.players, user_name@);
                    &&& final(room)@ == set_visited_model(
                        old(room)@,
                        old(room)@.players[i].id,
                        false,
                    )
                    &&& match u {
                        Update::OnePlayer(p) => p@ == (PlayerView {
                            visited: false,
                            ..old(room)@.players[i]
                        }),
                        _ => false,
                    }
                }
            },
        },
{
    match req {
        Request::ChangeName { user_name, name } => {
            room.change_name(user_name.as_str(), name.as_str());
            Update::FullRoster(room.all_players())
        },
        Request::Visited { visited_id, user_name } => {
            match room.visited(*visited_id, user_name.as_str()) {
                Err(_) => Update::VisitorMissing,
                Ok(None) => Update::Quiet,
                Ok(Some(p)) => Update::OnePlayer(p),
            }
        },
        Request::Cleared { user_name } => {
            match room.cleared(user_name.as_str()) {
                None => Update::Quiet,
                Some(p) => Update::OnePlayer(p),
            }
        },
    }
}

/// The wire text an update stands for: the rendered roster table, the
/// rendered single row, or nothing.
pub open spec fn wire_of(u: Update) -> Option<Seq<char>> {
    match u {
        Update::FullRoster(list) => Some(roster_html(list@.map_values(|p: PlayerData| p@))),
        Update::OnePlayer(p) => Some(player_html(p@)),
        Update::Quiet => None,
        Update::VisitorMissing => None,
    }
}

/// Render an update to its wire form.
pub fn render_update(u: &Update) -> (r: Option<String>)
    ensures
        match r {
            Some(s) => wire_of(*u) == Some(s@),
            None => wire_of(*u) is None,
        },
{
    match u {
        Update::FullRoster(list) => Some(api::player_list(list)),
        Update::OnePlayer(p) => Some(api::player(p)),
        Update::Quiet => None,
        Update::VisitorMissing => None,
    }
}

/// Fan one update out: render it once, then hand the text to every
/// subscriber's channel. Subscribers whose channel refused are dropped
/// from the registry and reported; everyone else keeps its place and
/// join point. An update with no wire form moves nothing. The registry
/// is its own serialization point: hold its lock for exactly this
/// call, never together with the room's.
pub fn publish(reg: &mut Registry, u: &Update) -> (dropped: Vec<u64>)
    requires
        old(reg).inv(),
    ensures
        final(reg).inv(),
        wire_of(*u) is None ==> final(reg)@ == old(reg)@ && dropped@.len() == 0,
        wire_of(*u) matches Some(w) ==> {
            &&& final(reg)@.log == old(reg)@.log.push(w)
            &&& final(reg)@.next_id == old(reg)@.next_id
            &&& forall|i: int|
                0 <= i < old(reg)@.subs.len() ==> (has_sub(
                    final(reg)@,
                    (#[trigger] old(reg)@.subs[i]).id,
                ) <==> !dropped@.contains(old(reg)@.subs[i].id))
            &&& forall|id: u64| #[trigger] dropped@.contains(id) ==> has_sub(old(reg)@, id)
            &&& forall|j: int|
                0 <= j < final(reg)@.subs.len() ==> appears_in(
                    #[trigger] final(reg)@.subs[j],
                    old(reg)@.subs,
                )
        },
{
    match render_update(u) {
        None => Vec::new(),
        Some(text) => reg.broadcast(&text),
    }
}

} // verus!
