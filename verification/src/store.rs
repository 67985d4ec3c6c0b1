//! The in-memory roster store: the one piece of shared state of the
//! session, held as a vector of players ordered by creation.
use vstd::prelude::*;

use crate::room::PlayerData;
use crate::room::PlayerView;

verus! {

/// The ghost image of the whole store: the players in creation order,
/// and the id the next created player will get.
pub struct RosterView {
    pub players: Seq<PlayerView>,
    pub next_id: u64,
}

/// Ids appear in strictly increasing order: creation order is id order,
/// and no id occurs twice.
pub open spec fn ids_increasing(s: Seq<PlayerView>) -> bool {
    forall|i: int, j: int| 0 <= i < j < s.len() ==> s[i].id < s[j].id
}

/// No two players carry the same name.
pub open spec fn names_unique(s: Seq<PlayerView>) -> bool {
    forall|i: int, j: int| 0 <= i < j < s.len() ==> s[i].name != s[j].name
}

/// Every id already handed out lies below the counter.
pub open spec fn ids_bounded(s: Seq<PlayerView>, bound: u64) -> bool {
    forall|i: int| 0 <= i < s.len() ==> s[i].id < bound
}

/// The roster invariant: unique names, unique never-reused ids, players
/// ordered by creation.
pub open spec fn roster_wf(m: RosterView) -> bool {
    &&& ids_increasing(m.players)
    &&& names_unique(m.players)
    &&& ids_bounded(m.players, m.next_id)
}

pub open spec fn has_name(s: Seq<PlayerView>, name: Seq<char>) -> bool {
    exists|i: int| 0 <= i < s.len() && s[i].name == name
}

pub open spec fn index_of_name(s: Seq<PlayerView>, name: Seq<char>) -> int {
    choose|i: int| 0 <= i < s.len() && s[i].name == name
}

pub open spec fn has_id(s: Seq<PlayerView>, id: u64) -> bool {
    exists|i: int| 0 <= i < s.len() && s[i].id == id
}

pub open spec fn index_of_id(s: Seq<PlayerView>, id: u64) -> int {
    choose|i: int| 0 <= i < s.len() && s[i].id == id
}

/// Under unique names, an index that holds a name is the index
/// `index_of_name` picks.
pub proof fn lemma_name_index(s: Seq<PlayerView>, name: Seq<char>, i: int)
    requires
        names_unique(s),
        0 <= i < s.len(),
        s[i].name == name,
    ensures
        has_name(s, name),
        index_of_name(s, name) == i,
{
    assert(has_name(s, name));
    let j = index_of_name(s, name);
    if i < j {
        assert(s[i].name != s[j].name);
    } else if j < i {
        assert(s[j].name != s[i].name);
    }
}

/// Under increasing ids, an index that holds an id is the index
/// `index_of_id` picks.
pub proof fn lemma_id_index(s: Seq<PlayerView>, id: u64, i: int)
    requires
        ids_increasing(s),
        0 <= i < s.len(),
        s[i].id == id,
    ensures
        has_id(s, id),
        index_of_id(s, id) == i,
{
    assert(has_id(s, id));
    let j = index_of_id(s, id);
    if i < j {
        assert(s[i].id < s[j].id);
    } else if j < i {
        assert(s[j].id < s[i].id);
    }
}

/// What `change_name` does to the roster: rename the player that holds
/// `old_name`, evicting a different player that already holds `new_name`;
/// or, when no player holds `old_name`, create one named `new_name`
/// unless that name is already claimed.
pub open spec fn upsert_model(m: RosterView, old_name: Seq<char>, new_name: Seq<char>) -> RosterView {
    if has_name(m.players, old_name) {
        let i = index_of_name(m.players, old_name);
        if old_name == new_name {
            m
        } else if has_name(m.players, new_name) {
            let j = index_of_name(m.players, new_name);
            RosterView {
                players: m.players.update(i, PlayerView { name: new_name, ..m.players[i] }).remove(j),
                ..m
            }
        } else {
            RosterView {
                players: m.players.update(i, PlayerView { name: new_name, ..m.players[i] }),
                ..m
            }
        }
    } else if has_name(m.players, new_name) {
        m
    } else {
        RosterView {
            players: m.players.push(PlayerView { id: m.next_id, name: new_name, visited: false }),
            next_id: (m.next_id + 1) as u64,
        }
    }
}

/// What `record_visit` and `clear_visit` do: flip the visited flag of
/// the player with this id, and nothing else; a miss changes nothing.
pub open spec fn set_visited_model(m: RosterView, id: u64, visited: bool) -> RosterView {
    if has_id(m.players, id) {
        let i = index_of_id(m.players, id);
        RosterView { players: m.players.update(i, PlayerView { visited, ..m.players[i] }), ..m }
    } else {
        m
    }
}

/// Renaming preserves the roster invariant.
pub proof fn lemma_upsert_wf(m: RosterView, old_name: Seq<char>, new_name: Seq<char>)
    requires
        roster_wf(m),
        m.next_id < u64::MAX,
    ensures
        roster_wf(upsert_model(m, old_name, new_name)),
{
    let r = upsert_model(m, old_name, new_name);
    if has_name(m.players, old_name) {
        let i = index_of_name(m.players, old_name);
        lemma_name_index(m.players, old_name, i);
        if old_name == new_name {
        } else if has_name(m.players, new_name) {
            let j = index_of_name(m.players, new_name);
            lemma_name_index(m.players, new_name, j);
            let up = m.players.update(i, PlayerView { name: new_name, ..m.players[i] });
            assert forall|a: int, b: int| 0 <= a < b < r.players.len() implies
                r.players[a].id < r.players[b].id && r.players[a].name != r.players[b].name by {
                let a0 = if a < j { a } else { a + 1 };
                let b0 = if b < j { b } else { b + 1 };
                assert(r.players[a] == up[a0]);
                assert(r.players[b] == up[b0]);
            }
            assert forall|a: int| 0 <= a < r.players.len() implies r.players[a].id < r.next_id by {
                let a0 = if a < j { a } else { a + 1 };
                assert(r.players[a] == up[a0]);
            }
        } else {
            assert forall|a: int, b: int| 0 <= a < b < r.players.len() implies
                r.players[a].id < r.players[b].id && r.players[a].name != r.players[b].name by {
            }
        }
    } else if has_name(m.players, new_name) {
    } else {
        assert forall|a: int, b: int| 0 <= a < b < r.players.len() implies
            r.players[a].id < r.players[b].id && r.players[a].name != r.players[b].name by {
        }
    }
}

/// Flipping a visited flag preserves the roster invariant.
pub proof fn lemma_set_visited_wf(m: RosterView, id: u64, visited: bool)
    requires
        roster_wf(m),
    ensures
        roster_wf(set_visited_model(m, id, visited)),
{
    let r = set_visited_model(m, id, visited);
    if has_id(m.players, id) {
        assert forall|a: int, b: int| 0 <= a < b < r.players.len() implies
            r.players[a].id < r.players[b].id && r.players[a].name != r.players[b].name by {
        }
    }
}

/// Well-formedness spelled out: two distinct positions of the roster
/// never share a name, and never share an id.
pub proof fn lemma_wf_unique(m: RosterView, a: int, b: int)
    requires
        roster_wf(m),
        0 <= a < m.players.len(),
        0 <= b < m.players.len(),
        a != b,
    ensures
        m.players[a].name != m.players[b].name,
        m.players[a].id != m.players[b].id,
{
}

/// A rename that touches neither the name of player `k` nor the name it
/// claims leaves that player in the roster with the same id, name and
/// visited mark: ids are stable across renames of other names.
pub proof fn lemma_rename_keeps_others(
    m: RosterView,
    old_name: Seq<char>,
    new_name: Seq<char>,
    k: int,
)
    requires
        roster_wf(m),
        0 <= k < m.players.len(),
        m.players[k].name != old_name,
        m.players[k].name != new_name,
    ensures
        ({
            let r = upsert_model(m, old_name, new_name);
            exists|k2: int| 0 <= k2 < r.players.len() && r.players[k2] == m.players[k]
        }),
{
    let r = upsert_model(m, old_name, new_name);
    if has_name(m.players, old_name) {
        let i = index_of_name(m.players, old_name);
        assert(m.players[i].name == old_name);
        if old_name == new_name {
            assert(r.players[k] == m.players[k]);
        } else if has_name(m.players, new_name) {
            let j = index_of_name(m.players, new_name);
            assert(m.players[j].name == new_name);
            let up = m.players.update(i, PlayerView { name: new_name, ..m.players[i] });
            if k < j {
                assert(r.players[k] == up[k]);
                assert(r.players[k] == m.players[k]);
            } else {
                assert(k != j);
                assert(r.players[k - 1] == up[k]);
                assert(r.players[k - 1] == m.players[k]);
            }
        } else {
            assert(r.players[k] == m.players[k]);
        }
    } else {
        assert(r.players[k] == m.players[k]);
    }
}

/// Clearing a name twice comes to the same thing as clearing it once:
/// the second clear finds the same player, already cleared, and moves
/// nothing.
pub proof fn lemma_clear_idempotent(m: RosterView, name: Seq<char>)
    requires
        roster_wf(m),
        has_name(m.players, name),
    ensures
        ({
            let i = index_of_name(m.players, name);
            let id = m.players[i].id;
            let m1 = set_visited_model(m, id, false);
            &&& has_name(m1.players, name)
            &&& index_of_name(m1.players, name) == i
            &&& m1.players[i] == (PlayerView { visited: false, ..m.players[i] })
            &&& set_visited_model(m1, id, false) == m1
        }),
{
    let i = index_of_name(m.players, name);
    assert(0 <= i < m.players.len() && m.players[i].name == name);
    let id = m.players[i].id;
    lemma_id_index(m.players, id, i);
    lemma_set_visited_wf(m, id, false);
    let m1 = set_visited_model(m, id, false);
    assert(m1.players == m.players.update(i, PlayerView { visited: false, ..m.players[i] }));
    lemma_name_index(m1.players, name, i);
    lemma_id_index(m1.players, id, i);
    let m2 = set_visited_model(m1, id, false);
    assert(m2.players =~= m1.players);
    assert(m2 == m1);
}

/// The in-memory store. It satisfies the one storage contract of the
/// session: ordered listing, lookup by id and by name, rename with the
/// claim-the-name collision policy, and visit marks recorded at most
/// once per player.
pub struct Roster {
    players: Vec<PlayerData>,
    next_id: u64,
}

impl View for Roster {
    type V = RosterView;

    closed spec fn view(&self) -> RosterView {
        RosterView { players: self.players@.map_values(|p: PlayerData| p@), next_id: self.next_id }
    }
}

impl Roster {
    pub open spec fn inv(&self) -> bool {
        roster_wf(self@)
    }

    /// A fresh, empty store; ids start at zero.
    pub fn new() -> (r: Roster)
        ensures
            r.inv(),
            r@.players.len() == 0,
            r@.next_id == 0,
    {
        Roster { players: Vec::new(), next_id: 0 }
    }

    /// Whether another player can still be created: the id counter has
    /// not run out. Callers test this before a rename that may create.
    pub fn id_space_left(&self) -> (b: bool)
        ensures
            b == (self@.next_id < u64::MAX),
    {
        self.next_id < u64::MAX
    }

    /// All players, in creation order.
    pub fn all_players(&self) -> (r: Vec<PlayerData>)
        ensures
            r@.map_values(|p: PlayerData| p@) == self@.players,
    {
        let mut out: Vec<PlayerData> = Vec::new();
        let mut k: usize = 0;
        while k < self.players.len()
            invariant
                k <= self.players.len(),
                out@.len() == k,
                forall|i: int| 0 <= i < k ==> out@[i] == self.players@[i],
            decreases self.players.len() - k,
        {
            out.push(self.players[k].clone());
            k = k + 1;
        }
        proof {
            assert(out@.map_values(|p: PlayerData| p@) =~= self@.players);
        }
        out
    }

    fn index_by_name(&self, name: &str) -> (r: Option<usize>)
        ensures
            match r {
                Some(i) => i < self@.players.len() && self@.players[i as int].name == name@,
                None => !has_name(self@.players, name@),
            },
    {
        let key: String = name.to_owned();
        let mut k: usize = 0;
        while k < self.players.len()
            invariant
                k <= self.players.len(),
                key@ == name@,
                forall|i: int| 0 <= i < k ==> self@.players[i].name != name@,
            decreases self.players.len() - k,
        {
            if self.players[k].name == key {
                return Some(k);
            }
            k = k + 1;
        }
        None
    }

    fn index_by_id(&self, id: u64) -> (r: Option<usize>)
        ensures
            match r {
                Some(i) => i < self@.players.len() && self@.players[i as int].id == id,
                None => !has_id(self@.players, id),
            },
    {
        let mut k: usize = 0;
        while k < self.players.len()
            invariant
                k <= self.players.len(),
                forall|i: int| 0 <= i < k ==> self@.players[i].id != id,
            decreases self.players.len() - k,
        {
            if self.players[k].id == id {
                return Some(k);
            }
            k = k + 1;
        }
        None
    }

    /// Lookup by id. Returns the one player with this id, or `None`.
    pub fn get_player(&self, id: u64) -> (r: Option<PlayerData>)
        requires
            self.inv(),
        ensures
            match r {
                Some(p) => has_id(self@.players, id)
                    && p@ == self@.players[index_of_id(self@.players, id)],
                None => !has_id(self@.players, id),
            },
    {
        match self.index_by_id(id) {
            Some(i) => {
                proof {
                    lemma_id_index(self@.players, id, i as int);
                }
                Some(self.players[i].clone())
            },
            None => None,
        }
    }

    /// Lookup by name. Returns the one player with this name, or `None`.
    pub fn get_player_by_name(&self, name: &str) -> (r: Option<PlayerData>)
        requires
            self.inv(),
        ensures
            match r {
                Some(p) => has_name(self@.players, name@)
                    && p@ == self@.players[index_of_name(self@.players, name@)],
                None => !has_name(self@.players, name@),
            },
    {
        match self.index_by_name(name) {
            Some(i) => {
                proof {
                    lemma_name_index(self@.players, name@, i as int);
                }
                Some(self.players[i].clone())
            },
            None => None,
        }
    }

    /// Rename under the claim-the-name policy, or create (see
    /// `upsert_model`). Never fails.
    pub fn change_name(&mut self, old_name: &str, new_name: &str)
        requires
            old(self).inv(),
            old(self)@.next_id < u64::MAX,
        ensures
            final(self).inv(),
            final(self)@ == upsert_model(old(self)@, old_name@, new_name@),
    {
        proof {
            lemma_upsert_wf(old(self)@, old_name@, new_name@);
        }
        let ghost m = self@;
        match self.index_by_name(old_name) {
            Some(i) => {
                proof {
                    lemma_name_index(m.players, old_name@, i as int);
                }
                match self.index_by_name(new_name) {
                    Some(j) => {
                        proof {
                            lemma_name_index(m.players, new_name@, j as int);
                        }
                        if i == j {
                            // the player already holds this name: nothing moves
                            proof {
                                assert(old_name@ == new_name@);
                            }
                        } else {
                            let renamed = PlayerData {
                                id: self.players[i].id,
                                name: new_name.to_owned(),
                                visited: self.players[i].visited,
                            };
                            self.players[i] = renamed;
                            self.players.remove(j);
                            proof {
                                assert(old_name@ != new_name@);
                                assert(self@.players =~= upsert_model(m, old_name@, new_name@).players);
                            }
                        }
                    },
                    None => {
                        let renamed = PlayerData {
                            id: self.players[i].id,
                            name: new_name.to_owned(),
                            visited: self.players[i].visited,
                        };
                        self.players[i] = renamed;
                        proof {
                            if old_name@ == new_name@ {
                                assert(m.players[i as int].name == new_name@);
                            }
                            assert(self@.players =~= upsert_model(m, old_name@, new_name@).players);
                        }
                    },
                }
            },
            None => {
                match self.index_by_name(new_name) {
                    Some(_) => {
                        // the target name is already claimed: nothing to do
                    },
                    None => {
                        let created = PlayerData {
                            id: self.next_id,
                            name: new_name.to_owned(),
                            visited: false,
                        };
                        self.players.push(created);
                        self.next_id = self.next_id + 1;
                        proof {
                            assert(self@.players =~= upsert_model(m, old_name@, new_name@).players);
                        }
                    },
                }
            },
        }
    }

    /// Mark the player with `visited_id` as visited; a miss is a no-op.
    /// The in-memory store keeps no visitor column, so `visitor_id` is
    /// recorded only by the durable variant of the storage contract.
    pub fn record_visit(&mut self, visitor_id: u64, visited_id: u64)
        requires
            old(self).inv(),
        ensures
            final(self).inv(),
            final(self)@ == set_visited_model(old(self)@, visited_id, true),
    {
        let _ = visitor_id;
        self.set_visited(visited_id, true);
    }

    /// Clear the visited mark of the player with this id; a miss is a no-op.
    pub fn clear_visit(&mut self, id: u64)
        requires
            old(self).inv(),
        ensures
            final(self).inv(),
            final(self)@ == set_visited_model(old(self)@, id, false),
    {
        self.set_visited(id, false);
    }

    fn set_visited(&mut self, id: u64, visited: bool)
        requires
            old(self).inv(),
        ensures
            final(self).inv(),
            final(self)@ == set_visited_model(old(self)@, id, visited),
    {
        proof {
            lemma_set_visited_wf(old(self)@, id, visited);
        }
        let ghost m = self@;
        match self.index_by_id(id) {
            Some(i) => {
                proof {
                    lemma_id_index(m.players, id, i as int);
                }
                let flipped = PlayerData {
                    id: self.players[i].id,
                    name: self.players[i].name.clone(),
                    visited,
                };
                self.players[i] = flipped;
                proof {
                    assert(self@.players =~= set_visited_model(m, id, visited).players);
                }
            },
            None => {},
        }
    }
}

} // verus!
