//! Entities: announcing them to clients, and keeping track of them.
use crate::packets::{NamedEntitySpawnPacket, PickupSpawnPacket};
use crate::player::PositionAndLook;
use std::collections::HashMap;
use std::collections::HashSet;
use vstd::prelude::*;

verus! {

broadcast use vstd::std_specs::hash::group_hash_axioms;

/// The type of an entity.
#[derive(Debug, Clone)]
pub enum Type {
    /// A player with a name.
    Player(String),
}

/// Makes the packet that announces a player. Coordinates are in 32nds of a block, angles in
/// 255ths of a full turn; the player holds nothing.
pub fn spawned_named_entity(
    eid: i32,
    name: &str,
    x: i32,
    y: i32,
    z: i32,
    rotation: i8,
    pitch: i8,
) -> (r: NamedEntitySpawnPacket)
    ensures
        r.entity_id == eid,
        r.name@ == name@,
        r.x == x,
        r.y == y,
        r.z == z,
        r.rotation == rotation,
        r.pitch == pitch,
        r.current_item == 0,
{
    NamedEntitySpawnPacket {
        entity_id: eid,
        name: name.to_owned(),
        x,
        y,
        z,
        rotation,
        pitch,
        current_item: 0,
    }
}

/// Makes the packet that announces an item. Coordinates are in 32nds of a block; the item is not
/// turned.
pub fn spawn_pickup_entity(eid: i32, item_id: i16, count: i8, x: i32, y: i32, z: i32) -> (r:
    PickupSpawnPacket)
    ensures
        r == (PickupSpawnPacket {
            entity_id: eid,
            item_id,
            count,
            x,
            y,
            z,
            rotation: 0,
            pitch: 0,
            roll: 0,
        }),
{
    PickupSpawnPacket { entity_id: eid, item_id, count, x, y, z, rotation: 0, pitch: 0, roll: 0 }
}

/// News of an entity: what it is, where it is now, and where it was before.
#[derive(Debug)]
pub struct Movement {
    pub eid: i32,
    pub entity: Type,
    pub now: PositionAndLook,
    pub prev: Option<PositionAndLook>,
}

/// News of an entity.
pub ghost struct MovementView {
    pub eid: i32,
    pub username: Seq<char>,
    pub now: PositionAndLook,
    pub prev: Option<PositionAndLook>,
}

impl View for Movement {
    type V = MovementView;

    open spec fn view(&self) -> MovementView {
        MovementView {
            eid: self.eid,
            username: match self.entity {
                Type::Player(name) => name@,
            },
            now: self.now,
            prev: self.prev,
        }
    }
}

/// The positions and names of all players.
pub struct Registry {
    pub positions: HashMap<i32, PositionAndLook>,
    pub usernames: HashMap<i32, String>,
}

/// What is known of the players.
#[verifier::ext_equal]
pub ghost struct RegistryView {
    pub positions: Map<i32, PositionAndLook>,
    pub usernames: Map<i32, Seq<char>>,
}

impl View for Registry {
    type V = RegistryView;

    open spec fn view(&self) -> RegistryView {
        RegistryView {
            positions: self.positions@,
            usernames: self.usernames@.map_values(|name: String| name@),
        }
    }
}

impl RegistryView {
    /// Whether every player with a position has a name.
    pub open spec fn wf(self) -> bool {
        forall|eid: i32| #[trigger]
            self.positions.contains_key(eid) ==> self.usernames.contains_key(eid)
    }

    /// With a new position and, where one is given, a new name.
    pub open spec fn with(
        self,
        eid: i32,
        position: PositionAndLook,
        username: Option<Seq<char>>,
    ) -> RegistryView {
        RegistryView {
            positions: self.positions.insert(eid, position),
            usernames: match username {
                Some(name) => self.usernames.insert(eid, name),
                None => self.usernames,
            },
        }
    }

    /// Without a player.
    pub open spec fn without(self, eid: i32) -> RegistryView {
        RegistryView {
            positions: self.positions.remove(eid),
            usernames: self.usernames.remove(eid),
        }
    }

    /// The news of a player that was at `prev` before.
    pub open spec fn news(self, eid: i32, prev: Option<PositionAndLook>) -> MovementView {
        MovementView {
            eid,
            username: self.usernames[eid],
            now: self.positions[eid],
            prev,
        }
    }

    /// Where a player was last.
    pub open spec fn position_of(self, eid: i32) -> Option<PositionAndLook> {
        if self.positions.contains_key(eid) {
            Some(self.positions[eid])
        } else {
            None
        }
    }

    /// Whether the given news introduce every player exactly once, in any order.
    pub open spec fn introduces_all(self, news: Seq<Movement>) -> bool {
        &&& news.len() == self.positions.len()
        &&& forall|i: int|
            0 <= i < news.len() ==> self.positions.contains_key((#[trigger] news[i]).eid)
                && news[i]@ == self.news(news[i].eid, None)
        &&& forall|i: int, j: int|
            0 <= i < j < news.len() ==> (#[trigger] news[i]).eid != (#[trigger] news[j]).eid
    }
}

/// The name that is given, if one is.
pub open spec fn name_of(username: Option<String>) -> Option<Seq<char>> {
    match username {
        Some(name) => Some(name@),
        None => None,
    }
}

/// As many different members of a set as it has are all of it.
proof fn lemma_all_occur(eids: Seq<i32>, all: Set<i32>, other: i32)
    requires
        eids.no_duplicates(),
        all.finite(),
        eids.len() == all.len(),
        forall|i: int| 0 <= i < eids.len() ==> all.contains(#[trigger] eids[i]),
        all.contains(other),
    ensures
        exists|i: int| 0 <= i < eids.len() && eids[i] == other,
{
    eids.unique_seq_to_set();
    assert(eids.to_set().subset_of(all)) by {
        assert forall|e: i32| eids.to_set().contains(e) implies all.contains(e) by {
            let i = choose|i: int| 0 <= i < eids.len() && eids[i] == e;
        }
    }
    if !eids.to_set().contains(other) {
        assert(eids.to_set().subset_of(all.remove(other)));
        vstd::set_lib::lemma_len_subset(eids.to_set(), all.remove(other));
    }
    assert(eids.contains(other));
}

impl Registry {
    /// No players.
    pub fn new() -> (r: Registry)
        ensures
            r@.positions == Map::<i32, PositionAndLook>::empty(),
            r@.usernames == Map::<i32, Seq<char>>::empty(),
            r@.wf(),
    {
        let r = Registry { positions: HashMap::new(), usernames: HashMap::new() };
        assert(r@.usernames =~= Map::<i32, Seq<char>>::empty());
        r
    }

    /// The news of a player that has a position and a name.
    fn news(&self, eid: i32, prev: Option<PositionAndLook>) -> (r: Movement)
        requires
            self@.positions.contains_key(eid),
            self@.usernames.contains_key(eid),
        ensures
            r@ == self@.news(eid, prev),
            r.eid == eid,
            r.now == self.positions@[eid],
            r.prev == prev,
            (match r.entity {
                Type::Player(name) => name@,
            }) == self.usernames@[eid]@,
    {
        let now: PositionAndLook = *self.positions.get(&eid).unwrap();
        let name: String = self.usernames.get(&eid).unwrap().clone();
        Movement { eid, entity: Type::Player(name), now, prev }
    }

    /// The news that introduce all players.
    fn introductions(&self) -> (r: Vec<Movement>)
        requires
            self@.wf(),
        ensures
            self@.introduces_all(r@),
            r@.len() == self.positions@.len(),
            forall|i: int|
                0 <= i < r@.len() ==> (#[trigger] r@[i]).prev is None && self.positions@.contains_key(
                    r@[i].eid,
                ) && r@[i].now == self.positions@[r@[i].eid] && (match r@[i].entity {
                    Type::Player(name) => name@,
                }) == self.usernames@[r@[i].eid]@,
            forall|other: i32| #[trigger]
                self.positions@.contains_key(other) ==> exists|i: int|
                    0 <= i < r@.len() && (#[trigger] r@[i]).eid == other,
    {
        let mut news: Vec<Movement> = Vec::new();
        for eid in it: self.positions.keys()
            invariant
                self@.wf(),
                it.seq().no_duplicates(),
                it.seq().len() == self@.positions.len(),
                it.seq().unref().to_set() == self@.positions.dom(),
                news@.len() == it.index(),
                forall|i: int|
                    0 <= i < news@.len() ==> (#[trigger] news@[i]).eid == *it.seq()[i]
                        && self@.positions.contains_key(news@[i].eid) && news@[i]@ == self@.news(
                        news@[i].eid,
                        None,
                    ),
                forall|i: int|
                    0 <= i < news@.len() ==> (#[trigger] news@[i]).prev is None && news@[i].now
                        == self.positions@[news@[i].eid] && (match news@[i].entity {
                        Type::Player(name) => name@,
                    }) == self.usernames@[news@[i].eid]@,
        {
            let ghost k = it.index() as int;
            assert(it.seq().unref()[k] == *eid);
            assert(it.seq().unref().to_set().contains(*eid));
            news.push(self.news(*eid, None));
        }
        proof {
            let eids: Seq<i32> = Seq::new(news@.len(), |i: int| news@[i].eid);
            assert forall|other: i32| #[trigger]
                self.positions@.contains_key(other) implies exists|i: int|
                0 <= i < news@.len() && (#[trigger] news@[i]).eid == other by {
                lemma_all_occur(eids, self.positions@.dom(), other);
                let i = choose|i: int| 0 <= i < eids.len() && eids[i] == other;
                assert(news@[i].eid == other);
            }
        }
        news
    }

    /// Takes note of a player's position and, on logging in, of the name. Returns the news for all
    /// players: if the player is new, first everybody is introduced, in any order.
    pub fn moved(&mut self, eid: i32, position: PositionAndLook, username: Option<String>) -> (r:
        Vec<Movement>)
        requires
            old(self)@.wf(),
            username is Some || old(self)@.usernames.contains_key(eid),
        ensures
            final(self)@.wf(),
            final(self)@ == old(self)@.with(eid, position, name_of(username)),
            r@.len() > 0,
            r@.last()@ == final(self)@.news(eid, old(self)@.position_of(eid)),
            old(self)@.position_of(eid) is Some ==> r@.len() == 1,
            old(self)@.position_of(eid) is None ==> final(self)@.introduces_all(r@.drop_last()),
            final(self).positions@ == old(self).positions@.insert(eid, position),
            final(self).usernames@.dom() == match username {
                Some(_) => old(self).usernames@.dom().insert(eid),
                None => old(self).usernames@.dom(),
            },
            username matches Some(name) ==> final(self).usernames@[eid]@ == name@,
            forall|other: i32|
                old(self).usernames@.contains_key(other) && (other != eid || username is None)
                    ==> #[trigger] final(self).usernames@[other]@ == old(
                    self,
                ).usernames@[other]@,
            r@.last().eid == eid,
            r@.last().now == position,
            r@.last().prev == if old(self).positions@.contains_key(eid) {
                Some(old(self).positions@[eid])
            } else {
                None
            },
            (match r@.last().entity {
                Type::Player(name) => name@,
            }) == final(self).usernames@[eid]@,
            old(self).positions@.contains_key(eid) ==> r@.len() == 1,
            !old(self).positions@.contains_key(eid) ==> {
                &&& r@.len() == final(self).positions@.len() + 1
                &&& forall|i: int|
                    0 <= i < r@.len() - 1 ==> (#[trigger] r@[i]).prev is None && r@[i].now
                        == final(self).positions@[r@[i].eid] && (match r@[i].entity {
                        Type::Player(name) => name@,
                    }) == final(self).usernames@[r@[i].eid]@
                &&& forall|other: i32| #[trigger]
                    final(self).positions@.contains_key(other) ==> exists|i: int|
                        0 <= i < r@.len() - 1 && (#[trigger] r@[i]).eid == other
            },
    {
        let ghost given = name_of(username);
        let prev: Option<PositionAndLook> = self.positions.insert(eid, position);
        if let Some(name) = username {
            self.usernames.insert(eid, name);
        }
        assert(self@ =~= old(self)@.with(eid, position, given)) by {
            assert(self@.usernames =~= old(self)@.with(eid, position, given).usernames);
        }
        let mut news: Vec<Movement> = Vec::new();
        if prev.is_none() {
            news = self.introductions();
        }
        let ghost before = news@;
        news.push(self.news(eid, prev));
        assert(news@.drop_last() =~= before);
        proof {
            assert forall|other: i32| #[trigger]
                self.positions@.contains_key(other) && prev is None implies exists|i: int|
                0 <= i < news@.len() - 1 && (#[trigger] news@[i]).eid == other by {
                let i = choose|i: int| 0 <= i < before.len() && (#[trigger] before[i]).eid == other;
                assert(news@[i] == before[i]);
            }
        }
        news
    }

    /// Forgets a player.
    pub fn remove(&mut self, eid: i32)
        requires
            old(self)@.wf(),
        ensures
            final(self)@.wf(),
            final(self)@ == old(self)@.without(eid),
            final(self).positions@ == old(self).positions@.remove(eid),
            final(self).usernames@ == old(self).usernames@.remove(eid),
    {
        self.positions.remove(&eid);
        self.usernames.remove(&eid);
        assert(self@ =~= old(self)@.without(eid)) by {
            assert(self@.usernames =~= old(self)@.without(eid).usernames);
        }
    }
}

/// How a client stands to an entity that it gets news of.
#[derive(Debug, Clone, Copy, PartialEq, Eq, Structural)]
pub enum Sighting {
    /// It is the client's own player, which is not shown.
    Own,
    /// It has to be announced first.
    New,
    /// It was announced before.
    Known,
}

/// The entities that were announced to a client.
pub struct Seen {
    pub eids: HashSet<i32>,
}

/// How a client that has seen some entities stands to an entity.
pub open spec fn sighting(seen: Set<i32>, own_eid: i32, eid: i32) -> Sighting {
    if eid == own_eid {
        Sighting::Own
    } else if seen.contains(eid) {
        Sighting::Known
    } else {
        Sighting::New
    }
}

impl Seen {
    /// No entities.
    pub fn new() -> (r: Seen)
        ensures
            r.eids@ == Set::<i32>::empty(),
    {
        Seen { eids: HashSet::new() }
    }

    /// Takes note of an entity that there is news of.
    pub fn observe(&mut self, own_eid: i32, eid: i32) -> (r: Sighting)
        ensures
            r == sighting(old(self).eids@, own_eid, eid),
            r == Sighting::Own <==> eid == own_eid,
            r == Sighting::Known <==> eid != own_eid && old(self).eids@.contains(eid),
            r == Sighting::New <==> eid != own_eid && !old(self).eids@.contains(eid),
            final(self).eids@ == if r == Sighting::Own {
                old(self).eids@
            } else {
                old(self).eids@.insert(eid)
            },
    {
        if eid == own_eid {
            return Sighting::Own;
        }
        if self.eids.contains(&eid) {
            assert(self.eids@ =~= self.eids@.insert(eid));
            Sighting::Known
        } else {
            self.eids.insert(eid);
            Sighting::New
        }
    }
}

/// An entity is announced to a client no more than once.
pub proof fn law_announced_once(seen: Set<i32>, own_eid: i32, eid: i32)
    requires
        sighting(seen, own_eid, eid) == Sighting::New,
    ensures
        sighting(seen.insert(eid), own_eid, eid) == Sighting::Known,
{
}

/// A player that leaves right after logging in leaves no trace.
pub proof fn law_login_then_leave(
    registry: RegistryView,
    eid: i32,
    position: PositionAndLook,
    username: Seq<char>,
)
    requires
        !registry.positions.contains_key(eid),
        !registry.usernames.contains_key(eid),
    ensures
        registry.with(eid, position, Some(username)).without(eid) == registry,
{
    let left = registry.with(eid, position, Some(username)).without(eid);
    assert(left.positions =~= registry.positions);
    assert(left.usernames =~= registry.usernames);
}

/// A player's later moves keep the name that was given on logging in.
pub proof fn law_moves_keep_names(registry: RegistryView, eid: i32, position: PositionAndLook)
    ensures
        registry.with(eid, position, None).usernames == registry.usernames,
{
}

/// After a player has moved, the registry has the player where the move says, and everybody else
/// where they were.
pub proof fn law_move_is_noted(
    registry: RegistryView,
    eid: i32,
    position: PositionAndLook,
    username: Option<Seq<char>>,
    other: i32,
)
    ensures
        ({
            let now = registry.with(eid, position, username);
            &&& now.position_of(eid) == Some(position)
            &&& now.news(eid, None).now == position
            &&& now.news(eid, None).eid == eid
            &&& username matches Some(name) ==> now.news(eid, None).username == name
            &&& other != eid ==> {
                &&& now.position_of(other) == registry.position_of(other)
                &&& now.usernames.contains_key(other) <==> registry.usernames.contains_key(other)
                &&& now.usernames[other] == registry.usernames[other]
            }
        }),
{
}

/// A player that has left is not known any more, and everybody else still is.
pub proof fn law_left_player_is_forgotten(registry: RegistryView, eid: i32, other: i32)
    ensures
        registry.without(eid).position_of(eid) is None,
        !registry.without(eid).usernames.contains_key(eid),
        other != eid ==> registry.without(eid).position_of(other) == registry.position_of(other)
            && (registry.without(eid).usernames.contains_key(other)
            <==> registry.usernames.contains_key(other)),
{
}

} // verus!
