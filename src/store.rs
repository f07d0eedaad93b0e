//! The entity store: one table per record type, point lookups by key, and
//! the invariants every committed state keeps.
use vstd::prelude::*;
use crate::records::{GameError, GameState, Identity, MonsterInstance, Player, PlayerInventory, PlayerStats, Room};

verus! {

/// The key of the singleton world-clock record.
pub const CLOCK_ID: u32 = 0;

/// The whole world state. Every change goes through an operation of this
/// library, which keeps `wf` and changes nothing when it fails.
pub struct World {
    /// The world clock; `None` until `init` runs.
    pub clock: Option<GameState>,
    pub players: Vec<Player>,
    /// Parallel to `players`: entry `i` belongs to `players[i]`.
    pub stats: Vec<PlayerStats>,
    pub inventory: Vec<PlayerInventory>,
    pub monsters: Vec<MonsterInstance>,
    pub rooms: Vec<Room>,
    /// The next inventory item id to hand out; above every id in use.
    pub next_item_id: u64,
    /// Counts committed submissions; a stale one is refused.
    pub version: u64,
}

/// The mathematical content of a `World`.
pub ghost struct WorldView {
    pub clock: Option<GameState>,
    pub players: Seq<Player>,
    pub stats: Seq<PlayerStats>,
    pub inventory: Seq<PlayerInventory>,
    pub monsters: Seq<MonsterInstance>,
    pub rooms: Seq<Room>,
    pub next_item_id: u64,
    pub version: u64,
}

impl View for World {
    type V = WorldView;

    open spec fn view(&self) -> WorldView {
        WorldView {
            clock: self.clock,
            players: self.players@,
            stats: self.stats@,
            inventory: self.inventory@,
            monsters: self.monsters@,
            rooms: self.rooms@,
            next_item_id: self.next_item_id,
            version: self.version,
        }
    }
}

pub open spec fn has_player(s: Seq<Player>, id: Identity) -> bool {
    exists|i: int| 0 <= i < s.len() && (#[trigger] s[i]).identity == id
}

pub open spec fn player_pos(s: Seq<Player>, id: Identity) -> int {
    choose|i: int| 0 <= i < s.len() && (#[trigger] s[i]).identity == id
}

pub open spec fn has_monster(s: Seq<MonsterInstance>, id: u64) -> bool {
    exists|i: int| 0 <= i < s.len() && (#[trigger] s[i]).instance_id == id
}

pub open spec fn monster_pos(s: Seq<MonsterInstance>, id: u64) -> int {
    choose|i: int| 0 <= i < s.len() && (#[trigger] s[i]).instance_id == id
}

pub open spec fn has_room(s: Seq<Room>, id: u32) -> bool {
    exists|i: int| 0 <= i < s.len() && (#[trigger] s[i]).id == id
}

pub open spec fn room_pos(s: Seq<Room>, id: u32) -> int {
    choose|i: int| 0 <= i < s.len() && (#[trigger] s[i]).id == id
}

pub open spec fn has_item(s: Seq<PlayerInventory>, id: u64) -> bool {
    exists|i: int| 0 <= i < s.len() && (#[trigger] s[i]).item_instance_id == id
}

/// The items that `owner` holds, in order of creation.
pub open spec fn items_of(s: Seq<PlayerInventory>, owner: Identity) -> Seq<PlayerInventory> {
    s.filter(|it: PlayerInventory| it.owner_identity == owner)
}

impl WorldView {
    pub open spec fn players_keyed(self) -> bool {
        forall|i: int, j: int|
            0 <= i < self.players.len() && 0 <= j < self.players.len()
                && #[trigger] self.players[i].identity == #[trigger] self.players[j].identity
                ==> i == j
    }

    pub open spec fn monsters_keyed(self) -> bool {
        forall|i: int, j: int|
            0 <= i < self.monsters.len() && 0 <= j < self.monsters.len()
                && #[trigger] self.monsters[i].instance_id == #[trigger] self.monsters[j].instance_id
                ==> i == j
    }

    pub open spec fn rooms_keyed(self) -> bool {
        forall|i: int, j: int|
            0 <= i < self.rooms.len() && 0 <= j < self.rooms.len()
                && #[trigger] self.rooms[i].id == #[trigger] self.rooms[j].id
                ==> i == j
    }

    /// Item ids are unique because each lies below `next_item_id` and
    /// they were handed out in increasing order.
    pub open spec fn items_keyed(self) -> bool {
        &&& forall|i: int| 0 <= i < self.inventory.len()
            ==> (#[trigger] self.inventory[i]).item_instance_id < self.next_item_id
        &&& forall|i: int, j: int| 0 <= i < j < self.inventory.len()
            ==> #[trigger] self.inventory[i].item_instance_id < #[trigger] self.inventory[j].item_instance_id
    }

    /// Every player has exactly one stats record, at the same position.
    pub open spec fn stats_paired(self) -> bool {
        &&& self.stats.len() == self.players.len()
        &&& forall|i: int| 0 <= i < self.players.len()
            ==> (#[trigger] self.stats[i]).player_identity == self.players[i].identity
    }

    /// Hit points lie in `0..=max_hp` and room references resolve.
    pub open spec fn records_sound(self) -> bool {
        &&& forall|i: int| 0 <= i < self.players.len() ==> {
            let p = #[trigger] self.players[i];
            0 <= p.hp <= p.max_hp && has_room(self.rooms, p.current_room_id)
        }
        &&& forall|i: int| 0 <= i < self.monsters.len() ==> {
            let m = #[trigger] self.monsters[i];
            0 <= m.hp <= m.max_hp && has_room(self.rooms, m.room_id)
        }
    }

    pub open spec fn clock_sound(self) -> bool {
        self.clock matches Some(c) ==> c.id == CLOCK_ID
    }

    /// The invariants of a committed state.
    pub open spec fn wf(self) -> bool {
        &&& self.players_keyed()
        &&& self.monsters_keyed()
        &&& self.rooms_keyed()
        &&& self.items_keyed()
        &&& self.stats_paired()
        &&& self.records_sound()
        &&& self.clock_sound()
    }
}

/// Replacing the clock by a sound one, or changing the version, keeps `wf`.
pub proof fn lemma_wf_same_tables(a: WorldView, b: WorldView)
    requires
        a.wf(),
        b.clock_sound(),
        b.players == a.players,
        b.stats == a.stats,
        b.inventory == a.inventory,
        b.monsters == a.monsters,
        b.rooms == a.rooms,
        b.next_item_id == a.next_item_id,
    ensures
        b.wf(),
{
}

impl World {
    /// An empty world: no clock, no content, no players.
    pub fn new() -> (w: World)
        ensures
            w@.wf(),
            w@ == (WorldView {
                clock: None,
                players: Seq::empty(),
                stats: Seq::empty(),
                inventory: Seq::empty(),
                monsters: Seq::empty(),
                rooms: Seq::empty(),
                next_item_id: 0,
                version: 0,
            }),
    {
        World {
            clock: None,
            players: Vec::new(),
            stats: Vec::new(),
            inventory: Vec::new(),
            monsters: Vec::new(),
            rooms: Vec::new(),
            next_item_id: 0,
            version: 0,
        }
    }

    /// Position of the player keyed by `id`.
    pub fn find_player(&self, id: Identity) -> (r: Option<usize>)
        requires
            self@.players_keyed(),
        ensures
            r is None <==> !has_player(self@.players, id),
            r matches Some(i) ==> i == player_pos(self@.players, id) && i < self@.players.len(),
    {
        let mut i: usize = 0;
        while i < self.players.len()
            invariant
                i <= self.players.len(),
                self@.players_keyed(),
                forall|k: int| 0 <= k < i ==> (#[trigger] self.players@[k]).identity != id,
            decreases self.players.len() - i,
        {
            if self.players[i].identity == id {
                proof {
                    assert(self@.players[i as int].identity == id);
                    assert(has_player(self@.players, id));
                    let p = player_pos(self@.players, id);
                    assert(self@.players[p].identity == self@.players[i as int].identity);
                }
                return Some(i);
            }
            i += 1;
        }
        None
    }

    /// Position of the monster keyed by `id`.
    pub fn find_monster(&self, id: u64) -> (r: Option<usize>)
        requires
            self@.monsters_keyed(),
        ensures
            r is None <==> !has_monster(self@.monsters, id),
            r matches Some(i) ==> i == monster_pos(self@.monsters, id) && i < self@.monsters.len(),
    {
        let mut i: usize = 0;
        while i < self.monsters.len()
            invariant
                i <= self.monsters.len(),
                self@.monsters_keyed(),
                forall|k: int| 0 <= k < i ==> (#[trigger] self.monsters@[k]).instance_id != id,
            decreases self.monsters.len() - i,
        {
            if self.monsters[i].instance_id == id {
                proof {
                    assert(self@.monsters[i as int].instance_id == id);
                    assert(has_monster(self@.monsters, id));
                    let p = monster_pos(self@.monsters, id);
                    assert(self@.monsters[p].instance_id == self@.monsters[i as int].instance_id);
                }
                return Some(i);
            }
            i += 1;
        }
        None
    }

    /// Position of the room keyed by `id`.
    pub fn find_room(&self, id: u32) -> (r: Option<usize>)
        requires
            self@.rooms_keyed(),
        ensures
            r is None <==> !has_room(self@.rooms, id),
            r matches Some(i) ==> i == room_pos(self@.rooms, id) && i < self@.rooms.len(),
    {
        let mut i: usize = 0;
        while i < self.rooms.len()
            invariant
                i <= self.rooms.len(),
                self@.rooms_keyed(),
                forall|k: int| 0 <= k < i ==> (#[trigger] self.rooms@[k]).id != id,
            decreases self.rooms.len() - i,
        {
            if self.rooms[i].id == id {
                proof {
                    assert(self@.rooms[i as int].id == id);
                    assert(has_room(self@.rooms, id));
                    let p = room_pos(self@.rooms, id);
                    assert(self@.rooms[p].id == self@.rooms[i as int].id);
                }
                return Some(i);
            }
            i += 1;
        }
        None
    }

    /// Whether no two players share a key.
    fn check_players_keyed(&self) -> (r: bool)
        ensures
            r == self@.players_keyed(),
    {
        let n = self.players.len();
        let mut i: usize = 0;
        while i < n
            invariant
                n == self@.players.len(),
                i <= n,
                forall|a: int, b: int|
                    0 <= a < i && 0 <= b < n && a != b
                        ==> #[trigger] self@.players[a].identity != #[trigger] self@.players[b].identity,
            decreases n - i,
        {
            let mut j: usize = 0;
            while j < n
                invariant
                    n == self@.players.len(),
                    i < n,
                    j <= n,
                    forall|a: int, b: int|
                        0 <= a < i && 0 <= b < n && a != b
                            ==> #[trigger] self@.players[a].identity != #[trigger] self@.players[b].identity,
                    forall|b: int| 0 <= b < j && b != i
                        ==> self@.players[i as int].identity != #[trigger] self@.players[b].identity,
                decreases n - j,
            {
                if j != i && self.players[i].identity == self.players[j].identity {
                    assert(self@.players[i as int].identity == self@.players[j as int].identity);
                    return false;
                }
                j += 1;
            }
            i += 1;
        }
        true
    }

    /// Whether no two monsters share a key.
    fn check_monsters_keyed(&self) -> (r: bool)
        ensures
            r == self@.monsters_keyed(),
    {
        let n = self.monsters.len();
        let mut i: usize = 0;
        while i < n
            invariant
                n == self@.monsters.len(),
                i <= n,
                forall|a: int, b: int|
                    0 <= a < i && 0 <= b < n && a != b
                        ==> #[trigger] self@.monsters[a].instance_id != #[trigger] self@.monsters[b].instance_id,
            decreases n - i,
        {
            let mut j: usize = 0;
            while j < n
                invariant
                    n == self@.monsters.len(),
                    i < n,
                    j <= n,
                    forall|a: int, b: int|
                        0 <= a < i && 0 <= b < n && a != b
                            ==> #[trigger] self@.monsters[a].instance_id != #[trigger] self@.monsters[b].instance_id,
                    forall|b: int| 0 <= b < j && b != i
                        ==> self@.monsters[i as int].instance_id != #[trigger] self@.monsters[b].instance_id,
                decreases n - j,
            {
                if j != i && self.monsters[i].instance_id == self.monsters[j].instance_id {
                    assert(self@.monsters[i as int].instance_id == self@.monsters[j as int].instance_id);
                    return false;
                }
                j += 1;
            }
            i += 1;
        }
        true
    }

    /// Whether no two rooms share a key.
    fn check_rooms_keyed(&self) -> (r: bool)
        ensures
            r == self@.rooms_keyed(),
    {
        let n = self.rooms.len();
        let mut i: usize = 0;
        while i < n
            invariant
                n == self@.rooms.len(),
                i <= n,
                forall|a: int, b: int|
                    0 <= a < i && 0 <= b < n && a != b
                        ==> #[trigger] self@.rooms[a].id != #[trigger] self@.rooms[b].id,
            decreases n - i,
        {
            let mut j: usize = 0;
            while j < n
                invariant
                    n == self@.rooms.len(),
                    i < n,
                    j <= n,
                    forall|a: int, b: int|
                        0 <= a < i && 0 <= b < n && a != b
                            ==> #[trigger] self@.rooms[a].id != #[trigger] self@.rooms[b].id,
                    forall|b: int| 0 <= b < j && b != i
                        ==> self@.rooms[i as int].id != #[trigger] self@.rooms[b].id,
                decreases n - j,
            {
                if j != i && self.rooms[i].id == self.rooms[j].id {
                    assert(self@.rooms[i as int].id == self@.rooms[j as int].id);
                    return false;
                }
                j += 1;
            }
            i += 1;
        }
        true
    }

    /// Whether item ids increase along the table and stay below
    /// `next_item_id`.
    fn check_items_keyed(&self) -> (r: bool)
        ensures
            r == self@.items_keyed(),
    {
        let n = self.inventory.len();
        let mut k: usize = 0;
        while k < n
            invariant
                n == self@.inventory.len(),
                k <= n,
                forall|a: int| 0 <= a < k
                    ==> (#[trigger] self@.inventory[a]).item_instance_id < self.next_item_id,
                forall|a: int, b: int| 0 <= a < b < k
                    ==> #[trigger] self@.inventory[a].item_instance_id < #[trigger] self@.inventory[b].item_instance_id,
            decreases n - k,
        {
            if self.inventory[k].item_instance_id >= self.next_item_id {
                return false;
            }
            if k > 0 && self.inventory[k - 1].item_instance_id >= self.inventory[k].item_instance_id {
                assert(self@.inventory[k - 1].item_instance_id >= self@.inventory[k as int].item_instance_id);
                return false;
            }
            assert forall|a: int| 0 <= a < k implies
                #[trigger] self@.inventory[a].item_instance_id < self@.inventory[k as int].item_instance_id by {
                if a < k - 1 {
                    assert(self@.inventory[a].item_instance_id < self@.inventory[k - 1].item_instance_id);
                }
            }
            k += 1;
        }
        true
    }

    /// Whether every player has its stats record at the same position.
    fn check_stats_paired(&self) -> (r: bool)
        ensures
            r == self@.stats_paired(),
    {
        if self.stats.len() != self.players.len() {
            return false;
        }
        let n = self.players.len();
        let mut i: usize = 0;
        while i < n
            invariant
                n == self@.players.len(),
                n == self@.stats.len(),
                i <= n,
                forall|a: int| 0 <= a < i
                    ==> (#[trigger] self@.stats[a]).player_identity == self@.players[a].identity,
            decreases n - i,
        {
            if self.stats[i].player_identity != self.players[i].identity {
                return false;
            }
            i += 1;
        }
        true
    }

    /// Whether hit points lie in bounds and room references resolve.
    fn check_records_sound(&self) -> (r: bool)
        requires
            self@.rooms_keyed(),
        ensures
            r == self@.records_sound(),
    {
        let n = self.players.len();
        let mut i: usize = 0;
        while i < n
            invariant
                n == self@.players.len(),
                i <= n,
                self@.rooms_keyed(),
                forall|a: int| 0 <= a < i ==> {
                    let p = #[trigger] self@.players[a];
                    0 <= p.hp <= p.max_hp && has_room(self@.rooms, p.current_room_id)
                },
            decreases n - i,
        {
            let p = &self.players[i];
            if !(0 <= p.hp && p.hp <= p.max_hp) || self.find_room(p.current_room_id).is_none() {
                assert(!({
                    let q = self@.players[i as int];
                    0 <= q.hp <= q.max_hp && has_room(self@.rooms, q.current_room_id)
                }));
                return false;
            }
            i += 1;
        }
        let m = self.monsters.len();
        let mut k: usize = 0;
        while k < m
            invariant
                m == self@.monsters.len(),
                k <= m,
                self@.rooms_keyed(),
                forall|a: int| 0 <= a < self@.players.len() ==> {
                    let p = #[trigger] self@.players[a];
                    0 <= p.hp <= p.max_hp && has_room(self@.rooms, p.current_room_id)
                },
                forall|a: int| 0 <= a < k ==> {
                    let x = #[trigger] self@.monsters[a];
                    0 <= x.hp <= x.max_hp && has_room(self@.rooms, x.room_id)
                },
            decreases m - k,
        {
            let x = &self.monsters[k];
            if !(0 <= x.hp && x.hp <= x.max_hp) || self.find_room(x.room_id).is_none() {
                assert(!({
                    let q = self@.monsters[k as int];
                    0 <= q.hp <= q.max_hp && has_room(self@.rooms, q.room_id)
                }));
                return false;
            }
            k += 1;
        }
        true
    }

    /// Whether this world satisfies every invariant of a committed state;
    /// a state assembled from outside must pass this before any operation
    /// runs on it.
    pub fn is_well_formed(&self) -> (r: bool)
        ensures
            r == self@.wf(),
    {
        let clock_ok = match self.clock {
            Some(c) => c.id == CLOCK_ID,
            None => true,
        };
        if !clock_ok || !self.check_rooms_keyed() {
            return false;
        }
        self.check_players_keyed() && self.check_monsters_keyed() && self.check_items_keyed()
            && self.check_stats_paired() && self.check_records_sound()
    }

    /// Adds a room of the world graph. Fails with `AlreadyExists` if its id
    /// is taken.
    pub fn add_room(&mut self, room: Room) -> (r: Result<(), GameError>)
        requires
            old(self)@.wf(),
        ensures
            final(self)@.wf(),
            if has_room(old(self)@.rooms, room.id) {
                r == Err::<(), GameError>(GameError::AlreadyExists) && final(self)@ == old(self)@
            } else {
                r == Ok::<(), GameError>(()) && final(self)@ == (WorldView {
                    rooms: old(self)@.rooms.push(room),
                    ..old(self)@
                })
            },
    {
        if self.find_room(room.id).is_some() {
            return Err(GameError::AlreadyExists);
        }
        let ghost pre = self@;
        let ghost added = room;
        self.rooms.push(room);
        proof {
            let post = self@;
            assert(post.rooms == pre.rooms.push(added));
            assert(post.players == pre.players);
            assert(post.monsters == pre.monsters);
            assert(post.inventory == pre.inventory);
            assert(post.rooms.take(pre.rooms.len() as int) =~= pre.rooms);
            lemma_rooms_grow(pre, post);
            assert forall|i: int, j: int|
                0 <= i < post.rooms.len() && 0 <= j < post.rooms.len()
                    && #[trigger] post.rooms[i].id == #[trigger] post.rooms[j].id
                implies i == j by {
                if i < pre.rooms.len() && j == pre.rooms.len() {
                    assert(pre.rooms[i].id == added.id);
                } else if j < pre.rooms.len() && i == pre.rooms.len() {
                    assert(pre.rooms[j].id == added.id);
                }
            }
        }
        Ok(())
    }

    /// Places a monster in the world. Fails with `AlreadyExists` if its id
    /// is taken, `InvalidArgument` unless `0 < hp <= max_hp`, and
    /// `NotFound` if its room does not exist.
    pub fn spawn_monster(&mut self, monster: MonsterInstance) -> (r: Result<(), GameError>)
        requires
            old(self)@.wf(),
        ensures
            final(self)@.wf(),
            if has_monster(old(self)@.monsters, monster.instance_id) {
                r == Err::<(), GameError>(GameError::AlreadyExists) && final(self)@ == old(self)@
            } else if !(0 < monster.hp <= monster.max_hp) {
                r == Err::<(), GameError>(GameError::InvalidArgument) && final(self)@ == old(self)@
            } else if !has_room(old(self)@.rooms, monster.room_id) {
                r == Err::<(), GameError>(GameError::NotFound) && final(self)@ == old(self)@
            } else {
                r == Ok::<(), GameError>(()) && final(self)@ == (WorldView {
                    monsters: old(self)@.monsters.push(monster),
                    ..old(self)@
                })
            },
    {
        if self.find_monster(monster.instance_id).is_some() {
            return Err(GameError::AlreadyExists);
        }
        if !(0 < monster.hp && monster.hp <= monster.max_hp) {
            return Err(GameError::InvalidArgument);
        }
        if self.find_room(monster.room_id).is_none() {
            return Err(GameError::NotFound);
        }
        let ghost pre = self@;
        let ghost added = monster;
        self.monsters.push(monster);
        proof {
            let post = self@;
            assert(post.monsters == pre.monsters.push(added));
            assert(post.players == pre.players);
            assert(post.rooms == pre.rooms);
            assert(post.inventory == pre.inventory);
            assert forall|i: int, j: int|
                0 <= i < post.monsters.len() && 0 <= j < post.monsters.len()
                    && #[trigger] post.monsters[i].instance_id == #[trigger] post.monsters[j].instance_id
                implies i == j by {
                if i < pre.monsters.len() && j == pre.monsters.len() {
                    assert(pre.monsters[i].instance_id == added.instance_id);
                } else if j < pre.monsters.len() && i == pre.monsters.len() {
                    assert(pre.monsters[j].instance_id == added.instance_id);
                }
            }
            assert forall|i: int| 0 <= i < post.monsters.len() implies {
                let m = #[trigger] post.monsters[i];
                0 <= m.hp <= m.max_hp && has_room(post.rooms, m.room_id)
            } by {
                if i < pre.monsters.len() {
                    assert(post.monsters[i] == pre.monsters[i]);
                }
            }
        }
        Ok(())
    }
}

/// Appending a room keeps every room reference resolving.
proof fn lemma_rooms_grow(a: WorldView, b: WorldView)
    requires
        a.records_sound(),
        b.players == a.players,
        b.monsters == a.monsters,
        b.rooms.len() == a.rooms.len() + 1,
        b.rooms.take(a.rooms.len() as int) == a.rooms,
    ensures
        b.records_sound(),
{
    assert forall|i: int| 0 <= i < b.players.len() implies {
        let p = #[trigger] b.players[i];
        0 <= p.hp <= p.max_hp && has_room(b.rooms, p.current_room_id)
    } by {
        let p = b.players[i];
        assert(has_room(a.rooms, p.current_room_id));
        let k = choose|k: int| 0 <= k < a.rooms.len() && (#[trigger] a.rooms[k]).id == p.current_room_id;
        assert(b.rooms.take(a.rooms.len() as int)[k] == b.rooms[k]);
    }
    assert forall|i: int| 0 <= i < b.monsters.len() implies {
        let m = #[trigger] b.monsters[i];
        0 <= m.hp <= m.max_hp && has_room(b.rooms, m.room_id)
    } by {
        let m = b.monsters[i];
        assert(has_room(a.rooms, m.room_id));
        let k = choose|k: int| 0 <= k < a.rooms.len() && (#[trigger] a.rooms[k]).id == m.room_id;
        assert(b.rooms.take(a.rooms.len() as int)[k] == b.rooms[k]);
    }
}

} // verus!
