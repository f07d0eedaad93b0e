//! The operations that change the world: bootstrap, the clock tick, and the
//! gameplay operations. Each checks everything before it writes, so a failed
//! call leaves the world exactly as it found it.
use vstd::prelude::*;
use crate::records::{
    direction_named, GameError, GameState, Identity, MonsterInstance, Player, PlayerInventory,
    PlayerStats, TimeOfDay, Weather,
};
use crate::store::{
    has_monster, has_player, has_room, lemma_wf_same_tables, monster_pos, player_pos, room_pos, World, WorldView,
    CLOCK_ID,
};

verus! {

/// The room every new character starts in.
pub const START_ROOM_ID: u32 = 1;

/// The hit points, and maximum hit points, of a new character.
pub const START_HP: i32 = 100;

/// The strength of a new character.
pub const START_STRENGTH: u32 = 50;

/// The stamina of a new character.
pub const START_STAMINA: u32 = 50;

/// Night falls on every tick whose count is a multiple of this.
pub const NIGHT_PERIOD: u64 = 100;

/// The clock record that `init` seeds.
pub open spec fn initial_clock() -> GameState {
    GameState { id: CLOCK_ID, tick_count: 0, time_of_day: TimeOfDay::Day, weather: Weather::Clear }
}

/// The clock after one tick. Defined where `tick_count` can still grow.
pub open spec fn tick_spec(c: GameState) -> GameState {
    let n = (c.tick_count + 1) as u64;
    GameState {
        tick_count: n,
        time_of_day: if n % NIGHT_PERIOD == 0 { TimeOfDay::Night } else { c.time_of_day },
        ..c
    }
}

/// What `init` does.
pub open spec fn init_post(pre: WorldView, post: WorldView, r: Result<(), GameError>) -> bool {
    if pre.clock is Some {
        r == Err::<(), GameError>(GameError::Internal) && post == pre
    } else {
        r == Ok::<(), GameError>(()) && post == (WorldView { clock: Some(initial_clock()), ..pre })
    }
}

/// What `tick` does.
pub open spec fn tick_post(pre: WorldView, post: WorldView, r: Result<(), GameError>) -> bool {
    match pre.clock {
        None => r == Err::<(), GameError>(GameError::Internal) && post == pre,
        Some(c) => if c.tick_count == u64::MAX {
            r == Err::<(), GameError>(GameError::Internal) && post == pre
        } else {
            r == Ok::<(), GameError>(()) && post == (WorldView { clock: Some(tick_spec(c)), ..pre })
        },
    }
}

/// The player record a new character starts with.
pub open spec fn new_player(id: Identity, name: String) -> Player {
    Player { identity: id, name, current_room_id: START_ROOM_ID, hp: START_HP, max_hp: START_HP }
}

/// The stats record a new character starts with.
pub open spec fn new_stats(id: Identity) -> PlayerStats {
    PlayerStats { player_identity: id, strength: START_STRENGTH, stamina: START_STAMINA }
}

/// What `create_character` does.
pub open spec fn create_post(
    pre: WorldView,
    post: WorldView,
    id: Identity,
    name: String,
    r: Result<(), GameError>,
) -> bool {
    if has_player(pre.players, id) {
        r == Err::<(), GameError>(GameError::AlreadyExists) && post == pre
    } else if name@.len() == 0 {
        r == Err::<(), GameError>(GameError::InvalidArgument) && post == pre
    } else if !has_room(pre.rooms, START_ROOM_ID) {
        r == Err::<(), GameError>(GameError::NotFound) && post == pre
    } else {
        r == Ok::<(), GameError>(()) && post == (WorldView {
            players: pre.players.push(new_player(id, name)),
            stats: pre.stats.push(new_stats(id)),
            ..pre
        })
    }
}

/// What `move_player` does.
pub open spec fn move_post(
    pre: WorldView,
    post: WorldView,
    id: Identity,
    direction: Seq<char>,
    r: Result<(), GameError>,
) -> bool {
    if !has_player(pre.players, id) {
        r == Err::<(), GameError>(GameError::NotFound) && post == pre
    } else {
        let i = player_pos(pre.players, id);
        let p = pre.players[i];
        if !has_room(pre.rooms, p.current_room_id) {
            r == Err::<(), GameError>(GameError::NotFound) && post == pre
        } else {
            let room = pre.rooms[room_pos(pre.rooms, p.current_room_id)];
            match direction_named(direction) {
                None => r == Err::<(), GameError>(GameError::InvalidArgument) && post == pre,
                Some(d) => match room.exit_spec(d) {
                    None => r == Err::<(), GameError>(GameError::Blocked) && post == pre,
                    Some(dest) => if !has_room(pre.rooms, dest) {
                        r == Err::<(), GameError>(GameError::NotFound) && post == pre
                    } else {
                        r == Ok::<(), GameError>(()) && post == (WorldView {
                            players: pre.players.update(i, Player { current_room_id: dest, ..p }),
                            ..pre
                        })
                    },
                },
            }
        }
    }
}

/// The item template that a defeated monster of template `t` drops.
pub open spec fn drop_of(t: Seq<char>) -> Seq<char> {
    "rat_tail"@
}

/// Damage dealt by an attacker with strength `strength`.
pub open spec fn damage_of(strength: u32) -> int {
    strength as int / 2
}

/// `post.inventory` is `pre.inventory` with one item appended: id `item`,
/// owned by `owner`, of template `template`.
pub open spec fn loot_added(
    pre: Seq<PlayerInventory>,
    post: Seq<PlayerInventory>,
    item: u64,
    owner: Identity,
    template: Seq<char>,
) -> bool {
    &&& post.len() == pre.len() + 1
    &&& post.take(pre.len() as int) == pre
    &&& post.last().item_instance_id == item
    &&& post.last().owner_identity == owner
    &&& post.last().item_template_id@ == template
}

/// What `attack_monster` does.
pub open spec fn attack_post(
    pre: WorldView,
    post: WorldView,
    id: Identity,
    monster_id: u64,
    r: Result<(), GameError>,
) -> bool {
    if !has_player(pre.players, id) || !has_monster(pre.monsters, monster_id) {
        r == Err::<(), GameError>(GameError::NotFound) && post == pre
    } else {
        let s = pre.stats[player_pos(pre.players, id)];
        let mi = monster_pos(pre.monsters, monster_id);
        let m = pre.monsters[mi];
        let hp = m.hp - damage_of(s.strength);
        if hp > 0 {
            r == Ok::<(), GameError>(()) && post == (WorldView {
                monsters: pre.monsters.update(mi, MonsterInstance { hp: hp as i32, ..m }),
                ..pre
            })
        } else if pre.next_item_id == u64::MAX {
            r == Err::<(), GameError>(GameError::Internal) && post == pre
        } else {
            &&& r == Ok::<(), GameError>(())
            &&& loot_added(pre.inventory, post.inventory, pre.next_item_id, id, drop_of(m.template_id@))
            &&& post == (WorldView {
                monsters: pre.monsters.remove(mi),
                inventory: post.inventory,
                next_item_id: (pre.next_item_id + 1) as u64,
                ..pre
            })
        }
    }
}

/// Seeds the world clock. Fails with `Internal` if the world already has one.
pub fn init(world: &mut World) -> (r: Result<(), GameError>)
    requires
        old(world)@.wf(),
    ensures
        final(world)@.wf(),
        init_post(old(world)@, final(world)@, r),
{
    if world.clock.is_some() {
        return Err(GameError::Internal);
    }
    world.clock = Some(
        GameState { id: CLOCK_ID, tick_count: 0, time_of_day: TimeOfDay::Day, weather: Weather::Clear },
    );
    proof {
        lemma_wf_same_tables(old(world)@, world@);
    }
    Ok(())
}

/// Advances the world clock by one tick; night falls when the count
/// reaches a multiple of `NIGHT_PERIOD`. Fails with `Internal`, changing
/// nothing, when there is no clock or its count cannot grow.
pub fn tick(world: &mut World) -> (r: Result<(), GameError>)
    requires
        old(world)@.wf(),
    ensures
        final(world)@.wf(),
        tick_post(old(world)@, final(world)@, r),
{
    match world.clock {
        None => Err(GameError::Internal),
        Some(c) => {
            if c.tick_count == u64::MAX {
                return Err(GameError::Internal);
            }
            let n = c.tick_count + 1;
            let time_of_day = if n % NIGHT_PERIOD == 0 {
                TimeOfDay::Night
            } else {
                c.time_of_day
            };
            world.clock = Some(GameState { tick_count: n, time_of_day, ..c });
            proof {
                lemma_wf_same_tables(old(world)@, world@);
            }
            Ok(())
        },
    }
}

/// Creates the character of `id`: a player in the starting room at full
/// health, and its stats, inserted together. Fails with `AlreadyExists` if
/// `id` has a character, `InvalidArgument` on an empty name, and `NotFound`
/// if the starting room does not exist.
pub fn create_character(world: &mut World, id: Identity, name: String) -> (r: Result<(), GameError>)
    requires
        old(world)@.wf(),
    ensures
        final(world)@.wf(),
        create_post(old(world)@, final(world)@, id, name, r),
{
    if world.find_player(id).is_some() {
        return Err(GameError::AlreadyExists);
    }
    if name.as_str().is_empty() {
        return Err(GameError::InvalidArgument);
    }
    if world.find_room(START_ROOM_ID).is_none() {
        return Err(GameError::NotFound);
    }
    let ghost pre = world@;
    let ghost given = name;
    world.players.push(
        Player { identity: id, name, current_room_id: START_ROOM_ID, hp: START_HP, max_hp: START_HP },
    );
    world.stats.push(
        PlayerStats { player_identity: id, strength: START_STRENGTH, stamina: START_STAMINA },
    );
    proof {
        let post = world@;
        assert(post.players == pre.players.push(new_player(id, given)));
        assert forall|i: int, j: int|
            0 <= i < post.players.len() && 0 <= j < post.players.len()
                && #[trigger] post.players[i].identity == #[trigger] post.players[j].identity
            implies i == j by {
            if i < pre.players.len() && j == pre.players.len() {
                assert(pre.players[i].identity == id);
            } else if j < pre.players.len() && i == pre.players.len() {
                assert(pre.players[j].identity == id);
            }
        }
        assert forall|i: int| 0 <= i < post.players.len() implies {
            let p = #[trigger] post.players[i];
            0 <= p.hp <= p.max_hp && has_room(post.rooms, p.current_room_id)
        } by {
            if i < pre.players.len() {
                assert(post.players[i] == pre.players[i]);
            }
        }
        assert(post.players_keyed());
        assert(post.monsters == pre.monsters);
        assert(post.inventory == pre.inventory);
        assert(post.monsters_keyed());
        assert(post.rooms_keyed());
        assert(post.items_keyed());
        assert(post.stats_paired());
        assert(post.records_sound());
        assert(post.clock_sound());
    }
    Ok(())
}

/// Moves the player of `id` through the exit of its room in `direction`.
/// Fails with `NotFound` if `id` has no character, `InvalidArgument` if
/// `direction` names no direction, `Blocked` if the room has no exit that
/// way, and `NotFound` if the exit leads to a room that does not exist.
pub fn move_player(world: &mut World, id: Identity, direction: String) -> (r: Result<(), GameError>)
    requires
        old(world)@.wf(),
    ensures
        final(world)@.wf(),
        move_post(old(world)@, final(world)@, id, direction@, r),
{
    let i = match world.find_player(id) {
        Some(i) => i,
        None => return Err(GameError::NotFound),
    };
    let ri = match world.find_room(world.players[i].current_room_id) {
        Some(ri) => ri,
        None => return Err(GameError::NotFound),
    };
    let d = match crate::records::parse_direction(&direction) {
        Some(d) => d,
        None => return Err(GameError::InvalidArgument),
    };
    let dest = match world.rooms[ri].exit(d) {
        Some(dest) => dest,
        None => return Err(GameError::Blocked),
    };
    if world.find_room(dest).is_none() {
        return Err(GameError::NotFound);
    }
    let ghost pre = world@;
    world.players[i].current_room_id = dest;
    proof {
        let post = world@;
        assert(post.players == pre.players.update(
            i as int,
            Player { current_room_id: dest, ..pre.players[i as int] },
        ));
        assert forall|a: int, b: int|
            0 <= a < post.players.len() && 0 <= b < post.players.len()
                && #[trigger] post.players[a].identity == #[trigger] post.players[b].identity
            implies a == b by {
            assert(pre.players[a].identity == post.players[a].identity);
            assert(pre.players[b].identity == post.players[b].identity);
        }
        assert forall|a: int| 0 <= a < post.players.len() implies {
            let p = #[trigger] post.players[a];
            0 <= p.hp <= p.max_hp && has_room(post.rooms, p.current_room_id)
        } by {
            assert(pre.players[a] == post.players[a] || a == i);
        }
        assert forall|a: int| 0 <= a < post.players.len() implies
            (#[trigger] post.stats[a]).player_identity == post.players[a].identity by {
            assert(pre.players[a].identity == post.players[a].identity);
        }
    }
    Ok(())
}

/// The item template that a defeated monster of template `template` drops.
pub fn loot_for(template: &String) -> (r: String)
    ensures
        r@ == drop_of(template@),
{
    "rat_tail".to_owned()
}

/// The attack of the character of `id` on monster `monster_id`: the
/// monster loses half the attacker's strength in hit points. A monster left
/// with no hit points is removed and the attacker gains its loot, under the
/// next free item id. Fails with `NotFound` if `id` has no character or the
/// monster does not exist, and with `Internal` if item ids are exhausted.
pub fn attack_monster(world: &mut World, id: Identity, monster_id: u64) -> (r: Result<(), GameError>)
    requires
        old(world)@.wf(),
    ensures
        final(world)@.wf(),
        attack_post(old(world)@, final(world)@, id, monster_id, r),
{
    let i = match world.find_player(id) {
        Some(i) => i,
        None => return Err(GameError::NotFound),
    };
    let mi = match world.find_monster(monster_id) {
        Some(mi) => mi,
        None => return Err(GameError::NotFound),
    };
    let ghost pre = world@;
    assert(pre.records_sound());
    assert(0 <= pre.monsters[mi as int].hp);
    let damage: u32 = world.stats[i].strength / 2;
    let hp: i32 = world.monsters[mi].hp - damage as i32;
    if hp > 0 {
        world.monsters[mi].hp = hp;
        proof {
            let post = world@;
            assert(post.monsters == pre.monsters.update(
                mi as int,
                MonsterInstance { hp: hp, ..pre.monsters[mi as int] },
            ));
            assert(post.players == pre.players);
            assert(post.inventory == pre.inventory);
            assert(post.rooms == pre.rooms);
            assert forall|a: int, b: int|
                0 <= a < post.monsters.len() && 0 <= b < post.monsters.len()
                    && #[trigger] post.monsters[a].instance_id == #[trigger] post.monsters[b].instance_id
                implies a == b by {
                assert(pre.monsters[a].instance_id == post.monsters[a].instance_id);
                assert(pre.monsters[b].instance_id == post.monsters[b].instance_id);
            }
            assert forall|a: int| 0 <= a < post.monsters.len() implies {
                let m = #[trigger] post.monsters[a];
                0 <= m.hp <= m.max_hp && has_room(post.rooms, m.room_id)
            } by {
                assert(pre.monsters[a] == post.monsters[a] || a == mi);
            }
        }
        Ok(())
    } else {
        if world.next_item_id == u64::MAX {
            return Err(GameError::Internal);
        }
        let item: u64 = world.next_item_id;
        let m = world.monsters.remove(mi);
        let template = loot_for(&m.template_id);
        world.inventory.push(
            PlayerInventory { item_instance_id: item, owner_identity: id, item_template_id: template },
        );
        world.next_item_id = item + 1;
        proof {
            let post = world@;
            assert(post.monsters == pre.monsters.remove(mi as int));
            assert(post.players == pre.players);
            assert(post.rooms == pre.rooms);
            assert(post.inventory.take(pre.inventory.len() as int) == pre.inventory);
            assert forall|a: int, b: int|
                0 <= a < post.monsters.len() && 0 <= b < post.monsters.len()
                    && #[trigger] post.monsters[a].instance_id == #[trigger] post.monsters[b].instance_id
                implies a == b by {
                let a0 = if a < mi { a } else { a + 1 };
                let b0 = if b < mi { b } else { b + 1 };
                assert(pre.monsters[a0] == post.monsters[a]);
                assert(pre.monsters[b0] == post.monsters[b]);
            }
            assert forall|a: int| 0 <= a < post.monsters.len() implies {
                let m = #[trigger] post.monsters[a];
                0 <= m.hp <= m.max_hp && has_room(post.rooms, m.room_id)
            } by {
                let a0 = if a < mi { a } else { a + 1 };
                assert(pre.monsters[a0] == post.monsters[a]);
            }
            assert forall|a: int| 0 <= a < post.inventory.len() implies
                (#[trigger] post.inventory[a]).item_instance_id < post.next_item_id by {
                if a < pre.inventory.len() {
                    assert(post.inventory[a] == pre.inventory[a]);
                }
            }
            assert forall|a: int, b: int| 0 <= a < b < post.inventory.len() implies
                #[trigger] post.inventory[a].item_instance_id < #[trigger] post.inventory[b].item_instance_id by {
                assert(post.inventory[a] == pre.inventory[a]);
                if b < pre.inventory.len() {
                    assert(post.inventory[b] == pre.inventory[b]);
                }
            }
        }
        Ok(())
    }
}

} // verus!
