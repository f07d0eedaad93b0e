//! Laws of the operations, stated over their contracts and proved.
use vstd::prelude::*;
use crate::records::{GameError, Identity};
use crate::store::{has_monster, has_player, has_room, monster_pos, player_pos, WorldView};
use crate::ops::{attack_post, create_post, drop_of, loot_added, move_post, tick_spec};
use crate::engine::{command_post, submit_post, Command};

verus! {

/// Two states that no observer can tell apart: equal tables, and loot
/// items that agree in id, owner and template.
pub open spec fn same_outcome(a: WorldView, b: WorldView) -> bool {
    &&& a.clock == b.clock
    &&& a.players == b.players
    &&& a.stats == b.stats
    &&& a.monsters == b.monsters
    &&& a.rooms == b.rooms
    &&& a.next_item_id == b.next_item_id
    &&& a.version == b.version
    &&& a.inventory.len() == b.inventory.len()
    &&& forall|i: int| 0 <= i < a.inventory.len() ==> {
        &&& (#[trigger] a.inventory[i]).item_instance_id == b.inventory[i].item_instance_id
        &&& a.inventory[i].owner_identity == b.inventory[i].owner_identity
        &&& a.inventory[i].item_template_id@ == b.inventory[i].item_template_id@
    }
}

/// A committed attack by an attacker of strength at least 2 either leaves
/// the monster alive with fewer hit points and the inventory untouched, or
/// removes the monster and adds exactly its loot to the attacker; never
/// both.
pub proof fn lemma_attack_outcome(
    pre: WorldView,
    post: WorldView,
    id: Identity,
    monster_id: u64,
    r: Result<(), GameError>,
)
    requires
        pre.wf(),
        attack_post(pre, post, id, monster_id, r),
        r is Ok,
        has_player(pre.players, id) ==> pre.stats[player_pos(pre.players, id)].strength >= 2,
    ensures
        has_player(pre.players, id),
        has_monster(pre.monsters, monster_id),
        ({
            let before = pre.monsters[monster_pos(pre.monsters, monster_id)];
            ||| {
                &&& has_monster(post.monsters, monster_id)
                &&& post.monsters[monster_pos(post.monsters, monster_id)].hp < before.hp
                &&& post.inventory == pre.inventory
            }
            ||| {
                &&& !has_monster(post.monsters, monster_id)
                &&& loot_added(pre.inventory, post.inventory, pre.next_item_id, id, drop_of(before.template_id@))
            }
        }),
{
    let mi = monster_pos(pre.monsters, monster_id);
    let m = pre.monsters[mi];
    if post.monsters.len() == pre.monsters.len() {
        assert(post.monsters[mi].instance_id == monster_id);
        assert(has_monster(post.monsters, monster_id));
        let pi = monster_pos(post.monsters, monster_id);
        assert(pre.monsters[pi].instance_id == post.monsters[pi].instance_id);
    } else {
        if has_monster(post.monsters, monster_id) {
            let k = choose|k: int| 0 <= k < post.monsters.len() && (#[trigger] post.monsters[k]).instance_id == monster_id;
            let k0 = if k < mi { k } else { k + 1 };
            assert(pre.monsters[k0] == post.monsters[k]);
        }
    }
}

/// A move leaves every player in an existing room, and a move through a
/// missing exit changes nothing.
pub proof fn lemma_move_keeps_rooms_valid(
    pre: WorldView,
    post: WorldView,
    id: Identity,
    direction: Seq<char>,
    r: Result<(), GameError>,
)
    requires
        pre.wf(),
        post.wf(),
        move_post(pre, post, id, direction, r),
    ensures
        forall|i: int| 0 <= i < post.players.len() ==> has_room(post.rooms, #[trigger] post.players[i].current_room_id),
        r == Err::<(), GameError>(GameError::Blocked) ==> post == pre,
{
    assert forall|i: int| 0 <= i < post.players.len() implies has_room(post.rooms, #[trigger] post.players[i].current_room_id) by {
        assert(post.records_sound());
    }
}

/// A character is created at most once: after a successful creation, a
/// second one for the same identity fails with `AlreadyExists` and
/// changes nothing.
pub proof fn lemma_create_exactly_once(
    pre: WorldView,
    mid: WorldView,
    post: WorldView,
    id: Identity,
    first: String,
    second: String,
    r1: Result<(), GameError>,
    r2: Result<(), GameError>,
)
    requires
        create_post(pre, mid, id, first, r1),
        r1 is Ok,
        create_post(mid, post, id, second, r2),
    ensures
        r2 == Err::<(), GameError>(GameError::AlreadyExists),
        post == mid,
        mid.players.len() == pre.players.len() + 1,
{
    assert(mid.players[pre.players.len() as int].identity == id);
}

/// The outcome of a command is determined by the state, the caller and the
/// command.
pub proof fn lemma_command_determined(
    pre: WorldView,
    id: Identity,
    cmd: Command,
    a: WorldView,
    ra: Result<(), GameError>,
    b: WorldView,
    rb: Result<(), GameError>,
)
    requires
        command_post(pre, id, cmd, a, ra),
        command_post(pre, id, cmd, b, rb),
    ensures
        ra == rb,
        same_outcome(a, b),
        !(ra == Err::<(), GameError>(GameError::Conflict)),
{
    if let Command::AttackMonster { monster_instance_id } = cmd {
        let n = pre.inventory.len() as int;
        if a.inventory.len() == n + 1 && a.inventory != pre.inventory {
            assert forall|i: int| 0 <= i < a.inventory.len() implies {
                &&& (#[trigger] a.inventory[i]).item_instance_id == b.inventory[i].item_instance_id
                &&& a.inventory[i].owner_identity == b.inventory[i].owner_identity
                &&& a.inventory[i].item_template_id@ == b.inventory[i].item_template_id@
            } by {
                if i < n {
                    assert(a.inventory.take(n)[i] == b.inventory.take(n)[i]);
                }
            }
        }
    }
}

/// The outcome of a submission is determined by the state, the version it
/// was prepared on, the caller and the command.
pub proof fn lemma_submit_determined(
    pre: WorldView,
    seen: u64,
    id: Identity,
    cmd: Command,
    a: WorldView,
    ra: Result<(), GameError>,
    b: WorldView,
    rb: Result<(), GameError>,
)
    requires
        submit_post(pre, seen, id, cmd, a, ra),
        submit_post(pre, seen, id, cmd, b, rb),
    ensures
        ra == rb,
        same_outcome(a, b),
{
    if seen == pre.version {
        let ma = choose|mid: WorldView| {
            &&& #[trigger] command_post(pre, id, cmd, mid, ra)
            &&& mid.version == pre.version
            &&& a == (WorldView {
                version: if ra is Ok { crate::engine::next_version(pre.version) } else { pre.version },
                ..mid
            })
        };
        let mb = choose|mid: WorldView| {
            &&& #[trigger] command_post(pre, id, cmd, mid, rb)
            &&& mid.version == pre.version
            &&& b == (WorldView {
                version: if rb is Ok { crate::engine::next_version(pre.version) } else { pre.version },
                ..mid
            })
        };
        lemma_command_determined(pre, id, cmd, ma, ra, mb, rb);
    }
}

/// Resubmitting after a `Conflict` is safe: the refused submission changed
/// nothing, and the resubmission has exactly the outcome that the command
/// has when it runs alone on that state.
pub proof fn lemma_retry_after_conflict(
    pre: WorldView,
    stale: u64,
    id: Identity,
    cmd: Command,
    mid: WorldView,
    post: WorldView,
    r: Result<(), GameError>,
    alone: WorldView,
    alone_r: Result<(), GameError>,
)
    requires
        submit_post(pre, stale, id, cmd, mid, Err(GameError::Conflict)),
        submit_post(mid, mid.version, id, cmd, post, r),
        submit_post(pre, pre.version, id, cmd, alone, alone_r),
    ensures
        mid == pre,
        r == alone_r,
        same_outcome(post, alone),
{
    if stale == pre.version {
        let m = choose|m: WorldView| {
            &&& #[trigger] command_post(pre, id, cmd, m, Err(GameError::Conflict))
            &&& m.version == pre.version
            &&& mid == (WorldView { version: pre.version, ..m })
        };
        lemma_command_determined(pre, id, cmd, m, Err(GameError::Conflict), m, Err(GameError::Conflict));
    }
    lemma_submit_determined(pre, pre.version, id, cmd, post, r, alone, alone_r);
}

/// How many of the first `n` submissions were ticks that committed.
pub open spec fn committed_ticks(cmds: Seq<Command>, rs: Seq<Result<(), GameError>>, n: int) -> nat
    decreases n,
{
    if n <= 0 {
        0
    } else {
        committed_ticks(cmds, rs, n - 1) + if cmds[n - 1] is Tick && rs[n - 1] is Ok { 1nat } else { 0nat }
    }
}

/// One submission moves the clock by one tick if it is a committed tick,
/// and leaves it alone otherwise.
pub proof fn lemma_submit_clock(
    pre: WorldView,
    seen: u64,
    id: Identity,
    cmd: Command,
    post: WorldView,
    r: Result<(), GameError>,
)
    requires
        submit_post(pre, seen, id, cmd, post, r),
        pre.clock is Some,
    ensures
        post.clock == if cmd is Tick && r is Ok { Some(tick_spec(pre.clock->0)) } else { pre.clock },
{
    if seen == pre.version {
        let m = choose|m: WorldView| {
            &&& #[trigger] command_post(pre, id, cmd, m, r)
            &&& m.version == pre.version
            &&& post == (WorldView {
                version: if r is Ok { crate::engine::next_version(pre.version) } else { pre.version },
                ..m
            })
        };
        assert(command_post(pre, id, cmd, m, r));
    }
}

/// Over any run of submissions, gameplay and ticks interleaved in any
/// order, the tick count grows by exactly the number of committed ticks.
pub proof fn lemma_tick_count(
    ws: Seq<WorldView>,
    seens: Seq<u64>,
    ids: Seq<Identity>,
    cmds: Seq<Command>,
    rs: Seq<Result<(), GameError>>,
    n: int,
)
    requires
        ws.len() == cmds.len() + 1,
        seens.len() == cmds.len(),
        ids.len() == cmds.len(),
        rs.len() == cmds.len(),
        0 <= n <= cmds.len(),
        ws[0].clock is Some,
        forall|k: int| 0 <= k < cmds.len()
            ==> submit_post(#[trigger] ws[k], seens[k], ids[k], cmds[k], ws[k + 1], rs[k]),
    ensures
        ws[n].clock is Some,
        ws[n].clock->0.tick_count == ws[0].clock->0.tick_count + committed_ticks(cmds, rs, n),
    decreases n,
{
    if n > 0 {
        lemma_tick_count(ws, seens, ids, cmds, rs, n - 1);
        let k = n - 1;
        assert(submit_post(ws[k], seens[k], ids[k], cmds[k], ws[k + 1], rs[k]));
        lemma_submit_clock(ws[k], seens[k], ids[k], cmds[k], ws[k + 1], rs[k]);
    }
}

} // verus!
