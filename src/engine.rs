//! The operation engine: commands dispatched by name, submissions checked
//! against the version they were prepared on, and the laws that hold of
//! every run.
use vstd::prelude::*;
use crate::records::{GameError, Identity};
use crate::store::{World, WorldView};
use crate::ops::{
    attack_monster, attack_post, create_character, create_post, move_player, move_post, tick,
    tick_post,
};

verus! {

/// A named operation with its arguments.
pub enum Command {
    CreateCharacter { name: String },
    MovePlayer { direction: String },
    AttackMonster { monster_instance_id: u64 },
    Tick,
}

/// What running `cmd` for caller `id` does.
pub open spec fn command_post(
    pre: WorldView,
    id: Identity,
    cmd: Command,
    post: WorldView,
    r: Result<(), GameError>,
) -> bool {
    match cmd {
        Command::CreateCharacter { name } => create_post(pre, post, id, name, r),
        Command::MovePlayer { direction } => move_post(pre, post, id, direction@, r),
        Command::AttackMonster { monster_instance_id } =>
            attack_post(pre, post, id, monster_instance_id, r),
        Command::Tick => tick_post(pre, post, r),
    }
}

/// The version that follows `v`.
pub open spec fn next_version(v: u64) -> u64 {
    if v == u64::MAX { 0 } else { (v + 1) as u64 }
}

/// What `submit` does: a submission prepared on another version than the
/// current one is refused with `Conflict`; otherwise the command runs, and
/// a committed one moves the version on.
pub open spec fn submit_post(
    pre: WorldView,
    seen: u64,
    id: Identity,
    cmd: Command,
    post: WorldView,
    r: Result<(), GameError>,
) -> bool {
    if seen != pre.version {
        r == Err::<(), GameError>(GameError::Conflict) && post == pre
    } else {
        exists|mid: WorldView| {
            &&& #[trigger] command_post(pre, id, cmd, mid, r)
            &&& mid.version == pre.version
            &&& post == (WorldView {
                version: if r is Ok { next_version(pre.version) } else { pre.version },
                ..mid
            })
        }
    }
}

/// Runs `cmd` for caller `id`.
pub fn execute(world: &mut World, id: Identity, cmd: Command) -> (r: Result<(), GameError>)
    requires
        old(world)@.wf(),
    ensures
        final(world)@.wf(),
        command_post(old(world)@, id, cmd, final(world)@, r),
{
    match cmd {
        Command::CreateCharacter { name } => create_character(world, id, name),
        Command::MovePlayer { direction } => move_player(world, id, direction),
        Command::AttackMonster { monster_instance_id } => attack_monster(world, id, monster_instance_id),
        Command::Tick => tick(world),
    }
}

/// Runs `cmd` for caller `id` as a transaction prepared on version `seen`
/// of the world. If another transaction committed since, nothing changes
/// and the result is `Conflict`, which the caller may resubmit.
pub fn submit(world: &mut World, seen: u64, id: Identity, cmd: Command) -> (r: Result<(), GameError>)
    requires
        old(world)@.wf(),
    ensures
        final(world)@.wf(),
        submit_post(old(world)@, seen, id, cmd, final(world)@, r),
{
    if seen != world.version {
        return Err(GameError::Conflict);
    }
    let r = execute(world, id, cmd);
    let ghost mid = world@;
    if r.is_ok() {
        world.version = if world.version == u64::MAX { 0 } else { world.version + 1 };
    }
    proof {
        assert(command_post(old(world)@, id, cmd, mid, r));
        crate::store::lemma_wf_same_tables(mid, world@);
    }
    r
}

} // verus!
