use world_engine::{
    attack_monster, create_character, execute, init, loot_for, move_player, parse_direction,
    submit, tick, Command, Direction, GameError, Identity, MonsterInstance, Room, TimeOfDay,
    Weather, World,
};

fn who(n: u128) -> Identity {
    Identity { hi: 0, lo: n }
}

fn room(id: u32, north: Option<u32>, south: Option<u32>) -> Room {
    Room {
        id,
        name: format!("room {}", id),
        description: String::from("a plain room"),
        north_exit: north,
        south_exit: south,
        east_exit: None,
        west_exit: None,
        up_exit: None,
        down_exit: None,
    }
}

fn monster(id: u64, hp: i32) -> MonsterInstance {
    MonsterInstance { instance_id: id, template_id: String::from("rat"), room_id: 1, hp, max_hp: hp.max(100) }
}

/// A world with a clock, room 1 (north to room 2, no south exit) and room 2.
fn world() -> World {
    let mut w = World::new();
    assert_eq!(init(&mut w), Ok(()));
    assert_eq!(w.add_room(room(1, Some(2), None)), Ok(()));
    assert_eq!(w.add_room(room(2, None, Some(1))), Ok(()));
    w
}

fn player_room(w: &World, id: Identity) -> u32 {
    w.players.iter().find(|p| p.identity == id).unwrap().current_room_id
}

fn monster_hp(w: &World, id: u64) -> Option<i32> {
    w.monsters.iter().find(|m| m.instance_id == id).map(|m| m.hp)
}

#[test]
fn scenario_a_new_character() {
    let mut w = world();
    let a = who(1);
    assert_eq!(create_character(&mut w, a, String::from("Rin")), Ok(()));
    let p = w.players.iter().find(|p| p.identity == a).unwrap();
    assert_eq!(p.hp, 100);
    assert_eq!(p.max_hp, 100);
    assert_eq!(p.current_room_id, 1);
    assert_eq!(p.name, "Rin");
    let s = w.stats.iter().find(|s| s.player_identity == a).unwrap();
    assert_eq!(s.strength, 50);
    assert_eq!(s.stamina, 50);
}

#[test]
fn scenario_b_blocked_move() {
    let mut w = world();
    let a = who(1);
    create_character(&mut w, a, String::from("Rin")).unwrap();
    assert_eq!(move_player(&mut w, a, String::from("south")), Err(GameError::Blocked));
    assert_eq!(player_room(&w, a), 1);
}

#[test]
fn scenario_c_defeat_drops_loot() {
    let mut w = world();
    let a = who(1);
    create_character(&mut w, a, String::from("Rin")).unwrap();
    w.spawn_monster(monster(7, 10)).unwrap();
    assert_eq!(attack_monster(&mut w, a, 7), Ok(()));
    assert_eq!(monster_hp(&w, 7), None);
    assert_eq!(w.inventory.len(), 1);
    assert_eq!(w.inventory[0].owner_identity, a);
    assert_eq!(w.inventory[0].item_template_id, "rat_tail");
    assert_eq!(attack_monster(&mut w, a, 7), Err(GameError::NotFound));
}

#[test]
fn scenario_d_damage() {
    let mut w = world();
    let a = who(1);
    create_character(&mut w, a, String::from("Rin")).unwrap();
    w.spawn_monster(monster(8, 100)).unwrap();
    assert_eq!(attack_monster(&mut w, a, 8), Ok(()));
    assert_eq!(monster_hp(&w, 8), Some(75));
    assert!(w.inventory.is_empty());
}

#[test]
fn scenario_e_night_on_hundredth_tick() {
    let mut w = world();
    for _ in 0..99 {
        tick(&mut w).unwrap();
    }
    assert_eq!(w.clock.unwrap().tick_count, 99);
    assert_eq!(w.clock.unwrap().time_of_day, TimeOfDay::Day);
    tick(&mut w).unwrap();
    assert_eq!(w.clock.unwrap().tick_count, 100);
    assert_eq!(w.clock.unwrap().time_of_day, TimeOfDay::Night);
}

#[test]
fn init_seeds_clock_once() {
    let mut w = World::new();
    assert_eq!(tick(&mut w), Err(GameError::Internal));
    assert_eq!(init(&mut w), Ok(()));
    let c = w.clock.unwrap();
    assert_eq!(c.id, 0);
    assert_eq!(c.tick_count, 0);
    assert_eq!(c.time_of_day, TimeOfDay::Day);
    assert_eq!(c.weather, Weather::Clear);
    assert_eq!(init(&mut w), Err(GameError::Internal));
    assert_eq!(w.clock.unwrap().tick_count, 0);
}

#[test]
fn tick_refuses_to_overflow() {
    let mut w = world();
    let mut c = w.clock.unwrap();
    c.tick_count = u64::MAX;
    w.clock = Some(c);
    assert_eq!(tick(&mut w), Err(GameError::Internal));
    assert_eq!(w.clock.unwrap().tick_count, u64::MAX);
}

#[test]
fn second_creation_is_refused() {
    let mut w = world();
    let a = who(1);
    create_character(&mut w, a, String::from("Rin")).unwrap();
    assert_eq!(create_character(&mut w, a, String::from("Other")), Err(GameError::AlreadyExists));
    assert_eq!(w.players.len(), 1);
    assert_eq!(w.stats.len(), 1);
    assert_eq!(w.players[0].name, "Rin");
}

#[test]
fn creation_needs_name_and_start_room() {
    let mut w = world();
    assert_eq!(create_character(&mut w, who(1), String::new()), Err(GameError::InvalidArgument));
    assert!(w.players.is_empty());
    let mut bare = World::new();
    assert_eq!(create_character(&mut bare, who(1), String::from("Rin")), Err(GameError::NotFound));
    assert!(bare.players.is_empty() && bare.stats.is_empty());
}

#[test]
fn move_through_exit_and_back() {
    let mut w = world();
    let a = who(1);
    create_character(&mut w, a, String::from("Rin")).unwrap();
    assert_eq!(move_player(&mut w, a, String::from("north")), Ok(()));
    assert_eq!(player_room(&w, a), 2);
    assert_eq!(move_player(&mut w, a, String::from("north")), Err(GameError::Blocked));
    assert_eq!(move_player(&mut w, a, String::from("south")), Ok(()));
    assert_eq!(player_room(&w, a), 1);
}

#[test]
fn move_errors() {
    let mut w = world();
    let a = who(1);
    assert_eq!(move_player(&mut w, a, String::from("north")), Err(GameError::NotFound));
    create_character(&mut w, a, String::from("Rin")).unwrap();
    assert_eq!(move_player(&mut w, a, String::from("sideways")), Err(GameError::InvalidArgument));
    assert_eq!(move_player(&mut w, a, String::from("North")), Err(GameError::InvalidArgument));
    assert_eq!(player_room(&w, a), 1);
}

#[test]
fn move_never_dangles() {
    let mut w = World::new();
    w.add_room(room(1, Some(9), None)).unwrap();
    let a = who(1);
    create_character(&mut w, a, String::from("Rin")).unwrap();
    assert_eq!(move_player(&mut w, a, String::from("north")), Err(GameError::NotFound));
    assert_eq!(player_room(&w, a), 1);
    for d in ["north", "south", "east", "west", "up", "down", "nowhere"] {
        let _ = move_player(&mut w, a, String::from(d));
        assert!(w.rooms.iter().any(|r| r.id == player_room(&w, a)));
    }
}

#[test]
fn attack_errors() {
    let mut w = world();
    let a = who(1);
    w.spawn_monster(monster(8, 100)).unwrap();
    assert_eq!(attack_monster(&mut w, a, 8), Err(GameError::NotFound));
    create_character(&mut w, a, String::from("Rin")).unwrap();
    assert_eq!(attack_monster(&mut w, a, 9), Err(GameError::NotFound));
    assert_eq!(monster_hp(&w, 8), Some(100));
}

#[test]
fn attack_either_damages_or_defeats() {
    let mut w = world();
    let a = who(1);
    create_character(&mut w, a, String::from("Rin")).unwrap();
    w.spawn_monster(monster(3, 50)).unwrap();
    attack_monster(&mut w, a, 3).unwrap();
    assert_eq!(monster_hp(&w, 3), Some(25));
    assert!(w.inventory.is_empty());
    attack_monster(&mut w, a, 3).unwrap();
    assert_eq!(monster_hp(&w, 3), None);
    assert_eq!(w.inventory.len(), 1);
}

#[test]
fn loot_ids_never_collide() {
    let mut w = world();
    let a = who(1);
    let b = who(2);
    create_character(&mut w, a, String::from("Rin")).unwrap();
    create_character(&mut w, b, String::from("Kai")).unwrap();
    w.spawn_monster(monster(1, 5)).unwrap();
    w.spawn_monster(monster(2, 5)).unwrap();
    attack_monster(&mut w, a, 1).unwrap();
    attack_monster(&mut w, b, 2).unwrap();
    assert_eq!(w.inventory.len(), 2);
    assert_ne!(w.inventory[0].item_instance_id, w.inventory[1].item_instance_id);
    assert_eq!(w.inventory[1].owner_identity, b);
}

#[test]
fn loot_ids_exhausted() {
    let mut w = world();
    let a = who(1);
    create_character(&mut w, a, String::from("Rin")).unwrap();
    w.spawn_monster(monster(1, 5)).unwrap();
    w.next_item_id = u64::MAX;
    assert_eq!(attack_monster(&mut w, a, 1), Err(GameError::Internal));
    assert_eq!(monster_hp(&w, 1), Some(5));
    assert!(w.inventory.is_empty());
}

#[test]
fn spawn_errors() {
    let mut w = world();
    w.spawn_monster(monster(1, 5)).unwrap();
    assert_eq!(w.spawn_monster(monster(1, 5)), Err(GameError::AlreadyExists));
    assert_eq!(w.spawn_monster(monster(2, 0)), Err(GameError::InvalidArgument));
    let mut far = monster(3, 5);
    far.room_id = 42;
    assert_eq!(w.spawn_monster(far), Err(GameError::NotFound));
    assert_eq!(w.monsters.len(), 1);
    assert_eq!(w.add_room(room(1, None, None)), Err(GameError::AlreadyExists));
    assert_eq!(w.rooms.len(), 2);
}

#[test]
fn stale_submission_conflicts_and_retry_is_safe() {
    let mut w = world();
    let a = who(1);
    let b = who(2);
    create_character(&mut w, a, String::from("Rin")).unwrap();
    create_character(&mut w, b, String::from("Kai")).unwrap();
    w.spawn_monster(monster(8, 100)).unwrap();
    let seen = w.version;
    assert_eq!(submit(&mut w, seen, a, Command::AttackMonster { monster_instance_id: 8 }), Ok(()));
    assert_eq!(w.version, seen + 1);
    assert_eq!(submit(&mut w, seen, b, Command::AttackMonster { monster_instance_id: 8 }), Err(GameError::Conflict));
    assert_eq!(monster_hp(&w, 8), Some(75));
    let now = w.version;
    assert_eq!(submit(&mut w, now, b, Command::AttackMonster { monster_instance_id: 8 }), Ok(()));
    assert_eq!(monster_hp(&w, 8), Some(50));
    assert!(w.inventory.is_empty());
}

#[test]
fn failed_submission_keeps_version() {
    let mut w = world();
    let v = w.version;
    assert_eq!(submit(&mut w, v, who(1), Command::MovePlayer { direction: String::from("north") }), Err(GameError::NotFound));
    assert_eq!(w.version, v);
}

#[test]
fn ticks_counted_amid_gameplay() {
    let mut w = world();
    let a = who(1);
    execute(&mut w, a, Command::CreateCharacter { name: String::from("Rin") }).unwrap();
    for i in 0..10 {
        execute(&mut w, a, Command::Tick).unwrap();
        let d = if i % 2 == 0 { "north" } else { "south" };
        execute(&mut w, a, Command::MovePlayer { direction: String::from(d) }).unwrap();
        let _ = execute(&mut w, a, Command::MovePlayer { direction: String::from("up") });
    }
    assert_eq!(w.clock.unwrap().tick_count, 10);
    assert_eq!(w.clock.unwrap().time_of_day, TimeOfDay::Day);
}

#[test]
fn night_stays_after_two_hundred_ticks() {
    let mut w = world();
    for _ in 0..250 {
        tick(&mut w).unwrap();
    }
    assert_eq!(w.clock.unwrap().tick_count, 250);
    assert_eq!(w.clock.unwrap().time_of_day, TimeOfDay::Night);
}

#[test]
fn directions_parse() {
    assert_eq!(parse_direction(&String::from("north")), Some(Direction::North));
    assert_eq!(parse_direction(&String::from("south")), Some(Direction::South));
    assert_eq!(parse_direction(&String::from("east")), Some(Direction::East));
    assert_eq!(parse_direction(&String::from("west")), Some(Direction::West));
    assert_eq!(parse_direction(&String::from("up")), Some(Direction::Up));
    assert_eq!(parse_direction(&String::from("down")), Some(Direction::Down));
    assert_eq!(parse_direction(&String::from("")), None);
    assert_eq!(room(1, Some(2), None).exit(Direction::North), Some(2));
    assert_eq!(room(1, Some(2), None).exit(Direction::South), None);
}

#[test]
fn loot_policy() {
    assert_eq!(loot_for(&String::from("rat")), "rat_tail");
}

#[test]
fn well_formedness_check() {
    let mut w = world();
    let a = who(1);
    create_character(&mut w, a, String::from("Rin")).unwrap();
    w.spawn_monster(monster(8, 100)).unwrap();
    assert!(w.is_well_formed());

    let mut dangling = world();
    create_character(&mut dangling, a, String::from("Rin")).unwrap();
    dangling.players[0].current_room_id = 77;
    assert!(!dangling.is_well_formed());

    let mut hurt = world();
    hurt.spawn_monster(monster(8, 100)).unwrap();
    hurt.monsters[0].hp = 101;
    assert!(!hurt.is_well_formed());

    let mut unpaired = world();
    create_character(&mut unpaired, a, String::from("Rin")).unwrap();
    unpaired.stats.clear();
    assert!(!unpaired.is_well_formed());

    let mut twice = world();
    twice.rooms.push(room(1, None, None));
    assert!(!twice.is_well_formed());

    let mut stale_ids = world();
    create_character(&mut stale_ids, a, String::from("Rin")).unwrap();
    stale_ids.spawn_monster(monster(1, 5)).unwrap();
    attack_monster(&mut stale_ids, a, 1).unwrap();
    assert!(stale_ids.is_well_formed());
    stale_ids.next_item_id = 0;
    assert!(!stale_ids.is_well_formed());

    let mut odd_clock = world();
    let mut c = odd_clock.clock.unwrap();
    c.id = 3;
    odd_clock.clock = Some(c);
    assert!(!odd_clock.is_well_formed());
}
