use bullet_hell::shape::Shape;
use bullet_hell::sim::{resolve_collisions, InputState};
use bullet_hell::state::{transition, trigger_for, Effect, GameState, Trigger};
use bullet_hell::world::{advance_frame, roll_spawn, tick, World};

const W: i64 = 640_000;
const H: i64 = 480_000;

fn idle() -> InputState {
    InputState { left: false, right: false, up: false, down: false, fire: false }
}

fn obstacle(x: i64, y: i64, size: i64, speed: i64) -> Shape {
    Shape { x, y, size, speed, collided: false }
}

fn projectile(x: i64, y: i64) -> Shape {
    Shape { x, y, size: 5_000, speed: 400, collided: false }
}

#[test]
fn obstacle_falls_one_step_per_frame() {
    // An obstacle 20 pixels wide, spawned 20 pixels above the screen and
    // falling at 60 pixels per second, reaches y = 100 pixels after two
    // whole-second frames.
    let mut world = World::new(W, H);
    world.obstacles.push(obstacle(100_000, -20_000, 20_000, 60));
    let out1 = advance_frame(&mut world, &idle(), 1000, W, H, 0, None);
    assert!(!out1.player_hit);
    assert_eq!(world.obstacles.len(), 1);
    assert_eq!(world.obstacles[0].y, 40_000);
    let out2 = advance_frame(&mut world, &idle(), 1000, W, H, 0, None);
    assert!(!out2.player_hit);
    assert_eq!(world.obstacles.len(), 1);
    assert_eq!(world.obstacles[0].y, 100_000);
    assert_eq!(world.score, 0);
}

#[test]
fn obstacle_is_culled_below_the_screen() {
    // With an 80-pixel-tall screen the same obstacle is culled on the frame
    // its centre reaches screen_height + size = 100 pixels.
    let sh: i64 = 80_000;
    let mut world = World::new(W, sh);
    world.player.x = 320_000;
    world.player.y = 40_000;
    world.obstacles.push(obstacle(100_000, -20_000, 20_000, 60));
    advance_frame(&mut world, &idle(), 1000, W, sh, 0, None);
    assert_eq!(world.obstacles.len(), 1);
    assert_eq!(world.obstacles[0].y, 40_000);
    advance_frame(&mut world, &idle(), 1000, W, sh, 0, None);
    assert_eq!(world.obstacles.len(), 0);
}

#[test]
fn shared_centre_pair_is_marked_and_scored() {
    // A projectile and a 20-pixel obstacle sharing a centre overlap at once:
    // both are marked and the score grows by 20.
    let mut obstacles = vec![obstacle(50_000, 50_000, 20_000, 50)];
    let mut projectiles = vec![projectile(50_000, 50_000)];
    let mut score: u32 = 0;
    let mut high_score: u32 = 0;
    resolve_collisions(&mut obstacles, &mut projectiles, &mut score, &mut high_score);
    assert!(obstacles[0].collided);
    assert!(projectiles[0].collided);
    assert_eq!(score, 20);
    assert_eq!(high_score, 20);
}

#[test]
fn collided_pair_is_culled_by_the_frame() {
    let mut world = World::new(W, H);
    world.obstacles.push(obstacle(50_000, 50_000, 20_000, 50));
    world.projectiles.push(projectile(50_000, 50_000));
    let out = advance_frame(&mut world, &idle(), 0, W, H, 0, None);
    assert_eq!(world.score, 20);
    assert_eq!(world.obstacles.len(), 0);
    assert_eq!(world.projectiles.len(), 0);
    assert_eq!(out.high_score, 20);
}

#[test]
fn in_memory_high_score_rises_only_on_a_collision() {
    // The in-memory maximum is taken only while resolving a collision; a
    // frame without one leaves the loaded value alone even below the score.
    let mut obstacles = vec![obstacle(50_000, 50_000, 20_000, 50)];
    let mut projectiles = vec![projectile(50_000, 50_000)];
    let mut score: u32 = 30;
    let mut high_score: u32 = 100;
    resolve_collisions(&mut obstacles, &mut projectiles, &mut score, &mut high_score);
    assert_eq!(score, 50);
    assert_eq!(high_score, 100);

    let mut no_obstacles: Vec<Shape> = Vec::new();
    let mut lone_projectile = vec![projectile(50_000, 50_000)];
    let mut score2: u32 = 50;
    let mut high_score2: u32 = 10;
    resolve_collisions(&mut no_obstacles, &mut lone_projectile, &mut score2, &mut high_score2);
    assert_eq!(score2, 50);
    assert_eq!(high_score2, 10);
}

#[test]
fn start_input_resets_the_session() {
    // From the main menu, the start input enters Playing with the score at
    // zero and both collections empty, whatever the previous session held.
    let mut world = World::new(W, H);
    world.obstacles.push(obstacle(50_000, 50_000, 20_000, 50));
    world.projectiles.push(projectile(10_000, 10_000));
    world.score = 77;
    world.player.x = 1_000;
    let t = trigger_for(GameState::MainMenu, false, true, false);
    assert_eq!(t, Trigger::Start);
    let (next, effect) = transition(GameState::MainMenu, t);
    assert_eq!(next, GameState::Playing);
    assert_eq!(effect, Effect::ResetSession);
    world.reset_session(W, H);
    assert_eq!(world.score, 0);
    assert!(world.obstacles.is_empty());
    assert!(world.projectiles.is_empty());
    assert_eq!(world.player.x, W / 2);
    assert_eq!(world.player.y, H / 2);
}

#[test]
fn held_keys_move_the_player_by_full_steps() {
    let mut world = World::new(W, H);
    let input = InputState { left: false, right: true, up: false, down: false, fire: false };
    advance_frame(&mut world, &input, 1000, W, H, 0, None);
    assert_eq!(world.player.x, 320_000 + 200_000);
    assert_eq!(world.player.y, 240_000);

    // Diagonals compose additively and opposite keys cancel.
    let diag = InputState { left: true, right: false, up: true, down: true, fire: false };
    advance_frame(&mut world, &diag, 500, W, H, 0, None);
    assert_eq!(world.player.x, 520_000 - 100_000);
    assert_eq!(world.player.y, 240_000);
}

#[test]
fn player_is_clamped_to_the_screen() {
    let mut world = World::new(W, H);
    world.player.x = 50_000;
    world.player.y = 470_000;
    let input = InputState { left: true, right: false, up: false, down: true, fire: false };
    advance_frame(&mut world, &input, 1000, W, H, 0, None);
    assert_eq!(world.player.x, 0);
    assert_eq!(world.player.y, H);
}

#[test]
fn fire_edge_launches_a_projectile_from_the_player() {
    let mut world = World::new(W, H);
    let input = InputState { left: false, right: false, up: false, down: false, fire: true };
    advance_frame(&mut world, &input, 0, W, H, 0, None);
    assert_eq!(world.projectiles.len(), 1);
    let p = world.projectiles[0];
    assert_eq!(p.x, 320_000);
    assert_eq!(p.y, 240_000);
    assert_eq!(p.size, 5_000);
    assert_eq!(p.speed, 400);
    assert!(!p.collided);
}

#[test]
fn projectile_rises_and_is_culled_above_the_screen() {
    let mut world = World::new(W, H);
    world.projectiles.push(projectile(100_000, 300_000));
    advance_frame(&mut world, &idle(), 500, W, H, 0, None);
    assert_eq!(world.projectiles.len(), 1);
    assert_eq!(world.projectiles[0].y, 100_000);
    advance_frame(&mut world, &idle(), 250, W, H, 0, None);
    assert_eq!(world.projectiles.len(), 1);
    assert_eq!(world.projectiles[0].y, 0);
    // The next step carries it past the cull line, half its size above the
    // top edge, and the same frame's cull removes it.
    advance_frame(&mut world, &idle(), 10, W, H, 0, None);
    assert_eq!(world.projectiles.len(), 0);
}

#[test]
fn game_ends_when_an_obstacle_reaches_the_player() {
    let mut world = World::new(W, H);
    world.obstacles.push(obstacle(320_000, 240_000, 20_000, 50));
    let out = advance_frame(&mut world, &idle(), 0, W, H, 7, None);
    assert!(out.player_hit);
    // The store is rewritten only when the score equals the loaded high
    // score on the fatal frame.
    assert!(!out.write_high_score);
    let mut world2 = World::new(W, H);
    world2.obstacles.push(obstacle(320_000, 240_000, 20_000, 50));
    let out2 = advance_frame(&mut world2, &idle(), 0, W, H, 0, None);
    assert!(out2.player_hit);
    assert!(out2.write_high_score);
}

#[test]
fn spawn_draws_stay_in_their_ranges() {
    macroquad::rand::srand(12345);
    let mut spawned: u32 = 0;
    for _ in 0..2000 {
        if let Some(o) = roll_spawn(W) {
            spawned += 1;
            assert!(o.size >= 16_000 && o.size <= 64_000);
            assert!(o.speed >= 50 && o.speed <= 150);
            assert_eq!(o.y, -o.size);
            assert!(o.x >= o.size / 2 && o.x <= W - o.size / 2);
            assert!(!o.collided);
        }
    }
    // Roughly one frame in twenty spawns; 2000 rolls without a single spawn
    // would mean the roll never reaches the threshold.
    assert!(spawned > 0);
}

#[test]
fn idle_ticks_keep_the_world_sound() {
    macroquad::rand::srand(99);
    let mut world = World::new(W, H);
    for _ in 0..200 {
        let out = tick(&mut world, &idle(), 16, W, H, 0);
        assert!(world.player.x == 320_000 && world.player.y == 240_000);
        assert_eq!(world.score, 0);
        assert!(out.high_score == 0);
        for o in world.obstacles.iter() {
            assert!(!o.collided);
            assert!(o.size >= 16_000 && o.size <= 64_000);
            assert!(o.y < H + o.size);
        }
        assert!(world.projectiles.is_empty());
    }
}

#[test]
fn new_world_starts_centred_and_empty() {
    let world = World::new(W, H);
    assert_eq!(world.player.x, W / 2);
    assert_eq!(world.player.y, H / 2);
    assert_eq!(world.player.size, 16_000);
    assert_eq!(world.player.speed, 200);
    assert!(!world.player.collided);
    assert!(world.obstacles.is_empty());
    assert!(world.projectiles.is_empty());
    assert_eq!(world.score, 0);
}

#[test]
fn full_session_flow() {
    // Menu -> playing -> game over -> playing again, as the host loop would
    // drive it, with the simulation deciding the fatal transition.
    let mut world = World::new(W, H);
    let mut state = GameState::MainMenu;

    let t = trigger_for(state, false, true, false);
    let (next, effect) = transition(state, t);
    assert_eq!(effect, Effect::ResetSession);
    world.reset_session(W, H);
    state = next;
    assert_eq!(state, GameState::Playing);

    // A quiet frame: no trigger, still playing.
    let out = advance_frame(&mut world, &idle(), 16, W, H, 0, None);
    let t = trigger_for(state, false, false, out.player_hit);
    let (next, effect) = transition(state, t);
    assert_eq!((next, effect), (GameState::Playing, Effect::NoEffect));

    // Pause and resume keep the world as it stands.
    world.score = 9;
    let (next, _) = transition(state, trigger_for(state, true, false, false));
    assert_eq!(next, GameState::Paused);
    let (next, _) = transition(next, trigger_for(next, false, true, false));
    assert_eq!(next, GameState::Playing);
    assert_eq!(world.score, 9);

    // An obstacle lands on the player: the frame reports the hit and the
    // machine ends the game.
    world.obstacles.push(obstacle(world.player.x, world.player.y, 20_000, 50));
    let out = advance_frame(&mut world, &idle(), 0, W, H, 9, None);
    assert!(out.player_hit);
    assert!(out.write_high_score);
    let t = trigger_for(state, false, false, out.player_hit);
    let (next, effect) = transition(state, t);
    assert_eq!((next, effect), (GameState::GameOver, Effect::PersistHighScore));
    state = next;

    // Restart resets the session.
    let (next, effect) = transition(state, trigger_for(state, false, true, false));
    assert_eq!((next, effect), (GameState::Playing, Effect::ResetSession));
    world.reset_session(W, H);
    assert_eq!(world.score, 0);
    assert!(world.obstacles.is_empty());
}
