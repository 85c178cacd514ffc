use invaders::frame::Position;
use invaders::invaders::Invaders;
use invaders::player::{Player, SHOT_COOLDOWN};
use invaders::shot::{Shot, SHOT_SPEED, STEPS_PER_ROW};

fn cells_of(player: &Player) -> Vec<Position> {
    player.shots().iter().map(|shot| shot.position()).collect()
}

#[test]
fn player_starts_mid_screen_on_the_bottom_row() {
    let player = Player::new();
    assert_eq!(player.position(), Position { col: 20, row: 19 });
    assert_eq!(player.cooldown(), 0);
    assert!(player.shots().is_empty());
}

#[test]
fn move_left_shifts_by_one_column() {
    let mut player = Player::new();
    player.move_left();
    assert_eq!(player.position(), Position { col: 19, row: 19 });
}

#[test]
fn move_right_shifts_by_one_column() {
    let mut player = Player::new();
    player.move_right();
    assert_eq!(player.position(), Position { col: 21, row: 19 });
}

#[test]
fn move_left_stops_at_the_left_edge() {
    let mut player = Player::new();
    for _ in 0..20 {
        player.move_left();
    }
    assert_eq!(player.position().col, 0);
    for _ in 0..100 {
        player.move_left();
        assert_eq!(player.position(), Position { col: 0, row: 19 });
    }
}

#[test]
fn move_right_stops_at_the_right_edge() {
    let mut player = Player::new();
    for _ in 0..19 {
        player.move_right();
    }
    assert_eq!(player.position().col, 39);
    for _ in 0..100 {
        player.move_right();
        assert_eq!(player.position(), Position { col: 39, row: 19 });
    }
}

#[test]
fn moves_never_leave_the_columns() {
    let mut player = Player::new();
    let mut seed: u32 = 12345;
    for _ in 0..10_000 {
        seed = seed.wrapping_mul(1_103_515_245).wrapping_add(12_345);
        if (seed >> 16) % 3 == 0 {
            player.move_right();
        } else {
            player.move_left();
        }
        assert!(player.position().col < 40);
        seed = seed.wrapping_mul(1_103_515_245).wrapping_add(12_345);
        if (seed >> 16) % 3 == 0 {
            player.move_left();
        } else {
            player.move_right();
        }
        assert!(player.position().col < 40);
    }
}

#[test]
fn shoot_fires_one_projectile_at_the_players_position() {
    let mut player = Player::new();
    assert!(player.shoot());
    assert_eq!(cells_of(&player), vec![Position { col: 20, row: 19 }]);
    assert_eq!(player.cooldown(), 500_000);
    assert_eq!(SHOT_COOLDOWN, 500_000);
}

#[test]
fn shoot_twice_at_once_fires_one_projectile() {
    let mut player = Player::new();
    assert!(player.shoot());
    assert!(!player.shoot());
    assert_eq!(player.shots().len(), 1);
}

#[test]
fn shoot_twice_within_cooldown_fires_one_projectile() {
    let mut player = Player::new();
    assert!(player.shoot());
    player.update(499_999);
    assert_eq!(player.cooldown(), 1);
    assert!(!player.shoot());
    assert_eq!(player.shots().len(), 1);
    assert_eq!(player.cooldown(), 1);
}

#[test]
fn shoot_twice_across_cooldown_fires_two_projectiles() {
    let mut player = Player::new();
    assert!(player.shoot());
    player.update(500_000);
    assert_eq!(player.cooldown(), 0);
    assert!(player.shoot());
    assert_eq!(
        cells_of(&player),
        vec![Position { col: 20, row: 9 }, Position { col: 20, row: 19 }]
    );
}

#[test]
fn cooldown_adds_up_over_several_updates() {
    let mut player = Player::new();
    assert!(player.shoot());
    player.update(200_000);
    assert!(!player.shoot());
    player.update(200_000);
    assert!(!player.shoot());
    player.update(99_999);
    assert!(!player.shoot());
    player.update(1);
    assert!(player.shoot());
    assert_eq!(player.shots().len(), 2);
}

#[test]
fn failed_shot_does_not_restart_the_cooldown() {
    let mut player = Player::new();
    assert!(player.shoot());
    player.update(400_000);
    assert!(!player.shoot());
    assert_eq!(player.cooldown(), 100_000);
    player.update(100_000);
    assert!(player.shoot());
}

#[test]
fn shot_is_fired_from_where_the_player_stands() {
    let mut player = Player::new();
    for _ in 0..7 {
        player.move_left();
    }
    assert!(player.shoot());
    player.move_right();
    assert_eq!(cells_of(&player), vec![Position { col: 13, row: 19 }]);
    assert_eq!(player.position(), Position { col: 14, row: 19 });
}

#[test]
fn projectile_climbs_by_speed_times_elapsed_time() {
    assert_eq!(STEPS_PER_ROW, 50_000);
    assert_eq!(SHOT_SPEED, 1);
    let mut player = Player::new();
    assert!(player.shoot());
    player.update(1);
    assert_eq!(cells_of(&player), vec![Position { col: 20, row: 18 }]);
    player.update(49_999);
    assert_eq!(cells_of(&player), vec![Position { col: 20, row: 18 }]);
    player.update(1);
    assert_eq!(cells_of(&player), vec![Position { col: 20, row: 17 }]);
    player.update(500_000);
    assert_eq!(cells_of(&player), vec![Position { col: 20, row: 7 }]);
}

#[test]
fn update_of_no_time_changes_nothing() {
    let mut player = Player::new();
    assert!(player.shoot());
    player.update(0);
    assert_eq!(cells_of(&player), vec![Position { col: 20, row: 19 }]);
    assert_eq!(player.cooldown(), 500_000);
}

#[test]
fn projectile_stays_until_it_leaves_through_the_top() {
    let mut player = Player::new();
    assert!(player.shoot());
    player.update(950_000);
    assert_eq!(cells_of(&player), vec![Position { col: 20, row: 0 }]);
    player.update(1);
    assert!(player.shots().is_empty());
}

#[test]
fn projectile_that_overshoots_is_removed() {
    let mut player = Player::new();
    assert!(player.shoot());
    player.update(950_001);
    assert!(player.shots().is_empty());
}

#[test]
fn huge_elapsed_time_removes_every_projectile() {
    let mut player = Player::new();
    assert!(player.shoot());
    player.update(500_000);
    assert!(player.shoot());
    player.update(u64::MAX);
    assert!(player.shots().is_empty());
    assert_eq!(player.cooldown(), 0);
    assert_eq!(player.position(), Position { col: 20, row: 19 });
}

#[test]
fn older_projectile_leaves_first() {
    let mut player = Player::new();
    assert!(player.shoot());
    player.update(500_000);
    assert!(player.shoot());
    player.update(450_001);
    assert_eq!(cells_of(&player), vec![Position { col: 20, row: 9 }]);
}

#[test]
fn launch_starts_on_the_top_edge_of_the_cell() {
    let shot = Shot::launch(5, 7);
    assert_eq!(shot.position(), Position { col: 5, row: 7 });
    assert_eq!(
        shot.advance(1).map(|s| s.position()),
        Some(Position { col: 5, row: 6 })
    );
    assert_eq!(
        shot.advance(350_000).map(|s| s.position()),
        Some(Position { col: 5, row: 0 })
    );
    assert_eq!(shot.advance(350_001), None);
    assert_eq!(shot.advance(u64::MAX), None);
    assert_eq!(shot.advance(0), Some(shot));
}

#[test]
fn detect_hits_removes_the_invader_and_the_projectile() {
    let mut player = Player::new();
    let mut swarm = Invaders::new();
    assert!(player.shoot());
    player.update(525_000);
    assert_eq!(cells_of(&player), vec![Position { col: 20, row: 8 }]);
    assert!(swarm.positions().contains(&Position { col: 20, row: 8 }));
    assert!(player.detect_hits(&mut swarm));
    assert!(player.shots().is_empty());
    assert_eq!(swarm.count(), 71);
    assert!(!swarm.positions().contains(&Position { col: 20, row: 8 }));
}

#[test]
fn detect_hits_removes_no_other_invader() {
    let mut player = Player::new();
    let mut swarm = Invaders::new();
    let before = swarm.positions();
    assert!(player.shoot());
    player.update(525_000);
    assert!(player.detect_hits(&mut swarm));
    let expected: Vec<Position> = before
        .into_iter()
        .filter(|p| *p != Position { col: 20, row: 8 })
        .collect();
    assert_eq!(swarm.positions(), expected);
}

#[test]
fn detect_hits_twice_hits_once() {
    let mut player = Player::new();
    let mut swarm = Invaders::new();
    assert!(player.shoot());
    player.update(525_000);
    assert!(player.detect_hits(&mut swarm));
    assert!(!player.detect_hits(&mut swarm));
    assert_eq!(swarm.count(), 71);
}

#[test]
fn detect_hits_without_projectiles_hits_nothing() {
    let mut player = Player::new();
    let mut swarm = Invaders::new();
    assert!(!player.detect_hits(&mut swarm));
    assert_eq!(swarm.count(), 72);
}

#[test]
fn detect_hits_misses_between_the_columns() {
    let mut player = Player::new();
    let mut swarm = Invaders::new();
    player.move_right();
    assert!(player.shoot());
    player.update(525_000);
    assert_eq!(cells_of(&player), vec![Position { col: 21, row: 8 }]);
    assert!(!player.detect_hits(&mut swarm));
    assert_eq!(player.shots().len(), 1);
    assert_eq!(swarm.count(), 72);
}

#[test]
fn detect_hits_misses_below_the_swarm() {
    let mut player = Player::new();
    let mut swarm = Invaders::new();
    assert!(player.shoot());
    player.update(475_000);
    assert_eq!(cells_of(&player), vec![Position { col: 20, row: 9 }]);
    assert!(!player.detect_hits(&mut swarm));
    assert_eq!(swarm.count(), 72);
}

#[test]
fn detect_hits_keeps_the_projectiles_that_miss() {
    let mut player = Player::new();
    let mut swarm = Invaders::new();
    assert!(player.shoot());
    player.update(525_000);
    assert!(player.shoot());
    assert!(player.detect_hits(&mut swarm));
    assert_eq!(cells_of(&player), vec![Position { col: 20, row: 19 }]);
    assert_eq!(swarm.count(), 71);
}

#[test]
fn detect_hits_leaves_player_and_cooldown_alone() {
    let mut player = Player::new();
    let mut swarm = Invaders::new();
    assert!(player.shoot());
    player.update(425_000);
    assert!(!player.detect_hits(&mut swarm));
    assert_eq!(player.position(), Position { col: 20, row: 19 });
    assert_eq!(player.cooldown(), 75_000);
}

#[test]
fn one_projectile_removes_one_invader_of_a_column() {
    let mut player = Player::new();
    let mut swarm = Invaders::new();
    assert!(player.shoot());
    player.update(525_000);
    assert!(player.detect_hits(&mut swarm));
    for row in [2usize, 4, 6] {
        assert!(swarm.positions().contains(&Position { col: 20, row }));
    }
}
