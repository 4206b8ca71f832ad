use game_server_sample::message::{set_trace, TraceConfig};
use game_server_sample::{
    clamp_player_to_bounds, generate_color, world_bounds, Color, Player, Vec2, PLAYER_MAX_X,
    PLAYER_MAX_Y, PLAYER_MIN_X, PLAYER_MIN_Y,
};

#[test]
fn players_start_at_the_origin() {
    let p = Player::new(5, Color::new(10, 20, 30));
    assert_eq!(p.id, 5);
    assert_eq!(p.color, Color { r: 10, g: 20, b: 30 });
    assert_eq!(p.pos, Vec2 { x: 0, y: 0 });
    assert_eq!(p.velocity, Vec2 { x: 0, y: 0 });
    let d = Player::default();
    assert_eq!(d.id, 0);
    assert_eq!(d.color, Color { r: 0, g: 0, b: 0 });
}

#[test]
fn clamping_keeps_a_quad_margin_inside_the_world() {
    let b = world_bounds();
    assert_eq!((b.min_x, b.min_y, b.max_x, b.max_y), (-1200, -1200, 1200, 1200));
    assert_eq!((PLAYER_MIN_X, PLAYER_MAX_X), (-1188, 1188));
    assert_eq!((PLAYER_MIN_Y, PLAYER_MAX_Y), (-1188, 1188));

    let mut p = Player::new(1, Color::new(0, 0, 0));
    p.pos = Vec2 { x: i32::MAX, y: i32::MIN };
    clamp_player_to_bounds(&mut p);
    assert_eq!(p.pos, Vec2 { x: 1188, y: -1188 });

    // An in-bounds position is left exactly where it was.
    p.pos = Vec2 { x: -7, y: 1188 };
    clamp_player_to_bounds(&mut p);
    assert_eq!(p.pos, Vec2 { x: -7, y: 1188 });
}

#[test]
fn generated_colors_are_never_pure_white() {
    for _ in 0..256 {
        let c = generate_color();
        assert!(!(c.r == 255 && c.g == 255 && c.b == 255));
    }
}

#[test]
fn tracing_is_off_until_switched() {
    let mut t = TraceConfig::new();
    assert!(!t.enabled);
    set_trace(&mut t, true);
    assert!(t.enabled);
    set_trace(&mut t, false);
    assert!(!t.enabled);
}
