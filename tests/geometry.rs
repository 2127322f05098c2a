use ecstroids::geom::{
    add_vec, cap, ceil_sqrt_exec, direction, heading_towards, is_within, rotate, scale, sine_of,
    sub_vec, turn, unrotate, wrap, Vec2, COORD_LIMIT, FIELD_HEIGHT, FIELD_WIDTH, MAX_VEL,
};

#[test]
fn sine_at_the_quarter_turns() {
    assert_eq!(sine_of(0), 0);
    assert_eq!(sine_of(900), 1000);
    assert_eq!(sine_of(1800), 0);
    assert_eq!(sine_of(2700), -1000);
    assert_eq!(sine_of(3600 + 900), 1000);
    assert_eq!(sine_of(300), 500);
}

#[test]
fn directions_of_the_axes() {
    assert_eq!(direction(0), Vec2::new(1000, 0));
    assert_eq!(direction(900), Vec2::new(0, 1000));
    assert_eq!(direction(1800), Vec2::new(-1000, 0));
    assert_eq!(direction(2700), Vec2::new(0, -1000));
}

#[test]
fn heading_towards_the_axes() {
    assert_eq!(heading_towards(Vec2::new(0, 5000)), 900);
    assert_eq!(heading_towards(Vec2::new(7, 0)), 0);
    assert_eq!(heading_towards(Vec2::new(-3000, 0)), 1800);
    assert_eq!(heading_towards(Vec2::new(0, -1)), 2700);
}

#[test]
fn turning_wraps_around() {
    assert_eq!(turn(3590, 50), 40);
    assert_eq!(turn(10, -50), 3560);
    assert_eq!(turn(0, 0), 0);
}

#[test]
fn speed_cap_exact_values() {
    assert_eq!(cap(Vec2::new(3000, 4000)), Vec2::new(1200, 1600));
    assert_eq!(cap(Vec2::new(-3000, -4000)), Vec2::new(-1200, -1600));
    assert_eq!(cap(Vec2::new(1000, 1000)), Vec2::new(1000, 1000));
    let c = cap(Vec2::new(COORD_LIMIT, -COORD_LIMIT));
    assert!(c.x * c.x + c.y * c.y <= MAX_VEL * MAX_VEL);
}

#[test]
fn ceil_sqrt_values() {
    assert_eq!(ceil_sqrt_exec(0), 0);
    assert_eq!(ceil_sqrt_exec(1), 1);
    assert_eq!(ceil_sqrt_exec(24), 5);
    assert_eq!(ceil_sqrt_exec(25), 5);
    assert_eq!(ceil_sqrt_exec(26), 6);
}

#[test]
fn vector_arithmetic_clamps() {
    assert_eq!(add_vec(Vec2::new(1, 2), Vec2::new(3, -5)), Vec2::new(4, -3));
    assert_eq!(sub_vec(Vec2::new(1, 2), Vec2::new(3, -5)), Vec2::new(-2, 7));
    assert_eq!(add_vec(Vec2::new(COORD_LIMIT, 0), Vec2::new(5, 0)).x, COORD_LIMIT);
    assert_eq!(scale(Vec2::new(1000, -1000), 40), Vec2::new(40, -40));
    assert_eq!(scale(Vec2::new(-1, 0), 999), Vec2::new(0, 0));
}

#[test]
fn rotation_round_trip_on_axes() {
    assert_eq!(rotate(Vec2::new(5000, 0), 900), Vec2::new(0, 5000));
    assert_eq!(unrotate(Vec2::new(5000, 0), 900), Vec2::new(0, -5000));
    assert_eq!(rotate(unrotate(Vec2::new(5000, 0), 900), 900), Vec2::new(5000, 0));
}

#[test]
fn within_includes_the_edge() {
    assert!(is_within(Vec2::new(3, 4), Vec2::new(0, 0), 5));
    assert!(!is_within(Vec2::new(3, 4), Vec2::new(0, 0), 4));
}

#[test]
fn wrap_brings_positions_back_once() {
    assert_eq!(wrap(Vec2::new(FIELD_WIDTH + 1000, 5)), Vec2::new(1000, 5));
    assert_eq!(wrap(Vec2::new(-1, FIELD_HEIGHT + 2)), Vec2::new(FIELD_WIDTH - 1, 2));
    assert_eq!(wrap(Vec2::new(FIELD_WIDTH, 0)), Vec2::new(FIELD_WIDTH, 0));
}
