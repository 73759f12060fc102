use solitaire_core::color::Color;
use solitaire_core::rotation::Rotation;

#[test]
fn default_rotation_is_up() {
    assert_eq!(Rotation::default(), Rotation::Up);
}

#[test]
fn each_rotation_has_its_angle() {
    assert_eq!(Rotation::Up.angle(), 0);
    assert_eq!(Rotation::Left.angle(), 90);
    assert_eq!(Rotation::Right.angle(), -90);
    assert_eq!(Rotation::Down.angle(), 180);
}

#[test]
fn each_rotation_has_its_tint() {
    assert_eq!(Rotation::Up.tint(), Color { red: 20, green: 20, blue: 50 });
    assert_eq!(Rotation::Left.tint(), Color { red: 20, green: 50, blue: 20 });
    assert_eq!(Rotation::Right.tint(), Color { red: 50, green: 20, blue: 20 });
    assert_eq!(Rotation::Down.tint(), Color { red: 50, green: 20, blue: 50 });
}

#[test]
fn draws_map_to_rotations_by_remainder() {
    assert_eq!(Rotation::from_draw(0), Rotation::Up);
    assert_eq!(Rotation::from_draw(1), Rotation::Left);
    assert_eq!(Rotation::from_draw(2), Rotation::Right);
    assert_eq!(Rotation::from_draw(3), Rotation::Down);
    assert_eq!(Rotation::from_draw(4), Rotation::Up);
    assert_eq!(Rotation::from_draw(254), Rotation::Right);
    assert_eq!(Rotation::from_draw(255), Rotation::Down);
}

#[test]
fn every_byte_gives_each_rotation_equally_often() {
    let mut counts = [0u32; 4];
    for draw in 0..=255u8 {
        match Rotation::from_draw(draw) {
            Rotation::Up => counts[0] += 1,
            Rotation::Left => counts[1] += 1,
            Rotation::Right => counts[2] += 1,
            Rotation::Down => counts[3] += 1,
        }
    }
    assert_eq!(counts, [64, 64, 64, 64]);
}

#[test]
fn random_rotations_reach_more_than_one_value() {
    let first = Rotation::random();
    let mut differs = false;
    for _ in 0..512 {
        if Rotation::random() != first {
            differs = true;
        }
    }
    assert!(differs);
}

#[test]
fn color_constructor_keeps_channels() {
    assert_eq!(Color::srgb(15, 25, 35), Color { red: 15, green: 25, blue: 35 });
}
