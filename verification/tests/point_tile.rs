use rogue_light::colors::{darker_green, desaturated_green, white};
use rogue_light::fraction::Fraction;
use rogue_light::map::map::default_shade;
use rogue_light::map::point::Point;
use rogue_light::map::rect::Rect;
use rogue_light::map::tile::{color_dark_floor, color_dark_wall, Tile};

#[test]
fn points_can_be_made() {
    let origin = Point::origin();
    let other = Point::new(3, -4);
    assert_eq!(format!("{:?}", origin), "Point { x: 0, y: 0 }");
    assert_eq!(format!("{:?}", other), "Point { x: 3, y: -4 }");
}

#[test]
fn named_colours() {
    let c = white();
    assert_eq!((c.r, c.g, c.b), (255, 255, 255));
    let c = desaturated_green();
    assert_eq!((c.r, c.g, c.b), (63, 127, 63));
    let c = darker_green();
    assert_eq!((c.r, c.g, c.b), (0, 127, 0));
    let c = color_dark_wall();
    assert_eq!((c.r, c.g, c.b), (51, 21, 0));
    let c = color_dark_floor();
    assert_eq!((c.r, c.g, c.b), (80, 64, 20));
}

#[test]
fn floor_tile_is_open_and_unseen() {
    let tile = Tile::floor(3, 7, Fraction::new(1, 2));
    assert!(!tile.blocked);
    assert!(!tile.block_sight);
    assert!(!tile.explored);
    assert!(!tile.visible);
    assert_eq!((tile.x, tile.y), (3, 7));
    assert_eq!((tile.shade_factor.num, tile.shade_factor.den), (1, 2));
    assert_eq!((tile.color.r, tile.color.g, tile.color.b), (80, 64, 20));
}

#[test]
fn wall_tile_blocks_and_is_unseen() {
    let tile = Tile::wall(-1, 2, default_shade());
    assert!(tile.blocked);
    assert!(tile.block_sight);
    assert!(!tile.explored);
    assert!(!tile.visible);
    assert_eq!((tile.x, tile.y), (-1, 2));
    assert_eq!((tile.shade_factor.num, tile.shade_factor.den), (4, 5));
    assert_eq!((tile.color.r, tile.color.g, tile.color.b), (51, 21, 0));
}

#[test]
fn rect_has_corner_and_size() {
    let rect = Rect::new(2, 3, 6, 8);
    assert_eq!((rect.x1, rect.y1, rect.x2, rect.y2), (2, 3, 8, 11));
    assert_eq!(rect.center(), (5, 7));
}

#[test]
fn rect_center_rounds_towards_zero() {
    assert_eq!(Rect { x1: 0, y1: 0, x2: 5, y2: 7 }.center(), (2, 3));
    assert_eq!(Rect { x1: -5, y1: -7, x2: 0, y2: 0 }.center(), (-2, -3));
    assert_eq!(
        Rect { x1: i32::MAX, y1: i32::MIN, x2: i32::MAX, y2: i32::MIN }.center(),
        (i32::MAX, i32::MIN)
    );
}

#[test]
fn rects_that_share_a_border_intersect() {
    let a = Rect::new(0, 0, 5, 5);
    assert!(a.intersects_with(&Rect::new(5, 5, 3, 3)));
    assert!(a.intersects_with(&Rect::new(2, 2, 1, 1)));
    assert!(a.intersects_with(&a));
    assert!(!a.intersects_with(&Rect::new(6, 0, 3, 3)));
    assert!(!a.intersects_with(&Rect::new(0, 6, 3, 3)));
    assert!(!Rect::new(6, 0, 3, 3).intersects_with(&a));
}
