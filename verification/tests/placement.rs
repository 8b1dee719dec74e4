use logic_paint::coords::IVec2;
use logic_paint::substrate::placement::Placement;

#[test]
fn tangent_of_vertical_is_horizontal() {
    assert_eq!(Placement::up().tangent(), Placement::left().bitor(Placement::right()));
    assert_eq!(Placement::down().bitor(Placement::up()).tangent(), Placement::left().bitor(Placement::right()));
}

#[test]
fn tangent_of_horizontal_is_vertical() {
    assert_eq!(Placement::left().tangent(), Placement::up().bitor(Placement::down()));
    assert_eq!(Placement::right().tangent(), Placement::up().bitor(Placement::down()));
}

#[test]
fn cardinal_vectors_in_order() {
    let p = Placement::left().bitor(Placement::up()).bitor(Placement::down());
    let v: Vec<IVec2> = p.cardinal_vectors().iter().cloned().collect();
    assert_eq!(v, vec![IVec2::new(0, 1), IVec2::new(0, -1), IVec2::new(-1, 0)]);
    assert_eq!(Placement::center_only().cardinal_vectors().len(), 0);
}

#[test]
fn set_and_has_cardinal() {
    let mut p = Placement::none();
    p.set_cardinal(IVec2::new(1, 0));
    assert_eq!(p, Placement::right());
    assert!(p.has_cardinal(IVec2::new(1, 0)));
    assert!(!p.has_cardinal(IVec2::new(-1, 0)));
    assert_eq!(Placement::from_cardinal(IVec2::new(0, -1)), Placement::down());
}

#[test]
fn bitor_is_union() {
    let p = Placement::up().bitor(Placement::right());
    assert!(p.center && p.up && p.right && !p.down && !p.left);
    assert_eq!(Placement::none().bitor(Placement::none()), Placement::none());
}
