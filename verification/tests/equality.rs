use vecvec::VecVec;

#[derive(Clone, Debug)]
struct Foo;

#[test]
fn windows_are_equal_by_extent_and_cells() {
    let mut vv = VecVec::new(7, 7, 'a');
    assert!(vv.slice(0, 0, 2, 2).unwrap() == vv.slice(1, 1, 2, 2).unwrap());
    assert!(vv.slice(0, 0, 2, 3).unwrap() != vv.slice(0, 0, 3, 2).unwrap());
    *vv.get_mut(1, 2).unwrap() = 'b';
    assert!(vv.slice(1, 2, 3, 4).unwrap() != vv.slice(2, 1, 3, 4).unwrap());
    assert!(vv.slice(5, 5, 0, 0).unwrap() == vv.slice(2, 2, 0, 0).unwrap());
    assert!(vv.slice(1, 2, 1, 1).unwrap() != vv.slice(2, 2, 1, 1).unwrap());
    assert!(vv.slice(0, 0, 0, 2).unwrap() != vv.slice(0, 0, 2, 0).unwrap());
}

#[test]
fn windows_of_two_grids_are_equal_by_cells() {
    let mut one = VecVec::new(3, 3, 0u8);
    let mut other = VecVec::new(5, 4, 0u8);
    *one.get_mut(1, 1).unwrap() = 9;
    *other.get_mut(3, 2).unwrap() = 9;
    assert!(one.slice(0, 0, 3, 3).unwrap() == other.slice(2, 1, 3, 3).unwrap());
    assert!(one.slice(0, 0, 3, 3).unwrap() != other.slice(1, 1, 3, 3).unwrap());
    assert!(one.slice(0, 0, 3, 3).unwrap() == other.slice_mut(2, 1, 3, 3).unwrap());
    assert!(one.slice_mut(0, 0, 3, 3).unwrap() == other.slice_mut(2, 1, 3, 3).unwrap());
    assert!(one.slice_mut(1, 1, 1, 1).unwrap() != other.slice(0, 0, 1, 1).unwrap());
}

#[test]
fn window_against_listed_rows() {
    let mut vv = VecVec::new(3, 2, 0u8);
    *vv.get_mut(2, 1).unwrap() = 5;
    let whole = vv.as_slice();
    assert!(whole == &[&[0, 0, 0][..], &[0, 0, 5][..]][..]);
    assert!(whole != &[&[0, 0, 0][..], &[0, 0, 6][..]][..]);
    assert!(whole != &[&[0, 0, 0][..]][..]);
    assert!(whole != &[&[0, 0, 0][..], &[0, 0, 5][..], &[0, 0, 0][..]][..]);
    assert!(whole != &[&[0, 0, 0][..], &[0, 0][..]][..]);
    assert!(whole != &[&[0, 0][..], &[0, 0][..]][..]);
    assert!(whole != &[&[0, 0, 0, 0][..], &[0, 0, 5, 0][..]][..]);
    let none: &[&[u8]] = &[];
    assert!(whole != none);
    assert!(vv.slice(0, 0, 3, 0).unwrap() == none);
    assert!(vv.slice(0, 0, 0, 0).unwrap() == none);
    assert!(vv.slice(0, 0, 0, 2).unwrap() != none);
    assert!(vv.slice(0, 0, 0, 2).unwrap() == &[&[][..], &[][..]][..]);
}

#[test]
fn grid_is_written_as_a_list_of_rows() {
    let vv = VecVec::new(2, 3, Foo);
    assert_eq!(vv.debug_string(), "[[Foo, Foo], [Foo, Foo], [Foo, Foo]]");
    assert_eq!(vv.slice(0, 0, 0, 0).unwrap().debug_string(), "[]");
    assert_eq!(vv.slice(0, 0, 0, 2).unwrap().debug_string(), "[[], []]");
    assert_eq!(vv.slice(1, 1, 1, 1).unwrap().debug_string(), "[[Foo]]");
    assert_eq!(format!("{:?}", vv), "[[Foo, Foo], [Foo, Foo], [Foo, Foo]]");
    assert_eq!(format!("{:?}", vv.slice(0, 0, 0, 0).unwrap()), "[]");
    assert_eq!(format!("{:?}", vv.slice(0, 1, 2, 1).unwrap()), "[[Foo, Foo]]");
    assert_eq!(format!("{:?}", Some(vv.slice(0, 1, 1, 1).unwrap())), "Some([[Foo]])");
}

#[test]
fn cells_are_written_as_their_type_writes_them() {
    let mut vv = VecVec::new(3, 2, 0i32);
    *vv.get_mut(0, 0).unwrap() = -1;
    *vv.get_mut(2, 1).unwrap() = 25;
    assert_eq!(vv.debug_string(), "[[-1, 0, 0], [0, 0, 25]]");
    assert_eq!(vv.slice_mut(1, 1, 2, 1).unwrap().debug_string(), "[[0, 25]]");
    let words = VecVec::new(1, 2, "a b");
    assert_eq!(words.debug_string(), "[[\"a b\"], [\"a b\"]]");
}

#[test]
fn list_joins_with_comma_and_space() {
    assert_eq!(vecvec::render::list(&vec![]), "[]");
    assert_eq!(vecvec::render::list(&vec![String::from("x")]), "[x]");
    assert_eq!(
        vecvec::render::list(&vec![String::from("x"), String::new(), String::from("y, z")]),
        "[x, , y, z]"
    );
}

#[test]
fn listing_nests_lists() {
    assert_eq!(vecvec::render::listing(&vec![]), "[]");
    assert_eq!(vecvec::render::listing(&vec![vec![], vec![]]), "[[], []]");
    assert_eq!(
        vecvec::render::listing(&vec![
            vec![String::from("a"), String::from("b")],
            vec![String::from("c")],
        ]),
        "[[a, b], [c]]"
    );
}
