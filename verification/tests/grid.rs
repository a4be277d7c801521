use vecvec::VecVec;

fn counted(width: usize, height: usize) -> VecVec<usize> {
    let mut vv = VecVec::new(width, height, 0);
    for y in 0..height {
        for x in 0..width {
            *vv.get_mut(x, y).unwrap() = y * width + x;
        }
    }
    vv
}

#[test]
fn new_fills_every_cell_and_no_other() {
    for width in 0..5 {
        for height in 0..5 {
            let vv = VecVec::new(width, height, 'v');
            assert_eq!(vv.width(), width);
            assert_eq!(vv.height(), height);
            for x in 0..7 {
                for y in 0..7 {
                    if x < width && y < height {
                        assert_eq!(vv.get(x, y), Some(&'v'));
                    } else {
                        assert_eq!(vv.get(x, y), None);
                    }
                }
            }
        }
    }
}

#[test]
fn empty_grids_have_no_cell() {
    let mut wide = VecVec::new(4, 0, 1u8);
    assert_eq!(wide.get(0, 0), None);
    assert_eq!(wide.get_mut(0, 0), None);
    let mut high = VecVec::new(0, 3, 1u8);
    assert_eq!(high.get(0, 0), None);
    assert_eq!(high.get_mut(0, 2), None);
    assert_eq!(high.width(), 0);
    assert_eq!(high.height(), 3);
}

#[test]
fn cells_lie_row_after_row() {
    let vv = counted(4, 3);
    assert_eq!(vv.get(0, 0), Some(&0));
    assert_eq!(vv.get(3, 0), Some(&3));
    assert_eq!(vv.get(0, 1), Some(&4));
    assert_eq!(vv.get(2, 2), Some(&10));
    assert_eq!(vv.get(3, 2), Some(&11));
}

#[test]
fn written_cell_is_read_back_whatever_the_order() {
    let mut forth = VecVec::new(3, 2, 0usize);
    for y in 0..2 {
        for x in 0..3 {
            *forth.get_mut(x, y).unwrap() = 10 * y + x;
        }
    }
    let mut back = VecVec::new(3, 2, 0usize);
    for y in (0..2).rev() {
        for x in (0..3).rev() {
            *back.get_mut(x, y).unwrap() = 10 * y + x;
        }
    }
    for y in 0..2 {
        for x in 0..3 {
            assert_eq!(forth.get(x, y), Some(&(10 * y + x)));
            assert_eq!(back.get(x, y), Some(&(10 * y + x)));
        }
    }
    assert!(forth == back);
}

#[test]
fn writing_one_cell_leaves_the_others() {
    let mut vv = counted(4, 3);
    *vv.get_mut(2, 1).unwrap() = 99;
    for y in 0..3 {
        for x in 0..4 {
            let want = if (x, y) == (2, 1) { 99 } else { y * 4 + x };
            assert_eq!(vv.get(x, y), Some(&want));
        }
    }
}

#[test]
fn get_mut_out_of_range_is_none() {
    let mut vv = counted(4, 3);
    assert_eq!(vv.get_mut(4, 0), None);
    assert_eq!(vv.get_mut(0, 3), None);
    assert_eq!(vv.get_mut(usize::MAX, usize::MAX), None);
    assert!(vv == counted(4, 3));
}

#[test]
fn slice_is_some_exactly_within_bounds() {
    let vv = counted(4, 3);
    for x in 0..7 {
        for y in 0..6 {
            for width in 0..7 {
                for height in 0..6 {
                    let within = x + width <= 4 && y + height <= 3;
                    assert_eq!(vv.slice(x, y, width, height).is_some(), within);
                }
            }
        }
    }
}

#[test]
fn slice_mut_is_some_exactly_within_bounds() {
    let mut vv = counted(4, 3);
    for x in 0..7 {
        for y in 0..6 {
            for width in 0..7 {
                for height in 0..6 {
                    let within = x + width <= 4 && y + height <= 3;
                    assert_eq!(vv.slice_mut(x, y, width, height).is_some(), within);
                }
            }
        }
    }
    assert!(vv == counted(4, 3));
}

#[test]
fn empty_rectangles_are_windows() {
    let vv = counted(4, 3);
    let corner = vv.slice(4, 3, 0, 0).unwrap();
    assert_eq!(corner.x(), 4);
    assert_eq!(corner.y(), 3);
    assert_eq!(corner.width(), 0);
    assert_eq!(corner.height(), 0);
    assert_eq!(corner.get(0, 0), None);
    let flat = vv.slice(1, 2, 3, 0).unwrap();
    assert_eq!((flat.x(), flat.y(), flat.width(), flat.height()), (1, 2, 3, 0));
    assert_eq!(flat.get(0, 0), None);
    let thin = vv.slice(4, 0, 0, 3).unwrap();
    assert_eq!((thin.x(), thin.y(), thin.width(), thin.height()), (4, 0, 0, 3));
    assert_eq!(thin.get(0, 0), None);
    assert!(vv.slice(5, 0, 0, 0).is_none());
    assert!(vv.slice(0, 4, 0, 0).is_none());
}

#[test]
fn far_rectangles_are_refused_without_overflow() {
    let mut vv = counted(4, 3);
    assert!(vv.slice(usize::MAX, 0, 1, 0).is_none());
    assert!(vv.slice(1, usize::MAX, 0, 1).is_none());
    assert!(vv.slice(1, 1, usize::MAX, usize::MAX).is_none());
    assert!(vv.slice_mut(usize::MAX, usize::MAX, usize::MAX, usize::MAX).is_none());
    assert!(vv.hsplit_at(usize::MAX).is_none());
    assert!(vv.vsplit_at(usize::MAX).is_none());
    assert!(vv.hsplit_at_mut(usize::MAX).is_none());
    assert!(vv.vsplit_at_mut(usize::MAX).is_none());
    let whole = vv.as_slice();
    assert!(whole.slice(usize::MAX, 0, 1, 0).is_none());
    assert!(whole.slice(0, 1, 1, usize::MAX).is_none());
}

#[test]
fn window_reads_the_grid_from_its_corner() {
    let vv = counted(5, 4);
    let window = vv.slice(1, 2, 3, 2).unwrap();
    assert_eq!((window.x(), window.y(), window.width(), window.height()), (1, 2, 3, 2));
    for x in 0..6 {
        for y in 0..6 {
            if x < 3 && y < 2 {
                assert_eq!(window.get(x, y), vv.get(1 + x, 2 + y));
                assert_eq!(window.get(x, y), Some(&((2 + y) * 5 + 1 + x)));
            } else {
                assert_eq!(window.get(x, y), None);
            }
        }
    }
}

#[test]
fn window_for_writing_changes_its_rectangle_alone() {
    let mut vv = counted(5, 4);
    {
        let mut window = vv.slice_mut(1, 2, 3, 2).unwrap();
        assert_eq!((window.x(), window.y(), window.width(), window.height()), (1, 2, 3, 2));
        assert_eq!(window.get(0, 0), Some(&11));
        assert_eq!(window.get_mut(3, 0), None);
        assert_eq!(window.get_mut(0, 2), None);
        for y in 0..2 {
            for x in 0..3 {
                *window.get_mut(x, y).unwrap() = 1000 + 10 * y + x;
            }
        }
        assert_eq!(window.get(2, 1), Some(&1012));
    }
    for y in 0..4 {
        for x in 0..5 {
            let inside = 1 <= x && x < 4 && 2 <= y;
            let want = if inside { 1000 + 10 * (y - 2) + (x - 1) } else { y * 5 + x };
            assert_eq!(vv.get(x, y), Some(&want));
        }
    }
}

#[test]
fn whole_window_spans_the_grid() {
    let mut vv = counted(4, 3);
    {
        let whole = vv.as_slice();
        assert_eq!((whole.x(), whole.y(), whole.width(), whole.height()), (0, 0, 4, 3));
        assert!(whole == &[&[0, 1, 2, 3][..], &[4, 5, 6, 7][..], &[8, 9, 10, 11][..]][..]);
    }
    {
        let mut whole = vv.as_mut_slice();
        assert_eq!((whole.x(), whole.y(), whole.width(), whole.height()), (0, 0, 4, 3));
        *whole.get_mut(3, 2).unwrap() = 7;
        *whole.get_mut(0, 0).unwrap() = 5;
    }
    assert_eq!(vv.get(3, 2), Some(&7));
    assert_eq!(vv.get(0, 0), Some(&5));
    assert_eq!(vv.get(1, 0), Some(&1));
}

#[test]
fn whole_window_of_an_empty_grid() {
    let mut high = VecVec::new(0, 3, 0u8);
    {
        let whole = high.as_slice();
        assert_eq!((whole.width(), whole.height()), (0, 3));
        assert!(whole == &[&[][..], &[][..], &[][..]][..]);
    }
    {
        let mut whole = high.as_mut_slice();
        assert_eq!((whole.width(), whole.height()), (0, 3));
        assert_eq!(whole.get_mut(0, 0), None);
        let (left, right) = whole.vsplit_at_mut(0).unwrap();
        assert_eq!((left.width(), left.height()), (0, 3));
        assert_eq!((right.width(), right.height()), (0, 3));
    }
    let mut wide = VecVec::new(4, 0, 0u8);
    let (upper, lower) = wide.hsplit_at_mut(0).unwrap();
    assert_eq!((upper.width(), upper.height()), (4, 0));
    assert_eq!((lower.width(), lower.height()), (4, 0));
}

#[test]
fn clone_is_a_grid_of_its_own() {
    let mut vv = counted(3, 2);
    let kept = vv.clone();
    assert!(vv == kept);
    *vv.get_mut(1, 1).unwrap() = 77;
    assert!(vv != kept);
    assert_eq!(kept.get(1, 1), Some(&4));
    assert_eq!(kept.width(), 3);
    assert_eq!(kept.height(), 2);
}

#[test]
fn grids_are_equal_by_extent_and_cells() {
    assert!(VecVec::new(2, 3, 1u8) == VecVec::new(2, 3, 1u8));
    assert!(VecVec::new(2, 3, 1u8) != VecVec::new(3, 2, 1u8));
    assert!(VecVec::new(2, 3, 1u8) != VecVec::new(2, 3, 2u8));
    assert!(VecVec::new(0, 3, 1u8) != VecVec::new(3, 0, 1u8));
    assert!(VecVec::new(0, 3, 1u8) == VecVec::new(0, 3, 2u8));
}
