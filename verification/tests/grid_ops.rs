use symetrical_grid::Asymetrical;
use symetrical_grid::Point;
use symetrical_grid::Symetrical;
use symetrical_grid::X;
use symetrical_grid::Y;

#[test]
fn x_from_slices() {
    let x = [1, 2, 3];
    let y = [2, 3, 4];
    let t = [&x[..], &y[..]];
    let x = X::from(&t[..]);
    let mut x_c: X<i32, Asymetrical> = X::new();
    x_c.add_row_no_resize();
    x_c.add_row_no_resize();
    x_c.row_mut(0).push(1);
    x_c.row_mut(0).push(2);
    x_c.row_mut(0).push(3);
    x_c.row_mut(1).push(2);
    x_c.row_mut(1).push(3);
    x_c.row_mut(1).push(4);
    assert_eq!(x, x_c);
}

#[test]
fn y_from_slices() {
    let control = [1, 2, 3];
    let y = Y::from(&control[..]);
    let mut control: Y<i32, Asymetrical> = Y::new();
    control.push(1);
    control.push(2);
    control.push(3);
    assert_eq!(control, y);
}

#[test]
fn point_wraps_one_value() {
    let p = Point::new(42);
    assert_eq!(*p.value(), 42);
    assert_eq!(p.unwrap(), 42);
    let mut q = Point::new(1);
    *q.value_mut() = 9;
    assert_eq!(q.unwrap(), 9);
    assert_eq!(Point::new(3), Point::new(3));
    assert_ne!(Point::new(3), Point::new(4));
}

#[test]
fn point_from_wraps_the_value() {
    let p = Point::from(15);
    assert_eq!(p, Point::new(15));
    assert_eq!(p.unwrap(), 15);
}

#[test]
fn push_point_on_empty_grid() {
    // An empty symetrical grid grows to exactly 4 rows of 5 columns when
    // (3, 4) is pushed; the pushed cell holds the value, all others the
    // default.
    let mut grid: X<u32, Symetrical> = X::new();
    grid.push_point(3, 4, 5);
    assert_eq!(grid.len(), 4);
    for i in 0..4 {
        assert_eq!(grid.row(i).len(), 5);
    }
    assert_eq!(grid.get_point(3, 4), Some(&5));
    for i in 0..4 {
        for j in 0..5 {
            if (i, j) != (3, 4) {
                assert_eq!(grid.get_point(i, j), Some(&0));
            }
        }
    }
}

#[test]
fn push_point_keeps_existing_cells() {
    let mut grid: X<u32, Symetrical> = X::new();
    grid.push_point(0, 0, 1);
    grid.push_point(1, 1, 2);
    assert_eq!(grid.get_point(0, 0), Some(&1));
    assert_eq!(grid.get_point(1, 1), Some(&2));
    assert_eq!(grid.get_point(0, 1), Some(&0));
    assert_eq!(grid.get_point(1, 0), Some(&0));
    assert_eq!(grid.len(), 2);
    assert_eq!(grid.row(0).len(), 2);
}

#[test]
fn get_point_out_of_range_is_none() {
    let grid: X<u32, Symetrical> = X::with_size(2, 2);
    assert_eq!(grid.get_point(13, 45), None);
    assert_eq!(grid.get_point(2, 0), None);
    assert_eq!(grid.get_point(0, 2), None);
    let empty: X<u32, Symetrical> = X::new();
    assert_eq!(empty.get_point(0, 0), None);
}

#[test]
fn get_point_mut_writes_one_cell() {
    let mut grid: X<u32, Symetrical> = X::with_size(2, 2);
    if let Some(cell) = grid.get_point_mut(1, 0) {
        *cell = 15;
    }
    assert_eq!(grid.get_point(1, 0), Some(&15));
    assert_eq!(grid.get_point(0, 0), Some(&0));
    assert_eq!(grid.get_point(0, 1), Some(&0));
    assert_eq!(grid.get_point(1, 1), Some(&0));
    assert!(grid.get_point_mut(5, 0).is_none());
}

#[test]
fn add_row_keeps_column_count() {
    // A new row on a symetrical grid with column count 5 has length exactly
    // 5, and its cells are default.
    let mut grid: X<u32, Symetrical> = X::new();
    grid.push_point(0, 4, 9);
    assert_eq!(grid.len(), 1);
    grid.add_row();
    assert_eq!(grid.len(), 2);
    assert_eq!(grid.row(1).len(), 5);
    for j in 0..5 {
        assert_eq!(grid.get_point(1, j), Some(&0));
    }
}

#[test]
fn add_row_on_empty_grid() {
    let mut grid: X<i32, Symetrical> = X::new();
    assert_eq!(grid.len(), 0);
    grid.add_row();
    assert_eq!(grid.len(), 1);
    assert_eq!(grid.row(0).len(), 0);
}

#[test]
fn add_column_grows_every_row_by_one() {
    let mut grid: X<u32, Symetrical> = X::with_size(3, 2);
    grid.add_column();
    assert_eq!(grid.len(), 3);
    for i in 0..3 {
        assert_eq!(grid.row(i).len(), 3);
        assert_eq!(grid.get_point(i, 2), Some(&0));
    }
}

#[test]
fn add_column_on_empty_grid_creates_one_row() {
    let mut grid: X<u32, Symetrical> = X::new();
    grid.add_column();
    assert_eq!(grid.len(), 1);
    assert_eq!(grid.row(0).len(), 1);
    assert_eq!(grid.get_point(0, 0), Some(&0));
}

#[test]
fn with_size_equals_incremental_build() {
    // A 2-by-3 grid of defaults equals the grid built by two add_row calls
    // followed by three add_column calls.
    let bulk: X<i32, Symetrical> = X::with_size(2, 3);
    assert_eq!(bulk.len(), 2);
    for i in 0..2 {
        assert_eq!(bulk.row(i).len(), 3);
        for j in 0..3 {
            assert_eq!(bulk.get_point(i, j), Some(&0));
        }
    }
    let mut grown: X<i32, Symetrical> = X::new();
    grown.add_row();
    grown.add_row();
    grown.add_column();
    grown.add_column();
    grown.add_column();
    assert_eq!(bulk, grown);
}

#[test]
fn with_size_zero_is_empty() {
    let grid: X<i32, Symetrical> = X::with_size(0, 0);
    assert_eq!(grid.len(), 0);
    let tall: X<i32, Symetrical> = X::with_size(2, 0);
    assert_eq!(tall.len(), 2);
    assert_eq!(tall.row(0).len(), 0);
    assert_eq!(tall.row(1).len(), 0);
}

#[test]
fn pop_row_returns_rows_in_reverse_order() {
    // push_row([1,2,3]) then push_row([4,5]): pop_row returns [4,5], then
    // [1,2,3], then None.
    let mut grid: X<i32, Asymetrical> = X::new();
    grid.push_row(Y::from(&[1, 2, 3][..]));
    grid.push_row(Y::from(&[4, 5][..]));
    assert_eq!(grid.pop_row(), Some(Y::from(&[4, 5][..])));
    assert_eq!(grid.pop_row(), Some(Y::from(&[1, 2, 3][..])));
    assert_eq!(grid.pop_row(), None);
}

#[test]
fn add_row_no_resize_appends_empty_row() {
    let mut grid: X<i32, Asymetrical> = X::new();
    grid.push_row(Y::from(&[7, 8][..]));
    grid.add_row_no_resize();
    assert_eq!(grid.len(), 2);
    assert_eq!(grid.row(0).len(), 2);
    assert_eq!(grid.row(1).len(), 0);
}

#[test]
fn grid_resize_grows_and_truncates() {
    let mut grid: X<i32, Asymetrical> = X::new();
    grid.push_row(Y::from(&[1][..]));
    grid.resize(3);
    assert_eq!(grid.len(), 3);
    assert_eq!(grid.row(0).len(), 1);
    assert_eq!(grid.row(1).len(), 0);
    assert_eq!(grid.row(2).len(), 0);
    grid.resize(1);
    assert_eq!(grid.len(), 1);
    assert_eq!(grid.get_point(0, 0), Some(&1));
    grid.resize(0);
    assert_eq!(grid.len(), 0);
}

#[test]
fn row_push_pop_get() {
    let mut row: Y<char, Asymetrical> = Y::new();
    row.push('h');
    row.push('i');
    assert_eq!(row.len(), 2);
    assert_eq!(row.get(0), Some(&'h'));
    assert_eq!(row.get(1), Some(&'i'));
    assert_eq!(row.get(2), None);
    assert_eq!(row.pop(), Some('i'));
    assert_eq!(row.pop(), Some('h'));
    assert_eq!(row.pop(), None);
}

#[test]
fn row_get_mut_writes_one_cell() {
    let mut row: Y<i32, Asymetrical> = Y::from(&[1, 2, 3][..]);
    if let Some(v) = row.get_mut(1) {
        *v = 20;
    }
    assert_eq!(row, Y::from(&[1, 20, 3][..]));
    assert!(row.get_mut(3).is_none());
}

#[test]
fn row_resize_grows_and_truncates() {
    let mut row: Y<i32, Asymetrical> = Y::from(&[1, 2][..]);
    row.resize(4, 9);
    assert_eq!(row, Y::from(&[1, 2, 9, 9][..]));
    row.resize(1, 0);
    assert_eq!(row, Y::from(&[1][..]));
    row.resize(0, 0);
    assert_eq!(row.len(), 0);
}

#[test]
fn row_with_capacity_is_empty() {
    let row: Y<i32, Asymetrical> = Y::with_capacity(10);
    assert_eq!(row.len(), 0);
    let grid: X<i32, Symetrical> = X::with_capacity(10);
    assert_eq!(grid.len(), 0);
}

#[test]
fn to_rectangular_pads_without_truncation() {
    // [[1,2,3],[4,5]] becomes [[1,2,3],[4,5,0]]: values kept, default pad.
    let mut jagged: X<i32, Asymetrical> = X::new();
    jagged.push_row(Y::from(&[1, 2, 3][..]));
    jagged.push_row(Y::from(&[4, 5][..]));
    let rect = jagged.to_rectangular();
    let mut expected: X<i32, Symetrical> = X::new();
    expected.push_point(0, 0, 1);
    expected.push_point(0, 1, 2);
    expected.push_point(0, 2, 3);
    expected.push_point(1, 0, 4);
    expected.push_point(1, 1, 5);
    assert_eq!(rect, expected);
    assert_eq!(rect.get_point(1, 2), Some(&0));
}

#[test]
fn to_rectangular_of_empty_grid() {
    let jagged: X<i32, Asymetrical> = X::new();
    let rect = jagged.to_rectangular();
    assert_eq!(rect.len(), 0);
}

#[test]
fn round_trip_returns_equal_grid() {
    // to_jagged then to_rectangular on an already-rectangular grid gives an
    // equal grid back.
    let mut grid: X<i32, Symetrical> = X::with_size(2, 3);
    grid.push_point(1, 2, 7);
    grid.push_point(0, 0, 4);
    let mut control: X<i32, Symetrical> = X::with_size(2, 3);
    control.push_point(1, 2, 7);
    control.push_point(0, 0, 4);
    let back = grid.to_jagged().to_rectangular();
    assert_eq!(back, control);
}

#[test]
fn to_jagged_keeps_rows() {
    let mut grid: X<i32, Symetrical> = X::new();
    grid.push_point(1, 1, 6);
    let jagged = grid.to_jagged();
    assert_eq!(jagged.len(), 2);
    assert_eq!(jagged.row(0).len(), 2);
    assert_eq!(jagged.get_point(1, 1), Some(&6));
    assert_eq!(jagged.get_point(0, 0), Some(&0));
}

#[test]
fn row_relabel_keeps_cells() {
    let jagged: Y<i32, Asymetrical> = Y::from(&[1, 2][..]);
    let relabeled = jagged.to_rectangular();
    let mut control: Y<i32, Symetrical> = Y::new();
    control.push(1);
    control.push(2);
    assert_eq!(relabeled, control);
    let back = relabeled.to_jagged();
    assert_eq!(back, Y::from(&[1, 2][..]));
}

#[test]
fn iterate_visits_cells_in_row_major_order() {
    let x = [1, 2];
    let y = [3, 4, 5];
    let t = [&x[..], &y[..]];
    let grid = X::from(&t[..]);
    let mut iter = grid.iter();
    assert_eq!(iter.next(), Some(&1));
    assert_eq!(iter.next(), Some(&2));
    assert_eq!(iter.next(), Some(&3));
    assert_eq!(iter.next(), Some(&4));
    assert_eq!(iter.next(), Some(&5));
    assert_eq!(iter.next(), None);
    assert_eq!(iter.next(), None);
}

#[test]
fn iterate_counts_sum_of_row_lengths() {
    // Row lengths 2, 0, 3 yield exactly 5 values.
    let x = [1, 2];
    let y = [];
    let z = [3, 4, 5];
    let t = [&x[..], &y[..], &z[..]];
    let grid: X<i32, Asymetrical> = X::from(&t[..]);
    let mut iter = grid.iter();
    let mut count = 0;
    while iter.next().is_some() {
        count += 1;
    }
    assert_eq!(count, 5);
}

#[test]
fn iterate_empty_grid_yields_nothing() {
    let grid: X<i32, Symetrical> = X::new();
    let mut iter = grid.iter();
    assert_eq!(iter.next(), None);
}

#[test]
fn iterate_mut_gives_access_to_every_cell() {
    let mut grid: X<i32, Symetrical> = X::with_size(2, 2);
    let mut cursor = grid.iter_mut();
    let mut next_value = 1;
    while let Some(cell) = cursor.next(&mut grid) {
        *cell = next_value;
        next_value += 1;
    }
    assert_eq!(grid.get_point(0, 0), Some(&1));
    assert_eq!(grid.get_point(0, 1), Some(&2));
    assert_eq!(grid.get_point(1, 0), Some(&3));
    assert_eq!(grid.get_point(1, 1), Some(&4));
}

#[test]
fn iterate_mut_skips_empty_rows() {
    let mut grid: X<i32, Asymetrical> = X::new();
    grid.push_row(Y::new());
    grid.push_row(Y::from(&[1][..]));
    grid.push_row(Y::new());
    let mut cursor = grid.iter_mut();
    let first = cursor.next(&mut grid).copied();
    assert_eq!(first, Some(1));
    assert!(cursor.next(&mut grid).is_none());
}

#[test]
fn grids_with_different_shapes_are_not_equal() {
    let a: X<i32, Symetrical> = X::with_size(2, 2);
    let b: X<i32, Symetrical> = X::with_size(2, 3);
    let c: X<i32, Symetrical> = X::with_size(3, 2);
    assert_ne!(a, b);
    assert_ne!(a, c);
    let mut d: X<i32, Symetrical> = X::with_size(2, 2);
    d.push_point(0, 0, 1);
    assert_ne!(a, d);
    assert_eq!(a, X::with_size(2, 2));
}
