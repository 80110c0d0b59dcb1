use spinlattice::matrix::{index_of_pos, pos_of_index, Matrix};

#[test]
fn matrix_new_fills_by_position() {
    let m = Matrix::new(3, 2, |((_w, _h), (x, y)): ((usize, usize), (usize, usize))| x + 10 * y);
    assert_eq!(*m.at_pos((0, 0)), 0);
    assert_eq!(*m.at_pos((2, 0)), 2);
    assert_eq!(*m.at_pos((0, 1)), 10);
    assert_eq!(*m.at_pos((2, 1)), 12);
    assert_eq!(*m.at(5), 12);
}

#[test]
fn matrix_set_and_get() {
    let mut m = Matrix::new(2, 2, |_: ((usize, usize), (usize, usize))| 0i8);
    m.set(3, 7);
    m.set_pos((0, 1), -2);
    assert_eq!(*m.at(3), 7);
    assert_eq!(*m.at_pos((1, 1)), 7);
    assert_eq!(*m.at(2), -2);
    assert_eq!(*m.at(0), 0);
}

#[test]
fn index_pos_roundtrip() {
    let width = 7;
    for i in 0..49 {
        let p = pos_of_index(width, i);
        assert!(p.0 < width);
        assert_eq!(index_of_pos(width, p), i);
    }
    assert_eq!(pos_of_index(7, 17), (3, 2));
    assert_eq!(index_of_pos(7, (3, 2)), 17);
}

#[test]
fn matrix_iterator_walks_all() {
    let m = Matrix::new(3, 2, |((_w, _h), (x, y)): ((usize, usize), (usize, usize))| x + 10 * y);
    let mut it = m.iter();
    let mut seen = Vec::new();
    while let Some(v) = it.next() {
        seen.push(*v);
    }
    assert_eq!(seen, vec![0, 1, 2, 10, 11, 12]);
}

#[test]
fn matrix_enumerator_pairs_positions() {
    let m = Matrix::new(2, 2, |((_w, _h), (x, y)): ((usize, usize), (usize, usize))| x + 10 * y);
    let mut en = m.enumerator();
    let mut seen = Vec::new();
    while let Some((pos, v)) = en.next() {
        seen.push((pos, *v));
    }
    assert_eq!(
        seen,
        vec![((0, 0), 0), ((1, 0), 1), ((0, 1), 10), ((1, 1), 11)]
    );
}
