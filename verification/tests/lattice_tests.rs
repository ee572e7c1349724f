use ratio_lattice::lattice::DimensionBound;
use ratio_lattice::lattice::Lattice;
use ratio_lattice::lattice::LatticeDimension;
use ratio_lattice::ratio::Ratio;

#[test]
fn resolve_unbounded_dimension() {
    let dim = LatticeDimension {
        ratio: Ratio::new(3, 2),
        bounds: DimensionBound::Infinity,
    };

    assert_eq!(dim.resolve_index(0), 0);
    assert_eq!(dim.resolve_index(3), 3);
    assert_eq!(dim.resolve_index(-2), -2);
}

#[test]
fn resolve_zero_bounded_dimension() {
    let dim = LatticeDimension {
        ratio: Ratio::new(3, 2),
        bounds: DimensionBound::ZeroBounded(2),
    };

    assert_eq!(dim.resolve_index(0), 0);
    assert_eq!(dim.resolve_index(1), 1);
    assert_eq!(dim.resolve_index(3), 1);
    assert_eq!(dim.resolve_index(-1), 1);
    assert_eq!(dim.resolve_index(-2), 0);
}

#[test]
fn resolve_range_bounded_dimension() {
    let dim = LatticeDimension {
        ratio: Ratio::new(3, 2),
        bounds: DimensionBound::RangeBounded(-1, 2),
    };

    assert_eq!(dim.resolve_index(0), 0);
    assert_eq!(dim.resolve_index(1), 1);
    assert_eq!(dim.resolve_index(2), 2);
    assert_eq!(dim.resolve_index(3), -1);
    assert_eq!(dim.resolve_index(-2), 2);
}

#[test]
fn resolve_zero_bounded_negative_dimension() {
    let dim = LatticeDimension {
        ratio: Ratio::new(3, 2),
        bounds: DimensionBound::ZeroBounded(-2),
    };

    assert_eq!(dim.resolve_index(0), 0);
    assert_eq!(dim.resolve_index(1), -1);
    assert_eq!(dim.resolve_index(3), -1);
    assert_eq!(dim.resolve_index(-2), 0);
}

#[test]
fn one_dimensional_unbounded_lattice() {
    let dim = LatticeDimension {
        ratio: Ratio::new(3, 2),
        bounds: DimensionBound::Infinity,
    };

    let lattice = Lattice::new(vec![dim]);

    assert_eq!(lattice.at(vec![0]), Ratio::new(1, 1));
    assert_eq!(lattice.at(vec![1]), Ratio::new(3, 2));
    assert_eq!(lattice.at(vec![2]), Ratio::new(9, 4));
    assert_eq!(lattice.at(vec![-1]), Ratio::new(4, 3));
    assert_eq!(lattice.at(vec![-2]), Ratio::new(16, 9));
}

#[test]
fn one_dimensional_zero_bounded_lattice() {
    let dim = LatticeDimension {
        ratio: Ratio::new(3, 2),
        bounds: DimensionBound::ZeroBounded(2),
    };

    let lattice = Lattice::new(vec![dim]);

    assert_eq!(lattice.at(vec![0]), Ratio::new(1, 1));
    assert_eq!(lattice.at(vec![1]), Ratio::new(3, 2));
    assert_eq!(lattice.at(vec![2]), Ratio::new(1, 1));
    assert_eq!(lattice.at(vec![-1]), Ratio::new(3, 2));
    assert_eq!(lattice.at(vec![-2]), Ratio::new(1, 1));
}

#[test]
fn one_dimensional_range_bounded_lattice() {
    let dim = LatticeDimension {
        ratio: Ratio::new(3, 2),
        bounds: DimensionBound::RangeBounded(-2, 3),
    };

    let lattice = Lattice::new(vec![dim]);

    assert_eq!(lattice.at(vec![0]), Ratio::new(1, 1));
    assert_eq!(lattice.at(vec![1]), Ratio::new(3, 2));
    assert_eq!(lattice.at(vec![2]), Ratio::new(9, 4));
    assert_eq!(lattice.at(vec![3]), Ratio::new(27, 8));
    assert_eq!(lattice.at(vec![4]), Ratio::new(16, 9));
    assert_eq!(lattice.at(vec![-1]), Ratio::new(4, 3));
    assert_eq!(lattice.at(vec![-2]), Ratio::new(16, 9));
    assert_eq!(lattice.at(vec![-3]), Ratio::new(27, 8));
}

#[test]
fn range_bound_with_zero_is_different_than_zero_bound() {
    let dim = LatticeDimension {
        ratio: Ratio::new(3, 2),
        bounds: DimensionBound::RangeBounded(0, 2),
    };

    let lattice = Lattice::new(vec![dim]);

    assert_eq!(lattice.at(vec![0]), Ratio::new(1, 1));
    assert_eq!(lattice.at(vec![1]), Ratio::new(3, 2));
    assert_eq!(lattice.at(vec![2]), Ratio::new(9, 4));
    assert_eq!(lattice.at(vec![3]), Ratio::new(1, 1));
}

#[test]
fn two_dimensional_unbounded_lattice() {
    let lattice = Lattice::new(vec![
        LatticeDimension {
            ratio: Ratio::new(3, 2),
            bounds: DimensionBound::Infinity,
        },
        LatticeDimension {
            ratio: Ratio::new(5, 4),
            bounds: DimensionBound::Infinity,
        },
    ]);

    assert_eq!(lattice.at(vec![1, 1]), Ratio::new(15, 8))
}

#[test]
fn evaluation_stops_at_the_shorter_sequence() {
    let dim = LatticeDimension {
        ratio: Ratio::new(3, 2),
        bounds: DimensionBound::Infinity,
    };
    let fifth = LatticeDimension {
        ratio: Ratio::new(5, 4),
        bounds: DimensionBound::Infinity,
    };

    let lattice = Lattice::new(vec![dim, fifth]);
    assert_eq!(lattice.at(vec![1]), Ratio::new(3, 2));

    let single = Lattice::new(vec![dim]);
    assert_eq!(single.at(vec![2, 7]), Ratio::new(9, 4));
}

#[test]
fn empty_coordinates_yield_the_unit() {
    let dim = LatticeDimension {
        ratio: Ratio::new(3, 2),
        bounds: DimensionBound::Infinity,
    };

    let lattice = Lattice::new(vec![dim]);

    assert_eq!(lattice.at(vec![]), Ratio::new(1, 1));
}
