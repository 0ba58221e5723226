use rengrave::decompose::{decompose_bitmap, find_path, xor_path};
use rengrave::potrace::{Bitmap, Error, IPoint, TurnPolicy};
use rengrave::straight::calc_lon;

#[test]
fn turn_policy_parser_matches_potrace_names() {
    assert_eq!(TurnPolicy::parse("black"), TurnPolicy::Black);
    assert_eq!(TurnPolicy::parse("white"), TurnPolicy::White);
    assert_eq!(TurnPolicy::parse("left"), TurnPolicy::Left);
    assert_eq!(TurnPolicy::parse("right"), TurnPolicy::Right);
    assert_eq!(TurnPolicy::parse("majority"), TurnPolicy::Majority);
    assert_eq!(TurnPolicy::parse("random"), TurnPolicy::Random);
    assert_eq!(TurnPolicy::parse("minority"), TurnPolicy::Minority);
    assert_eq!(TurnPolicy::parse("unknown"), TurnPolicy::Minority);
}

#[test]
fn turn_policy_names_ignore_case() {
    assert_eq!(TurnPolicy::parse("BLACK"), TurnPolicy::Black);
    assert_eq!(TurnPolicy::parse("Majority"), TurnPolicy::Majority);
}

#[test]
fn bitmap_set_then_get() {
    let mut bitmap = Bitmap::new(70, 3).unwrap();
    assert_eq!(bitmap.width(), 70);
    assert_eq!(bitmap.height(), 3);
    assert!(!bitmap.get(65, 1));
    bitmap.set(65, 1, true);
    assert!(bitmap.get(65, 1));
    assert!(!bitmap.get(64, 1));
    bitmap.set(65, 1, false);
    assert!(!bitmap.get(65, 1));
}

#[test]
fn bitmap_outside_reads_white_and_ignores_writes() {
    let mut bitmap = Bitmap::new(2, 2).unwrap();
    bitmap.set(-1, 0, true);
    bitmap.set(2, 0, true);
    assert!(!bitmap.get(-1, 0));
    assert!(!bitmap.get(2, 0));
    assert!(!bitmap.get(0, 5));
}

#[test]
fn bitmap_rejects_negative_dimensions() {
    assert_eq!(Bitmap::new(-1, 2).err(), Some(Error::InvalidBitmapDimensions));
    assert_eq!(
        Bitmap::from_bits(2, -2, &[]).err(),
        Some(Error::InvalidBitmapDimensions)
    );
}

#[test]
fn from_bits_reads_rows_and_checks_length() {
    let bits = [true, false, false, true, true, true];
    let bitmap = Bitmap::from_bits(3, 2, &bits).unwrap();
    assert!(bitmap.get(0, 0));
    assert!(!bitmap.get(1, 0));
    assert!(!bitmap.get(2, 0));
    assert!(bitmap.get(0, 1));
    assert!(bitmap.get(2, 1));
    assert_eq!(
        Bitmap::from_bits(3, 2, &bits[..5]).err(),
        Some(Error::InvalidBitmapData)
    );
}

fn square_bitmap() -> Bitmap {
    let mut bitmap = Bitmap::new(4, 4).unwrap();
    for (x, y) in [(1, 1), (2, 1), (1, 2), (2, 2)] {
        bitmap.set(x, y, true);
    }
    bitmap
}

#[test]
fn boundary_walk_of_a_square_closes_after_its_perimeter() {
    let bitmap = square_bitmap();
    let path = find_path(&bitmap, 1, 3, '+', TurnPolicy::Minority).expect("closed walk");
    assert_eq!(path.points.len(), 8);
    assert_eq!((path.points[0].x, path.points[0].y), (1, 3));
    assert_eq!((path.points[1].x, path.points[1].y), (1, 2));
    assert_eq!(path.area, 4);
    assert_eq!(path.sign, '+');
}

#[test]
fn inverting_a_closed_path_clears_its_interior() {
    let mut bitmap = square_bitmap();
    let path = find_path(&bitmap, 1, 3, '+', TurnPolicy::Minority).expect("closed walk");
    xor_path(&mut bitmap, &path);
    for y in 0..4 {
        for x in 0..4 {
            assert!(!bitmap.get(x, y));
        }
    }
}

#[test]
fn decomposition_finds_one_path_per_blob_above_the_turd_size() {
    let bitmap = square_bitmap();
    let paths = decompose_bitmap(&bitmap, TurnPolicy::Minority, 2);
    assert_eq!(paths.len(), 1);
    assert_eq!(paths[0].area, 4);
    assert_eq!(paths[0].sign, '+');
    assert_eq!((paths[0].points[0].x, paths[0].points[0].y), (1, 3));
    assert!(decompose_bitmap(&bitmap, TurnPolicy::Minority, 4).is_empty());
    assert!(decompose_bitmap(&Bitmap::new(3, 3).unwrap(), TurnPolicy::Minority, 0).is_empty());
}

fn lattice(points: &[(i32, i32)]) -> Vec<IPoint> {
    points.iter().map(|&(x, y)| IPoint { x, y }).collect()
}

#[test]
fn straight_runs_of_a_square_reach_the_opposite_corner() {
    let square = lattice(&[(1, 3), (1, 2), (1, 1), (2, 1), (3, 1), (3, 2), (3, 3), (2, 3)]);
    assert_eq!(calc_lon(&square), vec![4, 5, 6, 7, 0, 1, 2, 3]);
}

#[test]
fn straight_runs_of_a_rectangle_and_an_l_shape() {
    let rectangle = lattice(&[
        (0, 2), (0, 1), (0, 0), (1, 0), (2, 0), (3, 0),
        (4, 0), (4, 1), (4, 2), (3, 2), (2, 2), (1, 2),
    ]);
    assert_eq!(calc_lon(&rectangle), vec![4, 7, 7, 7, 8, 9, 10, 1, 1, 1, 2, 3]);
    let l_shape = lattice(&[
        (0, 3), (0, 2), (0, 1), (0, 0), (1, 0), (2, 0),
        (3, 0), (3, 1), (2, 1), (1, 1), (1, 2), (1, 3),
    ]);
    assert_eq!(calc_lon(&l_shape), vec![4, 5, 7, 8, 8, 0, 1, 1, 1, 1, 3, 4]);
}

#[test]
fn decomposed_paths_feed_the_straight_run_analysis() {
    let bitmap = square_bitmap();
    let paths = decompose_bitmap(&bitmap, TurnPolicy::Minority, 0);
    let lon = calc_lon(&paths[0].points);
    assert_eq!(lon.len(), paths[0].points.len());
    assert_eq!(lon, vec![4, 5, 6, 7, 0, 1, 2, 3]);
}
