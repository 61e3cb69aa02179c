use dots::geometry::{Vec2, COORD_MAX};
use dots::index::NNTree;
use rand::{Rng, SeedableRng};

#[test]
fn empty_index_finds_nothing() {
    let tree = NNTree::rebuild(&Vec::new());
    assert!(tree.query_radius(Vec2::new(0, 0), 128_000_000).is_empty());
    assert_eq!(tree.query_nearest(Vec2::new(0, 0)), None);
}

#[test]
fn radius_query_leaves_out_the_rim() {
    let positions = vec![Vec2::new(0, 0), Vec2::new(3, 4), Vec2::new(6, 8), Vec2::new(-3, -3)];
    let tree = NNTree::rebuild(&positions);
    let mut found = tree.query_radius(Vec2::new(0, 0), 5);
    found.sort();
    assert_eq!(found, vec![0, 3]);
    let mut found = tree.query_radius(Vec2::new(0, 0), 6);
    found.sort();
    assert_eq!(found, vec![0, 1, 3]);
    assert!(tree.query_radius(Vec2::new(0, 0), 0).is_empty());
    assert!(tree.query_radius(Vec2::new(0, 0), -7).is_empty());
}

#[test]
fn nearest_query_picks_the_closest() {
    let positions = vec![Vec2::new(10, 10), Vec2::new(3, 4), Vec2::new(6, 8), Vec2::new(-30, -3)];
    let tree = NNTree::rebuild(&positions);
    assert_eq!(tree.query_nearest(Vec2::new(5, 7)), Some((Vec2::new(6, 8), 2)));
    assert_eq!(tree.query_nearest(Vec2::new(-100, 0)), Some((Vec2::new(-30, -3), 3)));
}

fn squared(a: Vec2, b: Vec2) -> i128 {
    let dx = a.x as i128 - b.x as i128;
    let dy = a.y as i128 - b.y as i128;
    dx * dx + dy * dy
}

fn scattered(count: usize, spread: i64, seed: u64) -> Vec<Vec2> {
    let mut rng = rand::rngs::StdRng::seed_from_u64(seed);
    (0..count).map(|_| Vec2::new(rng.gen_range(-spread, spread + 1), rng.gen_range(-spread, spread + 1))).collect()
}

fn check_against_search(positions: &[Vec2], centers: &[Vec2], radii: &[i64]) {
    let tree = NNTree::rebuild(&positions.to_vec());
    for center in centers {
        for radius in radii {
            let mut found = tree.query_radius(*center, *radius);
            found.sort();
            let expected: Vec<usize> = (0..positions.len())
                .filter(|i| *radius >= 0 && squared(positions[*i], *center) < *radius as i128 * *radius as i128)
                .collect();
            assert_eq!(found, expected);
        }
        let nearest = tree.query_nearest(*center);
        match positions.iter().map(|p| squared(*p, *center)).min() {
            None => assert_eq!(nearest, None),
            Some(least) => {
                let (position, handle) = nearest.unwrap();
                assert_eq!(positions[handle], position);
                assert_eq!(squared(position, *center), least);
            }
        }
    }
}

#[test]
fn queries_agree_with_a_plain_search() {
    for (count, spread, seed) in [(1, 5, 1), (2, 5, 2), (7, 3, 3), (100, 50, 4), (1000, 1000, 5), (300, 2, 6)] {
        let positions = scattered(count, spread, seed);
        let centers = scattered(20, spread + spread / 2 + 1, seed + 100);
        check_against_search(&positions, &centers, &[-1, 0, 1, 2, 3, 10, 77, 1000, 5000]);
        check_against_search(&positions, &positions[..positions.len().min(10)].to_vec(), &[1, 2, 5]);
    }
}

#[test]
fn queries_at_the_edge_of_the_range() {
    let m = COORD_MAX;
    let positions = vec![
        Vec2::new(m, m),
        Vec2::new(-m, -m),
        Vec2::new(m, -m),
        Vec2::new(-m, m),
        Vec2::new(0, 0),
        Vec2::new(m - 1, m),
        Vec2::new(-m, -m + 3),
    ];
    let centers = positions.clone();
    check_against_search(&positions, &centers, &[1, 2, 4, m, i64::MAX]);
}

#[test]
fn positions_that_coincide_are_all_found() {
    let positions = vec![Vec2::new(4, 4); 9];
    let tree = NNTree::rebuild(&positions);
    let mut found = tree.query_radius(Vec2::new(4, 4), 1);
    found.sort();
    assert_eq!(found, (0..9).collect::<Vec<usize>>());
    assert!(tree.query_radius(Vec2::new(4, 5), 1).is_empty());
    let (position, handle) = tree.query_nearest(Vec2::new(0, 0)).unwrap();
    assert_eq!(position, Vec2::new(4, 4));
    assert!(handle < 9);
}
