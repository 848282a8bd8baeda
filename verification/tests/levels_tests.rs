use xmahjong::levels::{face_pool_for_level, tiles_for_level};

#[test]
fn tile_counts_cycle_every_ten_levels() {
    assert_eq!(tiles_for_level(1), 36);
    assert_eq!(tiles_for_level(2), 48);
    assert_eq!(tiles_for_level(10), 144);
    assert_eq!(tiles_for_level(11), 36);
    assert_eq!(tiles_for_level(25), 84);
    assert_eq!(tiles_for_level(50), 144);
    for level in 1..=50u32 {
        let n = tiles_for_level(level);
        assert_eq!(n % 4, 0);
        assert!(n <= 144);
        assert_eq!(n, tiles_for_level((level - 1) % 10 + 1));
    }
}

#[test]
fn early_pools_count_up_from_zero() {
    assert_eq!(face_pool_for_level(1), (0..50).collect::<Vec<u8>>());
    assert_eq!(face_pool_for_level(11), (0..60).collect::<Vec<u8>>());
    assert_eq!(face_pool_for_level(14).len(), 90);
    assert_eq!(face_pool_for_level(20), (0..100).collect::<Vec<u8>>());
}

#[test]
fn space_phase_pool_sizes() {
    let sizes: Vec<usize> = [21u32, 22, 30, 40, 50].iter().map(|&l| face_pool_for_level(l).len()).collect();
    assert_eq!(sizes, vec![100, 103, 131, 165, 200]);
    for level in 21..=50u32 {
        let expected = 100 + ((level - 21) as usize * 100) / 29;
        assert_eq!(face_pool_for_level(level).len(), expected);
    }
}

#[test]
fn space_phase_pools_split_evenly_and_wrap() {
    for level in 21..=50u32 {
        let pool = face_pool_for_level(level);
        let per_set = pool.len() / 3;
        let penguins: Vec<u8> = pool.iter().copied().filter(|&id| id < 50).collect();
        let dogs: Vec<u8> = pool.iter().copied().filter(|&id| (50..100).contains(&id)).collect();
        let space: Vec<u8> = pool.iter().copied().filter(|&id| (100..150).contains(&id)).collect();
        assert_eq!(penguins.len(), per_set);
        assert_eq!(dogs.len(), per_set);
        assert_eq!(space.len(), pool.len() - 2 * per_set);
        for (i, &id) in penguins.iter().enumerate() {
            assert_eq!(id, (i % 50) as u8);
        }
        for (i, &id) in dogs.iter().enumerate() {
            assert_eq!(id, 50 + (i % 50) as u8);
        }
        for (i, &id) in space.iter().enumerate() {
            assert_eq!(id, 100 + (i % 50) as u8);
        }
        assert!(pool.iter().all(|&id| id < 150));
    }
}
