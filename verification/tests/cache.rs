use fractal_explorer::cache::remember_render;

#[test]
fn newest_first_and_same_views_dropped() {
    let mut caches = vec![10, 11, 12];
    remember_render(&mut caches, &vec![true, false, true], 20);
    assert_eq!(caches, vec![20, 10, 12]);
}

#[test]
fn at_most_six_kept() {
    let mut caches = vec![1, 2, 3, 4, 5, 6];
    remember_render(&mut caches, &vec![true; 6], 7);
    assert_eq!(caches, vec![7, 1, 2, 3, 4, 5]);
    let mut empty: Vec<u8> = Vec::new();
    remember_render(&mut empty, &vec![], 9);
    assert_eq!(empty, vec![9]);
}
