use walkers::config::MAX_PATH_LENGTH;
use walkers::trail::Trail;

#[test]
fn new_trail_holds_the_spawn_position() {
    let trail = Trail::new((3, 4));
    assert_eq!(trail.len(), 1);
    assert_eq!(*trail.last(), (3, 4));
    assert_eq!(trail.points(), &[(3, 4)]);
}

#[test]
fn push_below_the_cap_keeps_everything() {
    let mut trail = Trail::new(0u32);
    for p in 1..5u32 {
        trail.push(p);
    }
    assert_eq!(trail.points(), &[0, 1, 2, 3, 4]);
    assert_eq!(*trail.last(), 4);
}

#[test]
fn push_at_the_cap_drops_the_oldest() {
    let mut trail = Trail::new(0usize);
    for p in 1..MAX_PATH_LENGTH + 5 {
        trail.push(p);
        assert!(trail.len() <= MAX_PATH_LENGTH);
        assert_eq!(*trail.last(), p);
    }
    assert_eq!(trail.len(), MAX_PATH_LENGTH);
    let points = trail.points();
    assert_eq!(points[0], 5);
    assert_eq!(points[MAX_PATH_LENGTH - 1], MAX_PATH_LENGTH + 4);
    assert!(points.windows(2).all(|w| w[1] == w[0] + 1));
}

#[test]
fn trail_fills_exactly_to_the_cap() {
    let mut trail = Trail::new(0usize);
    for p in 1..MAX_PATH_LENGTH {
        trail.push(p);
    }
    assert_eq!(trail.len(), MAX_PATH_LENGTH);
    assert_eq!(trail.points()[0], 0);
    trail.push(MAX_PATH_LENGTH);
    assert_eq!(trail.len(), MAX_PATH_LENGTH);
    assert_eq!(trail.points()[0], 1);
    assert_eq!(*trail.last(), MAX_PATH_LENGTH);
}
