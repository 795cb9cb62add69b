use converter::dedup::dedup;
use converter::point::FullUPoint;

fn tagged(x: u64, y: u64, segment: u64) -> FullUPoint {
    FullUPoint { x, y, segment }
}

fn deduped(points: &[FullUPoint]) -> Vec<FullUPoint> {
    let mut v = points.to_vec();
    dedup(&mut v);
    v
}

#[test]
fn dedup_drops_immediate_repeats_only() {
    let a = tagged(1, 1, 0);
    let b = tagged(2, 2, 0);
    assert_eq!(deduped(&[a, a, b, b, b, a, a]), vec![a, b, a]);
}

#[test]
fn dedup_compares_cell_and_tag() {
    let points = [tagged(1, 1, 0), tagged(1, 1, 1), tagged(1, 2, 1), tagged(2, 2, 1)];
    assert_eq!(deduped(&points), points.to_vec());
    assert_eq!(deduped(&[tagged(1, 1, 3), tagged(1, 1, 3)]), vec![tagged(1, 1, 3)]);
}

#[test]
fn dedup_of_short_sequences() {
    assert_eq!(deduped(&[]), vec![]);
    assert_eq!(deduped(&[tagged(4, 5, 6)]), vec![tagged(4, 5, 6)]);
    assert_eq!(deduped(&[tagged(4, 5, 6); 5]), vec![tagged(4, 5, 6)]);
}

#[test]
fn dedup_is_idempotent() {
    let mut state: u32 = 7;
    for _ in 0..500 {
        let mut points = Vec::new();
        state = state.wrapping_mul(1_664_525).wrapping_add(1_013_904_223);
        let len = (state >> 24) % 12;
        for _ in 0..len {
            state = state.wrapping_mul(1_664_525).wrapping_add(1_013_904_223);
            points.push(tagged(((state >> 16) % 2) as u64, ((state >> 20) % 2) as u64, 0));
        }
        let once = deduped(&points);
        let twice = deduped(&once);
        assert_eq!(once, twice);
    }
}

#[test]
fn dedup_agrees_with_the_standard_library() {
    let mut state: u32 = 99;
    for _ in 0..500 {
        let mut points = Vec::new();
        state = state.wrapping_mul(1_664_525).wrapping_add(1_013_904_223);
        let len = (state >> 24) % 16;
        for _ in 0..len {
            state = state.wrapping_mul(1_664_525).wrapping_add(1_013_904_223);
            points.push(tagged(((state >> 16) % 3) as u64, 0, ((state >> 20) % 2) as u64));
        }
        let mut expected = points.clone();
        expected.dedup();
        assert_eq!(deduped(&points), expected);
    }
}
