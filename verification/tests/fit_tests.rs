use memeinator::fit::{count_tokens, is_space, FitResult, FitSearch, MIN_FONT_SIZE_Q};

#[test]
fn token_budget_counts_separators_plus_one() {
    assert_eq!(count_tokens("a b c"), 3);
    assert_eq!(count_tokens("hello"), 1);
    assert_eq!(count_tokens(""), 1);
    // consecutive separators make empty pieces, as word splitting does
    assert_eq!(count_tokens("a  b"), 3);
    assert_eq!(count_tokens(" lead"), 2);
}

#[test]
fn unicode_spaces_are_separators() {
    assert!(is_space('\u{00A0}'));
    assert!(is_space('\u{3000}'));
    assert!(is_space('\t'));
    assert!(!is_space('a'));
    assert!(!is_space('$'));
    assert_eq!(count_tokens("a\u{00A0}b"), 2);
}

#[test]
fn candidate_uses_asymmetric_midpoint() {
    // min + max / 2, not (min + max) / 2
    let fs = FitSearch::new(MIN_FONT_SIZE_Q, 2400, "HI", 100, 50);
    assert_eq!(fs.candidate(), 20 + 2400 / 2);
}

/// Drive a search against a linear model: the laid-out height grows with
/// the size, one line always suffices.
fn drive_linear(max_q: u32, box_w: u32, box_h: u32, text: &str) -> (FitResult, u32) {
    let mut fs = FitSearch::new(MIN_FONT_SIZE_Q, max_q, text, box_w, box_h);
    let mut iterations: u32 = 0;
    let mut smallest_tried = u32::MAX;
    loop {
        iterations += 1;
        assert!(iterations <= 64, "search did not converge");
        let c = fs.candidate();
        // candidates never increase, so the last one is the smallest tried
        assert!(c <= smallest_tried);
        smallest_tried = c;
        // model: height in quarter units equals the size in quarter units
        if let Some(res) = fs.step(1, c as u64) {
            assert_eq!(res.size_q, smallest_tried);
            return (res, iterations);
        }
    }
}

#[test]
fn search_converges_within_logarithmic_iterations() {
    let (res, iterations) = drive_linear(2400, 100, 50, "some text");
    // box height 50 px = 200 quarter units; the first candidate at or
    // under that fits and is returned at once
    assert!(res.fit);
    assert!(res.size_q >= MIN_FONT_SIZE_Q);
    assert!(res.size_q <= 2400);
    assert!(res.size_q as u64 <= 4 * 50);
    assert!(iterations <= 13);
}

#[test]
fn search_returns_smallest_tried_size_when_nothing_fits() {
    // a box of height zero rejects every size; the bracket shrinks to its
    // fixed point and the smallest tried size is accepted unfitted
    let (res, _) = drive_linear(2400, 100, 0, "x");
    assert!(!res.fit);
    // candidates descend 1220, 630, ..., 41, 40; 40 is the fixed point of
    // the asymmetric midpoint with the floor size of 20 quarter units
    assert_eq!(res.size_q, 2 * MIN_FONT_SIZE_Q);
}

#[test]
fn narrow_bracket_can_overshoot_its_upper_end() {
    // with max_size below twice min_size the first candidate already
    // exceeds the bracket's upper end and is accepted as smallest tried
    let mut fs = FitSearch::new(20, 30, "x", 10, 0);
    let c = fs.candidate();
    assert_eq!(c, 35);
    match fs.step(1, c as u64) {
        Some(res) => {
            assert!(!res.fit);
            assert_eq!(res.size_q, 35);
        },
        None => panic!("bracket cannot shrink"),
    }
}

#[test]
fn first_fitting_candidate_is_returned() {
    let mut fs = FitSearch::new(20, 2400, "one two", 100, 600);
    // 600 px box = 2400 quarter units; the first candidate 1220 fits
    let c = fs.candidate();
    assert_eq!(c, 1220);
    let res = fs.step(2, c as u64).expect("fitting candidate converges");
    assert!(res.fit);
    assert_eq!(res.size_q, 1220);
}

#[test]
fn line_budget_rejection_shrinks_bracket() {
    let mut fs = FitSearch::new(20, 2400, "one two", 100, 600);
    // too many lines at the first candidate
    assert!(fs.step(3, 10).is_none());
    assert_eq!(fs.candidate(), 20 + 1220 / 2);
}
