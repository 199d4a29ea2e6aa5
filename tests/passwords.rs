use advent::passwords::find_matches;

#[test]
fn test_find_matches() {
    let result = find_matches(172851..222235);

    assert_eq!(
        result,
        vec!(177788, 177799, 177888, 177889, 177899, 177999, 178899, 188899, 188999, 222233)
    );
}

#[test]
fn find_matches_rejects_longer_runs_and_decreases() {
    assert_eq!(find_matches(111111..111112), Vec::<u32>::new());
    assert_eq!(find_matches(123444..123445), Vec::<u32>::new());
    assert_eq!(find_matches(223450..223451), Vec::<u32>::new());
    assert_eq!(find_matches(111122..111123), vec![111122]);
    assert_eq!(find_matches(112233..112234), vec![112233]);
}

#[test]
fn find_matches_empty_range() {
    assert_eq!(find_matches(5..5), Vec::<u32>::new());
    assert_eq!(find_matches(9..3), Vec::<u32>::new());
    assert_eq!(find_matches(0..12), vec![11]);
}
