use words_with_toddlers::grade_level::GradeLevel;

#[test]
fn all_lists_the_ladder_in_order() {
    let all = GradeLevel::all();
    assert_eq!(all.len(), 8);
    assert_eq!(all[0], GradeLevel::PreK);
    assert_eq!(all[7], GradeLevel::Sixth);
    for pair in all.windows(2) {
        assert_eq!(pair[0].next_level(), Some(pair[1]));
        assert_eq!(pair[1].previous_level(), Some(pair[0]));
    }
}

#[test]
fn names_read_as_expected() {
    assert_eq!(GradeLevel::PreK.display_name(), "Pre-K");
    assert_eq!(GradeLevel::Kindergarten.display_name(), "Kindergarten");
    assert_eq!(GradeLevel::First.display_name(), "1st Grade");
    assert_eq!(GradeLevel::Sixth.display_name(), "6th Grade");
    assert_eq!(GradeLevel::PreK.short_name(), "Pre-K");
    assert_eq!(GradeLevel::Kindergarten.short_name(), "K");
    assert_eq!(GradeLevel::Third.short_name(), "3rd");
    assert_eq!(GradeLevel::Sixth.short_name(), "6th");
}

#[test]
fn traversal_never_wraps() {
    assert_eq!(GradeLevel::Sixth.next_level(), None);
    assert_eq!(GradeLevel::PreK.previous_level(), None);
    // Walking up from the bottom visits each level once and stops.
    let mut level = GradeLevel::PreK;
    let mut steps = 0;
    while let Some(next) = level.next_level() {
        level = next;
        steps += 1;
    }
    assert_eq!(level, GradeLevel::Sixth);
    assert_eq!(steps, 7);
}

#[test]
fn default_level_is_the_bottom() {
    assert_eq!(GradeLevel::default(), GradeLevel::PreK);
}
