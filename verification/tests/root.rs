use isosurface::{bisect, bracket_is_final, open_bracket, Opening, Sign, Step};

#[test]
fn a_zero_at_the_first_end_wins() {
    assert_eq!(open_bracket(Sign::Zero, Sign::Positive), Opening::First);
    assert_eq!(open_bracket(Sign::Zero, Sign::Negative), Opening::First);
    assert_eq!(open_bracket(Sign::Zero, Sign::Zero), Opening::First);
    assert_eq!(open_bracket(Sign::Zero, Sign::Unordered), Opening::First);
}

#[test]
fn a_zero_at_the_second_end_comes_next() {
    assert_eq!(open_bracket(Sign::Positive, Sign::Zero), Opening::Second);
    assert_eq!(open_bracket(Sign::Negative, Sign::Zero), Opening::Second);
    assert_eq!(open_bracket(Sign::Unordered, Sign::Zero), Opening::Second);
}

#[test]
fn samples_on_one_side_do_not_bracket() {
    assert_eq!(open_bracket(Sign::Positive, Sign::Positive), Opening::SameSide);
    assert_eq!(open_bracket(Sign::Negative, Sign::Negative), Opening::SameSide);
}

#[test]
fn samples_on_both_sides_bracket_from_the_negative_end() {
    assert_eq!(
        open_bracket(Sign::Negative, Sign::Positive),
        Opening::Bracket { negative_first: true }
    );
    assert_eq!(
        open_bracket(Sign::Positive, Sign::Negative),
        Opening::Bracket { negative_first: false }
    );
}

#[test]
fn the_midpoint_moves_the_end_on_its_side() {
    assert_eq!(bisect(Sign::Zero), Step::Found);
    assert_eq!(bisect(Sign::Negative), Step::MoveNegative);
    assert_eq!(bisect(Sign::Positive), Step::MovePositive);
    assert_eq!(bisect(Sign::Unordered), Step::MovePositive);
}

#[test]
fn the_bracket_is_final_when_narrow_or_flat() {
    assert!(!bracket_is_final(false, false));
    assert!(bracket_is_final(true, false));
    assert!(bracket_is_final(false, true));
    assert!(bracket_is_final(true, true));
}
