use typing_tutor::comparison::{compare, Verdict};
use typing_tutor::score::{
    count_agreements, divide_rounded, score, words_per_minute, SessionOutcome,
    NANOS_PER_HUNDREDTH, RATE_SCALE,
};

fn chars(text: &str) -> Vec<char> {
    text.chars().collect()
}

#[test]
fn agreements_count_equal_positions() {
    assert_eq!(count_agreements(&chars("cax"), &chars("cat")), 2);
    assert_eq!(count_agreements(&chars("cat"), &chars("cat")), 3);
    assert_eq!(count_agreements(&chars(""), &chars("cat")), 0);
    assert_eq!(count_agreements(&chars("cat"), &chars("")), 0);
    assert_eq!(count_agreements(&chars("xyz"), &chars("cat")), 0);
    assert_eq!(count_agreements(&chars("tac"), &chars("cat")), 1);
}

#[test]
fn agreements_stop_at_the_shorter_text() {
    assert_eq!(count_agreements(&chars("catalogue"), &chars("cat")), 3);
    assert_eq!(count_agreements(&chars("ca"), &chars("catalogue")), 2);
}

#[test]
fn agreements_match_a_zip_of_the_texts() {
    let samples = ["", "a", "abc", "abd", "xbc", "hello world", "hello wurld!", "héllo", "hello"];
    for typed in samples {
        for target in samples {
            let expected = typed.chars().zip(target.chars()).filter(|(a, b)| a == b).count();
            assert_eq!(count_agreements(&chars(typed), &chars(target)), expected);
        }
    }
}

#[test]
fn compare_judges_each_position_of_the_target() {
    assert_eq!(
        compare(&chars("cax"), &chars("cat")),
        vec![Verdict::Match, Verdict::Match, Verdict::Mismatch]
    );
    assert_eq!(
        compare(&chars("c"), &chars("cat")),
        vec![Verdict::Match, Verdict::Pending, Verdict::Pending]
    );
    assert_eq!(compare(&chars("cat"), &chars("")), Vec::<Verdict>::new());
    assert_eq!(compare(&chars("catalogue"), &chars("cut")).len(), 3);
}

#[test]
fn matches_in_the_comparison_are_the_agreements() {
    let samples = ["", "a", "abc", "abd", "xbc", "hello world", "hello wurld!"];
    for typed in samples {
        for target in samples {
            let verdicts = compare(&chars(typed), &chars(target));
            let matches = verdicts.iter().filter(|v| **v == Verdict::Match).count();
            assert_eq!(matches, count_agreements(&chars(typed), &chars(target)));
        }
    }
}

#[test]
fn division_rounds_to_the_nearest() {
    assert_eq!(divide_rounded(0, 3), Some(0));
    assert_eq!(divide_rounded(1, 3), Some(0));
    assert_eq!(divide_rounded(2, 3), Some(1));
    assert_eq!(divide_rounded(3, 3), Some(1));
    assert_eq!(divide_rounded(10, 4), Some(3));
    assert_eq!(divide_rounded(9, 4), Some(2));
    assert_eq!(divide_rounded(11, 4), Some(3));
    assert_eq!(divide_rounded(7, 1), Some(7));
}

#[test]
fn division_rounds_a_half_upward() {
    assert_eq!(divide_rounded(1, 2), Some(1));
    assert_eq!(divide_rounded(5, 2), Some(3));
    assert_eq!(divide_rounded(7, 2), Some(4));
    assert_eq!(divide_rounded(15, 10), Some(2));
}

#[test]
fn division_by_zero_has_no_quotient() {
    assert_eq!(divide_rounded(0, 0), None);
    assert_eq!(divide_rounded(17, 0), None);
}

#[test]
fn division_at_the_limits_does_not_overflow() {
    assert_eq!(divide_rounded(u128::MAX, 1), Some(u128::MAX));
    assert_eq!(divide_rounded(u128::MAX, 2), Some(1u128 << 127));
    assert_eq!(divide_rounded(u128::MAX, u128::MAX), Some(1));
    assert_eq!(divide_rounded(u128::MAX - 1, u128::MAX), Some(1));
    assert_eq!(divide_rounded(u128::MAX / 2, u128::MAX), Some(0));
    assert_eq!(divide_rounded(u128::MAX / 2 + 1, u128::MAX), Some(1));
}

#[test]
fn speed_is_words_times_sixty_over_seconds() {
    assert_eq!(words_per_minute(2, 10_000_000_000), Some(1200));
    assert_eq!(words_per_minute(1, 60_000_000_000), Some(100));
    assert_eq!(words_per_minute(50, 60_000_000_000), Some(5000));
    assert_eq!(words_per_minute(0, 1), Some(0));
    assert_eq!(words_per_minute(1, 1), Some(RATE_SCALE));
}

#[test]
fn speed_is_rounded_to_the_nearest_hundredth() {
    // 1 word in 7 s is 8.5714... words per minute
    assert_eq!(words_per_minute(1, 7_000_000_000), Some(857));
    // 3 words in 7 s are 25.7142... words per minute
    assert_eq!(words_per_minute(3, 7_000_000_000), Some(2571));
    // 1 word in 9 s is 6.6666... words per minute
    assert_eq!(words_per_minute(1, 9_000_000_000), Some(667));
    // 1 word in 4000 s is 0.015 words per minute
    assert_eq!(words_per_minute(1, 4_000_000_000_000), Some(2));
}

#[test]
fn speed_without_elapsed_time_is_none() {
    assert_eq!(words_per_minute(0, 0), None);
    assert_eq!(words_per_minute(2, 0), None);
    assert_eq!(words_per_minute(usize::MAX, 0), None);
}

#[test]
fn speed_of_the_longest_text_does_not_overflow() {
    let words = usize::MAX;
    assert_eq!(words_per_minute(words, 1), Some(words as u128 * 6_000_000_000_000));
    assert_eq!(words_per_minute(words, u128::MAX), Some(0));
}

#[test]
fn score_fills_every_figure() {
    let outcome = score(&chars("the quick brwn"), &chars("the quick brown fox"), 6_000_000_000);
    assert_eq!(
        outcome,
        SessionOutcome {
            chars_correct: 12,
            chars_total: 19,
            words_typed: 3,
            elapsed_nanos: 6_000_000_000,
            words_per_minute: Some(3000),
        }
    );
}

#[test]
fn score_of_nothing_typed() {
    let outcome = score(&chars(""), &chars("abc"), 1_500_000_000);
    assert_eq!(
        outcome,
        SessionOutcome {
            chars_correct: 0,
            chars_total: 3,
            words_typed: 0,
            elapsed_nanos: 1_500_000_000,
            words_per_minute: Some(0),
        }
    );
}

#[test]
fn score_correct_never_exceeds_total() {
    let samples = ["", "a", "abc", "abd", "hello world", "hello wurld", "hello world and more"];
    for typed in samples {
        for target in samples {
            let outcome = score(&chars(typed), &chars(target), 1);
            assert!(outcome.chars_correct <= outcome.chars_total);
            assert_eq!(outcome.chars_total, target.chars().count());
            assert_eq!(
                outcome.chars_correct == outcome.chars_total,
                typed.starts_with(target)
            );
        }
    }
}

#[test]
fn elapsed_time_in_hundredths_of_a_second() {
    let mut outcome = score(&chars("a"), &chars("a"), 1_234_567_890);
    assert_eq!(outcome.elapsed_hundredths(), 123);
    outcome.elapsed_nanos = 1_235_000_000;
    assert_eq!(outcome.elapsed_hundredths(), 124);
    outcome.elapsed_nanos = 4_999_999;
    assert_eq!(outcome.elapsed_hundredths(), 0);
    outcome.elapsed_nanos = 5_000_000;
    assert_eq!(outcome.elapsed_hundredths(), 1);
    outcome.elapsed_nanos = NANOS_PER_HUNDREDTH * 4217;
    assert_eq!(outcome.elapsed_hundredths(), 4217);
}
