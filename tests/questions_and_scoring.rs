use clihoot::game::check_answer;
use clihoot::questions::{
    count_words, falsy, random_quiz_name, validate_choices, Choice, ChoicesError, Question,
    QuestionCensored, QuestionSet, DEFAULT_QUIZ_NAME,
};
use clihoot::scoring::{remaining_permille, score, MAX_POINTS};
use clihoot::widgets::ChoiceSelectorState;

fn choice(id: u128, is_right: bool) -> Choice {
    Choice {
        id,
        text: format!("choice {id}"),
        is_right,
    }
}

#[test]
fn score_has_exact_values() {
    assert_eq!(score(false, 1, 3, 1000), 0);
    assert_eq!(score(true, 1, 3, 1000), 1000);
    assert_eq!(score(true, 2, 3, 1000), 900);
    assert_eq!(score(true, 3, 3, 0), 600);
    assert_eq!(score(true, 4, 3, 500), 600);
    assert_eq!(score(true, 0, 3, 2000), 1000);
}

#[test]
fn earlier_correct_answer_never_scores_less() {
    for joined in 1..40usize {
        for t in [0u32, 1, 333, 999, 1000] {
            for order in 1..joined {
                assert!(score(true, order, joined, t) >= score(true, order + 1, joined, t));
            }
            assert!(score(true, 1, joined, t) <= MAX_POINTS);
        }
    }
}

#[test]
fn remaining_share_of_time() {
    assert_eq!(remaining_permille(0, 0, 30), 1000);
    assert_eq!(remaining_permille(0, 15_000, 30), 500);
    assert_eq!(remaining_permille(0, 30_000, 30), 0);
    assert_eq!(remaining_permille(10, 0, 30), 1000);
    assert_eq!(remaining_permille(0, 1, 0), 0);
}

#[test]
fn choices_are_validated() {
    assert_eq!(validate_choices(&vec![]), Err(ChoicesError::InvalidLength(0)));
    let five: Vec<Choice> = (0..5).map(|i| choice(i, true)).collect();
    assert_eq!(validate_choices(&five), Err(ChoicesError::InvalidLength(5)));
    assert_eq!(
        validate_choices(&vec![choice(1, false), choice(2, false)]),
        Err(ChoicesError::NoRightChoice)
    );
    assert_eq!(validate_choices(&vec![choice(1, false), choice(2, true)]), Ok(()));
    assert_eq!(
        validate_choices(&vec![choice(1, true), choice(2, false), choice(1, false)]),
        Err(ChoicesError::DuplicateId)
    );
    let set = QuestionSet::new(vec![
        Question {
            text: "ok".to_string(),
            code_block: None,
            time_seconds: 5,
            choices: vec![choice(1, true)],
        },
        Question {
            text: "bad".to_string(),
            code_block: None,
            time_seconds: 5,
            choices: vec![choice(1, false)],
        },
    ]);
    assert_eq!(set.validate(), Err((1, ChoicesError::NoRightChoice)));
}

#[test]
fn question_set_defaults() {
    let set = QuestionSet::new(vec![]);
    assert!(!set.randomize_answers);
    assert!(!set.randomize_questions);
    assert_eq!(set.quiz_name, DEFAULT_QUIZ_NAME);
    assert!(!falsy());
    assert_eq!(random_quiz_name(), DEFAULT_QUIZ_NAME);
}

#[test]
fn censored_question_keeps_ids_and_text_only() {
    let q = Question {
        text: "Pick".to_string(),
        code_block: None,
        time_seconds: 5,
        choices: vec![choice(1, true), choice(2, false)],
    };
    let c = QuestionCensored::from(q.clone());
    assert_eq!(c.text, q.text);
    assert_eq!(c.time_seconds, 5);
    let pairs: Vec<(u128, String)> = c.choices.iter().map(|c| (c.id, c.text.clone())).collect();
    assert_eq!(pairs, vec![(1, "choice 1".to_string()), (2, "choice 2".to_string())]);
    // the full view still has the flags
    assert!(q.choices[0].is_right && !q.choices[1].is_right);
}

#[test]
fn new_choices_get_fresh_random_ids() {
    let a = Choice::new("a".to_string(), true);
    let b = Choice::new("b".to_string(), false);
    assert_ne!(a.id, b.id);
    assert_eq!((a.id >> 76) & 0xf, 4);
    assert_eq!(a.text, "a");
    assert!(a.is_right && !b.is_right);
}

#[test]
fn answer_must_match_the_right_set() {
    let q = Question {
        text: "Pick".to_string(),
        code_block: None,
        time_seconds: 5,
        choices: vec![choice(1, true), choice(2, true), choice(3, false)],
    };
    assert!(check_answer(&q, &vec![2, 1]));
    assert!(!check_answer(&q, &vec![1]));
    assert!(!check_answer(&q, &vec![1, 2, 3]));
    assert!(!check_answer(&q, &vec![1, 2, 9]));
    assert!(!check_answer(&q, &vec![]));
}

#[test]
fn words_are_counted_between_white_space() {
    assert_eq!(count_words(""), 0);
    assert_eq!(count_words("   "), 0);
    assert_eq!(count_words("a"), 1);
    assert_eq!(count_words(" a  b\tc\nd "), 4);
    assert_eq!(count_words("x\u{3000}y"), 2);
}

#[test]
fn selector_wraps_around_and_toggles() {
    let mut s = ChoiceSelectorState::new(vec![vec![1, 2], vec![3]]);
    s.move_right();
    assert_eq!((s.row, s.col), (0, 1));
    s.move_down();
    // the second row is shorter: the cursor goes to its last cell
    assert_eq!((s.row, s.col), (1, 0));
    s.move_down();
    assert_eq!((s.row, s.col), (0, 0));
    s.move_up();
    assert_eq!((s.row, s.col), (1, 0));
    s.move_left();
    assert_eq!((s.row, s.col), (1, 0));
    s.toggle_selection();
    assert_eq!(s.selected(), vec![3]);
    s.move_up();
    s.move_left();
    assert_eq!((s.row, s.col), (0, 1));
    s.toggle_selection();
    assert_eq!(s.selected(), vec![3, 2]);
    s.move_down();
    s.toggle_selection();
    assert_eq!(s.selected(), vec![2]);
}

#[test]
fn selector_accepts_any_grid() {
    let s = ChoiceSelectorState::new(vec![]);
    assert_eq!((s.row, s.col), (0, 0));
    assert!(s.selected().is_empty());
}
