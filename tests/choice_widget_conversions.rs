use clihoot::questions::{Choice, ChoiceCensored, Question, QuestionCensored};
use clihoot::widgets::{ChoiceGrid, ChoiceItem};
use uuid::Uuid;

fn new_id() -> u128 {
    Uuid::new_v4().as_u128()
}

#[test]
fn test_choice_item_from_censored() {
    let id = new_id();
    let text = "Test string".to_string();
    let choice = ChoiceCensored {
        id,
        text: text.clone(),
    };

    let choice_item: ChoiceItem = choice.into();

    let wanted = ChoiceItem::new(text.clone(), false, id);

    assert!(choice_item == wanted);
}

#[test]
fn test_choice_item_from_uncensored() {
    let id = new_id();
    let text = "Test string".to_string();
    let choice = Choice {
        id,
        is_right: true,
        text: text.clone(),
    };

    let choice_item: ChoiceItem = choice.into();

    let wanted = ChoiceItem::new(text.clone(), true, id);

    assert!(choice_item == wanted);
}

fn censored_question(ids: &[u128], text: &str) -> QuestionCensored {
    QuestionCensored {
        text: "Why are we here?".to_string(),
        code_block: None,
        time_seconds: 42,
        choices: ids
            .iter()
            .map(|id| ChoiceCensored {
                id: *id,
                text: text.to_string(),
            })
            .collect(),
    }
}

fn question(ids: &[u128], right: &[bool], text: &str) -> Question {
    Question {
        text: "Why are we here?".to_string(),
        code_block: None,
        time_seconds: 42,
        choices: ids
            .iter()
            .zip(right.iter())
            .map(|(id, is_right)| Choice {
                id: *id,
                text: text.to_string(),
                is_right: *is_right,
            })
            .collect(),
    }
}

#[test]
fn test_choice_grid_from_censored_2_choices() {
    let id_1 = new_id();
    let id_2 = new_id();
    let text = "Test string".to_string();

    let question = censored_question(&[id_1, id_2], &text);

    let choice_grid: ChoiceGrid = question.into();

    let wanted = ChoiceGrid::new(vec![vec![
        ChoiceItem::new(text.clone(), false, id_1),
        ChoiceItem::new(text.clone(), false, id_2),
    ]]);

    assert!(choice_grid == wanted);
}

#[test]
fn test_choice_grid_from_censored_3_choices() {
    let id_1 = new_id();
    let id_2 = new_id();
    let id_3 = new_id();
    let text = "Test string".to_string();

    let question = censored_question(&[id_1, id_2, id_3], &text);

    let choice_grid: ChoiceGrid = question.into();

    let wanted = ChoiceGrid::new(vec![vec![
        ChoiceItem::new(text.clone(), false, id_1),
        ChoiceItem::new(text.clone(), false, id_2),
        ChoiceItem::new(text.clone(), false, id_3),
    ]]);

    assert!(choice_grid == wanted);
}

#[test]
fn test_choice_grid_from_censored_4_choices() {
    let id_1 = new_id();
    let id_2 = new_id();
    let id_3 = new_id();
    let id_4 = new_id();
    let text = "Test string".to_string();

    let question = censored_question(&[id_1, id_2, id_3, id_4], &text);

    let choice_grid: ChoiceGrid = question.into();

    let wanted = ChoiceGrid::new(vec![
        vec![
            ChoiceItem::new(text.clone(), false, id_1),
            ChoiceItem::new(text.clone(), false, id_2),
        ],
        vec![
            ChoiceItem::new(text.clone(), false, id_3),
            ChoiceItem::new(text.clone(), false, id_4),
        ],
    ]);

    assert!(choice_grid == wanted);
}

#[test]
fn test_choice_grid_from_uncensored_2_choices() {
    let id_1 = new_id();
    let id_2 = new_id();
    let text = "Test string".to_string();

    let question = question(&[id_1, id_2], &[true, false], &text);

    let choice_grid: ChoiceGrid = question.into();

    let wanted = ChoiceGrid::new(vec![vec![
        ChoiceItem::new(text.clone(), true, id_1),
        ChoiceItem::new(text.clone(), false, id_2),
    ]]);

    assert!(choice_grid == wanted);
}

#[test]
fn test_choice_grid_from_uncensored_3_choices() {
    let id_1 = new_id();
    let id_2 = new_id();
    let id_3 = new_id();
    let text = "Test string".to_string();

    let question = question(&[id_1, id_2, id_3], &[false, false, true], &text);

    let choice_grid: ChoiceGrid = question.into();

    let wanted = ChoiceGrid::new(vec![vec![
        ChoiceItem::new(text.clone(), false, id_1),
        ChoiceItem::new(text.clone(), false, id_2),
        ChoiceItem::new(text.clone(), true, id_3),
    ]]);

    assert!(choice_grid == wanted);
}

#[test]
fn test_choice_grid_from_uncensored_4_choices() {
    let id_1 = new_id();
    let id_2 = new_id();
    let id_3 = new_id();
    let id_4 = new_id();
    let text = "Test string".to_string();

    let question = question(&[id_1, id_2, id_3, id_4], &[false, true, true, false], &text);

    let choice_grid: ChoiceGrid = question.into();

    let wanted = ChoiceGrid::new(vec![
        vec![
            ChoiceItem::new(text.clone(), false, id_1),
            ChoiceItem::new(text.clone(), true, id_2),
        ],
        vec![
            ChoiceItem::new(text.clone(), true, id_3),
            ChoiceItem::new(text.clone(), false, id_4),
        ],
    ]);

    assert!(choice_grid == wanted);
}

#[test]
fn grid_of_five_choices_has_rows_of_two_after_the_first_three() {
    let ids: Vec<u128> = (1..=5).collect();
    let q = censored_question(&ids, "x");
    let grid: ChoiceGrid = q.into();
    let rows: Vec<Vec<u128>> = grid
        .items()
        .into_iter()
        .map(|row| row.into_iter().map(|c| c.id).collect())
        .collect();
    assert_eq!(rows, vec![vec![1, 2, 3], vec![4, 5]]);
}

#[test]
fn grid_with_an_empty_row_is_empty() {
    assert!(ChoiceGrid::new(vec![]).is_empty());
    assert!(ChoiceGrid::new(vec![vec![], vec![ChoiceItem::new("a".to_string(), false, 1)]]).is_empty());
    assert!(!ChoiceGrid::new(vec![vec![ChoiceItem::new("a".to_string(), false, 1)]]).is_empty());
}

#[test]
fn grid_of_no_choices_is_empty() {
    let grid: ChoiceGrid = censored_question(&[], "x").into();
    assert!(grid.is_empty());
    let grid: ChoiceGrid = censored_question(&[1], "x").into();
    assert!(!grid.is_empty());
}
