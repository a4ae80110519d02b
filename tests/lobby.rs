use clihoot::messages::{
    Action, AnswerSelected, CanJoin, NetworkPlayerData, Recipient, ServerNetworkMessage,
};
use clihoot::questions::{Choice, CodeBlock, Question, DEFAULT_QUIZ_NAME};
use clihoot::session::{
    Lobby, LobbyError, Phase, GAME_IN_PROGRESS_MSG, KICKED_MSG, LOBBY_LOCKED_MSG, NAME_TAKEN_MSG,
    NOT_WAITING_MSG,
};

const RIGHT: u128 = 100;
const WRONG: u128 = 200;

fn sample_questions() -> Vec<Question> {
    let make = |text: &str| Question {
        text: text.to_string(),
        code_block: None,
        time_seconds: 30,
        choices: vec![
            Choice {
                id: RIGHT,
                text: "yes".to_string(),
                is_right: true,
            },
            Choice {
                id: WRONG,
                text: "no".to_string(),
                is_right: false,
            },
        ],
    };
    vec![make("Is this the first question?"), make("Is this the second question?")]
}

fn player(id: u128, name: &str) -> NetworkPlayerData {
    NetworkPlayerData {
        id,
        nickname: name.to_string(),
        color: "red".to_string(),
    }
}

fn open_lobby() -> Lobby {
    let mut lobby = Lobby::new(sample_questions(), DEFAULT_QUIZ_NAME.to_string());
    lobby.set_lock(false);
    lobby
}

fn join(lobby: &mut Lobby, id: u128, name: &str) {
    let r = lobby.try_join(id);
    assert!(matches!(r.can_join, CanJoin::Yes));
    let (resp, _) = lobby.join(player(id, name));
    assert!(matches!(resp.can_join, CanJoin::Yes));
}

fn answer(lobby: &mut Lobby, id: u128, q: usize, choices: Vec<u128>) -> Result<Vec<Action>, LobbyError> {
    lobby.answer_selected_at(
        AnswerSelected {
            player_id: id,
            question_index: q,
            answers: choices,
        },
        0,
    )
}

fn refusal(c: &CanJoin) -> String {
    match c {
        CanJoin::No(m) => m.clone(),
        CanJoin::Yes => panic!("expected a refusal"),
    }
}

#[test]
fn lobby_locked_client_cannot_connect() {
    let mut lobby = Lobby::new(sample_questions(), DEFAULT_QUIZ_NAME.to_string());
    let id = 42;
    let r = lobby.try_join(id);
    assert_eq!(r.id, id);
    assert_eq!(r.quiz_name, DEFAULT_QUIZ_NAME);
    assert_eq!(refusal(&r.can_join), LOBBY_LOCKED_MSG);
    assert!(lobby.waiting_players.is_empty());
}

#[test]
fn multiple_players_can_join() {
    let mut lobby = open_lobby();
    let players_count: u128 = 20;
    for i in 0..players_count {
        join(&mut lobby, i + 1, &format!("player{i}"));
    }
    assert!(lobby.waiting_players.is_empty());
    assert_eq!(lobby.joined_players.len(), players_count as usize);
    for i in 0..players_count {
        assert!(lobby.joined_players.iter().any(|p| p.id == i + 1));
    }
}

#[test]
fn next_question_is_delivered() {
    let mut lobby = open_lobby();
    join(&mut lobby, 7, "alice");
    let actions = lobby.start_question().unwrap();
    assert_eq!(actions.len(), 1);
    match &actions[0] {
        Action::Send { to, message: ServerNetworkMessage::NextQuestion(q) } => {
            assert_eq!(to, &vec![Recipient::Player(7), Recipient::Teacher]);
            assert_eq!(q.question_index, 0);
            assert_eq!(q.questions_count, 2);
            assert_eq!(q.show_choices_after, sample_questions()[0].get_reading_time_estimate());
            assert_eq!(q.question.text, sample_questions()[0].text);
            assert_eq!(q.question.choices.len(), 2);
            assert_eq!(q.question.choices[0].id, RIGHT);
        }
        other => panic!("expected NextQuestion, got {other:?}"),
    }
    assert_eq!(lobby.phase, Phase::ActiveQuestion(0));
    // the clock was read: the question did not start at the epoch
    assert!(lobby.question_started_at > 1_600_000_000_000);
}

#[test]
fn joining_is_refused_once_the_game_runs() {
    let mut lobby = open_lobby();
    join(&mut lobby, 1, "a");
    lobby.start_question_at(0).unwrap();
    assert_eq!(refusal(&lobby.try_join(2).can_join), GAME_IN_PROGRESS_MSG);
}

#[test]
fn profile_needs_a_join_request_and_a_free_name() {
    let mut lobby = open_lobby();
    let (resp, actions) = lobby.join(player(5, "a"));
    assert_eq!(refusal(&resp.can_join), NOT_WAITING_MSG);
    assert!(actions.is_empty());
    join(&mut lobby, 1, "a");
    lobby.try_join(2);
    let (resp, actions) = lobby.join(player(2, "a"));
    assert_eq!(refusal(&resp.can_join), NAME_TAKEN_MSG);
    assert!(actions.is_empty());
    assert_eq!(lobby.waiting_players, vec![2]);
    let (resp, actions) = lobby.join(player(2, "b"));
    assert!(matches!(resp.can_join, CanJoin::Yes));
    assert_eq!(resp.players.len(), 2);
    match &actions[0] {
        Action::Send { to, message: ServerNetworkMessage::PlayersUpdate(u) } => {
            assert_eq!(to, &vec![Recipient::Player(1), Recipient::Teacher]);
            assert_eq!(u.players.len(), 2);
        }
        other => panic!("expected PlayersUpdate, got {other:?}"),
    }
}

#[test]
fn three_players_locked_then_unlocked_lobby_scenario() {
    let (a, b, c) = (1u128, 2u128, 3u128);
    let mut lobby = Lobby::new(sample_questions(), DEFAULT_QUIZ_NAME.to_string());
    assert_eq!(refusal(&lobby.try_join(a).can_join), LOBBY_LOCKED_MSG);
    lobby.set_lock(false);
    join(&mut lobby, a, "A");
    join(&mut lobby, b, "B");
    join(&mut lobby, c, "C");
    lobby.start_question_at(0).unwrap();

    let first = answer(&mut lobby, a, 0, vec![RIGHT]).unwrap();
    assert_eq!(first.len(), 1);
    assert!(matches!(&first[0], Action::Send { message: ServerNetworkMessage::QuestionUpdate(u), .. } if u.players_answered_count == 1));
    let second = answer(&mut lobby, b, 0, vec![RIGHT]).unwrap();
    assert!(matches!(&second[0], Action::Send { message: ServerNetworkMessage::QuestionUpdate(u), .. } if u.players_answered_count == 2));
    assert_eq!(lobby.phase, Phase::ActiveQuestion(0));
    let last = answer(&mut lobby, c, 0, vec![WRONG]).unwrap();
    assert_eq!(lobby.phase, Phase::Leaderboard);

    // one QuestionEnded per player, one for the teacher, then the standings
    assert_eq!(last.len(), 5);
    for (k, id) in [a, b, c].iter().enumerate() {
        match &last[k] {
            Action::Send { to, message: ServerNetworkMessage::QuestionEnded(e) } => {
                assert_eq!(to, &vec![Recipient::Player(*id)]);
                assert_eq!(e.question_index, 0);
                assert!(e.question.choices[0].is_right);
                let want = if *id == c { vec![WRONG] } else { vec![RIGHT] };
                assert_eq!(e.player_answer, Some(want));
                assert_eq!(e.stats[0].0, RIGHT);
                assert_eq!(e.stats[0].1.players_answered_count, 2);
                assert_eq!(e.stats[1].1.players_answered_count, 1);
            }
            other => panic!("expected QuestionEnded, got {other:?}"),
        }
    }
    assert!(matches!(&last[3], Action::Send { to, message: ServerNetworkMessage::QuestionEnded(e) } if to == &vec![Recipient::Teacher] && e.player_answer.is_none()));
    match &last[4] {
        Action::Send { to, message: ServerNetworkMessage::ShowLeaderboard(l) } => {
            assert_eq!(to.len(), 4);
            assert!(!l.was_final_round);
            let ranked: Vec<(u128, u128)> = l.players.iter().map(|(p, s)| (p.id, *s)).collect();
            assert_eq!(ranked, vec![(a, 1000), (b, 900), (c, 0)]);
        }
        other => panic!("expected ShowLeaderboard, got {other:?}"),
    }
    let points: Vec<u32> = lobby.results[0].iter().map(|r| r.points_awarded).collect();
    assert_eq!(points, vec![1000, 900, 0]);
    let orders: Vec<usize> = lobby.results[0].iter().map(|r| r.answer_order).collect();
    assert_eq!(orders, vec![1, 2, 3]);
}

#[test]
fn duplicate_answer_is_rejected_and_changes_nothing() {
    let mut lobby = open_lobby();
    join(&mut lobby, 1, "a");
    join(&mut lobby, 2, "b");
    lobby.start_question_at(0).unwrap();
    answer(&mut lobby, 1, 0, vec![RIGHT]).unwrap();
    let before = format!("{lobby:?}");
    assert_eq!(answer(&mut lobby, 1, 0, vec![RIGHT]).unwrap_err(), LobbyError::AlreadyAnswered);
    assert_eq!(format!("{lobby:?}"), before);
    answer(&mut lobby, 2, 0, vec![RIGHT]).unwrap();
    let orders: Vec<(u128, usize)> = lobby.results[0].iter().map(|r| (r.player_id, r.answer_order)).collect();
    assert_eq!(orders, vec![(1, 1), (2, 2)]);
}

#[test]
fn same_answer_twice_leaves_the_state_of_one() {
    let run = |times: usize| {
        let mut lobby = open_lobby();
        join(&mut lobby, 1, "a");
        join(&mut lobby, 2, "b");
        lobby.start_question_at(0).unwrap();
        for _ in 0..times {
            let _ = answer(&mut lobby, 1, 0, vec![RIGHT, WRONG]);
        }
        format!("{lobby:?}")
    };
    assert_eq!(run(1), run(2));
}

#[test]
fn answers_are_refused_outside_the_live_question() {
    let mut lobby = open_lobby();
    join(&mut lobby, 1, "a");
    join(&mut lobby, 2, "b");
    assert_eq!(answer(&mut lobby, 1, 0, vec![RIGHT]).unwrap_err(), LobbyError::WrongPhase);
    lobby.start_question_at(0).unwrap();
    assert_eq!(answer(&mut lobby, 1, 1, vec![RIGHT]).unwrap_err(), LobbyError::WrongPhase);
    assert_eq!(answer(&mut lobby, 9, 0, vec![RIGHT]).unwrap_err(), LobbyError::NotJoined);
}

#[test]
fn teacher_disconnect_ends_the_session() {
    let mut lobby = open_lobby();
    join(&mut lobby, 1, "a");
    join(&mut lobby, 2, "b");
    lobby.start_question_at(0).unwrap();
    let actions = lobby.teacher_disconnected();
    assert_eq!(actions.len(), 1);
    assert!(matches!(&actions[0], Action::Send { to, message: ServerNetworkMessage::TeacherDisconnected(_) } if to == &vec![Recipient::Player(1), Recipient::Player(2)]));
    assert_eq!(lobby.phase, Phase::TeacherGone);
    assert_eq!(answer(&mut lobby, 1, 0, vec![RIGHT]).unwrap_err(), LobbyError::WrongPhase);
    assert!(lobby.results[0].is_empty());
    assert_eq!(lobby.start_question_at(0).unwrap_err(), LobbyError::WrongPhase);
}

#[test]
fn timer_or_teacher_ends_a_question_once() {
    let mut lobby = open_lobby();
    join(&mut lobby, 1, "a");
    join(&mut lobby, 2, "b");
    lobby.start_question_at(0).unwrap();
    answer(&mut lobby, 1, 0, vec![RIGHT]).unwrap();
    let actions = lobby.end_question(0).unwrap();
    assert_eq!(actions.len(), 4);
    assert!(matches!(&actions[1], Action::Send { message: ServerNetworkMessage::QuestionEnded(e), .. } if e.player_answer.is_none()));
    assert_eq!(lobby.end_question(0).unwrap_err(), LobbyError::WrongPhase);
    assert_eq!(lobby.phase, Phase::Leaderboard);
}

#[test]
fn last_question_ends_the_quiz() {
    let mut lobby = open_lobby();
    join(&mut lobby, 1, "a");
    lobby.start_question_at(0).unwrap();
    answer(&mut lobby, 1, 0, vec![RIGHT]).unwrap();
    lobby.start_question_at(0).unwrap();
    let actions = answer(&mut lobby, 1, 1, vec![WRONG]).unwrap();
    assert!(matches!(&actions[2], Action::Send { message: ServerNetworkMessage::ShowLeaderboard(l), .. } if l.was_final_round && l.players[0].1 == 1000));
    assert_eq!(lobby.start_question_at(0).unwrap_err(), LobbyError::NoMoreQuestions);
    assert_eq!(lobby.phase, Phase::Ended);
    assert_eq!(lobby.end_game(), Err(LobbyError::WrongPhase));
    assert_eq!(lobby.start_question_at(0).unwrap_err(), LobbyError::WrongPhase);
}

#[test]
fn teacher_can_end_the_game_from_the_standings() {
    let mut lobby = open_lobby();
    join(&mut lobby, 1, "a");
    lobby.start_question_at(0).unwrap();
    answer(&mut lobby, 1, 0, vec![RIGHT]).unwrap();
    assert_eq!(lobby.end_game(), Ok(()));
    assert_eq!(lobby.phase, Phase::Ended);
}

#[test]
fn kicked_player_is_told_and_closed() {
    let mut lobby = open_lobby();
    join(&mut lobby, 1, "a");
    join(&mut lobby, 2, "b");
    let actions = lobby.kick_player(1).unwrap();
    assert_eq!(actions.len(), 3);
    assert!(matches!(&actions[0], Action::Send { to, message: ServerNetworkMessage::KickedOut(n) } if to == &vec![Recipient::Player(1)] && n.kick_message.as_deref() == Some(KICKED_MSG)));
    assert!(matches!(&actions[1], Action::Close(Recipient::Player(1))));
    assert!(matches!(&actions[2], Action::Send { to, message: ServerNetworkMessage::PlayersUpdate(u) } if to == &vec![Recipient::Player(2), Recipient::Teacher] && u.players.len() == 1));
    assert_eq!(lobby.kick_player(1).unwrap_err(), LobbyError::NotJoined);
}

#[test]
fn disconnect_mid_question_does_not_end_it() {
    let mut lobby = open_lobby();
    join(&mut lobby, 1, "a");
    join(&mut lobby, 2, "b");
    lobby.start_question_at(0).unwrap();
    answer(&mut lobby, 1, 0, vec![RIGHT]).unwrap();
    let actions = lobby.disconnect(2);
    assert_eq!(actions.len(), 1);
    assert_eq!(lobby.phase, Phase::ActiveQuestion(0));
    assert_eq!(lobby.joined_players.len(), 1);
    lobby.try_join(3);
    lobby.set_lock(true);
    assert_eq!(lobby.disconnect(3).len(), 0);
    assert!(lobby.waiting_players.is_empty());
    assert_eq!(lobby.disconnect(99).len(), 0);
}

#[test]
fn ties_are_ranked_by_id() {
    let mut lobby = open_lobby();
    join(&mut lobby, 9, "a");
    join(&mut lobby, 4, "b");
    join(&mut lobby, 6, "c");
    lobby.start_question_at(0).unwrap();
    answer(&mut lobby, 9, 0, vec![WRONG]).unwrap();
    answer(&mut lobby, 4, 0, vec![WRONG]).unwrap();
    answer(&mut lobby, 6, 0, vec![RIGHT]).unwrap();
    let ranked: Vec<u128> = lobby.ranking().iter().map(|(p, _)| p.id).collect();
    assert_eq!(ranked, vec![6, 4, 9]);
    assert_eq!(lobby.total_score_of(6), 500 + 100 + 200);
}

#[test]
fn partial_answers_score_nothing() {
    let mut lobby = open_lobby();
    join(&mut lobby, 1, "a");
    join(&mut lobby, 2, "b");
    lobby.start_question_at(0).unwrap();
    answer(&mut lobby, 1, 0, vec![RIGHT, WRONG]).unwrap();
    assert_eq!(lobby.results[0][0].points_awarded, 0);
}

#[test]
fn answer_records_the_clock() {
    let mut lobby = open_lobby();
    join(&mut lobby, 1, "a");
    join(&mut lobby, 2, "b");
    lobby.start_question_at(0).unwrap();
    lobby
        .answer_selected(AnswerSelected {
            player_id: 1,
            question_index: 0,
            answers: vec![RIGHT],
        })
        .unwrap();
    assert!(lobby.results[0][0].timestamp > 1_600_000_000_000);
    // long after the start: no time bonus left
    assert_eq!(lobby.results[0][0].points_awarded, 500 + 300);
}

#[test]
fn reading_time_counts_text_and_code() {
    let q = Question {
        text: "one two three four five six seven eight nine ten".to_string(),
        code_block: Some(CodeBlock {
            language: "rust".to_string(),
            code: "fn main() {\n    println!(\"hi\");\n}".to_string(),
        }),
        time_seconds: 10,
        choices: vec![],
    };
    // 10 + 5 words, 6 seconds per 20 words
    assert_eq!(q.get_reading_time_estimate(), 4);
    let short = Question {
        text: "  hi  ".to_string(),
        code_block: None,
        time_seconds: 10,
        choices: vec![],
    };
    assert_eq!(short.get_reading_time_estimate(), 1);
}

#[test]
fn answers_of_departed_players_do_not_end_a_question() {
    let mut lobby = open_lobby();
    join(&mut lobby, 1, "a");
    join(&mut lobby, 2, "b");
    join(&mut lobby, 3, "c");
    lobby.start_question_at(0).unwrap();
    answer(&mut lobby, 1, 0, vec![RIGHT]).unwrap();
    lobby.kick_player(1).unwrap();
    // the kicked player's answer to the live question is withdrawn
    assert!(lobby.results[0].is_empty());
    let actions = answer(&mut lobby, 2, 0, vec![RIGHT]).unwrap();
    assert_eq!(lobby.results[0].len(), 1);
    assert!(lobby.results[0].len() <= lobby.joined_players.len());
    assert!(matches!(&actions[0], Action::Send { message: ServerNetworkMessage::QuestionUpdate(u), .. } if u.players_answered_count == 1));
    assert_eq!(lobby.phase, Phase::ActiveQuestion(0));
    let actions = answer(&mut lobby, 3, 0, vec![WRONG]).unwrap();
    assert_eq!(actions.len(), 4);
    assert_eq!(lobby.phase, Phase::Leaderboard);
}

#[test]
fn leaving_player_answer_is_withdrawn_and_later_answers_move_up() {
    let mut lobby = open_lobby();
    join(&mut lobby, 1, "a");
    join(&mut lobby, 2, "b");
    join(&mut lobby, 3, "c");
    join(&mut lobby, 4, "d");
    lobby.start_question_at(0).unwrap();
    answer(&mut lobby, 1, 0, vec![RIGHT]).unwrap();
    answer(&mut lobby, 2, 0, vec![RIGHT]).unwrap();
    answer(&mut lobby, 3, 0, vec![WRONG]).unwrap();
    lobby.disconnect(2);
    let orders: Vec<(u128, usize)> = lobby.results[0].iter().map(|r| (r.player_id, r.answer_order)).collect();
    assert_eq!(orders, vec![(1, 1), (3, 2)]);
    assert_eq!(lobby.phase, Phase::ActiveQuestion(0));
    let actions = answer(&mut lobby, 4, 0, vec![RIGHT]).unwrap();
    assert_eq!(lobby.phase, Phase::Leaderboard);
    assert_eq!(actions.len(), 3 + 2);
    assert_eq!(lobby.results[0].last().unwrap().answer_order, 3);
}
