use clihoot::client::{ClientError, StudentTerminalState, TeacherTerminalState, TEACHER_DISCONNECTED_MSG};
use clihoot::messages::{
    JoinResponse, CanJoin, NetworkPlayerData, NextQuestion, PlayersUpdate, QuestionEnded, QuestionUpdate,
    ServerNetworkMessage, TeacherDisconnected,
};
use clihoot::questions::{Question, QuestionCensored};

fn next_question(index: usize) -> NextQuestion {
    NextQuestion {
        question_index: index,
        questions_count: 3,
        question: QuestionCensored {
            text: "q".to_string(),
            code_block: None,
            time_seconds: 10,
            choices: vec![],
        },
        show_choices_after: 1,
    }
}

fn question_ended(index: usize) -> QuestionEnded {
    QuestionEnded {
        question_index: index,
        question: Question {
            text: "q".to_string(),
            code_block: None,
            time_seconds: 10,
            choices: vec![],
        },
        player_answer: None,
        stats: vec![],
    }
}

fn player(id: u128) -> NetworkPlayerData {
    NetworkPlayerData {
        id,
        nickname: format!("p{id}"),
        color: "blue".to_string(),
    }
}

#[test]
fn student_screen_follows_the_game() {
    let mut s = StudentTerminalState::StartGame;
    s.handle_network_message(ServerNetworkMessage::JoinResponse(JoinResponse {
        id: 1,
        can_join: CanJoin::Yes,
        quiz_name: "quiz".to_string(),
        players: vec![player(1)],
    }))
    .unwrap();
    assert!(matches!(&s, StudentTerminalState::WaitingForGame { players } if players.len() == 1));
    s.handle_network_message(ServerNetworkMessage::PlayersUpdate(PlayersUpdate {
        players: vec![player(1), player(2)],
    }))
    .unwrap();
    assert!(matches!(&s, StudentTerminalState::WaitingForGame { players } if players.len() == 2));
    s.handle_network_message(ServerNetworkMessage::NextQuestion(next_question(0))).unwrap();
    let update = |i, n| {
        ServerNetworkMessage::QuestionUpdate(QuestionUpdate {
            question_index: i,
            players_answered_count: n,
        })
    };
    s.handle_network_message(update(0, 2)).unwrap();
    assert!(matches!(&s, StudentTerminalState::Question { players_answered_count: 2, answered: false, .. }));
    assert_eq!(s.handle_network_message(update(1, 3)), Err(ClientError::OtherQuestion));
    assert!(matches!(&s, StudentTerminalState::Question { players_answered_count: 2, .. }));
    s.handle_network_message(ServerNetworkMessage::QuestionEnded(question_ended(0))).unwrap();
    assert!(matches!(&s, StudentTerminalState::Answers { .. }));
    assert_eq!(s.handle_network_message(update(0, 3)), Err(ClientError::NotInQuestion));
    s.handle_network_message(ServerNetworkMessage::PlayersUpdate(PlayersUpdate { players: vec![] }))
        .unwrap();
    assert!(matches!(&s, StudentTerminalState::Answers { .. }));
    s.handle_network_message(ServerNetworkMessage::TeacherDisconnected(TeacherDisconnected {}))
        .unwrap();
    assert!(matches!(&s, StudentTerminalState::Error { message } if message == TEACHER_DISCONNECTED_MSG));
}

#[test]
fn teacher_screen_shows_answers_of_its_question_only() {
    let mut t = TeacherTerminalState::Other;
    assert_eq!(t.handle_question_ended(question_ended(0)), Err(ClientError::NotInQuestion));
    t = TeacherTerminalState::Question {
        question: next_question(1),
        players_answered_count: 0,
    };
    assert_eq!(t.handle_question_ended(question_ended(0)), Err(ClientError::OtherQuestion));
    assert!(matches!(&t, TeacherTerminalState::Question { .. }));
    assert_eq!(t.handle_question_ended(question_ended(1)), Ok(()));
    assert!(matches!(&t, TeacherTerminalState::Answers { answers } if answers.question_index == 1));
}
