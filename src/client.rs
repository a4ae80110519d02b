use vstd::prelude::*;

use crate::messages::{NetworkPlayerData, NextQuestion, QuestionEnded, ServerNetworkMessage, ShowLeaderboard};

verus! {

/// What a student is told when the teacher leaves.
pub const TEACHER_DISCONNECTED_MSG: &'static str = "Teacher disconnected from the game";

/// What a student's screen shows.
#[derive(Debug)]
pub enum StudentTerminalState {
    StartGame,
    NameSelection { name: String, name_already_used: bool },
    WaitingForGame { players: Vec<NetworkPlayerData> },
    Question { question: NextQuestion, players_answered_count: usize, answered: bool },
    Answers { answers: QuestionEnded },
    Results { results: ShowLeaderboard },
    EndGame,
    Error { message: String },
}

/// A message that does not fit what the screen shows.
#[derive(Debug, Clone, Copy, PartialEq, Eq, Structural)]
pub enum ClientError {
    /// A count of answers came while no question is shown.
    NotInQuestion,
    /// A count of answers came for another question than the shown one.
    OtherQuestion,
}

/// The screen after message `m` on screen `s`, and whether `m` fitted.
/// When the teacher left, the screen is an error whose text
/// `shows_teacher_gone` gives.
pub open spec fn student_step(s: StudentTerminalState, m: ServerNetworkMessage) -> (
    StudentTerminalState,
    Result<(), ClientError>,
) {
    match m {
        ServerNetworkMessage::JoinResponse(j) => (
            StudentTerminalState::WaitingForGame { players: j.players },
            Ok(()),
        ),
        ServerNetworkMessage::NextQuestion(q) => (
            StudentTerminalState::Question { question: q, players_answered_count: 0, answered: false },
            Ok(()),
        ),
        ServerNetworkMessage::QuestionUpdate(u) => match s {
            StudentTerminalState::Question { question, players_answered_count, answered } => {
                if question.question_index == u.question_index {
                    (
                        StudentTerminalState::Question {
                            question,
                            players_answered_count: u.players_answered_count,
                            answered,
                        },
                        Ok(()),
                    )
                } else {
                    (s, Err(ClientError::OtherQuestion))
                }
            },
            _ => (s, Err(ClientError::NotInQuestion)),
        },
        ServerNetworkMessage::QuestionEnded(e) => (StudentTerminalState::Answers { answers: e }, Ok(())),
        ServerNetworkMessage::ShowLeaderboard(l) => (
            StudentTerminalState::Results { results: l },
            Ok(()),
        ),
        ServerNetworkMessage::PlayersUpdate(u) => match s {
            StudentTerminalState::WaitingForGame { .. } => (
                StudentTerminalState::WaitingForGame { players: u.players },
                Ok(()),
            ),
            _ => (s, Ok(())),
        },
        ServerNetworkMessage::TeacherDisconnected(_) => (
            StudentTerminalState::Error { message: arbitrary() },
            Ok(()),
        ),
        _ => (s, Ok(())),
    }
}

/// The screen says that the teacher left.
pub open spec fn shows_teacher_gone(s: StudentTerminalState) -> bool {
    match s {
        StudentTerminalState::Error { message } => message@ == TEACHER_DISCONNECTED_MSG@,
        _ => false,
    }
}

impl StudentTerminalState {
    /// Moves the screen on a message from the coordinator. A count of
    /// answers that does not fit the shown question is refused and the
    /// screen stays; a departed teacher turns the screen into an error;
    /// a roster only changes the waiting screen.
    pub fn handle_network_message(&mut self, network_message: ServerNetworkMessage) -> (r: Result<
        (),
        ClientError,
    >)
        ensures
            r == student_step(*old(self), network_message).1,
            network_message is TeacherDisconnected ==> shows_teacher_gone(*final(self)),
            !(network_message is TeacherDisconnected) ==> *final(self) == student_step(
                *old(self),
                network_message,
            ).0,
    {
        match network_message {
            ServerNetworkMessage::JoinResponse(join) => {
                *self = StudentTerminalState::WaitingForGame { players: join.players };
                Ok(())
            },
            ServerNetworkMessage::NextQuestion(question) => {
                *self = StudentTerminalState::Question {
                    question,
                    players_answered_count: 0,
                    answered: false,
                };
                Ok(())
            },
            ServerNetworkMessage::QuestionUpdate(update) => {
                match self {
                    StudentTerminalState::Question { question, players_answered_count, answered: _ } => {
                        if question.question_index != update.question_index {
                            return Err(ClientError::OtherQuestion);
                        }
                        *players_answered_count = update.players_answered_count;
                        Ok(())
                    },
                    _ => Err(ClientError::NotInQuestion),
                }
            },
            ServerNetworkMessage::QuestionEnded(question) => {
                *self = StudentTerminalState::Answers { answers: question };
                Ok(())
            },
            ServerNetworkMessage::ShowLeaderboard(leaderboard) => {
                *self = StudentTerminalState::Results { results: leaderboard };
                Ok(())
            },
            ServerNetworkMessage::PlayersUpdate(update) => {
                if let StudentTerminalState::WaitingForGame { players } = self {
                    *players = update.players;
                }
                Ok(())
            },
            ServerNetworkMessage::TeacherDisconnected(_) => {
                *self = StudentTerminalState::Error { message: TEACHER_DISCONNECTED_MSG.to_string() };
                Ok(())
            },
            _ => Ok(()),
        }
    }
}

/// What the teacher's screen shows around a question.
#[derive(Debug)]
pub enum TeacherTerminalState {
    /// The live question and how many have answered.
    Question { question: NextQuestion, players_answered_count: usize },
    /// The answers of the question that ended.
    Answers { answers: QuestionEnded },
    /// Anything else the teacher's screen shows.
    Other,
}

impl TeacherTerminalState {
    /// Shows the answers of the question that ended; refused unless the
    /// screen shows that very question.
    pub fn handle_question_ended(&mut self, question_ended: QuestionEnded) -> (r: Result<
        (),
        ClientError,
    >)
        ensures
            match *old(self) {
                TeacherTerminalState::Question { question, .. } => if question.question_index
                    == question_ended.question_index {
                    r is Ok && *final(self) == TeacherTerminalState::Answers {
                        answers: question_ended,
                    }
                } else {
                    r == Err::<(), ClientError>(ClientError::OtherQuestion) && *final(self) == *old(
                        self,
                    )
                },
                _ => r == Err::<(), ClientError>(ClientError::NotInQuestion) && *final(self) == *old(
                    self,
                ),
            },
    {
        let index = match &*self {
            TeacherTerminalState::Question { question, .. } => question.question_index,
            _ => {
                return Err(ClientError::NotInQuestion);
            },
        };
        if index != question_ended.question_index {
            return Err(ClientError::OtherQuestion);
        }
        *self = TeacherTerminalState::Answers { answers: question_ended };
        Ok(())
    }
}

} // verus!
