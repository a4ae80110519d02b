use vstd::prelude::*;

use crate::ids::Id;
use crate::questions::{Question, QuestionCensored};

verus! {

/// A player as the others see it.
#[derive(Debug)]
pub struct NetworkPlayerData {
    pub id: Id,
    pub nickname: String,
    pub color: String,
}

pub struct PlayerView {
    pub id: Id,
    pub nickname: Seq<char>,
    pub color: Seq<char>,
}

impl View for NetworkPlayerData {
    type V = PlayerView;

    open spec fn view(&self) -> PlayerView {
        PlayerView { id: self.id, nickname: self.nickname@, color: self.color@ }
    }
}

impl Clone for NetworkPlayerData {
    fn clone(&self) -> (r: Self)
        ensures
            r@ == self@,
    {
        NetworkPlayerData { id: self.id, nickname: self.nickname.clone(), color: self.color.clone() }
    }
}

/// The views of a list of players.
pub open spec fn player_views(s: Seq<NetworkPlayerData>) -> Seq<PlayerView> {
    s.map_values(|p: NetworkPlayerData| p@)
}

/// A copy of a list of players.
pub fn copy_players(v: &Vec<NetworkPlayerData>) -> (r: Vec<NetworkPlayerData>)
    ensures
        player_views(r@) == player_views(v@),
{
    let mut r: Vec<NetworkPlayerData> = Vec::new();
    let mut i: usize = 0;
    while i < v.len()
        invariant
            i <= v.len(),
            r@.len() == i,
            forall|k: int| 0 <= k < i ==> (#[trigger] r@[k])@ == v@[k]@,
        decreases v.len() - i,
    {
        r.push(v[i].clone());
        i += 1;
    }
    assert(player_views(r@) =~= player_views(v@));
    r
}

/// A participant asks whether it may join; it names itself by its id.
#[derive(Debug, Clone, Copy, PartialEq, Eq, Structural)]
pub struct TryJoinRequest {
    pub id: Id,
}

/// Whether a participant may join, and why not.
#[derive(Debug)]
pub enum CanJoin {
    Yes,
    No(String),
}

/// The answer to a `TryJoinRequest`.
#[derive(Debug)]
pub struct TryJoinResponse {
    pub id: Id,
    pub can_join: CanJoin,
    pub quiz_name: String,
}

/// A waiting participant completes its profile.
#[derive(Debug)]
pub struct JoinRequest {
    pub player_data: NetworkPlayerData,
}

/// The answer to a `JoinRequest`: on success, the roster.
#[derive(Debug)]
pub struct JoinResponse {
    pub id: Id,
    pub can_join: CanJoin,
    pub quiz_name: String,
    pub players: Vec<NetworkPlayerData>,
}

/// The full roster, after it changed.
#[derive(Debug)]
pub struct PlayersUpdate {
    pub players: Vec<NetworkPlayerData>,
}

/// A question starts.
#[derive(Debug)]
pub struct NextQuestion {
    pub question_index: usize,
    pub questions_count: usize,
    pub question: QuestionCensored,
    pub show_choices_after: usize,
}

/// A player's answer to a question: the ids of the chosen choices.
#[derive(Debug)]
pub struct AnswerSelected {
    pub player_id: Id,
    pub question_index: usize,
    pub answers: Vec<Id>,
}

/// How many players have answered the live question.
#[derive(Debug, Clone, Copy, PartialEq, Eq, Structural)]
pub struct QuestionUpdate {
    pub question_index: usize,
    pub players_answered_count: usize,
}

/// How many players chose one choice.
#[derive(Debug, Clone, Copy, PartialEq, Eq, Structural)]
pub struct ChoiceStats {
    pub players_answered_count: usize,
}

/// A question is over: the full question, the recipient's own answer if
/// it gave one, and for each choice, in the question's order, how many
/// players chose it.
#[derive(Debug)]
pub struct QuestionEnded {
    pub question_index: usize,
    pub question: Question,
    pub player_answer: Option<Vec<Id>>,
    pub stats: Vec<(Id, ChoiceStats)>,
}

/// The standings: players with their scores, best first.
#[derive(Debug)]
pub struct ShowLeaderboard {
    pub players: Vec<(NetworkPlayerData, u128)>,
    pub was_final_round: bool,
}

/// Sent to a player who was removed from the game.
#[derive(Debug)]
pub struct KickedOutNotice {
    pub kick_message: Option<String>,
}

/// A participant's connection closed.
#[derive(Debug, Clone, Copy, PartialEq, Eq, Structural)]
pub struct ClientDisconnected {}

/// The teacher left; the session cannot go on.
#[derive(Debug, Clone, Copy, PartialEq, Eq, Structural)]
pub struct TeacherDisconnected {}

/// The teacher removes a player.
#[derive(Debug, Clone, Copy, PartialEq, Eq, Structural)]
pub struct KickPlayer {
    pub player_id: Id,
}

/// The teacher moves from the answers to the standings.
#[derive(Debug, Clone, Copy, PartialEq, Eq, Structural)]
pub struct SwitchToLeaderboard {}

/// The teacher closes (`true`) or opens (`false`) the lobby.
#[derive(Debug, Clone, Copy, PartialEq, Eq, Structural)]
pub struct LockGame {
    pub lock: bool,
}

/// A player asks to come back into a game it was part of.
#[derive(Debug, Clone, Copy, PartialEq, Eq, Structural)]
pub struct ReconnectRequest {
    pub player_id: Id,
}

/// Asks a participant's connection to close once it has sent what it
/// holds, telling the participant why.
#[derive(Debug)]
pub struct GracefulStop {
    pub reason: Option<String>,
}

/// Asks a participant's connection to close at once.
#[derive(Debug, Clone, Copy, PartialEq, Eq, Structural)]
pub struct HardStop;

/// Asks a transport task to close once it has sent what it holds.
#[derive(Debug, Clone, Copy, PartialEq, Eq, Structural)]
pub struct WebsocketGracefulStop;

/// Asks a transport task to close at once.
#[derive(Debug, Clone, Copy, PartialEq, Eq, Structural)]
pub struct WebsocketHardStop;

/// A connection asks the coordinator to forget its participant.
#[derive(Debug, Clone, Copy, PartialEq, Eq, Structural)]
pub struct DisconnectFromLobby {
    pub player_id: Id,
}

/// Everything the coordinator tells participants.
#[derive(Debug)]
pub enum ServerNetworkMessage {
    TryJoinResponse(TryJoinResponse),
    JoinResponse(JoinResponse),
    PlayersUpdate(PlayersUpdate),
    NextQuestion(NextQuestion),
    QuestionUpdate(QuestionUpdate),
    QuestionEnded(QuestionEnded),
    ShowLeaderboard(ShowLeaderboard),
    KickedOut(KickedOutNotice),
    TeacherDisconnected(TeacherDisconnected),
}

/// Who a message goes to.
#[derive(Debug, Clone, Copy, PartialEq, Eq, Structural)]
pub enum Recipient {
    Teacher,
    Player(Id),
}

/// What the coordinator asks of the connections once it has handled an
/// event.
#[derive(Debug)]
pub enum Action {
    /// Send one message to each of these, in this order.
    Send { to: Vec<Recipient>, message: ServerNetworkMessage },
    /// Close this participant's connection.
    Close(Recipient),
}

} // verus!
