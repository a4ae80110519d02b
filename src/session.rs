use vstd::prelude::*;

use crate::ids::{lemma_index_of_unique, lemma_push_ids, lemma_remove_ids, Id};
use crate::messages::{
    player_views, Action, CanJoin, JoinResponse, KickedOutNotice, NetworkPlayerData, PlayersUpdate,
    Recipient, ServerNetworkMessage, TeacherDisconnected, TryJoinResponse,
};
use crate::messages::copy_players;
use crate::questions::Question;
use crate::scoring::MAX_POINTS;

verus! {

/// Why a participant may not join: the lobby is closed.
pub const LOBBY_LOCKED_MSG: &'static str = "The lobby is locked";

/// Why a participant may not join: the quiz has started.
pub const GAME_IN_PROGRESS_MSG: &'static str = "The game is already in progress";

/// Why a participant may not join: its id is taken by a joined player.
pub const ALREADY_JOINED_MSG: &'static str = "A player with this id has already joined";

/// Why a profile was refused: the participant did not ask to join first.
pub const NOT_WAITING_MSG: &'static str = "Ask to join before choosing a profile";

/// Why a profile was refused: a joined player has that nickname.
pub const NAME_TAKEN_MSG: &'static str = "This nickname is already taken";

/// What a removed player is told.
pub const KICKED_MSG: &'static str = "You were removed from the game by the teacher";

/// Where the session stands.
#[derive(Debug, Clone, Copy, PartialEq, Eq, Structural)]
pub enum Phase {
    /// Accepting players; no question asked yet.
    Lobby,
    /// The question of this index is live.
    ActiveQuestion(usize),
    /// Standings are shown between questions.
    Leaderboard,
    /// The teacher ended the quiz.
    Ended,
    /// The teacher left; nothing more is accepted.
    TeacherGone,
}

/// One player's answer to one question.
#[derive(Debug)]
pub struct AnswerRecord {
    pub player_id: Id,
    /// 1-based rank of this answer among the answers to the question.
    pub answer_order: usize,
    /// When the answer came, in milliseconds since the Unix epoch.
    pub timestamp: i64,
    pub selected_answers: Vec<Id>,
    pub points_awarded: u32,
}

/// A command that was refused; the session did not change.
#[derive(Debug, Clone, Copy, PartialEq, Eq, Structural)]
pub enum LobbyError {
    /// The sender is not a joined player.
    NotJoined,
    /// The command does not fit the current phase (or names another
    /// question than the live one).
    WrongPhase,
    /// The player already answered this question.
    AlreadyAnswered,
    /// Every question has been asked.
    NoMoreQuestions,
}

/// The session coordinator: the one owner of all game state.
#[derive(Debug)]
pub struct Lobby {
    pub questions: Vec<Question>,
    pub quiz_name: String,
    pub phase: Phase,
    /// Index of the next question to ask.
    pub next_question: usize,
    /// When the live question started, in milliseconds.
    pub question_started_at: i64,
    /// Whether new participants are refused.
    pub locked: bool,
    /// Ids of participants that may join and have not chosen a profile.
    pub waiting_players: Vec<Id>,
    /// Joined players, in the order they joined.
    pub joined_players: Vec<NetworkPlayerData>,
    /// For each question, its answers in the order they came.
    pub results: Vec<Vec<AnswerRecord>>,
}

/// The ids of a list of players.
pub open spec fn ids_of(s: Seq<NetworkPlayerData>) -> Seq<Id> {
    s.map_values(|p: NetworkPlayerData| p.id)
}

/// The answers of each question.
pub open spec fn results_view(r: Seq<Vec<AnswerRecord>>) -> Seq<Seq<AnswerRecord>> {
    r.map_values(|v: Vec<AnswerRecord>| v@)
}

/// Has the player `id` an answer among `records`?
pub open spec fn has_answered(records: Seq<AnswerRecord>, id: Id) -> bool {
    exists|k: int| 0 <= k < records.len() && (#[trigger] records[k]).player_id == id
}

/// The answers of one question are numbered 1, 2, ... in the order they
/// came, one at most per player, and none is worth more than the most
/// points.
pub open spec fn records_wf(records: Seq<AnswerRecord>) -> bool {
    &&& forall|k: int| 0 <= k < records.len() ==> (#[trigger] records[k]).answer_order == k + 1
    &&& forall|k: int| 0 <= k < records.len() ==> (#[trigger] records[k]).points_awarded <= MAX_POINTS
    &&& forall|a: int, b: int|
        0 <= a < b < records.len() ==> (#[trigger] records[a]).player_id != (#[trigger] records[b]).player_id
}

/// The answers `records` without the one of player `id`; those that came
/// after it move up one place, so they stay numbered 1, 2, ...
pub open spec fn withdraw(records: Seq<AnswerRecord>, id: Id) -> Seq<AnswerRecord>
    decreases records.len(),
{
    if records.len() == 0 {
        seq![]
    } else {
        let init = withdraw(records.drop_last(), id);
        let last = records.last();
        if last.player_id == id {
            init
        } else {
            init.push(AnswerRecord { answer_order: (init.len() + 1) as usize, ..last })
        }
    }
}

/// Every answer of `records` is by one of the players `ids`.
pub open spec fn answers_from(records: Seq<AnswerRecord>, ids: Seq<Id>) -> bool {
    forall|k: int| 0 <= k < records.len() ==> ids.contains(#[trigger] records[k].player_id)
}

/// Withdrawing an answer keeps the numbering and the one-answer-per-player
/// rule, and leaves only answers by other players that had answered.
pub proof fn lemma_withdraw(records: Seq<AnswerRecord>, id: Id)
    requires
        records_wf(records),
    ensures
        records_wf(withdraw(records, id)),
        withdraw(records, id).len() <= records.len(),
        forall|k: int|
            0 <= k < withdraw(records, id).len() ==> (#[trigger] withdraw(records, id)[k]).player_id
                != id && has_answered(records, withdraw(records, id)[k].player_id),
    decreases records.len(),
{
    if records.len() > 0 {
        let init = records.drop_last();
        let n = records.len() - 1;
        assert forall|a: int, b: int| 0 <= a < b < init.len() implies (#[trigger] init[a]).player_id
            != (#[trigger] init[b]).player_id by {
            assert(init[a] == records[a] && init[b] == records[b]);
        }
        assert forall|k: int| 0 <= k < init.len() implies (#[trigger] init[k]).answer_order == k + 1
            && init[k].points_awarded <= MAX_POINTS by {
            assert(init[k] == records[k]);
        }
        lemma_withdraw(init, id);
        let w0 = withdraw(init, id);
        let w = withdraw(records, id);
        assert forall|k: int| 0 <= k < w0.len() implies has_answered(records, (#[trigger] w0[k]).player_id) by {
            let j = choose|j: int| 0 <= j < init.len() && (#[trigger] init[j]).player_id == w0[k].player_id;
            assert(records[j] == init[j]);
        }
        if records[n].player_id != id {
            assert(w == w0.push(AnswerRecord { answer_order: (w0.len() + 1) as usize, ..records[n] }));
            assert forall|k: int| 0 <= k < w0.len() implies (#[trigger] w0[k]).player_id
                != records[n].player_id by {
                let j = choose|j: int| 0 <= j < init.len() && (#[trigger] init[j]).player_id == w0[k].player_id;
                assert(records[j].player_id != records[n].player_id);
            }
            assert forall|a: int, b: int| 0 <= a < b < w.len() implies (#[trigger] w[a]).player_id
                != (#[trigger] w[b]).player_id by {
                if b == w0.len() {
                    assert(w[a] == w0[a]);
                } else {
                    assert(w[a] == w0[a] && w[b] == w0[b]);
                }
            }
            assert forall|k: int| 0 <= k < w.len() implies (#[trigger] w[k]).player_id != id
                && has_answered(records, w[k].player_id) by {
                if k < w0.len() {
                    assert(w[k] == w0[k]);
                } else {
                    assert(records[n].player_id == w[k].player_id);
                }
            }
        }
    }
}

/// With one answer at most per player, answers all by the players `ids`
/// are no more than the players.
pub proof fn lemma_answers_from_bounded(records: Seq<AnswerRecord>, ids: Seq<Id>)
    requires
        records_wf(records),
        ids.no_duplicates(),
        answers_from(records, ids),
    ensures
        records.len() <= ids.len(),
{
    lemma_answers_by_all(records, ids);
    lemma_answers_by_bounded(records, ids);
}

proof fn lemma_answers_by_all(records: Seq<AnswerRecord>, ids: Seq<Id>)
    requires
        answers_from(records, ids),
    ensures
        answers_by(records, ids) == records.len(),
    decreases records.len(),
{
    if records.len() > 0 {
        let init = records.drop_last();
        assert forall|k: int| 0 <= k < init.len() implies ids.contains(#[trigger] init[k].player_id) by {
            assert(init[k] == records[k]);
        }
        lemma_answers_by_all(init, ids);
        assert(ids.contains(records[records.len() - 1].player_id));
    }
}

/// Takes the answer of player `id` out of `records`, moving up those that
/// came after it.
pub fn withdraw_answer(records: Vec<AnswerRecord>, id: Id) -> (r: Vec<AnswerRecord>)
    ensures
        r@ == withdraw(records@, id),
{
    let ghost all = records@;
    let n = records.len();
    let mut rest = records;
    let mut out: Vec<AnswerRecord> = Vec::new();
    let mut i: usize = 0;
    while i < n
        invariant
            n == all.len(),
            i <= n,
            rest@ == all.subrange(i as int, n as int),
            out@ == withdraw(all.subrange(0, i as int), id),
            out@.len() <= i,
        decreases n - i,
    {
        proof {
            assert(all.subrange(0, i + 1).drop_last() =~= all.subrange(0, i as int));
        }
        let r = rest.remove(0);
        assert(r == all[i as int]);
        if r.player_id != id {
            let order = out.len() + 1;
            out.push(AnswerRecord { answer_order: order, ..r });
        }
        i += 1;
        proof {
            assert(rest@ =~= all.subrange(i as int, n as int));
        }
    }
    assert(all.subrange(0, n as int) =~= all);
    out
}

/// `f` is `o` after the joined player at `k` left: it is off the roster,
/// and its answer to the live question, if any, is withdrawn. Its answers
/// to earlier questions stay.
pub open spec fn departed(o: Lobby, f: Lobby, k: int) -> bool {
    let id = o.joined_players@[k].id;
    &&& f.joined_players@ == o.joined_players@.remove(k)
    &&& f.results@.len() == o.results@.len()
    &&& forall|q: int|
        0 <= q < o.results.len() && o.phase != Phase::ActiveQuestion(q as usize) ==> #[trigger] f.results@[q]
            == o.results@[q]
    &&& forall|i: usize|
        o.phase == Phase::ActiveQuestion(i) ==> #[trigger] f.results@[i as int]@ == withdraw(
            o.results@[i as int]@,
            id,
        )
    &&& f == (Lobby { joined_players: f.joined_players, results: f.results, ..o })
}

/// How many of the answers `records` come from the players `ids`.
pub open spec fn answers_by(records: Seq<AnswerRecord>, ids: Seq<Id>) -> nat
    decreases records.len(),
{
    if records.len() == 0 {
        0
    } else {
        answers_by(records.drop_last(), ids) + if ids.contains(records.last().player_id) {
            1nat
        } else {
            0nat
        }
    }
}

/// The players of `ids` that have an answer among `records`.
pub open spec fn answered_among(records: Seq<AnswerRecord>, ids: Seq<Id>) -> Set<Id>
    decreases records.len(),
{
    if records.len() == 0 {
        Set::empty()
    } else if ids.contains(records.last().player_id) {
        answered_among(records.drop_last(), ids).insert(records.last().player_id)
    } else {
        answered_among(records.drop_last(), ids)
    }
}

proof fn lemma_answered_among(records: Seq<AnswerRecord>, ids: Seq<Id>)
    requires
        forall|a: int, b: int|
            0 <= a < b < records.len() ==> (#[trigger] records[a]).player_id != (
            #[trigger] records[b]).player_id,
    ensures
        answered_among(records, ids).finite(),
        answered_among(records, ids).len() == answers_by(records, ids),
        forall|x: Id| #[trigger]
            answered_among(records, ids).contains(x) ==> ids.contains(x) && has_answered(records, x),
    decreases records.len(),
{
    if records.len() > 0 {
        let init = records.drop_last();
        let n = records.len() - 1;
        assert forall|a: int, b: int| 0 <= a < b < init.len() implies (#[trigger] init[a]).player_id
            != (#[trigger] init[b]).player_id by {
            assert(init[a] == records[a] && init[b] == records[b]);
        }
        lemma_answered_among(init, ids);
        let last = records[n].player_id;
        if answered_among(init, ids).contains(last) {
            let k = choose|k: int| 0 <= k < init.len() && (#[trigger] init[k]).player_id == last;
            assert(records[k].player_id == records[n].player_id);
        }
        assert forall|x: Id| #[trigger] answered_among(records, ids).contains(x) implies ids.contains(x)
            && has_answered(records, x) by {
            if x == last {
                assert(records[n].player_id == x);
            } else {
                let k = choose|k: int| 0 <= k < init.len() && (#[trigger] init[k]).player_id == x;
                assert(records[k].player_id == x);
            }
        }
    }
}

/// With one answer at most per player, no more of the players `ids` can
/// have answered than there are of them.
pub proof fn lemma_answers_by_bounded(records: Seq<AnswerRecord>, ids: Seq<Id>)
    requires
        records_wf(records),
        ids.no_duplicates(),
    ensures
        answers_by(records, ids) <= ids.len(),
{
    lemma_answered_among(records, ids);
    ids.unique_seq_to_set();
    vstd::seq_lib::seq_to_set_is_finite(ids);
    assert(answered_among(records, ids).subset_of(ids.to_set()));
    vstd::set_lib::lemma_len_subset(answered_among(records, ids), ids.to_set());
}

/// The bound of `wf` on the answers of the joined players, from the rest
/// of it.
pub(crate) proof fn lemma_joined_answers_bounded(results: Seq<Vec<AnswerRecord>>, joined: Seq<NetworkPlayerData>)
    requires
        forall|q: int| 0 <= q < results.len() ==> records_wf(#[trigger] results[q]@),
        ids_of(joined).no_duplicates(),
    ensures
        forall|q: int|
            0 <= q < results.len() ==> answers_by(#[trigger] results[q]@, ids_of(joined))
                <= joined.len(),
{
    assert forall|q: int| 0 <= q < results.len() implies answers_by(#[trigger] results[q]@, ids_of(joined))
        <= joined.len() by {
        lemma_answers_by_bounded(results[q]@, ids_of(joined));
    }
}

/// Every message of a broadcast goes to each joined player, in the order
/// they joined, and then to the teacher.
pub open spec fn everyone(players: Seq<NetworkPlayerData>) -> Seq<Recipient> {
    players_of(players).push(Recipient::Teacher)
}

/// Each of the players as a recipient.
pub open spec fn players_of(players: Seq<NetworkPlayerData>) -> Seq<Recipient> {
    players.map_values(|p: NetworkPlayerData| Recipient::Player(p.id))
}

/// `c` refuses, for the reason `why`.
pub open spec fn refused(c: CanJoin, why: Seq<char>) -> bool {
    match c {
        CanJoin::No(m) => m@ == why,
        CanJoin::Yes => false,
    }
}

/// `a` sends a message to exactly these recipients, in this order.
pub open spec fn sends_to(a: Action, to: Seq<Recipient>) -> bool {
    match a {
        Action::Send { to: t, .. } => t@ == to,
        Action::Close(_) => false,
    }
}

/// The message that `a` sends.
pub open spec fn sent(a: Action) -> ServerNetworkMessage
    recommends
        a is Send,
{
    match a {
        Action::Send { message, .. } => message,
        Action::Close(_) => arbitrary(),
    }
}

/// `m` tells a player it was removed by the teacher.
pub open spec fn is_kick_notice(m: ServerNetworkMessage) -> bool {
    match m {
        ServerNetworkMessage::KickedOut(n) => match n.kick_message {
            Some(t) => t@ == KICKED_MSG@,
            None => false,
        },
        _ => false,
    }
}

/// `m` is the roster message for these players.
pub open spec fn is_players_update(m: ServerNetworkMessage, players: Seq<NetworkPlayerData>) -> bool {
    m matches ServerNetworkMessage::PlayersUpdate(u) && player_views(u.players@) == player_views(
        players,
    )
}

impl Lobby {
    /// The ids of the joined players.
    pub open spec fn joined_ids(&self) -> Seq<Id> {
        ids_of(self.joined_players@)
    }

    pub open spec fn is_joined(&self, id: Id) -> bool {
        self.joined_ids().contains(id)
    }

    pub open spec fn is_waiting(&self, id: Id) -> bool {
        self.waiting_players@.contains(id)
    }

    /// Has a joined player this nickname?
    pub open spec fn nickname_taken(&self, name: Seq<char>) -> bool {
        exists|k: int|
            0 <= k < self.joined_players.len() && (#[trigger] self.joined_players@[k]).nickname@
                == name
    }

    /// The answers of each question.
    pub open spec fn answers(&self) -> Seq<Seq<AnswerRecord>> {
        results_view(self.results@)
    }

    /// The invariant of the session.
    pub open spec fn wf(&self) -> bool {
        &&& self.results.len() == self.questions.len()
        &&& self.next_question <= self.questions.len()
        &&& forall|q: int| 0 <= q < self.results.len() ==> records_wf(#[trigger] self.results@[q]@)
        &&& forall|q: int|
            self.next_question <= q < self.results.len() ==> (#[trigger] self.results@[q]@).len()
                == 0
        &&& self.joined_ids().no_duplicates()
        &&& self.waiting_players@.no_duplicates()
        &&& forall|id: Id| #[trigger] self.waiting_players@.contains(id) ==> !ids_of(self.joined_players@).contains(id)
        &&& self.phase matches Phase::ActiveQuestion(i) ==> i + 1 == self.next_question
        &&& self.phase matches Phase::ActiveQuestion(i) ==> answers_from(
            self.results@[i as int]@,
            ids_of(self.joined_players@),
        )
        &&& self.phase matches Phase::ActiveQuestion(i) ==> self.results@[i as int]@.len()
            <= self.joined_players.len()
        &&& forall|q: int|
            0 <= q < self.results.len() ==> answers_by(
                #[trigger] self.results@[q]@,
                ids_of(self.joined_players@),
            ) <= self.joined_players.len()
    }

    /// A new session over these questions: in the lobby, closed to
    /// newcomers until the teacher opens it, with no players.
    pub fn new(questions: Vec<Question>, quiz_name: String) -> (r: Self)
        ensures
            r.wf(),
            r.questions@ == questions@,
            r.quiz_name@ == quiz_name@,
            r.phase == Phase::Lobby,
            r.next_question == 0,
            r.locked,
            r.waiting_players@.len() == 0,
            r.joined_players@.len() == 0,
            forall|q: int| 0 <= q < r.results.len() ==> (#[trigger] r.results@[q]@).len() == 0,
    {
        let mut results: Vec<Vec<AnswerRecord>> = Vec::new();
        let mut i: usize = 0;
        while i < questions.len()
            invariant
                i <= questions.len(),
                results@.len() == i,
                forall|q: int| 0 <= q < i ==> (#[trigger] results@[q]@).len() == 0,
            decreases questions.len() - i,
        {
            results.push(Vec::new());
            i += 1;
        }
        let r = Lobby {
            questions,
            quiz_name,
            phase: Phase::Lobby,
            next_question: 0,
            question_started_at: 0,
            locked: true,
            waiting_players: Vec::new(),
            joined_players: Vec::new(),
            results,
        };
        assert(r.joined_ids().len() == 0);
        proof {
            lemma_joined_answers_bounded(r.results@, r.joined_players@);
        }
        r
    }

    /// The position of the joined player `id`, if it has joined.
    pub fn find_joined(&self, id: Id) -> (r: Option<usize>)
        ensures
            r is None <==> !self.is_joined(id),
            r matches Some(k) ==> k < self.joined_players.len() && self.joined_players@[k as int].id
                == id,
    {
        let mut i: usize = 0;
        while i < self.joined_players.len()
            invariant
                i <= self.joined_players.len(),
                forall|k: int| 0 <= k < i ==> (#[trigger] self.joined_players@[k]).id != id,
            decreases self.joined_players.len() - i,
        {
            if self.joined_players[i].id == id {
                assert(self.joined_ids()[i as int] == id);
                return Some(i);
            }
            i += 1;
        }
        assert(!self.is_joined(id)) by {
            if self.is_joined(id) {
                let k = self.joined_ids().index_of(id);
                assert(self.joined_players@[k].id == id);
            }
        }
        None
    }

    /// The position of `id` among the waiting participants.
    fn find_waiting(&self, id: Id) -> (r: Option<usize>)
        ensures
            r is None <==> !self.is_waiting(id),
            r matches Some(k) ==> k < self.waiting_players.len() && self.waiting_players@[k as int]
                == id,
    {
        let mut i: usize = 0;
        while i < self.waiting_players.len()
            invariant
                i <= self.waiting_players.len(),
                forall|k: int| 0 <= k < i ==> self.waiting_players@[k] != id,
            decreases self.waiting_players.len() - i,
        {
            if self.waiting_players[i] == id {
                return Some(i);
            }
            i += 1;
        }
        None
    }

    /// Is this nickname used by a joined player?
    pub fn is_nickname_taken(&self, name: &String) -> (r: bool)
        ensures
            r == self.nickname_taken(name@),
    {
        let mut i: usize = 0;
        while i < self.joined_players.len()
            invariant
                i <= self.joined_players.len(),
                forall|k: int| 0 <= k < i ==> (#[trigger] self.joined_players@[k]).nickname@ != name@,
            decreases self.joined_players.len() - i,
        {
            if self.joined_players[i].nickname == *name {
                return true;
            }
            i += 1;
        }
        false
    }

    /// The joined players as recipients.
    pub fn players_exec(&self) -> (r: Vec<Recipient>)
        ensures
            r@ == players_of(self.joined_players@),
    {
        let mut r: Vec<Recipient> = Vec::new();
        let mut i: usize = 0;
        while i < self.joined_players.len()
            invariant
                i <= self.joined_players.len(),
                r@ == players_of(self.joined_players@.subrange(0, i as int)),
            decreases self.joined_players.len() - i,
        {
            r.push(Recipient::Player(self.joined_players[i].id));
            i += 1;
            assert(players_of(self.joined_players@.subrange(0, i as int)) =~= players_of(
                self.joined_players@.subrange(0, i - 1),
            ).push(Recipient::Player(self.joined_players@[i - 1].id)));
        }
        assert(self.joined_players@.subrange(0, i as int) =~= self.joined_players@);
        r
    }

    /// Every joined player, then the teacher.
    pub fn everyone_exec(&self) -> (r: Vec<Recipient>)
        ensures
            r@ == everyone(self.joined_players@),
    {
        let mut r = self.players_exec();
        r.push(Recipient::Teacher);
        r
    }

    /// A roster message for the current players.
    fn players_update(&self) -> (r: ServerNetworkMessage)
        ensures
            is_players_update(r, self.joined_players@),
    {
        ServerNetworkMessage::PlayersUpdate(PlayersUpdate { players: copy_players(&self.joined_players) })
    }

    /// A participant asks to join. It is refused while the lobby is
    /// locked, then once the quiz has started, then if its id has
    /// joined; otherwise it waits for its profile.
    pub fn try_join(&mut self, id: Id) -> (r: TryJoinResponse)
        requires
            old(self).wf(),
        ensures
            final(self).wf(),
            r.id == id,
            r.quiz_name@ == old(self).quiz_name@,
            old(self).locked ==> refused(r.can_join, LOBBY_LOCKED_MSG@),
            !old(self).locked && old(self).phase != Phase::Lobby ==> refused(r.can_join, GAME_IN_PROGRESS_MSG@),
            !old(self).locked && old(self).phase == Phase::Lobby && old(self).is_joined(id)
                ==> refused(r.can_join, ALREADY_JOINED_MSG@),
            r.can_join is No ==> *final(self) == *old(self),
            r.can_join is Yes <==> !old(self).locked && old(self).phase == Phase::Lobby && !old(
                self,
            ).is_joined(id),
            r.can_join is Yes ==> final(self).is_waiting(id) && final(self).waiting_players@
                == if old(self).is_waiting(id) {
                old(self).waiting_players@
            } else {
                old(self).waiting_players@.push(id)
            },
            r.can_join is Yes ==> ({
                let o = *old(self);
                let f = *final(self);
                f.questions == o.questions && f.quiz_name == o.quiz_name && f.phase == o.phase
                    && f.next_question == o.next_question && f.question_started_at
                    == o.question_started_at && f.locked == o.locked && f.joined_players
                    == o.joined_players && f.results == o.results
            }),
    {
        let quiz_name = self.quiz_name.clone();
        if self.locked {
            return TryJoinResponse { id, can_join: CanJoin::No(LOBBY_LOCKED_MSG.to_string()), quiz_name };
        }
        if self.phase != Phase::Lobby {
            return TryJoinResponse {
                id,
                can_join: CanJoin::No(GAME_IN_PROGRESS_MSG.to_string()),
                quiz_name,
            };
        }
        if self.find_joined(id).is_some() {
            return TryJoinResponse { id, can_join: CanJoin::No(ALREADY_JOINED_MSG.to_string()), quiz_name };
        }
        if self.find_waiting(id).is_none() {
            let ghost before = self.waiting_players@;
            self.waiting_players.push(id);
            proof {
                lemma_push_ids(before, id);
                assert forall|x: Id| #[trigger] self.waiting_players@.contains(x) implies !ids_of(
                    self.joined_players@,
                ).contains(x) by {
                    if x != id {
                        assert(before.contains(x));
                    }
                }
            }
        }
        TryJoinResponse { id, can_join: CanJoin::Yes, quiz_name }
    }

    /// A waiting participant picks its profile. It is refused unless it
    /// asked to join first, then while the quiz runs, then if a joined
    /// player has the nickname. On success the player joins with no
    /// points, gets the roster, and the others and the teacher get the
    /// new roster.
    pub fn join(&mut self, player_data: NetworkPlayerData) -> (r: (JoinResponse, Vec<Action>))
        requires
            old(self).wf(),
        ensures
            final(self).wf(),
            r.0.id == player_data.id,
            r.0.quiz_name@ == old(self).quiz_name@,
            !old(self).is_waiting(player_data.id) ==> refused(r.0.can_join, NOT_WAITING_MSG@),
            old(self).is_waiting(player_data.id) && old(self).phase != Phase::Lobby
                ==> refused(r.0.can_join, GAME_IN_PROGRESS_MSG@),
            old(self).is_waiting(player_data.id) && old(self).phase == Phase::Lobby && old(
                self,
            ).nickname_taken(player_data.nickname@) ==> refused(r.0.can_join, NAME_TAKEN_MSG@),
            r.0.can_join is Yes <==> old(self).is_waiting(player_data.id) && old(self).phase
                == Phase::Lobby && !old(self).nickname_taken(player_data.nickname@),
            r.0.can_join is No ==> *final(self) == *old(self) && r.1@.len() == 0 && r.0.players@.len()
                == 0,
            r.0.can_join is Yes ==> ({
                let o = *old(self);
                let f = *final(self);
                &&& player_views(f.joined_players@) == player_views(o.joined_players@).push(
                    player_data@,
                )
                &&& f.joined_players@.subrange(0, o.joined_players.len() as int)
                    == o.joined_players@
                &&& f.waiting_players@ == o.waiting_players@.remove(
                    o.waiting_players@.index_of(player_data.id),
                )
                &&& player_views(r.0.players@) == player_views(f.joined_players@)
                &&& r.1@.len() == 1
                &&& sends_to(r.1@[0], everyone(o.joined_players@))
                &&& is_players_update(sent(r.1@[0]), f.joined_players@)
                &&& f.questions == o.questions && f.quiz_name == o.quiz_name && f.phase == o.phase
                    && f.next_question == o.next_question && f.question_started_at
                    == o.question_started_at && f.locked == o.locked && f.results == o.results
            }),
    {
        let id = player_data.id;
        let quiz_name = self.quiz_name.clone();
        let w = match self.find_waiting(id) {
            Some(w) => w,
            None => {
                return (
                    JoinResponse {
                        id,
                        can_join: CanJoin::No(NOT_WAITING_MSG.to_string()),
                        quiz_name,
                        players: Vec::new(),
                    },
                    Vec::new(),
                );
            },
        };
        if self.phase != Phase::Lobby {
            return (
                JoinResponse {
                    id,
                    can_join: CanJoin::No(GAME_IN_PROGRESS_MSG.to_string()),
                    quiz_name,
                    players: Vec::new(),
                },
                Vec::new(),
            );
        }
        if self.is_nickname_taken(&player_data.nickname) {
            return (
                JoinResponse {
                    id,
                    can_join: CanJoin::No(NAME_TAKEN_MSG.to_string()),
                    quiz_name,
                    players: Vec::new(),
                },
                Vec::new(),
            );
        }
        let ghost o = *self;
        let others = self.everyone_exec();
        proof {
            lemma_index_of_unique(self.waiting_players@, w as int);
        }
        self.waiting_players.remove(w);
        self.joined_players.push(player_data);
        proof {
            assert(player_views(self.joined_players@) =~= player_views(o.joined_players@).push(
                self.joined_players@.last()@,
            ));
            assert(self.joined_players@.subrange(0, o.joined_players.len() as int)
                =~= o.joined_players@);
            assert(ids_of(self.joined_players@) =~= ids_of(o.joined_players@).push(id));
            lemma_remove_ids(o.waiting_players@, w as int);
            lemma_push_ids(ids_of(o.joined_players@), id);
            lemma_joined_answers_bounded(self.results@, self.joined_players@);
            assert forall|x: Id| #[trigger] self.waiting_players@.contains(x) implies !ids_of(
                self.joined_players@,
            ).contains(x) by {
                assert(o.waiting_players@.contains(x));
            }
        }
        let roster = copy_players(&self.joined_players);
        let update = self.players_update();
        let mut actions: Vec<Action> = Vec::new();
        actions.push(Action::Send { to: others, message: update });
        (JoinResponse { id, can_join: CanJoin::Yes, quiz_name, players: roster }, actions)
    }

    /// The teacher closes or opens the lobby to newcomers.
    pub fn set_lock(&mut self, locked: bool)
        requires
            old(self).wf(),
        ensures
            final(self).wf(),
            *final(self) == (Lobby { locked, ..*old(self) }),
    {
        self.locked = locked;
    }

    /// Removes the joined player at position `k`.
    fn remove_joined(&mut self, k: usize) -> (r: NetworkPlayerData)
        requires
            old(self).wf(),
            k < old(self).joined_players.len(),
        ensures
            final(self).wf(),
            r == old(self).joined_players@[k as int],
            departed(*old(self), *final(self), k as int),
    {
        let ghost o = *self;
        let r = self.joined_players.remove(k);
        let id = r.id;
        proof {
            assert(ids_of(self.joined_players@) =~= ids_of(o.joined_players@).remove(k as int));
            assert(ids_of(o.joined_players@)[k as int] == id);
            lemma_remove_ids(ids_of(o.joined_players@), k as int);
        }
        match self.phase {
            Phase::ActiveQuestion(i) => {
                let mut records: Vec<AnswerRecord> = Vec::new();
                std::mem::swap(&mut self.results[i], &mut records);
                let kept = withdraw_answer(records, id);
                self.results.set(i, kept);
                proof {
                    let w = self.results@[i as int]@;
                    lemma_withdraw(o.results@[i as int]@, id);
                    assert forall|p: int| 0 <= p < self.results.len() implies records_wf(
                        #[trigger] self.results@[p]@,
                    ) by {
                        if p != i {
                            assert(self.results@[p] == o.results@[p]);
                        }
                    }
                    assert forall|p: int|
                        self.next_question <= p < self.results.len() implies (
                        #[trigger] self.results@[p]@).len() == 0 by {
                        assert(self.results@[p] == o.results@[p]);
                    }
                    assert forall|m: int| 0 <= m < w.len() implies ids_of(self.joined_players@).contains(
                        #[trigger] w[m].player_id,
                    ) by {
                        let x = w[m].player_id;
                        let j = choose|j: int|
                            0 <= j < o.results@[i as int]@.len() && (#[trigger] o.results@[i as int]@[j]).player_id
                                == x;
                        assert(ids_of(o.joined_players@).contains(o.results@[i as int]@[j].player_id));
                    }
                    lemma_answers_from_bounded(w, ids_of(self.joined_players@));
                    assert forall|q: int|
                        0 <= q < o.results.len() && o.phase != Phase::ActiveQuestion(q as usize) implies #[trigger] self.results@[q]
                            == o.results@[q] by {
                        assert(q != i);
                    }
                }
            },
            _ => {},
        }
        proof {
            lemma_joined_answers_bounded(self.results@, self.joined_players@);
        }
        r
    }

    /// The teacher removes a joined player: it is told so and its
    /// connection closed, and the others and the teacher get the new
    /// roster. Its answer to the live question is withdrawn; its answers
    /// to earlier questions stay.
    pub fn kick_player(&mut self, id: Id) -> (r: Result<Vec<Action>, LobbyError>)
        requires
            old(self).wf(),
        ensures
            final(self).wf(),
            r is Err <==> !old(self).is_joined(id),
            r is Err ==> r == Err::<Vec<Action>, LobbyError>(LobbyError::NotJoined) && *final(self)
                == *old(self),
            r matches Ok(actions) ==> ({
                let o = *old(self);
                let f = *final(self);
                &&& departed(o, f, o.joined_ids().index_of(id))
                &&& actions@.len() == 3
                &&& sends_to(actions@[0], seq![Recipient::Player(id)])
                &&& is_kick_notice(sent(actions@[0]))
                &&& actions@[1] == Action::Close(Recipient::Player(id))
                &&& sends_to(actions@[2], everyone(f.joined_players@))
                &&& is_players_update(sent(actions@[2]), f.joined_players@)
            }),
    {
        let k = match self.find_joined(id) {
            Some(k) => k,
            None => {
                return Err(LobbyError::NotJoined);
            },
        };
        proof {
            assert(self.joined_ids()[k as int] == id);
            lemma_index_of_unique(self.joined_ids(), k as int);
        }
        self.remove_joined(k);
        let mut actions: Vec<Action> = Vec::new();
        let mut to: Vec<Recipient> = Vec::new();
        to.push(Recipient::Player(id));
        actions.push(
            Action::Send {
                to,
                message: ServerNetworkMessage::KickedOut(
                    KickedOutNotice { kick_message: Some(KICKED_MSG.to_string()) },
                ),
            },
        );
        actions.push(Action::Close(Recipient::Player(id)));
        let everyone = self.everyone_exec();
        let update = self.players_update();
        actions.push(Action::Send { to: everyone, message: update });
        proof {
            assert(sends_to(actions@[0], seq![Recipient::Player(id)]));
        }
        Ok(actions)
    }

    /// A student's connection closed. A waiting participant is forgotten;
    /// a joined player leaves the roster, which the others and the
    /// teacher then get. Its answer to the live question is withdrawn,
    /// its answers to earlier questions stay; leaving never ends a
    /// question.
    pub fn disconnect(&mut self, id: Id) -> (r: Vec<Action>)
        requires
            old(self).wf(),
        ensures
            final(self).wf(),
            old(self).is_joined(id) ==> ({
                let o = *old(self);
                let f = *final(self);
                &&& departed(o, f, o.joined_ids().index_of(id))
                &&& r@.len() == 1
                &&& sends_to(r@[0], everyone(f.joined_players@))
                &&& is_players_update(sent(r@[0]), f.joined_players@)
            }),
            old(self).is_waiting(id) ==> ({
                let o = *old(self);
                let f = *final(self);
                &&& f.waiting_players@ == o.waiting_players@.remove(o.waiting_players@.index_of(id))
                &&& f == (Lobby { waiting_players: f.waiting_players, ..o })
                &&& r@.len() == 0
            }),
            !old(self).is_joined(id) && !old(self).is_waiting(id) ==> *final(self) == *old(self)
                && r@.len() == 0,
    {
        let mut actions: Vec<Action> = Vec::new();
        match self.find_joined(id) {
            Some(k) => {
                proof {
                    assert(self.joined_ids()[k as int] == id);
                    lemma_index_of_unique(self.joined_ids(), k as int);
                }
                self.remove_joined(k);
                let everyone = self.everyone_exec();
                let update = self.players_update();
                actions.push(Action::Send { to: everyone, message: update });
                return actions;
            },
            None => {},
        }
        match self.find_waiting(id) {
            Some(w) => {
                let ghost o = *self;
                proof {
                    lemma_index_of_unique(self.waiting_players@, w as int);
                }
                self.waiting_players.remove(w);
                proof {
                    lemma_remove_ids(o.waiting_players@, w as int);
                }
            },
            None => {},
        }
        actions
    }

    /// The teacher's connection closed: every joined player is told, and
    /// the session stops for good.
    pub fn teacher_disconnected(&mut self) -> (r: Vec<Action>)
        requires
            old(self).wf(),
        ensures
            final(self).wf(),
            *final(self) == (Lobby { phase: Phase::TeacherGone, ..*old(self) }),
            r@.len() == 1,
            sends_to(r@[0], players_of(old(self).joined_players@)),
            sent(r@[0]) == ServerNetworkMessage::TeacherDisconnected(TeacherDisconnected {}),
    {
        self.phase = Phase::TeacherGone;
        let to = self.players_exec();
        let mut actions: Vec<Action> = Vec::new();
        actions.push(
            Action::Send {
                to,
                message: ServerNetworkMessage::TeacherDisconnected(TeacherDisconnected {}),
            },
        );
        actions
    }

    /// The teacher ends the quiz, from the lobby or the standings.
    pub fn end_game(&mut self) -> (r: Result<(), LobbyError>)
        requires
            old(self).wf(),
        ensures
            final(self).wf(),
            r is Ok <==> old(self).phase == Phase::Lobby || old(self).phase == Phase::Leaderboard,
            r is Ok ==> *final(self) == (Lobby { phase: Phase::Ended, ..*old(self) }),
            r is Err ==> r == Err::<(), LobbyError>(LobbyError::WrongPhase) && *final(self) == *old(
                self,
            ),
    {
        if self.phase == Phase::Lobby || self.phase == Phase::Leaderboard {
            self.phase = Phase::Ended;
            Ok(())
        } else {
            Err(LobbyError::WrongPhase)
        }
    }
}

} // verus!
