use vstd::prelude::*;

use crate::ids::{contains_id, lemma_remove_ids, Id};
use crate::messages::{
    Action, AnswerSelected, NextQuestion, QuestionEnded, QuestionUpdate, Recipient,
    ServerNetworkMessage, ShowLeaderboard,
};
use crate::questions::{censor, question_words, reading_time, Question, QuestionView};
use crate::scoring::{points, remaining_permille, remaining_share, score};
use crate::session::{
    everyone, has_answered, ids_of, lemma_answers_from_bounded, lemma_joined_answers_bounded,
    records_wf, sends_to,
    sent, AnswerRecord, Lobby, LobbyError, Phase,
};
use crate::standings::{
    answer_of, answer_view, choice_stats, copy_stats, entry_views, find_answer, is_ranking,
    question_stats, stats_view,
};

verus! {

/// Is `x` the id of a right choice of `q`?
pub open spec fn is_right_id(q: QuestionView, x: Id) -> bool {
    exists|j: int| 0 <= j < q.choices.len() && (#[trigger] q.choices[j]).id == x && q.choices[j].is_right
}

/// An answer is fully correct when it chose every right choice and
/// nothing else.
pub open spec fn is_fully_correct(q: QuestionView, selected: Seq<Id>) -> bool {
    &&& forall|i: int| 0 <= i < selected.len() ==> is_right_id(q, #[trigger] selected[i])
    &&& forall|j: int|
        0 <= j < q.choices.len() && (#[trigger] q.choices[j]).is_right ==> selected.contains(
            q.choices[j].id,
        )
}

/// `m` starts question `i` of `count`, showing `q` without its flags.
pub open spec fn is_next_question(m: ServerNetworkMessage, i: int, count: int, q: QuestionView) -> bool {
    match m {
        ServerNetworkMessage::NextQuestion(n) => {
            &&& n.question_index == i
            &&& n.questions_count == count
            &&& n.question@ == censor(q)
            &&& n.show_choices_after == reading_time(question_words(q))
        },
        _ => false,
    }
}

/// `m` says that `answered` players have answered question `i`.
pub open spec fn is_question_update(m: ServerNetworkMessage, i: int, answered: int) -> bool {
    m == ServerNetworkMessage::QuestionUpdate(
        QuestionUpdate { question_index: i as usize, players_answered_count: answered as usize },
    )
}

/// `m` ends question `i`: it reveals `q` with its flags, gives the
/// recipient's own `answer`, and the counts of each choice.
pub open spec fn is_question_ended(
    m: ServerNetworkMessage,
    i: int,
    q: QuestionView,
    records: Seq<AnswerRecord>,
    answer: Option<Seq<Id>>,
) -> bool {
    match m {
        ServerNetworkMessage::QuestionEnded(e) => {
            &&& e.question_index == i
            &&& e.question@ == q
            &&& answer_view(e.player_answer) == answer
            &&& stats_view(e.stats@) == question_stats(q, records)
        },
        _ => false,
    }
}

/// `m` shows the standings of `s`, saying whether it was the last round.
pub open spec fn is_leaderboard(m: ServerNetworkMessage, s: Lobby, final_round: bool) -> bool {
    match m {
        ServerNetworkMessage::ShowLeaderboard(l) => {
            &&& l.was_final_round == final_round
            &&& is_ranking(s.joined_players@, s.answers(), entry_views(l.players@))
        },
        _ => false,
    }
}

/// What ending question `i` tells, in order: each joined player the
/// full question with its own answer; the teacher the same with no
/// answer; then everyone the standings.
pub open spec fn question_end_actions(s: Lobby, i: int, actions: Seq<Action>) -> bool {
    let n = s.joined_players.len() as int;
    let q = s.questions@[i]@;
    let records = s.results@[i]@;
    &&& actions.len() == n + 2
    &&& forall|k: int|
        0 <= k < n ==> sends_to(
            #[trigger] actions[k],
            seq![Recipient::Player(s.joined_players@[k].id)],
        ) && is_question_ended(
            sent(actions[k]),
            i,
            q,
            records,
            answer_of(records, s.joined_players@[k].id),
        )
    &&& sends_to(actions[n], seq![Recipient::Teacher])
    &&& is_question_ended(sent(actions[n]), i, q, records, None)
    &&& sends_to(actions[n + 1], everyone(s.joined_players@))
    &&& is_leaderboard(sent(actions[n + 1]), s, i + 1 == s.questions.len())
}

/// The teacher may start a question: the session is in the lobby or
/// shows the standings.
pub open spec fn can_start(s: Lobby) -> bool {
    s.phase == Phase::Lobby || s.phase == Phase::Leaderboard
}

/// `f` is `o` with its next question live since `now`, and `actions`
/// hand that question, without its flags, to everyone.
pub open spec fn question_started(o: Lobby, f: Lobby, now: i64, actions: Seq<Action>) -> bool {
    let i = o.next_question;
    &&& i < o.questions.len()
    &&& f == (Lobby {
        phase: Phase::ActiveQuestion(i),
        next_question: (i + 1) as usize,
        question_started_at: now,
        ..o
    })
    &&& actions.len() == 1
    &&& sends_to(actions[0], everyone(o.joined_players@))
    &&& is_next_question(sent(actions[0]), i as int, o.questions.len() as int, o.questions@[i as int]@)
}

/// An answer to question `qi` by `id` would be taken.
pub open spec fn accepts_answer(s: Lobby, id: Id, qi: usize) -> bool {
    &&& s.is_joined(id)
    &&& s.phase == Phase::ActiveQuestion(qi)
    &&& !has_answered(s.results@[qi as int]@, id)
}

/// `f` is `o` with one more answer to question `qi`: by `id`, choosing
/// `selected`, at `now`, ranked after those before it and scored.
pub open spec fn answer_recorded(
    o: Lobby,
    f: Lobby,
    id: Id,
    qi: int,
    selected: Seq<Id>,
    now: i64,
) -> bool {
    let n = o.results@[qi]@.len();
    let rec = f.results@[qi]@[n as int];
    let q = o.questions@[qi]@;
    &&& f.results@.len() == o.results@.len()
    &&& f.results@[qi]@.len() == n + 1
    &&& f.results@[qi]@.subrange(0, n as int) == o.results@[qi]@
    &&& rec.player_id == id
    &&& rec.answer_order == n + 1
    &&& rec.timestamp == now
    &&& rec.selected_answers@ == selected
    &&& rec.points_awarded == points(
        is_fully_correct(q, selected),
        n + 1,
        o.joined_players.len() as nat,
        remaining_share(o.question_started_at as int, now as int, q.time_seconds as nat),
    )
    &&& forall|p: int| 0 <= p < f.results.len() && p != qi ==> #[trigger] f.results@[p] == o.results@[p]
    &&& f.questions == o.questions
    &&& f.quiz_name == o.quiz_name
    &&& f.next_question == o.next_question
    &&& f.question_started_at == o.question_started_at
    &&& f.locked == o.locked
    &&& f.waiting_players == o.waiting_players
    &&& f.joined_players == o.joined_players
}

/// However many answers a session has taken, no player has two answers
/// to one question, the answers to a question are numbered 1, 2, ...
/// in the order they came, and the live question has no more answers
/// than there are joined players.
pub proof fn lemma_answers_once_in_order(s: Lobby, q: int)
    requires
        s.wf(),
        0 <= q < s.results.len(),
    ensures
        s.phase == Phase::ActiveQuestion(q as usize) ==> s.results@[q]@.len()
            <= s.joined_players.len(),
        forall|a: int, b: int|
            0 <= a < b < s.results@[q]@.len() ==> (#[trigger] s.results@[q]@[a]).player_id != (
            #[trigger] s.results@[q]@[b]).player_id,
        forall|k: int|
            0 <= k < s.results@[q]@.len() ==> (#[trigger] s.results@[q]@[k]).answer_order == k + 1,
{
    assert(records_wf(s.results@[q]@));
}

/// Once a player's answer to a question is taken, the same answer sent
/// again is not: the player has answered, so it is refused and changes
/// nothing.
pub proof fn lemma_answer_taken_once(
    o: Lobby,
    f: Lobby,
    id: Id,
    qi: usize,
    selected: Seq<Id>,
    now: i64,
)
    requires
        o.wf(),
        accepts_answer(o, id, qi),
        answer_recorded(o, f, id, qi as int, selected, now),
    ensures
        has_answered(f.results@[qi as int]@, id),
        !accepts_answer(f, id, qi),
{
    let n = o.results@[qi as int]@.len() as int;
    assert(f.results@[qi as int]@[n].player_id == id);
}

/// Once the teacher has left, no answer is taken and no question starts.
pub proof fn lemma_teacher_gone_is_terminal(s: Lobby)
    requires
        s.phase == Phase::TeacherGone,
    ensures
        forall|id: Id, qi: usize| !accepts_answer(s, id, qi),
        !(s.phase == Phase::Lobby || s.phase == Phase::Leaderboard),
{
}

/// What follows a taken answer to question `qi`: once every joined
/// player has answered it, the question ends and everyone is told how it
/// went; before that, everyone learns how many have answered. Only
/// joined players' answers are in the live question.
pub open spec fn answer_outcome(o: Lobby, f: Lobby, qi: int, actions: Seq<Action>) -> bool {
    let answered = f.results@[qi]@.len();
    if answered == o.joined_players.len() {
        &&& f.phase == Phase::Leaderboard
        &&& question_end_actions(f, qi, actions)
    } else {
        &&& f.phase == o.phase
        &&& actions.len() == 1
        &&& sends_to(actions[0], everyone(o.joined_players@))
        &&& is_question_update(sent(actions[0]), qi, answered as int)
    }
}

/// Relies on `chrono::Utc::now` for the current time, read as
/// milliseconds since the Unix epoch with `timestamp_millis`.
#[verifier::external_body]
fn now_millis() -> (r: i64) {
    chrono::Utc::now().timestamp_millis()
}

/// Is `x` the id of a right choice of `q`?
fn is_right_choice(q: &Question, x: Id) -> (r: bool)
    ensures
        r == is_right_id(q@, x),
{
    let mut j: usize = 0;
    while j < q.choices.len()
        invariant
            j <= q.choices.len(),
            forall|k: int| 0 <= k < j ==> !((#[trigger] q@.choices[k]).id == x && q@.choices[k].is_right),
        decreases q.choices.len() - j,
    {
        if q.choices[j].id == x && q.choices[j].is_right {
            assert(q@.choices[j as int].id == x);
            return true;
        }
        j += 1;
    }
    false
}

/// Did `selected` choose every right choice of `q` and nothing else?
pub fn check_answer(q: &Question, selected: &Vec<Id>) -> (r: bool)
    ensures
        r == is_fully_correct(q@, selected@),
{
    let mut i: usize = 0;
    while i < selected.len()
        invariant
            i <= selected.len(),
            forall|k: int| 0 <= k < i ==> is_right_id(q@, #[trigger] selected@[k]),
        decreases selected.len() - i,
    {
        if !is_right_choice(q, selected[i]) {
            return false;
        }
        i += 1;
    }
    let mut j: usize = 0;
    while j < q.choices.len()
        invariant
            j <= q.choices.len(),
            forall|k: int|
                0 <= k < j && (#[trigger] q@.choices[k]).is_right ==> selected@.contains(
                    q@.choices[k].id,
                ),
        decreases q.choices.len() - j,
    {
        if q.choices[j].is_right && !contains_id(selected, q.choices[j].id) {
            assert(q@.choices[j as int].is_right);
            return false;
        }
        j += 1;
    }
    true
}

impl Lobby {
    /// The teacher starts the next question, from the lobby or the
    /// standings: it goes live at `now` and everyone gets it without its
    /// flags, with the time to read it. From any other phase it is
    /// refused and nothing changes. When every question has been asked,
    /// it is refused and the quiz ends.
    pub fn start_question_at(&mut self, now: i64) -> (r: Result<Vec<Action>, LobbyError>)
        requires
            old(self).wf(),
        ensures
            final(self).wf(),
            r is Ok <==> can_start(*old(self)) && old(self).next_question < old(self).questions.len(),
            !can_start(*old(self)) ==> r == Err::<Vec<Action>, LobbyError>(LobbyError::WrongPhase)
                && *final(self) == *old(self),
            can_start(*old(self)) && old(self).next_question >= old(self).questions.len() ==> r
                == Err::<Vec<Action>, LobbyError>(LobbyError::NoMoreQuestions) && *final(self) == (
            Lobby { phase: Phase::Ended, ..*old(self) }),
            r matches Ok(actions) ==> question_started(*old(self), *final(self), now, actions@),
    {
        if !(self.phase == Phase::Lobby || self.phase == Phase::Leaderboard) {
            return Err(LobbyError::WrongPhase);
        }
        if self.next_question >= self.questions.len() {
            self.phase = Phase::Ended;
            return Err(LobbyError::NoMoreQuestions);
        }
        let i = self.next_question;
        let censored = self.questions[i].censored();
        let show_choices_after = self.questions[i].get_reading_time_estimate();
        let message = ServerNetworkMessage::NextQuestion(
            NextQuestion {
                question_index: i,
                questions_count: self.questions.len(),
                question: censored,
                show_choices_after,
            },
        );
        let to = self.everyone_exec();
        self.phase = Phase::ActiveQuestion(i);
        self.next_question = i + 1;
        self.question_started_at = now;
        let mut actions: Vec<Action> = Vec::new();
        actions.push(Action::Send { to, message });
        Ok(actions)
    }

    /// `start_question_at`, now.
    pub fn start_question(&mut self) -> (r: Result<Vec<Action>, LobbyError>)
        requires
            old(self).wf(),
        ensures
            final(self).wf(),
            r is Ok <==> can_start(*old(self)) && old(self).next_question < old(self).questions.len(),
            !can_start(*old(self)) ==> r == Err::<Vec<Action>, LobbyError>(LobbyError::WrongPhase)
                && *final(self) == *old(self),
            can_start(*old(self)) && old(self).next_question >= old(self).questions.len() ==> r
                == Err::<Vec<Action>, LobbyError>(LobbyError::NoMoreQuestions) && *final(self) == (
            Lobby { phase: Phase::Ended, ..*old(self) }),
            r matches Ok(actions) ==> question_started(
                *old(self),
                *final(self),
                final(self).question_started_at,
                actions@,
            ),
    {
        let now = now_millis();
        self.start_question_at(now)
    }

    /// Ends question `i`: the session moves to the standings and everyone
    /// is told how the question went.
    fn finish_question(&mut self, i: usize) -> (r: Vec<Action>)
        requires
            old(self).wf(),
            old(self).phase == Phase::ActiveQuestion(i),
        ensures
            final(self).wf(),
            *final(self) == (Lobby { phase: Phase::Leaderboard, ..*old(self) }),
            question_end_actions(*final(self), i as int, r@),
    {
        self.phase = Phase::Leaderboard;
        let stats = choice_stats(&self.questions[i], &self.results[i]);
        let ghost q = self.questions@[i as int]@;
        let ghost records = self.results@[i as int]@;
        let mut actions: Vec<Action> = Vec::new();
        let mut k: usize = 0;
        while k < self.joined_players.len()
            invariant
                self.wf(),
                self.phase == Phase::Leaderboard,
                i < self.questions.len(),
                q == self.questions@[i as int]@,
                records == self.results@[i as int]@,
                stats_view(stats@) == question_stats(q, records),
                k <= self.joined_players.len(),
                actions@.len() == k,
                forall|m: int|
                    0 <= m < k ==> sends_to(
                        #[trigger] actions@[m],
                        seq![Recipient::Player(self.joined_players@[m].id)],
                    ) && is_question_ended(
                        sent(actions@[m]),
                        i as int,
                        q,
                        records,
                        answer_of(records, self.joined_players@[m].id),
                    ),
            decreases self.joined_players.len() - k,
        {
            let id = self.joined_players[k].id;
            let mut to: Vec<Recipient> = Vec::new();
            to.push(Recipient::Player(id));
            let message = ServerNetworkMessage::QuestionEnded(
                QuestionEnded {
                    question_index: i,
                    question: self.questions[i].clone(),
                    player_answer: find_answer(&self.results[i], id),
                    stats: copy_stats(&stats),
                },
            );
            actions.push(Action::Send { to, message });
            proof {
                assert(sends_to(actions@[k as int], seq![Recipient::Player(id)]));
            }
            k += 1;
        }
        let mut to: Vec<Recipient> = Vec::new();
        to.push(Recipient::Teacher);
        let message = ServerNetworkMessage::QuestionEnded(
            QuestionEnded {
                question_index: i,
                question: self.questions[i].clone(),
                player_answer: None,
                stats: copy_stats(&stats),
            },
        );
        actions.push(Action::Send { to, message });
        proof {
            assert(sends_to(actions@[k as int], seq![Recipient::Teacher]));
        }
        let players = self.ranking();
        let everyone = self.everyone_exec();
        let was_final_round = i + 1 == self.questions.len();
        actions.push(
            Action::Send {
                to: everyone,
                message: ServerNetworkMessage::ShowLeaderboard(ShowLeaderboard { players, was_final_round }),
            },
        );
        actions
    }

    /// The teacher, or the question's timer, ends question `index`. A
    /// question that is not live (already over, or never asked) is
    /// refused, and nothing changes.
    pub fn end_question(&mut self, index: usize) -> (r: Result<Vec<Action>, LobbyError>)
        requires
            old(self).wf(),
        ensures
            final(self).wf(),
            r is Err <==> old(self).phase != Phase::ActiveQuestion(index),
            r is Err ==> r == Err::<Vec<Action>, LobbyError>(LobbyError::WrongPhase) && *final(self)
                == *old(self),
            r matches Ok(actions) ==> *final(self) == (Lobby { phase: Phase::Leaderboard, ..*old(self) })
                && question_end_actions(*final(self), index as int, actions@),
    {
        if self.phase != Phase::ActiveQuestion(index) {
            return Err(LobbyError::WrongPhase);
        }
        Ok(self.finish_question(index))
    }

    /// A player answers the live question at `now`. It is refused if the
    /// player has not joined, then if the question is not the live one,
    /// then if the player already answered it; nothing changes then.
    /// Otherwise the answer is ranked after those before it and scored.
    /// When every joined player has answered, the question ends at once;
    /// else everyone learns how many have answered.
    pub fn answer_selected_at(&mut self, msg: AnswerSelected, now: i64) -> (r: Result<
        Vec<Action>,
        LobbyError,
    >)
        requires
            old(self).wf(),
        ensures
            final(self).wf(),
            !old(self).is_joined(msg.player_id) ==> r == Err::<Vec<Action>, LobbyError>(
                LobbyError::NotJoined,
            ),
            old(self).is_joined(msg.player_id) && old(self).phase != Phase::ActiveQuestion(
                msg.question_index,
            ) ==> r == Err::<Vec<Action>, LobbyError>(LobbyError::WrongPhase),
            old(self).is_joined(msg.player_id) && old(self).phase == Phase::ActiveQuestion(
                msg.question_index,
            ) && has_answered(old(self).results@[msg.question_index as int]@, msg.player_id) ==> r
                == Err::<Vec<Action>, LobbyError>(LobbyError::AlreadyAnswered),
            r is Err ==> *final(self) == *old(self),
            r is Ok <==> accepts_answer(*old(self), msg.player_id, msg.question_index),
            r matches Ok(actions) ==> answer_recorded(
                *old(self),
                *final(self),
                msg.player_id,
                msg.question_index as int,
                msg.answers@,
                now,
            ),
            r matches Ok(actions) ==> answer_outcome(
                *old(self),
                *final(self),
                msg.question_index as int,
                actions@,
            ),
    {
        let id = msg.player_id;
        let qi = msg.question_index;
        if self.find_joined(id).is_none() {
            return Err(LobbyError::NotJoined);
        }
        if self.phase != Phase::ActiveQuestion(qi) {
            return Err(LobbyError::WrongPhase);
        }
        let ghost start = *self;
        let mut k: usize = 0;
        while k < self.results[qi].len()
            invariant
                *self == start,
                start == *old(self),
                id == msg.player_id,
                qi == msg.question_index,
                start.is_joined(id),
                start.phase == Phase::ActiveQuestion(qi),
                self.wf(),
                qi < self.results.len(),
                k <= self.results@[qi as int]@.len(),
                forall|m: int| 0 <= m < k ==> (#[trigger] self.results@[qi as int]@[m]).player_id != id,
            decreases self.results@[qi as int]@.len() - k,
        {
            if self.results[qi][k].player_id == id {
                assert(has_answered(self.results@[qi as int]@, id));
                return Err(LobbyError::AlreadyAnswered);
            }
            k += 1;
        }
        let ghost o = *self;
        let n = self.results[qi].len();
        proof {
            // The earlier answers are all by other joined players: fewer
            // than there are joined players.
            let ids = ids_of(o.joined_players@);
            let j = ids.index_of(id);
            assert(ids.contains(id));
            let others = ids.remove(j);
            lemma_remove_ids(ids, j);
            assert forall|m: int| 0 <= m < n implies others.contains(
                #[trigger] o.results@[qi as int]@[m].player_id,
            ) by {
                assert(ids.contains(o.results@[qi as int]@[m].player_id));
            }
            lemma_answers_from_bounded(o.results@[qi as int]@, others);
        }
        let correct = check_answer(&self.questions[qi], &msg.answers);
        let remaining = remaining_permille(
            self.question_started_at,
            now,
            self.questions[qi].time_seconds,
        );
        let points = score(correct, n + 1, self.joined_players.len(), remaining);
        let record = AnswerRecord {
            player_id: id,
            answer_order: n + 1,
            timestamp: now,
            selected_answers: msg.answers,
            points_awarded: points,
        };
        self.results[qi].push(record);
        proof {
            let before = o.results@[qi as int]@;
            let after = self.results@[qi as int]@;
            assert(after.subrange(0, n as int) =~= before);
            assert(records_wf(after)) by {
                assert forall|a: int, b: int| 0 <= a < b < after.len() implies (#[trigger] after[a]).player_id
                    != (#[trigger] after[b]).player_id by {
                    if b == n {
                        assert(after[a] == before[a]);
                    } else {
                        assert(after[a] == before[a] && after[b] == before[b]);
                    }
                }
                assert forall|m: int| 0 <= m < after.len() implies (#[trigger] after[m]).answer_order
                    == m + 1 && after[m].points_awarded <= crate::scoring::MAX_POINTS by {
                    if m < n {
                        assert(after[m] == before[m]);
                    }
                }
            }
            assert forall|p: int| 0 <= p < self.results.len() implies records_wf(
                #[trigger] self.results@[p]@,
            ) by {
                if p != qi {
                    assert(self.results@[p] == o.results@[p]);
                }
            }
            assert forall|p: int|
                self.next_question <= p < self.results.len() implies (
                #[trigger] self.results@[p]@).len() == 0 by {
                assert(p != qi);
                assert(self.results@[p] == o.results@[p]);
            }
            lemma_joined_answers_bounded(self.results@, self.joined_players@);
            assert forall|m: int| 0 <= m < after.len() implies ids_of(self.joined_players@).contains(
                #[trigger] after[m].player_id,
            ) by {
                if m < n {
                    assert(after[m] == before[m]);
                }
            }
        }
        let answered = n + 1;
        if answered == self.joined_players.len() {
            return Ok(self.finish_question(qi));
        }
        let mut actions: Vec<Action> = Vec::new();
        let to = self.everyone_exec();
        actions.push(
            Action::Send {
                to,
                message: ServerNetworkMessage::QuestionUpdate(
                    QuestionUpdate { question_index: qi, players_answered_count: answered },
                ),
            },
        );
        Ok(actions)
    }

    /// `answer_selected_at`, now.
    pub fn answer_selected(&mut self, msg: AnswerSelected) -> (r: Result<Vec<Action>, LobbyError>)
        requires
            old(self).wf(),
        ensures
            final(self).wf(),
            !old(self).is_joined(msg.player_id) ==> r == Err::<Vec<Action>, LobbyError>(
                LobbyError::NotJoined,
            ),
            old(self).is_joined(msg.player_id) && old(self).phase != Phase::ActiveQuestion(
                msg.question_index,
            ) ==> r == Err::<Vec<Action>, LobbyError>(LobbyError::WrongPhase),
            old(self).is_joined(msg.player_id) && old(self).phase == Phase::ActiveQuestion(
                msg.question_index,
            ) && has_answered(old(self).results@[msg.question_index as int]@, msg.player_id) ==> r
                == Err::<Vec<Action>, LobbyError>(LobbyError::AlreadyAnswered),
            r is Err ==> *final(self) == *old(self),
            r is Ok <==> accepts_answer(*old(self), msg.player_id, msg.question_index),
            r matches Ok(actions) ==> ({
                let f = *final(self);
                let qi = msg.question_index as int;
                answer_recorded(*old(self), f, msg.player_id, qi, msg.answers@, f.results@[qi]@.last().timestamp)
            }),
            r matches Ok(actions) ==> answer_outcome(
                *old(self),
                *final(self),
                msg.question_index as int,
                actions@,
            ),
    {
        let now = now_millis();
        self.answer_selected_at(msg, now)
    }
}

} // verus!
