use vstd::prelude::*;

use crate::ids::{copy_ids, contains_id, Id};
use crate::messages::{ChoiceStats, NetworkPlayerData, PlayerView};
use crate::questions::{ChoiceView, Question, QuestionView};
use crate::scoring::MAX_POINTS;
use crate::session::{has_answered, ids_of, records_wf, AnswerRecord, Lobby};

verus! {

/// The points that player `id` earned among the answers `records`.
pub open spec fn points_of(records: Seq<AnswerRecord>, id: Id) -> nat
    decreases records.len(),
{
    if records.len() == 0 {
        0
    } else {
        points_of(records.drop_last(), id) + if records.last().player_id == id {
            records.last().points_awarded as nat
        } else {
            0nat
        }
    }
}

/// The score of player `id`: its points over all questions.
pub open spec fn total_score(results: Seq<Seq<AnswerRecord>>, id: Id) -> nat
    decreases results.len(),
{
    if results.len() == 0 {
        0
    } else {
        total_score(results.drop_last(), id) + points_of(results.last(), id)
    }
}

/// What player `id` answered among `records`, if it did.
pub open spec fn answer_of(records: Seq<AnswerRecord>, id: Id) -> Option<Seq<Id>>
    decreases records.len(),
{
    if records.len() == 0 {
        None
    } else if records.last().player_id == id {
        Some(records.last().selected_answers@)
    } else {
        answer_of(records.drop_last(), id)
    }
}

/// How many of the answers `records` chose the choice `c`.
pub open spec fn chosen_count(records: Seq<AnswerRecord>, c: Id) -> nat
    decreases records.len(),
{
    if records.len() == 0 {
        0
    } else {
        chosen_count(records.drop_last(), c) + if records.last().selected_answers@.contains(c) {
            1nat
        } else {
            0nat
        }
    }
}

/// For each choice of `q`, in order, its id and how many answers chose it.
pub open spec fn question_stats(q: QuestionView, records: Seq<AnswerRecord>) -> Seq<(Id, nat)> {
    q.choices.map_values(|c: ChoiceView| (c.id, chosen_count(records, c.id)))
}

pub open spec fn stats_view(s: Seq<(Id, ChoiceStats)>) -> Seq<(Id, nat)> {
    s.map_values(|e: (Id, ChoiceStats)| (e.0, e.1.players_answered_count as nat))
}

pub open spec fn answer_view(a: Option<Vec<Id>>) -> Option<Seq<Id>> {
    match a {
        Some(v) => Some(v@),
        None => None,
    }
}

/// A player with its score.
pub open spec fn standing(p: NetworkPlayerData, results: Seq<Seq<AnswerRecord>>) -> (PlayerView, nat) {
    (p@, total_score(results, p.id))
}

pub open spec fn entry_views(s: Seq<(NetworkPlayerData, u128)>) -> Seq<(PlayerView, nat)> {
    s.map_values(|e: (NetworkPlayerData, u128)| (e.0@, e.1 as nat))
}

/// `a` stands above `b`: more points, or as many and a smaller id.
pub open spec fn ranks_before(a: (PlayerView, nat), b: (PlayerView, nat)) -> bool {
    a.1 > b.1 || (a.1 == b.1 && a.0.id < b.0.id)
}

/// `entries` holds each of `players` once, with its score, best first.
pub open spec fn is_ranking(
    players: Seq<NetworkPlayerData>,
    results: Seq<Seq<AnswerRecord>>,
    entries: Seq<(PlayerView, nat)>,
) -> bool {
    &&& entries.len() == players.len()
    &&& forall|m: int|
        0 <= m < entries.len() ==> standings(players, results).contains(#[trigger] entries[m])
    &&& forall|k: int|
        0 <= k < players.len() ==> entries.contains(#[trigger] standing(players[k], results))
    &&& forall|a: int, b: int|
        0 <= a < b < entries.len() ==> ranks_before(#[trigger] entries[a], #[trigger] entries[b])
}

/// The standing of each player, in the players' order.
pub open spec fn standings(players: Seq<NetworkPlayerData>, results: Seq<Seq<AnswerRecord>>) -> Seq<
    (PlayerView, nat),
> {
    players.map_values(|p: NetworkPlayerData| standing(p, results))
}

/// `entries` holds each of the first `k` of `st` once, best first.
#[verifier::opaque]
pub open spec fn is_partial_ranking(
    st: Seq<(PlayerView, nat)>,
    entries: Seq<(PlayerView, nat)>,
    k: int,
) -> bool {
    &&& entries.len() == k
    &&& forall|m: int|
        0 <= m < k ==> exists|j: int| 0 <= j < k && #[trigger] entries[m] == st[j]
    &&& forall|j: int|
        0 <= j < k ==> exists|m: int| 0 <= m < k && entries[m] == #[trigger] st[j]
    &&& forall|a: int, b: int|
        0 <= a < b < k ==> ranks_before(#[trigger] entries[a], #[trigger] entries[b])
}

proof fn lemma_insert_keeps_order(before: Seq<(PlayerView, nat)>, x: (PlayerView, nat), pos: int)
    requires
        0 <= pos <= before.len(),
        forall|a: int, b: int|
            0 <= a < b < before.len() ==> ranks_before(#[trigger] before[a], #[trigger] before[b]),
        forall|m: int| 0 <= m < pos ==> ranks_before(#[trigger] before[m], x),
        pos < before.len() ==> ranks_before(x, before[pos]),
    ensures
        forall|a: int, b: int|
            0 <= a < b < before.len() + 1 ==> ranks_before(
                #[trigger] before.insert(pos, x)[a],
                #[trigger] before.insert(pos, x)[b],
            ),
{
    let after = before.insert(pos, x);
    assert forall|a: int, b: int| 0 <= a < b < before.len() + 1 implies ranks_before(
        #[trigger] after[a],
        #[trigger] after[b],
    ) by {
        if b < pos {
            assert(ranks_before(before[a], before[b]));
        } else if b == pos {
            assert(ranks_before(before[a], x));
        } else if a < pos {
            assert(ranks_before(before[a], before[b - 1]));
        } else if a == pos {
            if b - 1 > pos {
                assert(ranks_before(before[pos], before[b - 1]));
            }
        } else {
            assert(ranks_before(before[a - 1], before[b - 1]));
        }
    }
}

/// Putting the next standing at the first place where it ranks above
/// what follows keeps a ranking.
proof fn lemma_insert_standing(st: Seq<(PlayerView, nat)>, before: Seq<(PlayerView, nat)>, k: int, pos: int)
    requires
        0 <= k < st.len(),
        0 <= pos <= k,
        forall|a: int, b: int| 0 <= a < st.len() && 0 <= b < st.len() && a != b ==> (#[trigger] st[a]).0.id != (#[trigger] st[b]).0.id,
        is_partial_ranking(st, before, k),
        forall|m: int| 0 <= m < pos ==> !ranks_before(st[k], #[trigger] before[m]),
        pos < k ==> ranks_before(st[k], before[pos]),
    ensures
        is_partial_ranking(st, before.insert(pos, st[k]), k + 1),
{
    reveal(is_partial_ranking);
    let x = st[k];
    let after = before.insert(pos, x);
    assert forall|m: int| 0 <= m < pos implies ranks_before(#[trigger] before[m], x) by {
        let j = choose|j: int| 0 <= j < k && #[trigger] before[m] == st[j];
        assert(st[j].0.id != st[k].0.id);
    }
    lemma_insert_keeps_order(before, x, pos);
    assert forall|m: int| 0 <= m < k + 1 implies exists|j: int|
        0 <= j < k + 1 && #[trigger] after[m] == st[j] by {
        if m < pos {
            assert(after[m] == before[m]);
        } else if m == pos {
            assert(after[m] == st[k]);
        } else {
            assert(after[m] == before[m - 1]);
        }
    }
    assert forall|j: int| 0 <= j < k + 1 implies exists|m: int|
        0 <= m < k + 1 && after[m] == #[trigger] st[j] by {
        if j == k {
            assert(after[pos] == st[j]);
        } else {
            let m0 = choose|m: int| 0 <= m < k && before[m] == #[trigger] st[j];
            if m0 < pos {
                assert(after[m0] == st[j]);
            } else {
                assert(after[m0 + 1] == st[j]);
            }
        }
    }
}

proof fn lemma_records_prefix(records: Seq<AnswerRecord>, i: int)
    requires
        records_wf(records),
        0 <= i <= records.len(),
    ensures
        records_wf(records.subrange(0, i)),
{
}

/// With at most one answer per player, a player earns at most the most
/// points on one question, and nothing where it gave no answer.
pub proof fn lemma_points_of_bound(records: Seq<AnswerRecord>, id: Id)
    requires
        records_wf(records),
    ensures
        points_of(records, id) <= MAX_POINTS,
        !has_answered(records, id) ==> points_of(records, id) == 0,
    decreases records.len(),
{
    if records.len() > 0 {
        let init = records.drop_last();
        assert(init =~= records.subrange(0, records.len() - 1));
        lemma_records_prefix(records, records.len() - 1);
        lemma_points_of_bound(init, id);
        let n = records.len() - 1;
        // An earlier answer by `id` would share its id with the last one,
        // or would be an answer of `id` among all of them.
        if has_answered(init, id) {
            let k = choose|k: int| 0 <= k < init.len() && (#[trigger] init[k]).player_id == id;
            assert(records[k].player_id == id);
            assert(records[n].player_id != id);
        }
    }
}

/// The points of player `id` among `records`.
pub fn player_points(records: &Vec<AnswerRecord>, id: Id) -> (r: u32)
    requires
        records_wf(records@),
    ensures
        r == points_of(records@, id),
{
    let mut sum: u32 = 0;
    let mut i: usize = 0;
    while i < records.len()
        invariant
            i <= records.len(),
            records_wf(records@),
            sum == points_of(records@.subrange(0, i as int), id),
        decreases records.len() - i,
    {
        proof {
            let next = records@.subrange(0, i + 1);
            assert(next.drop_last() =~= records@.subrange(0, i as int));
            lemma_records_prefix(records@, i + 1);
            lemma_points_of_bound(next, id);
        }
        if records[i].player_id == id {
            sum = sum + records[i].points_awarded;
        }
        i += 1;
    }
    assert(records@.subrange(0, records.len() as int) =~= records@);
    sum
}

/// What player `id` answered among `records`, if it did.
pub fn find_answer(records: &Vec<AnswerRecord>, id: Id) -> (r: Option<Vec<Id>>)
    ensures
        answer_view(r) == answer_of(records@, id),
{
    let mut found: Option<Vec<Id>> = None;
    let mut i: usize = 0;
    while i < records.len()
        invariant
            i <= records.len(),
            answer_view(found) == answer_of(records@.subrange(0, i as int), id),
        decreases records.len() - i,
    {
        proof {
            assert(records@.subrange(0, i + 1).drop_last() =~= records@.subrange(0, i as int));
        }
        if records[i].player_id == id {
            found = Some(copy_ids(&records[i].selected_answers));
        }
        i += 1;
    }
    assert(records@.subrange(0, records.len() as int) =~= records@);
    found
}

proof fn lemma_chosen_count_bound(records: Seq<AnswerRecord>, c: Id)
    ensures
        chosen_count(records, c) <= records.len(),
    decreases records.len(),
{
    if records.len() > 0 {
        lemma_chosen_count_bound(records.drop_last(), c);
    }
}

/// How many of `records` chose the choice `c`.
pub fn count_chosen(records: &Vec<AnswerRecord>, c: Id) -> (r: usize)
    ensures
        r == chosen_count(records@, c),
{
    let mut count: usize = 0;
    let mut i: usize = 0;
    while i < records.len()
        invariant
            i <= records.len(),
            count == chosen_count(records@.subrange(0, i as int), c),
        decreases records.len() - i,
    {
        proof {
            let next = records@.subrange(0, i + 1);
            assert(next.drop_last() =~= records@.subrange(0, i as int));
            lemma_chosen_count_bound(next, c);
        }
        if contains_id(&records[i].selected_answers, c) {
            count = count + 1;
        }
        i += 1;
    }
    assert(records@.subrange(0, records.len() as int) =~= records@);
    count
}

/// For each choice of `q`, how many of `records` chose it.
pub fn choice_stats(q: &Question, records: &Vec<AnswerRecord>) -> (r: Vec<(Id, ChoiceStats)>)
    ensures
        stats_view(r@) == question_stats(q@, records@),
{
    let mut r: Vec<(Id, ChoiceStats)> = Vec::new();
    let mut j: usize = 0;
    while j < q.choices.len()
        invariant
            j <= q.choices.len(),
            r@.len() == j,
            forall|k: int|
                0 <= k < j ==> (#[trigger] r@[k]).0 == q.choices@[k].id && r@[k].1.players_answered_count
                    == chosen_count(records@, q.choices@[k].id),
        decreases q.choices.len() - j,
    {
        let c = q.choices[j].id;
        let n = count_chosen(records, c);
        r.push((c, ChoiceStats { players_answered_count: n }));
        j += 1;
    }
    assert forall|k: int| 0 <= k < r@.len() implies #[trigger] stats_view(r@)[k] == question_stats(
        q@,
        records@,
    )[k] by {
        assert(r@[k].0 == q.choices@[k].id);
    }
    assert(stats_view(r@) =~= question_stats(q@, records@));
    r
}

/// A copy of a list of choice counts.
pub fn copy_stats(v: &Vec<(Id, ChoiceStats)>) -> (r: Vec<(Id, ChoiceStats)>)
    ensures
        r@ == v@,
{
    let mut r: Vec<(Id, ChoiceStats)> = Vec::new();
    let mut i: usize = 0;
    while i < v.len()
        invariant
            i <= v.len(),
            r@ == v@.subrange(0, i as int),
        decreases v.len() - i,
    {
        r.push(v[i]);
        i += 1;
        assert(r@ =~= v@.subrange(0, i as int));
    }
    assert(v@.subrange(0, v.len() as int) =~= v@);
    r
}

impl Lobby {
    /// The score of player `id` over all questions.
    pub fn total_score_of(&self, id: Id) -> (r: u128)
        requires
            self.wf(),
        ensures
            r == total_score(self.answers(), id),
    {
        let ghost all = self.answers();
        let mut total: u128 = 0;
        let mut q: usize = 0;
        while q < self.results.len()
            invariant
                q <= self.results.len(),
                self.wf(),
                all == self.answers(),
                total == total_score(all.subrange(0, q as int), id),
                total <= MAX_POINTS * q,
            decreases self.results.len() - q,
        {
            let p = player_points(&self.results[q], id);
            proof {
                let next = all.subrange(0, q + 1);
                assert(next.drop_last() =~= all.subrange(0, q as int));
                assert(next.last() == self.results@[q as int]@);
                lemma_points_of_bound(self.results@[q as int]@, id);
            }
            total = total + p as u128;
            q += 1;
        }
        assert(all.subrange(0, self.results.len() as int) =~= all);
        total
    }

    /// The standings: every joined player once with its score, by score
    /// from highest to lowest and, among equal scores, by id.
    pub fn ranking(&self) -> (r: Vec<(NetworkPlayerData, u128)>)
        requires
            self.wf(),
        ensures
            is_ranking(self.joined_players@, self.answers(), entry_views(r@)),
    {
        let ghost players = self.joined_players@;
        let ghost results = self.answers();
        let ghost st = standings(players, results);
        proof {
            assert forall|a: int, b: int|
                0 <= a < st.len() && 0 <= b < st.len() && a != b implies (#[trigger] st[a]).0.id
                != (#[trigger] st[b]).0.id by {
                assert(ids_of(players)[a] == players[a].id);
                assert(ids_of(players)[b] == players[b].id);
            }
            reveal(is_partial_ranking);
        }
        let mut entries: Vec<(NetworkPlayerData, u128)> = Vec::new();
        let mut k: usize = 0;
        while k < self.joined_players.len()
            invariant
                k <= self.joined_players.len(),
                self.wf(),
                players == self.joined_players@,
                results == self.answers(),
                st == standings(players, results),
                forall|a: int, b: int|
                    0 <= a < st.len() && 0 <= b < st.len() && a != b ==> (#[trigger] st[a]).0.id
                        != (#[trigger] st[b]).0.id,
                is_partial_ranking(st, entry_views(entries@), k as int),
            decreases self.joined_players.len() - k,
        {
            let player = self.joined_players[k].clone();
            let score = self.total_score_of(player.id);
            let ghost x = st[k as int];
            assert(x == (player@, score as nat));
            let ghost before = entry_views(entries@);
            proof {
                reveal(is_partial_ranking);
            }
            let mut pos: usize = 0;
            while pos < entries.len() && !(score > entries[pos].1 || (score == entries[pos].1
                && player.id < entries[pos].0.id))
                invariant
                    pos <= entries.len(),
                    before == entry_views(entries@),
                    before.len() == entries@.len(),
                    x == (player@, score as nat),
                    forall|m: int| 0 <= m < pos ==> !ranks_before(x, #[trigger] before[m]),
                decreases entries.len() - pos,
            {
                assert(before[pos as int] == (entries@[pos as int].0@, entries@[pos as int].1 as nat));
                pos += 1;
            }
            proof {
                if pos < entries.len() {
                    assert(before[pos as int] == (entries@[pos as int].0@, entries@[pos as int].1 as nat));
                }
                lemma_insert_standing(st, before, k as int, pos as int);
            }
            entries.insert(pos, (player, score));
            proof {
                assert(entry_views(entries@) =~= before.insert(pos as int, x));
            }
            k += 1;
        }
        proof {
            reveal(is_partial_ranking);
            let e = entry_views(entries@);
            assert forall|m: int| 0 <= m < e.len() implies st.contains(#[trigger] e[m]) by {
                let j = choose|j: int| 0 <= j < k && #[trigger] e[m] == st[j];
                assert(st[j] == e[m]);
            }
            assert forall|j: int| 0 <= j < players.len() implies e.contains(
                #[trigger] standing(players[j], results),
            ) by {
                assert(st[j] == standing(players[j], results));
                let m = choose|m: int| 0 <= m < k && e[m] == #[trigger] st[j];
                assert(e[m] == standing(players[j], results));
            }
            assert(is_ranking(players, results, e));
        }
        entries
    }
}

} // verus!
