use vstd::prelude::*;
use std::collections::HashSet;

verus! {

broadcast use vstd::std_specs::hash::group_hash_axioms;

/// The identity of a team: its canonical name.
#[derive(Clone, Debug, PartialEq, Eq, Hash)]
pub enum TeamId {
    TeamName(String),
}

impl View for TeamId {
    type V = Seq<char>;

    open spec fn view(&self) -> Seq<char> {
        match self {
            TeamId::TeamName(name) => name@,
        }
    }
}

impl TeamId {
    /// Whether two ids name the same team.
    pub fn same(&self, other: &TeamId) -> (r: bool)
        ensures
            r == (self@ == other@),
    {
        match (self, other) {
            (TeamId::TeamName(a), TeamId::TeamName(b)) => *a == *b,
        }
    }

    /// A second id of the same team.
    pub fn duplicate(&self) -> (r: TeamId)
        ensures
            r@ == self@,
    {
        match self {
            TeamId::TeamName(name) => TeamId::TeamName(name.clone()),
        }
    }
}

/// What a team is, as plain values.
pub struct TeamView {
    pub id: Seq<char>,
    pub players: Set<u64>,
    pub score: int,
}

/// A team: its id, the players on it and its score.
#[derive(Debug)]
pub struct Team {
    pub id: TeamId,
    pub players: HashSet<u64>,
    pub score: i32,
}

impl View for Team {
    type V = TeamView;

    open spec fn view(&self) -> TeamView {
        TeamView { id: self.id@, players: self.players@, score: self.score as int }
    }
}

/// A sum of scores, held to the range of `i32`.
pub open spec fn clamp_score(x: int) -> int {
    if x > i32::MAX {
        i32::MAX as int
    } else if x < i32::MIN {
        i32::MIN as int
    } else {
        x
    }
}

/// `clamp_score` of a sum, computed.
pub fn add_scores(a: i32, b: i32) -> (r: i32)
    ensures
        r == clamp_score(a + b),
{
    let sum: i64 = a as i64 + b as i64;
    if sum > i32::MAX as i64 {
        i32::MAX
    } else if sum < i32::MIN as i64 {
        i32::MIN
    } else {
        sum as i32
    }
}

impl Team {
    /// A team without players, at score 0.
    pub fn new(id: TeamId) -> (r: Team)
        ensures
            r.id == id,
            r@ == (TeamView { id: id@, players: Set::empty(), score: 0 }),
    {
        Team { id, score: 0, players: HashSet::new() }
    }

    /// The name under which the team is shown.
    pub fn get_display_name(&self) -> (r: &str)
        ensures
            r@ == self.id@,
    {
        match &self.id {
            TeamId::TeamName(name) => name.as_str(),
        }
    }

    /// Adds `delta` to the score; the sum stops at the ends of `i32`.
    pub fn update_score(&mut self, delta: i32)
        ensures
            final(self)@ == (TeamView { score: clamp_score(old(self).score + delta), ..old(self)@ }),
            final(self).id == old(self).id,
    {
        self.score = add_scores(self.score, delta);
    }
}

/// The roster of one session, in the order in which the teams were made.
pub type TeamsHandle = Vec<Team>;

/// The roster as plain values.
pub open spec fn roster(teams: Seq<Team>) -> Seq<TeamView> {
    teams.map_values(|t: Team| t@)
}


/// Whether `k` is the place of the first team named `id`.
pub open spec fn team_at(r: Seq<TeamView>, id: Seq<char>, k: int) -> bool {
    &&& 0 <= k < r.len()
    &&& r[k].id == id
    &&& forall|j: int| 0 <= j < k ==> (#[trigger] r[j]).id != id
}

/// Whether some team is named `id`.
pub open spec fn has_team(r: Seq<TeamView>, id: Seq<char>) -> bool {
    exists|k: int| 0 <= k < r.len() && (#[trigger] r[k]).id == id
}

/// The place of the first team named `id`, where there is one.
pub open spec fn team_index(r: Seq<TeamView>, id: Seq<char>) -> int {
    choose|k: int| team_at(r, id, k)
}

/// Whether `k` is the place of the first team that `player` is on.
pub open spec fn player_at(r: Seq<TeamView>, player: u64, k: int) -> bool {
    &&& 0 <= k < r.len()
    &&& r[k].players.contains(player)
    &&& forall|j: int| 0 <= j < k ==> !(#[trigger] r[j]).players.contains(player)
}

/// Whether `player` is on some team.
pub open spec fn on_a_team(r: Seq<TeamView>, player: u64) -> bool {
    exists|k: int| 0 <= k < r.len() && (#[trigger] r[k]).players.contains(player)
}

/// The place of the first team that `player` is on, where there is one.
pub open spec fn player_index(r: Seq<TeamView>, player: u64) -> int {
    choose|k: int| player_at(r, player, k)
}

/// Whether two teams differ in name and share no player.
pub open spec fn apart(a: TeamView, b: TeamView) -> bool {
    a.id != b.id && a.players.disjoint(b.players)
}

/// A roster in which no two teams share a name and no player is on two teams.
pub open spec fn roster_wf(r: Seq<TeamView>) -> bool {
    forall|i: int, j: int| 0 <= i < j < r.len() ==> apart(#[trigger] r[i], #[trigger] r[j])
}

/// The place of the first team named `id`.
pub fn find_team(teams: &Vec<Team>, id: &TeamId) -> (r: Option<usize>)
    ensures
        r is Some == has_team(roster(teams@), id@),
        r is Some ==> r->Some_0 == team_index(roster(teams@), id@) && team_at(
            roster(teams@),
            id@,
            r->Some_0 as int,
        ),
{
    let n = teams.len();
    let mut i: usize = 0;
    while i < n
        invariant
            n == teams@.len(),
            i <= n,
            forall|j: int| 0 <= j < i ==> (#[trigger] roster(teams@)[j]).id != id@,
        decreases n - i,
    {
        if teams[i].id.same(id) {
            assert(team_at(roster(teams@), id@, i as int));
            return Some(i);
        }
        i += 1;
    }
    None
}

/// The place of the first team that `player` is on.
pub fn find_player_team(teams: &Vec<Team>, player: u64) -> (r: Option<usize>)
    ensures
        r is Some == on_a_team(roster(teams@), player),
        r is Some ==> r->Some_0 == player_index(roster(teams@), player) && player_at(
            roster(teams@),
            player,
            r->Some_0 as int,
        ),
{
    let n = teams.len();
    let mut i: usize = 0;
    while i < n
        invariant
            n == teams@.len(),
            i <= n,
            forall|j: int| 0 <= j < i ==> !(#[trigger] roster(teams@)[j]).players.contains(player),
        decreases n - i,
    {
        if teams[i].players.contains(&player) {
            assert(player_at(roster(teams@), player, i as int));
            return Some(i);
        }
        i += 1;
    }
    None
}


/// The roster after `delta` was added to the score of the first team named
/// `id`; the roster itself where there is no such team.
pub open spec fn with_score_added(r: Seq<TeamView>, id: Seq<char>, delta: int) -> Seq<TeamView> {
    if has_team(r, id) {
        let k = team_index(r, id);
        r.update(k, TeamView { score: clamp_score(r[k].score + delta), ..r[k] })
    } else {
        r
    }
}

/// Adds `delta` to the score of the first team named `id` and returns its
/// new score, or `None` where there is no such team.
pub fn add_to_team(teams: &mut Vec<Team>, id: &TeamId, delta: i32) -> (r: Option<i32>)
    ensures
        roster(final(teams)@) == with_score_added(roster(old(teams)@), id@, delta as int),
        r is Some == has_team(roster(old(teams)@), id@),
        r is Some ==> r->Some_0 == clamp_score(
            roster(old(teams)@)[team_index(roster(old(teams)@), id@)].score + delta,
        ),
        final(teams)@.len() == old(teams)@.len(),
{
    match find_team(teams, id) {
        Some(k) => {
            teams[k].update_score(delta);
            assert(roster(teams@) =~= with_score_added(roster(old(teams)@), id@, delta as int));
            Some(teams[k].score)
        },
        None => {
            assert(roster(teams@) =~= roster(old(teams)@));
            None
        },
    }
}

/// Whether the team at place `a` ranks before the team at place `b`: by the
/// higher score, and among equal scores by the earlier place.
pub open spec fn ranks_before(r: Seq<TeamView>, a: int, b: int) -> bool {
    r[a].score > r[b].score || (r[a].score == r[b].score && a < b)
}

/// Whether `order` lists the places of the first `n` teams of `r`, each
/// once, from the best rank down.
pub open spec fn ranked(r: Seq<TeamView>, order: Seq<usize>, n: int) -> bool {
    &&& order.len() == n
    &&& forall|i: int| 0 <= i < order.len() ==> 0 <= #[trigger] order[i] < n
    &&& forall|i: int, j: int|
        0 <= i < j < order.len() ==> ranks_before(r, #[trigger] order[i] as int, #[trigger] order[j] as int)
}

/// The places of the teams from the best rank down: by score, and among
/// equal scores in the order of the roster.
pub fn ranking(teams: &Vec<Team>) -> (order: Vec<usize>)
    ensures
        ranked(roster(teams@), order@, teams@.len() as int),
{
    let n = teams.len();
    let mut order: Vec<usize> = Vec::new();
    let mut k: usize = 0;
    while k < n
        invariant
            n == teams@.len(),
            k <= n,
            ranked(roster(teams@), order@, k as int),
        decreases n - k,
    {
        let score = teams[k].score;
        let m = order.len();
        let mut p: usize = 0;
        while p < m && teams[order[p]].score >= score
            invariant
                n == teams@.len(),
                k < n,
                m == order@.len(),
                p <= m,
                score == teams@[k as int].score,
                ranked(roster(teams@), order@, k as int),
                forall|i: int| 0 <= i < p ==> roster(teams@)[order@[i] as int].score >= score,
            decreases m - p,
        {
            p += 1;
        }
        let ghost before = order@;
        order.insert(p, k);
        proof {
            let r = roster(teams@);
            let after = order@;
            assert(after =~= before.insert(p as int, k));
            assert forall|i: int, j: int| 0 <= i < j < after.len() implies ranks_before(
                r,
                #[trigger] after[i] as int,
                #[trigger] after[j] as int,
            ) by {
                if j < p {
                    assert(after[i] == before[i] && after[j] == before[j]);
                } else if j == p {
                    assert(after[i] == before[i]);
                } else if i < p {
                    assert(after[i] == before[i] && after[j] == before[j - 1]);
                    if p < j - 1 || i < j - 1 {
                    }
                } else if i == p {
                    assert(after[j] == before[j - 1]);
                    if p < j - 1 {
                        assert(ranks_before(r, before[p as int] as int, before[j - 1] as int));
                    }
                } else {
                    assert(after[i] == before[i - 1] && after[j] == before[j - 1]);
                }
            }
            assert forall|i: int| 0 <= i < after.len() implies 0 <= #[trigger] after[i] < k + 1 by {
                if i < p {
                    assert(after[i] == before[i]);
                } else if i > p {
                    assert(after[i] == before[i - 1]);
                }
            }
        }
        k += 1;
    }
    order
}

/// Whether the team at place `w` leads: none has a higher score, and none
/// before it in the roster has the same.
pub open spec fn is_top(r: Seq<TeamView>, w: int) -> bool {
    &&& 0 <= w < r.len()
    &&& forall|k: int| 0 <= k < r.len() ==> (#[trigger] r[k]).score <= r[w].score
    &&& forall|k: int| 0 <= k < w ==> (#[trigger] r[k]).score < r[w].score
}

/// The place of the leading team: the first of those with the highest
/// score. `None` for an empty roster.
pub fn top_team(teams: &Vec<Team>) -> (r: Option<usize>)
    ensures
        r is Some == (teams@.len() > 0),
        r is Some ==> is_top(roster(teams@), r->Some_0 as int),
{
    let n = teams.len();
    if n == 0 {
        return None;
    }
    let mut w: usize = 0;
    let mut i: usize = 1;
    while i < n
        invariant
            n == teams@.len(),
            1 <= i <= n,
            w < i,
            forall|k: int| 0 <= k < i ==> (#[trigger] roster(teams@)[k]).score <= roster(teams@)[w as int].score,
            forall|k: int| 0 <= k < w ==> (#[trigger] roster(teams@)[k]).score < roster(teams@)[w as int].score,
        decreases n - i,
    {
        assert(roster(teams@)[i as int].score == teams@[i as int].score);
        assert(roster(teams@)[w as int].score == teams@[w as int].score);
        if teams[i].score > teams[w].score {
            w = i;
        }
        i += 1;
    }
    Some(w)
}

/// The ids of all teams, in the order of the roster.
pub fn team_ids(teams: &Vec<Team>) -> (r: Vec<TeamId>)
    ensures
        r@.len() == teams@.len(),
        forall|k: int| 0 <= k < r@.len() ==> #[trigger] ids_of(r@)[k] == roster(teams@)[k].id,
{
    let n = teams.len();
    let mut r: Vec<TeamId> = Vec::new();
    let mut i: usize = 0;
    while i < n
        invariant
            n == teams@.len(),
            i <= n,
            r@.len() == i,
            forall|k: int| 0 <= k < i ==> #[trigger] ids_of(r@)[k] == roster(teams@)[k].id,
        decreases n - i,
    {
        let ghost before = ids_of(r@);
        r.push(teams[i].id.duplicate());
        proof {
            assert forall|k: int| 0 <= k < i + 1 implies #[trigger] ids_of(r@)[k] == roster(
                teams@,
            )[k].id by {
                if k < i {
                    assert(ids_of(r@)[k] == before[k]);
                }
            }
        }
        i += 1;
    }
    r
}

/// Names and scores, as plain values.
pub open spec fn score_pairs(v: Seq<(TeamId, i32)>) -> Seq<(Seq<char>, int)> {
    v.map_values(|p: (TeamId, i32)| (p.0@, p.1 as int))
}

/// Whether `recap` lists every team of `r` with its score, from the best
/// rank down, equal scores in the order of the roster.
pub open spec fn is_recap(r: Seq<TeamView>, recap: Seq<(Seq<char>, int)>) -> bool {
    exists|order: Seq<usize>|
        #![trigger ranked(r, order, r.len() as int)]
        {
            &&& ranked(r, order, r.len() as int)
            &&& recap.len() == r.len()
            &&& forall|i: int|
                0 <= i < recap.len() ==> #[trigger] recap[i] == (
                    r[order[i] as int].id,
                    r[order[i] as int].score,
                )
        }
}

/// Every team with its score, from the best rank down.
pub fn score_recap(teams: &Vec<Team>) -> (recap: Vec<(TeamId, i32)>)
    ensures
        is_recap(roster(teams@), score_pairs(recap@)),
{
    let order = ranking(teams);
    let n = order.len();
    let mut recap: Vec<(TeamId, i32)> = Vec::new();
    let mut i: usize = 0;
    while i < n
        invariant
            n == order@.len(),
            n == teams@.len(),
            ranked(roster(teams@), order@, n as int),
            i <= n,
            recap@.len() == i,
            forall|j: int|
                0 <= j < i ==> #[trigger] score_pairs(recap@)[j] == (
                    roster(teams@)[order@[j] as int].id,
                    roster(teams@)[order@[j] as int].score,
                ),
        decreases n - i,
    {
        let k = order[i];
        assert(0 <= order@[i as int] < n);
        let ghost before = score_pairs(recap@);
        recap.push((teams[k].id.duplicate(), teams[k].score));
        proof {
            assert forall|j: int| 0 <= j < i + 1 implies #[trigger] score_pairs(recap@)[j] == (
                roster(teams@)[order@[j] as int].id,
                roster(teams@)[order@[j] as int].score,
            ) by {
                if j < i {
                    assert(score_pairs(recap@)[j] == before[j]);
                }
            }
        }
        i += 1;
    }
    proof {
        let r = roster(teams@);
        assert(r.len() == n);
        assert(score_pairs(recap@).len() == r.len());
        assert(ranked(r, order@, r.len() as int));
    }
    recap
}

/// The roster without `player` on any team.
pub open spec fn without_player(r: Seq<TeamView>, player: u64) -> Seq<TeamView> {
    r.map_values(|t: TeamView| TeamView { players: t.players.remove(player), ..t })
}

/// The roster with `player` put on the first team named `id`; where there
/// is no such team, a new one is made behind the others, at score 0.
pub open spec fn with_player(r: Seq<TeamView>, id: Seq<char>, player: u64) -> Seq<TeamView> {
    if has_team(r, id) {
        let k = team_index(r, id);
        r.update(k, TeamView { players: r[k].players.insert(player), ..r[k] })
    } else {
        r.push(TeamView { id, players: Set::empty().insert(player), score: 0 })
    }
}

/// The roster without its teams that have no player.
pub open spec fn pruned(r: Seq<TeamView>) -> Seq<TeamView> {
    r.filter(|t: TeamView| t.players.len() > 0)
}

/// The roster once `player` has joined the team named `id`: taken off
/// whatever team the player was on, put on that team, and the teams that
/// are left without players removed.
pub open spec fn joined(r: Seq<TeamView>, id: Seq<char>, player: u64) -> Seq<TeamView> {
    pruned(with_player(without_player(r, player), id, player))
}

/// Whether two rosters hold the same teams with the same players, whatever
/// the scores.
pub open spec fn same_members(a: Seq<TeamView>, b: Seq<TeamView>) -> bool {
    &&& a.len() == b.len()
    &&& forall|i: int|
        0 <= i < a.len() ==> (#[trigger] a[i]).id == b[i].id && a[i].players == b[i].players
}

/// Where a team is named `id`, one of them is the first.
pub proof fn lemma_first_team(r: Seq<TeamView>, id: Seq<char>, k: int)
    requires
        0 <= k < r.len(),
        r[k].id == id,
    ensures
        has_team(r, id),
        team_at(r, id, team_index(r, id)),
        team_index(r, id) <= k,
    decreases k,
{
    if forall|j: int| 0 <= j < k ==> (#[trigger] r[j]).id != id {
        assert(team_at(r, id, k));
    } else {
        let j = choose|j: int| 0 <= j < k && (#[trigger] r[j]).id == id;
        lemma_first_team(r, id, j);
    }
}

/// Adding to a score leaves every team and its players in place.
pub proof fn lemma_score_added_same_members(r: Seq<TeamView>, id: Seq<char>, delta: int)
    ensures
        same_members(r, with_score_added(r, id, delta)),
{
    if has_team(r, id) {
        let k = choose|k: int| 0 <= k < r.len() && (#[trigger] r[k]).id == id;
        lemma_first_team(r, id, k);
    }
}

/// Whether every team of the roster has finitely many players.
pub open spec fn finite_teams(r: Seq<TeamView>) -> bool {
    forall|i: int| 0 <= i < r.len() ==> (#[trigger] r[i]).players.finite()
}

/// Whether `player` is on the team at place `k`, the first team named `id`,
/// and on no other.
pub open spec fn only_on(r: Seq<TeamView>, id: Seq<char>, player: u64, k: int) -> bool {
    &&& team_at(r, id, k)
    &&& r[k].players.contains(player)
    &&& forall|j: int| 0 <= j < r.len() && j != k ==> !(#[trigger] r[j]).players.contains(player)
}

proof fn lemma_filter_keeps(
    w: Seq<TeamView>,
    keep: spec_fn(TeamView) -> bool,
    prop: spec_fn(TeamView) -> bool,
)
    requires
        forall|i: int| 0 <= i < w.len() ==> prop(#[trigger] w[i]),
    ensures
        forall|j: int| 0 <= j < w.filter(keep).len() ==> prop(#[trigger] w.filter(keep)[j]),
        w.filter(keep).len() <= w.len(),
    decreases w.len(),
{
    if w.len() == 0 {
        assert(w.filter(keep) =~= Seq::empty()) by {
            reveal(Seq::filter);
        }
    } else {
        let front = w.drop_last();
        let last = w.last();
        assert(w =~= front.push(last));
        front.lemma_filter_push(last, keep);
        assert forall|i: int| 0 <= i < front.len() implies prop(#[trigger] front[i]) by {
            assert(front[i] == w[i]);
        }
        lemma_filter_keeps(front, keep, prop);
        assert(prop(w[w.len() - 1]));
    }
}

proof fn lemma_filter_all(w: Seq<TeamView>, keep: spec_fn(TeamView) -> bool)
    requires
        forall|i: int| 0 <= i < w.len() ==> keep(#[trigger] w[i]),
    ensures
        w.filter(keep) == w,
    decreases w.len(),
{
    if w.len() == 0 {
        assert(w.filter(keep) =~= w) by {
            reveal(Seq::filter);
        }
    } else {
        let front = w.drop_last();
        let last = w.last();
        assert(w =~= front.push(last));
        front.lemma_filter_push(last, keep);
        assert forall|i: int| 0 <= i < front.len() implies keep(#[trigger] front[i]) by {
            assert(front[i] == w[i]);
        }
        lemma_filter_all(front, keep);
        assert(keep(w[w.len() - 1]));
    }
}

proof fn lemma_pruned_only_on(w: Seq<TeamView>, id: Seq<char>, player: u64, k: int) -> (k2: int)
    requires
        only_on(w, id, player, k),
        finite_teams(w),
    ensures
        only_on(pruned(w), id, player, k2),
    decreases w.len(),
{
    let keep = |t: TeamView| t.players.len() > 0;
    let n = w.len() as int;
    let front = w.drop_last();
    let last = w.last();
    assert(w =~= front.push(last));
    front.lemma_filter_push(last, keep);
    if k == n - 1 {
        let prop = |t: TeamView| t.id != id && !t.players.contains(player);
        assert forall|i: int| 0 <= i < front.len() implies prop(#[trigger] front[i]) by {
            assert(front[i] == w[i]);
        }
        lemma_filter_keeps(front, keep, prop);
        assert(w[k].players.finite());
        vstd::set::axiom_set_contains_len(w[k].players, player);
        let j = pruned(front);
        assert(pruned(w) == j.push(last));
        assert forall|i: int| 0 <= i < j.len() implies (#[trigger] pruned(w)[i]).id != id && !pruned(
            w,
        )[i].players.contains(player) by {
            assert(prop(j[i]));
        }
        j.len() as int
    } else {
        assert forall|i: int| 0 <= i < front.len() implies (#[trigger] front[i]) == w[i] by {}
        assert(only_on(front, id, player, k)) by {
            assert(front[k] == w[k]);
        }
        assert(finite_teams(front));
        let k2 = lemma_pruned_only_on(front, id, player, k);
        let j = pruned(front);
        assert(!w[n - 1].players.contains(player));
        if keep(last) {
            assert(pruned(w) == j.push(last));
            assert forall|i: int| 0 <= i < pruned(w).len() && i != k2 implies !(#[trigger] pruned(
                w,
            )[i]).players.contains(player) by {
                if i < j.len() {
                    assert(pruned(w)[i] == j[i]);
                }
            }
            assert(team_at(pruned(w), id, k2)) by {
                assert(pruned(w)[k2] == j[k2]);
                assert forall|i: int| 0 <= i < k2 implies (#[trigger] pruned(w)[i]).id != id by {
                    assert(pruned(w)[i] == j[i]);
                }
            }
            assert(pruned(w)[k2] == j[k2]);
        }
        k2
    }
}

proof fn lemma_with_player_only_on(r: Seq<TeamView>, id: Seq<char>, player: u64) -> (k: int)
    requires
        finite_teams(r),
    ensures
        only_on(with_player(without_player(r, player), id, player), id, player, k),
        finite_teams(with_player(without_player(r, player), id, player)),
{
    let wp = without_player(r, player);
    let w = with_player(wp, id, player);
    assert forall|i: int| 0 <= i < wp.len() implies !(#[trigger] wp[i]).players.contains(player)
        && wp[i].players.finite() by {
        assert(r[i].players.finite());
    }
    if has_team(wp, id) {
        let any = choose|k: int| 0 <= k < wp.len() && (#[trigger] wp[k]).id == id;
        lemma_first_team(wp, id, any);
        let k = team_index(wp, id);
        assert forall|i: int| 0 <= i < w.len() implies (#[trigger] w[i]).players.finite() by {
            assert(wp[i].players.finite());
        }
        assert(only_on(w, id, player, k)) by {
            assert forall|j: int| 0 <= j < k implies (#[trigger] w[j]).id != id by {
                assert(w[j] == wp[j]);
            }
            assert forall|j: int| 0 <= j < w.len() && j != k implies !(
            #[trigger] w[j]).players.contains(player) by {
                assert(w[j] == wp[j]);
            }
        }
        k
    } else {
        let k = wp.len() as int;
        assert forall|i: int| 0 <= i < w.len() implies (#[trigger] w[i]).players.finite() by {
            if i < k {
                assert(w[i] == wp[i]);
                assert(wp[i].players.finite());
            }
        }
        assert(only_on(w, id, player, k)) by {
            assert forall|j: int| 0 <= j < k implies (#[trigger] w[j]).id != id by {
                assert(w[j] == wp[j]);
            }
            assert forall|j: int| 0 <= j < w.len() && j != k implies !(
            #[trigger] w[j]).players.contains(player) by {
                assert(w[j] == wp[j]);
            }
        }
        k
    }
}

proof fn lemma_filter_pairs(w: Seq<TeamView>, keep: spec_fn(TeamView) -> bool)
    requires
        roster_wf(w),
    ensures
        roster_wf(w.filter(keep)),
    decreases w.len(),
{
    if w.len() == 0 {
        assert(w.filter(keep) =~= Seq::empty()) by {
            reveal(Seq::filter);
        }
    } else {
        let front = w.drop_last();
        let last = w.last();
        assert(w =~= front.push(last));
        front.lemma_filter_push(last, keep);
        assert forall|i: int, j: int| 0 <= i < j < front.len() implies apart(
            #[trigger] front[i],
            #[trigger] front[j],
        ) by {
            assert(front[i] == w[i] && front[j] == w[j]);
        }
        lemma_filter_pairs(front, keep);
        let prop = |t: TeamView| apart(t, last);
        assert forall|i: int| 0 <= i < front.len() implies prop(#[trigger] front[i]) by {
            assert(front[i] == w[i]);
            assert(apart(w[i], w[w.len() - 1]));
        }
        lemma_filter_keeps(front, keep, prop);
        let f = front.filter(keep);
        if keep(last) {
            let g = w.filter(keep);
            assert(g == f.push(last));
            assert forall|i: int, j: int| 0 <= i < j < g.len() implies apart(
                #[trigger] g[i],
                #[trigger] g[j],
            ) by {
                if j < f.len() {
                    assert(g[i] == f[i] && g[j] == f[j]);
                } else {
                    assert(g[i] == f[i]);
                    assert(prop(f[i]));
                }
            }
        }
    }
}

/// Joining keeps the roster well-formed: no two teams share a name, and no
/// player, the one who joins included, is on two teams.
pub proof fn lemma_joined_wf(r: Seq<TeamView>, id: Seq<char>, player: u64)
    requires
        roster_wf(r),
    ensures
        roster_wf(joined(r, id, player)),
{
    let wp = without_player(r, player);
    let w = with_player(wp, id, player);
    assert forall|i: int| 0 <= i < wp.len() implies !(#[trigger] wp[i]).players.contains(player)
        && wp[i].id == r[i].id && wp[i].players.subset_of(r[i].players) by {}
    assert forall|i: int, j: int| 0 <= i < j < wp.len() implies apart(
        #[trigger] wp[i],
        #[trigger] wp[j],
    ) by {
        assert(apart(r[i], r[j]));
    }
    if has_team(wp, id) {
        let any = choose|k: int| 0 <= k < wp.len() && (#[trigger] wp[k]).id == id;
        lemma_first_team(wp, id, any);
        let k = team_index(wp, id);
        assert forall|i: int, j: int| 0 <= i < j < w.len() implies apart(
            #[trigger] w[i],
            #[trigger] w[j],
        ) by {
            assert(apart(wp[i], wp[j]));
            assert(!wp[i].players.contains(player) && !wp[j].players.contains(player));
        }
    } else {
        assert forall|i: int, j: int| 0 <= i < j < w.len() implies apart(
            #[trigger] w[i],
            #[trigger] w[j],
        ) by {
            if j < wp.len() {
                assert(w[i] == wp[i] && w[j] == wp[j]);
            } else {
                assert(w[i] == wp[i]);
                assert(!wp[i].players.contains(player));
                assert(wp[i].id != id);
            }
        }
    }
    lemma_filter_pairs(w, |t: TeamView| t.players.len() > 0);
}

/// A roster that holds the same teams and players as a well-formed one is
/// well-formed.
pub proof fn lemma_same_members_wf(a: Seq<TeamView>, b: Seq<TeamView>)
    requires
        roster_wf(a),
        same_members(a, b),
    ensures
        roster_wf(b),
{
    assert forall|i: int, j: int| 0 <= i < j < b.len() implies apart(
        #[trigger] b[i],
        #[trigger] b[j],
    ) by {
        assert(apart(a[i], a[j]));
    }
}

/// Where nobody is on a team, nobody is on a team of a roster that holds
/// the same teams and players.
pub proof fn lemma_same_members_nobody(a: Seq<TeamView>, b: Seq<TeamView>)
    requires
        same_members(a, b),
        forall|player: u64| !on_a_team(a, player),
    ensures
        forall|player: u64| !on_a_team(b, player),
{
    assert forall|player: u64| !on_a_team(b, player) by {
        if on_a_team(b, player) {
            let k = choose|k: int| 0 <= k < b.len() && (#[trigger] b[k]).players.contains(player);
            assert(a[k].players.contains(player));
            assert(on_a_team(a, player));
        }
    }
}

/// In a well-formed roster a player is on one team at most.
pub proof fn lemma_one_team_per_player(r: Seq<TeamView>, player: u64, i: int, j: int)
    requires
        roster_wf(r),
        0 <= i < r.len(),
        0 <= j < r.len(),
        r[i].players.contains(player),
        r[j].players.contains(player),
    ensures
        i == j,
{
    if i < j {
        assert(apart(r[i], r[j]));
    } else if j < i {
        assert(apart(r[j], r[i]));
    }
}

/// A player who is on the team named `id` and on no other, in a roster
/// without empty teams, joins that team without any change.
pub proof fn lemma_join_same_team(r: Seq<TeamView>, id: Seq<char>, player: u64, k: int)
    requires
        only_on(r, id, player, k),
        forall|i: int| 0 <= i < r.len() ==> (#[trigger] r[i]).players.len() > 0,
    ensures
        joined(r, id, player) == r,
{
    let wp = without_player(r, player);
    assert(team_at(wp, id, k)) by {
        assert(wp[k].id == r[k].id);
        assert forall|j: int| 0 <= j < k implies (#[trigger] wp[j]).id != id by {
            assert(wp[j].id == r[j].id);
        }
    }
    assert(has_team(wp, id));
    lemma_first_team(wp, id, k);
    assert(team_index(wp, id) == k);
    let w = with_player(wp, id, player);
    assert forall|i: int| 0 <= i < r.len() implies #[trigger] w[i] == r[i] by {
        if i == k {
            assert(w[i].players =~= r[i].players);
        } else {
            assert(w[i] == wp[i]);
            assert(wp[i].players =~= r[i].players);
        }
    }
    assert(w =~= r);
    lemma_filter_all(r, |t: TeamView| t.players.len() > 0);
}

/// Joining is idempotent: a player who joins a team a second time leaves
/// every team, its players and its score as the first time left them.
pub proof fn lemma_join_idempotent(r: Seq<TeamView>, id: Seq<char>, player: u64)
    requires
        finite_teams(r),
    ensures
        joined(joined(r, id, player), id, player) == joined(r, id, player),
{
    let w = with_player(without_player(r, player), id, player);
    let k = lemma_with_player_only_on(r, id, player);
    let k2 = lemma_pruned_only_on(w, id, player, k);
    let keep = |t: TeamView| t.players.len() > 0;
    assert forall|i: int| 0 <= i < pruned(w).len() implies (#[trigger] pruned(w)[i]).players.len()
        > 0 by {
        w.lemma_filter_pred(keep, i);
    }
    lemma_join_same_team(pruned(w), id, player, k2);
}

/// Removes the teams that have no player.
pub fn prune_empty(teams: &mut Vec<Team>)
    ensures
        roster(final(teams)@) == pruned(roster(old(teams)@)),
{
    let ghost w = roster(teams@);
    let ghost keep = |t: TeamView| t.players.len() > 0;
    let mut i: usize = 0;
    let ghost mut j: int = 0;
    assert(w.take(0) =~= Seq::empty());
    while i < teams.len()
        invariant
            0 <= i <= teams@.len(),
            0 <= j <= w.len(),
            keep == |t: TeamView| t.players.len() > 0,
            teams@.len() - i == w.len() - j,
            roster(teams@).take(i as int) == w.take(j).filter(keep),
            roster(teams@).skip(i as int) == w.skip(j),
        decreases teams@.len() - i,
    {
        let ghost before = roster(teams@);
        proof {
            assert(before[i as int] == before.skip(i as int)[0]);
            assert(w.skip(j)[0] == w[j]);
            assert(w.take(j + 1) =~= w.take(j).push(w[j]));
            w.take(j).lemma_filter_push(w[j], keep);
            assert(before[i as int].players == teams@[i as int].players@);
        }
        if teams[i].players.len() == 0 {
            teams.remove(i);
            proof {
                let after = roster(teams@);
                assert(after =~= before.remove(i as int));
                assert(after.take(i as int) =~= before.take(i as int));
                assert(after.skip(i as int) =~= before.skip(i as int).skip(1));
                assert(w.skip(j).skip(1) =~= w.skip(j + 1));
                j = j + 1;
            }
        } else {
            proof {
                assert(before.take(i + 1) =~= before.take(i as int).push(before[i as int]));
                assert(before.skip(i + 1) =~= before.skip(i as int).skip(1));
                assert(w.skip(j).skip(1) =~= w.skip(j + 1));
                j = j + 1;
            }
            i += 1;
        }
    }
    proof {
        assert(roster(teams@).take(i as int) =~= roster(teams@));
        assert(w.take(j) =~= w);
    }
}

/// Puts `player` on the team named by `id`, which is made if there is none
/// yet, takes the player off any other team, and removes the teams that
/// are left without players.
pub fn join_roster(teams: &mut Vec<Team>, player: u64, id: TeamId)
    ensures
        roster(final(teams)@) == joined(roster(old(teams)@), id@, player),
{
    let ghost r0 = roster(teams@);
    let n = teams.len();
    let mut i: usize = 0;
    while i < n
        invariant
            n == teams@.len(),
            n == r0.len(),
            i <= n,
            forall|k: int|
                0 <= k < i ==> #[trigger] roster(teams@)[k] == (TeamView {
                    players: r0[k].players.remove(player),
                    ..r0[k]
                }),
            forall|k: int| i <= k < n ==> #[trigger] roster(teams@)[k] == r0[k],
        decreases n - i,
    {
        let ghost before = roster(teams@);
        assert(before[i as int] == r0[i as int]);
        teams[i].players.remove(&player);
        proof {
            let after = roster(teams@);
            assert forall|k: int| 0 <= k < i + 1 implies #[trigger] after[k] == (TeamView {
                players: r0[k].players.remove(player),
                ..r0[k]
            }) by {
                if k < i {
                    assert(after[k] == before[k]);
                }
            }
            assert forall|k: int| i + 1 <= k < n implies #[trigger] after[k] == r0[k] by {
                assert(after[k] == before[k]);
            }
        }
        i += 1;
    }
    let ghost r1 = roster(teams@);
    assert(r1 =~= without_player(r0, player));
    match find_team(teams, &id) {
        Some(k) => {
            teams[k].players.insert(player);
            assert(roster(teams@) =~= with_player(r1, id@, player));
        },
        None => {
            let mut team = Team::new(id);
            team.players.insert(player);
            teams.push(team);
            assert(roster(teams@) =~= with_player(r1, id@, player));
        },
    }
    prune_empty(teams);
}

/// The names held by a vector of ids.
pub open spec fn ids_of(v: Seq<TeamId>) -> Seq<Seq<char>> {
    v.map_values(|t: TeamId| t@)
}

/// Whether `id` is one of `ids`.
pub open spec fn has_id(ids: Seq<Seq<char>>, id: Seq<char>) -> bool {
    exists|k: int| 0 <= k < ids.len() && #[trigger] ids[k] == id
}

/// Whether `k` is the first place at which `id` stands in `ids`.
pub open spec fn id_at(ids: Seq<Seq<char>>, id: Seq<char>, k: int) -> bool {
    &&& 0 <= k < ids.len()
    &&& ids[k] == id
    &&& forall|j: int| 0 <= j < k ==> #[trigger] ids[j] != id
}

/// The first place at which `id` stands in `ids`, where it does.
pub open spec fn id_index(ids: Seq<Seq<char>>, id: Seq<char>) -> int {
    choose|k: int| id_at(ids, id, k)
}

/// Where `id` stands in `ids`, it stands at a first place.
pub proof fn lemma_first_id(ids: Seq<Seq<char>>, id: Seq<char>, k: int)
    requires
        0 <= k < ids.len(),
        ids[k] == id,
    ensures
        has_id(ids, id),
        id_at(ids, id, id_index(ids, id)),
        id_index(ids, id) <= k,
    decreases k,
{
    if forall|j: int| 0 <= j < k ==> #[trigger] ids[j] != id {
        assert(id_at(ids, id, k));
    } else {
        let j = choose|j: int| 0 <= j < k && #[trigger] ids[j] == id;
        lemma_first_id(ids, id, j);
    }
}

/// A list of ids in which none stands twice.
pub open spec fn distinct(ids: Seq<Seq<char>>) -> bool {
    forall|i: int, j: int| 0 <= i < j < ids.len() ==> #[trigger] ids[i] != #[trigger] ids[j]
}

/// The place of the first of `ids` that names the team `id`.
pub fn find_id(ids: &Vec<TeamId>, id: &TeamId) -> (r: Option<usize>)
    ensures
        r is Some == has_id(ids_of(ids@), id@),
        r is Some ==> r->Some_0 == id_index(ids_of(ids@), id@) && id_at(
            ids_of(ids@),
            id@,
            r->Some_0 as int,
        ),
{
    let n = ids.len();
    let mut i: usize = 0;
    while i < n
        invariant
            n == ids@.len(),
            i <= n,
            forall|j: int| 0 <= j < i ==> #[trigger] ids_of(ids@)[j] != id@,
        decreases n - i,
    {
        if ids[i].same(id) {
            assert(id_at(ids_of(ids@), id@, i as int));
            return Some(i);
        }
        i += 1;
    }
    None
}

/// The names of the teams of the roster, in its order.
pub open spec fn names(r: Seq<TeamView>) -> Seq<Seq<char>> {
    r.map_values(|t: TeamView| t.id)
}

/// The ids of all teams but the one named by `id`, in the order of the roster.
pub fn other_team_ids(teams: &Vec<Team>, id: &TeamId) -> (r: Vec<TeamId>)
    ensures
        ids_of(r@) == names(roster(teams@)).filter(|name: Seq<char>| name != id@),
{
    let n = teams.len();
    let ghost all = names(roster(teams@));
    let ghost keep = |name: Seq<char>| name != id@;
    let mut r: Vec<TeamId> = Vec::new();
    let mut i: usize = 0;
    assert(all.take(0).filter(keep) =~= Seq::empty()) by {
        reveal(Seq::filter);
    }
    assert(ids_of(r@) =~= Seq::empty());
    while i < n
        invariant
            n == teams@.len(),
            all == names(roster(teams@)),
            keep == |name: Seq<char>| name != id@,
            i <= n,
            ids_of(r@) == all.take(i as int).filter(keep),
        decreases n - i,
    {
        let ghost before = ids_of(r@);
        proof {
            assert(all[i as int] == teams@[i as int].id@);
            assert(all.take(i + 1) =~= all.take(i as int).push(all[i as int]));
            all.take(i as int).lemma_filter_push(all[i as int], keep);
        }
        if !teams[i].id.same(id) {
            r.push(teams[i].id.duplicate());
            assert(ids_of(r@) =~= before.push(all[i as int]));
        }
        i += 1;
    }
    proof {
        assert(all.take(n as int) =~= all);
    }
    r
}

/// A second vector of the same ids.
pub fn duplicate_ids(ids: &Vec<TeamId>) -> (r: Vec<TeamId>)
    ensures
        ids_of(r@) == ids_of(ids@),
{
    let n = ids.len();
    let mut r: Vec<TeamId> = Vec::new();
    let mut i: usize = 0;
    while i < n
        invariant
            n == ids@.len(),
            i <= n,
            r@.len() == i,
            forall|k: int| 0 <= k < i ==> #[trigger] r@[k]@ == ids@[k]@,
        decreases n - i,
    {
        r.push(ids[i].duplicate());
        i += 1;
    }
    assert(ids_of(r@) =~= ids_of(ids@));
    r
}

/// The ids of `ids` without repetitions, each where it first stood.
pub fn distinct_ids(ids: Vec<TeamId>) -> (r: Vec<TeamId>)
    ensures
        distinct(ids_of(r@)),
        forall|k: int| 0 <= k < ids@.len() ==> has_id(ids_of(r@), #[trigger] ids_of(ids@)[k]),
        forall|m: int| 0 <= m < r@.len() ==> has_id(ids_of(ids@), #[trigger] ids_of(r@)[m]),
{
    let n = ids.len();
    let mut r: Vec<TeamId> = Vec::new();
    let mut i: usize = 0;
    while i < n
        invariant
            n == ids@.len(),
            i <= n,
            distinct(ids_of(r@)),
            forall|k: int| 0 <= k < i ==> has_id(ids_of(r@), #[trigger] ids_of(ids@)[k]),
            forall|m: int| 0 <= m < r@.len() ==> has_id(ids_of(ids@), #[trigger] ids_of(r@)[m]),
        decreases n - i,
    {
        let ghost before = ids_of(r@);
        let ghost cur = ids_of(ids@)[i as int];
        if find_id(&r, &ids[i]).is_none() {
            r.push(ids[i].duplicate());
            proof {
                let after = ids_of(r@);
                assert(after =~= before.push(cur));
                assert forall|k: int| 0 <= k < i + 1 implies has_id(
                    after,
                    #[trigger] ids_of(ids@)[k],
                ) by {
                    if k < i {
                        let m = choose|m: int|
                            0 <= m < before.len() && #[trigger] before[m] == ids_of(ids@)[k];
                        assert(after[m] == ids_of(ids@)[k]);
                    } else {
                        assert(after[before.len() as int] == cur);
                    }
                }
                assert forall|a: int, b: int| 0 <= a < b < after.len() implies #[trigger] after[a]
                    != #[trigger] after[b] by {
                    if b == before.len() {
                        assert(before[a] == after[a]);
                    } else {
                        assert(before[a] == after[a]);
                        assert(before[b] == after[b]);
                    }
                }
            }
        }
        i += 1;
    }
    r
}

} // verus!
