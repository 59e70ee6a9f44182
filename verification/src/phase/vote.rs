use vstd::prelude::*;
use crate::chance::{pick_one, pick_some};
use crate::definition::Question;
use crate::error::GameError;
use crate::output::{emitted, extends, Action, Message, Recipient};
use crate::phase::cooldown::{advance_clock, clock_after};
use crate::team::{find_team, has_team, roster, team_index, Team, TeamId, TeamView};
use crate::text::{lemma_text_le_total, text_le, text_precedes};

verus! {

broadcast use vstd::std_specs::hash::group_hash_axioms;

/// The vote on the category of the next question.
#[derive(Debug)]
pub struct VoteState {
    pub time_elapsed: u64,
    pub time_to_wait: u64,
    /// The questions on offer, at most ten, in the order of their categories.
    pub vote_options: Vec<Question>,
    /// The one team that may vote, where the vote is restricted.
    pub voting_team: Option<TeamId>,
    /// Whether the poll has been sent out.
    pub poll_posted: bool,
}

/// The number of reactions a poll can offer.
pub const MAX_VOTE_REACTIONS: usize = 10;

/// The text of the reaction that stands for the option at place `index`:
/// the keycaps of one to nine, then that of ten.
pub open spec fn reaction_text(index: int) -> Seq<char> {
    if index == 0 {
        "1️⃣"@
    } else if index == 1 {
        "2️⃣"@
    } else if index == 2 {
        "3️⃣"@
    } else if index == 3 {
        "4️⃣"@
    } else if index == 4 {
        "5️⃣"@
    } else if index == 5 {
        "6️⃣"@
    } else if index == 6 {
        "7️⃣"@
    } else if index == 7 {
        "8️⃣"@
    } else if index == 8 {
        "9️⃣"@
    } else {
        "🔟"@
    }
}

/// The reaction that stands for the option at place `index`.
pub fn vote_reaction(index: usize) -> (r: &'static str)
    requires
        index < MAX_VOTE_REACTIONS,
    ensures
        r@ == reaction_text(index as int),
{
    if index == 0 {
        "1️⃣"
    } else if index == 1 {
        "2️⃣"
    } else if index == 2 {
        "3️⃣"
    } else if index == 3 {
        "4️⃣"
    } else if index == 4 {
        "5️⃣"
    } else if index == 5 {
        "6️⃣"
    } else if index == 6 {
        "7️⃣"
    } else if index == 7 {
        "8️⃣"
    } else if index == 8 {
        "9️⃣"
    } else {
        "🔟"
    }
}

/// Whether the question at `i` is the one its category offers: none of the
/// same category has a lower value, or the same value and an earlier place.
pub open spec fn is_champion(pool: Seq<Question>, i: int) -> bool {
    &&& 0 <= i < pool.len()
    &&& forall|j: int|
        0 <= j < pool.len() && (#[trigger] pool[j]).category@ == pool[i].category@ ==> !(
        pool[j].score_value < pool[i].score_value || (pool[j].score_value == pool[i].score_value
            && j < i))
}

/// How many of the first `n` questions of the pool are champions: the
/// number of categories among them that the whole pool holds.
pub open spec fn champion_count(pool: Seq<Question>, n: int) -> nat
    decreases n,
{
    if n <= 0 {
        0
    } else if is_champion(pool, n - 1) {
        champion_count(pool, n - 1) + 1
    } else {
        champion_count(pool, n - 1)
    }
}

/// Whether `q` is what some category of the pool offers.
pub open spec fn offered(pool: Seq<Question>, q: Question) -> bool {
    exists|i: int| #[trigger] is_champion(pool, i) && q.is_copy_of(pool[i])
}

/// Whether the questions stand in the order of their categories.
pub open spec fn in_category_order(qs: Seq<Question>) -> bool {
    forall|i: int, j: int|
        0 <= i && j == i + 1 && j < qs.len() ==> text_le(
            (#[trigger] qs[i]).category@,
            (#[trigger] qs[j]).category@,
        )
}

/// Whether the places `order` of the pool stand in the order of their categories.
pub open spec fn places_in_category_order(pool: Seq<Question>, order: Seq<usize>) -> bool {
    forall|i: int, j: int|
        0 <= i && j == i + 1 && j < order.len() ==> text_le(
            pool[#[trigger] order[i] as int].category@,
            pool[#[trigger] order[j] as int].category@,
        )
}

/// Whether `player` may vote: anybody where the vote is open, and only the
/// members of `restrict` where it is restricted.
pub open spec fn may_vote(r: Seq<TeamView>, restrict: Option<Seq<char>>, player: u64) -> bool {
    match restrict {
        None => true,
        Some(t) => has_team(r, t) && r[team_index(r, t)].players.contains(player),
    }
}

/// How many of `reactors` may vote.
pub open spec fn valid_votes(r: Seq<TeamView>, restrict: Option<Seq<char>>, reactors: Seq<u64>) -> nat
    decreases reactors.len(),
{
    if reactors.len() == 0 {
        0
    } else {
        valid_votes(r, restrict, reactors.drop_last()) + if may_vote(r, restrict, reactors.last()) {
            1nat
        } else {
            0nat
        }
    }
}

/// The valid votes for option `k` in the first `m` reads, one read for each
/// message that carried the poll.
pub open spec fn option_votes(
    r: Seq<TeamView>,
    restrict: Option<Seq<char>>,
    reads: Seq<Vec<Vec<u64>>>,
    k: int,
    m: int,
) -> nat
    decreases m,
{
    if m <= 0 {
        0
    } else {
        option_votes(r, restrict, reads, k, m - 1) + if k < reads[m - 1]@.len() {
            valid_votes(r, restrict, reads[m - 1]@[k]@)
        } else {
            0nat
        }
    }
}

/// A count as the machine holds it: it stops at the largest `usize`.
pub open spec fn capped(n: nat) -> usize {
    if n > usize::MAX {
        usize::MAX
    } else {
        n as usize
    }
}

/// The votes that count for option `k`.
pub open spec fn tally(
    r: Seq<TeamView>,
    restrict: Option<Seq<char>>,
    reads: Seq<Vec<Vec<u64>>>,
    k: int,
) -> usize {
    capped(option_votes(r, restrict, reads, k, reads.len() as int))
}

/// Whether option `w` of `n` has as many votes as any.
pub open spec fn is_winner(
    r: Seq<TeamView>,
    restrict: Option<Seq<char>>,
    reads: Seq<Vec<Vec<u64>>>,
    n: int,
    w: int,
) -> bool {
    &&& 0 <= w < n
    &&& forall|k: int| 0 <= k < n ==> #[trigger] tally(r, restrict, reads, k) <= tally(r, restrict, reads, w)
}

/// Whether `a` is the poll on `options`, sent to `team` alone where the vote
/// is restricted and to every team where it is not: one glyph for each
/// option, shown with the option's category and value.
pub open spec fn is_poll(a: Action, options: Seq<Question>, team: Option<Seq<char>>) -> bool {
    a matches Action::Poll(to, Message::VotePoll(lines), glyphs) && {
        &&& match team {
            Some(t) => to matches Recipient::Team(id) && id@ == t,
            None => to == Recipient::AllTeams,
        }
        &&& lines@.len() == options.len()
        &&& glyphs@.len() == options.len()
        &&& forall|i: int|
            0 <= i < options.len() ==> (#[trigger] lines@[i]).0@ == reaction_text(i)
                && glyphs@[i]@ == reaction_text(i) && lines@[i].1@ == options[i].category@
                && lines@[i].2 == options[i].score_value
    }
}

/// Whether `a` tells every team but `team` to wait while `team` votes.
pub open spec fn tells_vote_wait(a: Action, team: Seq<char>) -> bool {
    a matches Action::Say(Recipient::AllTeamsExcept(x), Message::VoteWait(y)) && x@ == team && y@
        == team
}

/// Whether `e` is what the beginning of a vote emits: where the vote is
/// restricted, the others are told to wait; then comes the poll.
pub open spec fn begin_emits(state: VoteState, e: Seq<Action>) -> bool {
    &&& e.len() >= 1
    &&& is_poll(e.last(), state.vote_options@, restriction(state.voting_team))
    &&& match state.voting_team {
        Some(t) => e.len() == 2 && tells_vote_wait(e[0], t@),
        None => e.len() == 1,
    }
}

/// The name of the team a vote is restricted to.
pub open spec fn restriction(voting_team: Option<TeamId>) -> Option<Seq<char>> {
    match voting_team {
        Some(t) => Some(t@),
        None => None,
    }
}

/// A reaction of somebody who is not on the voting team counts for nothing.
pub proof fn lemma_outsider_vote_ignored(
    r: Seq<TeamView>,
    team: Seq<char>,
    reactors: Seq<u64>,
    player: u64,
)
    requires
        !(has_team(r, team) && r[team_index(r, team)].players.contains(player)),
    ensures
        valid_votes(r, Some(team), reactors.push(player)) == valid_votes(r, Some(team), reactors),
{
    assert(reactors.push(player).drop_last() =~= reactors);
}

/// Under a restricted vote only the reactions of the team's members count:
/// the tally of any reactors is that of the members among them.
pub proof fn lemma_only_members_count(r: Seq<TeamView>, team: Seq<char>, reactors: Seq<u64>)
    ensures
        valid_votes(r, Some(team), reactors) == valid_votes(
            r,
            Some(team),
            reactors.filter(|p: u64| may_vote(r, Some(team), p)),
        ),
        valid_votes(r, Some(team), reactors) == reactors.filter(
            |p: u64| may_vote(r, Some(team), p),
        ).len(),
    decreases reactors.len(),
{
    let keep = |p: u64| may_vote(r, Some(team), p);
    if reactors.len() > 0 {
        let front = reactors.drop_last();
        let p = reactors.last();
        lemma_only_members_count(r, team, front);
        assert(reactors =~= front.push(p));
        front.lemma_filter_push(p, keep);
        if keep(p) {
            assert(front.filter(keep).push(p).drop_last() =~= front.filter(keep));
        }
    }
}

/// How many of `reactors` may vote, as far as `usize` counts.
fn count_valid(teams: &Vec<Team>, restrict: &Option<TeamId>, reactors: &Vec<u64>, start: usize, Ghost(base): Ghost<nat>) -> (r: usize)
    requires
        start == capped(base),
    ensures
        r == capped(base + valid_votes(roster(teams@), restriction(*restrict), reactors@)),
{
    let home: Option<usize> = match restrict {
        Some(t) => find_team(teams, t),
        None => None,
    };
    let n = reactors.len();
    let mut count: usize = start;
    let mut i: usize = 0;
    while i < n
        invariant
            n == reactors@.len(),
            i <= n,
            count == capped(
                base + valid_votes(roster(teams@), restriction(*restrict), reactors@.take(i as int)),
            ),
            match *restrict {
                Some(t) => home is Some == has_team(roster(teams@), t@) && (home matches Some(h)
                    ==> h == team_index(roster(teams@), t@) && h < teams@.len()),
                None => true,
            },
        decreases n - i,
    {
        let player = reactors[i];
        let valid = match restrict {
            None => true,
            Some(_) => match home {
                Some(h) => {
                    assert(roster(teams@)[h as int].players == teams@[h as int].players@);
                    teams[h].players.contains(&player)
                },
                None => false,
            },
        };
        proof {
            assert(reactors@.take(i + 1).drop_last() =~= reactors@.take(i as int));
            assert(reactors@.take(i + 1).last() == player);
            assert(valid == may_vote(roster(teams@), restriction(*restrict), player));
        }
        if valid && count < usize::MAX {
            count += 1;
        }
        i += 1;
    }
    proof {
        assert(reactors@.take(n as int) =~= reactors@);
    }
    count
}

/// The votes that count for option `k` over all reads.
pub fn count_votes(
    teams: &Vec<Team>,
    restrict: &Option<TeamId>,
    reads: &Vec<Vec<Vec<u64>>>,
    k: usize,
) -> (r: usize)
    ensures
        r == tally(roster(teams@), restriction(*restrict), reads@, k as int),
{
    let n = reads.len();
    let mut count: usize = 0;
    let mut m: usize = 0;
    while m < n
        invariant
            n == reads@.len(),
            m <= n,
            count == capped(
                option_votes(roster(teams@), restriction(*restrict), reads@, k as int, m as int),
            ),
        decreases n - m,
    {
        if k < reads[m].len() {
            count = count_valid(
                teams,
                restrict,
                &reads[m][k],
                count,
                Ghost(
                    option_votes(
                        roster(teams@),
                        restriction(*restrict),
                        reads@,
                        k as int,
                        m as int,
                    ),
                ),
            );
        }
        m += 1;
    }
    count
}

/// The number of categories that the pool still holds.
pub fn remaining_category_count(pool: &Vec<Question>) -> (r: usize)
    ensures
        r == champion_count(pool@, pool@.len() as int),
{
    champions(pool).len()
}

/// The places of the champions of the pool, in rising order.
fn champions(pool: &Vec<Question>) -> (r: Vec<usize>)
    ensures
        r@.len() == champion_count(pool@, pool@.len() as int),
        r@.no_duplicates(),
        forall|k: int| 0 <= k < r@.len() ==> is_champion(pool@, #[trigger] r@[k] as int),
{
    let n = pool.len();
    let mut r: Vec<usize> = Vec::new();
    let mut i: usize = 0;
    while i < n
        invariant
            n == pool@.len(),
            i <= n,
            r@.len() == champion_count(pool@, i as int),
            forall|k: int| 0 <= k < r@.len() ==> #[trigger] r@[k] < i,
            r@.no_duplicates(),
            forall|k: int| 0 <= k < r@.len() ==> is_champion(pool@, #[trigger] r@[k] as int),
        decreases n - i,
    {
        let mut best = true;
        let mut j: usize = 0;
        while j < n
            invariant
                n == pool@.len(),
                i < n,
                j <= n,
                best == forall|t: int|
                    0 <= t < j && (#[trigger] pool@[t]).category@ == pool@[i as int].category@
                        ==> !(pool@[t].score_value < pool@[i as int].score_value || (
                    pool@[t].score_value == pool@[i as int].score_value && t < i)),
            decreases n - j,
        {
            if pool[j].category == pool[i].category && (pool[j].score_value < pool[i].score_value
                || (pool[j].score_value == pool[i].score_value && j < i)) {
                best = false;
            }
            j += 1;
        }
        if best {
            r.push(i);
        }
        i += 1;
    }
    r
}

/// The places `drawn` of the pool, put in the order of their categories.
fn order_by_category(remaining_questions: &Vec<Question>, drawn: &Vec<usize>) -> (order: Vec<usize>)
    requires
        drawn@.no_duplicates(),
        forall|t: int|
            0 <= t < drawn@.len() ==> is_champion(remaining_questions@, #[trigger] drawn@[t] as int),
    ensures
        order@.len() == drawn@.len(),
        forall|m: int|
            0 <= m < order@.len() ==> is_champion(remaining_questions@, #[trigger] order@[m] as int),
        forall|a: int, b: int|
            0 <= a < b < order@.len() ==> #[trigger] order@[a] != #[trigger] order@[b],
        places_in_category_order(remaining_questions@, order@),
{
    let n = drawn.len();
    let ghost pool = remaining_questions@;
    // The drawn places, in the order of their categories.
    let mut order: Vec<usize> = Vec::new();
    let mut k: usize = 0;
    while k < n
        invariant
            n == drawn@.len(),
            pool == remaining_questions@,
            k <= n,
            order@.len() == k,
            drawn@.no_duplicates(),
            forall|t: int| 0 <= t < n ==> is_champion(pool, #[trigger] drawn@[t] as int),
            forall|m: int|
                0 <= m < order@.len() ==> exists|t: int|
                    0 <= t < k && #[trigger] drawn@[t] == #[trigger] order@[m],
            forall|a: int, b: int|
                0 <= a < b < order@.len() ==> #[trigger] order@[a] != #[trigger] order@[b],
            places_in_category_order(pool, order@),
        decreases n - k,
    {
        let x = drawn[k];
        assert(is_champion(pool, drawn@[k as int] as int));
        let m = order.len();
        let mut p: usize = 0;
        while p < m && text_precedes(
            remaining_questions[order[p]].category.as_str(),
            remaining_questions[x].category.as_str(),
        )
            invariant
                m == order@.len(),
                p <= m,
                pool == remaining_questions@,
                0 <= x < pool.len(),
                forall|i: int| 0 <= i < m ==> 0 <= #[trigger] order@[i] < pool.len(),
                forall|i: int|
                    0 <= i < p ==> text_le(
                        pool[#[trigger] order@[i] as int].category@,
                        pool[x as int].category@,
                    ),
            decreases m - p,
        {
            p += 1;
        }
        let ghost before = order@;
        proof {
            assert forall|i: int| 0 <= i < m implies 0 <= #[trigger] order@[i] < pool.len() by {
                let t = choose|t: int| 0 <= t < k && #[trigger] drawn@[t] == order@[i];
                assert(is_champion(pool, drawn@[t] as int));
            }
        }
        order.insert(p, x);
        proof {
            let after = order@;
            assert(after =~= before.insert(p as int, x));
            if p < m {
                lemma_text_le_total(
                    pool[before[p as int] as int].category@,
                    pool[x as int].category@,
                );
            }
            assert forall|i: int, j: int| 0 <= i && j == i + 1 && j < after.len() implies text_le(
                pool[#[trigger] after[i] as int].category@,
                pool[#[trigger] after[j] as int].category@,
            ) by {
                if j < p {
                    assert(after[i] == before[i] && after[j] == before[j]);
                } else if j == p {
                    assert(after[i] == before[i]);
                } else if i == p {
                    assert(after[j] == before[p as int]);
                } else {
                    assert(after[i] == before[i - 1] && after[j] == before[j - 1]);
                }
            }
            assert forall|a: int| 0 <= a < after.len() implies exists|t: int|
                0 <= t < k + 1 && #[trigger] drawn@[t] == #[trigger] after[a] by {
                if a < p {
                    assert(after[a] == before[a]);
                    let t = choose|t: int| 0 <= t < k && #[trigger] drawn@[t] == before[a];
                    assert(drawn@[t] == after[a]);
                } else if a == p {
                    assert(drawn@[k as int] == after[a]);
                } else {
                    assert(after[a] == before[a - 1]);
                    let t = choose|t: int| 0 <= t < k && #[trigger] drawn@[t] == before[a - 1];
                    assert(drawn@[t] == after[a]);
                }
            }
            assert forall|a: int, b: int| 0 <= a < b < after.len() implies #[trigger] after[a]
                != #[trigger] after[b] by {
                let ia = if a < p { a } else { a - 1 };
                let ib = if b < p { b } else { b - 1 };
                if a != p && b != p {
                    assert(after[a] == before[ia] && after[b] == before[ib]);
                } else if a == p {
                    assert(after[b] == before[ib]);
                    let t = choose|t: int| 0 <= t < k && #[trigger] drawn@[t] == before[ib];
                    assert(drawn@[t] != drawn@[k as int]);
                } else {
                    assert(after[a] == before[ia]);
                    let t = choose|t: int| 0 <= t < k && #[trigger] drawn@[t] == before[ia];
                    assert(drawn@[t] != drawn@[k as int]);
                }
            }
        }
        k += 1;
    }
    proof {
        assert forall|m: int| 0 <= m < order@.len() implies is_champion(
            pool,
            #[trigger] order@[m] as int,
        ) by {
            let t = choose|t: int| 0 <= t < n && #[trigger] drawn@[t] == order@[m];
            assert(is_champion(pool, drawn@[t] as int));
        }
    }
    order
}

impl VoteState {
    /// At most ten options, in the order of their categories.
    pub open spec fn wf(&self) -> bool {
        &&& self.vote_options@.len() <= MAX_VOTE_REACTIONS
        &&& in_category_order(self.vote_options@)
    }

    /// The options of a vote on `remaining_questions`: for each category
    /// the question it offers, its lowest-valued one. Where there are more
    /// categories than `max_vote_options`, or than the ten a poll can
    /// carry, that many of them are drawn at random. The options stand in
    /// the order of their categories, and no two share a category.
    pub fn select_vote_options(remaining_questions: &Vec<Question>, max_vote_options: usize) -> (r:
        Vec<Question>)
        ensures
            r@.len() == vstd::math::min(
                vstd::math::min(max_vote_options as int, MAX_VOTE_REACTIONS as int),
                champion_count(remaining_questions@, remaining_questions@.len() as int) as int,
            ),
            forall|k: int| 0 <= k < r@.len() ==> offered(remaining_questions@, #[trigger] r@[k]),
            in_category_order(r@),
            forall|a: int, b: int|
                0 <= a < b < r@.len() ==> (#[trigger] r@[a]).category@ != (
                #[trigger] r@[b]).category@,
    {
        let cap = if max_vote_options < MAX_VOTE_REACTIONS {
            max_vote_options
        } else {
            MAX_VOTE_REACTIONS
        };
        let candidates = champions(remaining_questions);
        let drawn = pick_some(&candidates, cap);
        let n = drawn.len();
        let ghost pool = remaining_questions@;
        proof {
            assert forall|k: int| 0 <= k < n implies is_champion(pool, #[trigger] drawn@[k] as int) by {
                assert(candidates@.contains(drawn@[k]));
                let i = choose|i: int| 0 <= i < candidates@.len() && candidates@[i] == drawn@[k];
                assert(is_champion(pool, candidates@[i] as int));
            }
        }
        let order = order_by_category(remaining_questions, &drawn);
        let mut r: Vec<Question> = Vec::new();
        let mut i: usize = 0;
        while i < n
            invariant
                n == order@.len(),
                pool == remaining_questions@,
                i <= n,
                r@.len() == i,
                forall|m: int| 0 <= m < n ==> is_champion(pool, #[trigger] order@[m] as int),
                forall|m: int| 0 <= m < i ==> (#[trigger] r@[m]).is_copy_of(pool[order@[m] as int]),
            decreases n - i,
        {
            assert(is_champion(pool, order@[i as int] as int));
            r.push(remaining_questions[order[i]].duplicate());
            i += 1;
        }
        proof {
            assert forall|a: int, b: int| 0 <= a < b < r@.len() implies (#[trigger] r@[a]).category@
                != (#[trigger] r@[b]).category@ by {
                let x = order@[a] as int;
                let y = order@[b] as int;
                assert(is_champion(pool, x) && is_champion(pool, y));
                assert(x != y);
                if pool[x].category@ == pool[y].category@ {
                    assert(pool[y].category@ == pool[x].category@);
                    assert(pool[x].category@ == pool[y].category@);
                }
            }
            assert forall|k: int| 0 <= k < r@.len() implies offered(pool, #[trigger] r@[k]) by {
                assert(is_champion(pool, order@[k] as int));
            }
            assert forall|i: int, j: int| 0 <= i && j == i + 1 && j < r@.len() implies text_le(
                (#[trigger] r@[i]).category@,
                (#[trigger] r@[j]).category@,
            ) by {
                assert(text_le(
                    pool[order@[i] as int].category@,
                    pool[order@[j] as int].category@,
                ));
            }
        }
        r
    }

    /// A vote on `remaining_questions`, open to all or to `voting_team` alone.
    pub fn new(
        duration: u64,
        remaining_questions: &Vec<Question>,
        voting_team: Option<TeamId>,
        max_vote_options: usize,
    ) -> (r: VoteState)
        ensures
            r.wf(),
            r.time_elapsed == 0,
            r.time_to_wait == duration,
            r.voting_team == voting_team,
            !r.poll_posted,
            r.vote_options@.len() == vstd::math::min(
                vstd::math::min(max_vote_options as int, MAX_VOTE_REACTIONS as int),
                champion_count(remaining_questions@, remaining_questions@.len() as int) as int,
            ),
            forall|k: int|
                0 <= k < r.vote_options@.len() ==> offered(
                    remaining_questions@,
                    #[trigger] r.vote_options@[k],
                ),
            forall|a: int, b: int|
                0 <= a < b < r.vote_options@.len() ==> (#[trigger] r.vote_options@[a]).category@
                    != (#[trigger] r.vote_options@[b]).category@,
    {
        VoteState {
            time_elapsed: 0,
            time_to_wait: duration,
            vote_options: Self::select_vote_options(remaining_questions, max_vote_options),
            voting_team,
            poll_posted: false,
        }
    }

    /// Whether there is a poll to count: it was sent, it had options, and
    /// at least one message that carried it was read.
    pub open spec fn has_poll(&self, reads: Seq<Vec<Vec<u64>>>) -> bool {
        self.poll_posted && self.vote_options@.len() > 0 && reads.len() > 0
    }

    /// Whether `q` is an option that has as many votes as any.
    pub open spec fn wins(&self, r: Seq<TeamView>, reads: Seq<Vec<Vec<u64>>>, q: Question) -> bool {
        exists|w: int|
            #[trigger] is_winner(
                r,
                restriction(self.voting_team),
                reads,
                self.vote_options@.len() as int,
                w,
            ) && q.is_copy_of(self.vote_options@[w])
    }

    /// The places of the options that have as many votes as any, rising.
    /// `reads` holds, for each message that carried the poll, the players
    /// that reacted to each option.
    pub fn vote_leaders(&self, teams: &Vec<Team>, reads: &Vec<Vec<Vec<u64>>>) -> (r: Vec<usize>)
        ensures
            forall|i: int|
                0 <= i < r@.len() ==> is_winner(
                    roster(teams@),
                    restriction(self.voting_team),
                    reads@,
                    self.vote_options@.len() as int,
                    #[trigger] r@[i] as int,
                ),
            forall|w: int|
                #[trigger] is_winner(
                    roster(teams@),
                    restriction(self.voting_team),
                    reads@,
                    self.vote_options@.len() as int,
                    w,
                ) ==> r@.contains(w as usize),
            forall|i: int, j: int| 0 <= i < j < r@.len() ==> #[trigger] r@[i] < #[trigger] r@[j],
            self.vote_options@.len() > 0 ==> r@.len() > 0,
    {
        let n = self.vote_options.len();
        let ghost ro = roster(teams@);
        let ghost re = restriction(self.voting_team);
        let mut counts: Vec<usize> = Vec::new();
        let mut best: usize = 0;
        let mut k: usize = 0;
        while k < n
            invariant
                n == self.vote_options@.len(),
                ro == roster(teams@),
                re == restriction(self.voting_team),
                k <= n,
                counts@.len() == k,
                forall|i: int| 0 <= i < k ==> #[trigger] counts@[i] == tally(ro, re, reads@, i),
                forall|i: int| 0 <= i < k ==> #[trigger] counts@[i] <= best,
                k > 0 ==> exists|i: int| 0 <= i < k && #[trigger] counts@[i] == best,
            decreases n - k,
        {
            let c = count_votes(teams, &self.voting_team, reads, k);
            let ghost before = counts@;
            counts.push(c);
            if c > best || k == 0 {
                best = c;
                assert(counts@[k as int] == best);
            } else {
                proof {
                    let i = choose|i: int| 0 <= i < k && #[trigger] before[i] == best;
                    assert(counts@[i] == best);
                }
            }
            k += 1;
        }
        let mut r: Vec<usize> = Vec::new();
        let mut w: usize = 0;
        while w < n
            invariant
                n == self.vote_options@.len(),
                counts@.len() == n,
                w <= n,
                forall|i: int| 0 <= i < n ==> #[trigger] counts@[i] == tally(ro, re, reads@, i),
                forall|i: int| 0 <= i < n ==> #[trigger] counts@[i] <= best,
                forall|i: int| 0 <= i < r@.len() ==> #[trigger] r@[i] < w && counts@[r@[i] as int] == best,
                forall|x: int| 0 <= x < w && #[trigger] counts@[x] == best ==> r@.contains(x as usize),
                forall|i: int, j: int| 0 <= i < j < r@.len() ==> #[trigger] r@[i] < #[trigger] r@[j],
            decreases n - w,
        {
            if counts[w] == best {
                let ghost before = r@;
                r.push(w);
                proof {
                    assert(r@[before.len() as int] == w);
                    assert forall|x: int| 0 <= x < w + 1 && #[trigger] counts@[x] == best implies r@.contains(x as usize) by {
                        if x < w {
                            assert(before.contains(x as usize));
                            let i = choose|i: int| 0 <= i < before.len() && before[i] == x as usize;
                            assert(r@[i] == x as usize);
                        }
                    }
                }
            }
            w += 1;
        }
        proof {
            assert forall|i: int| 0 <= i < r@.len() implies is_winner(ro, re, reads@, n as int, #[trigger] r@[i] as int) by {
                let x = r@[i] as int;
                assert forall|k: int| 0 <= k < n implies #[trigger] tally(ro, re, reads@, k) <= tally(ro, re, reads@, x) by {
                    assert(counts@[k] <= best);
                    assert(counts@[x] == best);
                }
            }
            assert forall|x: int| #[trigger] is_winner(ro, re, reads@, n as int, x) implies r@.contains(x as usize) by {
                let i = choose|i: int| 0 <= i < n && #[trigger] counts@[i] == best;
                assert(tally(ro, re, reads@, i) <= tally(ro, re, reads@, x));
                assert(counts@[x] == best);
            }
            if n > 0 {
                let i = choose|i: int| 0 <= i < n && #[trigger] counts@[i] == best;
                assert(r@.contains(i as usize));
            }
        }
        r
    }

    /// The option that `leader`, one of the leaders, stands for.
    pub fn winning_question(&self, leader: usize) -> (q: Question)
        requires
            leader < self.vote_options@.len(),
        ensures
            q.is_copy_of(self.vote_options@[leader as int]),
    {
        self.vote_options[leader].duplicate()
    }

    /// Counts the vote. Where there is no poll to count, `NoPollRecorded`.
    /// Otherwise the result is an option that has as many votes as any:
    /// which of several such options it is, is left to chance.
    pub fn compute_vote_result(&self, teams: &Vec<Team>, reads: &Vec<Vec<Vec<u64>>>) -> (r: Result<
        Question,
        GameError,
    >)
        ensures
            r is Ok == self.has_poll(reads@),
            r is Err ==> r->Err_0 == GameError::NoPollRecorded,
            r is Ok ==> self.wins(roster(teams@), reads@, r->Ok_0),
    {
        if !self.poll_posted || self.vote_options.len() == 0 || reads.len() == 0 {
            return Err(GameError::NoPollRecorded);
        }
        let leaders = self.vote_leaders(teams, reads);
        match pick_one(&leaders) {
            Some(w) => {
                proof {
                    let i = choose|i: int| 0 <= i < leaders@.len() && leaders@[i] == w;
                    assert(is_winner(
                        roster(teams@),
                        restriction(self.voting_team),
                        reads@,
                        self.vote_options@.len() as int,
                        leaders@[i] as int,
                    ));
                }
                Ok(self.winning_question(w))
            },
            None => Err(GameError::NoPollRecorded),
        }
    }

    /// Sends out the poll: to the voting team where there is one, while the
    /// others are told to wait, and else to every team.
    pub fn on_begin(&mut self, out: &mut Vec<Action>)
        requires
            old(self).wf(),
        ensures
            *final(self) == (VoteState { poll_posted: true, ..*old(self) }),
            extends(old(out)@, final(out)@),
            begin_emits(*old(self), emitted(old(out)@, final(out)@)),
    {
        let recipient = match &self.voting_team {
            Some(team_id) => {
                out.push(
                    Action::Say(
                        Recipient::AllTeamsExcept(team_id.duplicate()),
                        Message::VoteWait(team_id.duplicate()),
                    ),
                );
                Recipient::Team(team_id.duplicate())
            },
            None => Recipient::AllTeams,
        };
        let n = self.vote_options.len();
        let mut reactions: Vec<String> = Vec::new();
        let mut lines: Vec<(String, String, u32)> = Vec::new();
        let mut i: usize = 0;
        while i < n
            invariant
                n == self.vote_options@.len(),
                n <= MAX_VOTE_REACTIONS,
                i <= n,
                reactions@.len() == i,
                lines@.len() == i,
                forall|k: int|
                    0 <= k < i ==> (#[trigger] lines@[k]).0@ == reaction_text(k) && reactions@[k]@
                        == reaction_text(k) && lines@[k].1@ == self.vote_options@[k].category@
                        && lines@[k].2 == self.vote_options@[k].score_value,
            decreases n - i,
        {
            let glyph = vote_reaction(i);
            reactions.push(glyph.to_owned());
            lines.push(
                (
                    glyph.to_owned(),
                    self.vote_options[i].category.clone(),
                    self.vote_options[i].score_value,
                ),
            );
            i += 1;
        }
        out.push(Action::Poll(recipient, Message::VotePoll(lines), reactions));
        self.poll_posted = true;
        proof {
            let e = emitted(old(out)@, out@);
            assert(e.last() == out@.last());
            assert(is_poll(e.last(), old(self).vote_options@, restriction(old(self).voting_team)));
            match old(self).voting_team {
                Some(t) => {
                    assert(e[0] == out@[old(out)@.len() as int]);
                    assert(e.len() == 2 && tells_vote_wait(e[0], t@));
                },
                None => {
                    assert(e.len() == 1);
                },
            }
            assert(begin_emits(*old(self), e));
        }
    }

    /// Lets `dt` pass.
    pub fn on_tick(&mut self, dt: u64)
        ensures
            *final(self) == (VoteState {
                time_elapsed: clock_after(old(self).time_elapsed, dt),
                ..*old(self)
            }),
    {
        self.time_elapsed = advance_clock(self.time_elapsed, dt);
    }

    /// Nothing is left to do when the vote ends: the count is taken by the match.
    pub fn on_end(&mut self)
        ensures
            *final(self) == *old(self),
    {
    }

    /// A vote runs its full time.
    pub fn is_over(&self) -> (r: bool)
        ensures
            r == (self.time_elapsed >= self.time_to_wait),
    {
        self.time_elapsed >= self.time_to_wait
    }
}

} // verus!
