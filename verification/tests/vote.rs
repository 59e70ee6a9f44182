use level_99::definition::{Question, RawQuestion};
use level_99::error::GameError;
use level_99::output::{Action, Message, Recipient};
use level_99::phase::vote::{count_votes, remaining_category_count, vote_reaction, VoteState};
use level_99::team::{Team, TeamId};

const SECOND: u64 = 1000;

fn id(name: &str) -> TeamId {
    TeamId::TeamName(name.to_string())
}

fn teams() -> Vec<Team> {
    let mut teams = Vec::new();
    for (team_index, name) in ["red", "blue"].iter().enumerate() {
        let mut team = Team::new(id(name));
        for i in 1..=2 {
            team.players.insert((team_index * 100 + i) as u64);
        }
        teams.push(team);
    }
    teams
}

fn numbered_questions(num_questions: usize) -> Vec<Question> {
    let mut questions = Vec::new();
    for i in 1..=num_questions {
        questions.push(Question::from_raw(&RawQuestion {
            url: format!("example url {}", i),
            answer: format!("example answer {}", i),
            acceptable_answers: Some("acceptable answer 1|acceptable answer 2".to_string()),
            category: format!("example category {}", i),
            score_value: (i * 100) as u32,
            challenge: false,
            duration_seconds: None,
        }));
    }
    questions
}

fn question(url: &str, category: &str, score_value: u32, challenge: bool) -> Question {
    Question::from_raw(&RawQuestion {
        url: url.to_owned(),
        answer: format!("answer of {}", url),
        acceptable_answers: Some("acceptable answer 1|acceptable answer 2".to_string()),
        category: category.to_owned(),
        score_value,
        challenge,
        duration_seconds: None,
    })
}

fn poll_of(out: &Vec<Action>) -> Option<(Recipient, Vec<(String, String, u32)>, Vec<String>)> {
    for action in out {
        if let Action::Poll(to, Message::VotePoll(lines), glyphs) = action {
            return Some((to.clone(), lines.clone(), glyphs.clone()));
        }
    }
    None
}

#[test]
fn display_last_remaining_questions() {
    let max_vote_options = 4;
    let remaining_questions_count = 3;
    let remaining_questions = numbered_questions(remaining_questions_count);

    let state = VoteState::new(10 * SECOND, &remaining_questions, None, max_vote_options);

    assert_eq!(remaining_questions.len(), remaining_questions_count);
    assert_eq!(state.vote_options.len(), remaining_questions_count);
}

#[test]
fn display_no_more_than_max_questions() {
    let max_vote_options = 2;
    let remaining_questions_count = 3;
    let remaining_questions = numbered_questions(remaining_questions_count);

    let state = VoteState::new(10 * SECOND, &remaining_questions, None, max_vote_options);

    assert_eq!(state.vote_options.len(), max_vote_options);
}

#[test]
fn displays_question_values() {
    let remaining_questions = vec![
        question("example url 1", "cat A", 100, false),
        question("example url 2", "cat B", 200, true),
    ];
    let mut state = VoteState::new(10 * SECOND, &remaining_questions, None, 5);
    let mut out = Vec::new();

    state.on_begin(&mut out);

    let (to, message, _) = poll_of(&out).unwrap();
    assert_eq!(to, Recipient::AllTeams);
    assert!(message.iter().any(|(_, category, score)| category == "cat A" && *score == 100));
    assert!(message.iter().any(|(_, category, score)| category == "cat B" && *score == 200));
}

#[test]
fn only_one_team_can_vote() {
    let red = id("red");
    let teams = teams();
    let remaining_questions = numbered_questions(3);
    let mut state = VoteState::new(10 * SECOND, &remaining_questions, Some(red.clone()), 5);

    let red_team = teams.iter().find(|team| team.id == red).unwrap();
    let red_user_id = *red_team.players.iter().next().unwrap();

    let mut out = Vec::new();
    state.on_begin(&mut out);

    // The poll goes to red alone; blue is told to wait.
    let (to, poll, _) = poll_of(&out).unwrap();
    assert_eq!(to, Recipient::Team(red.clone()));
    assert_eq!(out[0], Action::Say(Recipient::AllTeamsExcept(red.clone()), Message::VoteWait(red.clone())));

    let (_reaction, category, _value) = poll[0].clone();
    let reads = vec![vec![vec![red_user_id], vec![], vec![]]];

    assert_eq!(state.compute_vote_result(&teams, &reads).unwrap().category, category);
}

#[test]
fn restricted_vote_ignores_other_teams() {
    let teams = teams();
    let remaining_questions = numbered_questions(3);
    let mut state = VoteState::new(10 * SECOND, &remaining_questions, Some(id("red")), 5);
    let mut out = Vec::new();
    state.on_begin(&mut out);
    // Two blue players and a stranger vote for the second option, one red
    // player for the third.
    let reads = vec![vec![vec![], vec![101, 102, 999], vec![2]]];
    assert_eq!(count_votes(&teams, &state.voting_team, &reads, 0), 0);
    assert_eq!(count_votes(&teams, &state.voting_team, &reads, 1), 0);
    assert_eq!(count_votes(&teams, &state.voting_team, &reads, 2), 1);
    assert_eq!(state.vote_leaders(&teams, &reads), vec![2]);
    assert_eq!(
        state.compute_vote_result(&teams, &reads).unwrap().category,
        "example category 3"
    );
    // With the vote open to all, the second option wins.
    assert_eq!(count_votes(&teams, &None, &reads, 1), 3);
    state.voting_team = None;
    assert_eq!(state.vote_leaders(&teams, &reads), vec![1]);
}

#[test]
fn restricted_vote_for_a_team_that_is_gone_counts_nobody() {
    let teams = teams();
    let reads = vec![vec![vec![1, 2, 101]]];
    assert_eq!(count_votes(&teams, &Some(id("green")), &reads, 0), 0);
}

#[test]
fn votes_add_up_over_all_messages() {
    let teams = teams();
    let remaining_questions = numbered_questions(2);
    let mut state = VoteState::new(10 * SECOND, &remaining_questions, None, 5);
    let mut out = Vec::new();
    state.on_begin(&mut out);
    let reads = vec![vec![vec![1], vec![2, 101]], vec![vec![102, 1], vec![]], vec![vec![7]]];
    assert_eq!(count_votes(&teams, &None, &reads, 0), 4);
    assert_eq!(count_votes(&teams, &None, &reads, 1), 2);
    assert_eq!(count_votes(&teams, &None, &reads, 5), 0);
    assert_eq!(state.vote_leaders(&teams, &reads), vec![0]);
    assert_eq!(state.winning_question(0).category, "example category 1");
}

#[test]
fn a_tie_is_broken_among_the_leaders() {
    let teams = teams();
    let remaining_questions = numbered_questions(3);
    let mut state = VoteState::new(10 * SECOND, &remaining_questions, None, 5);
    let mut out = Vec::new();
    state.on_begin(&mut out);
    let reads = vec![vec![vec![1], vec![], vec![2]]];
    assert_eq!(state.vote_leaders(&teams, &reads), vec![0, 2]);
    for _ in 0..20 {
        let winner = state.compute_vote_result(&teams, &reads).unwrap();
        assert!(winner.category == "example category 1" || winner.category == "example category 3");
    }
}

#[test]
fn no_poll_no_result() {
    let teams = teams();
    let remaining_questions = numbered_questions(3);
    let mut state = VoteState::new(10 * SECOND, &remaining_questions, None, 5);
    let reads = vec![vec![vec![1], vec![], vec![]]];
    assert_eq!(state.compute_vote_result(&teams, &reads).unwrap_err(), GameError::NoPollRecorded);
    let mut out = Vec::new();
    state.on_begin(&mut out);
    assert!(state.compute_vote_result(&teams, &reads).is_ok());
    assert_eq!(state.compute_vote_result(&teams, &Vec::new()).unwrap_err(), GameError::NoPollRecorded);
    let mut empty = VoteState::new(10 * SECOND, &Vec::new(), None, 5);
    empty.on_begin(&mut out);
    assert_eq!(empty.compute_vote_result(&teams, &reads).unwrap_err(), GameError::NoPollRecorded);
}

#[test]
fn each_category_offers_its_cheapest_question() {
    let pool = vec![
        question("u1", "rock", 300, false),
        question("u2", "jazz", 200, false),
        question("u3", "rock", 100, false),
        question("u4", "jazz", 200, true),
        question("u5", "pop", 500, false),
    ];
    assert_eq!(remaining_category_count(&pool), 3);
    let state = VoteState::new(15 * SECOND, &pool, None, 6);
    let offered: Vec<(String, String)> =
        state.vote_options.iter().map(|q| (q.category.clone(), q.url.clone())).collect();
    assert_eq!(
        offered,
        vec![
            ("jazz".to_string(), "u2".to_string()),
            ("pop".to_string(), "u5".to_string()),
            ("rock".to_string(), "u3".to_string()),
        ]
    );
}

#[test]
fn a_poll_carries_at_most_ten_options_in_category_order() {
    let pool = numbered_questions(14);
    let mut state = VoteState::new(15 * SECOND, &pool, None, 50);
    assert_eq!(state.vote_options.len(), 10);
    for pair in state.vote_options.windows(2) {
        assert!(pair[0].category < pair[1].category);
    }
    let mut out = Vec::new();
    state.on_begin(&mut out);
    let (_, lines, glyphs) = poll_of(&out).unwrap();
    assert_eq!(lines.len(), 10);
    assert_eq!(glyphs.len(), 10);
    assert_eq!(glyphs[0], vote_reaction(0));
    assert_eq!(glyphs[9], "🔟");
    assert_eq!(lines[3].0, glyphs[3]);
    assert!(VoteState::select_vote_options(&pool, 0).is_empty());
}

#[test]
fn vote_runs_its_full_time() {
    let pool = numbered_questions(2);
    let mut state = VoteState::new(15 * SECOND, &pool, None, 6);
    assert!(!state.is_over());
    state.on_tick(14_999);
    assert!(!state.is_over());
    state.on_tick(1);
    assert!(state.is_over());
    state.on_end();
    assert!(state.is_over());
}
