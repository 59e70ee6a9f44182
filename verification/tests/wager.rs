use level_99::definition::{Question, RawQuestion};
use level_99::error::GameError;
use level_99::output::{Action, Message, Recipient, Sound};
use level_99::phase::wager::WagerState;
use level_99::team::{Team, TeamId};

const SECOND: u64 = 1000;

fn id(name: &str) -> TeamId {
    TeamId::TeamName(name.to_string())
}

struct Context {
    state: WagerState,
    teams: Vec<Team>,
    out: Vec<Action>,
}

fn build(participants: Vec<TeamId>) -> Context {
    let question = Question::from_raw(&RawQuestion {
        url: "example url".to_owned(),
        answer: "example answer".to_owned(),
        acceptable_answers: Some("acceptable answer 1|acceptable answer 2".to_string()),
        category: "example category".to_owned(),
        score_value: 100,
        challenge: true,
        duration_seconds: None,
    });
    let teams: Vec<Team> = ["red", "blue"].iter().map(|n| Team::new(id(n))).collect();
    let max_question_score_value = 2000;
    let state = WagerState::new(question, 10 * SECOND, participants, max_question_score_value);
    Context { state, teams, out: Vec::new() }
}

fn all_teams() -> Vec<TeamId> {
    vec![id("red"), id("blue")]
}

#[test]
fn one_team_one_wager() {
    let red = id("red");
    let mut ctx = build(vec![red.clone()]);
    let wager = 1000;

    assert!(ctx.state.wager(&ctx.teams, &red, wager).is_ok());

    assert!(ctx.state.is_over());
    assert_eq!(ctx.state.wager_of(&red).unwrap(), wager);
}

#[test]
fn no_wager() {
    let mut ctx = build(all_teams());
    let red = id("red");

    assert!(!ctx.state.is_over());
    ctx.state.on_begin(&ctx.teams, &mut ctx.out);
    assert!(!ctx.state.is_over());
    ctx.state.on_tick(30 * SECOND, &mut ctx.out);
    assert!(ctx.state.is_over());
    ctx.state.on_end(&mut ctx.out);
    assert_eq!(ctx.state.wager_of(&red).unwrap(), ctx.state.question.score_value);
}

#[test]
fn one_team_wager_too_big() {
    let red = id("red");
    let mut ctx = build(vec![red.clone()]);

    assert!(ctx.state.wager(&ctx.teams, &red, 10_000).is_ok());
    assert!(ctx.state.is_over());
    assert_eq!(ctx.state.wager_of(&red).unwrap(), 2 * ctx.state.max_question_score_value);
}

#[test]
fn one_team_wager_too_small() {
    let red = id("red");
    let mut ctx = build(vec![red.clone()]);

    assert!(ctx.state.wager(&ctx.teams, &red, 10).is_ok());

    assert!(ctx.state.is_over());
    assert_eq!(ctx.state.wager_of(&red).unwrap(), ctx.state.question.score_value);
}

#[test]
fn two_team_with_wagers() {
    let red = id("red");
    let blue = id("blue");
    let mut ctx = build(all_teams());
    let red_wager = 1000;
    let blue_wager = 2000;

    assert!(ctx.state.wager(&ctx.teams, &red, red_wager).is_ok());
    assert!(!ctx.state.is_over());
    assert!(ctx.state.wager(&ctx.teams, &blue, blue_wager).is_ok());
    assert!(ctx.state.is_over());

    assert_eq!(ctx.state.wager_of(&red).unwrap(), red_wager);
    assert_eq!(ctx.state.wager_of(&blue).unwrap(), blue_wager);
}

#[test]
fn outsiders_cannot_wager() {
    let mut ctx = build(vec![id("red")]);
    assert_eq!(ctx.state.wager(&ctx.teams, &id("blue"), 500), Err(GameError::NotAParticipant));
    assert_eq!(ctx.state.wager_of(&id("blue")), None);
    assert_eq!(ctx.state.wager_amounts, vec![100]);
    assert!(!ctx.state.is_over());
}

#[test]
fn a_high_score_raises_the_cap() {
    let mut ctx = build(all_teams());
    ctx.teams[0].score = 9000;
    ctx.teams[1].score = -50;
    assert_eq!(ctx.state.get_wager_cap(&ctx.teams, &id("red")), 9000);
    assert_eq!(ctx.state.get_wager_cap(&ctx.teams, &id("blue")), 4000);
    assert_eq!(ctx.state.get_wager_cap(&ctx.teams, &id("nobody")), 4000);
    ctx.state.wager(&ctx.teams, &id("red"), 20_000).unwrap();
    assert_eq!(ctx.state.wager_of(&id("red")), Some(9000));
}

#[test]
fn a_repeated_wager_overwrites_the_first() {
    let mut ctx = build(all_teams());
    ctx.state.wager(&ctx.teams, &id("red"), 300).unwrap();
    ctx.state.wager(&ctx.teams, &id("red"), 500).unwrap();
    assert_eq!(ctx.state.wager_of(&id("red")), Some(500));
    assert!(!ctx.state.is_over());
    assert_eq!(ctx.state.resolved_wagers(), vec![(id("red"), 500), (id("blue"), 100)]);
}

#[test]
fn wager_phase_tells_each_team_its_part() {
    let mut ctx = build(vec![id("blue")]);
    ctx.state.on_begin(&ctx.teams, &mut ctx.out);
    assert_eq!(
        ctx.out,
        vec![
            Action::PlaySound(Sound::Challenge),
            Action::Say(Recipient::AllTeams, Message::WagerBegins("example category".to_string())),
            Action::Say(Recipient::Team(id("red")), Message::WagerWait),
            Action::Say(Recipient::Team(id("blue")), Message::WagerRules(100, 4000)),
        ]
    );
    ctx.out.clear();
    ctx.state.on_end(&mut ctx.out);
    assert_eq!(
        ctx.out,
        vec![Action::Say(Recipient::AllTeams, Message::WagerResults(vec![(id("blue"), 100)]))]
    );
}

#[test]
fn wager_clock_warns_while_wagers_are_open() {
    let question = Question::from_raw(&RawQuestion {
        url: "u".to_owned(),
        answer: "a".to_owned(),
        acceptable_answers: None,
        category: "c".to_owned(),
        score_value: 100,
        challenge: true,
        duration_seconds: None,
    });
    let mut state = WagerState::new(question, 90 * SECOND, vec![id("red")], 200);
    let mut out = Vec::new();
    state.on_tick(61 * SECOND, &mut out);
    assert_eq!(out, vec![Action::Say(Recipient::AllTeams, Message::TimeRemaining(30_000))]);
    let teams = vec![Team::new(id("red"))];
    state.wager(&teams, &id("red"), 150).unwrap();
    out.clear();
    state.on_tick(20 * SECOND, &mut out);
    assert!(out.is_empty());
}
