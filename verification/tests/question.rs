use level_99::definition::{Question, RawQuestion};
use level_99::error::GameError;
use level_99::output::{Action, Message, Recipient, Sound};
use level_99::phase::question::{find_wager, to_points, QuestionState};
use level_99::team::{Team, TeamId};

const SECOND: u64 = 1000;

fn id(name: &str) -> TeamId {
    TeamId::TeamName(name.to_string())
}

fn example_question() -> RawQuestion {
    RawQuestion {
        url: "example url".to_owned(),
        answer: "example answer".to_owned(),
        acceptable_answers: None,
        category: "example category".to_owned(),
        score_value: 100,
        challenge: false,
        duration_seconds: None,
    }
}

struct Context {
    state: QuestionState,
    teams: Vec<Team>,
    out: Vec<Action>,
}

fn build(question: RawQuestion, wagers: Option<Vec<(TeamId, u32)>>) -> Context {
    let teams: Vec<Team> = ["red", "green", "blue"].iter().map(|n| Team::new(id(n))).collect();
    let participants: Vec<TeamId> = teams.iter().map(|t| t.id.clone()).collect();
    let question = Question::from_raw(&question);
    let state = QuestionState::new(question, 10 * SECOND, participants, wagers);
    Context { state, teams, out: Vec::new() }
}

fn messages(out: &Vec<Action>) -> Vec<Message> {
    let mut found = Vec::new();
    for action in out {
        match action {
            Action::Say(_, m) => found.push(m.clone()),
            Action::Poll(_, m, _) => found.push(m.clone()),
            _ => {}
        }
    }
    found
}

fn score(teams: &Vec<Team>, team: &TeamId) -> i32 {
    teams.iter().find(|t| t.id == *team).unwrap().score
}

#[test]
fn announces_question() {
    let mut ctx = build(example_question(), None);
    ctx.state.on_begin(&ctx.teams, &mut ctx.out);
    assert_eq!(messages(&ctx.out), [Message::QuestionBegins(ctx.state.question.clone())]);
    assert_eq!(ctx.out[0], Action::PlaySound(Sound::Question));
}

#[test]
fn timeout_announces_answer() {
    let mut ctx = build(example_question(), None);
    ctx.state.on_end(&mut ctx.teams, &mut ctx.out);
    assert!(messages(&ctx.out).contains(&Message::TimeUp(ctx.state.question.clone())));
}

#[test]
fn timeout_announces_scores() {
    let mut ctx = build(example_question(), None);
    let red = id("red");
    let green = id("green");
    let blue = id("blue");

    let red_score = 200;
    let green_score = 100;
    ctx.teams.iter_mut().find(|t| t.id == red).unwrap().update_score(red_score);
    ctx.teams.iter_mut().find(|t| t.id == green).unwrap().update_score(green_score);
    ctx.state.on_end(&mut ctx.teams, &mut ctx.out);

    let expected_scores =
        vec![(red.clone(), red_score), (green.clone(), green_score), (blue.clone(), 0)];
    assert!(messages(&ctx.out).contains(&Message::ScoresRecap(expected_scores)));
}

#[test]
fn times_out_after_duration() {
    let mut ctx = build(example_question(), None);
    assert!(!ctx.state.is_over());
    ctx.state.on_begin(&ctx.teams, &mut ctx.out);
    assert!(!ctx.state.is_over());
    ctx.state.on_tick(5 * SECOND, false, &mut ctx.out);
    assert!(!ctx.state.is_over());
    ctx.state.on_tick(5 * SECOND, false, &mut ctx.out);
    assert!(ctx.state.is_over());
}

#[test]
fn question_can_override_duration() {
    let mut question = example_question();
    question.duration_seconds = Some(100);
    let mut ctx = build(question, None);
    assert!(!ctx.state.is_over());
    ctx.state.on_begin(&ctx.teams, &mut ctx.out);
    assert!(!ctx.state.is_over());
    ctx.state.on_tick(99 * SECOND, false, &mut ctx.out);
    assert!(!ctx.state.is_over());
    ctx.state.on_tick(2 * SECOND, false, &mut ctx.out);
    assert!(ctx.state.is_over());
}

#[test]
fn can_only_answer_once() {
    let mut ctx = build(example_question(), None);
    let red = id("red");
    let blue = id("blue");
    assert!(ctx.state.guess(&mut ctx.teams, &blue, "random guess", &mut ctx.out).is_ok());
    assert!(ctx.state.guess(&mut ctx.teams, &red, "random guess", &mut ctx.out).is_ok());
    assert!(ctx.state.guess(&mut ctx.teams, &blue, "random guess", &mut ctx.out).is_err());
    assert!(ctx.state.guess(&mut ctx.teams, &red, "random guess", &mut ctx.out).is_err());
}

#[test]
fn only_participants_can_answer() {
    let mut ctx = build(example_question(), None);
    let yellow = id("yellow");
    assert!(ctx.state.guess(&mut ctx.teams, &yellow, "anything", &mut ctx.out).is_err());
}

#[test]
fn wrong_answer_deducts_points() {
    let mut ctx = build(example_question(), None);
    let red = id("red");
    let guess = ctx.state.question.answer[1..].to_string();
    assert!(ctx.state.guess(&mut ctx.teams, &red, &guess, &mut ctx.out).is_ok());
    let score = score(&ctx.teams, &red);
    assert!(score < 0);
    assert_eq!(-1 * ctx.state.question.score_value as i32, score);
}

#[test]
fn correct_answer_gives_points() {
    let mut ctx = build(example_question(), None);
    let red = id("red");
    let guess = ctx.state.question.answer.to_string();
    assert!(ctx.state.guess(&mut ctx.teams, &red, &guess, &mut ctx.out).is_ok());
    let score = score(&ctx.teams, &red);
    assert!(score > 0);
    assert_eq!(ctx.state.question.score_value as i32, score);
}

#[test]
fn only_first_answer_gets_full_points() {
    let mut ctx = build(example_question(), None);
    let red = id("red");
    let green = id("green");
    let blue = id("blue");
    let right = ctx.state.question.answer.to_string();
    let wrong = ctx.state.question.answer[1..].to_string();

    assert!(ctx.state.guess(&mut ctx.teams, &red, &wrong, &mut ctx.out).is_ok());
    assert_eq!(-1 * ctx.state.question.score_value as i32, score(&ctx.teams, &red));

    assert!(ctx.state.guess(&mut ctx.teams, &blue, &right, &mut ctx.out).is_ok());
    assert_eq!(ctx.state.question.score_value as i32 / 2, score(&ctx.teams, &blue));

    assert!(ctx.state.guess(&mut ctx.teams, &green, &wrong, &mut ctx.out).is_ok());
    assert_eq!(ctx.state.question.score_value as i32 / -2, score(&ctx.teams, &green));
}

#[test]
fn wager_defaults_to_question_value() {
    let mut question = example_question();
    question.challenge = true;
    let mut ctx = build(question, None);
    let red = id("red");
    let guess = ctx.state.question.answer.to_string();
    assert!(ctx.state.guess(&mut ctx.teams, &red, &guess, &mut ctx.out).is_ok());
    assert_eq!(ctx.state.question.score_value as i32, score(&ctx.teams, &red));
}

#[test]
fn wager_overrides_question_value() {
    let mut question = example_question();
    question.challenge = true;
    let red = id("red");
    let blue = id("blue");
    let red_wager_amount = 1000;
    let blue_wager_amount = 2000;
    let wagers = vec![(red.clone(), red_wager_amount), (blue.clone(), blue_wager_amount)];
    let mut ctx = build(question, Some(wagers));
    let right = ctx.state.question.answer.to_string();
    let wrong = ctx.state.question.answer[1..].to_string();

    assert_eq!(0, score(&ctx.teams, &red));

    assert!(ctx.state.guess(&mut ctx.teams, &red, &right, &mut ctx.out).is_ok());
    assert_eq!(red_wager_amount as i32, score(&ctx.teams, &red));

    assert!(ctx.state.guess(&mut ctx.teams, &blue, &wrong, &mut ctx.out).is_ok());
    assert_eq!(blue_wager_amount as i32 * -1, score(&ctx.teams, &blue));
}

#[test]
fn reveals_answer_after_all_teams_have_guessed() {
    let mut ctx = build(example_question(), None);
    let red = id("red");
    let green = id("green");
    let blue = id("blue");

    let is_answer_reveal = |m: &Message| match m {
        Message::AnswerReveal(_) => true,
        _ => false,
    };
    assert!(ctx.state.guess(&mut ctx.teams, &red, "whatever", &mut ctx.out).is_ok());
    assert!(ctx.state.guess(&mut ctx.teams, &green, "whatever", &mut ctx.out).is_ok());
    assert!(!messages(&ctx.out).iter().any(is_answer_reveal));
    ctx.out.clear();
    assert!(ctx.state.guess(&mut ctx.teams, &blue, "whatever", &mut ctx.out).is_ok());
    assert!(messages(&ctx.out).iter().any(is_answer_reveal));
}

#[test]
fn guess_errors_name_their_cause_and_change_nothing() {
    let mut ctx = build(example_question(), None);
    let red = id("red");
    assert_eq!(
        ctx.state.guess(&mut ctx.teams, &id("yellow"), "x", &mut ctx.out).unwrap_err(),
        GameError::NotAParticipant
    );
    assert!(ctx.out.is_empty());
    ctx.state.guess(&mut ctx.teams, &red, "x", &mut ctx.out).unwrap();
    let emitted = ctx.out.len();
    assert_eq!(
        ctx.state.guess(&mut ctx.teams, &red, "example answer", &mut ctx.out).unwrap_err(),
        GameError::AlreadyGuessed
    );
    assert_eq!(ctx.out.len(), emitted);
    assert_eq!(score(&ctx.teams, &red), -100);
    // A participant that has left the roster cannot be scored.
    ctx.teams.retain(|t| t.id != id("green"));
    assert_eq!(
        ctx.state.guess(&mut ctx.teams, &id("green"), "x", &mut ctx.out).unwrap_err(),
        GameError::TeamNotFound
    );
}

#[test]
fn guess_result_tells_what_happened() {
    let mut ctx = build(example_question(), None);
    let first = ctx.state.guess(&mut ctx.teams, &id("red"), "Example Answer!", &mut ctx.out).unwrap();
    assert!(first.is_correct);
    assert!(first.is_first_correct);
    assert_eq!(first.score_delta, 100);
    assert_eq!(first.guess, "Example Answer!");
    assert_eq!(ctx.out[0], Action::PlaySound(Sound::Correct));
    assert_eq!(
        ctx.out[1],
        Action::Say(Recipient::AllTeams, Message::GuessCorrect(id("red"), 100))
    );
    let second = ctx.state.guess(&mut ctx.teams, &id("blue"), "example answer", &mut ctx.out).unwrap();
    assert!(second.is_correct);
    assert!(!second.is_first_correct);
    assert_eq!(second.score_delta, 50);
    let third = ctx.state.guess(&mut ctx.teams, &id("green"), "nope", &mut ctx.out).unwrap();
    assert!(!third.is_correct);
    assert_eq!(third.score_delta, -50);
    assert!(ctx
        .out
        .contains(&Action::Say(Recipient::AllTeams, Message::GuessIncorrect(id("green"), 50))));
}

#[test]
fn scoring_example_of_three_teams() {
    // A guesses wrong: -100; B guesses right: +50; C guesses wrong: -50.
    let mut ctx = build(example_question(), None);
    ctx.state.guess(&mut ctx.teams, &id("red"), "wrong", &mut ctx.out).unwrap();
    ctx.state.guess(&mut ctx.teams, &id("green"), "example answer", &mut ctx.out).unwrap();
    ctx.state.guess(&mut ctx.teams, &id("blue"), "wrong", &mut ctx.out).unwrap();
    assert_eq!(score(&ctx.teams, &id("red")), -100);
    assert_eq!(score(&ctx.teams, &id("green")), 50);
    assert_eq!(score(&ctx.teams, &id("blue")), -50);
}

#[test]
fn halving_rounds_towards_zero() {
    let mut question = example_question();
    question.score_value = 25;
    let mut ctx = build(question, None);
    ctx.state.guess(&mut ctx.teams, &id("red"), "wrong", &mut ctx.out).unwrap();
    ctx.state.guess(&mut ctx.teams, &id("green"), "wrong", &mut ctx.out).unwrap();
    ctx.state.guess(&mut ctx.teams, &id("blue"), "example answer", &mut ctx.out).unwrap();
    assert_eq!(score(&ctx.teams, &id("red")), -25);
    assert_eq!(score(&ctx.teams, &id("green")), -12);
    assert_eq!(score(&ctx.teams, &id("blue")), 12);
}

#[test]
fn question_is_over_when_all_have_guessed_or_time_is_up() {
    let mut ctx = build(example_question(), None);
    ctx.state.guess(&mut ctx.teams, &id("red"), "a", &mut ctx.out).unwrap();
    ctx.state.guess(&mut ctx.teams, &id("green"), "b", &mut ctx.out).unwrap();
    assert!(!ctx.state.is_over());
    assert!(!ctx.state.did_every_team_submit_a_guess());
    ctx.state.guess(&mut ctx.teams, &id("blue"), "c", &mut ctx.out).unwrap();
    assert!(ctx.state.did_every_team_submit_a_guess());
    assert!(ctx.state.is_over());

    let mut timed = build(example_question(), None);
    timed.state.on_tick(10 * SECOND - 1, false, &mut timed.out);
    assert!(!timed.state.is_over());
    timed.state.on_tick(1, false, &mut timed.out);
    assert!(timed.state.is_over());
}

#[test]
fn unanswered_wagers_are_lost_when_time_runs_out() {
    let mut question = example_question();
    question.challenge = true;
    let wagers = vec![(id("red"), 300), (id("blue"), 700)];
    let mut ctx = build(question, Some(wagers));
    ctx.state.guess(&mut ctx.teams, &id("red"), "example answer", &mut ctx.out).unwrap();
    ctx.out.clear();
    ctx.state.on_end(&mut ctx.teams, &mut ctx.out);
    assert_eq!(score(&ctx.teams, &id("red")), 300);
    assert_eq!(score(&ctx.teams, &id("green")), -100);
    assert_eq!(score(&ctx.teams, &id("blue")), -700);
    assert_eq!(ctx.out[0], Action::StopAudio);
    assert_eq!(ctx.out[1], Action::PlaySound(Sound::TimeUp));
    assert!(ctx
        .out
        .contains(&Action::Say(Recipient::AllTeams, Message::ChallengeSongTimeUp(id("blue"), 700))));
    let recap = vec![(id("red"), 300), (id("green"), -100), (id("blue"), -700)];
    assert_eq!(
        ctx.out.last().unwrap(),
        &Action::Say(Recipient::AllTeams, Message::ScoresRecap(recap))
    );
}

#[test]
fn tick_warns_and_starts_the_song_once() {
    let mut question = example_question();
    question.duration_seconds = Some(40);
    let mut ctx = build(question, None);
    ctx.state.on_begin(&ctx.teams, &mut ctx.out);
    ctx.out.clear();
    ctx.state.on_tick(5 * SECOND, false, &mut ctx.out);
    assert!(ctx.out.is_empty());
    ctx.state.on_tick(5 * SECOND, true, &mut ctx.out);
    assert_eq!(
        ctx.out,
        vec![
            Action::Say(Recipient::AllTeams, Message::TimeRemaining(30_000)),
            Action::PlaySong("example url".to_string())
        ]
    );
    ctx.out.clear();
    ctx.state.on_tick(25 * SECOND, true, &mut ctx.out);
    assert_eq!(ctx.out, vec![Action::Say(Recipient::AllTeams, Message::TimeRemaining(10_000))]);
}

#[test]
fn challenge_is_announced_to_participants_on_the_roster() {
    let mut question = example_question();
    question.challenge = true;
    let teams: Vec<Team> = ["red", "green"].iter().map(|n| Team::new(id(n))).collect();
    let mut state = QuestionState::new(
        Question::from_raw(&question),
        10 * SECOND,
        vec![id("green"), id("green"), id("gone")],
        Some(vec![(id("green"), 500)]),
    );
    assert_eq!(state.participants, vec![id("green"), id("gone")]);
    let mut out = Vec::new();
    state.on_begin(&teams, &mut out);
    assert_eq!(
        out,
        vec![
            Action::PlaySound(Sound::Question),
            Action::Say(
                Recipient::Team(id("green")),
                Message::ChallengeSongBegins("example category".to_string())
            )
        ]
    );
}

#[test]
fn points_and_wagers_lookups() {
    assert_eq!(to_points(100), 100);
    assert_eq!(to_points(u32::MAX), i32::MAX);
    let wagers = vec![(id("red"), 5), (id("blue"), 6), (id("red"), 7)];
    assert_eq!(find_wager(&wagers, &id("red")), Some(5));
    assert_eq!(find_wager(&wagers, &id("blue")), Some(6));
    assert_eq!(find_wager(&wagers, &id("green")), None);
}
