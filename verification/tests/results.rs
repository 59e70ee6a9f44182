use level_99::output::{Action, Message, Recipient, Sound};
use level_99::phase::results::ResultsState;
use level_99::phase::startup::StartupState;
use level_99::preload::PreloadState;
use level_99::team::{Team, TeamId};

const SECOND: u64 = 1000;

fn id(name: &str) -> TeamId {
    TeamId::TeamName(name.to_string())
}

#[test]
fn plays_sfx_congrats() {
    let teams = vec![Team::new(id("blue"))];
    let mut out = Vec::new();

    let mut state = ResultsState::new();
    state.on_begin(&teams, &mut out);

    assert!(out.contains(&Action::PlaySound(Sound::Congrats)));
    assert_eq!(Sound::Congrats.path(), "assets/congrats.wav");
}

#[test]
fn announces_winning_team() {
    let team_id = id("blue");
    let teams = vec![Team::new(team_id.clone())];
    let mut out = Vec::new();

    let mut state = ResultsState::new();
    state.on_begin(&teams, &mut out);

    let message = Message::GameResults(team_id.clone());
    assert!(out.contains(&Action::Say(Recipient::AllTeams, message)));
}

#[test]
fn the_first_of_the_best_teams_wins() {
    let mut teams = vec![Team::new(id("a")), Team::new(id("b")), Team::new(id("c"))];
    teams[0].score = 10;
    teams[1].score = 70;
    teams[2].score = 70;
    let mut out = Vec::new();
    let mut state = ResultsState::new();
    state.on_begin(&teams, &mut out);
    assert_eq!(
        out,
        vec![
            Action::PlaySound(Sound::Congrats),
            Action::Say(Recipient::AllTeams, Message::GameResults(id("b")))
        ]
    );
    assert!(!state.is_over());
    state.on_tick(1_000_000);
    state.on_end();
    assert!(!state.is_over());
}

#[test]
fn results_without_teams_announce_nothing() {
    let mut out = Vec::new();
    ResultsState::new().on_begin(&Vec::new(), &mut out);
    assert!(out.is_empty());
}

#[test]
fn tests_ends_after_duration() {
    let duration = 10 * SECOND;
    let mut out = Vec::new();
    let mut state = StartupState::new(duration);
    assert!(!state.is_over());
    state.on_begin(&mut out);
    assert!(!state.is_over());
    state.on_tick(5 * SECOND, PreloadState::InProgress);
    assert!(!state.is_over());

    let tick_duration = 100;
    let mut ticks = 0;
    loop {
        state.on_tick(tick_duration, PreloadState::Success);
        if state.is_over() {
            break;
        }
        ticks += 1;
        if ticks > 50 {
            panic!("Timed out waiting for startup phase to end");
        }
    }
    assert_eq!(ticks, 49);
}

#[test]
fn prints_rules() {
    let mut out = Vec::new();
    let mut state = StartupState::new(10 * SECOND);
    state.on_begin(&mut out);
    assert!(out.contains(&Action::Say(Recipient::AllTeams, Message::QuizRules)));
}

#[test]
fn startup_waits_for_the_media() {
    let mut state = StartupState::new(10 * SECOND);
    state.on_tick(60 * SECOND, PreloadState::InProgress);
    assert!(!state.is_over());
    assert!(!state.preload_succeeded());
    state.on_tick(0, PreloadState::Success);
    assert!(state.is_over());
    assert!(state.preload_succeeded());
    state.on_end();

    let mut failing = StartupState::new(10 * SECOND);
    failing.on_tick(1, PreloadState::Failure);
    assert!(failing.is_over());
    assert!(!failing.preload_succeeded());
}
