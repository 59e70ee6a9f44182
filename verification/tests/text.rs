use level_99::definition::{find_cheapest, find_question, select_question, Question, QuizDefinition, RawQuestion};
use level_99::error::GameError;
use level_99::settings::Settings;
use level_99::text::{char_is_lower_alnum, char_is_space, fold, sanitize_answer, sanitize_name, text_precedes};

fn raw(url: &str, answer: &str, alternates: Option<&str>, category: &str, score_value: u32) -> RawQuestion {
    RawQuestion {
        url: url.to_owned(),
        answer: answer.to_owned(),
        acceptable_answers: alternates.map(|a| a.to_owned()),
        category: category.to_owned(),
        score_value,
        challenge: false,
        duration_seconds: None,
    }
}

#[test]
fn team_names_are_cleaned() {
    assert_eq!(sanitize_name("Hello World").unwrap(), "hello-world");
    assert_eq!(sanitize_name("  The   Émigrés \t 99!  ").unwrap(), "the-emigres-99");
    assert_eq!(sanitize_name("red").unwrap(), "red");
    assert_eq!(sanitize_name("a-b").unwrap(), "a-b");
    assert_eq!(sanitize_name("A_B").unwrap(), "ab");
    assert_eq!(sanitize_name("x \n y").unwrap(), "x-y");
}

#[test]
fn team_names_of_which_nothing_is_left_are_refused() {
    assert_eq!(sanitize_name(""), Err(GameError::InvalidName));
    assert_eq!(sanitize_name("   "), Err(GameError::InvalidName));
    assert_eq!(sanitize_name("!?.,"), Err(GameError::InvalidName));
    assert_eq!(sanitize_name(" ! \t ? "), Err(GameError::InvalidName));
}

#[test]
fn cleaned_names_hold_only_lowercase_alphanumerics_and_hyphens() {
    for name in ["Les Bleus", "Ünïcödé Team", "x__y  z", "北京 team", "-- a --", "Q&A #1"] {
        let clean = sanitize_name(name).unwrap();
        assert!(!clean.is_empty());
        assert!(clean.chars().all(|c| c.is_ascii_lowercase() || c.is_ascii_digit() || c == '-'));
    }
}

#[test]
fn folding_transliterates_and_lowercases() {
    assert_eq!(fold("Crème BRÛLÉE"), "creme brulee");
    assert_eq!(fold("ÆON"), "aeon");
    assert_eq!(sanitize_answer("Crème-Brûlée, s'il vous plaît!"), "cremebruleesilvousplait");
    assert_eq!(sanitize_answer("  "), "");
}

#[test]
fn character_classes() {
    assert!(char_is_space(' '));
    assert!(char_is_space('\t'));
    assert!(char_is_space('\u{a0}'));
    assert!(char_is_space('\u{3000}'));
    assert!(!char_is_space('a'));
    assert!(!char_is_space('\u{200b}'));
    assert!(char_is_lower_alnum('a'));
    assert!(char_is_lower_alnum('z'));
    assert!(char_is_lower_alnum('0'));
    assert!(!char_is_lower_alnum('A'));
    assert!(!char_is_lower_alnum('-'));
    assert!(!char_is_lower_alnum('é'));
}

#[test]
fn texts_are_ordered_by_code_point() {
    assert!(text_precedes("", ""));
    assert!(text_precedes("", "a"));
    assert!(!text_precedes("a", ""));
    assert!(text_precedes("abc", "abd"));
    assert!(!text_precedes("abd", "abc"));
    assert!(text_precedes("ab", "abc"));
    assert!(!text_precedes("abc", "ab"));
    assert!(text_precedes("cat A", "cat A"));
    assert!(text_precedes("Z", "a"));
    for (a, b) in [("example category 10", "example category 2"), ("é", "z"), ("z", "é")] {
        assert_eq!(text_precedes(a, b), a <= b);
    }
}

#[test]
fn answers_and_alternates_are_accepted() {
    let q = Question::from_raw(&raw("u", "The Answer", Some("Alt One|| alt-two |!!"), "c", 100));
    assert_eq!(q.acceptable_answers, vec!["theanswer", "altone", "alttwo"]);
    assert!(q.is_guess_correct("the answer"));
    assert!(q.is_guess_correct("THE ANSWER!"));
    assert!(q.is_guess_correct("Alt Two"));
    assert!(q.is_guess_correct("ält öne"));
    assert!(!q.is_guess_correct("the answe"));
    assert!(!q.is_guess_correct("he answer"));
    assert!(!q.is_guess_correct("the answer alt one"));
    assert!(!q.is_guess_correct(""));
    assert_eq!(q.answer, "The Answer");
    assert_eq!(q.duration, None);
}

#[test]
fn a_question_without_answers_accepts_only_the_empty_guess() {
    let q = Question::from_raw(&raw("u", "???", None, "c", 100));
    assert!(q.acceptable_answers.is_empty());
    assert!(q.is_guess_correct("!!"));
    assert!(!q.is_guess_correct("a"));
}

#[test]
fn duration_override_is_taken_in_milliseconds() {
    let mut row = raw("u", "a", None, "c", 100);
    row.duration_seconds = Some(45);
    row.challenge = true;
    let q = Question::from_raw(&row);
    assert_eq!(q.duration, Some(45_000));
    assert!(q.challenge);
    row.duration_seconds = Some(u64::MAX);
    assert_eq!(Question::from_raw(&row).duration, Some(u64::MAX));
}

#[test]
fn questions_are_the_same_by_url_category_and_value() {
    let a = Question::from_raw(&raw("u", "one", None, "c", 100));
    let b = Question::from_raw(&raw("u", "two", Some("x"), "c", 100));
    let c = Question::from_raw(&raw("u", "one", None, "c", 200));
    assert!(a.same(&b));
    assert!(a == b);
    assert!(!a.same(&c));
    assert!(a != c);
    let copy = b.duplicate();
    assert_eq!(copy.answer, "two");
    assert_eq!(copy.acceptable_answers, b.acceptable_answers);
}

#[test]
fn duplicate_rows_collapse() {
    let definition = QuizDefinition::from_rows(vec![
        raw("u1", "first", None, "c", 100),
        raw("u2", "other", None, "c", 100),
        raw("u1", "second", None, "c", 100),
    ]);
    let questions = definition.get_questions();
    assert_eq!(questions.len(), 2);
    assert_eq!(questions[0].answer, "first");
    assert_eq!(questions[1].url, "u2");
}

#[test]
fn selection_takes_the_voted_question_or_the_cheapest() {
    let mut pool = vec![
        Question::from_raw(&raw("u1", "a", None, "x", 300)),
        Question::from_raw(&raw("u2", "b", None, "y", 100)),
        Question::from_raw(&raw("u3", "c", None, "z", 100)),
    ];
    assert_eq!(find_cheapest(&pool), Some(1));
    let voted = pool[0].duplicate();
    assert_eq!(find_question(&pool, &voted), Some(0));
    let taken = select_question(&mut pool, Some(voted.duplicate())).unwrap();
    assert_eq!(taken.url, "u1");
    assert_eq!(pool.len(), 2);
    // The question is gone: a second vote for it falls back to the cheapest.
    assert_eq!(find_question(&pool, &voted), None);
    let fallback = select_question(&mut pool, Some(voted)).unwrap();
    assert_eq!(fallback.url, "u2");
    let last = select_question(&mut pool, None).unwrap();
    assert_eq!(last.url, "u3");
    assert!(select_question(&mut pool, None).is_none());
    assert!(pool.is_empty());
    assert_eq!(find_cheapest(&pool), None);
}

#[test]
fn default_settings() {
    let settings = Settings::default();
    assert_eq!(settings.startup_duration, 30_000);
    assert_eq!(settings.vote_duration, 15_000);
    assert_eq!(settings.wager_duration, 90_000);
    assert_eq!(settings.question_duration, 90_000);
    assert_eq!(settings.cooldown_duration, 5_000);
    assert_eq!(settings.max_vote_options, 6);
}

#[test]
fn every_error_has_a_message() {
    assert_eq!(GameError::InvalidName.message(), "Invalid team name");
    assert_eq!(GameError::TeamNotFound.message(), "Team not found");
    assert_eq!(GameError::LoadError.message(), "The quiz definition could not be loaded");
    assert_eq!(GameError::PreloadFailed.message(), "The quiz media could not be fetched");
    assert!(!GameError::NoPollRecorded.message().is_empty());
}
