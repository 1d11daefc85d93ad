use rusty_melody_bot::classify;
use rusty_melody_bot::config::{AppConfig, Database, Telegram};
use rusty_melody_bot::storage::Storage;
use rusty_melody_bot::{Bot, Inbound, Melody, Outcome, QuizError, Reply};

fn test_config() -> AppConfig {
    AppConfig {
        telegram: Telegram { token: "example-token".to_string() },
        database: Database { path: "quiz-db".to_string() },
    }
}

fn melody(id: u64, right: &str) -> Melody {
    Melody {
        id,
        file_id: format!("audio-{}", id),
        right_answer: right.to_string(),
        wrong_answers: [
            "Green sleeves".to_string(),
            "Morrison Jig".to_string(),
            "Pied Piper".to_string(),
        ],
    }
}

fn bot_with_scarborough() -> Bot {
    let mut storage = Storage::new(1);
    storage.store_melody(melody(1, "Scarborough Fair")).unwrap();
    Bot::new(test_config(), storage)
}

#[test]
fn scenario_single_item_win_then_no_game() {
    let mut bot = bot_with_scarborough();
    let posed = bot.start_game(100).unwrap();
    assert_eq!(posed, melody(1, "Scarborough Fair"));
    assert_eq!(bot.judge_answer(100, "Scarborough Fair"), Outcome::Correct);
    assert_eq!(bot.judge_answer(100, "anything"), Outcome::NoActiveGame);
}

#[test]
fn scenario_never_started_is_no_game() {
    let mut bot = bot_with_scarborough();
    assert_eq!(bot.judge_answer(999, "x"), Outcome::NoActiveGame);
}

#[test]
fn scenario_wrong_answer_consumes_session() {
    let mut bot = bot_with_scarborough();
    bot.start_game(100).unwrap();
    assert_eq!(bot.judge_answer(100, "wrong text"), Outcome::Incorrect);
    assert_eq!(bot.judge_answer(100, "Scarborough Fair"), Outcome::NoActiveGame);
}

#[test]
fn scenario_empty_catalog_fails_to_start() {
    let mut bot = Bot::new(test_config(), Storage::new(1));
    assert_eq!(bot.start_game(100), Err(QuizError::NoItemsAvailable));
}

#[test]
fn judging_is_case_sensitive_and_exact() {
    let mut bot = bot_with_scarborough();
    bot.start_game(100).unwrap();
    assert_eq!(bot.judge_answer(100, "scarborough fair"), Outcome::Incorrect);
}

#[test]
fn cancel_is_idempotent_and_leaves_idle() {
    let mut bot = bot_with_scarborough();
    bot.start_game(100).unwrap();
    assert_eq!(bot.cancel_game(100), Ok(()));
    assert_eq!(bot.cancel_game(100), Ok(()));
    assert_eq!(bot.judge_answer(100, "Scarborough Fair"), Outcome::NoActiveGame);
}

#[test]
fn restart_overwrites_the_session() {
    let mut storage = Storage::new(9);
    storage.store_melody(melody(1, "Scarborough Fair")).unwrap();
    storage.store_melody(melody(2, "Danny Boy")).unwrap();
    let mut bot = Bot::new(test_config(), storage);
    let _first = bot.start_game(100).unwrap();
    let second = bot.start_game(100).unwrap();
    assert_eq!(bot.judge_answer(100, &second.right_answer), Outcome::Correct);
}

#[test]
fn chats_are_isolated() {
    let mut storage = Storage::new(3);
    storage.store_melody(melody(1, "Scarborough Fair")).unwrap();
    let mut bot = Bot::new(test_config(), storage);
    bot.start_game(100).unwrap();
    bot.start_game(200).unwrap();
    assert_eq!(bot.judge_answer(100, "Scarborough Fair"), Outcome::Correct);
    assert_eq!(bot.judge_answer(200, "Scarborough Fair"), Outcome::Correct);
    bot.start_game(300).unwrap();
    bot.cancel_game(300).unwrap();
    assert_eq!(bot.judge_answer(100, "Scarborough Fair"), Outcome::NoActiveGame);
}

#[test]
fn classify_reads_commands_and_answers() {
    assert_eq!(classify("/start"), Inbound::Start);
    assert_eq!(classify("/game"), Inbound::NewGame);
    assert_eq!(classify("/game "), Inbound::NewGame);
    assert_eq!(classify("/game now"), Inbound::OtherCommand);
    assert_eq!(classify("/start now"), Inbound::OtherCommand);
    assert_eq!(classify("/help"), Inbound::OtherCommand);
    assert_eq!(classify("/games"), Inbound::OtherCommand);
    assert_eq!(classify("Scarborough Fair"), Inbound::Answer);
    assert_eq!(classify(""), Inbound::Answer);
    assert_eq!(classify("hello /game"), Inbound::Answer);
}

#[test]
fn handle_text_runs_a_whole_round() {
    let mut bot = bot_with_scarborough();
    assert!(matches!(bot.handle_text(100, "/start"), Reply::Silent));
    let posed = match bot.handle_text(100, "/game") {
        Reply::Question(m) => m,
        other => panic!("expected a question, got {:?}", other),
    };
    assert_eq!(posed.right_answer, "Scarborough Fair");
    assert!(matches!(
        bot.handle_text(100, "Scarborough Fair"),
        Reply::Verdict(Outcome::Correct)
    ));
    assert!(matches!(
        bot.handle_text(100, "Scarborough Fair"),
        Reply::Verdict(Outcome::NoActiveGame)
    ));
}

#[test]
fn handle_text_reports_an_empty_catalog() {
    let mut bot = Bot::new(test_config(), Storage::new(0));
    assert!(matches!(
        bot.handle_text(5, "/game"),
        Reply::Failure(QuizError::NoItemsAvailable)
    ));
}
