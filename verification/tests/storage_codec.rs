use superlectura::codec::{decode_storage, encode_storage, reload_storage};
use superlectura::controller::{AppController, GameInstance};
use superlectura::games::FrameInput;
use superlectura::result::{GameDetails, GameResult};
use superlectura::storage::{GameStorage};
use superlectura::types::{AppState, Difficulty, GameConfig, GameType};

fn sample_result(game_type: GameType, score_cp: u64, timestamp_ms: u64) -> GameResult {
    let details = match game_type {
        GameType::ReadingSpeed => GameDetails::ReadingSpeed {
            words_correct: 4,
            total_words: 10,
            time_taken_ms: 1234,
        },
        GameType::WordMemory => GameDetails::WordMemory {
            words_correct: 3,
            original_words: vec!["casa".to_string(), "montaña".to_string(), "río".to_string()],
        },
        GameType::TextComprehension => GameDetails::TextComprehension {
            questions_correct: 1,
            total_questions: 2,
        },
        GameType::INumbs => GameDetails::INumbs { correct: 2, total: 3, time_taken_ms: 999 },
    };
    GameResult { game_type, score_cp, details, timestamp_ms }
}

fn assert_results_equal(a: &GameResult, b: &GameResult) {
    assert_eq!(a.game_type, b.game_type);
    assert_eq!(a.score_cp, b.score_cp);
    assert_eq!(a.timestamp_ms, b.timestamp_ms);
    match (&a.details, &b.details) {
        (
            GameDetails::ReadingSpeed { words_correct: w1, total_words: t1, time_taken_ms: m1 },
            GameDetails::ReadingSpeed { words_correct: w2, total_words: t2, time_taken_ms: m2 },
        ) => {
            assert_eq!(w1, w2);
            assert_eq!(t1, t2);
            assert_eq!(m1, m2);
        },
        (
            GameDetails::WordMemory { words_correct: w1, original_words: o1 },
            GameDetails::WordMemory { words_correct: w2, original_words: o2 },
        ) => {
            assert_eq!(w1, w2);
            assert_eq!(o1, o2);
        },
        (
            GameDetails::TextComprehension { questions_correct: q1, total_questions: t1 },
            GameDetails::TextComprehension { questions_correct: q2, total_questions: t2 },
        ) => {
            assert_eq!(q1, q2);
            assert_eq!(t1, t2);
        },
        (
            GameDetails::INumbs { correct: c1, total: t1, time_taken_ms: m1 },
            GameDetails::INumbs { correct: c2, total: t2, time_taken_ms: m2 },
        ) => {
            assert_eq!(c1, c2);
            assert_eq!(t1, t2);
            assert_eq!(m1, m2);
        },
        _ => panic!("details variants differ"),
    }
}

// Saving N results and reloading the storage from the persisted document
// yields the same N results, value for value, in the original order.
#[test]
fn storage_roundtrip() {
    let mut storage = GameStorage::new();
    storage.save_result(sample_result(GameType::ReadingSpeed, 7500, 11));
    storage.save_result(sample_result(GameType::WordMemory, 10000, 22));
    storage.save_result(sample_result(GameType::TextComprehension, 5000, 33));
    storage.save_result(sample_result(GameType::INumbs, 6666, 44));
    storage.save_config(
        GameType::WordMemory,
        GameConfig { difficulty: Difficulty::Hard, duration_ms: 1500, word_count: 7, fill_boxes: true },
    );

    let doc = encode_storage(&storage);
    let reloaded = decode_storage(&doc).expect("a document written by encode_storage decodes");
    assert_eq!(reloaded.results.len(), 4);
    for (a, b) in storage.results.iter().zip(reloaded.results.iter()) {
        assert_results_equal(a, b);
    }
    assert_eq!(reloaded.configs, storage.configs);

    let again = reload_storage(&storage);
    assert_eq!(again.results.len(), 4);
    for (a, b) in storage.results.iter().zip(again.results.iter()) {
        assert_results_equal(a, b);
    }
}

// A corrupt or truncated document does not decode; the host then falls
// back to an empty storage.
#[test]
fn corrupt_document_rejected() {
    assert!(decode_storage(&Vec::new()).is_none());
    let garbage: Vec<char> = "not a storage document".chars().collect();
    assert!(decode_storage(&garbage).is_none());
    let mut truncated = encode_storage(&{
        let mut st = GameStorage::new();
        st.save_result(sample_result(GameType::INumbs, 1, 2));
        st
    });
    let mut padded = truncated.clone();
    truncated.truncate(30);
    assert!(decode_storage(&truncated).is_none());
    // Trailing data after a complete document is rejected too.
    padded.push('x');
    assert!(decode_storage(&padded).is_none());
}

// Clearing all results leaves an empty collection, and a reload from the
// persisted document is empty too.
#[test]
fn clear_then_reload_empty() {
    let mut storage = GameStorage::new();
    storage.save_result(sample_result(GameType::ReadingSpeed, 100, 1));
    storage.save_result(sample_result(GameType::WordMemory, 200, 2));
    storage.clear_all_results();
    assert!(storage.get_all_results().is_empty());
    let reloaded = decode_storage(&encode_storage(&storage)).expect("decodes");
    assert!(reloaded.results.is_empty());
}

#[test]
fn stats_filter_by_game() {
    let mut storage = GameStorage::new();
    assert_eq!(storage.get_stats_for_game(&GameType::INumbs).total_games, 0);
    assert_eq!(storage.get_stats_for_game(&GameType::INumbs).best_score_cp, 0);
    storage.save_result(sample_result(GameType::INumbs, 4000, 1));
    storage.save_result(sample_result(GameType::INumbs, 9000, 2));
    storage.save_result(sample_result(GameType::WordMemory, 9999, 3));
    let stats = storage.get_stats_for_game(&GameType::INumbs);
    assert_eq!(stats.total_games, 2);
    assert_eq!(stats.best_score_cp, 9000);
    let filtered = storage.get_results_for_game(&GameType::INumbs);
    assert_eq!(filtered.len(), 2);
    assert_eq!(filtered[0].score_cp, 4000);
    assert_eq!(filtered[1].score_cp, 9000);
}

// The controller runs a game to completion, records the result, and
// shows the results screen; an aborted game leaves no trace.
#[test]
fn controller_finish_and_abort() {
    let mut controller = AppController::new();
    let mut cfg = controller.get_config(&GameType::INumbs);
    cfg.duration_ms = 1000;
    cfg.word_count = 3;
    cfg.fill_boxes = false;
    controller.set_config(GameType::INumbs, cfg);

    controller.start_game(GameType::INumbs);
    assert_eq!(*controller.get_state(), AppState::Playing(GameType::INumbs));
    assert!(matches!(controller.current_game, Some(GameInstance::INumbs(_))));

    let mut start = FrameInput::idle();
    start.primary = true;
    controller.update_current_game(&start, 0);
    assert!(controller.needs_repaint());
    controller.update_current_game(&FrameInput::idle(), 1000);
    assert_eq!(*controller.get_state(), AppState::Results);
    assert!(controller.current_game.is_none());
    let result = controller.get_current_result().expect("result after finish");
    assert_eq!(result.game_type, GameType::INumbs);
    assert_eq!(controller.get_all_results().len(), 1);
    assert_eq!(controller.get_stats_for_game(&GameType::INumbs).total_games, 1);
    controller.clear_current_result();
    assert!(controller.get_current_result().is_none());

    // Abort a fresh game from its landing phase.
    controller.start_game(GameType::WordMemory);
    let mut quit = FrameInput::idle();
    quit.menu = true;
    controller.update_current_game(&quit, 2000);
    assert_eq!(*controller.get_state(), AppState::GameSelection);
    assert!(controller.current_game.is_none());
    assert_eq!(controller.get_all_results().len(), 1);

    controller.clear_all_results();
    assert!(controller.get_all_results().is_empty());
}

// Saved configurations survive the document round trip and drive new
// games.
#[test]
fn configs_roundtrip_through_controller() {
    let mut controller = AppController::new();
    let cfg = GameConfig {
        difficulty: Difficulty::Hard,
        duration_ms: 2500,
        word_count: 42,
        fill_boxes: true,
    };
    controller.set_config(GameType::INumbs, cfg);
    assert_eq!(controller.get_config(&GameType::INumbs), cfg);

    let doc = encode_storage(&controller.storage);
    let reloaded = decode_storage(&doc).expect("decodes");
    let controller2 = AppController::with_storage(reloaded);
    assert_eq!(controller2.storage.configs.inumbs, cfg);
}
