use superlectura::games::inumbs::{INumbsGame, INumbsPhase};
use superlectura::games::reading_speed::ReadingSpeedGame;
use superlectura::games::text_comprehension::{ComprehensionPhase, TextComprehensionGame};
use superlectura::games::word_memory::{count_matches, MemoryPhase, WordMemoryGame};
use superlectura::games::FrameInput;
use superlectura::rng::generate_digits;
use superlectura::score::{frac_to_cp, round_accuracy};
use superlectura::types::{Difficulty, GameConfig, GameState, GameType};

fn config(difficulty: Difficulty, duration_ms: u64, word_count: usize, fill_boxes: bool) -> GameConfig {
    GameConfig { difficulty, duration_ms, word_count, fill_boxes }
}

fn idle() -> FrameInput {
    FrameInput::idle()
}

fn primary() -> FrameInput {
    let mut f = FrameInput::idle();
    f.primary = true;
    f
}

fn menu() -> FrameInput {
    let mut f = FrameInput::idle();
    f.menu = true;
    f
}

// Generated digit-span numbers have the documented length per tier and
// never start with a zero when longer than one digit.
#[test]
fn digit_span_number_shape() {
    for _ in 0..50 {
        for (difficulty, lo, hi) in [
            (Difficulty::Easy, 1usize, 6usize),
            (Difficulty::Medium, 7, 10),
            (Difficulty::Hard, 11, 20),
        ] {
            let game = ReadingSpeedGame::new(config(difficulty, 500, 100, false));
            assert!(game.digit_count >= lo && game.digit_count <= hi);
            assert_eq!(game.number.len(), game.digit_count);
            for c in &game.number {
                assert!(c.is_ascii_digit());
            }
            if game.digit_count > 1 {
                assert_ne!(game.number[0], '0');
            }
        }
    }
}

#[test]
fn generated_digits_shape() {
    for count in [1usize, 2, 5, 20] {
        for _ in 0..20 {
            let digits = generate_digits(count);
            assert_eq!(digits.len(), count);
            for c in &digits {
                assert!(c.is_ascii_digit());
            }
            if count > 1 {
                assert_ne!(digits[0], '0');
            }
        }
    }
}

// Digit-span accuracy: exact match scores 100.0, disjoint strings of
// equal length score 0.0, a single correct leading digit out of length L
// scores (1/L)*100.
#[test]
fn digit_span_accuracy_values() {
    let exact = round_accuracy(&vec!['1', '2', '3'], &vec!['1', '2', '3']);
    assert_eq!(exact, (3, 3));
    assert_eq!(100.0 * exact.0 as f64 / exact.1 as f64, 100.0);

    let disjoint = round_accuracy(&vec!['1', '2', '3', '4'], &vec!['5', '6', '7', '8']);
    assert_eq!(disjoint, (0, 4));
    assert_eq!(100.0 * disjoint.0 as f64 / disjoint.1 as f64, 0.0);

    let single = round_accuracy(&vec!['7', '2', '3', '4'], &vec!['7', '9', '8', '6']);
    assert_eq!(single, (1, 4));
    assert_eq!(100.0 * single.0 as f64 / single.1 as f64, (1.0 / 4.0) * 100.0);

    // Empty expected string scores zero.
    assert_eq!(round_accuracy(&vec![], &vec!['1']), (0, 1));
}

#[test]
fn centipercent_formula() {
    assert_eq!(frac_to_cp(1, 3), 3333);
    assert_eq!(frac_to_cp(1, 4), 2500);
    assert_eq!(frac_to_cp(0, 7), 0);
    assert_eq!(frac_to_cp(7, 7), 10000);
}

// The typed answer is trimmed before comparison: surrounding whitespace
// does not cost accuracy.
#[test]
fn digit_span_answer_is_trimmed() {
    let mut game = ReadingSpeedGame::new(config(Difficulty::Easy, 500, 100, false));
    game.number = vec!['4', '2'];
    game.user_input = "  42  ".to_string();
    assert_eq!(game.calculate_round_accuracy(), (2, 2));
}

// A full digit-span session through the state machine: deterministic
// accuracy per round, overall score the mean of the rounds.
#[test]
fn digit_span_full_session() {
    let mut game = ReadingSpeedGame::new(config(Difficulty::Easy, 1000, 100, false));
    let mut now = 10_000u64;
    game.update(&primary(), now);
    for round in 0..10 {
        // Display period passes.
        now += 1000;
        game.update(&idle(), now);
        // Type the right answer on even rounds and garbage on odd rounds.
        let mut f = primary();
        if round % 2 == 0 {
            f.text = game.number.iter().collect();
        } else {
            f.text = "x".to_string();
        }
        game.update(&f, now);
    }
    assert_eq!(game.get_state(), GameState::Finished);
    let result = game.get_result().expect("finished game must yield a result");
    assert_eq!(result.game_type, GameType::ReadingSpeed);
    // Five perfect rounds, five zero rounds ('x' matches no digit).
    assert_eq!(result.score_cp, 5000);
    match result.details {
        superlectura::result::GameDetails::ReadingSpeed { words_correct, total_words, .. } => {
            assert_eq!(words_correct, 5);
            assert_eq!(total_words, 10);
        },
        _ => panic!("wrong details variant"),
    }
}

// Landing-phase options: the round count takes the offered values and a
// difficulty change re-rolls the digit count from the new tier's range.
#[test]
fn digit_span_landing_options() {
    let mut game = ReadingSpeedGame::new(config(Difficulty::Easy, 500, 100, false));
    game.set_total_rounds(30);
    assert_eq!(game.total_rounds, 30);
    game.set_difficulty(Difficulty::Hard);
    assert!(game.digit_count >= 11 && game.digit_count <= 20);
    assert_eq!(game.base_digit_count, game.digit_count);
    assert_eq!(game.number.len(), game.digit_count);
}

// get_result is None while Playing or Aborted, and a stable value once
// Finished.
#[test]
fn result_only_when_finished() {
    let mut game = INumbsGame::new(config(Difficulty::Easy, 1000, 2, false));
    assert_eq!(game.get_state(), GameState::Playing);
    assert!(game.get_result().is_none());
    game.update(&primary(), 0);
    assert!(game.get_result().is_none());
    game.update(&idle(), 1000);
    assert_eq!(game.get_state(), GameState::Finished);
    let a = game.get_result().expect("finished");
    let b = game.get_result().expect("finished, again");
    assert_eq!(a.game_type, b.game_type);
    assert_eq!(a.score_cp, b.score_cp);
    assert_eq!(a.timestamp_ms, b.timestamp_ms);

    let mut aborted = INumbsGame::new(config(Difficulty::Easy, 1000, 2, false));
    aborted.update(&menu(), 0);
    assert_eq!(aborted.get_state(), GameState::Aborted);
    assert!(aborted.get_result().is_none());
}

// NumericMemory with fill_boxes=false, 3 items, 1 s duration: after the
// second elapses with no user action the run state becomes Finished and
// the score reflects comparison against blank input.
#[test]
fn inumbs_no_fill_scores_blank() {
    let mut game = INumbsGame::new(config(Difficulty::Medium, 1000, 3, false));
    assert!(matches!(game.phase, INumbsPhase::Instructions));
    game.update(&primary(), 5000);
    assert!(matches!(game.phase, INumbsPhase::Showing));
    assert!(game.needs_repaint());
    assert_eq!(game.get_state(), GameState::Playing);
    // Not yet expired.
    game.update(&idle(), 5999);
    assert_eq!(game.get_state(), GameState::Playing);
    game.update(&idle(), 6000);
    assert_eq!(game.get_state(), GameState::Finished);
    let result = game.get_result().expect("finished");
    assert_eq!(result.score_cp, 0);
    match result.details {
        superlectura::result::GameDetails::INumbs { correct, total, .. } => {
            assert_eq!(correct, 0);
            assert_eq!(total, 3);
        },
        _ => panic!("wrong details variant"),
    }
}

// With fill_boxes=true the game collects slot inputs and scores exact
// two-digit matches, leading zero significant.
#[test]
fn inumbs_fill_boxes_scoring() {
    let mut game = INumbsGame::new(config(Difficulty::Medium, 1000, 4, true));
    game.update(&primary(), 0);
    let shown: Vec<String> = game.numbers.iter().map(|n| n.iter().collect()).collect();
    game.update(&idle(), 1000);
    assert!(matches!(game.phase, INumbsPhase::Filling));
    let mut f = primary();
    // Two right (one padded with spaces), one wrong, one blank.
    f.slots = vec![
        shown[0].clone(),
        format!(" {} ", shown[1]),
        "xx".to_string(),
        String::new(),
    ];
    game.update(&f, 2500);
    assert_eq!(game.get_state(), GameState::Finished);
    let result = game.get_result().expect("finished");
    assert_eq!(game.correct_answers, 2);
    assert_eq!(result.score_cp, 5000);
}

// Word-memory scoring: typing exactly the original word list, in any
// order and any case, scores 100.0; empty input scores 0.0.
#[test]
fn word_memory_full_recall() {
    let mut game = WordMemoryGame::new(config(Difficulty::Easy, 1000, 100, false));
    assert_eq!(game.words.len(), 8);
    let mut now = 0u64;
    game.update(&primary(), now);
    assert!(matches!(game.phase, MemoryPhase::ShowingWords));
    assert!(game.needs_repaint());
    for _ in 0..8 {
        now += 3000;
        game.update(&idle(), now);
    }
    assert!(matches!(game.phase, MemoryPhase::Recall));
    // Type all the shown words, reversed and upper-cased.
    let mut words: Vec<String> = game.words.iter().map(|w| w.to_uppercase()).collect();
    words.reverse();
    let mut f = primary();
    f.text = words.join(" ");
    game.update(&f, now + 100);
    assert_eq!(game.get_state(), GameState::Finished);
    let result = game.get_result().expect("finished");
    assert_eq!(result.score_cp, 10000);
    match result.details {
        superlectura::result::GameDetails::WordMemory { words_correct, original_words } => {
            assert_eq!(words_correct, 8);
            assert_eq!(original_words, game.words);
        },
        _ => panic!("wrong details variant"),
    }
}

#[test]
fn word_memory_empty_recall() {
    let mut game = WordMemoryGame::new(config(Difficulty::Medium, 1000, 100, false));
    assert_eq!(game.words.len(), 12);
    let mut now = 0u64;
    game.update(&primary(), now);
    for _ in 0..12 {
        now += 2000;
        game.update(&idle(), now);
    }
    assert!(matches!(game.phase, MemoryPhase::Recall));
    game.update(&primary(), now);
    let result = game.get_result().expect("finished");
    assert_eq!(result.score_cp, 0);
}

// Matching is case-insensitive (each side is lowercased).
#[test]
fn word_matching_folds_case() {
    let originals = vec!["casa".to_string(), "Perro".to_string()];
    assert_eq!(count_matches(&"CASA pErRo".to_string(), &originals), 2);
    assert_eq!(count_matches(&"CASA".to_string(), &originals), 1);
    assert_eq!(count_matches(&"gato".to_string(), &originals), 0);
}

// The typed text is split on whitespace into individual words.
#[test]
fn word_matching_splits_whitespace() {
    let originals = vec!["casa".to_string(), "perro".to_string()];
    assert_eq!(count_matches(&"  casa \n perro\tcasa ".to_string(), &originals), 3);
    assert_eq!(count_matches(&"casaperro".to_string(), &originals), 0);
}

// Repeated correct words each count towards the match count, but the
// recorded score stays within 0..=100%.
#[test]
fn word_matching_counts_repeats() {
    let originals = vec!["casa".to_string(), "perro".to_string()];
    assert_eq!(count_matches(&"casa casa casa".to_string(), &originals), 3);
}

#[test]
fn word_memory_score_capped_at_full() {
    let mut game = WordMemoryGame::new(config(Difficulty::Easy, 1000, 100, false));
    let mut now = 0u64;
    game.update(&primary(), now);
    for _ in 0..8 {
        now += 3000;
        game.update(&idle(), now);
    }
    // Type one shown word sixteen times: sixteen matches over eight words.
    let mut f = primary();
    f.text = vec![game.words[0].clone(); 16].join(" ");
    game.update(&f, now);
    let result = game.get_result().expect("finished");
    assert_eq!(game.matched_count, 16);
    assert_eq!(result.score_cp, 10000);
}

// An item count of zero is clamped to one number.
#[test]
fn inumbs_zero_count_clamped() {
    let game = INumbsGame::new(config(Difficulty::Easy, 1000, 0, false));
    assert_eq!(game.total_count, 1);
}

// Word pools: each tier deals its documented count (bounded by the pool)
// and every dealt word comes from the pool, at most once.
#[test]
fn word_pool_selection() {
    let easy = WordMemoryGame::generate_words(&config(Difficulty::Easy, 0, 0, false));
    assert_eq!(easy.len(), 8);
    let medium = WordMemoryGame::generate_words(&config(Difficulty::Medium, 0, 0, false));
    assert_eq!(medium.len(), 12);
    let hard = WordMemoryGame::generate_words(&config(Difficulty::Hard, 0, 0, false));
    assert_eq!(hard.len(), 10);
    let easy_pool = [
        "casa", "perro", "sol", "mesa", "libro", "agua", "fuego", "árbol", "flor", "cielo", "mar",
        "montaña", "río", "piedra", "luz", "noche",
    ];
    for w in &easy {
        assert!(easy_pool.contains(&w.as_str()));
        assert_eq!(easy.iter().filter(|x| x == &w).count(), 1);
    }
}

// Text comprehension: the score depends only on the final per-index
// answers, not on the order the questions were visited in.
#[test]
fn comprehension_order_invariant() {
    let cfg = config(Difficulty::Easy, 1000, 100, false);

    // First pass: answer in forward order.
    let mut forward = TextComprehensionGame::new(cfg);
    forward.update(&primary(), 0);
    assert!(matches!(forward.phase, ComprehensionPhase::Reading));
    forward.update(&primary(), 10);
    assert!(matches!(forward.phase, ComprehensionPhase::Questions));
    let correct: Vec<usize> = forward.questions.iter().map(|q| q.correct_answer).collect();
    let mut f = idle();
    f.select = Some(correct[0]);
    forward.update(&f, 20);
    let mut f = idle();
    f.next = true;
    forward.update(&f, 30);
    let mut f = idle();
    f.select = Some(correct[1]);
    forward.update(&f, 40);
    forward.update(&primary(), 50);
    assert_eq!(forward.get_state(), GameState::Finished);

    // Second pass: wander back and forth, overwrite answers, end with the
    // same final selections.
    let mut wander = TextComprehensionGame::new(cfg);
    wander.update(&primary(), 0);
    wander.update(&primary(), 10);
    let mut f = idle();
    f.select = Some((correct[0] + 1) % 3);
    wander.update(&f, 20);
    let mut f = idle();
    f.next = true;
    wander.update(&f, 30);
    let mut f = idle();
    f.select = Some(correct[1]);
    wander.update(&f, 40);
    let mut f = idle();
    f.prev = true;
    wander.update(&f, 50);
    let mut f = idle();
    f.select = Some(correct[0]);
    wander.update(&f, 60);
    let mut f = idle();
    f.next = true;
    wander.update(&f, 70);
    wander.update(&primary(), 80);
    assert_eq!(wander.get_state(), GameState::Finished);

    let a = forward.get_result().expect("finished");
    let b = wander.get_result().expect("finished");
    assert_eq!(a.score_cp, 10000);
    assert_eq!(b.score_cp, 10000);
}

#[test]
fn comprehension_partial_score() {
    let mut game = TextComprehensionGame::new(config(Difficulty::Hard, 1000, 100, false));
    game.update(&primary(), 0);
    game.update(&primary(), 1);
    let right = game.questions[0].correct_answer;
    let mut f = idle();
    f.select = Some(right);
    game.update(&f, 2);
    let mut f = idle();
    f.next = true;
    game.update(&f, 3);
    let wrong = (game.questions[1].correct_answer + 1) % 3;
    let mut f = idle();
    f.select = Some(wrong);
    game.update(&f, 4);
    game.update(&primary(), 5);
    let result = game.get_result().expect("finished");
    // One of two questions right: 50%.
    assert_eq!(result.score_cp, 5000);
    match result.details {
        superlectura::result::GameDetails::TextComprehension { questions_correct, total_questions } => {
            assert_eq!(questions_correct, 1);
            assert_eq!(total_questions, 2);
        },
        _ => panic!("wrong details variant"),
    }
}

// The finish affordance only works on the last question.
#[test]
fn comprehension_finish_only_on_last() {
    let mut game = TextComprehensionGame::new(config(Difficulty::Easy, 1000, 100, false));
    game.update(&primary(), 0);
    game.update(&primary(), 1);
    game.update(&primary(), 2);
    // Still playing: the first question is not the last one.
    assert_eq!(game.get_state(), GameState::Playing);
    let mut f = idle();
    f.next = true;
    game.update(&f, 3);
    game.update(&primary(), 4);
    assert_eq!(game.get_state(), GameState::Finished);
}

#[test]
fn names_and_descriptions() {
    assert_eq!(GameType::ReadingSpeed.name(), "Memoria Numérica");
    assert_eq!(Difficulty::Hard.name(), "Difícil");
    assert_eq!(GameType::all().len(), 4);
    assert!(!GameType::INumbs.description().is_empty());
}
