//! The immutable record of one completed attempt.
use vstd::prelude::*;
use crate::types::GameType;

verus! {

/// Per-game payload of a result: the raw counts needed for display.
/// The variant always matches the result's `game_type`.
#[derive(Debug)]
pub enum GameDetails {
    ReadingSpeed { words_correct: usize, total_words: usize, time_taken_ms: u64 },
    WordMemory { words_correct: usize, original_words: Vec<String> },
    TextComprehension { questions_correct: usize, total_questions: usize },
    INumbs { correct: usize, total: usize, time_taken_ms: u64 },
}

/// One completed attempt. Created exactly once, when a game instance
/// finishes; immutable afterwards. The score is in centipercent.
#[derive(Debug)]
pub struct GameResult {
    pub game_type: GameType,
    pub score_cp: u64,
    pub details: GameDetails,
    pub timestamp_ms: u64,
}

/// The details variant that belongs to each game type.
pub open spec fn details_match(t: GameType, d: GameDetails) -> bool {
    match t {
        GameType::ReadingSpeed => d is ReadingSpeed,
        GameType::WordMemory => d is WordMemory,
        GameType::TextComprehension => d is TextComprehension,
        GameType::INumbs => d is INumbs,
    }
}

pub open spec fn result_wf(r: GameResult) -> bool {
    details_match(r.game_type, r.details)
}

/// Mathematical value of a details payload: word lists are read as
/// sequences of character sequences.
pub enum DetailsModel {
    ReadingSpeed { words_correct: int, total_words: int, time_taken_ms: int },
    WordMemory { words_correct: int, original_words: Seq<Seq<char>> },
    TextComprehension { questions_correct: int, total_questions: int },
    INumbs { correct: int, total: int, time_taken_ms: int },
}

/// Mathematical value of a completed attempt.
pub struct ResultModel {
    pub game_type: GameType,
    pub score_cp: int,
    pub details: DetailsModel,
    pub timestamp_ms: int,
}

pub open spec fn details_model(d: GameDetails) -> DetailsModel {
    match d {
        GameDetails::ReadingSpeed { words_correct, total_words, time_taken_ms } => {
            DetailsModel::ReadingSpeed {
                words_correct: words_correct as int,
                total_words: total_words as int,
                time_taken_ms: time_taken_ms as int,
            }
        },
        GameDetails::WordMemory { words_correct, original_words } => {
            DetailsModel::WordMemory {
                words_correct: words_correct as int,
                original_words: original_words@.map_values(|w: String| w@),
            }
        },
        GameDetails::TextComprehension { questions_correct, total_questions } => {
            DetailsModel::TextComprehension {
                questions_correct: questions_correct as int,
                total_questions: total_questions as int,
            }
        },
        GameDetails::INumbs { correct, total, time_taken_ms } => {
            DetailsModel::INumbs {
                correct: correct as int,
                total: total as int,
                time_taken_ms: time_taken_ms as int,
            }
        },
    }
}

pub open spec fn result_model(r: GameResult) -> ResultModel {
    ResultModel {
        game_type: r.game_type,
        score_cp: r.score_cp as int,
        details: details_model(r.details),
        timestamp_ms: r.timestamp_ms as int,
    }
}

impl Clone for GameDetails {
    fn clone(&self) -> (r: Self)
        ensures
            details_model(r) == details_model(*self),
    {
        match self {
            GameDetails::ReadingSpeed { words_correct, total_words, time_taken_ms } => {
                GameDetails::ReadingSpeed {
                    words_correct: *words_correct,
                    total_words: *total_words,
                    time_taken_ms: *time_taken_ms,
                }
            },
            GameDetails::WordMemory { words_correct, original_words } => {
                let words: Vec<String> = original_words.clone();
                proof {
                    assert forall|i: int| 0 <= i < original_words@.len() implies words@[i]
                        == original_words@[i] by {
                        assert(cloned::<String>(original_words@[i], words@[i]));
                    }
                    assert(words@.map_values(|w: String| w@) =~= original_words@.map_values(
                        |w: String| w@,
                    ));
                }
                GameDetails::WordMemory { words_correct: *words_correct, original_words: words }
            },
            GameDetails::TextComprehension { questions_correct, total_questions } => {
                GameDetails::TextComprehension {
                    questions_correct: *questions_correct,
                    total_questions: *total_questions,
                }
            },
            GameDetails::INumbs { correct, total, time_taken_ms } => {
                GameDetails::INumbs {
                    correct: *correct,
                    total: *total,
                    time_taken_ms: *time_taken_ms,
                }
            },
        }
    }
}

impl Clone for GameResult {
    fn clone(&self) -> (r: Self)
        ensures
            result_model(r) == result_model(*self),
    {
        GameResult {
            game_type: self.game_type,
            score_cp: self.score_cp,
            details: self.details.clone(),
            timestamp_ms: self.timestamp_ms,
        }
    }
}

} // verus!
