//! Core data model: game kinds, difficulty tiers, application and run
//! states, and the per-session configuration.
//!
//! Scores throughout the crate are exact fixed-point values in hundredths
//! of a percent ("centipercent"): a perfect score is 10_000.
use vstd::prelude::*;

verus! {

/// Global state of the application, as seen by the presentation layer.
#[derive(Debug, Clone, PartialEq, Eq, Structural)]
pub enum AppState {
    GameSelection,
    GameConfig(GameType),
    Playing(GameType),
    Results,
    History,
}

/// The closed set of available games.
#[derive(Debug, Clone, Copy, PartialEq, Eq, Hash, Structural)]
pub enum GameType {
    ReadingSpeed,
    WordMemory,
    TextComprehension,
    INumbs,
}

/// Externally observable status of a running game instance.
#[derive(Debug, Clone, Copy, PartialEq, Eq, Structural)]
pub enum GameState {
    Playing,
    Finished,
    Aborted,
}

/// Difficulty tiers shared by all games.
#[derive(Debug, Clone, Copy, PartialEq, Eq, Structural)]
pub enum Difficulty {
    Easy,
    Medium,
    Hard,
}

pub open spec fn spec_game_type_name(t: GameType) -> Seq<char> {
    match t {
        GameType::ReadingSpeed => "Memoria Numérica"@,
        GameType::WordMemory => "Memoria de Palabras"@,
        GameType::TextComprehension => "Comprensión de Texto"@,
        GameType::INumbs => "iNumbs (Números / Rellenar casilleros)"@,
    }
}

pub open spec fn spec_game_type_description(t: GameType) -> Seq<char> {
    match t {
        GameType::ReadingSpeed => "Memoriza números y escríbelos después"@,
        GameType::WordMemory => "Memoriza las palabras que aparecen y después escríbelas"@,
        GameType::TextComprehension => "Lee el texto y responde las preguntas"@,
        GameType::INumbs => "Memoriza secuencias numéricas, opcionalmente completa casilleros"@,
    }
}

impl GameType {
    pub fn name(&self) -> (r: &'static str)
        ensures
            r@ == spec_game_type_name(*self),
    {
        match self {
            GameType::ReadingSpeed => "Memoria Numérica",
            GameType::WordMemory => "Memoria de Palabras",
            GameType::TextComprehension => "Comprensión de Texto",
            GameType::INumbs => "iNumbs (Números / Rellenar casilleros)",
        }
    }

    pub fn description(&self) -> (r: &'static str)
        ensures
            r@ == spec_game_type_description(*self),
    {
        match self {
            GameType::ReadingSpeed => "Memoriza números y escríbelos después",
            GameType::WordMemory => "Memoriza las palabras que aparecen y después escríbelas",
            GameType::TextComprehension => "Lee el texto y responde las preguntas",
            GameType::INumbs => "Memoriza secuencias numéricas, opcionalmente completa casilleros",
        }
    }

    /// Every available game type, each exactly once.
    pub fn all() -> (r: Vec<GameType>)
        ensures
            r@ == seq![
                GameType::ReadingSpeed,
                GameType::WordMemory,
                GameType::TextComprehension,
                GameType::INumbs,
            ],
    {
        let mut v: Vec<GameType> = Vec::new();
        v.push(GameType::ReadingSpeed);
        v.push(GameType::WordMemory);
        v.push(GameType::TextComprehension);
        v.push(GameType::INumbs);
        proof {
            assert(v@ =~= seq![
                GameType::ReadingSpeed,
                GameType::WordMemory,
                GameType::TextComprehension,
                GameType::INumbs,
            ]);
        }
        v
    }
}

pub open spec fn spec_difficulty_name(d: Difficulty) -> Seq<char> {
    match d {
        Difficulty::Easy => "Fácil"@,
        Difficulty::Medium => "Medio"@,
        Difficulty::Hard => "Difícil"@,
    }
}

impl Difficulty {
    pub fn name(&self) -> (r: &'static str)
        ensures
            r@ == spec_difficulty_name(*self),
    {
        match self {
            Difficulty::Easy => "Fácil",
            Difficulty::Medium => "Medio",
            Difficulty::Hard => "Difícil",
        }
    }
}

impl Default for Difficulty {
    fn default() -> (r: Self)
        ensures
            r == Difficulty::Medium,
    {
        Difficulty::Medium
    }
}

/// Configuration for one game session. Durations are in milliseconds.
#[derive(Debug, Clone, Copy, PartialEq, Eq, Structural)]
pub struct GameConfig {
    pub difficulty: Difficulty,
    pub duration_ms: u64,
    pub word_count: usize,
    /// Whether, after showing the numbers, the numeric-memory game should
    /// present input boxes to fill.
    pub fill_boxes: bool,
}

/// The default configuration shared by all game types.
pub open spec fn default_config() -> GameConfig {
    GameConfig {
        difficulty: Difficulty::Medium,
        duration_ms: 30_000,
        word_count: 100,
        fill_boxes: false,
    }
}

impl Default for GameConfig {
    fn default() -> (r: Self)
        ensures
            r == default_config(),
    {
        GameConfig { difficulty: Difficulty::Medium, duration_ms: 30_000, word_count: 100, fill_boxes: false }
    }
}

} // verus!
