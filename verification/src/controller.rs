//! The application controller: owns the one active game instance,
//! forwards each frame to it, and transitions the overall application
//! state on the game's reported run state. A finished game's result is
//! recorded in storage and surfaced as the current result; an aborted
//! game is dropped without a trace.
use vstd::prelude::*;
use crate::games::FrameInput;
use crate::games::inumbs::INumbsGame;
use crate::games::reading_speed::ReadingSpeedGame;
use crate::games::text_comprehension::TextComprehensionGame;
use crate::games::word_memory::WordMemoryGame;
use crate::result::{result_wf, GameResult};
use crate::storage::{default_configs, ConfigSet, GameStats, GameStorage};
use crate::types::{AppState, GameConfig, GameState, GameType};

verus! {

/// The one running game, as a closed sum over the game types.
pub enum GameInstance {
    ReadingSpeed(ReadingSpeedGame),
    WordMemory(WordMemoryGame),
    TextComprehension(TextComprehensionGame),
    INumbs(INumbsGame),
}

/// The variant of instance that belongs to each game type.
pub open spec fn instance_matches(g: GameInstance, t: GameType) -> bool {
    match g {
        GameInstance::ReadingSpeed(_) => t == GameType::ReadingSpeed,
        GameInstance::WordMemory(_) => t == GameType::WordMemory,
        GameInstance::TextComprehension(_) => t == GameType::TextComprehension,
        GameInstance::INumbs(_) => t == GameType::INumbs,
    }
}

pub open spec fn instance_wf(g: GameInstance) -> bool {
    match g {
        GameInstance::ReadingSpeed(x) => x.wf(),
        GameInstance::WordMemory(x) => x.wf(),
        GameInstance::TextComprehension(x) => x.wf(),
        GameInstance::INumbs(x) => x.wf(),
    }
}

pub open spec fn instance_state(g: GameInstance) -> GameState {
    match g {
        GameInstance::ReadingSpeed(x) => x.spec_state(),
        GameInstance::WordMemory(x) => x.spec_state(),
        GameInstance::TextComprehension(x) => x.spec_state(),
        GameInstance::INumbs(x) => x.spec_state(),
    }
}

/// How one frame relates the active game before the update to the game
/// after it, whichever variant it is.
pub open spec fn instance_step(
    pre: GameInstance,
    post: GameInstance,
    input: FrameInput,
    now: int,
) -> bool {
    match (pre, post) {
        (GameInstance::ReadingSpeed(a), GameInstance::ReadingSpeed(b)) => {
            crate::games::reading_speed::reading_speed_step(a, b, input, now)
        },
        (GameInstance::WordMemory(a), GameInstance::WordMemory(b)) => {
            crate::games::word_memory::word_memory_step(a, b, input, now)
        },
        (GameInstance::TextComprehension(a), GameInstance::TextComprehension(b)) => {
            crate::games::text_comprehension::comprehension_step(a, b, input, now)
        },
        (GameInstance::INumbs(a), GameInstance::INumbs(b)) => {
            crate::games::inumbs::inumbs_step(a, b, input, now)
        },
        _ => false,
    }
}

/// The result a finished instance yields, whichever variant it is.
pub open spec fn instance_result(g: GameInstance, res: GameResult) -> bool {
    match g {
        GameInstance::ReadingSpeed(x) => crate::games::reading_speed::reading_speed_result(x, res),
        GameInstance::WordMemory(x) => crate::games::word_memory::word_memory_result(x, res),
        GameInstance::TextComprehension(x) => crate::games::text_comprehension::comprehension_result(
            x,
            res,
        ),
        GameInstance::INumbs(x) => crate::games::inumbs::inumbs_result(x, res),
    }
}

/// The configuration an instance was built with.
pub open spec fn instance_config(g: GameInstance) -> GameConfig {
    match g {
        GameInstance::ReadingSpeed(x) => x.config,
        GameInstance::WordMemory(x) => x.config,
        GameInstance::TextComprehension(x) => x.config,
        GameInstance::INumbs(x) => x.config,
    }
}

/// Whether the instance asks for continuous repainting.
pub open spec fn instance_repaint(g: GameInstance) -> bool {
    match g {
        GameInstance::ReadingSpeed(x) => x.phase is ShowingNumber && !x.finished && !x.aborted,
        GameInstance::WordMemory(x) => x.phase is ShowingWords && !x.finished && !x.aborted,
        GameInstance::TextComprehension(_) => false,
        GameInstance::INumbs(x) => x.phase is Showing && !x.finished && !x.aborted,
    }
}

pub struct AppController {
    pub state: AppState,
    pub storage: GameStorage,
    pub current_game: Option<GameInstance>,
    pub current_result: Option<GameResult>,
    pub game_configs: ConfigSet,
}

impl AppController {
    /// Only one game runs at a time, it is well formed, and it is still
    /// playing: a finished or aborted instance is dropped in the same
    /// frame that reports it.
    pub open spec fn wf(self) -> bool {
        &&& (self.current_game is Some ==> instance_wf(self.current_game->0) && instance_state(
            self.current_game->0,
        ) is Playing)
        &&& (self.current_result is Some ==> result_wf(self.current_result->0))
    }

    /// A controller over an empty storage.
    pub fn new() -> (r: AppController)
        ensures
            r.wf(),
            r.state == AppState::GameSelection,
            r.current_game is None,
            r.current_result is None,
            r.storage.results@.len() == 0,
            r.game_configs == default_configs(),
    {
        AppController {
            state: AppState::GameSelection,
            storage: GameStorage::new(),
            current_game: None,
            current_result: None,
            game_configs: ConfigSet::default(),
        }
    }

    /// A controller over a storage the host loaded at startup.
    pub fn with_storage(storage: GameStorage) -> (r: AppController)
        ensures
            r.wf(),
            r.state == AppState::GameSelection,
            r.current_game is None,
            r.current_result is None,
            r.storage == storage,
            r.game_configs == default_configs(),
    {
        AppController {
            state: AppState::GameSelection,
            storage,
            current_game: None,
            current_result: None,
            game_configs: ConfigSet::default(),
        }
    }

    pub fn get_state(&self) -> (r: &AppState)
        ensures
            r == self.state,
    {
        &self.state
    }

    pub fn set_state(&mut self, state: AppState)
        ensures
            *final(self) == (AppController { state: state, ..*old(self) }),
    {
        self.state = state;
    }

    /// Construct the matching game variant from the stored configuration
    /// for the type, discard any previous instance, and start playing.
    pub fn start_game(&mut self, game_type: GameType)
        requires
            old(self).wf(),
        ensures
            final(self).wf(),
            final(self).state == AppState::Playing(game_type),
            final(self).current_game is Some,
            instance_matches(final(self).current_game->0, game_type),
            instance_state(final(self).current_game->0) is Playing,
            instance_config(final(self).current_game->0) == old(self).game_configs.spec_get(
                game_type,
            ),
            *final(self) == (AppController {
                state: final(self).state,
                current_game: final(self).current_game,
                ..*old(self)
            }),
    {
        let config = self.game_configs.get(game_type);
        let game: GameInstance = match game_type {
            GameType::ReadingSpeed => GameInstance::ReadingSpeed(ReadingSpeedGame::new(config)),
            GameType::WordMemory => GameInstance::WordMemory(WordMemoryGame::new(config)),
            GameType::TextComprehension => GameInstance::TextComprehension(
                TextComprehensionGame::new(config),
            ),
            GameType::INumbs => GameInstance::INumbs(INumbsGame::new(config)),
        };
        self.current_game = Some(game);
        self.state = AppState::Playing(game_type);
    }

    /// Forward one frame to the active game. When the game reports
    /// Finished, its result is appended to storage, becomes the current
    /// result, and the application moves to the results screen; when it
    /// reports Aborted, the instance is dropped and the application
    /// returns to the selection screen; otherwise only the game advances.
    pub fn update_current_game(&mut self, input: &FrameInput, now_ms: u64)
        requires
            old(self).wf(),
        ensures
            final(self).wf(),
            old(self).current_game is None ==> *final(self) == *old(self),
            old(self).current_game is Some ==> ({
                let pre = *old(self);
                let post = *final(self);
                &&& post.game_configs == pre.game_configs
                &&& ({
                    ||| (post.current_game is Some && instance_step(
                        pre.current_game->0,
                        post.current_game->0,
                        *input,
                        now_ms as int,
                    ) && instance_matches(post.current_game->0,
                        spec_instance_type(pre.current_game->0)) && post == (AppController {
                        current_game: post.current_game,
                        ..pre
                    }))
                    ||| (post.current_game is None && post.state == AppState::Results
                        && (exists|g2: GameInstance|
                        #[trigger] instance_step(pre.current_game->0, g2, *input, now_ms as int)
                            && instance_state(g2) is Finished && instance_result(
                            g2,
                            post.current_result->0,
                        ))
                        && post.current_result is Some && result_wf(post.current_result->0)
                        && instance_matches(pre.current_game->0, post.current_result->0.game_type)
                        && post.storage.results@.len() == pre.storage.results@.len() + 1
                        && crate::result::result_model(post.storage.results@.last())
                        == crate::result::result_model(post.current_result->0)
                        && post.storage.results@.subrange(0, pre.storage.results@.len() as int)
                        == pre.storage.results@ && post.storage.configs == pre.storage.configs
                        && post == (AppController {
                        current_game: post.current_game,
                        current_result: post.current_result,
                        state: post.state,
                        storage: post.storage,
                        ..pre
                    }))
                    ||| (post.current_game is None && post.state == AppState::GameSelection
                        && (exists|g2: GameInstance|
                        #[trigger] instance_step(pre.current_game->0, g2, *input, now_ms as int)
                            && instance_state(g2) is Aborted)
                        && post == (AppController {
                        current_game: post.current_game,
                        state: post.state,
                        ..pre
                    }))
                })
            }),
    {
        let taken = self.current_game.take();
        match taken {
            None => {},
            Some(mut game) => {
                let run_state: GameState;
                let result: Option<GameResult>;
                match &mut game {
                    GameInstance::ReadingSpeed(g) => {
                        g.update(input, now_ms);
                        run_state = g.get_state();
                        result = g.get_result();
                    },
                    GameInstance::WordMemory(g) => {
                        g.update(input, now_ms);
                        run_state = g.get_state();
                        result = g.get_result();
                    },
                    GameInstance::TextComprehension(g) => {
                        g.update(input, now_ms);
                        run_state = g.get_state();
                        result = g.get_result();
                    },
                    GameInstance::INumbs(g) => {
                        g.update(input, now_ms);
                        run_state = g.get_state();
                        result = g.get_result();
                    },
                }
                proof {
                    assert(instance_step(
                        old(self).current_game->0,
                        game,
                        *input,
                        now_ms as int,
                    ));
                    assert(instance_state(game) == run_state);
                }
                match run_state {
                    GameState::Playing => {
                        self.current_game = Some(game);
                    },
                    GameState::Finished => {
                        match result {
                            Some(res) => {
                                let copy = res.clone();
                                self.storage.save_result(copy);
                                self.current_result = Some(res);
                                self.state = AppState::Results;
                            },
                            None => {},
                        }
                    },
                    GameState::Aborted => {
                        self.state = AppState::GameSelection;
                    },
                }
            },
        }
    }

    /// True only while the active game is in a timed display phase.
    pub fn needs_repaint(&self) -> (r: bool)
        ensures
            r == (self.current_game is Some && instance_repaint(self.current_game->0)),
    {
        match &self.current_game {
            None => false,
            Some(GameInstance::ReadingSpeed(g)) => g.needs_repaint(),
            Some(GameInstance::WordMemory(g)) => g.needs_repaint(),
            Some(GameInstance::TextComprehension(g)) => g.needs_repaint(),
            Some(GameInstance::INumbs(g)) => g.needs_repaint(),
        }
    }

    pub fn get_current_result(&self) -> (r: Option<&GameResult>)
        ensures
            r is Some <==> self.current_result is Some,
            r is Some ==> r->0 == self.current_result->0,
    {
        self.current_result.as_ref()
    }

    pub fn clear_current_result(&mut self)
        ensures
            *final(self) == (AppController { current_result: None, ..*old(self) }),
    {
        self.current_result = None;
    }

    pub fn get_stats_for_game(&self, game_type: &GameType) -> (r: GameStats)
        ensures
            r.total_games == crate::storage::results_for(self.storage.results@, *game_type).len(),
            r.best_score_cp == crate::storage::best_score(
                crate::storage::results_for(self.storage.results@, *game_type),
            ),
    {
        self.storage.get_stats_for_game(game_type)
    }

    pub fn get_all_results(&self) -> (r: Vec<GameResult>)
        ensures
            r@.map_values(|x: GameResult| crate::result::result_model(x))
                == self.storage.results_model(),
    {
        self.storage.get_all_results()
    }

    pub fn clear_all_results(&mut self)
        ensures
            final(self).storage.results@.len() == 0,
            final(self).storage.configs == old(self).storage.configs,
            *final(self) == (AppController { storage: final(self).storage, ..*old(self) }),
    {
        self.storage.clear_all_results();
    }

    pub fn get_config(&self, game_type: &GameType) -> (r: GameConfig)
        ensures
            r == self.game_configs.spec_get(*game_type),
    {
        self.game_configs.get(*game_type)
    }

    /// Store a configuration both in the live mapping and in storage.
    pub fn set_config(&mut self, game_type: GameType, config: GameConfig)
        ensures
            final(self).game_configs == old(self).game_configs.spec_set(game_type, config),
            final(self).storage.configs == old(self).storage.configs.spec_set(game_type, config),
            final(self).storage.results@ == old(self).storage.results@,
            *final(self) == (AppController {
                game_configs: final(self).game_configs,
                storage: final(self).storage,
                ..*old(self)
            }),
    {
        self.game_configs.set(game_type, config);
        self.storage.save_config(game_type, config);
    }
}

impl Default for AppController {
    fn default() -> (r: Self)
        ensures
            r.wf(),
            r.state == AppState::GameSelection,
            r.current_game is None,
            r.current_result is None,
            r.storage.results@.len() == 0,
            r.game_configs == default_configs(),
    {
        Self::new()
    }
}

/// The game type an instance belongs to.
pub open spec fn spec_instance_type(g: GameInstance) -> GameType {
    match g {
        GameInstance::ReadingSpeed(_) => GameType::ReadingSpeed,
        GameInstance::WordMemory(_) => GameType::WordMemory,
        GameInstance::TextComprehension(_) => GameType::TextComprehension,
        GameInstance::INumbs(_) => GameType::INumbs,
    }
}

} // verus!
