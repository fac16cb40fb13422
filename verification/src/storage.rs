//! The in-memory storage model: an append-only, chronologically ordered
//! collection of results plus one configuration per game type. Persistence
//! itself is a port: the host loads a document at startup (falling back to
//! an empty storage when it cannot be decoded) and writes the encoded
//! document back after every mutation.
use vstd::prelude::*;
use vstd::seq_lib::*;
use crate::result::{result_model, GameResult, ResultModel};
use crate::types::{GameConfig, GameType};

verus! {

/// One configuration per game type: a total mapping.
#[derive(Debug, Clone, Copy, PartialEq, Eq, Structural)]
pub struct ConfigSet {
    pub reading_speed: GameConfig,
    pub word_memory: GameConfig,
    pub text_comprehension: GameConfig,
    pub inumbs: GameConfig,
}

impl ConfigSet {
    pub open spec fn spec_get(self, t: GameType) -> GameConfig {
        match t {
            GameType::ReadingSpeed => self.reading_speed,
            GameType::WordMemory => self.word_memory,
            GameType::TextComprehension => self.text_comprehension,
            GameType::INumbs => self.inumbs,
        }
    }

    pub open spec fn spec_set(self, t: GameType, c: GameConfig) -> ConfigSet {
        match t {
            GameType::ReadingSpeed => ConfigSet { reading_speed: c, ..self },
            GameType::WordMemory => ConfigSet { word_memory: c, ..self },
            GameType::TextComprehension => ConfigSet { text_comprehension: c, ..self },
            GameType::INumbs => ConfigSet { inumbs: c, ..self },
        }
    }

    pub fn get(&self, t: GameType) -> (r: GameConfig)
        ensures
            r == self.spec_get(t),
    {
        match t {
            GameType::ReadingSpeed => self.reading_speed,
            GameType::WordMemory => self.word_memory,
            GameType::TextComprehension => self.text_comprehension,
            GameType::INumbs => self.inumbs,
        }
    }

    pub fn set(&mut self, t: GameType, c: GameConfig)
        ensures
            *final(self) == old(self).spec_set(t, c),
    {
        match t {
            GameType::ReadingSpeed => self.reading_speed = c,
            GameType::WordMemory => self.word_memory = c,
            GameType::TextComprehension => self.text_comprehension = c,
            GameType::INumbs => self.inumbs = c,
        }
    }
}

/// The default configuration mapping: every game type starts from the
/// shared default configuration.
pub open spec fn default_configs() -> ConfigSet {
    ConfigSet {
        reading_speed: crate::types::default_config(),
        word_memory: crate::types::default_config(),
        text_comprehension: crate::types::default_config(),
        inumbs: crate::types::default_config(),
    }
}

impl Default for ConfigSet {
    fn default() -> (r: Self)
        ensures
            r == default_configs(),
    {
        ConfigSet {
            reading_speed: GameConfig::default(),
            word_memory: GameConfig::default(),
            text_comprehension: GameConfig::default(),
            inumbs: GameConfig::default(),
        }
    }
}

/// Aggregate statistics for one game type. The best score is in
/// centipercent, 0 with no recorded games.
#[derive(Debug, Clone, Copy, PartialEq, Eq, Structural)]
pub struct GameStats {
    pub total_games: usize,
    pub best_score_cp: u64,
}

impl Default for GameStats {
    fn default() -> (r: Self)
        ensures
            r.total_games == 0,
            r.best_score_cp == 0,
    {
        GameStats { total_games: 0, best_score_cp: 0 }
    }
}

/// Largest score among the results, 0 when there are none.
pub open spec fn best_score(rs: Seq<GameResult>) -> int
    decreases rs.len(),
{
    if rs.len() == 0 {
        0
    } else {
        let rest = best_score(rs.drop_last());
        if rs.last().score_cp >= rest {
            rs.last().score_cp as int
        } else {
            rest
        }
    }
}

/// The results whose game type is `t`, in stored order.
pub open spec fn results_for(rs: Seq<GameResult>, t: GameType) -> Seq<GameResult> {
    rs.filter(|r: GameResult| r.game_type == t)
}

pub struct GameStorage {
    pub results: Vec<GameResult>,
    pub configs: ConfigSet,
}

impl GameStorage {
    /// The mathematical value of the stored collection.
    pub open spec fn results_model(self) -> Seq<ResultModel> {
        self.results@.map_values(|r: GameResult| result_model(r))
    }

    /// A fresh, empty storage with default configurations.
    pub fn new() -> (r: GameStorage)
        ensures
            r.results@.len() == 0,
            r.configs == default_configs(),
    {
        GameStorage { results: Vec::new(), configs: ConfigSet::default() }
    }

    /// Append one result; each save appends exactly one entry, never
    /// deduplicating and never validating the score.
    pub fn save_result(&mut self, result: GameResult)
        ensures
            final(self).results@ == old(self).results@.push(result),
            final(self).configs == old(self).configs,
    {
        self.results.push(result);
    }

    /// Upsert the configuration for one game type.
    pub fn save_config(&mut self, game_type: GameType, config: GameConfig)
        ensures
            final(self).configs == old(self).configs.spec_set(game_type, config),
            final(self).results@ == old(self).results@,
    {
        self.configs.set(game_type, config);
    }

    /// The stored results of one game type, in stored order.
    #[verifier::loop_isolation(false)]
    pub fn get_results_for_game(&self, game_type: &GameType) -> (r: Vec<&GameResult>)
        ensures
            r@.map_values(|x: &GameResult| *x) == results_for(self.results@, *game_type),
    {
        let t = *game_type;
        let ghost pred = |x: GameResult| x.game_type == t;
        let mut out: Vec<&GameResult> = Vec::new();
        let mut i: usize = 0;
        proof {
            reveal(Seq::filter);
            assert(self.results@.subrange(0, 0).filter(pred) =~= Seq::<GameResult>::empty());
        }
        while i < self.results.len()
            invariant
                i <= self.results@.len(),
                t == *game_type,
                out@.map_values(|x: &GameResult| *x) =~= self.results@.subrange(
                    0,
                    i as int,
                ).filter(pred),
            decreases self.results@.len() - i,
        {
            proof {
                reveal_with_fuel(Seq::filter, 3);
                let x = self.results@[i as int];
                let prefix = self.results@.subrange(0, i as int);
                assert(self.results@.subrange(0, i + 1 as int) =~= prefix + seq![x]);
                Seq::<GameResult>::filter_distributes_over_add(prefix, seq![x], pred);
                assert(seq![x].drop_last() =~= Seq::<GameResult>::empty());
                if pred(x) {
                    assert(seq![x].filter(pred) =~= seq![x]);
                } else {
                    assert(seq![x].filter(pred) =~= Seq::<GameResult>::empty());
                }
            }
            if self.results[i].game_type == *game_type {
                out.push(&self.results[i]);
                proof {
                    assert(out@.map_values(|x: &GameResult| *x) =~= self.results@.subrange(
                        0,
                        i + 1 as int,
                    ).filter(pred));
                }
            }
            i = i + 1;
        }
        proof {
            assert(self.results@.subrange(0, self.results@.len() as int) =~= self.results@);
        }
        out
    }

    /// Count and best score of one game type's results.
    #[verifier::loop_isolation(false)]
    pub fn get_stats_for_game(&self, game_type: &GameType) -> (r: GameStats)
        ensures
            r.total_games == results_for(self.results@, *game_type).len(),
            r.best_score_cp == best_score(results_for(self.results@, *game_type)),
    {
        let t = *game_type;
        let ghost pred = |x: GameResult| x.game_type == t;
        let mut total: usize = 0;
        let mut best: u64 = 0;
        let mut i: usize = 0;
        proof {
            reveal(Seq::filter);
            assert(self.results@.subrange(0, 0).filter(pred) =~= Seq::<GameResult>::empty());
        }
        while i < self.results.len()
            invariant
                i <= self.results@.len(),
                t == *game_type,
                total == self.results@.subrange(0, i as int).filter(pred).len(),
                best == best_score(self.results@.subrange(0, i as int).filter(pred)),
            decreases self.results@.len() - i,
        {
            proof {
                reveal_with_fuel(Seq::filter, 3);
                let x = self.results@[i as int];
                let prefix = self.results@.subrange(0, i as int);
                assert(self.results@.subrange(0, i + 1 as int) =~= prefix + seq![x]);
                Seq::<GameResult>::filter_distributes_over_add(prefix, seq![x], pred);
                assert(seq![x].drop_last() =~= Seq::<GameResult>::empty());
                if pred(x) {
                    assert(seq![x].filter(pred) =~= seq![x]);
                } else {
                    assert(seq![x].filter(pred) =~= Seq::<GameResult>::empty());
                }
                prefix.lemma_filter_len(pred);
                if pred(x) {
                    assert((prefix.filter(pred) + seq![x]).drop_last() =~= prefix.filter(pred));
                    assert((prefix + seq![x]).filter(pred).last() == x);
                }
            }
            if self.results[i].game_type == *game_type {
                total = total + 1;
                if self.results[i].score_cp > best {
                    best = self.results[i].score_cp;
                }
            }
            i = i + 1;
        }
        proof {
            assert(self.results@.subrange(0, self.results@.len() as int) =~= self.results@);
        }
        GameStats { total_games: total, best_score_cp: best }
    }

    /// A copy of the whole collection, value for value, in stored order.
    pub fn get_all_results(&self) -> (r: Vec<GameResult>)
        ensures
            r@.map_values(|x: GameResult| result_model(x)) == self.results_model(),
    {
        let copy = self.results.clone();
        proof {
            assert forall|i: int| 0 <= i < self.results@.len() implies result_model(copy@[i])
                == result_model(self.results@[i]) by {
                assert(cloned::<GameResult>(self.results@[i], copy@[i]));
            }
            assert(copy@.map_values(|x: GameResult| result_model(x)) =~= self.results_model());
        }
        copy
    }

    /// Empty the collection; configurations are kept.
    pub fn clear_all_results(&mut self)
        ensures
            final(self).results@.len() == 0,
            final(self).configs == old(self).configs,
    {
        self.results.clear();
    }
}

} // verus!
