//! Word memory: a shuffled selection from a per-difficulty word pool is
//! shown one word at a time, then recalled into a free-text field. The
//! score is the number of typed words that occur anywhere in the shown
//! list (case-insensitively), over the size of the list.
use vstd::prelude::*;
use crate::games::{elapsed_since, period_expired, FrameInput};
use crate::result::{details_match, DetailsModel, details_model, GameDetails, GameResult};
use crate::rng::shuffle_strings;
use crate::score::{count_in, cp_capped, frac_to_cp_capped};
use crate::textops::{lower_of, lower_str, split_words, words_of};
use crate::types::{Difficulty, GameConfig, GameState, GameType};

verus! {

/// Internal progression of a word-memory session.
#[derive(Debug, Clone, Copy, PartialEq, Eq, Structural)]
pub enum MemoryPhase {
    Instructions,
    ShowingWords,
    Recall,
}

/// The fixed word pool of a difficulty tier.
pub open spec fn pool_model(d: Difficulty) -> Seq<Seq<char>> {
    match d {
        Difficulty::Easy => seq![
            "casa"@, "perro"@, "sol"@, "mesa"@, "libro"@, "agua"@, "fuego"@, "árbol"@,
            "flor"@, "cielo"@, "mar"@, "montaña"@, "río"@, "piedra"@, "luz"@, "noche"@,
        ],
        Difficulty::Medium => seq![
            "computadora"@, "teléfono"@, "automóvil"@, "biblioteca"@, "hospital"@,
            "universidad"@, "restaurante"@, "supermercado"@, "farmacia"@, "aeropuerto"@,
            "estación"@, "oficina"@,
        ],
        Difficulty::Hard => seq![
            "epistemología"@, "neuroplasticidad"@, "fenomenología"@, "hermenéutica"@,
            "paradigma"@, "metamorfosis"@, "episódico"@, "cronológico"@, "metodología"@,
            "taxonomía"@,
        ],
    }
}

/// How many pool words a tier shows.
pub open spec fn word_count_for(d: Difficulty) -> int {
    match d {
        Difficulty::Easy => 8,
        Difficulty::Medium => 12,
        Difficulty::Hard => 16,
    }
}

/// How long each word stays on screen, in milliseconds.
pub open spec fn word_display_for(d: Difficulty) -> int {
    match d {
        Difficulty::Easy => 3000,
        Difficulty::Medium => 2000,
        Difficulty::Hard => 1500,
    }
}

pub open spec fn lowered(ws: Seq<Seq<char>>) -> Seq<Seq<char>> {
    ws.map_values(|w: Seq<char>| lower_of(w))
}

/// Number of typed words that occur, case-insensitively, in the shown
/// list. Repeated typed words each count.
pub open spec fn wm_matched(input: Seq<char>, origs: Seq<Seq<char>>) -> int {
    count_in(lowered(words_of(input)), lowered(origs))
}

/// The session's score in centipercent: matched words over the size of
/// the shown list (zero on an empty list). Repeated matching words can
/// push the count past the list size, so the score is capped at a perfect
/// 10_000 to keep every recorded score within 0..=100%.
pub open spec fn wm_score_cp(matched: int, list_len: int) -> int {
    if list_len == 0 {
        0
    } else {
        cp_capped(matched, list_len)
    }
}

/// Typing as many words as were shown, each of which occurs in the shown
/// list after case folding — i.e. exactly the original word list, in any
/// order and any letter case — scores exactly 100%.
pub proof fn lemma_full_recall_scores_full(input: Seq<char>, origs: Seq<Seq<char>>)
    requires
        origs.len() >= 1,
        words_of(input).len() == origs.len(),
        forall|i: int|
            0 <= i < words_of(input).len() ==> lowered(origs).contains(
                #[trigger] lower_of(words_of(input)[i]),
            ),
    ensures
        wm_score_cp(wm_matched(input, origs), origs.len() as int) == 10_000,
{
    let toks = lowered(words_of(input));
    assert forall|i: int| 0 <= i < toks.len() implies lowered(origs).contains(
        #[trigger] toks[i],
    ) by {
        assert(toks[i] == lower_of(words_of(input)[i]));
    }
    crate::score::lemma_count_in_all(toks, lowered(origs));
    let n = origs.len() as int;
    assert(n * 10_000 / n == 10_000) by {
        vstd::arithmetic::div_mod::lemma_div_multiples_vanish(10_000, n);
    }
}

/// A recall with no typed words scores zero.
pub proof fn lemma_empty_recall_scores_zero(input: Seq<char>, origs: Seq<Seq<char>>)
    requires
        words_of(input).len() == 0,
        origs.len() >= 1,
    ensures
        wm_score_cp(wm_matched(input, origs), origs.len() as int) == 0,
{
    assert(lowered(words_of(input)).len() == 0);
    let n = origs.len() as int;
    assert(0int * 10_000 == 0) by (nonlinear_arith);
    assert(0int / n == 0) by {
        vstd::arithmetic::div_mod::lemma_small_div_converse(0, n);
    }
}

/// How one frame of interaction relates the state before the update to
/// the state after it.
pub open spec fn word_memory_step(pre: WordMemoryGame, post: WordMemoryGame, input: FrameInput, now: int) -> bool {
    if pre.aborted {
        post == pre
    } else {
        match pre.phase {
            MemoryPhase::Instructions => {
                if input.menu {
                    post == (WordMemoryGame { aborted: true, ..pre })
                } else if input.primary {
                    post == (WordMemoryGame {
                        phase: MemoryPhase::ShowingWords,
                        start_ms: (now as u64),
                        last_word_ms: (now as u64),
                        ..pre
                    })
                } else {
                    post == pre
                }
            },
            MemoryPhase::ShowingWords => {
                if !period_expired(
                    now,
                    pre.last_word_ms as int,
                    pre.word_display_ms as int,
                ) {
                    post == pre
                } else if pre.current_word_index + 1 >= pre.words@.len() {
                    post == (WordMemoryGame {
                        current_word_index: (pre.current_word_index + 1) as usize,
                        phase: MemoryPhase::Recall,
                        start_ms: (now as u64),
                        ..pre
                    })
                } else {
                    post == (WordMemoryGame {
                        current_word_index: (pre.current_word_index + 1) as usize,
                        last_word_ms: (now as u64),
                        ..pre
                    })
                }
            },
            MemoryPhase::Recall => {
                let aborted2 = input.menu;
                if input.primary {
                    &&& post.matched_count == wm_matched(
                        input.text@,
                        pre.words_model(),
                    )
                    &&& post == (WordMemoryGame {
                        aborted: aborted2,
                        user_input: post.user_input,
                        matched_count: post.matched_count,
                        finished: true,
                        finished_at_ms: (now as u64),
                        ..pre
                    })
                    &&& post.user_input@ == input.text@
                } else {
                    &&& post == (WordMemoryGame {
                        aborted: aborted2,
                        user_input: post.user_input,
                        ..pre
                    })
                    &&& post.user_input@ == input.text@
                }
            },
        }
    }
}

/// The result a finished word-memory session yields.
pub open spec fn word_memory_result(g: WordMemoryGame, res: GameResult) -> bool {
    &&& res.game_type == GameType::WordMemory
    &&& details_match(res.game_type, res.details)
    &&& res.score_cp == wm_score_cp(g.matched_count as int, g.words@.len() as int)
    &&& res.score_cp <= 10_000
    &&& details_model(res.details) == (DetailsModel::WordMemory {
        words_correct: g.matched_count as int,
        original_words: g.words_model(),
    })
    &&& res.timestamp_ms == g.finished_at_ms
}

pub struct WordMemoryGame {
    pub config: GameConfig,
    pub phase: MemoryPhase,
    pub start_ms: u64,
    pub words: Vec<String>,
    pub current_word_index: usize,
    pub user_input: String,
    pub finished: bool,
    pub aborted: bool,
    pub word_display_ms: u64,
    pub last_word_ms: u64,
    pub matched_count: usize,
    pub finished_at_ms: u64,
}

impl WordMemoryGame {
    pub open spec fn wf(self) -> bool {
        &&& self.words@.len() >= 1
        &&& self.current_word_index <= self.words@.len()
        &&& (self.phase is ShowingWords ==> self.current_word_index < self.words@.len())
        &&& (self.phase is Instructions ==> self.current_word_index == 0)
    }

    pub open spec fn spec_state(self) -> GameState {
        if self.finished {
            GameState::Finished
        } else if self.aborted {
            GameState::Aborted
        } else {
            GameState::Playing
        }
    }

    /// The shown words, as character sequences.
    pub open spec fn words_model(self) -> Seq<Seq<char>> {
        self.words@.map_values(|s: String| s@)
    }

    pub fn new(config: GameConfig) -> (r: WordMemoryGame)
        ensures
            r.wf(),
            r.phase is Instructions,
            !r.finished,
            !r.aborted,
            r.config == config,
            r.current_word_index == 0,
            r.user_input@.len() == 0,
            r.matched_count == 0,
            r.word_display_ms == word_display_for(config.difficulty),
            generated_words(r.words_model(), config.difficulty),
    {
        let words = Self::generate_words(&config);
        let word_display_ms: u64 = match config.difficulty {
            Difficulty::Easy => 3000,
            Difficulty::Medium => 2000,
            Difficulty::Hard => 1500,
        };
        WordMemoryGame {
            config,
            phase: MemoryPhase::Instructions,
            start_ms: 0,
            words,
            current_word_index: 0,
            user_input: String::new(),
            finished: false,
            aborted: false,
            word_display_ms,
            last_word_ms: 0,
            matched_count: 0,
            finished_at_ms: 0,
        }
    }

    /// A shuffled selection from the tier's pool, truncated to the tier's
    /// word count (or the whole pool where the pool is smaller).
    pub fn generate_words(config: &GameConfig) -> (r: Vec<String>)
        ensures
            generated_words(r@.map_values(|s: String| s@), config.difficulty),
    {
        let mut pool: Vec<String> = pool_words(config.difficulty);
        let word_count: usize = match config.difficulty {
            Difficulty::Easy => 8,
            Difficulty::Medium => 12,
            Difficulty::Hard => 16,
        };
        let ghost pool_view = pool@.map_values(|s: String| s@);
        shuffle_strings(&mut pool);
        let ghost shuf_seq = pool@;
        let ghost shuf_view = pool@.map_values(|s: String| s@);
        proof {
            shuf_view.to_multiset_ensures();
            pool_view.to_multiset_ensures();
        }
        let count = if word_count <= pool.len() {
            word_count
        } else {
            pool.len()
        };
        pool.truncate(count);
        proof {
            let final_view = pool@.map_values(|s: String| s@);
            assert forall|i: int|
                0 <= i < final_view.len() implies pool_model(config.difficulty).contains(
                #[trigger] final_view[i]) by {
                assert(final_view[i] == pool@[i]@);
                assert(pool@[i] == shuf_seq[i]);
                assert(shuf_view[i] == shuf_seq[i]@);
                assert(shuf_view.contains(final_view[i]));
                assert(shuf_view.to_multiset().count(final_view[i]) > 0);
                assert(pool_view.to_multiset().count(final_view[i]) > 0);
                assert(pool_view.contains(final_view[i]));
            }
            lemma_pool_no_duplicates(config.difficulty);
            pool_view.lemma_multiset_has_no_duplicates();
            shuf_view.lemma_multiset_has_no_duplicates_conv();
            assert forall|i: int, j: int|
                0 <= i < j < final_view.len() implies final_view[i] != final_view[j] by {
                assert(final_view[i] == shuf_view[i]);
                assert(final_view[j] == shuf_view[j]);
            }
            assert(final_view.no_duplicates());
        }
        pool
    }

    pub fn update(&mut self, input: &FrameInput, now_ms: u64)
        requires
            old(self).wf(),
        ensures
            final(self).wf(),
            word_memory_step(*old(self), *final(self), *input, now_ms as int),
    {
        if self.aborted {
            return ;
        }
        match self.phase {
            MemoryPhase::Instructions => {
                if input.menu {
                    self.aborted = true;
                } else if input.primary {
                    self.phase = MemoryPhase::ShowingWords;
                    self.start_ms = now_ms;
                    self.last_word_ms = now_ms;
                }
            },
            MemoryPhase::ShowingWords => {
                if elapsed_since(now_ms, self.last_word_ms) >= self.word_display_ms {
                    let n = self.words.len();
                    proof {
                        assert(self.current_word_index < n);
                    }
                    self.current_word_index = self.current_word_index + 1;
                    if self.current_word_index >= self.words.len() {
                        self.phase = MemoryPhase::Recall;
                        self.start_ms = now_ms;
                    } else {
                        self.last_word_ms = now_ms;
                    }
                }
            },
            MemoryPhase::Recall => {
                if input.menu {
                    self.aborted = true;
                }
                self.user_input = input.text.clone();
                if input.primary {
                    self.matched_count = count_matches(&self.user_input, &self.words);
                    self.finished = true;
                    self.finished_at_ms = now_ms;
                }
            },
        }
    }

    pub fn get_state(&self) -> (r: GameState)
        ensures
            r == self.spec_state(),
    {
        if self.finished {
            GameState::Finished
        } else if self.aborted {
            GameState::Aborted
        } else {
            GameState::Playing
        }
    }

    /// The result of the attempt: present exactly once the run state is
    /// Finished, and then always the same value for the same state.
    pub fn get_result(&self) -> (r: Option<GameResult>)
        requires
            self.wf(),
        ensures
            r is Some <==> self.spec_state() is Finished,
            r is Some ==> word_memory_result(*self, r->0),
    {
        if !self.finished {
            return None;
        }
        let score_cp = frac_to_cp_capped(self.matched_count, self.words.len());
        let originals = self.words.clone();
        proof {
            assert forall|i: int| 0 <= i < self.words@.len() implies originals@[i]@
                == self.words@[i]@ by {
                assert(cloned::<String>(self.words@[i], originals@[i]));
            }
            assert(originals@.map_values(|s: String| s@) =~= self.words_model());
        }
        Some(
            GameResult {
                game_type: GameType::WordMemory,
                score_cp,
                details: GameDetails::WordMemory {
                    words_correct: self.matched_count,
                    original_words: originals,
                },
                timestamp_ms: self.finished_at_ms,
            },
        )
    }

    /// True only while the timed display phase is running.
    pub fn needs_repaint(&self) -> (r: bool)
        ensures
            r == (self.phase is ShowingWords && !self.finished && !self.aborted),
    {
        match self.phase {
            MemoryPhase::ShowingWords => !self.finished && !self.aborted,
            _ => false,
        }
    }
}

/// Shape of a freshly generated word list: as many words as the tier asks
/// for (bounded by the pool), every one drawn from the tier's pool, and
/// no word dealt twice.
pub open spec fn generated_words(ws: Seq<Seq<char>>, d: Difficulty) -> bool {
    &&& ws.len() == crate::score::min_int(word_count_for(d), pool_model(d).len() as int)
    &&& (forall|i: int| 0 <= i < ws.len() ==> pool_model(d).contains(#[trigger] ws[i]))
    &&& ws.no_duplicates()
}

/// Every tier's pool lists pairwise distinct words.
#[verifier::rlimit(60)]
proof fn lemma_pool_no_duplicates(d: Difficulty)
    ensures
        pool_model(d).no_duplicates(),
{
    broadcast use vstd::string::group_string_axioms;

    match d {
        Difficulty::Easy => {
            reveal_strlit("casa");
            reveal_strlit("perro");
            reveal_strlit("sol");
            reveal_strlit("mesa");
            reveal_strlit("libro");
            reveal_strlit("agua");
            reveal_strlit("fuego");
            reveal_strlit("árbol");
            reveal_strlit("flor");
            reveal_strlit("cielo");
            reveal_strlit("mar");
            reveal_strlit("montaña");
            reveal_strlit("río");
            reveal_strlit("piedra");
            reveal_strlit("luz");
            reveal_strlit("noche");
            assert("casa"@.len() == 4);
            assert("casa"@[0] == 'c');
            assert("perro"@.len() == 5);
            assert("perro"@[0] == 'p');
            assert("sol"@.len() == 3);
            assert("sol"@[0] == 's');
            assert("mesa"@.len() == 4);
            assert("mesa"@[0] == 'm');
            assert("libro"@.len() == 5);
            assert("libro"@[0] == 'l');
            assert("agua"@.len() == 4);
            assert("agua"@[0] == 'a');
            assert("fuego"@.len() == 5);
            assert("fuego"@[0] == 'f');
            assert("árbol"@.len() == 5);
            assert("árbol"@[0] == 'á');
            assert("flor"@.len() == 4);
            assert("flor"@[0] == 'f');
            assert("cielo"@.len() == 5);
            assert("cielo"@[0] == 'c');
            assert("mar"@.len() == 3);
            assert("mar"@[0] == 'm');
            assert("montaña"@.len() == 7);
            assert("montaña"@[0] == 'm');
            assert("río"@.len() == 3);
            assert("río"@[0] == 'r');
            assert("piedra"@.len() == 6);
            assert("piedra"@[0] == 'p');
            assert("luz"@.len() == 3);
            assert("luz"@[0] == 'l');
            assert("noche"@.len() == 5);
            assert("noche"@[0] == 'n');
            assert(pool_model(d).no_duplicates());
        },
        Difficulty::Medium => {
            reveal_strlit("computadora");
            reveal_strlit("teléfono");
            reveal_strlit("automóvil");
            reveal_strlit("biblioteca");
            reveal_strlit("hospital");
            reveal_strlit("universidad");
            reveal_strlit("restaurante");
            reveal_strlit("supermercado");
            reveal_strlit("farmacia");
            reveal_strlit("aeropuerto");
            reveal_strlit("estación");
            reveal_strlit("oficina");
            assert("computadora"@.len() == 11);
            assert("computadora"@[0] == 'c');
            assert("teléfono"@.len() == 8);
            assert("teléfono"@[0] == 't');
            assert("automóvil"@.len() == 9);
            assert("automóvil"@[0] == 'a');
            assert("biblioteca"@.len() == 10);
            assert("biblioteca"@[0] == 'b');
            assert("hospital"@.len() == 8);
            assert("hospital"@[0] == 'h');
            assert("universidad"@.len() == 11);
            assert("universidad"@[0] == 'u');
            assert("restaurante"@.len() == 11);
            assert("restaurante"@[0] == 'r');
            assert("supermercado"@.len() == 12);
            assert("supermercado"@[0] == 's');
            assert("farmacia"@.len() == 8);
            assert("farmacia"@[0] == 'f');
            assert("aeropuerto"@.len() == 10);
            assert("aeropuerto"@[0] == 'a');
            assert("estación"@.len() == 8);
            assert("estación"@[0] == 'e');
            assert("oficina"@.len() == 7);
            assert("oficina"@[0] == 'o');
            assert(pool_model(d).no_duplicates());
        },
        Difficulty::Hard => {
            reveal_strlit("epistemología");
            reveal_strlit("neuroplasticidad");
            reveal_strlit("fenomenología");
            reveal_strlit("hermenéutica");
            reveal_strlit("paradigma");
            reveal_strlit("metamorfosis");
            reveal_strlit("episódico");
            reveal_strlit("cronológico");
            reveal_strlit("metodología");
            reveal_strlit("taxonomía");
            assert("epistemología"@.len() == 13);
            assert("epistemología"@[0] == 'e');
            assert("neuroplasticidad"@.len() == 16);
            assert("neuroplasticidad"@[0] == 'n');
            assert("fenomenología"@.len() == 13);
            assert("fenomenología"@[0] == 'f');
            assert("hermenéutica"@.len() == 12);
            assert("hermenéutica"@[0] == 'h');
            assert("paradigma"@.len() == 9);
            assert("paradigma"@[0] == 'p');
            assert("metamorfosis"@.len() == 12);
            assert("metamorfosis"@[0] == 'm');
            assert("episódico"@.len() == 9);
            assert("episódico"@[0] == 'e');
            assert("cronológico"@.len() == 11);
            assert("cronológico"@[0] == 'c');
            assert("metodología"@.len() == 11);
            assert("metodología"@[0] == 'm');
            assert("taxonomía"@.len() == 9);
            assert("taxonomía"@[0] == 't');
            assert(pool_model(d).no_duplicates());
        },
    }

}

/// The tier's pool as a vector of owned strings.
#[verifier::loop_isolation(false)]
fn pool_words(d: Difficulty) -> (r: Vec<String>)
    ensures
        r@.map_values(|s: String| s@) =~= pool_model(d),
{
    let mut v: Vec<String> = Vec::new();
    match d {
        Difficulty::Easy => {
            v.push(String::from_str("casa"));
            v.push(String::from_str("perro"));
            v.push(String::from_str("sol"));
            v.push(String::from_str("mesa"));
            v.push(String::from_str("libro"));
            v.push(String::from_str("agua"));
            v.push(String::from_str("fuego"));
            v.push(String::from_str("árbol"));
            v.push(String::from_str("flor"));
            v.push(String::from_str("cielo"));
            v.push(String::from_str("mar"));
            v.push(String::from_str("montaña"));
            v.push(String::from_str("río"));
            v.push(String::from_str("piedra"));
            v.push(String::from_str("luz"));
            v.push(String::from_str("noche"));
        },
        Difficulty::Medium => {
            v.push(String::from_str("computadora"));
            v.push(String::from_str("teléfono"));
            v.push(String::from_str("automóvil"));
            v.push(String::from_str("biblioteca"));
            v.push(String::from_str("hospital"));
            v.push(String::from_str("universidad"));
            v.push(String::from_str("restaurante"));
            v.push(String::from_str("supermercado"));
            v.push(String::from_str("farmacia"));
            v.push(String::from_str("aeropuerto"));
            v.push(String::from_str("estación"));
            v.push(String::from_str("oficina"));
        },
        Difficulty::Hard => {
            v.push(String::from_str("epistemología"));
            v.push(String::from_str("neuroplasticidad"));
            v.push(String::from_str("fenomenología"));
            v.push(String::from_str("hermenéutica"));
            v.push(String::from_str("paradigma"));
            v.push(String::from_str("metamorfosis"));
            v.push(String::from_str("episódico"));
            v.push(String::from_str("cronológico"));
            v.push(String::from_str("metodología"));
            v.push(String::from_str("taxonomía"));
        },
    }
    v
}

/// Whether the view of some string in `hay` equals `needle`'s view.
fn contains_string(hay: &Vec<String>, needle: &String) -> (r: bool)
    ensures
        r == hay@.map_values(|s: String| s@).contains(needle@),
{
    let mut i: usize = 0;
    while i < hay.len()
        invariant
            i <= hay@.len(),
            forall|j: int| 0 <= j < i ==> (#[trigger] hay@[j])@ != needle@,
        decreases hay@.len() - i,
    {
        if hay[i].eq(needle) {
            proof {
                assert(hay@.map_values(|s: String| s@)[i as int] == needle@);
            }
            return true;
        }
        i = i + 1;
    }
    proof {
        assert(!hay@.map_values(|s: String| s@).contains(needle@));
    }
    false
}

/// Count the typed words that occur, case-insensitively, in the shown
/// list: the whitespace-separated words of `input` are lowercased and
/// each occurrence found in the lowercased list counts.
#[verifier::loop_isolation(false)]
pub fn count_matches(input: &String, originals: &Vec<String>) -> (r: usize)
    ensures
        r == wm_matched(input@, originals@.map_values(|s: String| s@)),
        r <= words_of(input@).len(),
{
    let ghost origs_model = originals@.map_values(|s: String| s@);
    let mut lowered_origs: Vec<String> = Vec::new();
    let mut i: usize = 0;
    while i < originals.len()
        invariant
            i <= originals@.len(),
            lowered_origs@.len() == i,
            forall|j: int| 0 <= j < i ==> #[trigger] lowered_origs@[j]@ == lower_of(origs_model[j]),
        decreases originals@.len() - i,
    {
        lowered_origs.push(lower_str(originals[i].as_str()));
        i = i + 1;
    }
    proof {
        assert(lowered_origs@.map_values(|s: String| s@) =~= lowered(origs_model));
    }
    let tokens = split_words(input.as_str());
    let ghost toks_model = lowered(words_of(input@));
    let mut matched: usize = 0;
    let mut k: usize = 0;
    while k < tokens.len()
        invariant
            k <= tokens@.len(),
            tokens@.len() == words_of(input@).len(),
            tokens@.map_values(|w: String| w@) == words_of(input@),
            lowered_origs@.map_values(|s: String| s@) == lowered(origs_model),
            matched == count_in(toks_model.subrange(0, k as int), lowered(origs_model)),
            matched <= k,
        decreases tokens@.len() - k,
    {
        let low = lower_str(tokens[k].as_str());
        proof {
            assert(tokens@.map_values(|w: String| w@)[k as int] == words_of(input@)[k as int]);
            assert(low@ == toks_model[k as int]);
            assert(toks_model.subrange(0, k + 1 as int).drop_last() =~= toks_model.subrange(
                0,
                k as int,
            ));
        }
        if contains_string(&lowered_origs, &low) {
            matched = matched + 1;
        }
        k = k + 1;
    }
    proof {
        assert(toks_model.subrange(0, tokens@.len() as int) =~= toks_model);
    }
    matched
}

} // verus!
