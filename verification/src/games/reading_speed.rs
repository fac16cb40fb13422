//! Digit span: a number is shown for the configured time and typed back
//! from memory, over a fixed count of rounds. Each round is scored as the
//! exact fraction of positionally matching characters; the overall score
//! is the mean of the rounds' scores.
use vstd::prelude::*;
use crate::games::{elapsed_ms, elapsed_since, period_expired, FrameInput};
use crate::result::{details_match, GameDetails, GameResult};
use crate::rng::{generate_digits, rand_below};
use crate::score::{accuracy_den, accuracy_num, cp_of, frac_to_cp, lemma_cp_of_bounds, round_accuracy};
use crate::textops::{str_to_chars, trim_of, trim_str};
use crate::types::{Difficulty, GameConfig, GameState, GameType};
use crate::digits::is_digit_char;

verus! {

/// Internal progression of a digit-span session.
#[derive(Debug, Clone, Copy, PartialEq, Eq, Structural)]
pub enum NumberPhase {
    Instructions,
    ShowingNumber,
    Writing,
}

/// One completed round: the shown number, the typed answer, and the exact
/// accuracy fraction `hits / outof`.
pub struct RoundOutcome {
    pub number: Vec<char>,
    pub user_answer: String,
    pub correct: bool,
    pub hits: usize,
    pub outof: usize,
}

/// Digit-count range documented for each difficulty tier.
pub open spec fn digit_range(d: Difficulty) -> (int, int) {
    match d {
        Difficulty::Easy => (1, 6),
        Difficulty::Medium => (7, 10),
        Difficulty::Hard => (11, 20),
    }
}

/// Digit count of a training-mode round: Easy grows every round, Medium
/// every two rounds, Hard every three rounds starting at round ten.
pub open spec fn training_digit_count(d: Difficulty, base: int, round: int) -> int {
    match d {
        Difficulty::Easy => base + (round - 1),
        Difficulty::Medium => base + (round - 1) / 2,
        Difficulty::Hard => if round >= 10 {
            base + (round - 10) / 3
        } else {
            base
        },
    }
}

/// Sum of the rounds' scores, in centipercent.
pub open spec fn cp_sum(rs: Seq<RoundOutcome>) -> int
    decreases rs.len(),
{
    if rs.len() == 0 {
        0
    } else {
        cp_sum(rs.drop_last()) + cp_of(rs.last().hits as int, rs.last().outof as int)
    }
}

/// Mean of the rounds' scores, in centipercent; zero with no rounds.
pub open spec fn overall_cp(rs: Seq<RoundOutcome>) -> int {
    if rs.len() == 0 {
        0
    } else {
        cp_sum(rs) / rs.len() as int
    }
}

/// A stored round outcome carries a well-formed fraction.
pub open spec fn outcome_wf(o: RoundOutcome) -> bool {
    o.outof >= 1 && o.hits <= o.outof
}

/// Number of recorded rounds whose answer matched the number exactly.
pub open spec fn correct_count(rs: Seq<RoundOutcome>) -> int
    decreases rs.len(),
{
    if rs.len() == 0 {
        0
    } else {
        correct_count(rs.drop_last()) + if rs.last().correct {
            1int
        } else {
            0int
        }
    }
}

pub proof fn lemma_cp_sum_bounds(rs: Seq<RoundOutcome>)
    requires
        forall|i: int| 0 <= i < rs.len() ==> outcome_wf(#[trigger] rs[i]),
    ensures
        0 <= cp_sum(rs) <= 10_000 * rs.len(),
    decreases rs.len(),
{
    if rs.len() > 0 {
        assert(forall|i: int|
            0 <= i < rs.drop_last().len() ==> outcome_wf(#[trigger] rs.drop_last()[i]));
        lemma_cp_sum_bounds(rs.drop_last());
        lemma_cp_of_bounds(rs.last().hits as int, rs.last().outof as int);
    }
}

/// The mean of scores that are each at most 10_000 is at most 10_000.
pub proof fn lemma_overall_cp_bounds(rs: Seq<RoundOutcome>)
    requires
        forall|i: int| 0 <= i < rs.len() ==> outcome_wf(#[trigger] rs[i]),
    ensures
        0 <= overall_cp(rs) <= 10_000,
{
    if rs.len() > 0 {
        lemma_cp_sum_bounds(rs);
        let n = rs.len() as int;
        vstd::arithmetic::div_mod::lemma_div_is_ordered(cp_sum(rs), 10_000 * n, n);
        assert(10_000 * n / n == 10_000) by {
            vstd::arithmetic::div_mod::lemma_div_multiples_vanish(10_000, n);
        }
        vstd::arithmetic::div_mod::lemma_div_pos_is_pos(cp_sum(rs), n);
    }
}

/// How one frame of interaction relates the state before the update to
/// the state after it.
pub open spec fn reading_speed_step(pre: ReadingSpeedGame, post: ReadingSpeedGame, input: FrameInput, now: int) -> bool {
    if pre.aborted {
        post == pre
    } else {
        match pre.phase {
            NumberPhase::Instructions => {
                if input.menu {
                    post == (ReadingSpeedGame { aborted: true, ..pre })
                } else if input.primary {
                    &&& digit_range(pre.config.difficulty).0 <= post.digit_count
                        <= digit_range(pre.config.difficulty).1
                    &&& post.base_digit_count == post.digit_count
                    &&& generated_number(post.number@, post.digit_count as int)
                    &&& post == (ReadingSpeedGame {
                        digit_count: post.digit_count,
                        base_digit_count: post.base_digit_count,
                        display_ms: pre.config.duration_ms,
                        number: post.number,
                        phase: NumberPhase::ShowingNumber,
                        start_ms: (now as u64),
                        ..pre
                    })
                } else {
                    post == pre
                }
            },
            NumberPhase::ShowingNumber => {
                let aborted2 = input.menu;
                let phase2 = if input.menu {
                    NumberPhase::Instructions
                } else {
                    NumberPhase::ShowingNumber
                };
                if period_expired(now, pre.start_ms as int, pre.display_ms as int) {
                    post == (ReadingSpeedGame {
                        aborted: aborted2,
                        phase: NumberPhase::Writing,
                        start_ms: (now as u64),
                        ..pre
                    })
                } else {
                    post == (ReadingSpeedGame { aborted: aborted2, phase: phase2, ..pre })
                }
            },
            NumberPhase::Writing => {
                let aborted2 = input.menu;
                let phase2 = if input.menu {
                    NumberPhase::Instructions
                } else {
                    NumberPhase::Writing
                };
                let captured = (ReadingSpeedGame {
                    aborted: aborted2,
                    phase: phase2,
                    user_input: post.user_input,
                    ..pre
                });
                if input.primary {
                    next_round_rel(captured, post, input.text@, now)
                } else {
                    &&& post.user_input@ == input.text@
                    &&& post == (ReadingSpeedGame {
                        user_input: post.user_input,
                        aborted: aborted2,
                        phase: phase2,
                        ..pre
                    })
                }
            },
        }
    }
}

/// The result a finished digit-span session yields.
pub open spec fn reading_speed_result(g: ReadingSpeedGame, res: GameResult) -> bool {
    &&& res.game_type == GameType::ReadingSpeed
    &&& details_match(res.game_type, res.details)
    &&& res.score_cp == overall_cp(g.round_results@)
    &&& res.score_cp <= 10_000
    &&& res.details == (GameDetails::ReadingSpeed {
        words_correct: g.correct_answers,
        total_words: g.total_rounds,
        time_taken_ms: g.time_taken_ms,
    })
    &&& res.timestamp_ms == g.finished_at_ms
}

pub struct ReadingSpeedGame {
    pub config: GameConfig,
    pub phase: NumberPhase,
    pub training_mode: bool,
    pub start_ms: u64,
    pub number: Vec<char>,
    pub user_input: String,
    pub display_ms: u64,
    pub digit_count: usize,
    pub current_round: usize,
    pub total_rounds: usize,
    pub correct_answers: usize,
    pub round_results: Vec<RoundOutcome>,
    pub finished: bool,
    pub aborted: bool,
    pub base_digit_count: usize,
    pub time_taken_ms: u64,
    pub finished_at_ms: u64,
}

impl ReadingSpeedGame {
    pub open spec fn wf(self) -> bool {
        &&& 1 <= self.digit_count
        &&& 1 <= self.base_digit_count <= 20
        &&& 1 <= self.current_round <= self.total_rounds <= 30
        &&& self.round_results@.len() <= self.total_rounds
        &&& self.correct_answers == correct_count(self.round_results@)
        &&& self.correct_answers <= self.round_results@.len()
        &&& (forall|i: int|
            0 <= i < self.round_results@.len() ==> outcome_wf(#[trigger] self.round_results@[i]))
        &&& (!self.finished ==> self.round_results@.len() == self.current_round - 1)
        &&& (self.finished ==> self.round_results@.len() == self.total_rounds
            && self.current_round == self.total_rounds)
    }

    pub open spec fn spec_state(self) -> GameState {
        if self.finished {
            GameState::Finished
        } else if self.aborted {
            GameState::Aborted
        } else {
            GameState::Playing
        }
    }

    pub fn new(config: GameConfig) -> (r: ReadingSpeedGame)
        ensures
            r.wf(),
            r.phase is Instructions,
            !r.finished,
            !r.aborted,
            r.config == config,
            r.training_mode == false,
            r.current_round == 1,
            r.total_rounds == 10,
            r.correct_answers == 0,
            r.round_results@.len() == 0,
            r.display_ms == config.duration_ms,
            digit_range(config.difficulty).0 <= r.digit_count <= digit_range(config.difficulty).1,
            r.base_digit_count == r.digit_count,
            generated_number(r.number@, r.digit_count as int),
    {
        let digit_count = Self::roll_digit_count(config.difficulty);
        let number = generate_digits(digit_count);
        ReadingSpeedGame {
            config,
            phase: NumberPhase::Instructions,
            training_mode: false,
            start_ms: 0,
            number,
            user_input: String::new(),
            display_ms: config.duration_ms,
            digit_count,
            current_round: 1,
            total_rounds: 10,
            correct_answers: 0,
            round_results: Vec::new(),
            finished: false,
            aborted: false,
            base_digit_count: digit_count,
            time_taken_ms: 0,
            finished_at_ms: 0,
        }
    }

    /// Choose a difficulty on the landing phase: the base digit count and
    /// the first number are re-rolled from the new tier's range.
    pub fn set_difficulty(&mut self, d: Difficulty)
        requires
            old(self).wf(),
            !old(self).finished,
            old(self).phase is Instructions,
        ensures
            final(self).wf(),
            final(self).config == (GameConfig { difficulty: d, ..old(self).config }),
            digit_range(d).0 <= final(self).digit_count <= digit_range(d).1,
            final(self).base_digit_count == final(self).digit_count,
            generated_number(final(self).number@, final(self).digit_count as int),
            *final(self) == (ReadingSpeedGame {
                config: final(self).config,
                digit_count: final(self).digit_count,
                base_digit_count: final(self).base_digit_count,
                number: final(self).number,
                ..*old(self)
            }),
    {
        self.config.difficulty = d;
        let digit_count = Self::roll_digit_count(d);
        self.base_digit_count = digit_count;
        self.digit_count = digit_count;
        self.number = generate_digits(digit_count);
    }

    /// Choose the round count on the landing phase: ten, twenty or thirty.
    pub fn set_total_rounds(&mut self, n: usize)
        requires
            old(self).wf(),
            !old(self).finished,
            old(self).phase is Instructions,
            n == 10 || n == 20 || n == 30,
            old(self).current_round <= n,
        ensures
            final(self).wf(),
            *final(self) == (ReadingSpeedGame { total_rounds: n, ..*old(self) }),
    {
        self.total_rounds = n;
    }

    /// A digit count drawn uniformly from the tier's documented range.
    pub fn roll_digit_count(d: Difficulty) -> (r: usize)
        ensures
            digit_range(d).0 <= r <= digit_range(d).1,
    {
        match d {
            Difficulty::Easy => 1 + rand_below(6) as usize,
            Difficulty::Medium => 7 + rand_below(4) as usize,
            Difficulty::Hard => 11 + rand_below(10) as usize,
        }
    }

    /// Digit count for a given round: drawn from the tier's range in normal
    /// mode, or the exact training progression in training mode.
    pub fn calculate_digit_count_for_round(&self, round: usize) -> (r: usize)
        requires
            self.wf(),
            1 <= round <= 30,
        ensures
            self.training_mode ==> r == training_digit_count(
                self.config.difficulty,
                self.base_digit_count as int,
                round as int,
            ),
            !self.training_mode ==> digit_range(self.config.difficulty).0 <= r <= digit_range(
                self.config.difficulty,
            ).1,
            r >= 1,
    {
        if !self.training_mode {
            Self::roll_digit_count(self.config.difficulty)
        } else {
            let base = self.base_digit_count;
            match self.config.difficulty {
                Difficulty::Easy => base + (round - 1),
                Difficulty::Medium => base + (round - 1) / 2,
                Difficulty::Hard => {
                    if round >= 10 {
                        base + (round - 10) / 3
                    } else {
                        base
                    }
                },
            }
        }
    }

    /// The accuracy fraction of the current round: the typed answer is
    /// trimmed and compared position by position against the shown number
    /// (which never holds whitespace, so it needs no trimming).
    pub fn calculate_round_accuracy(&self) -> (r: (usize, usize))
        ensures
            r.0 == accuracy_num(self.number@, trim_of(self.user_input@)),
            r.1 == accuracy_den(self.number@, trim_of(self.user_input@)),
            r.0 <= r.1,
            r.1 >= 1,
    {
        let trimmed = trim_str(self.user_input.as_str());
        let user = str_to_chars(trimmed.as_str());
        round_accuracy(&self.number, &user)
    }

    /// Mean of the completed rounds' scores, in centipercent.
    #[verifier::loop_isolation(false)]
    pub fn calculate_overall_accuracy(&self) -> (r: u64)
        requires
            self.wf(),
        ensures
            r == overall_cp(self.round_results@),
            r <= 10_000,
    {
        let n = self.round_results.len();
        if n == 0 {
            return 0;
        }
        let mut sum: u64 = 0;
        let mut i: usize = 0;
        while i < n
            invariant
                i <= n,
                n == self.round_results@.len(),
                sum == cp_sum(self.round_results@.subrange(0, i as int)),
                sum <= 10_000 * i,
            decreases n - i,
        {
            let o = &self.round_results[i];
            proof {
                assert(outcome_wf(self.round_results@[i as int]));
            }
            let c = frac_to_cp(o.hits, o.outof);
            proof {
                assert(self.round_results@.subrange(0, i + 1 as int).drop_last()
                    =~= self.round_results@.subrange(0, i as int));
            }
            sum = sum + c;
            i = i + 1;
        }
        proof {
            assert(self.round_results@.subrange(0, n as int) =~= self.round_results@);
            lemma_cp_sum_bounds(self.round_results@);
            lemma_overall_cp_bounds(self.round_results@);
        }
        sum / (n as u64)
    }

    /// Close the current round: record its outcome and either advance to
    /// the next round with a fresh number or finish the session.
    pub fn next_round(&mut self, now_ms: u64)
        requires
            old(self).wf(),
            !old(self).finished,
        ensures
            final(self).wf(),
            next_round_rel(*old(self), *final(self), old(self).user_input@, now_ms as int),
    {
        let (hits, outof) = self.calculate_round_accuracy();
        let trimmed = trim_str(self.user_input.as_str());
        let user_chars = str_to_chars(trimmed.as_str());
        let is_correct = crate::textops::eq_chars(&self.number, &user_chars);
        if is_correct {
            self.correct_answers = self.correct_answers + 1;
        }
        let number_copy = clone_chars(&self.number);
        let answer_copy = self.user_input.clone();
        let outcome = RoundOutcome {
            number: number_copy,
            user_answer: answer_copy,
            correct: is_correct,
            hits,
            outof,
        };
        self.round_results.push(outcome);
        proof {
            assert(self.round_results@.drop_last() =~= old(self).round_results@);
            assert(self.round_results@.last().correct == is_correct);
        }
        self.user_input = String::new();
        if self.current_round >= self.total_rounds {
            self.finished = true;
            self.time_taken_ms = elapsed_since(now_ms, self.start_ms);
            self.finished_at_ms = now_ms;
        } else {
            self.current_round = self.current_round + 1;
            let next_digits = self.calculate_digit_count_for_round(self.current_round);
            self.digit_count = next_digits;
            self.number = generate_digits(next_digits);
            self.phase = NumberPhase::ShowingNumber;
            self.start_ms = now_ms;
        }
    }

    /// Advance the session by one frame.
    #[verifier::loop_isolation(false)]
    pub fn update(&mut self, input: &FrameInput, now_ms: u64)
        requires
            old(self).wf(),
            !old(self).finished,
        ensures
            final(self).wf(),
            reading_speed_step(*old(self), *final(self), *input, now_ms as int),
    {
        if self.aborted {
            return ;
        }
        match self.phase {
            NumberPhase::Instructions => {
                if input.menu {
                    self.aborted = true;
                } else if input.primary {
                    let digit_count = Self::roll_digit_count(self.config.difficulty);
                    self.base_digit_count = digit_count;
                    self.digit_count = digit_count;
                    self.display_ms = self.config.duration_ms;
                    self.number = generate_digits(digit_count);
                    self.phase = NumberPhase::ShowingNumber;
                    self.start_ms = now_ms;
                }
            },
            NumberPhase::ShowingNumber => {
                if input.menu {
                    self.aborted = true;
                    self.phase = NumberPhase::Instructions;
                }
                if elapsed_since(now_ms, self.start_ms) >= self.display_ms {
                    self.phase = NumberPhase::Writing;
                    self.start_ms = now_ms;
                }
            },
            NumberPhase::Writing => {
                if input.menu {
                    self.aborted = true;
                    self.phase = NumberPhase::Instructions;
                }
                self.user_input = input.text.clone();
                if input.primary {
                    self.next_round(now_ms);
                }
            },
        }
    }

    pub fn get_state(&self) -> (r: GameState)
        ensures
            r == self.spec_state(),
    {
        if self.finished {
            GameState::Finished
        } else if self.aborted {
            GameState::Aborted
        } else {
            GameState::Playing
        }
    }

    /// The result of the attempt: present exactly once the run state is
    /// Finished, and then always the same value for the same state. The
    /// score is the mean of the rounds' exact accuracies.
    pub fn get_result(&self) -> (r: Option<GameResult>)
        requires
            self.wf(),
        ensures
            r is Some <==> self.spec_state() is Finished,
            r is Some ==> reading_speed_result(*self, r->0),
    {
        if !self.finished {
            return None;
        }
        let score_cp = self.calculate_overall_accuracy();
        Some(
            GameResult {
                game_type: GameType::ReadingSpeed,
                score_cp,
                details: GameDetails::ReadingSpeed {
                    words_correct: self.correct_answers,
                    total_words: self.total_rounds,
                    time_taken_ms: self.time_taken_ms,
                },
                timestamp_ms: self.finished_at_ms,
            },
        )
    }

    /// True only while the timed display phase is running.
    pub fn needs_repaint(&self) -> (r: bool)
        ensures
            r == (self.phase is ShowingNumber && !self.finished && !self.aborted),
    {
        match self.phase {
            NumberPhase::ShowingNumber => !self.finished && !self.aborted,
            _ => false,
        }
    }
}

/// Shape of a freshly generated digit string.
pub open spec fn generated_number(s: Seq<char>, count: int) -> bool {
    &&& s.len() == count
    &&& (forall|i: int| 0 <= i < s.len() ==> is_digit_char(#[trigger] s[i]))
    &&& (count > 1 ==> s[0] != '0')
}

/// How closing one round relates the state before (with the typed text
/// already captured) to the state after.
pub open spec fn next_round_rel(
    pre: ReadingSpeedGame,
    post: ReadingSpeedGame,
    typed: Seq<char>,
    now: int,
) -> bool {
    let hits = accuracy_num(pre.number@, trim_of(typed));
    let outof = accuracy_den(pre.number@, trim_of(typed));
    let correct = pre.number@ == trim_of(typed);
    let o = post.round_results@.last();
    &&& post.round_results@.len() == pre.round_results@.len() + 1
    &&& post.round_results@ == pre.round_results@.push(o)
    &&& o.number@ == pre.number@
    &&& o.user_answer@ == typed
    &&& o.correct == correct
    &&& o.hits == hits
    &&& o.outof == outof
    &&& post.correct_answers == pre.correct_answers + (if correct {
        1int
    } else {
        0int
    })
    &&& post.user_input@ =~= Seq::<char>::empty()
    &&& (if pre.current_round >= pre.total_rounds {
        post == (ReadingSpeedGame {
            round_results: post.round_results,
            user_input: post.user_input,
            correct_answers: post.correct_answers,
            finished: true,
            time_taken_ms: (elapsed_ms(now, pre.start_ms as int) as u64),
            finished_at_ms: (now as u64),
            ..pre
        })
    } else {
        &&& post.current_round == pre.current_round + 1
        &&& (pre.training_mode ==> post.digit_count == training_digit_count(
            pre.config.difficulty,
            pre.base_digit_count as int,
            post.current_round as int,
        ))
        &&& (!pre.training_mode ==> digit_range(pre.config.difficulty).0 <= post.digit_count
            <= digit_range(pre.config.difficulty).1)
        &&& generated_number(post.number@, post.digit_count as int)
        &&& post == (ReadingSpeedGame {
            round_results: post.round_results,
            user_input: post.user_input,
            correct_answers: post.correct_answers,
            current_round: post.current_round,
            digit_count: post.digit_count,
            number: post.number,
            phase: NumberPhase::ShowingNumber,
            start_ms: (now as u64),
            ..pre
        })
    })
}

/// A copy of a character vector, character for character.
pub fn clone_chars(v: &Vec<char>) -> (r: Vec<char>)
    ensures
        r@ == v@,
{
    let mut out: Vec<char> = Vec::new();
    let mut i: usize = 0;
    while i < v.len()
        invariant
            i <= v@.len(),
            out@ =~= v@.subrange(0, i as int),
        decreases v@.len() - i,
    {
        out.push(v[i]);
        i = i + 1;
    }
    proof {
        assert(out@ =~= v@);
    }
    out
}

} // verus!
