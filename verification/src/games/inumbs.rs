//! iNumbs: numeric memory with a fixed set of two-digit numbers, all shown
//! at once for the configured time and then, optionally, recalled into one
//! box per number.
use vstd::prelude::*;
use crate::games::{elapsed_ms, elapsed_since, period_expired, FrameInput};
use crate::result::{details_match, GameDetails, GameResult};
use crate::rng::generate_two_digit;
use crate::score::{cp_of, frac_to_cp};
use crate::textops::{eq_chars, str_to_chars, trim_of, trim_str};
use crate::types::{GameConfig, GameState, GameType};
use crate::digits::is_digit_char;

verus! {

/// Internal progression of an iNumbs session.
#[derive(Debug, Clone, Copy, PartialEq, Eq, Structural)]
pub enum INumbsPhase {
    Instructions,
    Showing,
    Filling,
}

/// A two-character decimal string, leading zero kept ("00" to "99").
pub open spec fn two_digit_string(s: Seq<char>) -> bool {
    s.len() == 2 && is_digit_char(s[0]) && is_digit_char(s[1])
}

/// Number of slots whose trimmed input equals the expected two-digit
/// string, over the first `n` slots.
pub open spec fn correct_upto(numbers: Seq<Seq<char>>, inputs: Seq<Seq<char>>, n: int) -> int
    decreases n,
{
    if n <= 0 {
        0
    } else {
        correct_upto(numbers, inputs, n - 1) + if trim_of(inputs[n - 1]) == numbers[n - 1] {
            1int
        } else {
            0int
        }
    }
}

/// Number of correctly recalled slots.
pub open spec fn inumbs_correct(numbers: Seq<Seq<char>>, inputs: Seq<Seq<char>>) -> int {
    correct_upto(numbers, inputs, numbers.len() as int)
}

pub proof fn lemma_correct_upto_bounds(numbers: Seq<Seq<char>>, inputs: Seq<Seq<char>>, n: int)
    ensures
        0 <= correct_upto(numbers, inputs, n),
        correct_upto(numbers, inputs, n) <= (if n >= 0 {
            n
        } else {
            0
        }),
    decreases n,
{
    if n > 0 {
        lemma_correct_upto_bounds(numbers, inputs, n - 1);
    }
}

/// The slot contents after one frame: each slot the host handed in
/// replaces the stored one, the rest stay.
pub open spec fn merged_slots(stored: Seq<String>, slots: Seq<String>) -> Seq<String> {
    Seq::new(stored.len(), |i: int| if i < slots.len() {
        slots[i]
    } else {
        stored[i]
    })
}

/// How one frame of interaction relates the state before the update to
/// the state after it.
pub open spec fn inumbs_step(pre: INumbsGame, post: INumbsGame, input: FrameInput, now: int) -> bool {
    if pre.aborted {
        post == pre
    } else {
        match pre.phase {
            INumbsPhase::Instructions => {
                if input.menu {
                    post == (INumbsGame { aborted: true, ..pre })
                } else if input.primary {
                    &&& post.numbers@.len() == pre.total_count
                    &&& (forall|i: int|
                        0 <= i < post.numbers@.len() ==> two_digit_string((
                        #[trigger] post.numbers@[i])@))
                    &&& post.user_inputs@.len() == pre.total_count
                    &&& (forall|i: int|
                        0 <= i < post.user_inputs@.len() ==> (
                        #[trigger] post.user_inputs@[i])@.len() == 0)
                    &&& post == (INumbsGame {
                        numbers: post.numbers,
                        user_inputs: post.user_inputs,
                        start_ms: (now as u64),
                        overall_start_ms: (now as u64),
                        phase: INumbsPhase::Showing,
                        ..pre
                    })
                } else {
                    post == pre
                }
            },
            INumbsPhase::Showing => {
                let aborted2 = input.menu;
                let phase2 = if input.menu {
                    INumbsPhase::Instructions
                } else {
                    INumbsPhase::Showing
                };
                if !period_expired(now, pre.start_ms as int, pre.display_ms as int) {
                    post == (INumbsGame { aborted: aborted2, phase: phase2, ..pre })
                } else if pre.config.fill_boxes {
                    post == (INumbsGame {
                        aborted: aborted2,
                        phase: INumbsPhase::Filling,
                        ..pre
                    })
                } else {
                    &&& post.correct_answers == inumbs_correct(
                        pre.numbers_model(),
                        pre.inputs_model(),
                    )
                    &&& post == (INumbsGame {
                        aborted: aborted2,
                        phase: phase2,
                        correct_answers: post.correct_answers,
                        finished: true,
                        time_taken_ms: (elapsed_ms(
                            now,
                            pre.overall_start_ms as int,
                        ) as u64),
                        finished_at_ms: (now as u64),
                        ..pre
                    })
                }
            },
            INumbsPhase::Filling => {
                let aborted2 = input.menu;
                let phase2 = if input.menu {
                    INumbsPhase::Instructions
                } else {
                    INumbsPhase::Filling
                };
                let captured = merged_slots(pre.user_inputs@, input.slots@);
                &&& post.user_inputs@ =~= captured
                &&& (if input.primary {
                    &&& post.correct_answers == inumbs_correct(
                        pre.numbers_model(),
                        captured.map_values(|s: String| s@),
                    )
                    &&& post == (INumbsGame {
                        aborted: aborted2,
                        phase: phase2,
                        user_inputs: post.user_inputs,
                        correct_answers: post.correct_answers,
                        finished: true,
                        time_taken_ms: (elapsed_ms(
                            now,
                            pre.overall_start_ms as int,
                        ) as u64),
                        finished_at_ms: (now as u64),
                        ..pre
                    })
                } else {
                    post == (INumbsGame {
                        aborted: aborted2,
                        phase: phase2,
                        user_inputs: post.user_inputs,
                        ..pre
                    })
                })
            },
        }
    }
}

/// The result a finished iNumbs session yields.
pub open spec fn inumbs_result(g: INumbsGame, res: GameResult) -> bool {
    &&& res.game_type == GameType::INumbs
    &&& details_match(res.game_type, res.details)
    &&& res.score_cp == cp_of(g.correct_answers as int, g.total_count as int)
    &&& res.score_cp <= 10_000
    &&& res.details == (GameDetails::INumbs {
        correct: g.correct_answers,
        total: g.total_count,
        time_taken_ms: g.time_taken_ms,
    })
    &&& res.timestamp_ms == g.finished_at_ms
}

pub struct INumbsGame {
    pub config: GameConfig,
    pub phase: INumbsPhase,
    pub start_ms: u64,
    pub numbers: Vec<Vec<char>>,
    pub display_ms: u64,
    pub total_count: usize,
    pub user_inputs: Vec<String>,
    pub finished: bool,
    pub aborted: bool,
    pub correct_answers: usize,
    pub overall_start_ms: u64,
    pub time_taken_ms: u64,
    pub finished_at_ms: u64,
}

impl INumbsGame {
    pub open spec fn wf(self) -> bool {
        &&& self.total_count >= 1
        &&& self.user_inputs@.len() == self.numbers@.len()
        &&& (self.numbers@.len() == 0 || self.numbers@.len() == self.total_count)
        &&& (forall|i: int|
            0 <= i < self.numbers@.len() ==> (#[trigger] self.numbers@[i])@.len() == 2)
        &&& (self.phase is Showing ==> self.numbers@.len() == self.total_count)
        &&& (self.phase is Filling ==> self.numbers@.len() == self.total_count)
        &&& (self.finished ==> self.numbers@.len() == self.total_count)
        &&& self.correct_answers <= self.total_count
    }

    pub open spec fn spec_state(self) -> GameState {
        if self.finished {
            GameState::Finished
        } else if self.aborted {
            GameState::Aborted
        } else {
            GameState::Playing
        }
    }

    /// Sequence of stored slot contents, as character sequences.
    pub open spec fn inputs_model(self) -> Seq<Seq<char>> {
        self.user_inputs@.map_values(|s: String| s@)
    }

    /// Sequence of expected two-digit strings, as character sequences.
    pub open spec fn numbers_model(self) -> Seq<Seq<char>> {
        self.numbers@.map_values(|v: Vec<char>| v@)
    }

    pub fn new(config: GameConfig) -> (r: INumbsGame)
        ensures
            r.wf(),
            r.phase is Instructions,
            !r.finished,
            !r.aborted,
            r.config == config,
            r.total_count == (if config.word_count >= 1 {
                config.word_count as int
            } else {
                1
            }),
            r.display_ms == config.duration_ms,
            r.numbers@.len() == 0,
            r.user_inputs@.len() == 0,
            r.correct_answers == 0,
    {
        let total_count = if config.word_count >= 1 {
            config.word_count
        } else {
            1
        };
        INumbsGame {
            config,
            phase: INumbsPhase::Instructions,
            start_ms: 0,
            numbers: Vec::new(),
            display_ms: config.duration_ms,
            total_count,
            user_inputs: Vec::new(),
            finished: false,
            aborted: false,
            correct_answers: 0,
            overall_start_ms: 0,
            time_taken_ms: 0,
            finished_at_ms: 0,
        }
    }

    /// Recount the correctly recalled slots from the stored inputs.
    pub fn calculate_result(&mut self)
        requires
            old(self).wf(),
        ensures
            final(self).wf(),
            final(self).correct_answers == inumbs_correct(
                old(self).numbers_model(),
                old(self).inputs_model(),
            ),
            *final(self) == (INumbsGame {
                correct_answers: final(self).correct_answers,
                ..*old(self)
            }),
    {
        let ghost nums = self.numbers_model();
        let ghost ins = self.inputs_model();
        let mut correct: usize = 0;
        let mut i: usize = 0;
        while i < self.numbers.len()
            invariant
                self == old(self),
                i <= self.numbers@.len(),
                self.wf(),
                nums == self.numbers_model(),
                ins == self.inputs_model(),
                correct == correct_upto(nums, ins, i as int),
                correct <= i,
            decreases self.numbers@.len() - i,
        {
            let trimmed = trim_str(self.user_inputs[i].as_str());
            let tchars = str_to_chars(trimmed.as_str());
            if eq_chars(&tchars, &self.numbers[i]) {
                correct = correct + 1;
            }
            i = i + 1;
        }
        proof {
            lemma_correct_upto_bounds(nums, ins, self.numbers@.len() as int);
        }
        self.correct_answers = correct;
    }

    /// Advance the session by one frame.
    ///
    /// On the landing phase the primary action deals the numbers and starts
    /// the display timer. While showing, expiry of the configured duration
    /// either opens the fill-in boxes or, when `fill_boxes` is off, scores
    /// the (necessarily blank) inputs at once. While filling, the handed-in
    /// slot contents are captured and the primary action scores them. The
    /// menu affordance marks the session aborted in any phase it is shown.
    ///
    /// Note that with `fill_boxes` off the user never gets to answer: the
    /// session finishes scored against untouched blank slots, which a
    /// two-digit string never equals, so the score is always zero. This
    /// surprising rule is deliberate and covered by a test.
    #[verifier::loop_isolation(false)]
    pub fn update(&mut self, input: &FrameInput, now_ms: u64)
        requires
            old(self).wf(),
        ensures
            final(self).wf(),
            inumbs_step(*old(self), *final(self), *input, now_ms as int),
    {
        if self.aborted {
            return ;
        }
        match self.phase {
            INumbsPhase::Instructions => {
                if input.menu {
                    self.aborted = true;
                } else if input.primary {
                    let mut numbers: Vec<Vec<char>> = Vec::new();
                    let mut inputs: Vec<String> = Vec::new();
                    let mut i: usize = 0;
                    while i < self.total_count
                        invariant
                            i <= self.total_count,
                            numbers@.len() == i,
                            inputs@.len() == i,
                            forall|j: int|
                                0 <= j < numbers@.len() ==> two_digit_string(
                                    (#[trigger] numbers@[j])@,
                                ),
                            forall|j: int|
                                0 <= j < inputs@.len() ==> (#[trigger] inputs@[j])@.len() == 0,
                        decreases self.total_count - i,
                    {
                        numbers.push(generate_two_digit());
                        inputs.push(String::new());
                        i = i + 1;
                    }
                    self.numbers = numbers;
                    self.user_inputs = inputs;
                    self.start_ms = now_ms;
                    self.overall_start_ms = now_ms;
                    self.phase = INumbsPhase::Showing;
                }
            },
            INumbsPhase::Showing => {
                if input.menu {
                    self.aborted = true;
                    self.phase = INumbsPhase::Instructions;
                }
                if elapsed_since(now_ms, self.start_ms) >= self.display_ms {
                    if self.config.fill_boxes {
                        self.phase = INumbsPhase::Filling;
                    } else {
                        self.calculate_result();
                        self.finished = true;
                        self.time_taken_ms = elapsed_since(now_ms, self.overall_start_ms);
                        self.finished_at_ms = now_ms;
                    }
                }
            },
            INumbsPhase::Filling => {
                let ghost pre_inputs = self.user_inputs@;
                let mut i: usize = 0;
                while i < self.user_inputs.len()
                    invariant
                        i <= self.user_inputs@.len(),
                        self.user_inputs@.len() == pre_inputs.len(),
                        *self == (INumbsGame { user_inputs: self.user_inputs, ..*old(self) }),
                        forall|j: int|
                            0 <= j < pre_inputs.len() ==> #[trigger] self.user_inputs@[j] == (
                            if j < i && j < input.slots@.len() {
                                input.slots@[j]
                            } else {
                                pre_inputs[j]
                            }),
                    decreases self.user_inputs@.len() - i,
                {
                    if i < input.slots.len() {
                        let s = input.slots[i].clone();
                        self.user_inputs.set(i, s);
                    }
                    i = i + 1;
                }
                proof {
                    assert(self.user_inputs@ =~= merged_slots(pre_inputs, input.slots@));
                }
                if input.menu {
                    self.aborted = true;
                    self.phase = INumbsPhase::Instructions;
                }
                if input.primary {
                    self.calculate_result();
                    self.finished = true;
                    self.time_taken_ms = elapsed_since(now_ms, self.overall_start_ms);
                    self.finished_at_ms = now_ms;
                }
            },
        }
    }

    pub fn get_state(&self) -> (r: GameState)
        ensures
            r == self.spec_state(),
    {
        if self.finished {
            GameState::Finished
        } else if self.aborted {
            GameState::Aborted
        } else {
            GameState::Playing
        }
    }

    /// The result of the attempt: present exactly once the run state is
    /// Finished, and then always the same value for the same state.
    pub fn get_result(&self) -> (r: Option<GameResult>)
        requires
            self.wf(),
        ensures
            r is Some <==> self.spec_state() is Finished,
            r is Some ==> inumbs_result(*self, r->0),
    {
        if !self.finished {
            return None;
        }
        let score_cp = frac_to_cp(self.correct_answers, self.total_count);
        Some(
            GameResult {
                game_type: GameType::INumbs,
                score_cp,
                details: GameDetails::INumbs {
                    correct: self.correct_answers,
                    total: self.total_count,
                    time_taken_ms: self.time_taken_ms,
                },
                timestamp_ms: self.finished_at_ms,
            },
        )
    }

    /// True only while the timed display phase is running.
    pub fn needs_repaint(&self) -> (r: bool)
        ensures
            r == (self.phase is Showing && !self.finished && !self.aborted),
    {
        match self.phase {
            INumbsPhase::Showing => !self.finished && !self.aborted,
            _ => false,
        }
    }
}

} // verus!
