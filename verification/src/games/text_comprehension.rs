//! Text comprehension: a canned paragraph is read at the user's own pace,
//! then answered through sequential multiple-choice questions with free
//! back-and-forward navigation; answers persist per question index.
use vstd::prelude::*;
use crate::games::FrameInput;
use crate::result::{details_match, GameDetails, GameResult};
use crate::score::{cp_of, frac_to_cp};
use crate::types::{Difficulty, GameConfig, GameState, GameType};

verus! {

/// Internal progression of a comprehension session.
#[derive(Debug, Clone, Copy, PartialEq, Eq, Structural)]
pub enum ComprehensionPhase {
    Instructions,
    Reading,
    Questions,
}

/// One multiple-choice question with exactly one correct option index.
pub struct Question {
    pub question: String,
    pub options: Vec<String>,
    pub correct_answer: usize,
}

/// Number of correctly answered questions among the first `n`.
pub open spec fn correct_upto(qs: Seq<Question>, ans: Seq<Option<usize>>, n: int) -> int
    decreases n,
{
    if n <= 0 {
        0
    } else {
        correct_upto(qs, ans, n - 1) + if ans[n - 1] == Some(qs[n - 1].correct_answer) {
            1int
        } else {
            0int
        }
    }
}

/// Number of correctly answered questions.
pub open spec fn comprehension_correct(qs: Seq<Question>, ans: Seq<Option<usize>>) -> int {
    correct_upto(qs, ans, qs.len() as int)
}

pub proof fn lemma_correct_upto_bounds(qs: Seq<Question>, ans: Seq<Option<usize>>, n: int)
    ensures
        0 <= correct_upto(qs, ans, n),
        correct_upto(qs, ans, n) <= (if n >= 0 {
            n
        } else {
            0
        }),
    decreases n,
{
    if n > 0 {
        lemma_correct_upto_bounds(qs, ans, n - 1);
    }
}

/// The score is a function of the final per-index answers alone: any two
/// ways of visiting the questions (back and forward, in any order) that
/// leave the same answer at every index score the same.
pub proof fn lemma_score_visit_order_invariant(
    qs: Seq<Question>,
    a1: Seq<Option<usize>>,
    a2: Seq<Option<usize>>,
)
    requires
        forall|i: int| 0 <= i < qs.len() ==> a1[i] == a2[i],
    ensures
        comprehension_correct(qs, a1) == comprehension_correct(qs, a2),
{
    lemma_correct_upto_same(qs, a1, a2, qs.len() as int);
}

proof fn lemma_correct_upto_same(
    qs: Seq<Question>,
    a1: Seq<Option<usize>>,
    a2: Seq<Option<usize>>,
    n: int,
)
    requires
        forall|i: int| 0 <= i < n ==> a1[i] == a2[i],
    ensures
        correct_upto(qs, a1, n) == correct_upto(qs, a2, n),
    decreases n,
{
    if n > 0 {
        lemma_correct_upto_same(qs, a1, a2, n - 1);
    }
}

/// One question's exact content.
pub open spec fn question_is(
    q: Question,
    text: Seq<char>,
    o0: Seq<char>,
    o1: Seq<char>,
    o2: Seq<char>,
    correct: int,
) -> bool {
    &&& q.question@ == text
    &&& q.options@.len() == 3
    &&& q.options@[0]@ == o0
    &&& q.options@[1]@ == o1
    &&& q.options@[2]@ == o2
    &&& q.correct_answer == correct
}

/// The canned paragraph of each difficulty tier.
pub open spec fn canned_text(d: Difficulty) -> Seq<char> {
    match d {
        Difficulty::Easy => "El sol es una estrella muy importante para la vida en la Tierra. Nos da luz y calor todos los días. Sin el sol, no podríamos vivir. Las plantas necesitan la luz del sol para crecer y producir oxígeno que respiramos."@,
        Difficulty::Medium => "La inteligencia artificial es una tecnología que permite a las máquinas realizar tareas que normalmente requieren inteligencia humana. Incluye el aprendizaje automático, donde los sistemas pueden mejorar su rendimiento a través de la experiencia sin ser programados explícitamente."@,
        Difficulty::Hard => "La neuroplasticidad se refiere a la capacidad del sistema nervioso para cambiar su estructura y función en respuesta a la experiencia. Este fenómeno permite la adaptación, el aprendizaje y la recuperación tras lesiones cerebrales, desafiando la antigua creencia de que el cerebro adulto era inmutable."@,
    }
}

/// The canned questions of each difficulty tier, exactly.
pub open spec fn canned_questions(d: Difficulty, qs: Seq<Question>) -> bool {
    qs.len() == 2 && match d {
        Difficulty::Easy => {
            &&& question_is(qs[0], "¿Qué es el sol?"@, "Un planeta"@, "Una estrella"@, "Una luna"@, 1)
            &&& question_is(
                qs[1],
                "¿Qué necesitan las plantas del sol?"@,
                "Agua"@,
                "Luz"@,
                "Tierra"@,
                1,
            )
        },
        Difficulty::Medium => {
            &&& question_is(
                qs[0],
                "¿Qué permite la inteligencia artificial?"@,
                "Solo calcular números"@,
                "Realizar tareas que requieren inteligencia humana"@,
                "Reemplazar completamente a los humanos"@,
                1,
            )
            &&& question_is(
                qs[1],
                "¿Cómo mejoran los sistemas de aprendizaje automático?"@,
                "A través de la experiencia"@,
                "Solo con programación explícita"@,
                "No pueden mejorar"@,
                0,
            )
        },
        Difficulty::Hard => {
            &&& question_is(
                qs[0],
                "¿Qué es la neuroplasticidad?"@,
                "La rigidez del cerebro"@,
                "La capacidad del sistema nervioso para cambiar"@,
                "Una enfermedad cerebral"@,
                1,
            )
            &&& question_is(
                qs[1],
                "¿Qué creencia antigua desafía la neuroplasticidad?"@,
                "Que el cerebro puede cambiar"@,
                "Que el cerebro adulto era inmutable"@,
                "Que el aprendizaje es imposible"@,
                1,
            )
        },
    }
}

/// How one frame of interaction relates the state before the update to
/// the state after it.
pub open spec fn comprehension_step(pre: TextComprehensionGame, post: TextComprehensionGame, input: FrameInput, now: int) -> bool {
    if pre.aborted {
        post == pre
    } else {
        match pre.phase {
            ComprehensionPhase::Instructions => {
                if input.menu {
                    post == (TextComprehensionGame { aborted: true, ..pre })
                } else if input.primary {
                    post == (TextComprehensionGame {
                        phase: ComprehensionPhase::Reading,
                        start_ms: (now as u64),
                        ..pre
                    })
                } else {
                    post == pre
                }
            },
            ComprehensionPhase::Reading => {
                if input.menu {
                    post == (TextComprehensionGame { aborted: true, ..pre })
                } else if input.primary {
                    &&& post.answers@.len() == pre.questions@.len()
                    &&& (forall|i: int|
                        0 <= i < post.answers@.len() ==> post.answers@[i] is None)
                    &&& post == (TextComprehensionGame {
                        phase: ComprehensionPhase::Questions,
                        answers: post.answers,
                        ..pre
                    })
                } else {
                    post == pre
                }
            },
            ComprehensionPhase::Questions => {
                let aborted2 = input.menu;
                let n = pre.questions@.len() as int;
                let answered = (match input.select {
                    Some(i) => if (i as int)
                        < pre.questions@[pre.current_question as int].options@.len() {
                        pre.answers@.update(pre.current_question as int, Some(i))
                    } else {
                        pre.answers@
                    },
                    None => pre.answers@,
                });
                let moved = (if input.prev && pre.current_question > 0 {
                    pre.current_question - 1
                } else if input.next && pre.current_question + 1 < n {
                    pre.current_question + 1
                } else {
                    pre.current_question as int
                });
                let done = input.primary && moved + 1 == n;
                &&& post.answers@ =~= answered
                &&& post.current_question == moved
                &&& post == (TextComprehensionGame {
                    aborted: aborted2,
                    answers: post.answers,
                    current_question: post.current_question,
                    finished: (if done {
                        true
                    } else {
                        pre.finished
                    }),
                    finished_at_ms: (if done {
                        now as u64
                    } else {
                        pre.finished_at_ms
                    }),
                    ..pre
                })
            },
        }
    }
}

/// The result a finished comprehension session yields.
pub open spec fn comprehension_result(g: TextComprehensionGame, res: GameResult) -> bool {
    &&& res.game_type == GameType::TextComprehension
    &&& details_match(res.game_type, res.details)
    &&& res.score_cp == cp_of(
        comprehension_correct(g.questions@, g.answers@),
        g.questions@.len() as int,
    )
    &&& res.score_cp <= 10_000
    &&& res.details == (GameDetails::TextComprehension {
        questions_correct: (comprehension_correct(g.questions@, g.answers@) as usize),
        total_questions: (g.questions@.len() as usize),
    })
    &&& res.timestamp_ms == g.finished_at_ms
}

pub struct TextComprehensionGame {
    pub config: GameConfig,
    pub phase: ComprehensionPhase,
    pub start_ms: u64,
    pub text: String,
    pub questions: Vec<Question>,
    pub current_question: usize,
    pub answers: Vec<Option<usize>>,
    pub finished: bool,
    pub aborted: bool,
    pub finished_at_ms: u64,
}

impl TextComprehensionGame {
    pub open spec fn wf(self) -> bool {
        &&& self.questions@.len() >= 1
        &&& self.current_question < self.questions@.len()
        &&& (self.answers@.len() == 0 || self.answers@.len() == self.questions@.len())
        &&& (self.phase is Questions ==> self.answers@.len() == self.questions@.len())
        &&& (self.finished ==> self.answers@.len() == self.questions@.len())
    }

    pub open spec fn spec_state(self) -> GameState {
        if self.finished {
            GameState::Finished
        } else if self.aborted {
            GameState::Aborted
        } else {
            GameState::Playing
        }
    }

    pub fn new(config: GameConfig) -> (r: TextComprehensionGame)
        ensures
            r.wf(),
            r.phase is Instructions,
            !r.finished,
            !r.aborted,
            r.config == config,
            r.current_question == 0,
            r.answers@.len() == 0,
            r.questions@.len() == 2,
            r.text@ == canned_text(config.difficulty),
            canned_questions(config.difficulty, r.questions@),
            well_posed(r.questions@),
    {
        let (text, questions) = Self::generate_content(&config);
        TextComprehensionGame {
            config,
            phase: ComprehensionPhase::Instructions,
            start_ms: 0,
            text,
            questions,
            current_question: 0,
            answers: Vec::new(),
            finished: false,
            aborted: false,
            finished_at_ms: 0,
        }
    }

    /// The canned paragraph and its questions for a difficulty tier:
    /// equal difficulties always give identical content.
    pub fn generate_content(config: &GameConfig) -> (r: (String, Vec<Question>))
        ensures
            r.0@ == canned_text(config.difficulty),
            r.1@.len() == 2,
            canned_questions(config.difficulty, r.1@),
            well_posed(r.1@),
    {
        match config.difficulty {
            Difficulty::Easy => {
                let text = String::from_str(
                    "El sol es una estrella muy importante para la vida en la Tierra. Nos da luz y calor todos los días. Sin el sol, no podríamos vivir. Las plantas necesitan la luz del sol para crecer y producir oxígeno que respiramos.",
                );
                let mut questions: Vec<Question> = Vec::new();
                questions.push(make_question(
                    "¿Qué es el sol?",
                    "Un planeta",
                    "Una estrella",
                    "Una luna",
                    1,
                ));
                questions.push(make_question(
                    "¿Qué necesitan las plantas del sol?",
                    "Agua",
                    "Luz",
                    "Tierra",
                    1,
                ));
                (text, questions)
            },
            Difficulty::Medium => {
                let text = String::from_str(
                    "La inteligencia artificial es una tecnología que permite a las máquinas realizar tareas que normalmente requieren inteligencia humana. Incluye el aprendizaje automático, donde los sistemas pueden mejorar su rendimiento a través de la experiencia sin ser programados explícitamente.",
                );
                let mut questions: Vec<Question> = Vec::new();
                questions.push(make_question(
                    "¿Qué permite la inteligencia artificial?",
                    "Solo calcular números",
                    "Realizar tareas que requieren inteligencia humana",
                    "Reemplazar completamente a los humanos",
                    1,
                ));
                questions.push(make_question(
                    "¿Cómo mejoran los sistemas de aprendizaje automático?",
                    "A través de la experiencia",
                    "Solo con programación explícita",
                    "No pueden mejorar",
                    0,
                ));
                (text, questions)
            },
            Difficulty::Hard => {
                let text = String::from_str(
                    "La neuroplasticidad se refiere a la capacidad del sistema nervioso para cambiar su estructura y función en respuesta a la experiencia. Este fenómeno permite la adaptación, el aprendizaje y la recuperación tras lesiones cerebrales, desafiando la antigua creencia de que el cerebro adulto era inmutable.",
                );
                let mut questions: Vec<Question> = Vec::new();
                questions.push(make_question(
                    "¿Qué es la neuroplasticidad?",
                    "La rigidez del cerebro",
                    "La capacidad del sistema nervioso para cambiar",
                    "Una enfermedad cerebral",
                    1,
                ));
                questions.push(make_question(
                    "¿Qué creencia antigua desafía la neuroplasticidad?",
                    "Que el cerebro puede cambiar",
                    "Que el cerebro adulto era inmutable",
                    "Que el aprendizaje es imposible",
                    1,
                ));
                (text, questions)
            },
        }
    }

    /// The session's score in centipercent: correct answers over the
    /// question count.
    pub fn calculate_score(&self) -> (r: u64)
        requires
            self.wf(),
            self.answers@.len() == self.questions@.len(),
        ensures
            r == cp_of(
                comprehension_correct(self.questions@, self.answers@),
                self.questions@.len() as int,
            ),
            r <= 10_000,
    {
        let correct = self.count_correct();
        frac_to_cp(correct, self.questions.len())
    }

    /// Number of questions whose stored answer is the correct option.
    pub fn count_correct(&self) -> (r: usize)
        requires
            self.wf(),
            self.answers@.len() == self.questions@.len(),
        ensures
            r == comprehension_correct(self.questions@, self.answers@),
            r <= self.questions@.len(),
    {
        let n = self.questions.len();
        let mut correct: usize = 0;
        let mut i: usize = 0;
        while i < n
            invariant
                i <= n,
                n == self.questions@.len(),
                self.answers@.len() == n,
                correct == correct_upto(self.questions@, self.answers@, i as int),
                correct <= i,
            decreases n - i,
        {
            let right = match self.answers[i] {
                Some(a) => a == self.questions[i].correct_answer,
                None => false,
            };
            if right {
                correct = correct + 1;
            }
            i = i + 1;
        }
        correct
    }

    /// Advance the session by one frame.
    #[verifier::loop_isolation(false)]
    pub fn update(&mut self, input: &FrameInput, now_ms: u64)
        requires
            old(self).wf(),
        ensures
            final(self).wf(),
            comprehension_step(*old(self), *final(self), *input, now_ms as int),
    {
        if self.aborted {
            return ;
        }
        match self.phase {
            ComprehensionPhase::Instructions => {
                if input.menu {
                    self.aborted = true;
                } else if input.primary {
                    self.phase = ComprehensionPhase::Reading;
                    self.start_ms = now_ms;
                }
            },
            ComprehensionPhase::Reading => {
                if input.menu {
                    self.aborted = true;
                } else if input.primary {
                    let n = self.questions.len();
                    let mut answers: Vec<Option<usize>> = Vec::new();
                    let mut i: usize = 0;
                    while i < n
                        invariant
                            i <= n,
                            answers@.len() == i,
                            forall|j: int| 0 <= j < i ==> answers@[j] is None,
                        decreases n - i,
                    {
                        answers.push(None);
                        i = i + 1;
                    }
                    self.answers = answers;
                    self.phase = ComprehensionPhase::Questions;
                }
            },
            ComprehensionPhase::Questions => {
                let n = self.questions.len();
                proof {
                    assert(self.current_question < n);
                }
                if input.menu {
                    self.aborted = true;
                }
                match input.select {
                    Some(i) => {
                        if i < self.questions[self.current_question].options.len() {
                            self.answers.set(self.current_question, Some(i));
                        }
                    },
                    None => {},
                }
                if input.prev && self.current_question > 0 {
                    self.current_question = self.current_question - 1;
                } else if input.next && self.current_question + 1 < n {
                    self.current_question = self.current_question + 1;
                }
                if input.primary && self.current_question + 1 == n {
                    self.finished = true;
                    self.finished_at_ms = now_ms;
                }
            },
        }
    }

    pub fn get_state(&self) -> (r: GameState)
        ensures
            r == self.spec_state(),
    {
        if self.finished {
            GameState::Finished
        } else if self.aborted {
            GameState::Aborted
        } else {
            GameState::Playing
        }
    }

    /// The result of the attempt: present exactly once the run state is
    /// Finished, and then always the same value for the same state.
    pub fn get_result(&self) -> (r: Option<GameResult>)
        requires
            self.wf(),
        ensures
            r is Some <==> self.spec_state() is Finished,
            r is Some ==> comprehension_result(*self, r->0),
    {
        if !self.finished {
            return None;
        }
        let score_cp = self.calculate_score();
        let correct = self.count_correct();
        Some(
            GameResult {
                game_type: GameType::TextComprehension,
                score_cp,
                details: GameDetails::TextComprehension {
                    questions_correct: correct,
                    total_questions: self.questions.len(),
                },
                timestamp_ms: self.finished_at_ms,
            },
        )
    }

    /// Comprehension has no timed display phase, so it never asks for
    /// continuous repainting.
    pub fn needs_repaint(&self) -> (r: bool)
        ensures
            r == false,
    {
        false
    }
}

/// Every question offers three options and its correct option exists.
pub open spec fn well_posed(qs: Seq<Question>) -> bool {
    forall|i: int|
        0 <= i < qs.len() ==> (#[trigger] qs[i]).options@.len() == 3 && qs[i].correct_answer
            < qs[i].options@.len()
}

fn make_question(q: &str, opt0: &str, opt1: &str, opt2: &str, correct: usize) -> (r: Question)
    requires
        correct < 3,
    ensures
        r.question@ == q@,
        r.options@.len() == 3,
        r.options@[0]@ == opt0@,
        r.options@[1]@ == opt1@,
        r.options@[2]@ == opt2@,
        r.correct_answer == correct,
{
    let mut options: Vec<String> = Vec::new();
    options.push(String::from_str(opt0));
    options.push(String::from_str(opt1));
    options.push(String::from_str(opt2));
    Question { question: String::from_str(q), options, correct_answer: correct }
}

} // verus!
