use vstd::prelude::*;
use vstd::string::StringExecFns;

use crate::game_engine::types::{GameId, ResponseMessage, ResponseView};
use crate::text_util::{contains_seq, contains_substring, str_eq};

verus! {

pub type TopicId = u8;

/// A compact reference to one question: the topic index and the question
/// index inside that topic. Valid only against the game it was produced from.
#[derive(Clone, Copy, PartialEq, Eq, Structural, Debug)]
pub struct QuestionId(pub u8, pub u8);

impl QuestionId {
    pub fn topic(&self) -> (r: u8)
        ensures
            r == self.0,
    {
        self.0
    }
}

#[derive(Clone, Debug)]
pub struct Question {
    pub text: String,
    pub answers: Vec<String>,
}

#[derive(Clone, Debug)]
pub struct Topic {
    pub name: String,
    pub key: String,
    pub questions: Vec<Question>,
    pub bonus: u8,
}

#[derive(Clone, Debug)]
pub struct GenericAnswers {
    pub yes: Vec<String>,
    pub no: Vec<String>,
    pub stop: Vec<String>,
}

#[derive(Clone, Debug)]
pub struct ResponseTemplates {
    pub greeting: String,
    pub rephrase: String,
    pub rules: String,
    pub answer_question: String,
    pub please_retry: String,
    pub please_retry_limits: String,
    pub incorrect: String,
    pub correct: String,
    pub game_complete: String,
    pub choose_next_topic: String,
    pub already_answered: String,
    pub quit: String,
}

/// One quiz definition: immutable once loaded and shared read-only by every
/// session.
#[derive(Clone, Debug)]
pub struct Game {
    pub id: GameId,
    pub name: String,
    pub generic_answers: GenericAnswers,
    pub topics: Vec<Topic>,
    pub max_attempt: Option<u8>,
    pub responses: ResponseTemplates,
}

/// The normalized text is an exact member of the vocabulary.
pub open spec fn in_vocab(vs: Seq<String>, t: Seq<char>) -> bool {
    exists|i: int| 0 <= i < vs.len() && (#[trigger] vs[i])@ == t
}

fn vocab_contains(vs: &Vec<String>, text: &str) -> (r: bool)
    ensures
        r == in_vocab(vs@, text@),
{
    let n = vs.len();
    for i in 0..n
        invariant
            n == vs@.len(),
            forall|j: int| 0 <= j < i ==> (#[trigger] vs@[j])@ != text@,
    {
        if str_eq(vs[i].as_str(), text) {
            return true;
        }
    }
    false
}

/// Relies on rand::random: an arbitrary byte; nothing is promised of its
/// value.
#[verifier::external_body]
fn random_u8() -> u8 {
    rand::random()
}

impl Game {
    /// Machine limits on a usable game: the topic count fits the topic index
    /// type, and every topic has at least one and at most 255 questions, so
    /// that question selection is well defined.
    pub open spec fn wf(self) -> bool {
        &&& self.topics@.len() <= 255
        &&& forall|i: int|
            0 <= i < self.topics@.len() ==> 1 <= (#[trigger] self.topics@[i]).questions@.len()
                <= 255
    }

    /// Runtime check for `wf`, for callers that obtain a game from outside.
    pub fn is_well_formed(&self) -> (r: bool)
        ensures
            r == self.wf(),
    {
        let n = self.topics.len();
        if n > 255 {
            return false;
        }
        for i in 0..n
            invariant
                n == self.topics@.len(),
                forall|j: int|
                    0 <= j < i ==> 1 <= (#[trigger] self.topics@[j]).questions@.len() <= 255,
        {
            let qn = self.topics[i].questions.len();
            if qn < 1 || qn > 255 {
                return false;
            }
        }
        true
    }

    pub open spec fn spec_is_yes(self, t: Seq<char>) -> bool {
        in_vocab(self.generic_answers.yes@, t)
    }

    pub open spec fn spec_is_no(self, t: Seq<char>) -> bool {
        in_vocab(self.generic_answers.no@, t)
    }

    pub open spec fn spec_is_stop(self, t: Seq<char>) -> bool {
        in_vocab(self.generic_answers.stop@, t)
    }

    pub fn is_yes(&self, text: &str) -> (r: bool)
        ensures
            r == self.spec_is_yes(text@),
    {
        vocab_contains(&self.generic_answers.yes, text)
    }

    pub fn is_no(&self, text: &str) -> (r: bool)
        ensures
            r == self.spec_is_no(text@),
    {
        vocab_contains(&self.generic_answers.no, text)
    }

    pub fn is_stop(&self, text: &str) -> (r: bool)
        ensures
            r == self.spec_is_stop(text@),
    {
        vocab_contains(&self.generic_answers.stop, text)
    }

    /// The first topic, from index `i` on, whose key contains the text.
    pub open spec fn find_topic_from(self, t: Seq<char>, i: int) -> Option<TopicId>
        decreases self.topics@.len() - i,
    {
        if i < 0 || i >= self.topics@.len() {
            None
        } else if contains_seq(self.topics@[i].key@, t) {
            Some(i as u8)
        } else {
            self.find_topic_from(t, i + 1)
        }
    }

    /// The first topic, in declared order, whose key contains the text as a
    /// substring.
    pub open spec fn spec_find_topic(self, t: Seq<char>) -> Option<TopicId> {
        self.find_topic_from(t, 0)
    }

    pub fn find_topic(&self, text: &str) -> (r: Option<TopicId>)
        requires
            self.wf(),
        ensures
            r == self.spec_find_topic(text@),
    {
        let n = self.topics.len();
        let mut i: usize = 0;
        while i < n
            invariant
                self.wf(),
                n == self.topics@.len(),
                i <= n,
                self.spec_find_topic(text@) == self.find_topic_from(text@, i as int),
            decreases n - i,
        {
            if contains_substring(self.topics[i].key.as_str(), text) {
                return Some(i as u8);
            }
            i += 1;
        }
        None
    }

    /// Picks a question from the topic at random; any index of that topic may
    /// come back.
    pub fn get_question_from_topic(&self, id: TopicId) -> (r: QuestionId)
        requires
            self.wf(),
            (id as int) < self.topics@.len(),
        ensures
            r.0 == id,
            (r.1 as int) < self.topics@[id as int].questions@.len(),
    {
        let num = self.topics[id as usize].questions.len() as u8;
        let r: u8 = random_u8();
        QuestionId(id, r % num)
    }

    pub fn get_question_text(&self, question_id: QuestionId) -> (r: String)
        requires
            (question_id.0 as int) < self.topics@.len(),
            (question_id.1 as int) < self.topics@[question_id.0 as int].questions@.len(),
        ensures
            r@ == self.topics@[question_id.0 as int].questions@[question_id.1 as int].text@,
    {
        self.topics[question_id.0 as usize].questions[question_id.1 as usize].text.clone()
    }

    /// The normalized text is an accepted answer of the question.
    pub open spec fn spec_is_correct_answer(self, question_id: QuestionId, t: Seq<char>) -> bool {
        in_vocab(
            self.topics@[question_id.0 as int].questions@[question_id.1 as int].answers@,
            t,
        )
    }

    pub fn is_correct_answer(&self, question_id: QuestionId, text: &str) -> (r: bool)
        requires
            (question_id.0 as int) < self.topics@.len(),
            (question_id.1 as int) < self.topics@[question_id.0 as int].questions@.len(),
        ensures
            r == self.spec_is_correct_answer(question_id, text@),
    {
        vocab_contains(
            &self.topics[question_id.0 as usize].questions[question_id.1 as usize].answers,
            text,
        )
    }

    pub fn get_bonus(&self, topic_id: TopicId) -> (r: u8)
        requires
            (topic_id as int) < self.topics@.len(),
        ensures
            r == self.topics@[topic_id as int].bonus,
    {
        self.topics[topic_id as usize].bonus
    }

    /// The game is complete exactly when every topic has been resolved.
    pub open spec fn spec_is_complete(self, num_answers: int) -> bool {
        self.topics@.len() == num_answers
    }

    pub fn is_complete(&self, num_answers: u8) -> (r: bool)
        requires
            self.wf(),
        ensures
            r == self.spec_is_complete(num_answers as int),
    {
        self.topics.len() as u8 == num_answers
    }

    pub open spec fn spec_topic_keys(self) -> Seq<Seq<char>> {
        self.topics@.map_values(|t: Topic| t.key@)
    }

    pub fn topic_keys(&self) -> (r: Vec<String>)
        ensures
            r.deep_view() == self.spec_topic_keys(),
    {
        let n = self.topics.len();
        let mut r: Vec<String> = Vec::new();
        for i in 0..n
            invariant
                n == self.topics@.len(),
                r@.len() == i,
                forall|j: int| 0 <= j < i ==> (#[trigger] r@[j])@ == self.topics@[j].key@,
        {
            r.push(self.topics[i].key.clone());
        }
        proof {
            assert(r.deep_view() =~= self.spec_topic_keys());
        }
        r
    }
}

/// A found topic is one of the game's topics.
pub proof fn lemma_find_topic_some(g: Game, t: Seq<char>, i: int)
    requires
        g.topics@.len() <= 255,
    ensures
        g.find_topic_from(t, i) matches Some(id) ==> (i <= id as int && (id as int)
            < g.topics@.len()),
    decreases g.topics@.len() - i,
{
    if i < 0 || i >= g.topics@.len() {
    } else if contains_seq(g.topics@[i].key@, t) {
    } else {
        lemma_find_topic_some(g, t, i + 1);
    }
}

impl Default for GenericAnswers {
    fn default() -> (r: Self)
        ensures
            r.yes@.len() == 2 && r.yes@[0]@ == "yes"@ && r.yes@[1]@ == "да"@,
            r.no@.len() == 2 && r.no@[0]@ == "no"@ && r.no@[1]@ == "нет"@,
            r.stop@.len() == 2 && r.stop@[0]@ == "stop"@ && r.stop@[1]@ == "стоп"@,
    {
        GenericAnswers {
            yes: vec!["yes".to_owned(), "да".to_owned()],
            no: vec!["no".to_owned(), "нет".to_owned()],
            stop: vec!["stop".to_owned(), "стоп".to_owned()],
        }
    }
}

impl Default for ResponseTemplates {
    fn default() -> (r: Self)
        ensures
            r.greeting@ == "Hello! Today we play #NAME. Want to join?"@,
            r.rephrase@ == "I don't understand"@,
            r.rules@
                == "Choose a topic from: #TOPICS. Answer a question. Get your score when all topics are comnplete"@,
            r.answer_question@ == "Next question: #QUESTION"@,
            r.please_retry@ == "That is incorrect. Try again"@,
            r.please_retry_limits@ == "That is incorrect. Try again. #LEFT attempts left"@,
            r.incorrect@ == "That is incorrect"@,
            r.correct@ == "That is correct. Your score: #SCORE"@,
            r.game_complete@ == "Game is complete. Your score: #SCORE"@,
            r.choose_next_topic@ == "Choose the next topic"@,
            r.already_answered@ == "You already answered this topic"@,
            r.quit@ == "Ok... Goodbye!"@,
    {
        ResponseTemplates {
            greeting: "Hello! Today we play #NAME. Want to join?".to_owned(),
            rephrase: "I don't understand".to_owned(),
            rules:
                "Choose a topic from: #TOPICS. Answer a question. Get your score when all topics are comnplete".to_owned(),
            answer_question: "Next question: #QUESTION".to_owned(),
            please_retry: "That is incorrect. Try again".to_owned(),
            please_retry_limits: "That is incorrect. Try again. #LEFT attempts left".to_owned(),
            incorrect: "That is incorrect".to_owned(),
            correct: "That is correct. Your score: #SCORE".to_owned(),
            game_complete: "Game is complete. Your score: #SCORE".to_owned(),
            choose_next_topic: "Choose the next topic".to_owned(),
            already_answered: "You already answered this topic".to_owned(),
            quit: "Ok... Goodbye!".to_owned(),
        }
    }
}

/// What str::replace returns; a function of its three arguments alone.
pub uninterp spec fn replaced(s: Seq<char>, pattern: Seq<char>, value: Seq<char>) -> Seq<char>;

/// Relies on str::replace: it replaces every match of the pattern with the
/// replacement string, deterministically in the arguments.
#[verifier::external_body]
fn replace_str(s: &str, pattern: &str, value: &str) -> (r: String)
    ensures
        r@ == replaced(s@, pattern@, value@),
{
    s.replace(pattern, value)
}

/// The character of one decimal digit.
pub open spec fn dec_digit(d: int) -> char {
    ((0x30 + d) as u32) as char
}

/// The decimal representation of a number.
pub open spec fn dec_str(n: nat) -> Seq<char>
    decreases n,
{
    if n < 10 {
        seq![dec_digit(n as int)]
    } else {
        dec_str(n / 10).push(dec_digit((n % 10) as int))
    }
}

spec fn rev_digit_chars(ds: Seq<u8>) -> Seq<char> {
    Seq::new(ds.len(), |i: int| dec_digit(ds[ds.len() - 1 - i] as int))
}

fn digit_to_char(d: u8) -> (r: char)
    requires
        d < 10,
    ensures
        r == dec_digit(d as int),
{
    (0x30 + d) as char
}

fn u16_to_string(n: u16) -> (r: String)
    ensures
        r@ == dec_str(n as nat),
{
    let mut digits: Vec<u8> = Vec::new();
    let mut m: u16 = n;
    proof {
        assert(dec_str(n as nat) =~= dec_str(n as nat) + rev_digit_chars(digits@));
    }
    loop
        invariant_except_break
            dec_str(n as nat) == dec_str(m as nat) + rev_digit_chars(digits@),
            forall|k: int| 0 <= k < digits@.len() ==> digits@[k] < 10,
        ensures
            dec_str(n as nat) == rev_digit_chars(digits@),
            forall|k: int| 0 <= k < digits@.len() ==> digits@[k] < 10,
        decreases m,
    {
        let d = m % 10;
        let ghost old_digits = digits@;
        let ghost old_m = m;
        digits.push(d as u8);
        m = m / 10;
        proof {
            assert(rev_digit_chars(old_digits.push(d as u8)) =~= seq![dec_digit(d as int)]
                + rev_digit_chars(old_digits));
            if old_m >= 10 {
                assert(dec_str(old_m as nat) == dec_str((old_m / 10) as nat).push(
                    dec_digit((old_m % 10) as int),
                ));
                assert(dec_str((old_m / 10) as nat).push(dec_digit(d as int)) =~= dec_str(
                    (old_m / 10) as nat,
                ) + seq![dec_digit(d as int)]);
            }
        }
        if m == 0 {
            proof {
                assert(dec_str(old_m as nat) == seq![dec_digit(d as int)]);
                assert(dec_str(n as nat) =~= rev_digit_chars(digits@));
            }
            break ;
        } else {
            proof {
                assert(dec_str(n as nat) =~= dec_str(m as nat) + rev_digit_chars(digits@));
            }
        }
    }
    let mut r = String::new();
    let mut i = digits.len();
    while i > 0
        invariant
            i <= digits@.len(),
            dec_str(n as nat) == rev_digit_chars(digits@),
            forall|k: int| 0 <= k < digits@.len() ==> digits@[k] < 10,
            r@ == rev_digit_chars(digits@).subrange(0, digits@.len() - i),
        decreases i,
    {
        i = i - 1;
        let d = digits[i];
        crate::text_util::push_char(&mut r, digit_to_char(d));
        proof {
            assert(rev_digit_chars(digits@)[digits@.len() - 1 - i] == dec_digit(
                digits@[i as int] as int,
            ));
            assert(r@ =~= rev_digit_chars(digits@).subrange(0, digits@.len() - i));
        }
    }
    proof {
        assert(rev_digit_chars(digits@).subrange(0, digits@.len() as int) =~= rev_digit_chars(
            digits@,
        ));
    }
    r
}

/// The topic keys joined by a comma and a space, in declared order.
pub open spec fn join_comma(ts: Seq<Seq<char>>) -> Seq<char>
    decreases ts.len(),
{
    if ts.len() == 0 {
        Seq::empty()
    } else if ts.len() == 1 {
        ts[0]
    } else {
        join_comma(ts.drop_last()) + ", "@ + ts.last()
    }
}

fn join_topics(ts: &Vec<String>) -> (r: String)
    ensures
        r@ == join_comma(ts.deep_view()),
{
    let mut r = String::new();
    let n = ts.len();
    for i in 0..n
        invariant
            n == ts@.len(),
            r@ == join_comma(ts.deep_view().subrange(0, i as int)),
    {
        if i > 0 {
            r.append(", ");
        }
        r.append(ts[i].as_str());
        proof {
            let dv = ts.deep_view();
            assert(dv[i as int] == ts@[i as int]@);
            assert(dv.subrange(0, (i + 1) as int).drop_last() =~= dv.subrange(0, i as int));
            assert(dv.subrange(0, (i + 1) as int).last() == dv[i as int]);
        }
    }
    proof {
        assert(ts.deep_view().subrange(0, n as int) =~= ts.deep_view());
    }
    r
}

/// The rendered text of one response event: the tag's template with its
/// placeholder substituted.
pub open spec fn spec_format(g: Game, m: ResponseView) -> Seq<char> {
    match m {
        ResponseView::Greeting(name) => replaced(g.responses.greeting@, "#NAME"@, name),
        ResponseView::Rephrase => g.responses.rephrase@,
        ResponseView::Rules(topics) => replaced(
            g.responses.rules@,
            "#TOPICS"@,
            join_comma(topics),
        ),
        ResponseView::AnswerQuestion(text) => replaced(
            g.responses.answer_question@,
            "#QUESTION"@,
            text,
        ),
        ResponseView::PleaseRetry => g.responses.please_retry@,
        ResponseView::PleaseRetryLimits(n) => replaced(
            g.responses.please_retry_limits@,
            "#LEFT"@,
            dec_str(n as nat),
        ),
        ResponseView::Incorrect => g.responses.incorrect@,
        ResponseView::Correct(s) => replaced(g.responses.correct@, "#SCORE"@, dec_str(s as nat)),
        ResponseView::GameComplete(s) => replaced(
            g.responses.game_complete@,
            "#SCORE"@,
            dec_str(s as nat),
        ),
        ResponseView::ChooseNextTopic => g.responses.choose_next_topic@,
        ResponseView::AlreadyAnswered => g.responses.already_answered@,
        ResponseView::Quit => g.responses.quit@,
    }
}

impl Game {
    /// Renders a response event against this game's templates.
    pub fn format(&self, message: ResponseMessage) -> (r: String)
        ensures
            r@ == spec_format(*self, message@),
    {
        match message {
            ResponseMessage::Greeting(game_name) => replace_str(
                self.responses.greeting.as_str(),
                "#NAME",
                game_name.as_str(),
            ),
            ResponseMessage::Rephrase => self.responses.rephrase.clone(),
            ResponseMessage::Rules(topics) => {
                let joined = join_topics(&topics);
                replace_str(self.responses.rules.as_str(), "#TOPICS", joined.as_str())
            },
            ResponseMessage::AnswerQuestion(text) => replace_str(
                self.responses.answer_question.as_str(),
                "#QUESTION",
                text.as_str(),
            ),
            ResponseMessage::PleaseRetry => self.responses.please_retry.clone(),
            ResponseMessage::PleaseRetryLimits(num) => {
                let left = u16_to_string(num as u16);
                replace_str(self.responses.please_retry_limits.as_str(), "#LEFT", left.as_str())
            },
            ResponseMessage::Incorrect => self.responses.incorrect.clone(),
            ResponseMessage::Correct(score) => {
                let s = u16_to_string(score);
                replace_str(self.responses.correct.as_str(), "#SCORE", s.as_str())
            },
            ResponseMessage::GameComplete(score) => {
                let s = u16_to_string(score);
                replace_str(self.responses.game_complete.as_str(), "#SCORE", s.as_str())
            },
            ResponseMessage::ChooseNextTopic => self.responses.choose_next_topic.clone(),
            ResponseMessage::AlreadyAnswered => self.responses.already_answered.clone(),
            ResponseMessage::Quit => self.responses.quit.clone(),
        }
    }
}

} // verus!
