use vstd::prelude::*;

use crate::game_engine::game_def::{Game, QuestionId};
use crate::game_engine::types::{
    lemma_distinct_bounded_len, lemma_sum_bound, lemma_sum_push, views_of, AnswerAttempt,
    GameSession, PlayerId, PlayerMessage, ResponseMessage, ResponseView, SessionState, TopicResult,
};
use crate::text_util::{answer_to_standard, normalize_spec};

verus! {

/// The stateless dialog engine; every piece of conversation state lives in
/// the sessions it is handed.
#[derive(Default)]
pub struct GameEngine {}

/// One inbound utterance under processing: the player, the normalized text,
/// the session being stepped, and the response events emitted so far.
pub struct MessageContext {
    pub player_id: PlayerId,
    pub message: String,
    pub session: GameSession,
    pub responses: Vec<ResponseMessage>,
}

/// The new session keeps the player and game identity and carries exactly the
/// given state, results and score.
pub open spec fn session_stepped(
    s0: GameSession,
    s1: GameSession,
    state: SessionState,
    results: Seq<TopicResult>,
    score: int,
) -> bool {
    &&& s1.player_id == s0.player_id
    &&& s1.game_id == s0.game_id
    &&& s1.state == state
    &&& s1.results@ == results
    &&& s1.score as int == score
}

/// The response list grew by appending only; nothing already emitted changes.
pub open spec fn appended_prefix(pre: Seq<ResponseMessage>, post: Seq<ResponseMessage>) -> bool {
    pre.len() <= post.len() && post.subrange(0, pre.len() as int) == pre
}

/// The views of the events emitted during one call.
pub open spec fn emitted(pre: Seq<ResponseMessage>, post: Seq<ResponseMessage>) -> Seq<
    ResponseView,
> {
    views_of(post).skip(pre.len() as int)
}

pub open spec fn appended(
    pre: Seq<ResponseMessage>,
    post: Seq<ResponseMessage>,
    out: Seq<ResponseView>,
) -> bool {
    appended_prefix(pre, post) && emitted(pre, post) == out
}

proof fn lemma_appended_refl(pre: Seq<ResponseMessage>)
    ensures
        appended(pre, pre, Seq::<ResponseView>::empty()),
{
    assert(pre.subrange(0, pre.len() as int) =~= pre);
    assert(emitted(pre, pre) =~= Seq::<ResponseView>::empty());
}

proof fn lemma_appended_one(pre: Seq<ResponseMessage>, m: ResponseMessage)
    ensures
        appended(pre, pre.push(m), seq![m@]),
{
    assert(pre.push(m).subrange(0, pre.len() as int) =~= pre);
    assert(emitted(pre, pre.push(m)) =~= seq![m@]);
}

proof fn lemma_appended_trans(
    a: Seq<ResponseMessage>,
    b: Seq<ResponseMessage>,
    c: Seq<ResponseMessage>,
    out1: Seq<ResponseView>,
    out2: Seq<ResponseView>,
)
    requires
        appended(a, b, out1),
        appended(b, c, out2),
    ensures
        appended(a, c, out1 + out2),
{
    assert(out1.len() == b.len() - a.len());
    assert(out2.len() == c.len() - b.len());
    assert forall|k: int| 0 <= k < a.len() implies c[k] == a[k] by {
        assert(c.subrange(0, b.len() as int)[k] == c[k]);
        assert(b.subrange(0, a.len() as int)[k] == b[k]);
    }
    assert(c.subrange(0, a.len() as int) =~= a);
    assert forall|k: int| 0 <= k < c.len() - a.len() implies emitted(a, c)[k] == (out1 + out2)[k]
        by {
        if k < out1.len() {
            assert(c.subrange(0, b.len() as int)[a.len() + k] == c[a.len() + k]);
            assert(emitted(a, b)[k] == views_of(b)[a.len() + k]);
            assert(views_of(b)[a.len() + k] == b[a.len() + k]@);
            assert(views_of(c)[a.len() + k] == c[a.len() + k]@);
        } else {
            let j = k - out1.len();
            assert(emitted(b, c)[j] == views_of(c)[b.len() + j]);
        }
    }
    assert(emitted(a, c) =~= out1 + out2);
}

/// A question of the found topic was drawn: some question index of that topic
/// was picked, the session starts answering it at attempt zero, and its text
/// is asked.
pub open spec fn question_chosen(
    g: Game,
    s0: GameSession,
    s1: GameSession,
    t: u8,
    q: u8,
    out: Seq<ResponseView>,
) -> bool {
    &&& (q as int) < g.topics@[t as int].questions@.len()
    &&& session_stepped(
        s0,
        s1,
        SessionState::Answering(AnswerAttempt { question_id: QuestionId(t, q), attempt: 0 }),
        s0.results@,
        s0.score as int,
    )
    &&& out == seq![ResponseView::AnswerQuestion(g.topics@[t as int].questions@[q as int].text@)]
}

/// After a topic was resolved: if every topic is now resolved the game
/// completes and announces the final score, otherwise the player is asked to
/// choose the next topic.
pub open spec fn finish_ok(
    g: Game,
    s0: GameSession,
    s1: GameSession,
    results1: Seq<TopicResult>,
    score1: int,
    first: ResponseView,
    out: Seq<ResponseView>,
) -> bool {
    if results1.len() == g.topics@.len() {
        &&& session_stepped(s0, s1, SessionState::Complete, results1, score1)
        &&& out == seq![first, ResponseView::GameComplete(s1.score)]
    } else {
        &&& session_stepped(s0, s1, SessionState::ChoosingTopic, results1, score1)
        &&& out == seq![first, ResponseView::ChooseNextTopic]
    }
}

/// The step taken from the `Answering` state: a correct answer records the
/// topic's bonus; a wrong answer retries without limit when no attempt limit
/// is configured, consumes the topic with zero score when the limit is
/// reached, and otherwise retries the same question with one attempt used up.
pub open spec fn answering_ok(
    g: Game,
    msg: Seq<char>,
    s0: GameSession,
    att: AnswerAttempt,
    s1: GameSession,
    out: Seq<ResponseView>,
) -> bool {
    let t = att.question_id.0;
    if g.spec_is_correct_answer(att.question_id, msg) {
        let bonus = g.topics@[t as int].bonus;
        finish_ok(
            g,
            s0,
            s1,
            s0.results@.push(TopicResult { topic_id: t, score: bonus }),
            s0.score + bonus,
            ResponseView::Correct(s1.score),
            out,
        )
    } else {
        match g.max_attempt {
            None => session_stepped(s0, s1, s0.state, s0.results@, s0.score as int) && out
                == seq![ResponseView::PleaseRetry],
            Some(m) => {
                let next = att.attempt + 1;
                if next >= m {
                    finish_ok(
                        g,
                        s0,
                        s1,
                        s0.results@.push(TopicResult { topic_id: t, score: 0 }),
                        s0.score as int,
                        ResponseView::Incorrect,
                        out,
                    )
                } else {
                    &&& session_stepped(
                        s0,
                        s1,
                        SessionState::Answering(
                            AnswerAttempt { question_id: att.question_id, attempt: next as u8 },
                        ),
                        s0.results@,
                        s0.score as int,
                    )
                    &&& out == seq![ResponseView::PleaseRetryLimits((m - next) as u8)]
                }
            },
        }
    }
}

/// One full state-machine step on one normalized utterance: what the next
/// session is and which response events come out, in order.
pub open spec fn step_ok(
    g: Game,
    msg: Seq<char>,
    s0: GameSession,
    s1: GameSession,
    out: Seq<ResponseView>,
) -> bool {
    if s0.state is Terminated {
        session_stepped(s0, s1, s0.state, s0.results@, s0.score as int) && out == Seq::<
            ResponseView,
        >::empty()
    } else if g.spec_is_stop(msg) {
        session_stepped(s0, s1, SessionState::Terminated, s0.results@, s0.score as int) && out
            == seq![ResponseView::Quit]
    } else {
        match s0.state {
            SessionState::New => session_stepped(
                s0,
                s1,
                SessionState::Deciding,
                s0.results@,
                s0.score as int,
            ) && out == seq![ResponseView::Greeting(g.name@)],
            SessionState::Deciding => {
                if g.spec_is_yes(msg) {
                    session_stepped(s0, s1, SessionState::ChoosingTopic, s0.results@, s0.score as int)
                        && out == seq![ResponseView::Rules(g.spec_topic_keys())]
                } else if g.spec_is_no(msg) {
                    session_stepped(s0, s1, SessionState::Terminated, s0.results@, s0.score as int)
                        && out == seq![ResponseView::Quit]
                } else {
                    session_stepped(s0, s1, s0.state, s0.results@, s0.score as int) && out
                        == seq![ResponseView::Rephrase]
                }
            },
            SessionState::ChoosingTopic => {
                match g.spec_find_topic(msg) {
                    None => session_stepped(s0, s1, s0.state, s0.results@, s0.score as int) && out
                        == seq![ResponseView::Rephrase],
                    Some(t) => {
                        if s0.spec_has_played(t) {
                            session_stepped(s0, s1, s0.state, s0.results@, s0.score as int) && out
                                == seq![ResponseView::AlreadyAnswered]
                        } else {
                            exists|q: u8| #[trigger] question_chosen(g, s0, s1, t, q, out)
                        }
                    },
                }
            },
            SessionState::Answering(att) => answering_ok(g, msg, s0, att, s1, out),
            SessionState::Complete => session_stepped(s0, s1, s0.state, s0.results@, s0.score as int)
                && out == seq![ResponseView::GameComplete(s0.score)],
            SessionState::Terminated => false,
        }
    }
}

impl MessageContext {
    /// Builds the context for one inbound message: the raw text is normalized
    /// once, and a fresh session is created for the (game, player) pair.
    pub fn new(game: &Game, message: PlayerMessage) -> (r: MessageContext)
        ensures
            r.player_id == message.player_id,
            r.message@ == normalize_spec(message.text@),
            r.session.player_id == message.player_id,
            r.session.game_id == game.id,
            r.session.state == SessionState::New,
            r.session.results@ == Seq::<TopicResult>::empty(),
            r.session.score == 0,
            r.session.wf(),
            r.session.fits(*game),
            r.responses@ == Seq::<ResponseMessage>::empty(),
    {
        let text = answer_to_standard(message.text.as_str());
        let session = GameSession::new(&message.player_id, game.id);
        MessageContext { player_id: message.player_id, message: text, session, responses: Vec::new() }
    }

    /// Replaces the fresh session with one restored from the store.
    pub fn restore(&mut self, session: GameSession)
        ensures
            final(self).session == session,
            final(self).message == old(self).message,
            final(self).player_id == old(self).player_id,
            final(self).responses == old(self).responses,
    {
        self.session = session;
    }

    fn respond(&mut self, message: ResponseMessage)
        ensures
            appended(old(self).responses@, final(self).responses@, seq![message@]),
            final(self).responses@ == old(self).responses@.push(message),
            final(self).session == old(self).session,
            final(self).message == old(self).message,
            final(self).player_id == old(self).player_id,
    {
        let ghost m = message;
        self.responses.push(message);
        proof {
            lemma_appended_one(old(self).responses@, m);
        }
    }

    fn greet(&mut self, game: &Game)
        requires
            old(self).session.wf(),
            old(self).session.fits(*game),
        ensures
            final(self).session.wf(),
            final(self).session.fits(*game),
            final(self).message == old(self).message,
            final(self).player_id == old(self).player_id,
            session_stepped(
                old(self).session,
                final(self).session,
                SessionState::Deciding,
                old(self).session.results@,
                old(self).session.score as int,
            ),
            appended(
                old(self).responses@,
                final(self).responses@,
                seq![ResponseView::Greeting(game.name@)],
            ),
    {
        let name = game.name.clone();
        self.respond(ResponseMessage::Greeting(name));
        self.session.state = SessionState::Deciding;
    }

    fn has_user_agreed_to_start(&mut self, game: &Game)
        requires
            old(self).session.wf(),
            old(self).session.fits(*game),
        ensures
            final(self).session.wf(),
            final(self).session.fits(*game),
            final(self).message == old(self).message,
            final(self).player_id == old(self).player_id,
            ({
                let msg = old(self).message@;
                let s0 = old(self).session;
                let s1 = final(self).session;
                let pre = old(self).responses@;
                let post = final(self).responses@;
                if game.spec_is_yes(msg) {
                    session_stepped(s0, s1, SessionState::ChoosingTopic, s0.results@, s0.score as int)
                        && appended(pre, post, seq![ResponseView::Rules(game.spec_topic_keys())])
                } else if game.spec_is_no(msg) {
                    session_stepped(s0, s1, SessionState::Terminated, s0.results@, s0.score as int)
                        && appended(pre, post, seq![ResponseView::Quit])
                } else {
                    session_stepped(s0, s1, s0.state, s0.results@, s0.score as int) && appended(
                        pre,
                        post,
                        seq![ResponseView::Rephrase],
                    )
                }
            }),
    {
        if game.is_yes(self.message.as_str()) {
            let keys = game.topic_keys();
            self.respond(ResponseMessage::Rules(keys));
            self.session.state = SessionState::ChoosingTopic;
        } else if game.is_no(self.message.as_str()) {
            self.respond(ResponseMessage::Quit);
            self.session.state = SessionState::Terminated;
        } else {
            self.respond(ResponseMessage::Rephrase);
        }
    }

    fn choose_topic(&mut self, game: &Game)
        requires
            game.wf(),
            old(self).session.wf(),
            old(self).session.fits(*game),
        ensures
            final(self).session.wf(),
            final(self).session.fits(*game),
            final(self).message == old(self).message,
            final(self).player_id == old(self).player_id,
            appended_prefix(old(self).responses@, final(self).responses@),
            ({
                let msg = old(self).message@;
                let s0 = old(self).session;
                let s1 = final(self).session;
                let out = emitted(old(self).responses@, final(self).responses@);
                match game.spec_find_topic(msg) {
                    None => session_stepped(s0, s1, s0.state, s0.results@, s0.score as int) && out
                        == seq![ResponseView::Rephrase],
                    Some(t) => {
                        if s0.spec_has_played(t) {
                            session_stepped(s0, s1, s0.state, s0.results@, s0.score as int) && out
                                == seq![ResponseView::AlreadyAnswered]
                        } else {
                            exists|q: u8| #[trigger] question_chosen(*game, s0, s1, t, q, out)
                        }
                    },
                }
            }),
    {
        if let Some(topic_id) = game.find_topic(self.message.as_str()) {
            proof {
                crate::game_engine::game_def::lemma_find_topic_some(*game, self.message@, 0);
            }
            if self.session.has_played(topic_id) {
                self.respond(ResponseMessage::AlreadyAnswered);
            } else {
                let question_id = game.get_question_from_topic(topic_id);
                self.session.state = SessionState::answering(question_id, 0);
                let text = game.get_question_text(question_id);
                self.respond(ResponseMessage::AnswerQuestion(text));
                proof {
                    let out = emitted(old(self).responses@, self.responses@);
                    assert(question_chosen(
                        *game,
                        old(self).session,
                        self.session,
                        topic_id,
                        question_id.1,
                        out,
                    ));
                }
            }
        } else {
            self.respond(ResponseMessage::Rephrase);
        }
    }

    /// The pre-check: a terminated session ignores everything, and a stop
    /// word terminates the session with a quit message.
    fn check_if_terminated(&mut self, game: &Game) -> (r: bool)
        requires
            old(self).session.wf(),
            old(self).session.fits(*game),
        ensures
            r == (old(self).session.state is Terminated || game.spec_is_stop(old(self).message@)),
            final(self).session.wf(),
            final(self).session.fits(*game),
            final(self).message == old(self).message,
            final(self).player_id == old(self).player_id,
            old(self).session.state is Terminated ==> *final(self) == *old(self),
            (!(old(self).session.state is Terminated) && game.spec_is_stop(old(self).message@))
                ==> session_stepped(
                old(self).session,
                final(self).session,
                SessionState::Terminated,
                old(self).session.results@,
                old(self).session.score as int,
            ) && appended(old(self).responses@, final(self).responses@, seq![ResponseView::Quit]),
            !r ==> *final(self) == *old(self),
    {
        if matches!(self.session.state, SessionState::Terminated) {
            return true;
        }
        if game.is_stop(self.message.as_str()) {
            self.session.state = SessionState::Terminated;
            self.respond(ResponseMessage::Quit);
            return true;
        }
        false
    }

    fn answer_was_correct(&mut self, game: &Game, question_id: QuestionId)
        requires
            game.wf(),
            old(self).session.wf(),
            old(self).session.fits(*game),
            (question_id.0 as int) < game.topics@.len(),
            !old(self).session.spec_has_played(question_id.0),
        ensures
            final(self).message == old(self).message,
            final(self).player_id == old(self).player_id,
            final(self).session.wf(),
            final(self).session.fits(*game),
            session_stepped(
                old(self).session,
                final(self).session,
                SessionState::ChoosingTopic,
                old(self).session.results@.push(
                    TopicResult {
                        topic_id: question_id.0,
                        score: game.topics@[question_id.0 as int].bonus,
                    },
                ),
                old(self).session.score + game.topics@[question_id.0 as int].bonus,
            ),
            appended(
                old(self).responses@,
                final(self).responses@,
                seq![ResponseView::Correct(final(self).session.score)],
            ),
    {
        let topic = question_id.topic();
        let bonus = game.get_bonus(topic);
        proof {
            let pushed = self.session.results@.push(TopicResult { topic_id: topic, score: bonus });
            assert forall|i: int, j: int| 0 <= i < j < pushed.len() implies pushed[i].topic_id
                != pushed[j].topic_id by {
                if j == pushed.len() - 1 {
                    assert(pushed[i] == self.session.results@[i]);
                }
            }
            lemma_distinct_bounded_len(pushed, game.topics@.len() as int);
            lemma_sum_bound(self.session.results@);
            assert(self.session.results@.len() <= 254);
        }
        self.session.record(topic, bonus);
        proof {
            lemma_sum_push(
                old(self).session.results@,
                TopicResult { topic_id: topic, score: bonus },
            );
        }
        let sc = self.session.score;
        self.respond(ResponseMessage::Correct(sc));
        self.session.state = SessionState::ChoosingTopic;
    }

    fn check_if_game_complete(&mut self, game: &Game)
        requires
            game.wf(),
            old(self).session.wf(),
            old(self).session.fits(*game),
            old(self).session.state == SessionState::ChoosingTopic,
            old(self).session.results@.len() <= game.topics@.len(),
        ensures
            final(self).message == old(self).message,
            final(self).player_id == old(self).player_id,
            final(self).session.wf(),
            final(self).session.fits(*game),
            ({
                let s0 = old(self).session;
                let s1 = final(self).session;
                let pre = old(self).responses@;
                let post = final(self).responses@;
                if s0.results@.len() == game.topics@.len() {
                    session_stepped(s0, s1, SessionState::Complete, s0.results@, s0.score as int)
                        && appended(pre, post, seq![ResponseView::GameComplete(s0.score)])
                } else {
                    session_stepped(s0, s1, s0.state, s0.results@, s0.score as int) && appended(
                        pre,
                        post,
                        seq![ResponseView::ChooseNextTopic],
                    )
                }
            }),
    {
        let count = self.session.results.len() as u8;
        if game.is_complete(count) {
            let sc = self.session.score;
            self.respond(ResponseMessage::GameComplete(sc));
            self.session.state = SessionState::Complete;
        } else {
            if matches!(self.session.state, SessionState::ChoosingTopic) {
                self.respond(ResponseMessage::ChooseNextTopic);
            }
        }
    }

    fn answer_question(&mut self, game: &Game, attempt: AnswerAttempt)
        requires
            game.wf(),
            old(self).session.wf(),
            old(self).session.fits(*game),
            old(self).session.state == SessionState::Answering(attempt),
        ensures
            final(self).message == old(self).message,
            final(self).player_id == old(self).player_id,
            final(self).session.wf(),
            final(self).session.fits(*game),
            appended_prefix(old(self).responses@, final(self).responses@),
            answering_ok(
                *game,
                old(self).message@,
                old(self).session,
                attempt,
                final(self).session,
                emitted(old(self).responses@, final(self).responses@),
            ),
    {
        if game.is_correct_answer(attempt.question_id, self.message.as_str()) {
            self.answer_was_correct(game, attempt.question_id);
            let ghost mid_responses = self.responses@;
            let ghost mid_score = self.session.score;
            proof {
                lemma_distinct_bounded_len(self.session.results@, game.topics@.len() as int);
            }
            self.check_if_game_complete(game);
            proof {
                lemma_appended_trans(
                    old(self).responses@,
                    mid_responses,
                    self.responses@,
                    seq![ResponseView::Correct(mid_score)],
                    emitted(mid_responses, self.responses@),
                );
                assert(seq![ResponseView::Correct(mid_score)] + seq![
                    ResponseView::GameComplete(mid_score)] =~= seq![
                    ResponseView::Correct(mid_score),
                    ResponseView::GameComplete(mid_score),
                ]);
                assert(seq![ResponseView::Correct(mid_score)] + seq![
                    ResponseView::ChooseNextTopic] =~= seq![
                    ResponseView::Correct(mid_score),
                    ResponseView::ChooseNextTopic,
                ]);
            }
        } else {
            if let Some(max_attempt) = game.max_attempt {
                let next = attempt.attempt + 1;
                if next >= max_attempt {
                    self.respond(ResponseMessage::Incorrect);
                    self.session.state = SessionState::ChoosingTopic;
                    proof {
                        let pushed = self.session.results@.push(
                            TopicResult { topic_id: attempt.question_id.0, score: 0 },
                        );
                        assert forall|i: int, j: int|
                            0 <= i < j < pushed.len() implies pushed[i].topic_id
                            != pushed[j].topic_id by {
                            if j == pushed.len() - 1 {
                                assert(pushed[i] == self.session.results@[i]);
                            }
                        }
                        lemma_distinct_bounded_len(pushed, game.topics@.len() as int);
                    }
                    self.session.record(attempt.question_id.topic(), 0);
                    proof {
                        lemma_sum_push(
                            old(self).session.results@,
                            TopicResult { topic_id: attempt.question_id.0, score: 0 },
                        );
                    }
                    let ghost mid_responses = self.responses@;
                    let ghost mid_score = self.session.score;
                    self.check_if_game_complete(game);
                    proof {
                        lemma_appended_trans(
                            old(self).responses@,
                            mid_responses,
                            self.responses@,
                            seq![ResponseView::Incorrect],
                            emitted(mid_responses, self.responses@),
                        );
                        assert(seq![ResponseView::Incorrect] + seq![
                            ResponseView::GameComplete(mid_score)] =~= seq![
                            ResponseView::Incorrect,
                            ResponseView::GameComplete(mid_score),
                        ]);
                        assert(seq![ResponseView::Incorrect] + seq![
                            ResponseView::ChooseNextTopic] =~= seq![
                            ResponseView::Incorrect,
                            ResponseView::ChooseNextTopic,
                        ]);
                    }
                } else {
                    self.respond(ResponseMessage::PleaseRetryLimits(max_attempt - next));
                    self.session.state = SessionState::answering(attempt.question_id, next);
                }
            } else {
                self.respond(ResponseMessage::PleaseRetry);
            }
        }
    }

    /// Runs the state machine once on the normalized utterance held by this
    /// context: the pre-check for termination and the stop word, then the
    /// state-specific step.
    pub fn process(&mut self, game: &Game)
        requires
            game.wf(),
            old(self).session.wf(),
            old(self).session.fits(*game),
        ensures
            final(self).session.wf(),
            final(self).session.fits(*game),
            final(self).message == old(self).message,
            final(self).player_id == old(self).player_id,
            appended_prefix(old(self).responses@, final(self).responses@),
            step_ok(
                *game,
                old(self).message@,
                old(self).session,
                final(self).session,
                emitted(old(self).responses@, final(self).responses@),
            ),
    {
        if self.check_if_terminated(game) {
            proof {
                if old(self).session.state is Terminated {
                    lemma_appended_refl(old(self).responses@);
                }
            }
            return ;
        }
        let state = self.session.state;
        match state {
            SessionState::New => self.greet(game),
            SessionState::Deciding => self.has_user_agreed_to_start(game),
            SessionState::ChoosingTopic => self.choose_topic(game),
            SessionState::Answering(attempt) => self.answer_question(game, attempt),
            SessionState::Complete => {
                let sc = self.session.score;
                self.respond(ResponseMessage::GameComplete(sc));
            },
            SessionState::Terminated => {
                proof {
                    assert(false);
                }
            },
        }
    }
}

/// A session as created on the first message of a (game, player) pair.
pub open spec fn is_fresh_session(s: GameSession, player_id: PlayerId, game_id: u32) -> bool {
    &&& s.state == SessionState::New
    &&& s.results@ == Seq::<TopicResult>::empty()
    &&& s.score == 0
    &&& s.player_id == player_id
    &&& s.game_id == game_id
}

impl GameEngine {
    /// Processes one inbound message: normalizes the text once, steps the
    /// prior session (or a fresh one when the player has none), and returns
    /// the session to persist together with the ordered response events.
    pub fn process_message(
        &self,
        game: &Game,
        prior: Option<GameSession>,
        message: PlayerMessage,
    ) -> (r: (GameSession, Vec<ResponseMessage>))
        requires
            game.wf(),
            prior matches Some(s) ==> s.wf() && s.fits(*game),
        ensures
            r.0.wf(),
            r.0.fits(*game),
            match prior {
                Some(s) => step_ok(
                    *game,
                    normalize_spec(message.text@),
                    s,
                    r.0,
                    views_of(r.1@),
                ),
                None => exists|s0: GameSession|
                    #[trigger] is_fresh_session(s0, message.player_id, game.id) && step_ok(
                        *game,
                        normalize_spec(message.text@),
                        s0,
                        r.0,
                        views_of(r.1@),
                    ),
            },
    {
        let ghost msg0 = message;
        let ghost prior0 = prior;
        let mut ctx = MessageContext::new(game, message);
        match prior {
            Some(s) => ctx.restore(s),
            None => (),
        }
        let ghost base = ctx.session;
        ctx.process(game);
        proof {
            assert(emitted(Seq::<ResponseMessage>::empty(), ctx.responses@) =~= views_of(
                ctx.responses@,
            ));
            if prior0 is None {
                assert(is_fresh_session(base, msg0.player_id, game.id));
            }
        }
        let MessageContext { session, responses, .. } = ctx;
        (session, responses)
    }
}

/// Every step preserves the session invariants: the score stays the sum of
/// the recorded results, no topic is ever recorded twice, and the session
/// still fits its game.
pub proof fn lemma_step_preserves_invariants(
    g: Game,
    msg: Seq<char>,
    s0: GameSession,
    s1: GameSession,
    out: Seq<ResponseView>,
)
    requires
        step_ok(g, msg, s0, s1, out),
        s0.wf(),
        s0.fits(g),
        g.wf(),
    ensures
        s1.wf(),
        s1.fits(g),
{
    if s0.state is Terminated || g.spec_is_stop(msg) {
    } else {
        match s0.state {
            SessionState::ChoosingTopic => {
                match g.spec_find_topic(msg) {
                    Some(t) => {
                        if !s0.spec_has_played(t) {
                            let q = choose|q: u8| question_chosen(g, s0, s1, t, q, out);
                            crate::game_engine::game_def::lemma_find_topic_some(g, msg, 0);
                        }
                    },
                    None => {},
                }
            },
            SessionState::Answering(att) => {
                let t = att.question_id.0;
                if g.spec_is_correct_answer(att.question_id, msg) {
                    let bonus = g.topics@[t as int].bonus;
                    let r = TopicResult { topic_id: t, score: bonus };
                    lemma_sum_push(s0.results@, r);
                    lemma_push_keeps_distinct(s0.results@, r);
                } else {
                    match g.max_attempt {
                        Some(m) => {
                            if att.attempt + 1 >= m {
                                let r = TopicResult { topic_id: t, score: 0 };
                                lemma_sum_push(s0.results@, r);
                                lemma_push_keeps_distinct(s0.results@, r);
                            }
                        },
                        None => {},
                    }
                }
            },
            _ => {},
        }
    }
}

proof fn lemma_push_keeps_distinct(rs: Seq<TopicResult>, r: TopicResult)
    requires
        forall|i: int, j: int| 0 <= i < j < rs.len() ==> rs[i].topic_id != rs[j].topic_id,
        forall|i: int| 0 <= i < rs.len() ==> rs[i].topic_id != r.topic_id,
    ensures
        forall|i: int, j: int|
            0 <= i < j < rs.push(r).len() ==> rs.push(r)[i].topic_id != rs.push(r)[j].topic_id,
{
    assert forall|i: int, j: int| 0 <= i < j < rs.push(r).len() implies rs.push(r)[i].topic_id
        != rs.push(r)[j].topic_id by {
        if j == rs.len() {
            assert(rs.push(r)[i] == rs[i]);
        }
    }
}

/// Once a session is terminated, a step emits nothing and changes nothing.
pub proof fn lemma_terminated_is_sticky(
    g: Game,
    msg: Seq<char>,
    s0: GameSession,
    s1: GameSession,
    out: Seq<ResponseView>,
)
    requires
        step_ok(g, msg, s0, s1, out),
        s0.state is Terminated,
    ensures
        out == Seq::<ResponseView>::empty(),
        s1.state is Terminated,
        s1.results@ == s0.results@,
        s1.score == s0.score,
{
}

/// Once a session is complete, any step on a non-stop utterance re-announces
/// completion with the unchanged final score and changes nothing.
pub proof fn lemma_complete_reemits(
    g: Game,
    msg: Seq<char>,
    s0: GameSession,
    s1: GameSession,
    out: Seq<ResponseView>,
)
    requires
        step_ok(g, msg, s0, s1, out),
        s0.state is Complete,
        !g.spec_is_stop(msg),
    ensures
        out == seq![ResponseView::GameComplete(s0.score)],
        s1.state is Complete,
        s1.results@ == s0.results@,
        s1.score == s0.score,
{
}

/// Without a configured attempt limit, a wrong non-stop answer never leaves
/// the `Answering` state, never consumes the topic, and keeps the attempt
/// counter frozen.
pub proof fn lemma_unlimited_retries_stay(
    g: Game,
    msg: Seq<char>,
    s0: GameSession,
    att: AnswerAttempt,
    s1: GameSession,
    out: Seq<ResponseView>,
)
    requires
        step_ok(g, msg, s0, s1, out),
        s0.state == SessionState::Answering(att),
        g.max_attempt is None,
        !g.spec_is_correct_answer(att.question_id, msg),
        !g.spec_is_stop(msg),
    ensures
        s1.state == s0.state,
        s1.results@ == s0.results@,
        s1.score == s0.score,
        out == seq![ResponseView::PleaseRetry],
{
}

} // verus!
