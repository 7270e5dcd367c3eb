use vstd::prelude::*;

use crate::game_engine::game_def::{Game, QuestionId, TopicId};

verus! {

pub type GameId = u32;

pub type ChannelId = String;

#[derive(Clone, Debug)]
pub struct Channel {
    pub name: String,
    pub channel_id: ChannelId,
    pub token: String,
    pub game_id: Option<GameId>,
}

#[derive(Debug)]
pub struct PlayerId {
    pub channel_id: String,
    pub id: String,
}

impl Clone for PlayerId {
    fn clone(&self) -> (r: Self)
        ensures
            r == *self,
    {
        PlayerId { channel_id: self.channel_id.clone(), id: self.id.clone() }
    }
}

impl PartialEq for PlayerId {
    fn eq(&self, other: &Self) -> (r: bool) {
        self.channel_id == other.channel_id && self.id == other.id
    }
}

impl vstd::std_specs::cmp::PartialEqSpecImpl for PlayerId {
    open spec fn obeys_eq_spec() -> bool {
        true
    }

    open spec fn eq_spec(&self, other: &Self) -> bool {
        self.channel_id@ == other.channel_id@ && self.id@ == other.id@
    }
}

#[derive(Clone, Copy, PartialEq, Eq, Structural, Debug)]
pub struct TopicResult {
    pub topic_id: u8,
    pub score: u8,
}

#[derive(Clone, Copy, PartialEq, Eq, Structural, Debug)]
pub struct AnswerAttempt {
    pub question_id: QuestionId,
    pub attempt: u8,
}

#[derive(Clone, Copy, PartialEq, Eq, Structural, Debug)]
pub enum SessionState {
    New,
    Deciding,
    Answering(AnswerAttempt),
    ChoosingTopic,
    Terminated,
    Complete,
}

impl SessionState {
    pub fn answering(question_id: QuestionId, attempt: u8) -> (r: SessionState)
        ensures
            r == SessionState::Answering(AnswerAttempt { question_id, attempt }),
    {
        SessionState::Answering(AnswerAttempt { question_id, attempt })
    }
}

impl Default for SessionState {
    fn default() -> (r: Self)
        ensures
            r == SessionState::New,
    {
        SessionState::New
    }
}

/// The score a session carries is exactly the sum of the scores recorded in
/// its per-topic results.
pub open spec fn sum_scores(rs: Seq<TopicResult>) -> int
    decreases rs.len(),
{
    if rs.len() == 0 {
        0
    } else {
        sum_scores(rs.drop_last()) + rs.last().score
    }
}

#[derive(Debug)]
pub struct GameSession {
    pub player_id: PlayerId,
    pub game_id: GameId,
    pub state: SessionState,
    pub results: Vec<TopicResult>,
    pub score: u16,
}

impl Clone for GameSession {
    fn clone(&self) -> (r: Self)
        ensures
            r.player_id == self.player_id,
            r.game_id == self.game_id,
            r.state == self.state,
            r.results@ == self.results@,
            r.score == self.score,
    {
        GameSession {
            player_id: self.player_id.clone(),
            game_id: self.game_id,
            state: self.state,
            results: self.results.clone(),
            score: self.score,
        }
    }
}

impl GameSession {
    pub open spec fn spec_has_played(self, topic_id: u8) -> bool {
        exists|i: int| 0 <= i < self.results@.len() && self.results@[i].topic_id == topic_id
    }

    /// The session invariants: the cumulative score is the sum of the
    /// recorded results, no topic is recorded twice, and the topic under
    /// answer is not yet recorded.
    pub open spec fn wf(self) -> bool {
        &&& self.score as int == sum_scores(self.results@)
        &&& forall|i: int, j: int|
            0 <= i < j < self.results@.len() ==> self.results@[i].topic_id
                != self.results@[j].topic_id
        &&& (self.state matches SessionState::Answering(att) ==> !self.spec_has_played(
            att.question_id.0,
        ))
    }

    /// Compatibility of a session with the game it is played against: every
    /// recorded topic and the question under answer exist in the game, and a
    /// configured attempt limit bounds the stored attempt counter.
    pub open spec fn fits(self, game: Game) -> bool {
        &&& forall|i: int|
            0 <= i < self.results@.len() ==> (#[trigger] self.results@[i].topic_id as int)
                < game.topics@.len()
        &&& (self.state matches SessionState::Answering(att) ==> {
            &&& (att.question_id.0 as int) < game.topics@.len()
            &&& (att.question_id.1 as int) < game.topics@[att.question_id.0 as int].questions@.len()
            &&& (game.max_attempt matches Some(m) ==> att.attempt == 0 || att.attempt < m)
        })
    }

    pub fn new(player_id: &PlayerId, game_id: GameId) -> (r: GameSession)
        ensures
            r.player_id == *player_id,
            r.game_id == game_id,
            r.state == SessionState::New,
            r.results@ == Seq::<TopicResult>::empty(),
            r.score == 0,
            r.wf(),
    {
        let r = GameSession {
            player_id: player_id.clone(),
            game_id,
            state: SessionState::New,
            results: Vec::new(),
            score: 0,
        };
        proof {
            assert(sum_scores(r.results@) == 0);
        }
        r
    }

    pub fn record(&mut self, topic_id: TopicId, score: u8)
        requires
            old(self).score + score <= u16::MAX,
        ensures
            final(self).player_id == old(self).player_id,
            final(self).game_id == old(self).game_id,
            final(self).state == old(self).state,
            final(self).results@ == old(self).results@.push(TopicResult { topic_id, score }),
            final(self).score == old(self).score + score,
    {
        self.score = self.score + (score as u16);
        self.results.push(TopicResult { topic_id, score });
    }

    /// Runtime check of `wf` and `fits`, for sessions that come from outside
    /// the engine (for example from a persistent store).
    pub fn is_valid_for(&self, game: &Game) -> (r: bool)
        ensures
            r == (self.wf() && self.fits(*game)),
    {
        let n = self.results.len();
        // The cumulative score must equal the sum of the recorded scores.
        let mut acc: u32 = 0;
        let mut i: usize = 0;
        while i < n
            invariant
                n == self.results@.len(),
                i <= n,
                acc <= 65535,
                acc as int == sum_scores(self.results@.take(i as int)),
            decreases n - i,
        {
            let ghost prefix = self.results@.take(i as int);
            acc = acc + (self.results[i].score as u32);
            proof {
                assert(self.results@.take(i + 1).drop_last() =~= prefix);
                assert(self.results@.take(i + 1).last() == self.results@[i as int]);
            }
            i += 1;
            if acc > 65535 {
                proof {
                    lemma_sum_prefix_le(self.results@, i as int);
                }
                return false;
            }
        }
        proof {
            assert(self.results@.take(n as int) =~= self.results@);
        }
        if acc != (self.score as u32) {
            return false;
        }
        // No topic may be recorded twice, and every recorded topic must exist
        // in the game.
        for i in 0..n
            invariant
                n == self.results@.len(),
                forall|a: int, b: int|
                    0 <= a < b < i ==> self.results@[a].topic_id != self.results@[b].topic_id,
                forall|a: int|
                    0 <= a < i ==> (#[trigger] self.results@[a].topic_id as int)
                        < game.topics@.len(),
        {
            if (self.results[i].topic_id as usize) >= game.topics.len() {
                return false;
            }
            for j in 0..i
                invariant
                    n == self.results@.len(),
                    i < n,
                    forall|a: int|
                        0 <= a < j ==> self.results@[a].topic_id != self.results@[i as int].topic_id,
            {
                if self.results[j].topic_id == self.results[i].topic_id {
                    return false;
                }
            }
        }
        // The question under answer must exist, be of an unplayed topic, and
        // respect a configured attempt limit.
        if let SessionState::Answering(att) = self.state {
            if (att.question_id.0 as usize) >= game.topics.len() {
                return false;
            }
            if self.has_played(att.question_id.0) {
                return false;
            }
            if (att.question_id.1 as usize)
                >= game.topics[att.question_id.0 as usize].questions.len() {
                return false;
            }
            if let Some(m) = game.max_attempt {
                if !(att.attempt == 0 || att.attempt < m) {
                    return false;
                }
            }
        }
        true
    }

    pub fn has_played(&self, topic_id: TopicId) -> (r: bool)
        ensures
            r == self.spec_has_played(topic_id),
    {
        let n = self.results.len();
        for i in 0..n
            invariant
                n == self.results@.len(),
                forall|j: int| 0 <= j < i ==> self.results@[j].topic_id != topic_id,
        {
            if self.results[i].topic_id == topic_id {
                return true;
            }
        }
        false
    }
}

/// A prefix of the record never sums to more than the whole record.
pub proof fn lemma_sum_prefix_le(rs: Seq<TopicResult>, i: int)
    requires
        0 <= i <= rs.len(),
    ensures
        sum_scores(rs.take(i)) <= sum_scores(rs),
    decreases rs.len(),
{
    if i == rs.len() {
        assert(rs.take(i) =~= rs);
    } else {
        assert(rs.take(i) =~= rs.drop_last().take(i));
        lemma_sum_prefix_le(rs.drop_last(), i);
    }
}

/// Pushing a result onto the record adds exactly its score to the sum.
pub proof fn lemma_sum_push(rs: Seq<TopicResult>, r: TopicResult)
    ensures
        sum_scores(rs.push(r)) == sum_scores(rs) + r.score,
{
    assert(rs.push(r).drop_last() =~= rs);
}

/// Each recorded score is at most 255, so the sum is bounded by the count.
pub proof fn lemma_sum_bound(rs: Seq<TopicResult>)
    ensures
        0 <= sum_scores(rs) <= 255 * rs.len(),
    decreases rs.len(),
{
    if rs.len() > 0 {
        lemma_sum_bound(rs.drop_last());
    }
}

/// Pigeonhole: pairwise-distinct topic ids below `n` admit at most `n`
/// results.
pub proof fn lemma_distinct_bounded_len(rs: Seq<TopicResult>, n: int)
    requires
        0 <= n,
        forall|i: int, j: int| 0 <= i < j < rs.len() ==> rs[i].topic_id != rs[j].topic_id,
        forall|i: int| 0 <= i < rs.len() ==> (#[trigger] rs[i].topic_id as int) < n,
    ensures
        rs.len() <= n,
{
    let ids = rs.map_values(|r: TopicResult| r.topic_id as int);
    assert forall|i: int, j: int| 0 <= i < ids.len() && 0 <= j < ids.len() && i != j implies ids[i]
        != ids[j] by {
        assert(ids[i] == rs[i].topic_id as int);
        assert(ids[j] == rs[j].topic_id as int);
    }
    assert(ids.no_duplicates());
    ids.unique_seq_to_set();
    assert(ids.to_set().subset_of(vstd::set_lib::set_int_range(0, n))) by {
        assert forall|x: int| ids.to_set().contains(x) implies vstd::set_lib::set_int_range(
            0,
            n,
        ).contains(x) by {
            let k = choose|k: int| 0 <= k < ids.len() && ids[k] == x;
            assert(ids[k] == rs[k].topic_id as int);
        }
    }
    vstd::set_lib::lemma_int_range(0, n);
    vstd::set_lib::lemma_len_subset(ids.to_set(), vstd::set_lib::set_int_range(0, n));
}

#[derive(Clone, Debug)]
pub struct PlayerPersonalInfo {
    pub id: PlayerId,
    pub name: String,
    pub lastname: String,
}

#[derive(Clone, Debug)]
pub struct PlayerMessage {
    pub player_id: PlayerId,
    pub text: String,
}

/// One text message extracted from a platform webhook event: who sent it, to
/// which page or account, and what it says.
#[derive(Clone, Default, Debug, Eq, PartialEq)]
pub struct TextMessage {
    pub text: String,
    pub from: String,
    pub to: String,
}

#[derive(PartialEq, Debug, Clone)]
pub enum ResponseMessage {
    Greeting(String),
    Rephrase,
    Rules(Vec<String>),
    AnswerQuestion(String),
    PleaseRetry,
    PleaseRetryLimits(u8),
    Incorrect,
    Correct(u16),
    GameComplete(u16),
    ChooseNextTopic,
    AlreadyAnswered,
    Quit,
}

/// The mathematical image of a response event: strings become character
/// sequences, everything else is carried as is.
pub enum ResponseView {
    Greeting(Seq<char>),
    Rephrase,
    Rules(Seq<Seq<char>>),
    AnswerQuestion(Seq<char>),
    PleaseRetry,
    PleaseRetryLimits(u8),
    Incorrect,
    Correct(u16),
    GameComplete(u16),
    ChooseNextTopic,
    AlreadyAnswered,
    Quit,
}

impl View for ResponseMessage {
    type V = ResponseView;

    open spec fn view(&self) -> ResponseView {
        match self {
            ResponseMessage::Greeting(name) => ResponseView::Greeting(name@),
            ResponseMessage::Rephrase => ResponseView::Rephrase,
            ResponseMessage::Rules(topics) => ResponseView::Rules(topics.deep_view()),
            ResponseMessage::AnswerQuestion(text) => ResponseView::AnswerQuestion(text@),
            ResponseMessage::PleaseRetry => ResponseView::PleaseRetry,
            ResponseMessage::PleaseRetryLimits(n) => ResponseView::PleaseRetryLimits(*n),
            ResponseMessage::Incorrect => ResponseView::Incorrect,
            ResponseMessage::Correct(s) => ResponseView::Correct(*s),
            ResponseMessage::GameComplete(s) => ResponseView::GameComplete(*s),
            ResponseMessage::ChooseNextTopic => ResponseView::ChooseNextTopic,
            ResponseMessage::AlreadyAnswered => ResponseView::AlreadyAnswered,
            ResponseMessage::Quit => ResponseView::Quit,
        }
    }
}

pub open spec fn views_of(rs: Seq<ResponseMessage>) -> Seq<ResponseView> {
    rs.map_values(|m: ResponseMessage| m@)
}

impl ResponseMessage {
    pub fn greeting(game_name: &str) -> (r: ResponseMessage)
        ensures
            r@ == ResponseView::Greeting(game_name@),
    {
        ResponseMessage::Greeting(game_name.to_owned())
    }

    pub fn rules(topics: Vec<&str>) -> (r: ResponseMessage)
        ensures
            r@ == ResponseView::Rules(topics.deep_view()),
    {
        let n = topics.len();
        let mut owned: Vec<String> = Vec::new();
        for i in 0..n
            invariant
                n == topics@.len(),
                owned@.len() == i,
                forall|j: int| 0 <= j < i ==> (#[trigger] owned@[j])@ == topics@[j]@,
        {
            owned.push(topics[i].to_owned());
        }
        let r = ResponseMessage::Rules(owned);
        proof {
            assert(owned.deep_view() =~= topics.deep_view());
        }
        r
    }

    pub fn answer_question(question: &str) -> (r: ResponseMessage)
        ensures
            r@ == ResponseView::AnswerQuestion(question@),
    {
        ResponseMessage::AnswerQuestion(question.to_owned())
    }
}

/// Renders one response event to deliverable text; implemented by external
/// formatters.
pub trait ResponseTextFormatter {
    fn format(&self, message: ResponseMessage) -> String;
}

/// The outbound envelope: a response event addressed to one player on one
/// channel.
pub struct Response {
    pub to: PlayerId,
    pub channel: Channel,
    pub message: ResponseMessage,
}

} // verus!
