use quiz::game_engine::engine::GameEngine;
use quiz::game_engine::game_def::{Game, GenericAnswers, Question, ResponseTemplates, Topic};
use quiz::game_engine::types::ResponseMessage::{
    AlreadyAnswered, AnswerQuestion, ChooseNextTopic, Correct, GameComplete, Incorrect,
    PleaseRetry, PleaseRetryLimits, Quit,
};
use quiz::game_engine::types::{
    AnswerAttempt, GameSession, PlayerId, PlayerMessage, ResponseMessage, SessionState,
};
use quiz::services::sessions::InMemorySessionRepository;

fn make_topic(key: &str, question: &str, answer: &str) -> Topic {
    Topic {
        name: key.to_string(),
        key: key.to_string(),
        questions: vec![Question {
            text: question.to_string(),
            answers: vec![answer.to_string()],
        }],
        bonus: 1,
    }
}

fn create_test_game() -> Game {
    Game {
        id: 1,
        name: "#TEST_GAME".to_string(),
        generic_answers: GenericAnswers::default(),
        topics: vec![make_topic("topic1", "q11", "ans11"), make_topic("topic2", "q21", "ans2")],
        max_attempt: Some(2),
        responses: ResponseTemplates::default(),
    }
}

fn make_player_id() -> PlayerId {
    PlayerId {
        channel_id: "1".to_string(),
        id: "1".to_string(),
    }
}

fn run_against_game(game: &Game, messages: Vec<&str>) -> (Vec<ResponseMessage>, GameSession) {
    assert!(game.is_well_formed());
    let engine = GameEngine::default();
    let mut repo = InMemorySessionRepository::default();
    let mut out: Vec<ResponseMessage> = Vec::new();
    let mut last = GameSession::new(&make_player_id(), game.id);
    for message in messages.iter() {
        let player_id = make_player_id();
        let prior = repo.get_by_id(game.id, &player_id);
        if let Some(ref session) = prior {
            assert!(session.is_valid_for(game));
        }
        let (session, responses) = engine.process_message(
            game,
            prior,
            PlayerMessage {
                player_id,
                text: message.to_string(),
            },
        );
        repo.store(&session);
        last = session;
        out.extend(responses);
    }
    (out, last)
}

fn run_against_mock_from_start(messages: Vec<&str>) -> Vec<ResponseMessage> {
    run_against_game(&create_test_game(), messages).0
}

fn run_against_mock_in_session(mut messages: Vec<&str>) -> Vec<ResponseMessage> {
    let mut sequence = vec!["hello", "yes"];
    sequence.append(&mut messages);
    run_against_mock_from_start(sequence).split_off(2)
}

#[test]
fn test_engine_sends_rules_if_player_want_to_play() {
    assert_eq!(
        vec![
            ResponseMessage::greeting("#TEST_GAME"),
            ResponseMessage::rules(vec!["topic1", "topic2"]),
        ],
        run_against_mock_from_start(vec!["Hello", "yes"])
    )
}

#[test]
fn test_engine_stops_replying_on_decline() {
    assert_eq!(
        vec![ResponseMessage::greeting("#TEST_GAME"), Quit],
        run_against_mock_from_start(vec!["Hello", "no", "hey", "hey"])
    )
}

#[test]
fn test_engine_stops_replying_on_stop_word() {
    assert_eq!(
        vec![ResponseMessage::greeting("#TEST_GAME"), Quit],
        run_against_mock_from_start(vec!["Hello", "stop", "hey", "hey"])
    )
}

#[test]
fn test_engine_sends_question_when_user_chooses_a_topic() {
    assert_eq!(
        vec![AnswerQuestion("q11".to_string())],
        run_against_mock_in_session(vec!["topic1"])
    )
}

#[test]
fn test_when_user_answers_correctly_his_score_is_increased() {
    assert_eq!(
        vec![AnswerQuestion("q11".to_string()), Correct(1), ChooseNextTopic],
        run_against_mock_in_session(vec!["topic1", "ans11"])
    )
}

#[test]
fn test_when_user_answers_incorrectly_his_attempts_are_decreased() {
    assert_eq!(
        vec![
            AnswerQuestion("q11".to_string()),
            PleaseRetryLimits(1),
            Incorrect,
            ChooseNextTopic,
        ],
        run_against_mock_in_session(vec!["topic1", "no", "no"])
    )
}

#[test]
fn test_when_no_questions_is_left_user_receives_the_final_score() {
    assert_eq!(
        vec![
            AnswerQuestion("q11".to_string()),
            Correct(1),
            ChooseNextTopic,
            AnswerQuestion("q21".to_string()),
            Correct(2),
            GameComplete(2),
        ],
        run_against_mock_in_session(vec!["topic1", "ans11", "topic2", "ans2"])
    )
}

#[test]
fn test_user_can_not_choose_the_same_topic_twice() {
    assert_eq!(
        vec![
            AnswerQuestion("q11".to_string()),
            Correct(1),
            ChooseNextTopic,
            AlreadyAnswered,
        ],
        run_against_mock_in_session(vec!["topic1", "ans11", "topic1"])
    )
}

#[test]
fn two_wrong_answers_consume_the_topic_with_zero_score() {
    let (out, session) = run_against_game(
        &create_test_game(),
        vec!["hello", "yes", "topic1", "wrong", "also wrong"],
    );
    assert_eq!(
        vec![PleaseRetryLimits(1), Incorrect, ChooseNextTopic],
        out.split_at(3).1.to_vec()
    );
    assert_eq!(SessionState::ChoosingTopic, session.state);
    assert_eq!(0, session.score);
    assert_eq!(1, session.results.len());
    assert_eq!(0, session.results[0].topic_id);
    assert_eq!(0, session.results[0].score);
}

#[test]
fn attempts_count_down_to_the_configured_limit() {
    let mut game = create_test_game();
    game.max_attempt = Some(3);
    let (out, session) = run_against_game(
        &game,
        vec!["hello", "yes", "topic1", "wrong", "wrong", "wrong"],
    );
    assert_eq!(
        vec![PleaseRetryLimits(2), PleaseRetryLimits(1), Incorrect, ChooseNextTopic],
        out.split_at(3).1.to_vec()
    );
    assert_eq!(SessionState::ChoosingTopic, session.state);
    assert_eq!(0, session.score);
}

#[test]
fn unlimited_retries_never_leave_answering() {
    let mut game = create_test_game();
    game.max_attempt = None;
    let (out, session) = run_against_game(
        &game,
        vec!["hello", "yes", "topic1", "wrong", "wrong", "wrong", "wrong"],
    );
    assert_eq!(
        vec![PleaseRetry, PleaseRetry, PleaseRetry, PleaseRetry],
        out.split_at(3).1.to_vec()
    );
    match session.state {
        SessionState::Answering(AnswerAttempt { question_id, attempt }) => {
            assert_eq!(0, question_id.topic());
            assert_eq!(0, attempt);
        }
        other => panic!("expected the session to still be answering, got {:?}", other),
    }
    assert_eq!(0, session.score);
    assert!(session.results.is_empty());
}

#[test]
fn completing_the_game_supersedes_choose_next_topic() {
    let (out, session) = run_against_game(
        &create_test_game(),
        vec!["hello", "yes", "topic1", "ans11", "topic2", "ans2"],
    );
    assert_eq!(
        vec![Correct(2), GameComplete(2)],
        out.split_at(out.len() - 2).1.to_vec()
    );
    assert_eq!(SessionState::Complete, session.state);
    assert_eq!(2, session.score);
}

#[test]
fn complete_session_reannounces_the_final_score() {
    let (out, session) = run_against_game(
        &create_test_game(),
        vec!["hello", "yes", "topic1", "ans11", "topic2", "ans2", "hello again", "hi"],
    );
    assert_eq!(
        vec![GameComplete(2), GameComplete(2)],
        out.split_at(out.len() - 2).1.to_vec()
    );
    assert_eq!(SessionState::Complete, session.state);
    assert_eq!(2, session.score);
}

#[test]
fn terminated_session_emits_nothing_and_keeps_its_results() {
    let (out, session) = run_against_game(
        &create_test_game(),
        vec!["hello", "yes", "topic1", "ans11", "stop", "yes", "topic2"],
    );
    assert_eq!(
        vec![Correct(1), ChooseNextTopic, Quit],
        out.split_at(out.len() - 3).1.to_vec()
    );
    assert_eq!(SessionState::Terminated, session.state);
    assert_eq!(1, session.score);
    assert_eq!(1, session.results.len());
}

#[test]
fn score_always_equals_the_sum_of_recorded_results() {
    let (_, session) = run_against_game(
        &create_test_game(),
        vec!["hello", "yes", "topic1", "ans11", "topic2", "wrong", "wrong"],
    );
    let total: u16 = session.results.iter().map(|r| r.score as u16).sum();
    assert_eq!(session.score, total);
    assert_eq!(2, session.results.len());
    assert_ne!(session.results[0].topic_id, session.results[1].topic_id);
}

#[test]
fn unrecognized_reply_asks_to_rephrase_and_keeps_waiting() {
    let (out, session) = run_against_game(&create_test_game(), vec!["hello", "what?", "yes"]);
    assert_eq!(
        vec![
            ResponseMessage::greeting("#TEST_GAME"),
            ResponseMessage::Rephrase,
            ResponseMessage::rules(vec!["topic1", "topic2"]),
        ],
        out
    );
    assert_eq!(SessionState::ChoosingTopic, session.state);
}

#[test]
fn unknown_topic_asks_to_rephrase() {
    assert_eq!(
        vec![ResponseMessage::Rephrase],
        run_against_mock_in_session(vec!["no such topic"])
    );
}

#[test]
fn stop_word_is_matched_after_normalization() {
    let (out, session) = run_against_game(&create_test_game(), vec!["hello", " SToP!! "]);
    assert_eq!(vec![ResponseMessage::greeting("#TEST_GAME"), Quit], out);
    assert_eq!(SessionState::Terminated, session.state);
}
