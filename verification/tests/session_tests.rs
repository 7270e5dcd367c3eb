use quiz::game_engine::game_def::{Game, GenericAnswers, Question, ResponseTemplates, Topic};
use quiz::game_engine::types::{GameSession, PlayerId, SessionState, TopicResult};
use quiz::services::sessions::InMemorySessionRepository;

fn player(id: &str) -> PlayerId {
    PlayerId {
        channel_id: "ch".to_string(),
        id: id.to_string(),
    }
}

fn tiny_game() -> Game {
    Game {
        id: 7,
        name: "g".to_string(),
        generic_answers: GenericAnswers::default(),
        topics: vec![Topic {
            name: "t".to_string(),
            key: "t".to_string(),
            questions: vec![Question {
                text: "q".to_string(),
                answers: vec!["a".to_string()],
            }],
            bonus: 5,
        }],
        max_attempt: None,
        responses: ResponseTemplates::default(),
    }
}

#[test]
fn new_sessions_start_fresh() {
    let s = GameSession::new(&player("p"), 7);
    assert_eq!(SessionState::New, s.state);
    assert_eq!(0, s.score);
    assert!(s.results.is_empty());
    assert_eq!(7, s.game_id);
    assert_eq!(player("p"), s.player_id);
}

#[test]
fn recording_adds_the_score_and_marks_the_topic_played() {
    let mut s = GameSession::new(&player("p"), 7);
    assert!(!s.has_played(0));
    s.record(0, 5);
    assert!(s.has_played(0));
    assert!(!s.has_played(1));
    assert_eq!(5, s.score);
    assert_eq!(vec![TopicResult { topic_id: 0, score: 5 }], s.results);
}

#[test]
fn validity_check_accepts_engine_made_sessions_only() {
    let game = tiny_game();
    let mut s = GameSession::new(&player("p"), 7);
    assert!(s.is_valid_for(&game));
    s.record(0, 5);
    assert!(s.is_valid_for(&game));

    let mut wrong_score = s.clone();
    wrong_score.score = 4;
    assert!(!wrong_score.is_valid_for(&game));

    let mut duplicate_topic = s.clone();
    duplicate_topic.results.push(TopicResult { topic_id: 0, score: 0 });
    assert!(!duplicate_topic.is_valid_for(&game));

    let mut unknown_topic = GameSession::new(&player("p"), 7);
    unknown_topic.record(3, 0);
    assert!(!unknown_topic.is_valid_for(&game));
}

#[test]
fn the_store_keeps_one_session_per_player_and_game() {
    let mut repo = InMemorySessionRepository::default();
    assert!(repo.get_by_id(7, &player("p")).is_none());

    let mut s = GameSession::new(&player("p"), 7);
    repo.store(&s);
    let loaded = repo.get_by_id(7, &player("p")).unwrap();
    assert_eq!(SessionState::New, loaded.state);

    s.record(0, 5);
    s.state = SessionState::ChoosingTopic;
    repo.store(&s);
    let reloaded = repo.get_by_id(7, &player("p")).unwrap();
    assert_eq!(SessionState::ChoosingTopic, reloaded.state);
    assert_eq!(5, reloaded.score);

    assert!(repo.get_by_id(8, &player("p")).is_none());
    assert!(repo.get_by_id(7, &player("q")).is_none());

    let other = GameSession::new(&player("q"), 7);
    repo.store(&other);
    assert_eq!(5, repo.get_by_id(7, &player("p")).unwrap().score);
    assert_eq!(0, repo.get_by_id(7, &player("q")).unwrap().score);
}
