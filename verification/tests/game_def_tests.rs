use quiz::game_engine::game_def::{Game, GenericAnswers, Question, ResponseTemplates, Topic};
use quiz::game_engine::types::ResponseMessage;

fn topic(key: &str, questions: Vec<(&str, Vec<&str>)>, bonus: u8) -> Topic {
    Topic {
        name: key.to_string(),
        key: key.to_string(),
        questions: questions
            .into_iter()
            .map(|(text, answers)| Question {
                text: text.to_string(),
                answers: answers.into_iter().map(|a| a.to_string()).collect(),
            })
            .collect(),
        bonus,
    }
}

fn game() -> Game {
    Game {
        id: 1,
        name: "#TEST_GAME".to_string(),
        generic_answers: GenericAnswers::default(),
        topics: vec![
            topic("history", vec![("q11", vec!["ans11", "ans12"])], 3),
            topic("history of art", vec![("q21", vec!["ans2"])], 2),
        ],
        max_attempt: Some(2),
        responses: ResponseTemplates::default(),
    }
}

#[test]
fn vocabularies_use_exact_membership() {
    let g = game();
    assert!(g.is_yes("yes"));
    assert!(g.is_yes("да"));
    assert!(!g.is_yes("yes!"));
    assert!(g.is_no("no"));
    assert!(g.is_no("нет"));
    assert!(g.is_stop("stop"));
    assert!(g.is_stop("стоп"));
    assert!(!g.is_stop("stopp"));
}

#[test]
fn find_topic_matches_when_the_key_contains_the_input() {
    let g = game();
    assert_eq!(Some(0), g.find_topic("history"));
    assert_eq!(Some(0), g.find_topic("isto"));
    assert_eq!(Some(1), g.find_topic("history of art"));
    assert_eq!(None, g.find_topic("history lesson"));
    assert_eq!(None, g.find_topic("xyz"));
}

#[test]
fn find_topic_prefers_declaration_order() {
    let g = game();
    // Both keys contain "history"; the first declared topic wins.
    assert_eq!(Some(0), g.find_topic("hist"));
}

#[test]
fn question_selection_stays_inside_the_topic() {
    let g = game();
    for _ in 0..32 {
        let q = g.get_question_from_topic(0);
        assert_eq!(0, q.topic());
    }
    let q = g.get_question_from_topic(1);
    assert_eq!(1, q.topic());
    assert_eq!("q21", g.get_question_text(q));
}

#[test]
fn answers_are_checked_against_the_questions_accepted_set() {
    let g = game();
    let q = g.get_question_from_topic(1);
    assert!(g.is_correct_answer(q, "ans2"));
    assert!(!g.is_correct_answer(q, "ans11"));
}

#[test]
fn bonus_and_completion_follow_the_definition() {
    let g = game();
    assert_eq!(3, g.get_bonus(0));
    assert_eq!(2, g.get_bonus(1));
    assert!(!g.is_complete(0));
    assert!(!g.is_complete(1));
    assert!(g.is_complete(2));
    assert_eq!(vec!["history".to_string(), "history of art".to_string()], g.topic_keys());
}

#[test]
fn well_formedness_requires_every_topic_to_have_questions() {
    let mut g = game();
    assert!(g.is_well_formed());
    g.topics.push(topic("empty", vec![], 1));
    assert!(!g.is_well_formed());
}

#[test]
fn formatting_substitutes_the_placeholders() {
    let g = game();
    assert_eq!(
        "Hello! Today we play #TEST_GAME. Want to join?",
        g.format(ResponseMessage::Greeting("#TEST_GAME".to_string()))
    );
    assert_eq!(
        "Choose a topic from: history, history of art. Answer a question. Get your score when all topics are comnplete",
        g.format(ResponseMessage::Rules(vec!["history".to_string(), "history of art".to_string()]))
    );
    assert_eq!("Next question: q21", g.format(ResponseMessage::AnswerQuestion("q21".to_string())));
    assert_eq!(
        "That is incorrect. Try again. 1 attempts left",
        g.format(ResponseMessage::PleaseRetryLimits(1))
    );
    assert_eq!("That is correct. Your score: 12045", g.format(ResponseMessage::Correct(12045)));
    assert_eq!(
        "Game is complete. Your score: 0",
        g.format(ResponseMessage::GameComplete(0))
    );
    assert_eq!("I don't understand", g.format(ResponseMessage::Rephrase));
    assert_eq!("That is incorrect. Try again", g.format(ResponseMessage::PleaseRetry));
    assert_eq!("That is incorrect", g.format(ResponseMessage::Incorrect));
    assert_eq!("Choose the next topic", g.format(ResponseMessage::ChooseNextTopic));
    assert_eq!("You already answered this topic", g.format(ResponseMessage::AlreadyAnswered));
    assert_eq!("Ok... Goodbye!", g.format(ResponseMessage::Quit));
}

#[test]
fn response_constructors_build_the_tagged_values() {
    assert_eq!(
        ResponseMessage::Greeting("g".to_string()),
        ResponseMessage::greeting("g")
    );
    assert_eq!(
        ResponseMessage::Rules(vec!["a".to_string(), "b".to_string()]),
        ResponseMessage::rules(vec!["a", "b"])
    );
    assert_eq!(
        ResponseMessage::AnswerQuestion("q".to_string()),
        ResponseMessage::answer_question("q")
    );
}
