use quiz::text_util::answer_to_standard;

#[test]
fn normalization_strips_and_lowercases() {
    assert_eq!("hello", answer_to_standard(" Hello!! "));
    assert_eq!("hello", answer_to_standard("hello"));
}

#[test]
fn normalization_is_idempotent_on_examples() {
    let inputs = [" Hello!! ", "A-B_C 7", "Привет, МИР 42!", "  ", ""];
    for raw in inputs.iter() {
        let once = answer_to_standard(raw);
        let twice = answer_to_standard(once.as_str());
        assert_eq!(once, twice);
    }
}

#[test]
fn normalization_keeps_cyrillic_letters_and_digits() {
    assert_eq!("приветмир42", answer_to_standard("Привет, МИР 42!"));
    assert_eq!("да", answer_to_standard("ДА"));
}

#[test]
fn normalization_deletes_runs_without_a_separator() {
    assert_eq!("abc", answer_to_standard("a - b - c"));
    assert_eq!("", answer_to_standard("?!., \t\n"));
    assert_eq!("", answer_to_standard(""));
}
