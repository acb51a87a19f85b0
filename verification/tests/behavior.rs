use mpsemi::engine::Engine;

#[test]
fn text_tokens_concatenate_in_order() {
    let mut eng = Engine::new();
    assert!(eng.process("h"));
    assert!(eng.process("e"));
    assert!(eng.process("y"));
    assert_eq!(eng.preedit(), "hey");
}

#[test]
fn empty_token_is_consumed_without_change() {
    let mut eng = Engine::new();
    assert!(eng.process(""));
    assert_eq!(eng.preedit(), "");
    assert!(eng.candidates().is_empty());
}

#[test]
fn newline_freezes_candidates_like_space() {
    let mut eng = Engine::new();
    eng.process("hi");
    assert!(eng.process("\n"));
    assert_eq!(eng.preedit(), "hi");
    assert_eq!(eng.candidates(), ["hi", "HI"]);
}

#[test]
fn newline_with_empty_buffer_is_not_consumed() {
    let mut eng = Engine::new();
    assert!(!eng.process("\n"));
    assert_eq!(eng.preedit(), "");
    assert!(eng.candidates().is_empty());
}

#[test]
fn escape_on_empty_engine_is_still_handled() {
    let mut eng = Engine::new();
    assert!(eng.process("\u{1b}"));
    assert_eq!(eng.preedit(), "");
    assert!(eng.candidates().is_empty());
}

#[test]
fn uppercase_input_yields_single_candidate() {
    let mut eng = Engine::new();
    assert!(eng.process("A"));
    assert_eq!(eng.candidates(), ["A"]);
    assert!(eng.process("7"));
    assert_eq!(eng.candidates(), ["A7"]);
}

#[test]
fn adjust_selection_is_periodic_in_list_length() {
    let mut eng = Engine::new();
    eng.process("hi");
    assert!(eng.adjust_selection(3));
    assert_eq!(eng.candidates(), ["HI", "hi"]);
    let mut other = Engine::new();
    other.process("hi");
    assert!(other.adjust_selection(1));
    assert_eq!(other.candidates(), ["HI", "hi"]);
}

#[test]
fn adjust_selection_by_multiple_of_length_reports_unchanged() {
    let mut eng = Engine::new();
    eng.process("hi");
    assert!(!eng.adjust_selection(2));
    assert!(!eng.adjust_selection(-4));
    assert!(!eng.adjust_selection(0));
    assert_eq!(eng.candidates(), ["hi", "HI"]);
}

#[test]
fn adjust_then_inverse_adjust_restores_order() {
    let mut eng = Engine::new();
    eng.process("ok");
    assert_eq!(eng.candidates(), ["ok", "OK"]);
    assert!(eng.adjust_selection(5));
    assert!(eng.adjust_selection(-5));
    assert_eq!(eng.candidates(), ["ok", "OK"]);
}

#[test]
fn space_after_rotation_keeps_rotation() {
    let mut eng = Engine::new();
    eng.process("hi");
    assert!(eng.adjust_selection(1));
    assert_eq!(eng.candidates(), ["HI", "hi"]);
    assert!(eng.process(" "));
    assert_eq!(eng.preedit(), "hi");
    assert_eq!(eng.candidates(), ["HI", "hi"]);
    assert_eq!(eng.commit(), "HI");
}

#[test]
fn commit_is_idempotent_on_idle_engine() {
    let mut eng = Engine::new();
    assert_eq!(eng.commit(), "");
    assert_eq!(eng.commit(), "");
    assert_eq!(eng.preedit(), "");
    assert!(eng.candidates().is_empty());
}

#[test]
fn backspace_handles_multibyte_characters() {
    let mut eng = Engine::new();
    eng.process("é");
    assert_eq!(eng.candidates(), ["é", "É"]);
    assert!(eng.process("\u{08}"));
    assert_eq!(eng.preedit(), "");
    assert!(eng.candidates().is_empty());
}

#[test]
fn end_to_end_compose_rotate_commit() {
    let mut eng = Engine::new();
    assert!(eng.process("h"));
    assert!(eng.process("i"));
    assert!(eng.process(" "));
    assert_eq!(eng.preedit(), "hi");
    assert_eq!(eng.candidates().len(), 2);
    assert_eq!(eng.candidates(), ["hi", "HI"]);
    assert!(eng.adjust_selection(1));
    assert_eq!(eng.candidates(), ["HI", "hi"]);
    let committed = eng.commit();
    assert_eq!(committed, "HI");
    assert_eq!(eng.preedit(), "");
    assert_eq!(eng.candidates().len(), 0);
}
