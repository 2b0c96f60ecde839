use infr::chat::SyclDenseChat;

/// A stand-in for a generation: emits the words of the prompt as pieces, up to the budget.
fn emit_words(
    model: &String,
    prompt: &str,
    max_new: usize,
    req: Option<&u8>,
    on_piece: &mut dyn FnMut(&str),
) -> Result<(String, usize), String> {
    let mut n = 0;
    for word in prompt.split(' ').take(max_new) {
        on_piece(word);
        n += 1;
    }
    match req {
        Some(7) => Err(String::from("cancelled")),
        _ => Ok((model.clone(), n)),
    }
}

/// The caller's sink gets every piece once and in order, and the answer comes back unchanged.
#[test]
fn a_turn_hands_everything_to_the_model() {
    let mut chat = SyclDenseChat::new(String::from("model"));
    assert_eq!(chat.render_model(), "model");

    let mut pieces: Vec<String> = Vec::new();
    let mut sink = |piece: &str| pieces.push(piece.to_string());
    let on_piece: &mut dyn FnMut(&str) = &mut sink;
    let stats = chat.generate("one two one three", 3, None, on_piece, emit_words);
    assert_eq!(stats, Ok((String::from("model"), 3)));
    assert_eq!(pieces, vec!["one", "two", "one"]);
    assert_eq!(chat.render_model(), "model");
}

/// An error comes back as it is, after the pieces that were emitted before it.
#[test]
fn a_failed_turn_returns_the_error() {
    let mut chat = SyclDenseChat::new(String::from("model"));
    let mut pieces: Vec<String> = Vec::new();
    let mut sink = |piece: &str| pieces.push(piece.to_string());
    let on_piece: &mut dyn FnMut(&str) = &mut sink;
    let stats = chat.generate("one two", 5, Some(&7u8), on_piece, emit_words);
    assert_eq!(stats, Err(String::from("cancelled")));
    assert_eq!(pieces, vec!["one", "two"]);
}

/// A generation that emits nothing leaves the sink untouched.
#[test]
fn a_silent_turn_emits_nothing() {
    let mut chat = SyclDenseChat::new(String::from("model"));
    let mut calls = 0;
    let mut sink = |_: &str| calls += 1;
    let on_piece: &mut dyn FnMut(&str) = &mut sink;
    let stats = chat.generate("one two", 0, None, on_piece, emit_words);
    assert_eq!(stats, Ok((String::from("model"), 0)));
    assert_eq!(calls, 0);
}
