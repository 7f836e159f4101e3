use file_analyzer::cancel::interpret_reading;
use file_analyzer::cancel::CancellationToken;

#[test]
fn new_token_is_not_cancelled() {
    let token = CancellationToken::new();
    assert!(!token.is_cancelled());
}

#[test]
fn cancel_raises_the_flag() {
    let token = CancellationToken::new();
    token.cancel();
    assert!(token.is_cancelled());
}

#[test]
fn cancel_is_idempotent() {
    let token = CancellationToken::new();
    token.cancel();
    token.cancel();
    assert!(token.is_cancelled());
    assert!(token.is_cancelled());
}

#[test]
fn clones_share_one_flag() {
    let token = CancellationToken::new();
    let other = token.clone();
    let third = other.clone();
    assert!(!other.is_cancelled());
    third.cancel();
    assert!(token.is_cancelled());
    assert!(other.is_cancelled());
}

#[test]
fn separate_tokens_do_not_share() {
    let one = CancellationToken::new();
    let two = CancellationToken::new();
    one.cancel();
    assert!(one.is_cancelled());
    assert!(!two.is_cancelled());
}

#[test]
fn a_failed_reading_counts_as_cancelled() {
    assert!(interpret_reading(None));
}

#[test]
fn a_reading_is_taken_as_it_is() {
    assert!(interpret_reading(Some(true)));
    assert!(!interpret_reading(Some(false)));
}
