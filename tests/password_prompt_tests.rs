use cleansys::prompt::PasswordPrompt;

#[test]
fn test_password_prompt_creation() {
    let prompt = PasswordPrompt::new();
    assert!(!prompt.is_visible());
    assert!(!prompt.is_authenticated());
}

#[test]
fn test_show_hide() {
    let mut prompt = PasswordPrompt::new();
    assert!(!prompt.is_visible());

    prompt.show();
    assert!(prompt.is_visible());

    prompt.hide_prompt();
    assert!(!prompt.is_visible());
}

#[test]
fn test_password_input() {
    let mut prompt = PasswordPrompt::new();

    prompt.add_char('a');
    prompt.add_char('b');
    prompt.add_char('c');

    prompt.remove_char();
}

#[test]
fn test_cancel() {
    let mut prompt = PasswordPrompt::new();
    prompt.show();
    prompt.add_char('a');

    prompt.cancel();
    assert!(!prompt.is_visible());
}

#[test]
fn prompt_keeps_typed_secret_until_submitted() {
    let mut prompt = PasswordPrompt::new();
    prompt.show();
    prompt.add_char('a');
    prompt.add_char('b');
    prompt.add_char('c');
    prompt.remove_char();
    assert_eq!(prompt.secret(), "ab");
}

#[test]
fn rejected_secret_keeps_prompt_with_error() {
    let mut prompt = PasswordPrompt::new();
    prompt.show();
    prompt.add_char('x');
    assert!(!prompt.submit(false));
    assert!(prompt.is_visible());
    assert!(!prompt.is_authenticated());
    assert_eq!(prompt.secret(), "");
    assert_eq!(
        prompt.error_message().map(|m| m.as_str()),
        Some("Incorrect password. Please try again.")
    );
}

#[test]
fn accepted_secret_authenticates_and_hides() {
    let mut prompt = PasswordPrompt::new();
    prompt.show();
    prompt.add_char('x');
    assert!(prompt.submit(true));
    assert!(!prompt.is_visible());
    assert!(prompt.is_authenticated());
    assert_eq!(prompt.secret(), "");
    prompt.show();
    assert!(prompt.is_authenticated());
}
