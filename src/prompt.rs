//! The credential prompt of the privilege gate.
use vstd::prelude::*;

verus! {

/// The message shown after a rejected credential.
pub const WRONG_PASSWORD: &'static str = "Incorrect password. Please try again.";

/// Interactive entry of the secret that unlocks elevated operations.
/// Checking the secret is left to the caller; the prompt only holds the
/// typed characters, shows or hides itself and records the outcome.
pub struct PasswordPrompt {
    password_input: String,
    error_message: Option<String>,
    visible: bool,
    authenticated: bool,
}

impl PasswordPrompt {
    /// The characters typed so far.
    pub closed spec fn input(&self) -> Seq<char> {
        self.password_input@
    }

    /// Whether the prompt is shown.
    pub closed spec fn spec_visible(&self) -> bool {
        self.visible
    }

    /// Whether a credential was accepted in this session.
    pub closed spec fn spec_authenticated(&self) -> bool {
        self.authenticated
    }

    /// The error shown under the input, if any.
    pub closed spec fn error(&self) -> Option<Seq<char>> {
        match &self.error_message {
            Some(m) => Some(m@),
            None => None,
        }
    }

    /// A hidden, empty prompt with no accepted credential.
    pub fn new() -> (r: Self)
        ensures
            !r.spec_visible(),
            !r.spec_authenticated(),
            r.input().len() == 0,
            r.error() is None,
    {
        PasswordPrompt {
            password_input: String::new(),
            error_message: None,
            visible: false,
            authenticated: false,
        }
    }

    /// Shows the prompt with an empty input and no error.
    pub fn show(&mut self)
        ensures
            final(self).spec_visible(),
            final(self).input().len() == 0,
            final(self).error() is None,
            final(self).spec_authenticated() == old(self).spec_authenticated(),
    {
        self.visible = true;
        self.password_input = String::new();
        self.error_message = None;
    }

    /// Hides the prompt and forgets the input and the error.
    pub fn hide_prompt(&mut self)
        ensures
            !final(self).spec_visible(),
            final(self).input().len() == 0,
            final(self).error() is None,
            final(self).spec_authenticated() == old(self).spec_authenticated(),
    {
        self.visible = false;
        self.password_input = String::new();
        self.error_message = None;
    }

    /// Whether the prompt is shown.
    pub fn is_visible(&self) -> (r: bool)
        ensures
            r == self.spec_visible(),
    {
        self.visible
    }

    /// Whether a credential was accepted in this session.
    pub fn is_authenticated(&self) -> (r: bool)
        ensures
            r == self.spec_authenticated(),
    {
        self.authenticated
    }

    /// The characters typed so far, to be handed to the verifier.
    pub fn secret(&self) -> (r: &str)
        ensures
            r@ == self.input(),
    {
        self.password_input.as_str()
    }

    /// The error shown under the input, if any.
    pub fn error_message(&self) -> (r: Option<&String>)
        ensures
            r matches Some(m) ==> self.error() == Some(m@),
            r is None ==> self.error() is None,
    {
        match &self.error_message {
            Some(m) => Some(m),
            None => None,
        }
    }

    /// Appends a typed character.
    pub fn add_char(&mut self, c: char)
        ensures
            final(self).input() == old(self).input().push(c),
            final(self).spec_visible() == old(self).spec_visible(),
            final(self).spec_authenticated() == old(self).spec_authenticated(),
            final(self).error() == old(self).error(),
    {
        self.password_input.push(c);
    }

    /// Removes the last typed character, if any.
    pub fn remove_char(&mut self)
        ensures
            old(self).input().len() > 0 ==> final(self).input() == old(self).input().drop_last(),
            old(self).input().len() == 0 ==> final(self).input() == old(self).input(),
            final(self).spec_visible() == old(self).spec_visible(),
            final(self).spec_authenticated() == old(self).spec_authenticated(),
            final(self).error() == old(self).error(),
    {
        self.password_input.pop();
    }

    /// Records the verifier's verdict on the typed secret and clears the
    /// input either way. An accepted secret authenticates the session for
    /// good and hides the prompt; a rejected one keeps the prompt up with an
    /// error. Returns the verdict.
    pub fn submit(&mut self, accepted: bool) -> (r: bool)
        ensures
            r == accepted,
            final(self).input().len() == 0,
            accepted ==> final(self).spec_authenticated() && !final(self).spec_visible()
                && final(self).error() is None,
            !accepted ==> final(self).spec_authenticated() == old(self).spec_authenticated()
                && final(self).spec_visible() == old(self).spec_visible()
                && final(self).error() == Some(WRONG_PASSWORD@),
    {
        self.password_input = String::new();
        if accepted {
            self.authenticated = true;
            self.visible = false;
            self.error_message = None;
            true
        } else {
            self.error_message = Some(String::from_str(WRONG_PASSWORD));
            false
        }
    }

    /// Dismisses the prompt (see [`PasswordPrompt::hide_prompt`]).
    pub fn cancel(&mut self)
        ensures
            !final(self).spec_visible(),
            final(self).input().len() == 0,
            final(self).error() is None,
            final(self).spec_authenticated() == old(self).spec_authenticated(),
    {
        self.hide_prompt();
    }
}

impl Default for PasswordPrompt {
    fn default() -> (r: Self)
        ensures
            !r.spec_visible(),
            !r.spec_authenticated(),
            r.input().len() == 0,
            r.error() is None,
    {
        Self::new()
    }
}

} // verus!
