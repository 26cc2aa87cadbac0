use vstd::prelude::*;

use crate::text::{nat_text, push_all, string_of, usize_to_text};
use crate::token::Token;

verus! {

/// An error that stops a running program: the token where it happened and
/// what went wrong.
#[derive(Debug)]
pub struct RuntimeError<S = String> {
    pub token: Token<S>,
    pub message: S,
}

impl View for RuntimeError {
    type V = RuntimeError<Seq<char>>;

    open spec fn view(&self) -> RuntimeError<Seq<char>> {
        RuntimeError { token: self.token@, message: self.message@ }
    }
}

/// The error as it is shown: `[Line n] Runtime Error at 'lexeme': message`.
pub open spec fn runtime_error_text(e: RuntimeError<Seq<char>>) -> Seq<char> {
    "[Line "@ + nat_text(e.token.line as nat) + "] Runtime Error at '"@ + e.token.lexeme + "': "@ + e.message
}

impl RuntimeError {
    pub fn new(token: Token, message: String) -> (e: Self)
        ensures
            e.token == token,
            e.message == message,
    {
        RuntimeError { token, message }
    }

    /// The error as it is shown.
    pub fn to_display_string(&self) -> (s: String)
        ensures
            s@ == runtime_error_text(self@),
    {
        let mut s = string_of("[Line ");
        let n = usize_to_text(self.token.line);
        push_all(&mut s, n.as_str());
        push_all(&mut s, "] Runtime Error at '");
        push_all(&mut s, self.token.lexeme.as_str());
        push_all(&mut s, "': ");
        push_all(&mut s, self.message.as_str());
        s
    }
}

} // verus!
