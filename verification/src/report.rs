use vstd::prelude::*;
use crate::text::{decimal, decimal_string};
use crate::token::{Token, TokenView};
use crate::token_type::TokenType;
use crate::utils::Soo;

verus! {

/// The line that reports a static error: `[line N] Error<location>: <message>`.
pub open spec fn report_text(line: usize, location: Seq<char>, message: Seq<char>) -> Seq<char> {
    "[line "@ + decimal(line as nat) + "] Error"@ + location + ": "@ + message
}

/// Where a static error is: ` at end` for the end of input, else
/// ` at 'LEXEME'`.
pub open spec fn location_text(token: TokenView) -> Seq<char> {
    if token.typ == TokenType::Eof {
        " at end"@
    } else {
        " at '"@ + token.lexeme + "'"@
    }
}

/// The two lines that report a runtime error: the message, then `[line N]`.
pub open spec fn runtime_error_text(line: usize, message: Seq<char>) -> Seq<char> {
    message + "\n[line "@ + decimal(line as nat) + "]"@
}

/// The line that reports a static error at a location.
pub fn report(line: usize, location: &str, message: &str) -> (text: String)
    ensures
        text@ == report_text(line, location@, message@),
{
    let mut text = String::from_str("[line ");
    text.append(decimal_string(line as u64).as_str());
    text.append("] Error");
    text.append(location);
    text.append(": ");
    text.append(message);
    text
}

/// The line that reports a static error that has no location.
pub fn error(line: usize, message: &str) -> (text: String)
    ensures
        text@ == report_text(line, Seq::empty(), message@),
{
    let text = report(line, "", message);
    proof {
        reveal_strlit("");
        assert(""@ =~= Seq::<char>::empty());
    }
    text
}

/// The line that reports a static error at a token.
pub fn error_at(token: &Token, message: &Soo) -> (text: String)
    ensures
        text@ == report_text(token.line, location_text(token@), message@),
{
    let location = if token.typ == TokenType::Eof {
        String::from_str(" at end")
    } else {
        let mut location = String::from_str(" at '");
        location.append(token.lexeme.as_str());
        location.append("'");
        location
    };
    let message = message.to_string();
    report(token.line, location.as_str(), message.as_str())
}

/// The two lines that report a runtime error.
pub fn runtime_error(line: usize, message: &Soo) -> (text: String)
    ensures
        text@ == runtime_error_text(line, message@),
{
    let mut text = message.to_string();
    text.append("\n[line ");
    text.append(decimal_string(line as u64).as_str());
    text.append("]");
    text
}

} // verus!
