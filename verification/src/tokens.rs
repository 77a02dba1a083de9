//! The token vocabulary of directive lines, and the classification of a
//! single word into a token.

use vstd::prelude::*;

verus! {

/// A directive keyword.
#[derive(Debug, Clone, Copy, PartialEq, Eq, Structural)]
pub enum CommandType {
    Include,
    Define,
    UnDefine,
    IfDef,
    IfNotDef,
    Endif,
    Error,
    Warn,
}

/// A separator. Part of the token vocabulary, though no directive uses it.
#[derive(Debug, Clone, Copy, PartialEq, Eq, Structural)]
pub enum SeparatorType {
    Colon,
}

/// A literal argument of a directive: a bare name or a quoted string.
#[derive(Debug, Clone)]
pub enum LiteralType {
    NameLiteral(String),
    StringLiteral(String),
}

/// One token of a line.
#[derive(Debug, Clone)]
pub enum Token {
    Command(CommandType),
    Literal(LiteralType),
    Separator(SeparatorType),
    OtherCode(String),
}

/// The mathematical value of a [`Token`].
#[verifier::ext_equal]
pub enum GToken {
    Command(CommandType),
    Name(Seq<char>),
    StrLit(Seq<char>),
    Separator(SeparatorType),
    Other(Seq<char>),
}

/// The view of a token.
pub open spec fn token_view(t: Token) -> GToken {
    match t {
        Token::Command(c) => GToken::Command(c),
        Token::Literal(LiteralType::NameLiteral(s)) => GToken::Name(s@),
        Token::Literal(LiteralType::StringLiteral(s)) => GToken::StrLit(s@),
        Token::Separator(s) => GToken::Separator(s),
        Token::OtherCode(s) => GToken::Other(s@),
    }
}

/// The view of a token sequence.
pub open spec fn seq_token_view(v: Seq<Token>) -> Seq<GToken> {
    v.map_values(|t: Token| token_view(t))
}

/// The keyword of the file-splicing directive.
pub open spec fn kw_import() -> Seq<char> {
    seq!['i', 'n', 'c', 'l', 'u', 'd', 'e']
}

/// Whether a word is the keyword of the file-splicing directive.
fn is_import_kw(w: &str) -> (r: bool)
    ensures
        r == (w@ == kw_import()),
{
    let len: usize = w.unicode_len();
    if len != 7 {
        return false;
    }
    let r = w.get_char(0) == 'i' && w.get_char(1) == 'n' && w.get_char(2) == 'c' && w.get_char(3)
        == 'l' && w.get_char(4) == 'u' && w.get_char(5) == 'd' && w.get_char(6) == 'e';
    proof {
        if r {
            assert(w@ =~= kw_import());
        } else {
            assert(w@ != kw_import());
        }
    }
    r
}

/// The token a single directive-mode word stands for: a keyword gives its
/// command, any other word a bare name.
pub open spec fn spec_classify(w: Seq<char>) -> GToken {
    if w == kw_import() {
        GToken::Command(CommandType::Include)
    } else if w == "define"@ {
        GToken::Command(CommandType::Define)
    } else if w == "undef"@ {
        GToken::Command(CommandType::UnDefine)
    } else if w == "ifdef"@ {
        GToken::Command(CommandType::IfDef)
    } else if w == "ifndef"@ {
        GToken::Command(CommandType::IfNotDef)
    } else if w == "endif"@ {
        GToken::Command(CommandType::Endif)
    } else if w == "error"@ {
        GToken::Command(CommandType::Error)
    } else if w == "warn"@ {
        GToken::Command(CommandType::Warn)
    } else {
        GToken::Name(w)
    }
}

/// Classifies a directive-mode word into its token.
pub fn classify_word(w: &str) -> (t: Token)
    ensures
        token_view(t) == spec_classify(w@),
{
    if is_import_kw(w) {
        Token::Command(CommandType::Include)
    } else if crate::text::str_eq_str(w, "define") {
        Token::Command(CommandType::Define)
    } else if crate::text::str_eq_str(w, "undef") {
        Token::Command(CommandType::UnDefine)
    } else if crate::text::str_eq_str(w, "ifdef") {
        Token::Command(CommandType::IfDef)
    } else if crate::text::str_eq_str(w, "ifndef") {
        Token::Command(CommandType::IfNotDef)
    } else if crate::text::str_eq_str(w, "endif") {
        Token::Command(CommandType::Endif)
    } else if crate::text::str_eq_str(w, "error") {
        Token::Command(CommandType::Error)
    } else if crate::text::str_eq_str(w, "warn") {
        Token::Command(CommandType::Warn)
    } else {
        Token::Literal(LiteralType::NameLiteral(String::from_str(w)))
    }
}

} // verus!
