//! The meta tokenizer: lexes host-language-like source text, one token at a
//! time, with a push-back buffer so a consumer can un-consume a token.
//!
//! Comments are discarded.  Identifiers are ASCII; a fixed keyword set is
//! recognized.  Double-quoted strings keep their backslash escapes verbatim.
//! A single quote is disambiguated by lookahead into a character literal, a
//! backslash-escaped one-character string, or a lifetime marker.  End of
//! input yields exactly one end-of-stream token, after which the lexer
//! produces nothing further.

use vstd::prelude::*;
use crate::chars::{
    char_is_alnum, char_is_ascii_alnum, char_is_ascii_alpha, char_is_ascii_digit,
    char_is_ascii_ws, chars_string, is_ascii_alnum, is_ascii_alpha, is_ascii_digit, is_ascii_ws,
    push_char, str_chars, unicode_alnum,
};
use crate::strutil::first_at_from;
use crate::xml_lexer::{digits_val, lemma_digits_val_nonneg, lemma_digits_val_prefix};
use crate::meta_token::{Keyword, Literal, MLitV, MTokV, Token, keyword_of, lookup_keyword};

verus! {

/// A lexical error in meta source text.
#[derive(Debug, PartialEq, Clone)]
pub enum MetaLexError {
    /// A character no token can start with.
    InvalidChar(char),
    /// A string literal with no closing quote.
    UnterminatedString,
    /// A block comment with no closing delimiter.
    UnterminatedComment,
    /// The input ended inside a quoted form.
    UnexpectedEof,
    /// An integer literal too large to represent; carries its digits.
    IntOutOfRange(String),
    /// A single-quoted form that is neither a character literal, an escaped
    /// one-character string, nor a lifetime.
    MalformedCharLiteral,
}

/// The mathematical image of a [`MetaLexError`].
pub ghost enum MErrV {
    InvalidChar(char),
    UnterminatedString,
    UnterminatedComment,
    UnexpectedEof,
    IntOutOfRange(Seq<char>),
    MalformedCharLiteral,
}

impl View for MetaLexError {
    type V = MErrV;

    open spec fn view(&self) -> MErrV {
        match self {
            MetaLexError::InvalidChar(c) => MErrV::InvalidChar(*c),
            MetaLexError::UnterminatedString => MErrV::UnterminatedString,
            MetaLexError::UnterminatedComment => MErrV::UnterminatedComment,
            MetaLexError::UnexpectedEof => MErrV::UnexpectedEof,
            MetaLexError::IntOutOfRange(s) => MErrV::IntOutOfRange(s@),
            MetaLexError::MalformedCharLiteral => MErrV::MalformedCharLiteral,
        }
    }
}

/// One step of the meta lexer: the next token and the position after it, or
/// a lexical error.
pub ghost enum MStep {
    Tok { t: MTokV, j: int },
    Fail { e: MErrV },
}

/// End of an ASCII identifier run.
pub open spec fn m_ident_end(s: Seq<char>, i: int) -> int
    decreases s.len() - i,
{
    if i < 0 || i >= s.len() {
        s.len() as int
    } else if is_ascii_alnum(s[i]) || s[i] == '_' {
        m_ident_end(s, i + 1)
    } else {
        i
    }
}

/// End of an ASCII digit run.
pub open spec fn m_digits_end(s: Seq<char>, i: int) -> int
    decreases s.len() - i,
{
    if i < 0 || i >= s.len() {
        s.len() as int
    } else if is_ascii_digit(s[i]) {
        m_digits_end(s, i + 1)
    } else {
        i
    }
}

/// End of a lifetime's identifier-like run (alphanumerics and underscores).
pub open spec fn lt_end(s: Seq<char>, i: int) -> int
    decreases s.len() - i,
{
    if i < 0 || i >= s.len() {
        s.len() as int
    } else if unicode_alnum(s[i]) || s[i] == '_' {
        lt_end(s, i + 1)
    } else {
        i
    }
}

/// The position of the `*` of the first closing `*/` at or after `k`, or the
/// input's length when the comment never closes.
pub open spec fn block_end(s: Seq<char>, k: int) -> int
    decreases s.len() - k,
{
    if k < 0 || k + 1 >= s.len() {
        s.len() as int
    } else if s[k] == '*' && s[k + 1] == '/' {
        k
    } else {
        block_end(s, k + 1)
    }
}

/// Clamps an index into `[lo, hi]`.
pub open spec fn m_clamp(j: int, lo: int, hi: int) -> int {
    if j < lo {
        lo
    } else if j > hi {
        hi
    } else {
        j
    }
}

/// A string literal in progress: scanning at `k` with `acc` accumulated.  A
/// backslash keeps itself and the next character verbatim.
pub open spec fn m_string(s: Seq<char>, k: int, acc: Seq<char>) -> MStep
    decreases s.len() - k,
{
    if k < 0 || k >= s.len() {
        MStep::Fail { e: MErrV::UnterminatedString }
    } else if s[k] == '"' {
        MStep::Tok { t: MTokV::Literal(MLitV::Str(acc)), j: k + 1 }
    } else if s[k] == '\\' {
        if k + 1 >= s.len() {
            MStep::Fail { e: MErrV::UnterminatedString }
        } else {
            m_string(s, k + 2, acc + seq![s[k], s[k + 1]])
        }
    } else {
        m_string(s, k + 1, acc.push(s[k]))
    }
}

/// An identifier or keyword starting at `i`.
pub open spec fn m_word(s: Seq<char>, i: int) -> MStep {
    let j: int = m_clamp(m_ident_end(s, i + 1), i + 1, s.len() as int);
    let w = s.subrange(i, j);
    match keyword_of(w) {
        Some(k) => MStep::Tok { t: MTokV::Keyword(k), j },
        None => MStep::Tok { t: MTokV::Ident(w), j },
    }
}

/// A numeric literal starting at the digit at `i`: a digit run, promoted to
/// a decimal kept as text when a dot follows.
pub open spec fn m_number(s: Seq<char>, i: int) -> MStep {
    let j: int = m_clamp(m_digits_end(s, i + 1), i + 1, s.len() as int);
    if j < s.len() && s[j] == '.' {
        let k: int = m_clamp(m_digits_end(s, j + 1), j + 1, s.len() as int);
        MStep::Tok { t: MTokV::Literal(MLitV::Float(s.subrange(i, k))), j: k }
    } else {
        let t = s.subrange(i, j);
        if digits_val(t) > i64::MAX as int {
            MStep::Fail { e: MErrV::IntOutOfRange(t) }
        } else {
            MStep::Tok { t: MTokV::Literal(MLitV::Int(digits_val(t) as i64)), j }
        }
    }
}

/// A single-quoted form at `i`: a character literal, a backslash-escaped
/// one-character string, or a lifetime marker.
pub open spec fn m_quote(s: Seq<char>, i: int) -> MStep {
    if i + 1 >= s.len() {
        MStep::Fail { e: MErrV::UnexpectedEof }
    } else {
        let c2 = s[i + 1];
        if c2 == '\\' {
            if i + 3 >= s.len() {
                MStep::Fail { e: MErrV::UnexpectedEof }
            } else if s[i + 3] == '\'' {
                MStep::Tok { t: MTokV::Literal(MLitV::Str(seq!['\\', s[i + 2]])), j: i + 4 }
            } else {
                MStep::Fail { e: MErrV::MalformedCharLiteral }
            }
        } else if i + 2 < s.len() && s[i + 2] == '\'' {
            MStep::Tok { t: MTokV::Literal(MLitV::Char(c2)), j: i + 3 }
        } else {
            let j: int = m_clamp(lt_end(s, i + 2), i + 2, s.len() as int);
            MStep::Tok { t: MTokV::Lifetime(seq![c2] + s.subrange(i + 2, j)), j }
        }
    }
}

/// The meta lexer's next token from position `i`: whitespace and comments
/// are skipped, the end of input yields the end-of-stream token.
pub open spec fn m_step(s: Seq<char>, i: int) -> MStep
    decreases s.len() - i,
{
    if i < 0 || i >= s.len() {
        MStep::Tok { t: MTokV::EOF, j: if i < 0 { 0 } else { i } }
    } else {
        let c = s[i];
        if is_ascii_ws(c) {
            m_step(s, i + 1)
        } else if c == '/' {
            if i + 1 < s.len() && s[i + 1] == '/' {
                let k: int = m_clamp(first_at_from(s, i + 2, '\n'), i + 2, s.len() as int);
                m_step(s, k)
            } else if i + 1 < s.len() && s[i + 1] == '*' {
                let j: int = m_clamp(block_end(s, i + 2), i + 2, s.len() as int);
                if j >= s.len() {
                    MStep::Fail { e: MErrV::UnterminatedComment }
                } else {
                    let j2: int = if j + 2 > s.len() { s.len() as int } else { j + 2 };
                    m_step(s, j2)
                }
            } else if i + 1 < s.len() && s[i + 1] == '=' {
                MStep::Tok { t: MTokV::OperatorAssign(crate::meta_token::Operator::Divide), j: i + 2 }
            } else {
                MStep::Tok { t: MTokV::Operator(crate::meta_token::Operator::Divide), j: i + 1 }
            }
        } else if c == '#' {
            MStep::Tok { t: MTokV::Hash, j: i + 1 }
        } else if c == '*' {
            if i + 1 < s.len() && s[i + 1] == '=' {
                MStep::Tok { t: MTokV::OperatorAssign(crate::meta_token::Operator::Multiply), j: i + 2 }
            } else {
                MStep::Tok { t: MTokV::Operator(crate::meta_token::Operator::Multiply), j: i + 1 }
            }
        } else if c == '+' {
            if i + 1 < s.len() && s[i + 1] == '=' {
                MStep::Tok { t: MTokV::OperatorAssign(crate::meta_token::Operator::Plus), j: i + 2 }
            } else {
                MStep::Tok { t: MTokV::Operator(crate::meta_token::Operator::Plus), j: i + 1 }
            }
        } else if c == '-' {
            if i + 1 < s.len() && s[i + 1] == '=' {
                MStep::Tok { t: MTokV::OperatorAssign(crate::meta_token::Operator::Minus), j: i + 2 }
            } else if i + 1 < s.len() && s[i + 1] == '>' {
                MStep::Tok { t: MTokV::Arrow, j: i + 2 }
            } else {
                MStep::Tok { t: MTokV::Operator(crate::meta_token::Operator::Minus), j: i + 1 }
            }
        } else if c == '%' {
            if i + 1 < s.len() && s[i + 1] == '=' {
                MStep::Tok { t: MTokV::OperatorAssign(crate::meta_token::Operator::Modulo), j: i + 2 }
            } else {
                MStep::Tok { t: MTokV::Operator(crate::meta_token::Operator::Modulo), j: i + 1 }
            }
        } else if c == '=' {
            if i + 1 < s.len() && s[i + 1] == '=' {
                MStep::Tok { t: MTokV::Operator(crate::meta_token::Operator::Eq), j: i + 2 }
            } else {
                MStep::Tok { t: MTokV::Assign, j: i + 1 }
            }
        } else if c == '!' {
            if i + 1 < s.len() && s[i + 1] == '=' {
                MStep::Tok { t: MTokV::Operator(crate::meta_token::Operator::NotEq), j: i + 2 }
            } else {
                MStep::Tok { t: MTokV::Operator(crate::meta_token::Operator::Not), j: i + 1 }
            }
        } else if c == '<' {
            if i + 1 < s.len() && s[i + 1] == '<' {
                if i + 2 < s.len() && s[i + 2] == '=' {
                    MStep::Tok { t: MTokV::OperatorAssign(crate::meta_token::Operator::Lsh), j: i + 3 }
                } else {
                    MStep::Tok { t: MTokV::Operator(crate::meta_token::Operator::Lsh), j: i + 2 }
                }
            } else if i + 1 < s.len() && s[i + 1] == '=' {
                MStep::Tok { t: MTokV::Operator(crate::meta_token::Operator::LessEq), j: i + 2 }
            } else {
                MStep::Tok { t: MTokV::Operator(crate::meta_token::Operator::Less), j: i + 1 }
            }
        } else if c == '>' {
            if i + 1 < s.len() && s[i + 1] == '>' {
                if i + 2 < s.len() && s[i + 2] == '>' {
                    if i + 3 < s.len() && s[i + 3] == '=' {
                        MStep::Tok { t: MTokV::OperatorAssign(crate::meta_token::Operator::ARsh), j: i + 4 }
                    } else {
                        MStep::Tok { t: MTokV::Operator(crate::meta_token::Operator::ARsh), j: i + 3 }
                    }
                } else if i + 2 < s.len() && s[i + 2] == '=' {
                    MStep::Tok { t: MTokV::OperatorAssign(crate::meta_token::Operator::Rsh), j: i + 3 }
                } else {
                    MStep::Tok { t: MTokV::Operator(crate::meta_token::Operator::Rsh), j: i + 2 }
                }
            } else if i + 1 < s.len() && s[i + 1] == '=' {
                MStep::Tok { t: MTokV::Operator(crate::meta_token::Operator::GreaterEq), j: i + 2 }
            } else {
                MStep::Tok { t: MTokV::Operator(crate::meta_token::Operator::Greater), j: i + 1 }
            }
        } else if c == ',' {
            MStep::Tok { t: MTokV::Comma, j: i + 1 }
        } else if c == ';' {
            MStep::Tok { t: MTokV::Semicolon, j: i + 1 }
        } else if c == ':' {
            if i + 1 < s.len() && s[i + 1] == ':' {
                MStep::Tok { t: MTokV::DColon, j: i + 2 }
            } else {
                MStep::Tok { t: MTokV::Colon, j: i + 1 }
            }
        } else if c == '?' {
            MStep::Tok { t: MTokV::QMark, j: i + 1 }
        } else if c == '.' {
            MStep::Tok { t: MTokV::Dot, j: i + 1 }
        } else if c == '(' {
            MStep::Tok { t: MTokV::LParen, j: i + 1 }
        } else if c == ')' {
            MStep::Tok { t: MTokV::RParen, j: i + 1 }
        } else if c == '[' {
            MStep::Tok { t: MTokV::LBracket, j: i + 1 }
        } else if c == ']' {
            MStep::Tok { t: MTokV::RBracket, j: i + 1 }
        } else if c == '{' {
            MStep::Tok { t: MTokV::LBrace, j: i + 1 }
        } else if c == '}' {
            MStep::Tok { t: MTokV::RBrace, j: i + 1 }
        } else if c == '$' {
            MStep::Tok { t: MTokV::Dollar, j: i + 1 }
        } else if c == '&' {
            if i + 1 < s.len() && s[i + 1] == '&' {
                MStep::Tok { t: MTokV::Operator(crate::meta_token::Operator::LAnd), j: i + 2 }
            } else if i + 1 < s.len() && s[i + 1] == '=' {
                MStep::Tok { t: MTokV::OperatorAssign(crate::meta_token::Operator::BAnd), j: i + 2 }
            } else {
                MStep::Tok { t: MTokV::Operator(crate::meta_token::Operator::BAnd), j: i + 1 }
            }
        } else if c == '|' {
            if i + 1 < s.len() && s[i + 1] == '|' {
                MStep::Tok { t: MTokV::Operator(crate::meta_token::Operator::LOr), j: i + 2 }
            } else if i + 1 < s.len() && s[i + 1] == '=' {
                MStep::Tok { t: MTokV::OperatorAssign(crate::meta_token::Operator::BOr), j: i + 2 }
            } else {
                MStep::Tok { t: MTokV::Operator(crate::meta_token::Operator::BOr), j: i + 1 }
            }
        } else if c == '^' {
            if i + 1 < s.len() && s[i + 1] == '=' {
                MStep::Tok { t: MTokV::OperatorAssign(crate::meta_token::Operator::BXor), j: i + 2 }
            } else {
                MStep::Tok { t: MTokV::Operator(crate::meta_token::Operator::BXor), j: i + 1 }
            }
        } else if is_ascii_alpha(c) || c == '_' {
            m_word(s, i)
        } else if is_ascii_digit(c) {
            m_number(s, i)
        } else if c == '"' {
            m_string(s, i + 1, Seq::empty())
        } else if c == '\'' {
            m_quote(s, i)
        } else {
            MStep::Fail { e: MErrV::InvalidChar(c) }
        }
    }
}

/// The views of a meta token sequence.
pub open spec fn m_toks_view(ts: Seq<Token>) -> Seq<MTokV> {
    ts.map_values(|t: Token| t@)
}

/// The meta lexer over one text, with its cursor, push-back stack, and
/// whether the end-of-stream token has been delivered.
pub struct Lexer {
    input: Vec<char>,
    pos: usize,
    revert: Vec<Token>,
    done: bool,
}

/// The mathematical image of a [`Lexer`].
pub ghost struct LexerV {
    pub input: Seq<char>,
    pub pos: int,
    pub revert: Seq<MTokV>,
    pub done: bool,
}

impl View for Lexer {
    type V = LexerV;

    closed spec fn view(&self) -> LexerV {
        LexerV {
            input: self.input@,
            pos: self.pos as int,
            revert: m_toks_view(self.revert@),
            done: self.done,
        }
    }
}

impl Lexer {
    /// A fresh lexer over the given text.
    pub fn new(code: String) -> (r: Lexer)
        ensures
            r@.input == code@,
            r@.pos == 0,
            r@.revert == Seq::<MTokV>::empty(),
            r@.done == false,
    {
        let input = str_chars(code.as_str());
        let r = Lexer { input, pos: 0, revert: Vec::new(), done: false };
        proof {
            assert(r@.revert =~= Seq::<MTokV>::empty());
        }
        r
    }

    /// Pushes a token back; the next call to `next` returns it again.
    pub fn revert(&mut self, token: Token)
        ensures
            final(self)@.input == old(self)@.input,
            final(self)@.pos == old(self)@.pos,
            final(self)@.done == old(self)@.done,
            final(self)@.revert == old(self)@.revert.push(token@),
    {
        let ghost tv = token@;
        self.revert.push(token);
        proof {
            assert(m_toks_view(self.revert@) =~= m_toks_view(old(self).revert@).push(tv));
        }
    }

    /// The next token.  A pushed-back token comes first; then tokens are
    /// lexed from the cursor; the end of input yields one end-of-stream
    /// token and `None` afterwards.  A lexical error is fatal.
    #[verifier::loop_isolation(false)]
    #[verifier::rlimit(100)]
    pub fn next(&mut self) -> (r: Result<Option<Token>, MetaLexError>)
        ensures
            final(self)@.input == old(self)@.input,
            old(self)@.revert.len() > 0 ==> (match r {
                Ok(Some(tok)) => tok@ == old(self)@.revert.last() && final(self)@.revert == old(self)@.revert.drop_last() && final(self)@.pos == old(self)@.pos && final(self)@.done
                    == old(self)@.done,
                _ => false,
            }),
            (old(self)@.revert.len() == 0 && old(self)@.done) ==> (r matches Ok(None) && final(self)@ == old(self)@),
            (old(self)@.revert.len() == 0 && !old(self)@.done) ==> (match m_step(
                old(self)@.input,
                old(self)@.pos,
            ) {
                MStep::Tok { t, j } => (match r {
                    Ok(Some(tok)) => tok@ == t && final(self)@.pos == j && final(self)@.revert
                        == old(self)@.revert && final(self)@.done == (t is EOF),
                    _ => false,
                }),
                MStep::Fail { e } => (match r {
                    Err(err) => err@ == e,
                    _ => false,
                }),
            }),
        decreases old(self)@.input.len() - old(self)@.pos,
    {
        if self.revert.len() > 0 {
            let ghost rv = m_toks_view(self.revert@);
            let t = self.revert.pop();
            match t {
                Some(tok) => {
                    proof {
                        assert(m_toks_view(self.revert@) =~= rv.drop_last());
                        assert(tok@ == rv.last());
                    }
                    return Ok(Some(tok));
                },
                None => {
                    proof {
                        assert(false);
                    }
                    return unreached();
                },
            }
        }
        if self.done {
            return Ok(None);
        }
        let ghost s = self.input@;
        let ghost p0: int = self.pos as int;
        let n: usize = self.input.len();
        // skip ASCII whitespace
        while self.pos < n && char_is_ascii_ws(self.input[self.pos])
            invariant
                self.input@ == s,
                n == s.len(),
                p0 <= self.pos as int,
                self.revert@ == old(self).revert@,
                self.done == old(self).done,
                m_step(s, p0) == m_step(s, self.pos as int),
            decreases n - self.pos,
        {
            self.pos = self.pos + 1;
        }
        if self.pos >= n {
            self.done = true;
            proof {
                assert(m_toks_view(self.revert@).len() == 0);
            }
            return Ok(Some(Token::EOF));
        }
        let i = self.pos;
        let c = self.input[i];
        if c == '/' {
            if i + 1 < n && self.input[i + 1] == '/' {
                // line comment: skip to the end of the line, then continue
                let mut k: usize = i + 2;
                while k < n && self.input[k] != '\n'
                    invariant
                        self.input@ == s,
                        n == s.len(),
                        i + 2 <= k <= n,
                        first_at_from(s, i as int + 2, '\n') == first_at_from(s, k as int, '\n'),
                    decreases n - k,
                {
                    k = k + 1;
                }
                proof {
                    assert(first_at_from(s, i as int + 2, '\n') == k as int);
                }
                self.pos = k;
                return self.next();
            }
            if i + 1 < n && self.input[i + 1] == '*' {
                // block comment: skip past the closing delimiter
                let mut j: usize = i + 2;
                while j < n - 1 && !(self.input[j] == '*' && self.input[j + 1] == '/')
                    invariant
                        self.input@ == s,
                        n == s.len(),
                        i + 2 <= j <= n,
                        block_end(s, i as int + 2) == block_end(s, j as int),
                    decreases n - j,
                {
                    j = j + 1;
                }
                if j >= n - 1 {
                    proof {
                        assert(block_end(s, j as int) == n);
                    }
                    return Err(MetaLexError::UnterminatedComment);
                }
                proof {
                    assert(block_end(s, j as int) == j as int);
                }
                self.pos = j + 2;
                return self.next();
            }
            if i + 1 < n && self.input[i + 1] == '=' {
                self.pos = i + 2;
                return Ok(
                    Some(Token::OperatorAssign(crate::meta_token::Operator::Divide)),
                );
            }
            self.pos = i + 1;
            return Ok(Some(Token::Operator(crate::meta_token::Operator::Divide)));
        }
        match scan_token(&self.input, i) {
            Ok((tok, j)) => {
                self.pos = j;
                return Ok(Some(tok));
            },
            Err(e) => {
                return Err(e);
            },
        }
    }
}

/// One token at a dispatch position: not whitespace, not a comment, not the
/// end of the input.  Returns the token and the position after it.
#[verifier::loop_isolation(false)]
#[verifier::rlimit(60)]
fn scan_token(v: &Vec<char>, i: usize) -> (r: Result<(Token, usize), MetaLexError>)
    requires
        i < v@.len(),
        !is_ascii_ws(v@[i as int]),
        v@[i as int] != '/',
    ensures
        match r {
            Ok((tok, j)) => i < j <= v@.len() && m_step(v@, i as int) == (MStep::Tok {
                t: tok@,
                j: j as int,
            }) && !(tok@ is EOF),
            Err(e) => m_step(v@, i as int) == (MStep::Fail { e: e@ }),
        },
{
    let ghost s = v@;
    let n: usize = v.len();
    let c = v[i];
        if c == '#' {
                        return Ok((Token::Hash, i + 1));
        }
        if c == '*' {
            if i + 1 < n && v[i + 1] == '=' {
                                return Ok((Token::OperatorAssign(crate::meta_token::Operator::Multiply), i + 2));
            }
                        return Ok((Token::Operator(crate::meta_token::Operator::Multiply), i + 1));
        }
        if c == '+' {
            if i + 1 < n && v[i + 1] == '=' {
                                return Ok((Token::OperatorAssign(crate::meta_token::Operator::Plus), i + 2));
            }
                        return Ok((Token::Operator(crate::meta_token::Operator::Plus), i + 1));
        }
        if c == '-' {
            if i + 1 < n && v[i + 1] == '=' {
                                return Ok((Token::OperatorAssign(crate::meta_token::Operator::Minus), i + 2));
            }
            if i + 1 < n && v[i + 1] == '>' {
                                return Ok((Token::Arrow, i + 2));
            }
                        return Ok((Token::Operator(crate::meta_token::Operator::Minus), i + 1));
        }
        if c == '%' {
            if i + 1 < n && v[i + 1] == '=' {
                                return Ok((Token::OperatorAssign(crate::meta_token::Operator::Modulo), i + 2));
            }
                        return Ok((Token::Operator(crate::meta_token::Operator::Modulo), i + 1));
        }
        if c == '=' {
            if i + 1 < n && v[i + 1] == '=' {
                                return Ok((Token::Operator(crate::meta_token::Operator::Eq), i + 2));
            }
                        return Ok((Token::Assign, i + 1));
        }
        if c == '!' {
            if i + 1 < n && v[i + 1] == '=' {
                                return Ok((Token::Operator(crate::meta_token::Operator::NotEq), i + 2));
            }
                        return Ok((Token::Operator(crate::meta_token::Operator::Not), i + 1));
        }
        if c == '<' {
            if i + 1 < n && v[i + 1] == '<' {
                if i + 2 < n && v[i + 2] == '=' {
                                        return Ok((Token::OperatorAssign(crate::meta_token::Operator::Lsh), i + 3));
                }
                                return Ok((Token::Operator(crate::meta_token::Operator::Lsh), i + 2));
            }
            if i + 1 < n && v[i + 1] == '=' {
                                return Ok((Token::Operator(crate::meta_token::Operator::LessEq), i + 2));
            }
                        return Ok((Token::Operator(crate::meta_token::Operator::Less), i + 1));
        }
        if c == '>' {
            if i + 1 < n && v[i + 1] == '>' {
                if i + 2 < n && v[i + 2] == '>' {
                    if i + 3 < n && v[i + 3] == '=' {
                                                return Ok((Token::OperatorAssign(crate::meta_token::Operator::ARsh), i + 4));
                    }
                                        return Ok((Token::Operator(crate::meta_token::Operator::ARsh), i + 3));
                }
                if i + 2 < n && v[i + 2] == '=' {
                                        return Ok((Token::OperatorAssign(crate::meta_token::Operator::Rsh), i + 3));
                }
                                return Ok((Token::Operator(crate::meta_token::Operator::Rsh), i + 2));
            }
            if i + 1 < n && v[i + 1] == '=' {
                                return Ok((Token::Operator(crate::meta_token::Operator::GreaterEq), i + 2));
            }
                        return Ok((Token::Operator(crate::meta_token::Operator::Greater), i + 1));
        }
        if c == ',' {
                        return Ok((Token::Comma, i + 1));
        }
        if c == ';' {
                        return Ok((Token::Semicolon, i + 1));
        }
        if c == ':' {
            if i + 1 < n && v[i + 1] == ':' {
                                return Ok((Token::DColon, i + 2));
            }
                        return Ok((Token::Colon, i + 1));
        }
        if c == '?' {
                        return Ok((Token::QMark, i + 1));
        }
        if c == '.' {
                        return Ok((Token::Dot, i + 1));
        }
        if c == '(' {
                        return Ok((Token::LParen, i + 1));
        }
        if c == ')' {
                        return Ok((Token::RParen, i + 1));
        }
        if c == '[' {
                        return Ok((Token::LBracket, i + 1));
        }
        if c == ']' {
                        return Ok((Token::RBracket, i + 1));
        }
        if c == '{' {
                        return Ok((Token::LBrace, i + 1));
        }
        if c == '}' {
                        return Ok((Token::RBrace, i + 1));
        }
        if c == '$' {
                        return Ok((Token::Dollar, i + 1));
        }
        if c == '&' {
            if i + 1 < n && v[i + 1] == '&' {
                                return Ok((Token::Operator(crate::meta_token::Operator::LAnd), i + 2));
            }
            if i + 1 < n && v[i + 1] == '=' {
                                return Ok((Token::OperatorAssign(crate::meta_token::Operator::BAnd), i + 2));
            }
                        return Ok((Token::Operator(crate::meta_token::Operator::BAnd), i + 1));
        }
        if c == '|' {
            if i + 1 < n && v[i + 1] == '|' {
                                return Ok((Token::Operator(crate::meta_token::Operator::LOr), i + 2));
            }
            if i + 1 < n && v[i + 1] == '=' {
                                return Ok((Token::OperatorAssign(crate::meta_token::Operator::BOr), i + 2));
            }
                        return Ok((Token::Operator(crate::meta_token::Operator::BOr), i + 1));
        }
        if c == '^' {
            if i + 1 < n && v[i + 1] == '=' {
                                return Ok((Token::OperatorAssign(crate::meta_token::Operator::BXor), i + 2));
            }
                        return Ok((Token::Operator(crate::meta_token::Operator::BXor), i + 1));
        }
    if char_is_ascii_alpha(c) || c == '_' {
        let (tok, j) = scan_word(v, i);
        return Ok((tok, j));
    }
    if char_is_ascii_digit(c) {
        return scan_number(v, i);
    }
    if c == '"' {
        return scan_string(v, i);
    }
    if c == '\'' {
        return scan_quote(v, i);
    }
    Err(MetaLexError::InvalidChar(c))
}

/// An identifier or keyword, mirroring [`m_word`].
#[verifier::loop_isolation(false)]
fn scan_word(v: &Vec<char>, i: usize) -> (r: (Token, usize))
    requires
        i < v@.len(),
        is_ascii_alpha(v@[i as int]) || v@[i as int] == '_',
    ensures
        i < r.1 <= v@.len(),
        m_word(v@, i as int) == (MStep::Tok { t: r.0@, j: r.1 as int }),
        !(r.0@ is EOF),
{
    let ghost s = v@;
    let n: usize = v.len();
    let mut j: usize = i + 1;
    while j < n && (char_is_ascii_alnum(v[j]) || v[j] == '_')
        invariant
            i + 1 <= j <= n,
            m_ident_end(s, i as int + 1) == m_ident_end(s, j as int),
        decreases n - j,
    {
        j = j + 1;
    }
    proof {
        assert(m_ident_end(s, i as int + 1) == j as int);
    }
    let word = chars_string(v, i, j);
    match lookup_keyword(word.as_str()) {
        Some(k) => (Token::Keyword(k), j),
        None => (Token::Ident(word), j),
    }
}

/// A numeric literal, mirroring [`m_number`].
#[verifier::loop_isolation(false)]
fn scan_number(v: &Vec<char>, i: usize) -> (r: Result<(Token, usize), MetaLexError>)
    requires
        i < v@.len(),
        is_ascii_digit(v@[i as int]),
    ensures
        match r {
            Ok((tok, j)) => i < j <= v@.len() && m_number(v@, i as int) == (MStep::Tok {
                t: tok@,
                j: j as int,
            }) && !(tok@ is EOF),
            Err(e) => m_number(v@, i as int) == (MStep::Fail { e: e@ }),
        },
{
    let ghost s = v@;
    let n: usize = v.len();
    let mut j: usize = i + 1;
    while j < n && char_is_ascii_digit(v[j])
        invariant
            i + 1 <= j <= n,
            m_digits_end(s, i as int + 1) == m_digits_end(s, j as int),
            forall|x: int| i < x < j ==> is_ascii_digit(s[x]),
        decreases n - j,
    {
        j = j + 1;
    }
    proof {
        assert(m_digits_end(s, i as int + 1) == j as int);
    }
    if j < n && v[j] == '.' {
        let mut k: usize = j + 1;
        while k < n && char_is_ascii_digit(v[k])
            invariant
                j + 1 <= k <= n,
                m_digits_end(s, j as int + 1) == m_digits_end(s, k as int),
            decreases n - k,
        {
            k = k + 1;
        }
        proof {
            assert(m_digits_end(s, j as int + 1) == k as int);
        }
        let text = chars_string(v, i, k);
        return Ok((Token::Literal(Literal::Float(text)), k));
    }
    // accumulate the value, failing once it exceeds the largest integer
    let ghost t = s.subrange(i as int, j as int);
    proof {
        assert(forall|x: int| 0 <= x < t.len() ==> is_ascii_digit(t[x]));
    }
    let mut val: u128 = 0;
    let mut x: usize = i;
    proof {
        assert(t.subrange(0, 0) =~= Seq::<char>::empty());
    }
    while x < j
        invariant
            i <= x <= j <= n,
            val == digits_val(t.subrange(0, x - i)),
            val <= i64::MAX as u128,
        decreases j - x,
    {
        let ghost sofar = t.subrange(0, x - i);
        let ch = v[x];
        proof {
            assert(t[x - i] == s[x as int]);
        }
        let d: u128 = (ch as u32 as u128) - 48;
        let next: u128 = val * 10 + d;
        x = x + 1;
        proof {
            let now = t.subrange(0, x - i);
            assert(now.drop_last() =~= sofar);
            assert(now.last() == ch);
        }
        if next > i64::MAX as u128 {
            proof {
                lemma_digits_val_prefix(t, x - i);
            }
            return Err(MetaLexError::IntOutOfRange(chars_string(v, i, j)));
        }
        val = next;
    }
    proof {
        assert(t.subrange(0, j - i) =~= t);
        lemma_digits_val_nonneg(t);
    }
    Ok((Token::Literal(Literal::Int(val as i64)), j))
}

/// A string literal, mirroring [`m_string`]: backslash escapes are kept
/// verbatim.
#[verifier::loop_isolation(false)]
fn scan_string(v: &Vec<char>, i: usize) -> (r: Result<(Token, usize), MetaLexError>)
    requires
        i < v@.len(),
        v@[i as int] == '"',
    ensures
        match r {
            Ok((tok, j)) => i < j <= v@.len() && m_string(v@, i as int + 1, Seq::empty())
                == (MStep::Tok { t: tok@, j: j as int }) && !(tok@ is EOF),
            Err(e) => m_string(v@, i as int + 1, Seq::empty()) == (MStep::Fail { e: e@ }),
        },
{
    let ghost s = v@;
    let n: usize = v.len();
    let mut acc = String::new();
    let mut k: usize = i + 1;
    proof {
        assert(acc@ =~= Seq::<char>::empty());
    }
    loop
        invariant
            i + 1 <= k <= n,
            m_string(s, i as int + 1, Seq::empty()) == m_string(s, k as int, acc@),
        decreases n - k,
    {
        if k == n {
            return Err(MetaLexError::UnterminatedString);
        }
        let ch = v[k];
        if ch == '"' {
            return Ok((Token::Literal(Literal::String(acc)), k + 1));
        }
        if ch == '\\' {
            if k + 1 == n {
                return Err(MetaLexError::UnterminatedString);
            }
            let ghost acc0 = acc@;
            let ch2 = v[k + 1];
            push_char(&mut acc, ch);
            push_char(&mut acc, ch2);
            proof {
                assert(acc@ =~= acc0 + seq![s[k as int], s[k as int + 1]]);
            }
            k = k + 2;
        } else {
            push_char(&mut acc, ch);
            k = k + 1;
        }
    }
}

/// A single-quoted form, mirroring [`m_quote`].
#[verifier::loop_isolation(false)]
fn scan_quote(v: &Vec<char>, i: usize) -> (r: Result<(Token, usize), MetaLexError>)
    requires
        i < v@.len(),
        v@[i as int] == '\'',
    ensures
        match r {
            Ok((tok, j)) => i < j <= v@.len() && m_quote(v@, i as int) == (MStep::Tok {
                t: tok@,
                j: j as int,
            }) && !(tok@ is EOF),
            Err(e) => m_quote(v@, i as int) == (MStep::Fail { e: e@ }),
        },
{
    let ghost s = v@;
    let n: usize = v.len();
    if i + 1 == n {
        return Err(MetaLexError::UnexpectedEof);
    }
    let c2 = v[i + 1];
    if c2 == '\\' {
        if i + 2 == n || i + 3 == n {
            return Err(MetaLexError::UnexpectedEof);
        }
        let esc = v[i + 2];
        if v[i + 3] == '\'' {
            let mut text = String::new();
            push_char(&mut text, '\\');
            push_char(&mut text, esc);
            proof {
                assert(text@ =~= seq!['\\', s[i as int + 2]]);
            }
            return Ok((Token::Literal(Literal::String(text)), i + 4));
        }
        return Err(MetaLexError::MalformedCharLiteral);
    }
    if i + 2 < n && v[i + 2] == '\'' {
        return Ok((Token::Literal(Literal::Char(c2)), i + 3));
    }
    let mut j: usize = i + 2;
    while j < n && (char_is_alnum(v[j]) || v[j] == '_')
        invariant
            i + 2 <= j <= n,
            lt_end(s, i as int + 2) == lt_end(s, j as int),
        decreases n - j,
    {
        j = j + 1;
    }
    proof {
        assert(lt_end(s, i as int + 2) == j as int);
    }
    let run = chars_string(v, i + 2, j);
    let mut text = String::new();
    push_char(&mut text, c2);
    text.append(run.as_str());
    proof {
        assert(text@ =~= seq![s[i as int + 1]] + s.subrange(i as int + 2, j as int));
    }
    Ok((Token::Lifetime(text), j))
}

} // verus!
