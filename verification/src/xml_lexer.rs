//! The markup tokenizer: turns one document's text into a finite token
//! sequence.
//!
//! The tokenizer keeps an `inside-tag` flag.  Outside a tag, runs of
//! non-`<` characters accumulate into a `Contents` token; a doubled `<<`
//! escapes a literal `<` into the content run.  Inside a tag it recognizes
//! identifiers, string literals, numeric literals, `=`, and the tag
//! terminators `>` and `/>`.

use vstd::prelude::*;
use crate::chars::{
    char_is_alnum, char_is_alpha, char_is_numeric, char_is_ws, chars_string, digit_val,
    is_ascii_digit, is_ws_char, push_char, str_chars, unicode_alnum, unicode_alpha,
    unicode_numeric,
};
use crate::strutil::first_at_from;

verus! {

/// One markup token.
#[derive(Debug, PartialEq, Clone)]
pub enum Token {
    /// `<`
    Tag,
    /// `</`
    ClosingTag,
    /// `>`
    CloseTag,
    /// `/>`
    InlineCloseTag,
    Ident(String),
    Literal(Literal),
    /// `=`
    Equals,
    /// Free text between tags.
    Contents(String),
}

/// A literal attribute value.
#[derive(Debug, PartialEq, Clone)]
pub enum Literal {
    String(String),
    Int(i64),
    /// A floating-point literal, kept as its digits-and-dot source text
    /// (underscores stripped).
    Float(String),
}

/// The mathematical image of a [`Token`].
pub ghost enum TokV {
    Tag,
    ClosingTag,
    CloseTag,
    InlineCloseTag,
    Ident(Seq<char>),
    Literal(LitV),
    Equals,
    Contents(Seq<char>),
}

/// The mathematical image of a [`Literal`].
pub ghost enum LitV {
    Str(Seq<char>),
    Int(i64),
    Float(Seq<char>),
}

impl View for Literal {
    type V = LitV;

    open spec fn view(&self) -> LitV {
        match self {
            Literal::String(s) => LitV::Str(s@),
            Literal::Int(i) => LitV::Int(*i),
            Literal::Float(t) => LitV::Float(t@),
        }
    }
}

impl View for Token {
    type V = TokV;

    open spec fn view(&self) -> TokV {
        match self {
            Token::Tag => TokV::Tag,
            Token::ClosingTag => TokV::ClosingTag,
            Token::CloseTag => TokV::CloseTag,
            Token::InlineCloseTag => TokV::InlineCloseTag,
            Token::Ident(s) => TokV::Ident(s@),
            Token::Literal(l) => TokV::Literal(l@),
            Token::Equals => TokV::Equals,
            Token::Contents(s) => TokV::Contents(s@),
        }
    }
}

/// The views of a token sequence.
pub open spec fn toks_view(ts: Seq<Token>) -> Seq<TokV> {
    ts.map_values(|t: Token| t@)
}

/// A lexical error in a markup document.
#[derive(Debug, PartialEq, Clone)]
pub enum LexError {
    /// A string literal with no closing quote.
    UnterminatedString,
    /// A numeric run that is not a plain integer or a single-dot decimal;
    /// carries the run's text.
    MalformedNumber(String),
    /// An integer literal too large to represent; carries the run's text.
    IntOutOfRange(String),
}

/// The mathematical image of a [`LexError`].
pub ghost enum LexErrV {
    UnterminatedString,
    MalformedNumber(Seq<char>),
    IntOutOfRange(Seq<char>),
}

impl View for LexError {
    type V = LexErrV;

    open spec fn view(&self) -> LexErrV {
        match self {
            LexError::UnterminatedString => LexErrV::UnterminatedString,
            LexError::MalformedNumber(s) => LexErrV::MalformedNumber(s@),
            LexError::IntOutOfRange(s) => LexErrV::IntOutOfRange(s@),
        }
    }
}

/// End of an identifier run: the first position `>= i` whose character can
/// not continue an identifier.
pub open spec fn ident_end(s: Seq<char>, i: int) -> int
    decreases s.len() - i,
{
    if i < 0 || i >= s.len() {
        s.len() as int
    } else if unicode_alnum(s[i]) || s[i] == '_' {
        ident_end(s, i + 1)
    } else {
        i
    }
}

pub proof fn lemma_ident_end_bounds(s: Seq<char>, i: int)
    requires
        0 <= i <= s.len(),
    ensures
        i <= ident_end(s, i) <= s.len(),
    decreases s.len() - i,
{
    if i < s.len() && (unicode_alnum(s[i]) || s[i] == '_') {
        lemma_ident_end_bounds(s, i + 1);
    }
}

/// End of a numeric run: digits, underscores and dots.
pub open spec fn num_end(s: Seq<char>, i: int) -> int
    decreases s.len() - i,
{
    if i < 0 || i >= s.len() {
        s.len() as int
    } else if unicode_numeric(s[i]) || s[i] == '_' || s[i] == '.' {
        num_end(s, i + 1)
    } else {
        i
    }
}

pub proof fn lemma_num_end_bounds(s: Seq<char>, i: int)
    requires
        0 <= i <= s.len(),
    ensures
        i <= num_end(s, i) <= s.len(),
    decreases s.len() - i,
{
    if i < s.len() && (unicode_numeric(s[i]) || s[i] == '_' || s[i] == '.') {
        lemma_num_end_bounds(s, i + 1);
    }
}

/// `t` with every underscore removed.
pub open spec fn strip_us(t: Seq<char>) -> Seq<char>
    decreases t.len(),
{
    if t.len() == 0 {
        Seq::empty()
    } else if t.last() == '_' {
        strip_us(t.drop_last())
    } else {
        strip_us(t.drop_last()).push(t.last())
    }
}

/// How many dots `t` holds.
pub open spec fn count_dots(t: Seq<char>) -> int
    decreases t.len(),
{
    if t.len() == 0 {
        0
    } else if t.last() == '.' {
        count_dots(t.drop_last()) + 1
    } else {
        count_dots(t.drop_last())
    }
}

/// The value of a run of ASCII decimal digits.
pub open spec fn digits_val(t: Seq<char>) -> int
    decreases t.len(),
{
    if t.len() == 0 {
        0
    } else {
        digits_val(t.drop_last()) * 10 + digit_val(t.last())
    }
}

/// The literal denoted by a numeric run, or the lexical error it raises:
/// after stripping underscores, a dotless all-digit run is an integer (when
/// it fits), a single-dot digit run is a decimal kept as text, and anything
/// else is malformed.
pub open spec fn num_lit(raw: Seq<char>) -> Result<LitV, LexErrV> {
    let t = strip_us(raw);
    if exists|k: int| 0 <= k < t.len() && !(is_ascii_digit(t[k]) || t[k] == '.') {
        Err(LexErrV::MalformedNumber(raw))
    } else if count_dots(t) == 0 {
        if digits_val(t) > i64::MAX as int {
            Err(LexErrV::IntOutOfRange(raw))
        } else {
            Ok(LitV::Int(digits_val(t) as i64))
        }
    } else if count_dots(t) == 1 && t[0] != '.' {
        Ok(LitV::Float(t))
    } else {
        Err(LexErrV::MalformedNumber(raw))
    }
}

/// Prepends a token to a lexing result.
pub open spec fn sp_cons(t: TokV, r: Result<Seq<TokV>, LexErrV>) -> Result<Seq<TokV>, LexErrV> {
    match r {
        Ok(rest) => Ok(seq![t] + rest),
        Err(e) => Err(e),
    }
}

/// Prepends already-produced tokens to a lexing result.
pub open spec fn sp_prepend(pre: Seq<TokV>, r: Result<Seq<TokV>, LexErrV>) -> Result<
    Seq<TokV>,
    LexErrV,
> {
    match r {
        Ok(rest) => Ok(pre + rest),
        Err(e) => Err(e),
    }
}

/// The tokens produced from position `i` on, with the given inside-tag state.
pub open spec fn sp_lex(s: Seq<char>, i: int, inside: bool) -> Result<Seq<TokV>, LexErrV>
    decreases s.len() - i, 1int,
{
    if i < 0 || i >= s.len() {
        Ok(Seq::empty())
    } else {
        let c = s[i];
        if c == '<' {
            if i + 1 < s.len() && s[i + 1] == '<' {
                sp_contents(s, i + 2, seq!['<'])
            } else if i + 1 < s.len() && s[i + 1] == '/' {
                sp_cons(TokV::ClosingTag, sp_lex(s, i + 2, true))
            } else {
                sp_cons(TokV::Tag, sp_lex(s, i + 1, true))
            }
        } else if c == '>' && inside {
            sp_cons(TokV::CloseTag, sp_lex(s, i + 1, false))
        } else if c == '/' && inside {
            if i + 1 < s.len() && s[i + 1] == '>' {
                sp_cons(TokV::InlineCloseTag, sp_lex(s, i + 2, false))
            } else {
                sp_lex(s, i + 1, true)
            }
        } else if c == '"' && inside {
            let j0: int = first_at_from(s, i + 1, '"');
            let j: int = if j0 < i + 1 {
                i + 1
            } else if j0 > s.len() {
                s.len() as int
            } else {
                j0
            };
            if j >= s.len() {
                Err(LexErrV::UnterminatedString)
            } else {
                sp_cons(TokV::Literal(LitV::Str(s.subrange(i + 1, j))), sp_lex(s, j + 1, true))
            }
        } else if c == '=' && inside {
            sp_cons(TokV::Equals, sp_lex(s, i + 1, true))
        } else if inside {
            if unicode_alpha(c) || c == '_' {
                let j0: int = ident_end(s, i + 1);
                let j: int = if j0 < i + 1 {
                    i + 1
                } else if j0 > s.len() {
                    s.len() as int
                } else {
                    j0
                };
                sp_cons(TokV::Ident(s.subrange(i, j)), sp_lex(s, j, true))
            } else if unicode_numeric(c) {
                let j0: int = num_end(s, i + 1);
                let j: int = if j0 < i + 1 {
                    i + 1
                } else if j0 > s.len() {
                    s.len() as int
                } else {
                    j0
                };
                match num_lit(s.subrange(i, j)) {
                    Ok(l) => sp_cons(TokV::Literal(l), sp_lex(s, j, true)),
                    Err(e) => Err(e),
                }
            } else {
                sp_lex(s, i + 1, true)
            }
        } else if !is_ws_char(c) {
            sp_contents(s, i + 1, seq![c])
        } else {
            sp_lex(s, i + 1, false)
        }
    }
}

/// A content run in progress: `acc` has been accumulated; scanning continues
/// at `i`.  An unescaped `<` ends the run and re-enters tag state; `<<`
/// contributes a literal `<`.
pub open spec fn sp_contents(s: Seq<char>, i: int, acc: Seq<char>) -> Result<Seq<TokV>, LexErrV>
    decreases s.len() - i, 0int,
{
    if i < 0 || i >= s.len() {
        Ok(seq![TokV::Contents(acc)])
    } else if s[i] == '<' {
        if i + 1 < s.len() && s[i + 1] == '<' {
            sp_contents(s, i + 2, acc.push('<'))
        } else if i + 1 < s.len() && s[i + 1] == '/' {
            sp_cons(TokV::Contents(acc), sp_cons(TokV::ClosingTag, sp_lex(s, i + 2, true)))
        } else {
            sp_cons(TokV::Contents(acc), sp_cons(TokV::Tag, sp_lex(s, i + 1, true)))
        }
    } else {
        sp_contents(s, i + 1, acc.push(s[i]))
    }
}

/// The token sequence of a whole document.
pub open spec fn sp_tokenize(s: Seq<char>) -> Result<Seq<TokV>, LexErrV> {
    sp_lex(s, 0, false)
}

proof fn lemma_toks_view_push(ts: Seq<Token>, t: Token)
    ensures
        toks_view(ts.push(t)) == toks_view(ts).push(t@),
{
    assert(toks_view(ts.push(t)) =~= toks_view(ts).push(t@));
}

proof fn lemma_prepend_cons(pre: Seq<TokV>, t: TokV, r: Result<Seq<TokV>, LexErrV>)
    ensures
        sp_prepend(pre, sp_cons(t, r)) == sp_prepend(pre.push(t), r),
{
    match r {
        Ok(rest) => {
            assert(pre + (seq![t] + rest) =~= pre.push(t) + rest);
        },
        Err(e) => {},
    }
}

/// Tokenizes one markup document.
pub fn tokenize(xml: String) -> (r: Result<Vec<Token>, LexError>)
    ensures
        match r {
            Ok(toks) => sp_tokenize(xml@) == Ok::<Seq<TokV>, LexErrV>(toks_view(toks@)),
            Err(e) => sp_tokenize(xml@) == Err::<Seq<TokV>, LexErrV>(e@),
        },
{
    let v = str_chars(xml.as_str());
    let ghost s = v@;
    let n: usize = v.len();
    let mut tokens: Vec<Token> = Vec::new();
    let mut inside: bool = false;
    let mut i: usize = 0;
    proof {
        assert(toks_view(tokens@) + Seq::<TokV>::empty() =~= toks_view(tokens@));
    }
    while i < n
        invariant
            n == s.len(),
            v@ == s,
            xml@ == s,
            0 <= i <= n,
            sp_tokenize(s) == sp_prepend(toks_view(tokens@), sp_lex(s, i as int, inside)),
        decreases n - i,
    {
        let ghost pre = toks_view(tokens@);
        let c = v[i];
        if c == '<' {
            if i + 1 < n && v[i + 1] == '<' {
                i = extract_contents(&v, &mut tokens, &mut inside, i + 2, '<');
            } else if i + 1 < n && v[i + 1] == '/' {
                proof {
                    lemma_toks_view_push(tokens@, Token::ClosingTag);
                    lemma_prepend_cons(pre, TokV::ClosingTag, sp_lex(s, i as int + 2, true));
                }
                tokens.push(Token::ClosingTag);
                inside = true;
                i = i + 2;
            } else {
                proof {
                    lemma_toks_view_push(tokens@, Token::Tag);
                    lemma_prepend_cons(pre, TokV::Tag, sp_lex(s, i as int + 1, true));
                }
                tokens.push(Token::Tag);
                inside = true;
                i = i + 1;
            }
        } else if c == '>' && inside {
            proof {
                lemma_toks_view_push(tokens@, Token::CloseTag);
                lemma_prepend_cons(pre, TokV::CloseTag, sp_lex(s, i as int + 1, false));
            }
            tokens.push(Token::CloseTag);
            inside = false;
            i = i + 1;
        } else if c == '/' && inside {
            if i + 1 < n && v[i + 1] == '>' {
                proof {
                    lemma_toks_view_push(tokens@, Token::InlineCloseTag);
                    lemma_prepend_cons(pre, TokV::InlineCloseTag, sp_lex(s, i as int + 2, false));
                }
                tokens.push(Token::InlineCloseTag);
                inside = false;
                i = i + 2;
            } else {
                i = i + 1;
            }
        } else if c == '"' && inside {
            // scan for the closing quote
            let mut j: usize = i + 1;
            while j < n && v[j] != '"'
                invariant
                    v@ == s,
                    n == s.len(),
                    i + 1 <= j <= n,
                    first_at_from(s, i as int + 1, '"') == first_at_from(s, j as int, '"'),
                decreases n - j,
            {
                j = j + 1;
            }
            proof {
                assert(first_at_from(s, i as int + 1, '"') == j as int);
            }
            if j == n {
                return Err(LexError::UnterminatedString);
            }
            let text = chars_string(&v, i + 1, j);
            let tok = Token::Literal(Literal::String(text));
            proof {
                lemma_toks_view_push(tokens@, tok);
                lemma_prepend_cons(
                    pre,
                    TokV::Literal(LitV::Str(s.subrange(i as int + 1, j as int))),
                    sp_lex(s, j as int + 1, true),
                );
            }
            tokens.push(tok);
            i = j + 1;
        } else if c == '=' && inside {
            proof {
                lemma_toks_view_push(tokens@, Token::Equals);
                lemma_prepend_cons(pre, TokV::Equals, sp_lex(s, i as int + 1, true));
            }
            tokens.push(Token::Equals);
            i = i + 1;
        } else if inside {
            if char_is_alpha(c) || c == '_' {
                let j = scan_ident_end(&v, i + 1);
                let text = chars_string(&v, i, j);
                let tok = Token::Ident(text);
                proof {
                    lemma_toks_view_push(tokens@, tok);
                    lemma_prepend_cons(
                        pre,
                        TokV::Ident(s.subrange(i as int, j as int)),
                        sp_lex(s, j as int, true),
                    );
                }
                tokens.push(tok);
                i = j;
            } else if char_is_numeric(c) {
                let j = scan_num_end(&v, i + 1);
                match make_num(&v, i, j) {
                    Ok(lit) => {
                        let ghost lv = lit@;
                        let tok = Token::Literal(lit);
                        proof {
                            lemma_toks_view_push(tokens@, tok);
                            lemma_prepend_cons(
                                pre,
                                TokV::Literal(lv),
                                sp_lex(s, j as int, true),
                            );
                        }
                        tokens.push(tok);
                        i = j;
                    },
                    Err(e) => {
                        return Err(e);
                    },
                }
            } else {
                i = i + 1;
            }
        } else if !char_is_ws(c) {
            i = extract_contents(&v, &mut tokens, &mut inside, i + 1, c);
        } else {
            i = i + 1;
        }
    }
    proof {
        assert(toks_view(tokens@) + Seq::<TokV>::empty() =~= toks_view(tokens@));
    }
    Ok(tokens)
}

/// Accumulates a content run that began with `c`, scanning from `pos`.
/// Emits the `Contents` token and, when the run ends at a tag start, the tag
/// token; returns the position at which ordinary lexing resumes.
fn extract_contents(
    v: &Vec<char>,
    tokens: &mut Vec<Token>,
    inside: &mut bool,
    pos: usize,
    c: char,
) -> (res: usize)
    requires
        pos <= v@.len(),
    ensures
        pos <= res <= v@.len(),
        sp_prepend(toks_view(old(tokens)@), sp_contents(v@, pos as int, seq![c])) == sp_prepend(
            toks_view(final(tokens)@),
            sp_lex(v@, res as int, *final(inside)),
        ),
{
    let ghost s = v@;
    let n: usize = v.len();
    let mut acc = String::new();
    push_char(&mut acc, c);
    proof {
        assert(acc@ =~= seq![c]);
    }
    let mut k: usize = pos;
    while k < n
        invariant_except_break
            n == s.len(),
            v@ == s,
            pos <= k <= n,
            tokens@ == old(tokens)@,
            inside == old(inside),
            sp_contents(s, pos as int, seq![c]) == sp_contents(s, k as int, acc@),
        ensures
            n == s.len(),
            v@ == s,
            k <= n,
            tokens@ == old(tokens)@,
            inside == old(inside),
            k == n,
            sp_contents(s, pos as int, seq![c]) == sp_contents(s, k as int, acc@),
        decreases n - k,
    {
        if v[k] == '<' {
            if k + 1 < n && v[k + 1] == '<' {
                push_char(&mut acc, '<');
                k = k + 2;
            } else if k + 1 < n && v[k + 1] == '/' {
                let ghost accv = acc@;
                let ghost pre = toks_view(tokens@);
                let tok = Token::Contents(acc);
                proof {
                    lemma_toks_view_push(tokens@, tok);
                }
                tokens.push(tok);
                proof {
                    lemma_toks_view_push(tokens@, Token::ClosingTag);
                    lemma_prepend_cons(
                        pre,
                        TokV::Contents(accv),
                        sp_cons(TokV::ClosingTag, sp_lex(s, k as int + 2, true)),
                    );
                    lemma_prepend_cons(
                        pre.push(TokV::Contents(accv)),
                        TokV::ClosingTag,
                        sp_lex(s, k as int + 2, true),
                    );
                }
                tokens.push(Token::ClosingTag);
                *inside = true;
                return k + 2;
            } else {
                let ghost accv = acc@;
                let ghost pre = toks_view(tokens@);
                let tok = Token::Contents(acc);
                proof {
                    lemma_toks_view_push(tokens@, tok);
                }
                tokens.push(tok);
                proof {
                    lemma_toks_view_push(tokens@, Token::Tag);
                    lemma_prepend_cons(
                        pre,
                        TokV::Contents(accv),
                        sp_cons(TokV::Tag, sp_lex(s, k as int + 1, true)),
                    );
                    lemma_prepend_cons(
                        pre.push(TokV::Contents(accv)),
                        TokV::Tag,
                        sp_lex(s, k as int + 1, true),
                    );
                }
                tokens.push(Token::Tag);
                *inside = true;
                return k + 1;
            }
        } else {
            let ch = v[k];
            push_char(&mut acc, ch);
            k = k + 1;
        }
    }
    // end of input: the run closes the document
    let ghost accv = acc@;
    let ghost pre = toks_view(tokens@);
    let tok = Token::Contents(acc);
    proof {
        lemma_toks_view_push(tokens@, tok);
        lemma_prepend_cons(pre, TokV::Contents(accv), Ok(Seq::<TokV>::empty()));
        assert(sp_contents(s, k as int, accv) == Ok::<Seq<TokV>, LexErrV>(seq![
            TokV::Contents(accv),
        ]));
        assert(seq![TokV::Contents(accv)] =~= seq![TokV::Contents(accv)] + Seq::<TokV>::empty());
    }
    tokens.push(tok);
    n
}

/// Scans to the end of an identifier run.
fn scan_ident_end(v: &Vec<char>, from: usize) -> (j: usize)
    requires
        from <= v@.len(),
    ensures
        from <= j <= v@.len(),
        j == ident_end(v@, from as int),
{
    let n: usize = v.len();
    let mut j: usize = from;
    while j < n && (char_is_alnum(v[j]) || v[j] == '_')
        invariant
            n == v@.len(),
            from <= j <= n,
            ident_end(v@, from as int) == ident_end(v@, j as int),
        decreases n - j,
    {
        j = j + 1;
    }
    j
}

/// Scans to the end of a numeric run.
fn scan_num_end(v: &Vec<char>, from: usize) -> (j: usize)
    requires
        from <= v@.len(),
    ensures
        from <= j <= v@.len(),
        j == num_end(v@, from as int),
{
    let n: usize = v.len();
    let mut j: usize = from;
    while j < n && (char_is_numeric(v[j]) || v[j] == '_' || v[j] == '.')
        invariant
            n == v@.len(),
            from <= j <= n,
            num_end(v@, from as int) == num_end(v@, j as int),
        decreases n - j,
    {
        j = j + 1;
    }
    j
}

/// Nonnegativity of an all-digit run's value.
pub proof fn lemma_digits_val_nonneg(t: Seq<char>)
    requires
        forall|k: int| 0 <= k < t.len() ==> is_ascii_digit(t[k]),
    ensures
        digits_val(t) >= 0,
    decreases t.len(),
{
    if t.len() > 0 {
        lemma_digits_val_nonneg(t.drop_last());
    }
}

/// A prefix of an all-digit run never exceeds the whole run's value.
pub proof fn lemma_digits_val_prefix(t: Seq<char>, k: int)
    requires
        forall|j: int| 0 <= j < t.len() ==> is_ascii_digit(t[j]),
        0 <= k <= t.len(),
    ensures
        digits_val(t.subrange(0, k)) <= digits_val(t),
    decreases t.len(),
{
    if k == t.len() {
        assert(t.subrange(0, k) =~= t);
    } else {
        assert(t.drop_last() =~= t.subrange(0, t.len() - 1));
        assert(forall|j: int| 0 <= j < t.drop_last().len() ==> is_ascii_digit(t.drop_last()[j]));
        lemma_digits_val_prefix(t.drop_last(), k);
        assert(t.drop_last().subrange(0, k) =~= t.subrange(0, k));
        lemma_digits_val_nonneg(t.drop_last());
    }
}

/// Converts the numeric run `v[from..to]` into a literal, mirroring
/// [`num_lit`].
fn make_num(v: &Vec<char>, from: usize, to: usize) -> (r: Result<Literal, LexError>)
    requires
        from <= to <= v@.len(),
    ensures
        match r {
            Ok(l) => num_lit(v@.subrange(from as int, to as int)) == Ok::<LitV, LexErrV>(l@),
            Err(e) => num_lit(v@.subrange(from as int, to as int)) == Err::<LitV, LexErrV>(e@),
        },
{
    let ghost raw = v@.subrange(from as int, to as int);
    // strip underscores
    let mut t: Vec<char> = Vec::new();
    let mut k: usize = from;
    while k < to
        invariant
            from <= k <= to <= v@.len(),
            raw == v@.subrange(from as int, to as int),
            t@ == strip_us(v@.subrange(from as int, k as int)),
        decreases to - k,
    {
        let ghost sofar = v@.subrange(from as int, k as int);
        let c = v[k];
        if c != '_' {
            t.push(c);
        }
        k = k + 1;
        proof {
            let now = v@.subrange(from as int, k as int);
            assert(now.drop_last() =~= sofar);
            assert(now.last() == c);
        }
    }
    proof {
        assert(v@.subrange(from as int, to as int) =~= raw);
    }
    // classify
    let m: usize = t.len();
    let mut dots: usize = 0;
    let mut ok_digits: bool = true;
    let mut k2: usize = 0;
    while k2 < m
        invariant
            from <= to <= v@.len(),
            raw == v@.subrange(from as int, to as int),
            t@ == strip_us(raw),
            m == t@.len(),
            0 <= k2 <= m,
            dots <= k2,
            dots == count_dots(t@.subrange(0, k2 as int)),
            ok_digits == (forall|j: int|
                0 <= j < k2 ==> is_ascii_digit(t@[j]) || t@[j] == '.'),
        decreases m - k2,
    {
        let ghost sofar = t@.subrange(0, k2 as int);
        let c = t[k2];
        if c == '.' {
            dots = dots + 1;
        }
        if !(('0' <= c && c <= '9') || c == '.') {
            ok_digits = false;
        }
        k2 = k2 + 1;
        proof {
            let now = t@.subrange(0, k2 as int);
            assert(now.drop_last() =~= sofar);
            assert(now.last() == c);
        }
    }
    proof {
        assert(t@.subrange(0, m as int) =~= t@);
    }
    if !ok_digits {
        return Err(LexError::MalformedNumber(chars_string(v, from, to)));
    }
    if dots == 0 {
        proof {
            assert(forall|j: int| 0 <= j < t@.len() ==> is_ascii_digit(t@[j])) by {
                assert(forall|j: int|
                    0 <= j < t@.len() ==> is_ascii_digit(t@[j]) || t@[j] == '.');
                assert forall|j: int| 0 <= j < t@.len() implies is_ascii_digit(t@[j]) by {
                    if t@[j] == '.' {
                        lemma_count_dots_at(t@, j);
                    }
                }
            }
        }
        // accumulate the value, bailing out as soon as it exceeds i64::MAX
        let mut val: u128 = 0;
        let mut k3: usize = 0;
        while k3 < m
            invariant
                from <= to <= v@.len(),
                raw == v@.subrange(from as int, to as int),
                t@ == strip_us(raw),
                count_dots(t@) == 0,
                m == t@.len(),
                0 <= k3 <= m,
                forall|j: int| 0 <= j < t@.len() ==> is_ascii_digit(t@[j]),
                val == digits_val(t@.subrange(0, k3 as int)),
                val <= i64::MAX as u128,
            decreases m - k3,
        {
            let ghost sofar = t@.subrange(0, k3 as int);
            let c = t[k3];
            let d: u128 = (c as u32 as u128) - 48;
            let next: u128 = val * 10 + d;
            k3 = k3 + 1;
            proof {
                let now = t@.subrange(0, k3 as int);
                assert(now.drop_last() =~= sofar);
                assert(now.last() == c);
                assert(is_ascii_digit(c));
            }
            if next > i64::MAX as u128 {
                proof {
                    lemma_digits_val_prefix(t@, k3 as int);
                }
                return Err(LexError::IntOutOfRange(chars_string(v, from, to)));
            }
            val = next;
        }
        proof {
            assert(t@.subrange(0, m as int) =~= t@);
            lemma_digits_val_nonneg(t@);
        }
        Ok(Literal::Int(val as i64))
    } else if dots == 1 && t[0] != '.' {
        let text = chars_string(&t, 0, m);
        proof {
            assert(t@.subrange(0, m as int) =~= t@);
        }
        Ok(Literal::Float(text))
    } else {
        Err(LexError::MalformedNumber(chars_string(v, from, to)))
    }
}

/// A dot inside `t` contributes to the dot count.
proof fn lemma_count_dots_at(t: Seq<char>, j: int)
    requires
        0 <= j < t.len(),
        t[j] == '.',
    ensures
        count_dots(t) >= 1,
    decreases t.len(),
{
    if j == t.len() - 1 {
        lemma_count_dots_nonneg(t.drop_last());
    } else {
        lemma_count_dots_at(t.drop_last(), j);
    }
}

proof fn lemma_count_dots_nonneg(t: Seq<char>)
    ensures
        count_dots(t) >= 0,
    decreases t.len(),
{
    if t.len() > 0 {
        lemma_count_dots_nonneg(t.drop_last());
    }
}

} // verus!
