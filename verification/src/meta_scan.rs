//! The meta scanner: finds annotated type declarations in one source text
//! and emits the persisted-table records they denote.
//!
//! The scanner matches the token subsequence `#`, `[`, the annotation name
//! `ui_element`, `(`, the tag, `)`, `]`, an optional visibility keyword with
//! an optional parenthesized qualifier, the type-declaration keyword, and
//! the type name.  Everything else is skipped silently.

use vstd::prelude::*;
use vstd::string::StringExecFns;
use crate::meta_lexer::{Lexer, MErrV, MStep, MetaLexError, m_step};
use crate::meta_token::{Keyword, MTokV, Token};
use crate::strutil::{ends_with, str_ends_with};

verus! {

/// Progress of the meta lexer: a non-terminal token always advances, and the
/// position after a token stays within the input.
pub proof fn lemma_m_step_progress(s: Seq<char>, i: int)
    requires
        0 <= i <= s.len(),
    ensures
        match m_step(s, i) {
            MStep::Tok { t, j } => i <= j <= s.len() && (!(t is EOF) ==> i < j),
            MStep::Fail { e } => true,
        },
    decreases s.len() - i,
{
    if i < s.len() {
        let c = s[i];
        if crate::chars::is_ascii_ws(c) {
            lemma_m_step_progress(s, i + 1);
        } else if c == '/' {
            if i + 1 < s.len() && s[i + 1] == '/' {
                crate::strutil::lemma_first_at_from_bounds(s, i + 2, '\n');
                let k: int = crate::meta_lexer::m_clamp(
                    crate::strutil::first_at_from(s, i + 2, '\n'),
                    i + 2,
                    s.len() as int,
                );
                lemma_m_step_progress(s, k);
            } else if i + 1 < s.len() && s[i + 1] == '*' {
                let j: int = crate::meta_lexer::m_clamp(
                    crate::meta_lexer::block_end(s, i + 2),
                    i + 2,
                    s.len() as int,
                );
                if j < s.len() {
                    let j2: int = if j + 2 > s.len() {
                        s.len() as int
                    } else {
                        j + 2
                    };
                    lemma_m_step_progress(s, j2);
                }
            }
        } else if c == '"' {
            lemma_m_string_progress(s, i + 1, Seq::empty());
        }
    }
}

/// Progress of the string scanner.
proof fn lemma_m_string_progress(s: Seq<char>, k: int, acc: Seq<char>)
    requires
        0 <= k <= s.len(),
    ensures
        match crate::meta_lexer::m_string(s, k, acc) {
            MStep::Tok { t, j } => k < j <= s.len() && !(t is EOF),
            MStep::Fail { e } => true,
        },
    decreases s.len() - k,
{
    if k < s.len() {
        if s[k] == '"' {
        } else if s[k] == '\\' {
            if k + 1 < s.len() {
                lemma_m_string_progress(s, k + 2, acc + seq![s[k], s[k + 1]]);
            }
        } else {
            lemma_m_string_progress(s, k + 1, acc.push(s[k]));
        }
    }
}

/// Clamps the continuation index of a real token for the scanner's
/// recursion; by [`lemma_m_step_progress`] this never changes it.
pub open spec fn nx(j: int, i: int, len: int) -> int {
    if j < i + 1 {
        i + 1
    } else if j > len {
        len
    } else {
        j
    }
}

/// One record: `tag=path::name;`, with the path omitted at the scan root.
pub open spec fn sp_mk_record(tag: Seq<char>, path: Seq<char>, name: Seq<char>) -> Seq<char> {
    if path.len() == 0 {
        tag + "="@ + name + ";"@
    } else {
        tag + "="@ + path + "::"@ + name + ";"@
    }
}

/// The scanner's main loop: hunt for a `#` and try to match the annotation.
pub open spec fn sp_scan(s: Seq<char>, i: int, path: Seq<char>) -> Result<Seq<char>, MErrV>
    decreases s.len() - i, 0int,
{
    if i < 0 || i > s.len() {
        Ok(Seq::empty())
    } else {
        match m_step(s, i) {
            MStep::Fail { e } => Err(e),
            MStep::Tok { t, j } => {
                if t is EOF {
                    Ok(Seq::empty())
                } else if t is Hash {
                    sp_expect_lbracket(s, nx(j, i, s.len() as int), path)
                } else {
                    sp_scan(s, nx(j, i, s.len() as int), path)
                }
            },
        }
    }
}

/// After `#`: expect `[`.
pub open spec fn sp_expect_lbracket(s: Seq<char>, i: int, path: Seq<char>) -> Result<
    Seq<char>,
    MErrV,
>
    decreases s.len() - i, 1int,
{
    if i < 0 || i > s.len() {
        Ok(Seq::empty())
    } else {
        match m_step(s, i) {
            MStep::Fail { e } => Err(e),
            MStep::Tok { t, j } => {
                if t is EOF {
                    sp_scan(s, i, path)
                } else if t is LBracket {
                    sp_expect_name(s, nx(j, i, s.len() as int), path)
                } else {
                    sp_scan(s, nx(j, i, s.len() as int), path)
                }
            },
        }
    }
}

/// After `#[`: expect the annotation name.
pub open spec fn sp_expect_name(s: Seq<char>, i: int, path: Seq<char>) -> Result<Seq<char>, MErrV>
    decreases s.len() - i, 2int,
{
    if i < 0 || i > s.len() {
        Ok(Seq::empty())
    } else {
        match m_step(s, i) {
            MStep::Fail { e } => Err(e),
            MStep::Tok { t, j } => {
                if t is EOF {
                    sp_scan(s, i, path)
                } else if t == MTokV::Ident("ui_element"@) {
                    sp_expect_lparen(s, nx(j, i, s.len() as int), path)
                } else {
                    sp_scan(s, nx(j, i, s.len() as int), path)
                }
            },
        }
    }
}

/// After the annotation name: expect `(`.
pub open spec fn sp_expect_lparen(s: Seq<char>, i: int, path: Seq<char>) -> Result<
    Seq<char>,
    MErrV,
>
    decreases s.len() - i, 3int,
{
    if i < 0 || i > s.len() {
        Ok(Seq::empty())
    } else {
        match m_step(s, i) {
            MStep::Fail { e } => Err(e),
            MStep::Tok { t, j } => {
                if t is EOF {
                    sp_scan(s, i, path)
                } else if t is LParen {
                    sp_expect_tag(s, nx(j, i, s.len() as int), path)
                } else {
                    sp_scan(s, nx(j, i, s.len() as int), path)
                }
            },
        }
    }
}

/// After `(`: expect the tag identifier.
pub open spec fn sp_expect_tag(s: Seq<char>, i: int, path: Seq<char>) -> Result<Seq<char>, MErrV>
    decreases s.len() - i, 4int,
{
    if i < 0 || i > s.len() {
        Ok(Seq::empty())
    } else {
        match m_step(s, i) {
            MStep::Fail { e } => Err(e),
            MStep::Tok { t, j } => match t {
                MTokV::Ident(tag) => sp_expect_rparen(s, nx(j, i, s.len() as int), path, tag),
                MTokV::EOF => sp_scan(s, i, path),
                _ => sp_scan(s, nx(j, i, s.len() as int), path),
            },
        }
    }
}

/// After the tag: expect `)`.
pub open spec fn sp_expect_rparen(
    s: Seq<char>,
    i: int,
    path: Seq<char>,
    tag: Seq<char>,
) -> Result<Seq<char>, MErrV>
    decreases s.len() - i, 5int,
{
    if i < 0 || i > s.len() {
        Ok(Seq::empty())
    } else {
        match m_step(s, i) {
            MStep::Fail { e } => Err(e),
            MStep::Tok { t, j } => {
                if t is EOF {
                    sp_scan(s, i, path)
                } else if t is RParen {
                    sp_expect_rbracket(s, nx(j, i, s.len() as int), path, tag)
                } else {
                    sp_scan(s, nx(j, i, s.len() as int), path)
                }
            },
        }
    }
}

/// After `)`: expect `]`.
pub open spec fn sp_expect_rbracket(
    s: Seq<char>,
    i: int,
    path: Seq<char>,
    tag: Seq<char>,
) -> Result<Seq<char>, MErrV>
    decreases s.len() - i, 6int,
{
    if i < 0 || i > s.len() {
        Ok(Seq::empty())
    } else {
        match m_step(s, i) {
            MStep::Fail { e } => Err(e),
            MStep::Tok { t, j } => {
                if t is EOF {
                    sp_scan(s, i, path)
                } else if t is RBracket {
                    sp_after_annotation(s, nx(j, i, s.len() as int), path, tag)
                } else {
                    sp_scan(s, nx(j, i, s.len() as int), path)
                }
            },
        }
    }
}

/// After the full annotation: an optional visibility keyword, then the
/// declaration keyword.
pub open spec fn sp_after_annotation(
    s: Seq<char>,
    i: int,
    path: Seq<char>,
    tag: Seq<char>,
) -> Result<Seq<char>, MErrV>
    decreases s.len() - i, 7int,
{
    if i < 0 || i > s.len() {
        Ok(Seq::empty())
    } else {
        match m_step(s, i) {
            MStep::Fail { e } => Err(e),
            MStep::Tok { t, j } => {
                if t is EOF {
                    sp_scan(s, i, path)
                } else if t == MTokV::Keyword(Keyword::Pub) {
                    sp_after_vis(s, nx(j, i, s.len() as int), path, tag)
                } else if t == MTokV::Keyword(Keyword::Struct) {
                    sp_expect_type_name(s, nx(j, i, s.len() as int), path, tag)
                } else {
                    sp_scan(s, nx(j, i, s.len() as int), path)
                }
            },
        }
    }
}

/// After the visibility keyword: an optional parenthesized qualifier, then
/// the declaration keyword.
pub open spec fn sp_after_vis(s: Seq<char>, i: int, path: Seq<char>, tag: Seq<char>) -> Result<
    Seq<char>,
    MErrV,
>
    decreases s.len() - i, 8int,
{
    if i < 0 || i > s.len() {
        Ok(Seq::empty())
    } else {
        match m_step(s, i) {
            MStep::Fail { e } => Err(e),
            MStep::Tok { t, j } => {
                if t is EOF {
                    sp_scan(s, i, path)
                } else if t is LParen {
                    sp_skip_qualifier(s, nx(j, i, s.len() as int), path, tag)
                } else if t == MTokV::Keyword(Keyword::Struct) {
                    sp_expect_type_name(s, nx(j, i, s.len() as int), path, tag)
                } else {
                    sp_scan(s, nx(j, i, s.len() as int), path)
                }
            },
        }
    }
}

/// Inside a visibility qualifier: consume tokens up to the closing `)`.  An
/// annotation left unclosed here is fatal.
pub open spec fn sp_skip_qualifier(
    s: Seq<char>,
    i: int,
    path: Seq<char>,
    tag: Seq<char>,
) -> Result<Seq<char>, MErrV>
    decreases s.len() - i, 9int,
{
    if i < 0 || i > s.len() {
        Ok(Seq::empty())
    } else {
        match m_step(s, i) {
            MStep::Fail { e } => Err(e),
            MStep::Tok { t, j } => {
                if t is EOF {
                    Err(MErrV::UnexpectedEof)
                } else if t is RParen {
                    sp_after_qualifier(s, nx(j, i, s.len() as int), path, tag)
                } else {
                    sp_skip_qualifier(s, nx(j, i, s.len() as int), path, tag)
                }
            },
        }
    }
}

/// After the qualifier: the declaration keyword.
pub open spec fn sp_after_qualifier(
    s: Seq<char>,
    i: int,
    path: Seq<char>,
    tag: Seq<char>,
) -> Result<Seq<char>, MErrV>
    decreases s.len() - i, 10int,
{
    if i < 0 || i > s.len() {
        Ok(Seq::empty())
    } else {
        match m_step(s, i) {
            MStep::Fail { e } => Err(e),
            MStep::Tok { t, j } => {
                if t is EOF {
                    sp_scan(s, i, path)
                } else if t == MTokV::Keyword(Keyword::Struct) {
                    sp_expect_type_name(s, nx(j, i, s.len() as int), path, tag)
                } else {
                    sp_scan(s, nx(j, i, s.len() as int), path)
                }
            },
        }
    }
}

/// After the declaration keyword: the type name yields one record.
pub open spec fn sp_expect_type_name(
    s: Seq<char>,
    i: int,
    path: Seq<char>,
    tag: Seq<char>,
) -> Result<Seq<char>, MErrV>
    decreases s.len() - i, 11int,
{
    if i < 0 || i > s.len() {
        Ok(Seq::empty())
    } else {
        match m_step(s, i) {
            MStep::Fail { e } => Err(e),
            MStep::Tok { t, j } => match t {
                MTokV::Ident(name) => match sp_scan(s, nx(j, i, s.len() as int), path) {
                    Ok(rest) => Ok(sp_mk_record(tag, path, name) + rest),
                    Err(e) => Err(e),
                },
                MTokV::EOF => sp_scan(s, i, path),
                _ => sp_scan(s, nx(j, i, s.len() as int), path),
            },
        }
    }
}

/// The records one source text contributes, under the given namespace path.
pub open spec fn sp_check_file(s: Seq<char>, path: Seq<char>) -> Result<Seq<char>, MErrV> {
    sp_scan(s, 0, path)
}

/// Scans one source text for annotated type declarations and returns the
/// records they denote, in order of appearance.  `path` is the namespace
/// path of the file, already joined; it is empty at the scan root.
/// What one expectation step of the annotation match produced.
enum Step {
    Matched,
    Skipped,
    End,
}

/// What one attempted annotation match produced.
enum AnnStep {
    /// The full annotation shape: the captured tag.
    Tag(String),
    /// The shape did not match; scanning continues after the mismatch.
    Skipped,
    /// The input ended during the match.
    End,
}

/// What the declaration keyword step produced.
enum KwStep {
    /// A visibility keyword.
    Vis,
    /// The type-declaration keyword.
    Decl,
    /// A parenthesized visibility qualifier begins.
    Qual,
    Skipped,
    End,
}

/// What the declaration after a matched annotation produced.
enum DeclStep {
    /// The declared type's name.
    Name(String),
    /// No type declaration followed; scanning continues.
    Skipped,
    /// The input ended.
    End,
}

/// One expectation step of the annotation match.
#[verifier::loop_isolation(false)]
#[verifier::rlimit(100)]
fn step_lbracket(lexer: &mut Lexer, Ghost(pv): Ghost<Seq<char>>) -> (r: Result<
    Step,
    MetaLexError,
>)
    requires
        old(lexer)@.revert == Seq::<MTokV>::empty(),
        old(lexer)@.done == false,
        0 <= old(lexer)@.pos <= old(lexer)@.input.len(),
    ensures
        final(lexer)@.input == old(lexer)@.input,
        r is Ok ==> final(lexer)@.revert == Seq::<MTokV>::empty() && 0 <= final(lexer)@.pos
            <= final(lexer)@.input.len() && old(lexer)@.pos <= final(lexer)@.pos,
        match r {
            Ok(Step::Matched) => final(lexer)@.done == false && sp_expect_lbracket(
                old(lexer)@.input,
                old(lexer)@.pos,
                pv,
            ) == sp_expect_name(old(lexer)@.input, final(lexer)@.pos, pv),
            Ok(Step::Skipped) => final(lexer)@.done == false && sp_expect_lbracket(
                old(lexer)@.input,
                old(lexer)@.pos,
                pv,
            ) == sp_scan(old(lexer)@.input, final(lexer)@.pos, pv),
            Ok(Step::End) => sp_expect_lbracket(old(lexer)@.input, old(lexer)@.pos, pv) == Ok::<
                Seq<char>,
                MErrV,
            >(Seq::empty()),
            Err(e) => sp_expect_lbracket(old(lexer)@.input, old(lexer)@.pos, pv) == Err::<
                Seq<char>,
                MErrV,
            >(e@),
        },
{
    let ghost s = lexer@.input;
    let ghost p = lexer@.pos;
    proof {
        lemma_m_step_progress(s, p);
    }
    let tok = match lexer.next() {
        Ok(Some(t)) => t,
        Ok(None) => { proof { assert(false); } unreached() },
        Err(e) => { return Err(e); },
    };
    match tok {
        Token::LBracket => Ok(Step::Matched),
        Token::EOF => Ok(Step::End),
        _ => Ok(Step::Skipped),
    }
}

/// One expectation step of the annotation match.
#[verifier::loop_isolation(false)]
#[verifier::rlimit(100)]
fn step_lparen(lexer: &mut Lexer, Ghost(pv): Ghost<Seq<char>>) -> (r: Result<
    Step,
    MetaLexError,
>)
    requires
        old(lexer)@.revert == Seq::<MTokV>::empty(),
        old(lexer)@.done == false,
        0 <= old(lexer)@.pos <= old(lexer)@.input.len(),
    ensures
        final(lexer)@.input == old(lexer)@.input,
        r is Ok ==> final(lexer)@.revert == Seq::<MTokV>::empty() && 0 <= final(lexer)@.pos
            <= final(lexer)@.input.len() && old(lexer)@.pos <= final(lexer)@.pos,
        match r {
            Ok(Step::Matched) => final(lexer)@.done == false && sp_expect_lparen(
                old(lexer)@.input,
                old(lexer)@.pos,
                pv,
            ) == sp_expect_tag(old(lexer)@.input, final(lexer)@.pos, pv),
            Ok(Step::Skipped) => final(lexer)@.done == false && sp_expect_lparen(
                old(lexer)@.input,
                old(lexer)@.pos,
                pv,
            ) == sp_scan(old(lexer)@.input, final(lexer)@.pos, pv),
            Ok(Step::End) => sp_expect_lparen(old(lexer)@.input, old(lexer)@.pos, pv) == Ok::<
                Seq<char>,
                MErrV,
            >(Seq::empty()),
            Err(e) => sp_expect_lparen(old(lexer)@.input, old(lexer)@.pos, pv) == Err::<
                Seq<char>,
                MErrV,
            >(e@),
        },
{
    let ghost s = lexer@.input;
    let ghost p = lexer@.pos;
    proof {
        lemma_m_step_progress(s, p);
    }
    let tok = match lexer.next() {
        Ok(Some(t)) => t,
        Ok(None) => { proof { assert(false); } unreached() },
        Err(e) => { return Err(e); },
    };
    match tok {
        Token::LParen => Ok(Step::Matched),
        Token::EOF => Ok(Step::End),
        _ => Ok(Step::Skipped),
    }
}

/// One expectation step of the annotation match.
#[verifier::loop_isolation(false)]
#[verifier::rlimit(100)]
fn step_rparen(lexer: &mut Lexer, tag: &String, Ghost(pv): Ghost<Seq<char>>) -> (r: Result<
    Step,
    MetaLexError,
>)
    requires
        old(lexer)@.revert == Seq::<MTokV>::empty(),
        old(lexer)@.done == false,
        0 <= old(lexer)@.pos <= old(lexer)@.input.len(),
    ensures
        final(lexer)@.input == old(lexer)@.input,
        r is Ok ==> final(lexer)@.revert == Seq::<MTokV>::empty() && 0 <= final(lexer)@.pos
            <= final(lexer)@.input.len() && old(lexer)@.pos <= final(lexer)@.pos,
        match r {
            Ok(Step::Matched) => final(lexer)@.done == false && sp_expect_rparen(
                old(lexer)@.input,
                old(lexer)@.pos,
                pv, tag@,
            ) == sp_expect_rbracket(old(lexer)@.input, final(lexer)@.pos, pv, tag@),
            Ok(Step::Skipped) => final(lexer)@.done == false && sp_expect_rparen(
                old(lexer)@.input,
                old(lexer)@.pos,
                pv, tag@,
            ) == sp_scan(old(lexer)@.input, final(lexer)@.pos, pv),
            Ok(Step::End) => sp_expect_rparen(old(lexer)@.input, old(lexer)@.pos, pv, tag@) == Ok::<
                Seq<char>,
                MErrV,
            >(Seq::empty()),
            Err(e) => sp_expect_rparen(old(lexer)@.input, old(lexer)@.pos, pv, tag@) == Err::<
                Seq<char>,
                MErrV,
            >(e@),
        },
{
    let ghost s = lexer@.input;
    let ghost p = lexer@.pos;
    proof {
        lemma_m_step_progress(s, p);
    }
    let tok = match lexer.next() {
        Ok(Some(t)) => t,
        Ok(None) => { proof { assert(false); } unreached() },
        Err(e) => { return Err(e); },
    };
    match tok {
        Token::RParen => Ok(Step::Matched),
        Token::EOF => Ok(Step::End),
        _ => Ok(Step::Skipped),
    }
}

/// One expectation step of the annotation match.
#[verifier::loop_isolation(false)]
#[verifier::rlimit(100)]
fn step_rbracket(lexer: &mut Lexer, tag: &String, Ghost(pv): Ghost<Seq<char>>) -> (r: Result<
    Step,
    MetaLexError,
>)
    requires
        old(lexer)@.revert == Seq::<MTokV>::empty(),
        old(lexer)@.done == false,
        0 <= old(lexer)@.pos <= old(lexer)@.input.len(),
    ensures
        final(lexer)@.input == old(lexer)@.input,
        r is Ok ==> final(lexer)@.revert == Seq::<MTokV>::empty() && 0 <= final(lexer)@.pos
            <= final(lexer)@.input.len() && old(lexer)@.pos <= final(lexer)@.pos,
        match r {
            Ok(Step::Matched) => final(lexer)@.done == false && sp_expect_rbracket(
                old(lexer)@.input,
                old(lexer)@.pos,
                pv, tag@,
            ) == sp_after_annotation(old(lexer)@.input, final(lexer)@.pos, pv, tag@),
            Ok(Step::Skipped) => final(lexer)@.done == false && sp_expect_rbracket(
                old(lexer)@.input,
                old(lexer)@.pos,
                pv, tag@,
            ) == sp_scan(old(lexer)@.input, final(lexer)@.pos, pv),
            Ok(Step::End) => sp_expect_rbracket(old(lexer)@.input, old(lexer)@.pos, pv, tag@) == Ok::<
                Seq<char>,
                MErrV,
            >(Seq::empty()),
            Err(e) => sp_expect_rbracket(old(lexer)@.input, old(lexer)@.pos, pv, tag@) == Err::<
                Seq<char>,
                MErrV,
            >(e@),
        },
{
    let ghost s = lexer@.input;
    let ghost p = lexer@.pos;
    proof {
        lemma_m_step_progress(s, p);
    }
    let tok = match lexer.next() {
        Ok(Some(t)) => t,
        Ok(None) => { proof { assert(false); } unreached() },
        Err(e) => { return Err(e); },
    };
    match tok {
        Token::RBracket => Ok(Step::Matched),
        Token::EOF => Ok(Step::End),
        _ => Ok(Step::Skipped),
    }
}

/// The annotation-name step: only the configured name continues the match.
#[verifier::loop_isolation(false)]
#[verifier::rlimit(100)]
fn step_name(lexer: &mut Lexer, Ghost(pv): Ghost<Seq<char>>) -> (r: Result<Step, MetaLexError>)
    requires
        old(lexer)@.revert == Seq::<MTokV>::empty(),
        old(lexer)@.done == false,
        0 <= old(lexer)@.pos <= old(lexer)@.input.len(),
    ensures
        final(lexer)@.input == old(lexer)@.input,
        r is Ok ==> final(lexer)@.revert == Seq::<MTokV>::empty() && 0 <= final(lexer)@.pos
            <= final(lexer)@.input.len() && old(lexer)@.pos <= final(lexer)@.pos,
        match r {
            Ok(Step::Matched) => final(lexer)@.done == false && sp_expect_name(
                old(lexer)@.input,
                old(lexer)@.pos,
                pv,
            ) == sp_expect_lparen(old(lexer)@.input, final(lexer)@.pos, pv),
            Ok(Step::Skipped) => final(lexer)@.done == false && sp_expect_name(
                old(lexer)@.input,
                old(lexer)@.pos,
                pv,
            ) == sp_scan(old(lexer)@.input, final(lexer)@.pos, pv),
            Ok(Step::End) => sp_expect_name(old(lexer)@.input, old(lexer)@.pos, pv) == Ok::<
                Seq<char>,
                MErrV,
            >(Seq::empty()),
            Err(e) => sp_expect_name(old(lexer)@.input, old(lexer)@.pos, pv) == Err::<
                Seq<char>,
                MErrV,
            >(e@),
        },
{
    let ghost s = lexer@.input;
    let ghost p = lexer@.pos;
    proof {
        lemma_m_step_progress(s, p);
    }
    let tok = match lexer.next() {
        Ok(Some(t)) => t,
        Ok(None) => { proof { assert(false); } unreached() },
        Err(e) => { return Err(e); },
    };
    match tok {
        Token::Ident(ann) => {
            if crate::strutil::str_eq(ann.as_str(), "ui_element") {
                Ok(Step::Matched)
            } else {
                Ok(Step::Skipped)
            }
        },
        Token::EOF => Ok(Step::End),
        _ => Ok(Step::Skipped),
    }
}

/// The tag step: captures the annotation's one identifier argument.
#[verifier::loop_isolation(false)]
#[verifier::rlimit(100)]
fn step_tag(lexer: &mut Lexer, Ghost(pv): Ghost<Seq<char>>) -> (r: Result<AnnStep, MetaLexError>)
    requires
        old(lexer)@.revert == Seq::<MTokV>::empty(),
        old(lexer)@.done == false,
        0 <= old(lexer)@.pos <= old(lexer)@.input.len(),
    ensures
        final(lexer)@.input == old(lexer)@.input,
        r is Ok ==> final(lexer)@.revert == Seq::<MTokV>::empty() && 0 <= final(lexer)@.pos
            <= final(lexer)@.input.len() && old(lexer)@.pos <= final(lexer)@.pos,
        match r {
            Ok(AnnStep::Tag(tag)) => final(lexer)@.done == false && sp_expect_tag(
                old(lexer)@.input,
                old(lexer)@.pos,
                pv,
            ) == sp_expect_rparen(old(lexer)@.input, final(lexer)@.pos, pv, tag@),
            Ok(AnnStep::Skipped) => final(lexer)@.done == false && sp_expect_tag(
                old(lexer)@.input,
                old(lexer)@.pos,
                pv,
            ) == sp_scan(old(lexer)@.input, final(lexer)@.pos, pv),
            Ok(AnnStep::End) => sp_expect_tag(old(lexer)@.input, old(lexer)@.pos, pv) == Ok::<
                Seq<char>,
                MErrV,
            >(Seq::empty()),
            Err(e) => sp_expect_tag(old(lexer)@.input, old(lexer)@.pos, pv) == Err::<
                Seq<char>,
                MErrV,
            >(e@),
        },
{
    let ghost s = lexer@.input;
    let ghost p = lexer@.pos;
    proof {
        lemma_m_step_progress(s, p);
    }
    let tok = match lexer.next() {
        Ok(Some(t)) => t,
        Ok(None) => { proof { assert(false); } unreached() },
        Err(e) => { return Err(e); },
    };
    match tok {
        Token::Ident(tag) => Ok(AnnStep::Tag(tag)),
        Token::EOF => Ok(AnnStep::End),
        _ => Ok(AnnStep::Skipped),
    }
}

/// The token after a matched annotation: a visibility keyword or the
/// declaration keyword.
#[verifier::loop_isolation(false)]
#[verifier::rlimit(100)]
fn step_after_annotation(lexer: &mut Lexer, tag: &String, Ghost(pv): Ghost<Seq<char>>) -> (r:
    Result<KwStep, MetaLexError>)
    requires
        old(lexer)@.revert == Seq::<MTokV>::empty(),
        old(lexer)@.done == false,
        0 <= old(lexer)@.pos <= old(lexer)@.input.len(),
    ensures
        final(lexer)@.input == old(lexer)@.input,
        r is Ok ==> final(lexer)@.revert == Seq::<MTokV>::empty() && 0 <= final(lexer)@.pos
            <= final(lexer)@.input.len() && old(lexer)@.pos <= final(lexer)@.pos,
        match r {
            Ok(KwStep::Vis) => final(lexer)@.done == false && sp_after_annotation(
                old(lexer)@.input,
                old(lexer)@.pos,
                pv,
                tag@,
            ) == sp_after_vis(old(lexer)@.input, final(lexer)@.pos, pv, tag@),
            Ok(KwStep::Decl) => final(lexer)@.done == false && sp_after_annotation(
                old(lexer)@.input,
                old(lexer)@.pos,
                pv,
                tag@,
            ) == sp_expect_type_name(old(lexer)@.input, final(lexer)@.pos, pv, tag@),
            Ok(KwStep::Qual) => false,
            Ok(KwStep::Skipped) => final(lexer)@.done == false && sp_after_annotation(
                old(lexer)@.input,
                old(lexer)@.pos,
                pv,
                tag@,
            ) == sp_scan(old(lexer)@.input, final(lexer)@.pos, pv),
            Ok(KwStep::End) => sp_after_annotation(old(lexer)@.input, old(lexer)@.pos, pv, tag@)
                == Ok::<Seq<char>, MErrV>(Seq::empty()),
            Err(e) => sp_after_annotation(old(lexer)@.input, old(lexer)@.pos, pv, tag@) == Err::<
                Seq<char>,
                MErrV,
            >(e@),
        },
{
    let ghost s = lexer@.input;
    let ghost p = lexer@.pos;
    proof {
        lemma_m_step_progress(s, p);
    }
    let tok = match lexer.next() {
        Ok(Some(t)) => t,
        Ok(None) => { proof { assert(false); } unreached() },
        Err(e) => { return Err(e); },
    };
    match tok {
        Token::Keyword(Keyword::Pub) => Ok(KwStep::Vis),
        Token::Keyword(Keyword::Struct) => Ok(KwStep::Decl),
        Token::EOF => Ok(KwStep::End),
        _ => Ok(KwStep::Skipped),
    }
}

/// The token after the visibility keyword: a qualifier, or the declaration
/// keyword.
#[verifier::loop_isolation(false)]
#[verifier::rlimit(100)]
fn step_after_vis(lexer: &mut Lexer, tag: &String, Ghost(pv): Ghost<Seq<char>>) -> (r: Result<
    KwStep,
    MetaLexError,
>)
    requires
        old(lexer)@.revert == Seq::<MTokV>::empty(),
        old(lexer)@.done == false,
        0 <= old(lexer)@.pos <= old(lexer)@.input.len(),
    ensures
        final(lexer)@.input == old(lexer)@.input,
        r is Ok ==> final(lexer)@.revert == Seq::<MTokV>::empty() && 0 <= final(lexer)@.pos
            <= final(lexer)@.input.len() && old(lexer)@.pos <= final(lexer)@.pos,
        match r {
            Ok(KwStep::Vis) => false,
            Ok(KwStep::Qual) => final(lexer)@.done == false && sp_after_vis(
                old(lexer)@.input,
                old(lexer)@.pos,
                pv,
                tag@,
            ) == sp_skip_qualifier(old(lexer)@.input, final(lexer)@.pos, pv, tag@),
            Ok(KwStep::Decl) => final(lexer)@.done == false && sp_after_vis(
                old(lexer)@.input,
                old(lexer)@.pos,
                pv,
                tag@,
            ) == sp_expect_type_name(old(lexer)@.input, final(lexer)@.pos, pv, tag@),
            Ok(KwStep::Skipped) => final(lexer)@.done == false && sp_after_vis(
                old(lexer)@.input,
                old(lexer)@.pos,
                pv,
                tag@,
            ) == sp_scan(old(lexer)@.input, final(lexer)@.pos, pv),
            Ok(KwStep::End) => sp_after_vis(old(lexer)@.input, old(lexer)@.pos, pv, tag@) == Ok::<
                Seq<char>,
                MErrV,
            >(Seq::empty()),
            Err(e) => sp_after_vis(old(lexer)@.input, old(lexer)@.pos, pv, tag@) == Err::<
                Seq<char>,
                MErrV,
            >(e@),
        },
{
    let ghost s = lexer@.input;
    let ghost p = lexer@.pos;
    proof {
        lemma_m_step_progress(s, p);
    }
    let tok = match lexer.next() {
        Ok(Some(t)) => t,
        Ok(None) => { proof { assert(false); } unreached() },
        Err(e) => { return Err(e); },
    };
    match tok {
        Token::LParen => Ok(KwStep::Qual),
        Token::Keyword(Keyword::Struct) => Ok(KwStep::Decl),
        Token::EOF => Ok(KwStep::End),
        _ => Ok(KwStep::Skipped),
    }
}

/// Consumes the visibility qualifier through its closing delimiter.
#[verifier::loop_isolation(false)]
#[verifier::rlimit(100)]
fn step_qualifier(lexer: &mut Lexer, tag: &String, Ghost(pv): Ghost<Seq<char>>) -> (r: Result<
    (),
    MetaLexError,
>)
    requires
        old(lexer)@.revert == Seq::<MTokV>::empty(),
        old(lexer)@.done == false,
        0 <= old(lexer)@.pos <= old(lexer)@.input.len(),
    ensures
        final(lexer)@.input == old(lexer)@.input,
        r is Ok ==> final(lexer)@.revert == Seq::<MTokV>::empty() && 0 <= final(lexer)@.pos
            <= final(lexer)@.input.len() && old(lexer)@.pos <= final(lexer)@.pos,
        match r {
            Ok(()) => final(lexer)@.done == false && sp_skip_qualifier(
                old(lexer)@.input,
                old(lexer)@.pos,
                pv,
                tag@,
            ) == sp_after_qualifier(old(lexer)@.input, final(lexer)@.pos, pv, tag@),
            Err(e) => sp_skip_qualifier(old(lexer)@.input, old(lexer)@.pos, pv, tag@) == Err::<
                Seq<char>,
                MErrV,
            >(e@),
        },
{
    let ghost s = lexer@.input;
    loop
        invariant
            lexer@.input == s,
            0 <= lexer@.pos <= s.len(),
            lexer@.revert == Seq::<MTokV>::empty(),
            lexer@.done == false,
            old(lexer)@.pos <= lexer@.pos,
            sp_skip_qualifier(s, old(lexer)@.pos, pv, tag@) == sp_skip_qualifier(
                s,
                lexer@.pos,
                pv,
                tag@,
            ),
        decreases s.len() - lexer@.pos,
    {
        let ghost pq = lexer@.pos;
        proof {
            lemma_m_step_progress(s, pq);
        }
        let t2 = match lexer.next() {
            Ok(Some(t)) => t,
            Ok(None) => { proof { assert(false); } unreached() },
            Err(e) => { return Err(e); },
        };
        match t2 {
            Token::RParen => {
                return Ok(());
            },
            Token::EOF => {
                return Err(MetaLexError::UnexpectedEof);
            },
            _ => {},
        }
    }
}

/// The token after the qualifier: the declaration keyword or a mismatch.
#[verifier::loop_isolation(false)]
#[verifier::rlimit(100)]
fn step_after_qualifier(lexer: &mut Lexer, tag: &String, Ghost(pv): Ghost<Seq<char>>) -> (r:
    Result<KwStep, MetaLexError>)
    requires
        old(lexer)@.revert == Seq::<MTokV>::empty(),
        old(lexer)@.done == false,
        0 <= old(lexer)@.pos <= old(lexer)@.input.len(),
    ensures
        final(lexer)@.input == old(lexer)@.input,
        r is Ok ==> final(lexer)@.revert == Seq::<MTokV>::empty() && 0 <= final(lexer)@.pos
            <= final(lexer)@.input.len() && old(lexer)@.pos <= final(lexer)@.pos,
        match r {
            Ok(KwStep::Vis) => false,
            Ok(KwStep::Qual) => false,
            Ok(KwStep::Decl) => final(lexer)@.done == false && sp_after_qualifier(
                old(lexer)@.input,
                old(lexer)@.pos,
                pv,
                tag@,
            ) == sp_expect_type_name(old(lexer)@.input, final(lexer)@.pos, pv, tag@),
            Ok(KwStep::Skipped) => final(lexer)@.done == false && sp_after_qualifier(
                old(lexer)@.input,
                old(lexer)@.pos,
                pv,
                tag@,
            ) == sp_scan(old(lexer)@.input, final(lexer)@.pos, pv),
            Ok(KwStep::End) => sp_after_qualifier(old(lexer)@.input, old(lexer)@.pos, pv, tag@)
                == Ok::<Seq<char>, MErrV>(Seq::empty()),
            Err(e) => sp_after_qualifier(old(lexer)@.input, old(lexer)@.pos, pv, tag@) == Err::<
                Seq<char>,
                MErrV,
            >(e@),
        },
{
    let ghost s = lexer@.input;
    let ghost p = lexer@.pos;
    proof {
        lemma_m_step_progress(s, p);
    }
    let tok = match lexer.next() {
        Ok(Some(t)) => t,
        Ok(None) => { proof { assert(false); } unreached() },
        Err(e) => { return Err(e); },
    };
    match tok {
        Token::Keyword(Keyword::Struct) => Ok(KwStep::Decl),
        Token::EOF => Ok(KwStep::End),
        _ => Ok(KwStep::Skipped),
    }
}

/// The type-name step after the declaration keyword.
#[verifier::loop_isolation(false)]
#[verifier::rlimit(100)]
fn step_type_name(lexer: &mut Lexer, tag: &String, Ghost(pv): Ghost<Seq<char>>) -> (r: Result<
    DeclStep,
    MetaLexError,
>)
    requires
        old(lexer)@.revert == Seq::<MTokV>::empty(),
        old(lexer)@.done == false,
        0 <= old(lexer)@.pos <= old(lexer)@.input.len(),
    ensures
        final(lexer)@.input == old(lexer)@.input,
        r is Ok ==> final(lexer)@.revert == Seq::<MTokV>::empty() && 0 <= final(lexer)@.pos
            <= final(lexer)@.input.len() && old(lexer)@.pos <= final(lexer)@.pos,
        match r {
            Ok(DeclStep::Name(name)) => final(lexer)@.done == false && sp_expect_type_name(
                old(lexer)@.input,
                old(lexer)@.pos,
                pv,
                tag@,
            ) == (match sp_scan(old(lexer)@.input, final(lexer)@.pos, pv) {
                Ok(rest) => Ok::<Seq<char>, MErrV>(sp_mk_record(tag@, pv, name@) + rest),
                Err(e) => Err::<Seq<char>, MErrV>(e),
            }),
            Ok(DeclStep::Skipped) => final(lexer)@.done == false && sp_expect_type_name(
                old(lexer)@.input,
                old(lexer)@.pos,
                pv,
                tag@,
            ) == sp_scan(old(lexer)@.input, final(lexer)@.pos, pv),
            Ok(DeclStep::End) => sp_expect_type_name(old(lexer)@.input, old(lexer)@.pos, pv, tag@)
                == Ok::<Seq<char>, MErrV>(Seq::empty()),
            Err(e) => sp_expect_type_name(old(lexer)@.input, old(lexer)@.pos, pv, tag@) == Err::<
                Seq<char>,
                MErrV,
            >(e@),
        },
{
    let ghost s = lexer@.input;
    let ghost p = lexer@.pos;
    proof {
        lemma_m_step_progress(s, p);
    }
    let tok = match lexer.next() {
        Ok(Some(t)) => t,
        Ok(None) => { proof { assert(false); } unreached() },
        Err(e) => { return Err(e); },
    };
    match tok {
        Token::Ident(name) => Ok(DeclStep::Name(name)),
        Token::EOF => Ok(DeclStep::End),
        _ => Ok(DeclStep::Skipped),
    }
}


/// What the hunt for the next `#` produced.
enum HashStep {
    Hash,
    Skipped,
    End,
}

/// Reads one token of the outer hunt: a `#` starts an annotation match.
#[verifier::loop_isolation(false)]
#[verifier::rlimit(100)]
fn step_hash(lexer: &mut Lexer, Ghost(pv): Ghost<Seq<char>>) -> (r: Result<HashStep, MetaLexError>)
    requires
        old(lexer)@.revert == Seq::<MTokV>::empty(),
        old(lexer)@.done == false,
        0 <= old(lexer)@.pos <= old(lexer)@.input.len(),
    ensures
        final(lexer)@.input == old(lexer)@.input,
        r is Ok ==> final(lexer)@.revert == Seq::<MTokV>::empty() && 0 <= final(lexer)@.pos
            <= final(lexer)@.input.len() && old(lexer)@.pos <= final(lexer)@.pos,
        match r {
            Ok(HashStep::Hash) => final(lexer)@.done == false && old(lexer)@.pos < final(lexer)@.pos && sp_scan(old(lexer)@.input, old(lexer)@.pos, pv) == sp_expect_lbracket(
                old(lexer)@.input,
                final(lexer)@.pos,
                pv,
            ),
            Ok(HashStep::Skipped) => final(lexer)@.done == false && old(lexer)@.pos < final(lexer)@.pos && sp_scan(old(lexer)@.input, old(lexer)@.pos, pv) == sp_scan(
                old(lexer)@.input,
                final(lexer)@.pos,
                pv,
            ),
            Ok(HashStep::End) => sp_scan(old(lexer)@.input, old(lexer)@.pos, pv) == Ok::<
                Seq<char>,
                MErrV,
            >(Seq::empty()),
            Err(e) => sp_scan(old(lexer)@.input, old(lexer)@.pos, pv) == Err::<Seq<char>, MErrV>(
                e@,
            ),
        },
{
    let ghost s = lexer@.input;
    let ghost p = lexer@.pos;
    proof {
        lemma_m_step_progress(s, p);
    }
    let tok = match lexer.next() {
        Ok(Some(t)) => t,
        Ok(None) => { proof { assert(false); } unreached() },
        Err(e) => { return Err(e); },
    };
    match tok {
        Token::Hash => Ok(HashStep::Hash),
        Token::EOF => Ok(HashStep::End),
        _ => Ok(HashStep::Skipped),
    }
}

/// Matches the annotation's bracketed shape after its `#`.
fn match_annotation(lexer: &mut Lexer, Ghost(pv): Ghost<Seq<char>>) -> (r: Result<
    AnnStep,
    MetaLexError,
>)
    requires
        old(lexer)@.revert == Seq::<MTokV>::empty(),
        old(lexer)@.done == false,
        0 <= old(lexer)@.pos <= old(lexer)@.input.len(),
    ensures
        final(lexer)@.input == old(lexer)@.input,
        r is Ok ==> final(lexer)@.revert == Seq::<MTokV>::empty() && 0 <= final(lexer)@.pos
            <= final(lexer)@.input.len() && old(lexer)@.pos <= final(lexer)@.pos,
        match r {
            Ok(AnnStep::Tag(tag)) => final(lexer)@.done == false && sp_expect_lbracket(
                old(lexer)@.input,
                old(lexer)@.pos,
                pv,
            ) == sp_after_annotation(old(lexer)@.input, final(lexer)@.pos, pv, tag@),
            Ok(AnnStep::Skipped) => final(lexer)@.done == false && sp_expect_lbracket(
                old(lexer)@.input,
                old(lexer)@.pos,
                pv,
            ) == sp_scan(old(lexer)@.input, final(lexer)@.pos, pv),
            Ok(AnnStep::End) => sp_expect_lbracket(old(lexer)@.input, old(lexer)@.pos, pv)
                == Ok::<Seq<char>, MErrV>(Seq::empty()),
            Err(e) => sp_expect_lbracket(old(lexer)@.input, old(lexer)@.pos, pv) == Err::<
                Seq<char>,
                MErrV,
            >(e@),
        },
{
    match step_lbracket(lexer, Ghost(pv)) {
        Ok(Step::Matched) => {},
        Ok(Step::Skipped) => { return Ok(AnnStep::Skipped); },
        Ok(Step::End) => { return Ok(AnnStep::End); },
        Err(e) => { return Err(e); },
    }
    match step_name(lexer, Ghost(pv)) {
        Ok(Step::Matched) => {},
        Ok(Step::Skipped) => { return Ok(AnnStep::Skipped); },
        Ok(Step::End) => { return Ok(AnnStep::End); },
        Err(e) => { return Err(e); },
    }
    match step_lparen(lexer, Ghost(pv)) {
        Ok(Step::Matched) => {},
        Ok(Step::Skipped) => { return Ok(AnnStep::Skipped); },
        Ok(Step::End) => { return Ok(AnnStep::End); },
        Err(e) => { return Err(e); },
    }
    let tag = match step_tag(lexer, Ghost(pv)) {
        Ok(AnnStep::Tag(tag)) => tag,
        Ok(AnnStep::Skipped) => { return Ok(AnnStep::Skipped); },
        Ok(AnnStep::End) => { return Ok(AnnStep::End); },
        Err(e) => { return Err(e); },
    };
    match step_rparen(lexer, &tag, Ghost(pv)) {
        Ok(Step::Matched) => {},
        Ok(Step::Skipped) => { return Ok(AnnStep::Skipped); },
        Ok(Step::End) => { return Ok(AnnStep::End); },
        Err(e) => { return Err(e); },
    }
    match step_rbracket(lexer, &tag, Ghost(pv)) {
        Ok(Step::Matched) => {},
        Ok(Step::Skipped) => { return Ok(AnnStep::Skipped); },
        Ok(Step::End) => { return Ok(AnnStep::End); },
        Err(e) => { return Err(e); },
    }
    Ok(AnnStep::Tag(tag))
}

/// Matches the optional visibility and the type declaration that follow a
/// matched annotation.
fn match_declaration(lexer: &mut Lexer, tag: &String, Ghost(pv): Ghost<Seq<char>>) -> (r: Result<
    DeclStep,
    MetaLexError,
>)
    requires
        old(lexer)@.revert == Seq::<MTokV>::empty(),
        old(lexer)@.done == false,
        0 <= old(lexer)@.pos <= old(lexer)@.input.len(),
    ensures
        final(lexer)@.input == old(lexer)@.input,
        r is Ok ==> final(lexer)@.revert == Seq::<MTokV>::empty() && 0 <= final(lexer)@.pos
            <= final(lexer)@.input.len() && old(lexer)@.pos <= final(lexer)@.pos,
        match r {
            Ok(DeclStep::Name(name)) => final(lexer)@.done == false && sp_after_annotation(
                old(lexer)@.input,
                old(lexer)@.pos,
                pv,
                tag@,
            ) == (match sp_scan(old(lexer)@.input, final(lexer)@.pos, pv) {
                Ok(rest) => Ok::<Seq<char>, MErrV>(sp_mk_record(tag@, pv, name@) + rest),
                Err(e) => Err::<Seq<char>, MErrV>(e),
            }),
            Ok(DeclStep::Skipped) => final(lexer)@.done == false && sp_after_annotation(
                old(lexer)@.input,
                old(lexer)@.pos,
                pv,
                tag@,
            ) == sp_scan(old(lexer)@.input, final(lexer)@.pos, pv),
            Ok(DeclStep::End) => sp_after_annotation(old(lexer)@.input, old(lexer)@.pos, pv, tag@)
                == Ok::<Seq<char>, MErrV>(Seq::empty()),
            Err(e) => sp_after_annotation(old(lexer)@.input, old(lexer)@.pos, pv, tag@) == Err::<
                Seq<char>,
                MErrV,
            >(e@),
        },
{
    match step_after_annotation(lexer, tag, Ghost(pv)) {
        Ok(KwStep::Decl) => {
            return step_type_name(lexer, tag, Ghost(pv));
        },
        Ok(KwStep::Vis) => {},
        Ok(KwStep::Qual) => { proof { assert(false); } return unreached(); },
        Ok(KwStep::Skipped) => { return Ok(DeclStep::Skipped); },
        Ok(KwStep::End) => { return Ok(DeclStep::End); },
        Err(e) => { return Err(e); },
    }
    match step_after_vis(lexer, tag, Ghost(pv)) {
        Ok(KwStep::Decl) => {
            return step_type_name(lexer, tag, Ghost(pv));
        },
        Ok(KwStep::Qual) => {},
        Ok(KwStep::Vis) => { proof { assert(false); } return unreached(); },
        Ok(KwStep::Skipped) => { return Ok(DeclStep::Skipped); },
        Ok(KwStep::End) => { return Ok(DeclStep::End); },
        Err(e) => { return Err(e); },
    }
    match step_qualifier(lexer, tag, Ghost(pv)) {
        Ok(()) => {},
        Err(e) => { return Err(e); },
    }
    match step_after_qualifier(lexer, tag, Ghost(pv)) {
        Ok(KwStep::Decl) => step_type_name(lexer, tag, Ghost(pv)),
        Ok(KwStep::Vis) => { proof { assert(false); } unreached() },
        Ok(KwStep::Qual) => { proof { assert(false); } unreached() },
        Ok(KwStep::Skipped) => Ok(DeclStep::Skipped),
        Ok(KwStep::End) => Ok(DeclStep::End),
        Err(e) => Err(e),
    }
}

/// Scans one source text for annotated type declarations and returns the
/// records they denote, in order of appearance.  `path` is the namespace
/// path of the file, already joined; it is empty at the scan root.
#[verifier::loop_isolation(false)]
#[verifier::rlimit(100)]
#[verifier::spinoff_prover]
pub fn check_file(contents: String, path: &str) -> (r: Result<String, MetaLexError>)
    ensures
        match r {
            Ok(records) => sp_check_file(contents@, path@) == Ok::<Seq<char>, MErrV>(records@),
            Err(e) => sp_check_file(contents@, path@) == Err::<Seq<char>, MErrV>(e@),
        },
{
    let ghost s = contents@;
    let ghost pv = path@;
    let mut lexer = Lexer::new(contents);
    let mut res = String::new();
    proof {
        assert(res@ + Seq::<char>::empty() =~= res@);
    }
    loop
        invariant
            lexer@.input == s,
            0 <= lexer@.pos <= s.len(),
            lexer@.revert == Seq::<MTokV>::empty(),
            lexer@.done == false,
            pv == path@,
            match sp_scan(s, lexer@.pos, pv) {
                Ok(rest) => sp_check_file(s, pv) == Ok::<Seq<char>, MErrV>(res@ + rest),
                Err(e) => sp_check_file(s, pv) == Err::<Seq<char>, MErrV>(e),
            },
        decreases s.len() - lexer@.pos,
    {
        match step_hash(&mut lexer, Ghost(pv)) {
            Ok(HashStep::Hash) => {},
            Ok(HashStep::Skipped) => {
                continue;
            },
            Ok(HashStep::End) => {
                proof {
                    assert(res@ + Seq::<char>::empty() =~= res@);
                }
                return Ok(res);
            },
            Err(e) => {
                return Err(e);
            },
        }
        let tag = match match_annotation(&mut lexer, Ghost(pv)) {
            Ok(AnnStep::Tag(tag)) => tag,
            Ok(AnnStep::Skipped) => {
                continue;
            },
            Ok(AnnStep::End) => {
                proof {
                    assert(res@ + Seq::<char>::empty() =~= res@);
                }
                return Ok(res);
            },
            Err(e) => {
                return Err(e);
            },
        };
        match match_declaration(&mut lexer, &tag, Ghost(pv)) {
            Ok(DeclStep::Name(name)) => {
                let ghost res0 = res@;
                res.append(tag.as_str());
                res.append("=");
                if !path.is_empty() {
                    res.append(path);
                    res.append("::");
                }
                res.append(name.as_str());
                res.append(";");
                proof {
                    assert(res@ =~= res0 + sp_mk_record(tag@, pv, name@));
                    match sp_scan(s, lexer@.pos, pv) {
                        Ok(rest) => {
                            assert(res0 + (sp_mk_record(tag@, pv, name@) + rest) =~= res@ + rest);
                        },
                        Err(e) => {},
                    }
                }
            },
            Ok(DeclStep::Skipped) => {
                continue;
            },
            Ok(DeclStep::End) => {
                proof {
                    assert(res@ + Seq::<char>::empty() =~= res@);
                }
                return Ok(res);
            },
            Err(e) => {
                return Err(e);
            },
        }
    }
}


/// One scanned source, as plain values: its text and its namespace path,
/// already joined.
#[derive(Debug)]
pub struct SourceFile {
    pub contents: String,
    pub path: String,
}

/// The mathematical image of a [`SourceFile`].
pub ghost struct SourceFileV {
    pub contents: Seq<char>,
    pub path: Seq<char>,
}

impl View for SourceFile {
    type V = SourceFileV;

    open spec fn view(&self) -> SourceFileV {
        SourceFileV { contents: self.contents@, path: self.path@ }
    }
}

/// The views of a source list.
pub open spec fn sources_view(v: Seq<SourceFile>) -> Seq<SourceFileV> {
    v.map_values(|f: SourceFile| f@)
}

/// The whole persisted table: the records of every source, concatenated in
/// traversal order, from source `i` on; or the first source's fatal error.
pub open spec fn sp_scan_sources(fs: Seq<SourceFileV>, i: int) -> Result<Seq<char>, MErrV>
    decreases fs.len() - i,
{
    if i < 0 || i >= fs.len() {
        Ok(Seq::empty())
    } else {
        match sp_check_file(fs[i].contents, fs[i].path) {
            Err(e) => Err(e),
            Ok(recs) => match sp_scan_sources(fs, i + 1) {
                Ok(rest) => Ok(recs + rest),
                Err(e) => Err(e),
            },
        }
    }
}

/// Scans the given sources in traversal order and concatenates their
/// records into the persisted table.
pub fn scan_sources(files: &Vec<SourceFile>) -> (r: Result<String, MetaLexError>)
    ensures
        match r {
            Ok(table) => sp_scan_sources(sources_view(files@), 0) == Ok::<Seq<char>, MErrV>(
                table@,
            ),
            Err(e) => sp_scan_sources(sources_view(files@), 0) == Err::<Seq<char>, MErrV>(e@),
        },
{
    let ghost fv = sources_view(files@);
    let n: usize = files.len();
    let mut out = String::new();
    let mut i: usize = 0;
    proof {
        assert(fv.len() == n);
        assert(out@ + Seq::<char>::empty() =~= out@);
    }
    while i < n
        invariant
            n == files@.len(),
            fv == sources_view(files@),
            fv.len() == n,
            0 <= i <= n,
            match sp_scan_sources(fv, i as int) {
                Ok(rest) => sp_scan_sources(fv, 0) == Ok::<Seq<char>, MErrV>(out@ + rest),
                Err(e) => sp_scan_sources(fv, 0) == Err::<Seq<char>, MErrV>(e),
            },
        decreases n - i,
    {
        let ghost out0 = out@;
        proof {
            assert(fv[i as int] == files@[i as int]@);
        }
        let contents = files[i].contents.clone();
        match check_file(contents, files[i].path.as_str()) {
            Ok(recs) => {
                out.append(recs.as_str());
                i = i + 1;
                proof {
                    match sp_scan_sources(fv, i as int) {
                        Ok(rest) => {
                            assert(out@ + rest =~= out0 + (recs@ + rest));
                        },
                        Err(e) => {},
                    }
                }
            },
            Err(e) => {
                return Err(e);
            },
        }
    }
    proof {
        assert(out@ =~= out@ + Seq::<char>::empty());
    }
    Ok(out)
}

/// The path segment a directory entry contributes to the namespace path: a
/// directory contributes its name; a source file contributes its stem,
/// except the crate-root and entry-point stems at the scan root, and the
/// directory-module stem anywhere.
pub open spec fn sp_path_segment(name: Seq<char>, path_empty: bool) -> Option<Seq<char>> {
    if !ends_with(name, ".rs"@) {
        Some(name)
    } else {
        let stem = name.subrange(0, name.len() - 3);
        if (stem == "lib"@ || stem == "main"@) && path_empty {
            None
        } else if stem == "mod"@ {
            None
        } else {
            Some(stem)
        }
    }
}

/// Computes the namespace segment a scanned entry contributes, mirroring
/// [`sp_path_segment`].
pub fn path_segment(name: &str, path_empty: bool) -> (r: Option<String>)
    ensures
        match r {
            Some(seg) => sp_path_segment(name@, path_empty) == Some(seg@),
            None => sp_path_segment(name@, path_empty) is None,
        },
{
    if !str_ends_with(name, ".rs") {
        let mut out = String::new();
        out.append(name);
        return Some(out);
    }
    let v = crate::chars::str_chars(name);
    proof {
        reveal_strlit(".rs");
    }
    let stem_len = v.len() - 3;
    let stem = crate::chars::chars_string(&v, 0, stem_len);
    proof {
        assert(stem@ == name@.subrange(0, name@.len() - 3));
    }
    if (crate::strutil::str_eq(stem.as_str(), "lib") || crate::strutil::str_eq(
        stem.as_str(),
        "main",
    )) && path_empty {
        return None;
    }
    if crate::strutil::str_eq(stem.as_str(), "mod") {
        return None;
    }
    Some(stem)
}

} // verus!
