//! The markup parser: recursive descent over the token sequence, building
//! the element tree.
//!
//! A document is a sequence of elements, each introduced by `<`.  An element
//! is either named (tag, attributes, optional children) or the unnamed
//! wrapper (`<>`-style: a `<` immediately followed by `>`).  The attribute
//! names `id` and `class` are special: both require string literals, `id`
//! overwrites, `class` is split into an ordered word list.  A closing tag
//! must name the element it closes, or the parse fails.  Text children are
//! normalized by [`trim_join`], which preserves their word sequence
//! ([`crate::strutil::lemma_trim_join_preserves_words`]).

use vstd::prelude::*;
use vstd::string::StringExecFns;
use crate::chars::str_chars;
use crate::strutil::{
    lemma_trim_join_preserves_words, split_words, str_eq, strs_view, trim_join, trim_join_text,
    words,
};
use crate::xml_lexer::{LitV, Literal, TokV, Token, toks_view};
use crate::xml_tree::{
    Attribute, AttrV, Child, ChildV, NamedNode, NamedV, Node, NodeV, UnnamedNode, UnnamedV,
    attrs_view, children_view, nodes_view,
};

verus! {

/// A syntax error in a markup document.
#[derive(Debug, PartialEq, Clone)]
pub enum ParseError {
    /// The input ended where the named construct was expected.
    UnexpectedEof { expected: String },
    /// A top-level token other than `<`.
    ExpectedTagStart { found: Token },
    ExpectedIdent { found: Token },
    ExpectedEquals { found: Token },
    ExpectedLiteral { found: Token },
    /// The `id` attribute takes a string literal.
    IdNotString { value: Literal },
    /// The `class` attribute takes a string literal.
    ClassNotString { value: Literal },
    /// A closing tag naming a different element than the open one.
    MismatchedClosingTag { expected: String, found: String },
    ExpectedCloseTag { found: Token },
    /// A token that cannot start a child; carries the tag awaiting closure.
    UnexpectedChildToken { tag: String, found: Token },
    /// The input ended inside the element with this tag (empty for the
    /// unnamed wrapper).
    UnterminatedElement { tag: String },
}

/// The mathematical image of a [`ParseError`].
pub ghost enum PErrV {
    UnexpectedEof { expected: Seq<char> },
    ExpectedTagStart { found: TokV },
    ExpectedIdent { found: TokV },
    ExpectedEquals { found: TokV },
    ExpectedLiteral { found: TokV },
    IdNotString { value: LitV },
    ClassNotString { value: LitV },
    MismatchedClosingTag { expected: Seq<char>, found: Seq<char> },
    ExpectedCloseTag { found: TokV },
    UnexpectedChildToken { tag: Seq<char>, found: TokV },
    UnterminatedElement { tag: Seq<char> },
}

impl View for ParseError {
    type V = PErrV;

    open spec fn view(&self) -> PErrV {
        match self {
            ParseError::UnexpectedEof { expected } => PErrV::UnexpectedEof { expected: expected@ },
            ParseError::ExpectedTagStart { found } => PErrV::ExpectedTagStart { found: found@ },
            ParseError::ExpectedIdent { found } => PErrV::ExpectedIdent { found: found@ },
            ParseError::ExpectedEquals { found } => PErrV::ExpectedEquals { found: found@ },
            ParseError::ExpectedLiteral { found } => PErrV::ExpectedLiteral { found: found@ },
            ParseError::IdNotString { value } => PErrV::IdNotString { value: value@ },
            ParseError::ClassNotString { value } => PErrV::ClassNotString { value: value@ },
            ParseError::MismatchedClosingTag { expected, found } => PErrV::MismatchedClosingTag {
                expected: expected@,
                found: found@,
            },
            ParseError::ExpectedCloseTag { found } => PErrV::ExpectedCloseTag { found: found@ },
            ParseError::UnexpectedChildToken { tag, found } => PErrV::UnexpectedChildToken {
                tag: tag@,
                found: found@,
            },
            ParseError::UnterminatedElement { tag } => PErrV::UnterminatedElement { tag: tag@ },
        }
    }
}

/// The view of an optional enclosing tag name.
pub open spec fn opt_tag_view(o: Option<&String>) -> Option<Seq<char>> {
    match o {
        Some(t) => Some(t@),
        None => None,
    }
}

/// The tag name an error message shows for an enclosing element.
pub open spec fn sp_closing_name(closing: Option<Seq<char>>) -> Seq<char> {
    match closing {
        Some(t) => t,
        None => Seq::empty(),
    }
}

/// Clamps an index into `[lo, hi]`; the parser's spec functions use it so
/// that their recursion is visibly bounded.
pub open spec fn sp_clamp(j: int, lo: int, hi: int) -> int {
    if j < lo {
        lo
    } else if j > hi {
        hi
    } else {
        j
    }
}

/// Parses the top level of a document: a sequence of elements.
pub open spec fn sp_parse_top(toks: Seq<TokV>, i: int) -> Result<Seq<NodeV>, PErrV>
    decreases toks.len() - i, 3int,
{
    if i < 0 || i >= toks.len() {
        Ok(Seq::empty())
    } else {
        match toks[i] {
            TokV::Tag => match sp_parse_node(toks, i + 1) {
                Ok((n, j)) => {
                    let j2: int = sp_clamp(j, i + 1, toks.len() as int);
                    match sp_parse_top(toks, j2) {
                        Ok(rest) => Ok(seq![n] + rest),
                        Err(e) => Err(e),
                    }
                },
                Err(e) => Err(e),
            },
            t => Err(PErrV::ExpectedTagStart { found: t }),
        }
    }
}

/// Parses one element, entered just after its `<` token.
pub open spec fn sp_parse_node(toks: Seq<TokV>, i: int) -> Result<(NodeV, int), PErrV>
    decreases toks.len() - i, 2int,
{
    if i < 0 {
        Err(PErrV::UnexpectedEof { expected: "identifier"@ })
    } else if i >= toks.len() {
        Err(PErrV::UnexpectedEof { expected: "identifier"@ })
    } else {
        match toks[i] {
            TokV::CloseTag => match sp_parse_children(toks, i + 1, None) {
                Ok((cs, j)) => Ok((NodeV::Unnamed(UnnamedV { children: cs }), j)),
                Err(e) => Err(e),
            },
            TokV::Ident(tag) => sp_parse_attrs(
                toks,
                i + 1,
                tag,
                Seq::empty(),
                Seq::empty(),
                Seq::empty(),
            ),
            t => Err(PErrV::ExpectedIdent { found: t }),
        }
    }
}

/// Parses the attribute list of a named element, then its children.
pub open spec fn sp_parse_attrs(
    toks: Seq<TokV>,
    i: int,
    tag: Seq<char>,
    id: Seq<char>,
    class: Seq<Seq<char>>,
    attrs: Seq<AttrV>,
) -> Result<(NodeV, int), PErrV>
    decreases toks.len() - i, 1int,
{
    if i < 0 || i >= toks.len() {
        Err(PErrV::UnexpectedEof { expected: "identifier or '<'"@ })
    } else {
        match toks[i] {
            TokV::CloseTag => match sp_parse_children(toks, i + 1, Some(tag)) {
                Ok((cs, j)) => Ok(
                    (NodeV::Named(NamedV { tag, id, class, attributes: attrs, children: cs }), j),
                ),
                Err(e) => Err(e),
            },
            TokV::InlineCloseTag => Ok(
                (
                    NodeV::Named(
                        NamedV { tag, id, class, attributes: attrs, children: Seq::empty() },
                    ),
                    i + 1,
                ),
            ),
            TokV::Ident(name) => {
                if i + 1 >= toks.len() {
                    Err(PErrV::UnexpectedEof { expected: "'='"@ })
                } else if !(toks[i + 1] is Equals) {
                    Err(PErrV::ExpectedEquals { found: toks[i + 1] })
                } else if i + 2 >= toks.len() {
                    Err(PErrV::UnexpectedEof { expected: "literal"@ })
                } else {
                    match toks[i + 2] {
                        TokV::Literal(lit) => {
                            if name == "id"@ {
                                match lit {
                                    LitV::Str(s) => sp_parse_attrs(toks, i + 3, tag, s, class, attrs),
                                    _ => Err(PErrV::IdNotString { value: lit }),
                                }
                            } else if name == "class"@ {
                                match lit {
                                    LitV::Str(s) => sp_parse_attrs(
                                        toks,
                                        i + 3,
                                        tag,
                                        id,
                                        words(s),
                                        attrs,
                                    ),
                                    _ => Err(PErrV::ClassNotString { value: lit }),
                                }
                            } else {
                                sp_parse_attrs(
                                    toks,
                                    i + 3,
                                    tag,
                                    id,
                                    class,
                                    attrs.push(AttrV { name, value: lit }),
                                )
                            }
                        },
                        t => Err(PErrV::ExpectedLiteral { found: t }),
                    }
                }
            },
            t => Err(PErrV::ExpectedIdent { found: t }),
        }
    }
}

/// Parses children until the enclosing element's closing tag.  `closing` is
/// the open element's tag name, or `None` inside the unnamed wrapper, whose
/// closing tag carries no name.
pub open spec fn sp_parse_children(toks: Seq<TokV>, i: int, closing: Option<Seq<char>>) -> Result<
    (Seq<ChildV>, int),
    PErrV,
>
    decreases toks.len() - i, 4int,
{
    if i < 0 || i >= toks.len() {
        Err(PErrV::UnterminatedElement { tag: sp_closing_name(closing) })
    } else {
        match toks[i] {
            TokV::Tag => match sp_parse_node(toks, i + 1) {
                Ok((n, j)) => {
                    let j2: int = sp_clamp(j, i + 1, toks.len() as int);
                    match sp_parse_children(toks, j2, closing) {
                        Ok((cs, k)) => Ok((seq![ChildV::Node(n)] + cs, k)),
                        Err(e) => Err(e),
                    }
                },
                Err(e) => Err(e),
            },
            TokV::Contents(c) => match sp_parse_children(toks, i + 1, closing) {
                Ok((cs, k)) => Ok((seq![ChildV::Text(trim_join(c))] + cs, k)),
                Err(e) => Err(e),
            },
            TokV::ClosingTag => match closing {
                Some(tag) => {
                    if i + 1 >= toks.len() {
                        Err(PErrV::UnexpectedEof { expected: "identifier or '>'"@ })
                    } else {
                        match toks[i + 1] {
                            TokV::Ident(name) => {
                                if name != tag {
                                    Err(
                                        PErrV::MismatchedClosingTag {
                                            expected: tag,
                                            found: name,
                                        },
                                    )
                                } else if i + 2 >= toks.len() {
                                    Err(PErrV::UnexpectedEof { expected: "'>'"@ })
                                } else if toks[i + 2] is CloseTag {
                                    Ok((Seq::empty(), i + 3))
                                } else {
                                    Err(PErrV::ExpectedCloseTag { found: toks[i + 2] })
                                }
                            },
                            t => Err(PErrV::ExpectedIdent { found: t }),
                        }
                    }
                },
                None => {
                    if i + 1 >= toks.len() {
                        Err(PErrV::UnexpectedEof { expected: "'>'"@ })
                    } else if toks[i + 1] is CloseTag {
                        Ok((Seq::empty(), i + 2))
                    } else {
                        Err(PErrV::ExpectedCloseTag { found: toks[i + 1] })
                    }
                },
            },
            t => Err(
                PErrV::UnexpectedChildToken { tag: sp_closing_name(closing), found: t },
            ),
        }
    }
}

/// The tree a whole token sequence parses into.
pub open spec fn sp_parse(toks: Seq<TokV>) -> Result<Seq<NodeV>, PErrV> {
    sp_parse_top(toks, 0)
}

/// Every text child the parser produces is its content run normalized by
/// [`trim_join`]: the run's word sequence is preserved, its original
/// whitespace is not.
pub proof fn lemma_text_child_normalized(
    toks: Seq<TokV>,
    i: int,
    closing: Option<Seq<char>>,
    c: Seq<char>,
)
    requires
        0 <= i < toks.len(),
        toks[i] == TokV::Contents(c),
        sp_parse_children(toks, i, closing) is Ok,
    ensures
        ({
            let r = sp_parse_children(toks, i, closing)->Ok_0;
            r.0.len() > 0 && r.0[0] == ChildV::Text(trim_join(c)) && words(trim_join(c))
                == words(c)
        }),
{
    lemma_trim_join_preserves_words(c);
    match sp_parse_children(toks, i + 1, closing) {
        Ok((cs, k)) => {
            assert((seq![ChildV::Text(trim_join(c))] + cs)[0] == ChildV::Text(trim_join(c)));
        },
        Err(e) => {},
    }
}

/// A verified copy of a token (the derived clone carries no contract).
fn clone_token(t: &Token) -> (r: Token)
    ensures
        r@ == t@,
{
    match t {
        Token::Tag => Token::Tag,
        Token::ClosingTag => Token::ClosingTag,
        Token::CloseTag => Token::CloseTag,
        Token::InlineCloseTag => Token::InlineCloseTag,
        Token::Ident(s) => Token::Ident(s.clone()),
        Token::Literal(l) => Token::Literal(clone_literal(l)),
        Token::Equals => Token::Equals,
        Token::Contents(s) => Token::Contents(s.clone()),
    }
}

/// A verified copy of a literal.
fn clone_literal(l: &Literal) -> (r: Literal)
    ensures
        r@ == l@,
{
    match l {
        Literal::String(s) => Literal::String(s.clone()),
        Literal::Int(i) => Literal::Int(*i),
        Literal::Float(t) => Literal::Float(t.clone()),
    }
}

/// Parses a whole document's token sequence into its top-level elements.
pub fn parse(tokens: Vec<Token>) -> (r: Result<Vec<Node>, ParseError>)
    ensures
        match r {
            Ok(nodes) => sp_parse(toks_view(tokens@)) == Ok::<Seq<NodeV>, PErrV>(
                nodes_view(nodes@),
            ),
            Err(e) => sp_parse(toks_view(tokens@)) == Err::<Seq<NodeV>, PErrV>(e@),
        },
{
    let ghost tv = toks_view(tokens@);
    let n: usize = tokens.len();
    let mut nodes: Vec<Node> = Vec::new();
    let mut i: usize = 0;
    proof {
        assert(tv.len() == tokens@.len());
    }
    while i < n
        invariant
            n == tokens@.len(),
            tv == toks_view(tokens@),
            tv.len() == n,
            0 <= i <= n,
            match sp_parse_top(tv, i as int) {
                Ok(rest) => sp_parse(tv) == Ok::<Seq<NodeV>, PErrV>(nodes_view(nodes@) + rest),
                Err(e) => sp_parse(tv) == Err::<Seq<NodeV>, PErrV>(e),
            },
        decreases n - i,
    {
        let ghost pre = nodes_view(nodes@);
        proof {
            assert(tv[i as int] == tokens@[i as int]@);
        }
        let t = &tokens[i];
        match t {
            Token::Tag => {
                match parse_node(&tokens, i + 1) {
                    Ok((node, j)) => {
                        let ghost nv = node@;
                        nodes.push(node);
                        proof {
                            assert(nodes_view(nodes@) =~= pre.push(nv));
                            match sp_parse_top(tv, j as int) {
                                Ok(rest) => {
                                    assert(pre + (seq![nv] + rest) =~= nodes_view(nodes@) + rest);
                                },
                                Err(e) => {},
                            }
                        }
                        i = j;
                    },
                    Err(e) => {
                        return Err(e);
                    },
                }
            },
            other => {
                return Err(ParseError::ExpectedTagStart { found: clone_token(other) });
            },
        }
    }
    proof {
        assert(nodes_view(nodes@) + Seq::<NodeV>::empty() =~= nodes_view(nodes@));
    }
    Ok(nodes)
}

/// Parses one element, entered just after its `<` token.
fn parse_node(toks: &Vec<Token>, i: usize) -> (r: Result<(Node, usize), ParseError>)
    requires
        i <= toks@.len(),
    ensures
        match r {
            Ok((node, j)) => i < j <= toks@.len() && sp_parse_node(toks_view(toks@), i as int)
                == Ok::<(NodeV, int), PErrV>((node@, j as int)),
            Err(e) => sp_parse_node(toks_view(toks@), i as int) == Err::<(NodeV, int), PErrV>(e@),
        },
    decreases toks@.len() - i, 2int,
{
    let ghost tv = toks_view(toks@);
    let n: usize = toks.len();
    proof {
        assert(tv.len() == n);
    }
    if i == n {
        return Err(ParseError::UnexpectedEof { expected: String::from_str("identifier") });
    }
    proof {
        assert(tv[i as int] == toks@[i as int]@);
    }
    let t = &toks[i];
    match t {
        Token::CloseTag => {
            match parse_children(toks, i + 1, None) {
                Ok((children, j)) => {
                    proof {
                        crate::xml_tree::lemma_children_of_is_view(children);
                    }
                    let node = Node::Unnamed(UnnamedNode { children });
                    Ok((node, j))
                },
                Err(e) => Err(e),
            }
        },
        Token::Ident(tag_ref) => {
            let tag = tag_ref.clone();
            parse_attrs(toks, i + 1, tag)
        },
        other => Err(ParseError::ExpectedIdent { found: clone_token(other) }),
    }
}

/// Parses a named element's attribute list and then its body.
fn parse_attrs(toks: &Vec<Token>, i: usize, tag: String) -> (r: Result<
    (Node, usize),
    ParseError,
>)
    requires
        i <= toks@.len(),
    ensures
        match r {
            Ok((node, j)) => i < j <= toks@.len() && sp_parse_attrs(
                toks_view(toks@),
                i as int,
                tag@,
                Seq::empty(),
                Seq::empty(),
                Seq::empty(),
            ) == Ok::<(NodeV, int), PErrV>((node@, j as int)),
            Err(e) => sp_parse_attrs(
                toks_view(toks@),
                i as int,
                tag@,
                Seq::empty(),
                Seq::empty(),
                Seq::empty(),
            ) == Err::<(NodeV, int), PErrV>(e@),
        },
    decreases toks@.len() - i, 1int,
{
    let ghost tv = toks_view(toks@);
    let ghost tag0 = tag@;
    let n: usize = toks.len();
    let mut id = String::new();
    let mut class: Vec<String> = Vec::new();
    let mut attributes: Vec<Attribute> = Vec::new();
    let mut k: usize = i;
    proof {
        assert(tv.len() == n);
        assert(id@ =~= Seq::<char>::empty());
        assert(strs_view(class@) =~= Seq::<Seq<char>>::empty());
        assert(attrs_view(attributes@) =~= Seq::<AttrV>::empty());
    }
    loop
        invariant
            n == toks@.len(),
            tv == toks_view(toks@),
            tv.len() == n,
            i <= k <= n,
            tag@ == tag0,
            sp_parse_attrs(tv, i as int, tag0, Seq::empty(), Seq::empty(), Seq::empty())
                == sp_parse_attrs(tv, k as int, tag0, id@, strs_view(class@), attrs_view(attributes@)),
        decreases n - k,
    {
        if k == n {
            return Err(
                ParseError::UnexpectedEof { expected: String::from_str("identifier or '<'") },
            );
        }
        proof {
            assert(tv[k as int] == toks@[k as int]@);
        }
        let t = &toks[k];
        match t {
            Token::CloseTag => {
                match parse_children(toks, k + 1, Some(&tag)) {
                    Ok((children, j)) => {
                        proof {
                            crate::xml_tree::lemma_children_of_is_view(children);
                        }
                        let node = Node::Named(
                            NamedNode { tag, id, class, attributes, children },
                        );
                        return Ok((node, j));
                    },
                    Err(e) => {
                        return Err(e);
                    },
                }
            },
            Token::InlineCloseTag => {
                let empty_children: Vec<Child> = Vec::new();
                proof {
                    crate::xml_tree::lemma_children_of_is_view(empty_children);
                    assert(children_view(empty_children@) =~= Seq::<ChildV>::empty());
                }
                let node = Node::Named(
                    NamedNode { tag, id, class, attributes, children: empty_children },
                );
                return Ok((node, k + 1));
            },
            Token::Ident(name_ref) => {
                if k + 1 == n {
                    return Err(ParseError::UnexpectedEof { expected: String::from_str("'='") });
                }
                proof {
                    assert(tv[k as int + 1] == toks@[k as int + 1]@);
                }
                let t2 = &toks[k + 1];
                match t2 {
                    Token::Equals => {},
                    other => {
                        return Err(ParseError::ExpectedEquals { found: clone_token(other) });
                    },
                }
                if k + 2 == n {
                    return Err(
                        ParseError::UnexpectedEof { expected: String::from_str("literal") },
                    );
                }
                proof {
                    assert(tv[k as int + 2] == toks@[k as int + 2]@);
                }
                let t3 = &toks[k + 2];
                match t3 {
                    Token::Literal(lit) => {
                        if str_eq(name_ref.as_str(), "id") {
                            match lit {
                                Literal::String(s) => {
                                    id = s.clone();
                                },
                                other => {
                                    return Err(
                                        ParseError::IdNotString { value: clone_literal(other) },
                                    );
                                },
                            }
                        } else if str_eq(name_ref.as_str(), "class") {
                            match lit {
                                Literal::String(s) => {
                                    let cv = str_chars(s.as_str());
                                    class = split_words(&cv);
                                },
                                other => {
                                    return Err(
                                        ParseError::ClassNotString { value: clone_literal(other) },
                                    );
                                },
                            }
                        } else {
                            let ghost attrsv = attrs_view(attributes@);
                            let a = Attribute {
                                name: name_ref.clone(),
                                value: clone_literal(lit),
                            };
                            let ghost av = a@;
                            attributes.push(a);
                            proof {
                                assert(attrs_view(attributes@) =~= attrsv.push(av));
                            }
                        }
                        k = k + 3;
                    },
                    other => {
                        return Err(ParseError::ExpectedLiteral { found: clone_token(other) });
                    },
                }
            },
            other => {
                return Err(ParseError::ExpectedIdent { found: clone_token(other) });
            },
        }
    }
}

/// Parses the children of an open element until its closing tag.
fn parse_children(toks: &Vec<Token>, i: usize, closing: Option<&String>) -> (r: Result<
    (Vec<Child>, usize),
    ParseError,
>)
    requires
        i <= toks@.len(),
    ensures
        match r {
            Ok((cs, j)) => i < j <= toks@.len() && sp_parse_children(
                toks_view(toks@),
                i as int,
                opt_tag_view(closing),
            ) == Ok::<(Seq<ChildV>, int), PErrV>((children_view(cs@), j as int)),
            Err(e) => sp_parse_children(toks_view(toks@), i as int, opt_tag_view(closing))
                == Err::<(Seq<ChildV>, int), PErrV>(e@),
        },
    decreases toks@.len() - i, 0int,
{
    let ghost tv = toks_view(toks@);
    let ghost cl = opt_tag_view(closing);
    let n: usize = toks.len();
    let mut children: Vec<Child> = Vec::new();
    let mut k: usize = i;
    proof {
        assert(tv.len() == n);
        assert(children_view(children@) =~= Seq::<ChildV>::empty());
    }
    loop
        invariant
            n == toks@.len(),
            tv == toks_view(toks@),
            tv.len() == n,
            i <= k <= n,
            cl == opt_tag_view(closing),
            match sp_parse_children(tv, k as int, cl) {
                Ok((cs, j)) => sp_parse_children(tv, i as int, cl) == Ok::<
                    (Seq<ChildV>, int),
                    PErrV,
                >((children_view(children@) + cs, j)),
                Err(e) => sp_parse_children(tv, i as int, cl) == Err::<
                    (Seq<ChildV>, int),
                    PErrV,
                >(e),
            },
        decreases n - k,
    {
        if k == n {
            let tag_name = match closing {
                Some(t) => (*t).clone(),
                None => String::new(),
            };
            return Err(ParseError::UnterminatedElement { tag: tag_name });
        }
        proof {
            assert(tv[k as int] == toks@[k as int]@);
        }
        let ghost pre = children_view(children@);
        let t = &toks[k];
        match t {
            Token::Tag => {
                match parse_node(toks, k + 1) {
                    Ok((node, j)) => {
                        let ghost nv = node@;
                        children.push(Child::Node(node));
                        proof {
                            assert(children_view(children@) =~= pre.push(ChildV::Node(nv)));
                            match sp_parse_children(tv, j as int, cl) {
                                Ok((cs, jj)) => {
                                    assert(pre + (seq![ChildV::Node(nv)] + cs)
                                        =~= children_view(children@) + cs);
                                },
                                Err(e) => {},
                            }
                        }
                        k = j;
                    },
                    Err(e) => {
                        return Err(e);
                    },
                }
            },
            Token::Contents(c) => {
                let cv = str_chars(c.as_str());
                let text = trim_join_text(&cv);
                children.push(Child::String(text));
                proof {
                    assert(children_view(children@) =~= pre.push(ChildV::Text(trim_join(c@))));
                    match sp_parse_children(tv, k as int + 1, cl) {
                        Ok((cs, jj)) => {
                            assert(pre + (seq![ChildV::Text(trim_join(c@))] + cs)
                                =~= children_view(children@) + cs);
                        },
                        Err(e) => {},
                    }
                }
                k = k + 1;
            },
            Token::ClosingTag => {
                match closing {
                    Some(tag) => {
                        if k + 1 == n {
                            return Err(
                                ParseError::UnexpectedEof {
                                    expected: String::from_str("identifier or '>'"),
                                },
                            );
                        }
                        proof {
                            assert(tv[k as int + 1] == toks@[k as int + 1]@);
                        }
                        let t2 = &toks[k + 1];
                        match t2 {
                            Token::Ident(name) => {
                                if !str_eq(name.as_str(), tag.as_str()) {
                                    return Err(
                                        ParseError::MismatchedClosingTag {
                                            expected: (*tag).clone(),
                                            found: name.clone(),
                                        },
                                    );
                                }
                                if k + 2 == n {
                                    return Err(
                                        ParseError::UnexpectedEof {
                                            expected: String::from_str("'>'"),
                                        },
                                    );
                                }
                                proof {
                                    assert(tv[k as int + 2] == toks@[k as int + 2]@);
                                }
                                let t3 = &toks[k + 2];
                                match t3 {
                                    Token::CloseTag => {
                                        proof {
                                            assert(children_view(children@) + Seq::<
                                                ChildV,
                                            >::empty() =~= children_view(children@));
                                        }
                                        return Ok((children, k + 3));
                                    },
                                    other => {
                                        return Err(
                                            ParseError::ExpectedCloseTag {
                                                found: clone_token(other),
                                            },
                                        );
                                    },
                                }
                            },
                            other => {
                                return Err(
                                    ParseError::ExpectedIdent { found: clone_token(other) },
                                );
                            },
                        }
                    },
                    None => {
                        if k + 1 == n {
                            return Err(
                                ParseError::UnexpectedEof { expected: String::from_str("'>'") },
                            );
                        }
                        proof {
                            assert(tv[k as int + 1] == toks@[k as int + 1]@);
                        }
                        let t2 = &toks[k + 1];
                        match t2 {
                            Token::CloseTag => {
                                proof {
                                    assert(children_view(children@) + Seq::<ChildV>::empty()
                                        =~= children_view(children@));
                                }
                                return Ok((children, k + 2));
                            },
                            other => {
                                return Err(
                                    ParseError::ExpectedCloseTag { found: clone_token(other) },
                                );
                            },
                        }
                    },
                }
            },
            other => {
                let tag_name = match closing {
                    Some(t) => (*t).clone(),
                    None => String::new(),
                };
                return Err(
                    ParseError::UnexpectedChildToken { tag: tag_name, found: clone_token(other) },
                );
            },
        }
    }
}

} // verus!
