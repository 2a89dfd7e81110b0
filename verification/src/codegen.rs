//! The code generator: walks the element tree and emits host-language source
//! text that constructs the equivalent element graph, resolving each tag
//! through the registry.

use vstd::prelude::*;
use vstd::string::StringExecFns;
use crate::registry::{EntryV, Registry, sp_lookup};
use crate::strutil::{int_text, render_i64, strs_view};
use crate::xml_lexer::{LexError, LexErrV, LitV, Literal, sp_tokenize, tokenize, toks_view};
use crate::xml_parser::{PErrV, ParseError, parse, sp_parse};
use crate::xml_tree::{Child, ChildV, Node, NodeV, UnnamedNode, UnnamedV, AttrV, nodes_view};

verus! {

broadcast use vstd::seq::axiom_seq_index_decreases;

/// A semantic error during generation.
#[derive(Debug, PartialEq, Clone)]
pub enum GenError {
    /// A tag with no registry entry; carries the tag.
    UnknownTag(String),
}

/// The mathematical image of a [`GenError`].
pub ghost enum GenErrV {
    UnknownTag(Seq<char>),
}

impl View for GenError {
    type V = GenErrV;

    open spec fn view(&self) -> GenErrV {
        match self {
            GenError::UnknownTag(t) => GenErrV::UnknownTag(t@),
        }
    }
}

/// The document's single root: the one top-level element, or an unnamed
/// wrapper holding all of them in order.
pub open spec fn sp_root(nodes: Seq<NodeV>) -> NodeV {
    if nodes.len() == 1 {
        nodes[0]
    } else {
        NodeV::Unnamed(UnnamedV { children: nodes.map_values(|n: NodeV| ChildV::Node(n)) })
    }
}

/// Wraps the parsed top-level elements into exactly one tree root.  One
/// top-level named element stays the root itself; any other number of
/// elements is wrapped, in order, in an unnamed node.
pub fn document_root(tree: Vec<Node>) -> (r: Node)
    ensures
        r@ == sp_root(nodes_view(tree@)),
{
    let ghost nv = nodes_view(tree@);
    if tree.len() == 1 {
        let mut tree = tree;
        let opt = tree.pop();
        match opt {
            Some(n) => n,
            None => {
                proof {
                    assert(false);
                }
                unreached()
            },
        }
    } else {
        let n: usize = tree.len();
        let mut tree = tree;
        let mut children: Vec<Child> = Vec::new();
        let mut i: usize = 0;
        proof {
            assert(nv.len() == n);
            assert(nodes_view(tree@) =~= nv.subrange(0, n as int));
        }
        while i < n
            invariant
                n == nv.len(),
                0 <= i <= n,
                tree@.len() == n - i,
                nodes_view(tree@) == nv.subrange(i as int, n as int),
                crate::xml_tree::children_view(children@) == Seq::new(
                    i as nat,
                    |k: int| ChildV::Node(nv[k]),
                ),
            decreases n - i,
        {
            let ghost tv0 = tree@;
            let node = tree.remove(0);
            let ghost cpre = crate::xml_tree::children_view(children@);
            let ghost ndv = node@;
            proof {
                assert(ndv == nodes_view(tv0)[0]);
                assert(ndv == nv[i as int]);
                assert(nodes_view(tree@) =~= nodes_view(tv0).drop_first());
                assert(nodes_view(tree@) =~= nv.subrange(i as int + 1, n as int));
            }
            children.push(Child::Node(node));
            i = i + 1;
            proof {
                assert(crate::xml_tree::children_view(children@) =~= cpre.push(
                    ChildV::Node(ndv),
                ));
                assert(crate::xml_tree::children_view(children@) =~= Seq::new(
                    i as nat,
                    |k: int| ChildV::Node(nv[k]),
                ));
            }
        }
        proof {
            crate::xml_tree::lemma_children_of_is_view(children);
            assert(crate::xml_tree::children_view(children@) =~= nv.map_values(
                |nd: NodeV| ChildV::Node(nd),
            ));
        }
        Node::Unnamed(UnnamedNode { children })
    }
}

/// The source text of a literal attribute value.
pub open spec fn lit_text(l: LitV) -> Seq<char> {
    match l {
        LitV::Str(s) => seq!['"'] + s + seq!['"'],
        LitV::Int(i) => int_text(i as int),
        LitV::Float(t) => t,
    }
}

/// Renders a literal attribute value, mirroring [`lit_text`].
pub fn render_literal(l: &Literal) -> (r: String)
    ensures
        r@ == lit_text(l@),
{
    match l {
        Literal::String(s) => {
            let mut out = String::new();
            crate::chars::push_char(&mut out, '"');
            out.append(s.as_str());
            crate::chars::push_char(&mut out, '"');
            proof {
                assert(out@ =~= lit_text(l@));
            }
            out
        },
        Literal::Int(i) => render_i64(*i),
        Literal::Float(t) => t.clone(),
    }
}

/// The class names joined with single spaces, from position `i` on.
pub open spec fn join_from(parts: Seq<Seq<char>>, i: int) -> Seq<char>
    decreases parts.len() - i,
{
    if i < 0 || i >= parts.len() {
        Seq::empty()
    } else if i == parts.len() - 1 {
        parts[i]
    } else {
        parts[i] + seq![' '] + join_from(parts, i + 1)
    }
}

/// Joins strings with single spaces, mirroring [`join_from`].
pub fn join_spaces(parts: &Vec<String>) -> (r: String)
    ensures
        r@ == join_from(strs_view(parts@), 0),
{
    let ghost ps = strs_view(parts@);
    let n: usize = parts.len();
    let mut out = String::new();
    let mut i: usize = 0;
    proof {
        assert(ps.len() == n);
        assert(out@ + join_from(ps, 0) =~= join_from(ps, 0));
    }
    while i < n
        invariant
            n == parts@.len(),
            ps == strs_view(parts@),
            ps.len() == n,
            0 <= i <= n,
            join_from(ps, 0) == out@ + join_from(ps, i as int),
        decreases n - i,
    {
        let ghost out0 = out@;
        out.append(parts[i].as_str());
        if i + 1 < n {
            crate::chars::push_char(&mut out, ' ');
        }
        i = i + 1;
        proof {
            assert(join_from(ps, 0) == out0 + join_from(ps, i as int - 1));
            if i < n {
                assert(out@ + join_from(ps, i as int) =~= out0 + join_from(ps, i as int - 1));
            } else {
                assert(out@ + join_from(ps, i as int) =~= out0 + join_from(ps, i as int - 1));
            }
        }
    }
    proof {
        assert(out@ =~= out@ + join_from(ps, n as int));
    }
    out
}

/// The attribute-assignment lines, from attribute `i` on.  An attribute
/// named `type` goes to the `ty` field: the host framework reserves the
/// plain name.
pub open spec fn sp_gen_attrs(attrs: Seq<AttrV>, i: int) -> Seq<char>
    decreases attrs.len() - i,
{
    if i < 0 || i >= attrs.len() {
        Seq::empty()
    } else {
        let a = attrs[i];
        let line = if a.name == "type"@ {
            "attributes.ty = Some("@ + lit_text(a.value) + ");\n"@
        } else {
            "attributes."@ + a.name + " = Some("@ + lit_text(a.value) + ");\n"@
        };
        line + sp_gen_attrs(attrs, i + 1)
    }
}

/// Style computation: a deliberate no-op extension point.
pub open spec fn sp_style(tag: Seq<char>, id: Seq<char>, class: Seq<Seq<char>>) -> Seq<char> {
    Seq::empty()
}

/// Computes the style assignments for an element.  Currently there is no
/// style language: the result is always empty.
pub fn calculate_style(tag: String, id: String, class: Vec<String>) -> (r: String)
    ensures
        r@ == sp_style(tag@, id@, strs_view(class@)),
{
    let r = String::new();
    proof {
        assert(r@ =~= Seq::<char>::empty());
    }
    r
}

/// The generated construction block for one node, resolved against the
/// registry; or the first unknown tag, in generation order.
pub open spec fn sp_gen_element(node: NodeV, reg: Seq<EntryV>) -> Result<Seq<char>, GenErrV>
    decreases node, 0int,
{
    let tag = match node {
        NodeV::Named(n) => n.tag,
        NodeV::Unnamed(u) => Seq::empty(),
    };
    match sp_lookup(reg, tag) {
        None => Err(GenErrV::UnknownTag(tag)),
        Some(element) => match node {
            NodeV::Named(n) => {
                let head = "{\n"@
                    + "let mut attributes = mvcore::ui::attributes::Attributes::new();\n"@
                    + (if n.id.len() > 0 {
                    "attributes.id = Some("@ + n.id + ");\n"@
                } else {
                    Seq::empty()
                }) + (if n.class.len() > 0 {
                    "attributes.class = Some("@ + join_from(n.class, 0) + ");\n"@
                } else {
                    Seq::empty()
                }) + sp_gen_attrs(n.attributes, 0)
                    + "let mut style = mvcore::ui::style::Style::new();\n"@
                    + sp_style(n.tag, n.id, n.class) + "let mut element = "@ + element
                    + "::new(attributes, style);\n"@;
                match sp_gen_children(n.children, 0, reg) {
                    Ok(kids) => Ok(head + kids + "element\n}"@),
                    Err(e) => Err(e),
                }
            },
            NodeV::Unnamed(u) => {
                let head = "{\n"@ + "let mut element = "@ + element + "::new();\n"@;
                match sp_gen_children(u.children, 0, reg) {
                    Ok(kids) => Ok(head + kids + "element\n}"@),
                    Err(e) => Err(e),
                }
            },
        },
    }
}

/// The child-append lines for the children from `i` on, in document order.
pub open spec fn sp_gen_children(cs: Seq<ChildV>, i: int, reg: Seq<EntryV>) -> Result<
    Seq<char>,
    GenErrV,
>
    decreases cs, cs.len() - i,
{
    if i < 0 || i >= cs.len() {
        Ok(Seq::empty())
    } else {
        match cs[i] {
            ChildV::Node(n) => match sp_gen_element(n, reg) {
                Ok(code) => match sp_gen_children(cs, i + 1, reg) {
                    Ok(rest) => Ok(
                        "element.add_child(Child::Element("@ + code + ".into()));\n"@ + rest,
                    ),
                    Err(e) => Err(e),
                },
                Err(e) => Err(e),
            },
            ChildV::Text(t) => match sp_gen_children(cs, i + 1, reg) {
                Ok(rest) => Ok(
                    "element.add_child(Child::String(\""@ + t + "\".into()));\n"@ + rest,
                ),
                Err(e) => Err(e),
            },
        }
    }
}

/// The whole generated function for a document's top-level elements.
pub open spec fn sp_generate(nodes: Seq<NodeV>, reg: Seq<EntryV>) -> Result<Seq<char>, GenErrV> {
    match sp_gen_element(sp_root(nodes), reg) {
        Ok(code) => Ok("pub fn generate() -> impl UiElement {\n"@ + code + "\n}"@),
        Err(e) => Err(e),
    }
}

/// Copies a string vector (the derived clone carries no contract).
fn clone_strings(v: &Vec<String>) -> (r: Vec<String>)
    ensures
        strs_view(r@) == strs_view(v@),
{
    let n: usize = v.len();
    let mut r: Vec<String> = Vec::new();
    let mut i: usize = 0;
    while i < n
        invariant
            n == v@.len(),
            0 <= i <= n,
            strs_view(r@) == strs_view(v@).subrange(0, i as int),
        decreases n - i,
    {
        let ghost pre = strs_view(r@);
        let s = v[i].clone();
        proof {
            assert(s@ == strs_view(v@)[i as int]);
        }
        r.push(s);
        i = i + 1;
        proof {
            assert(strs_view(r@) =~= pre.push(s@));
            assert(strs_view(r@) =~= strs_view(v@).subrange(0, i as int));
        }
    }
    proof {
        assert(strs_view(r@) =~= strs_view(v@));
    }
    r
}

/// Generates the construction block for one node.
pub fn generate_element(node: &Node, registry: &Registry) -> (r: Result<String, GenError>)
    ensures
        match r {
            Ok(code) => sp_gen_element(node@, registry@) == Ok::<Seq<char>, GenErrV>(code@),
            Err(e) => sp_gen_element(node@, registry@) == Err::<Seq<char>, GenErrV>(e@),
        },
    decreases node, 0int,
{
    let looked = match node {
        Node::Named(nn) => registry.lookup(nn.tag.as_str()),
        Node::Unnamed(_) => {
            proof {
                reveal_strlit("");
                assert(""@ =~= Seq::<char>::empty());
            }
            registry.lookup("")
        },
    };
    let element = match looked {
        Some(p) => p,
        None => {
            let tag = match node {
                Node::Named(nn) => nn.tag.clone(),
                Node::Unnamed(_) => {
                    proof {
                        reveal_strlit("");
                        assert(""@ =~= Seq::<char>::empty());
                    }
                    String::new()
                },
            };
            return Err(GenError::UnknownTag(tag));
        },
    };
    let mut code = String::from_str("{\n");
    match node {
        Node::Named(nn) => {
            code.append("let mut attributes = mvcore::ui::attributes::Attributes::new();\n");
            if !nn.id.as_str().is_empty() {
                code.append("attributes.id = Some(");
                code.append(nn.id.as_str());
                code.append(");\n");
            }
            if nn.class.len() > 0 {
                code.append("attributes.class = Some(");
                let joined = join_spaces(&nn.class);
                code.append(joined.as_str());
                code.append(");\n");
            }
            let na: usize = nn.attributes.len();
            let mut ai: usize = 0;
            let ghost av = crate::xml_tree::attrs_view(nn.attributes@);
            let ghost code_mid = code@;
            proof {
                assert(av.len() == na);
                assert(code@ + sp_gen_attrs(av, 0) =~= code_mid + sp_gen_attrs(av, 0));
            }
            while ai < na
                invariant
                    na == nn.attributes@.len(),
                    av == crate::xml_tree::attrs_view(nn.attributes@),
                    av.len() == na,
                    0 <= ai <= na,
                    code@ + sp_gen_attrs(av, ai as int) == code_mid + sp_gen_attrs(av, 0),
                decreases na - ai,
            {
                let ghost c0 = code@;
                proof {
                    assert(av[ai as int] == nn.attributes@[ai as int]@);
                }
                let a = &nn.attributes[ai];
                if crate::strutil::str_eq(a.name.as_str(), "type") {
                    code.append("attributes.ty = Some(");
                    let vtext = render_literal(&a.value);
                    code.append(vtext.as_str());
                    code.append(");\n");
                } else {
                    code.append("attributes.");
                    code.append(a.name.as_str());
                    code.append(" = Some(");
                    let vtext = render_literal(&a.value);
                    code.append(vtext.as_str());
                    code.append(");\n");
                }
                ai = ai + 1;
                proof {
                    assert(code@ + sp_gen_attrs(av, ai as int) =~= c0 + sp_gen_attrs(
                        av,
                        ai as int - 1,
                    ));
                }
            }
            proof {
                assert(code@ =~= code_mid + sp_gen_attrs(av, 0));
            }
            code.append("let mut style = mvcore::ui::style::Style::new();\n");
            let style_extra = calculate_style(
                nn.tag.clone(),
                nn.id.clone(),
                clone_strings(&nn.class),
            );
            code.append(style_extra.as_str());
            code.append("let mut element = ");
            code.append(element.as_str());
            code.append("::new(attributes, style);\n");
            match generate_children(&nn.children, registry) {
                Ok(kids) => {
                    code.append(kids.as_str());
                    code.append("element\n}");
                    proof {
                        crate::xml_tree::lemma_children_of_is_view(nn.children);
                        assert(sp_gen_element(node@, registry@) == Ok::<Seq<char>, GenErrV>(
                            code@,
                        )) by {
                            let spec_code = sp_gen_element(node@, registry@)->Ok_0;
                            assert(code@ =~= spec_code);
                        }
                    }
                    Ok(code)
                },
                Err(e) => {
                    proof {
                        crate::xml_tree::lemma_children_of_is_view(nn.children);
                    }
                    Err(e)
                },
            }
        },
        Node::Unnamed(u) => {
            code.append("let mut element = ");
            code.append(element.as_str());
            code.append("::new();\n");
            match generate_children(&u.children, registry) {
                Ok(kids) => {
                    code.append(kids.as_str());
                    code.append("element\n}");
                    proof {
                        crate::xml_tree::lemma_children_of_is_view(u.children);
                        assert(sp_gen_element(node@, registry@) == Ok::<Seq<char>, GenErrV>(
                            code@,
                        )) by {
                            let spec_code = sp_gen_element(node@, registry@)->Ok_0;
                            assert(code@ =~= spec_code);
                        }
                    }
                    Ok(code)
                },
                Err(e) => {
                    proof {
                        crate::xml_tree::lemma_children_of_is_view(u.children);
                    }
                    Err(e)
                },
            }
        },
    }
}

/// Generates the child-append lines for a node's children, in order.
pub fn generate_children(children: &Vec<Child>, registry: &Registry) -> (r: Result<
    String,
    GenError,
>)
    ensures
        match r {
            Ok(code) => sp_gen_children(crate::xml_tree::children_view(children@), 0, registry@)
                == Ok::<Seq<char>, GenErrV>(code@),
            Err(e) => sp_gen_children(crate::xml_tree::children_view(children@), 0, registry@)
                == Err::<Seq<char>, GenErrV>(e@),
        },
    decreases children, 1int,
{
    let ghost cs = crate::xml_tree::children_view(children@);
    let n: usize = children.len();
    let mut out = String::new();
    let mut i: usize = 0;
    proof {
        assert(cs.len() == n);
        assert(out@ + Seq::<char>::empty() =~= out@);
    }
    while i < n
        invariant
            n == children@.len(),
            cs == crate::xml_tree::children_view(children@),
            cs.len() == n,
            0 <= i <= n,
            match sp_gen_children(cs, i as int, registry@) {
                Ok(rest) => sp_gen_children(cs, 0, registry@) == Ok::<Seq<char>, GenErrV>(
                    out@ + rest,
                ),
                Err(e) => sp_gen_children(cs, 0, registry@) == Err::<Seq<char>, GenErrV>(e),
            },
        decreases n - i,
    {
        let ghost out0 = out@;
        proof {
            assert(cs[i as int] == children@[i as int]@);
        }
        let c = &children[i];
        match c {
            Child::Node(nd) => {
                match generate_element(nd, registry) {
                    Ok(codek) => {
                        out.append("element.add_child(Child::Element(");
                        out.append(codek.as_str());
                        out.append(".into()));\n");
                        i = i + 1;
                        proof {
                            match sp_gen_children(cs, i as int, registry@) {
                                Ok(rest) => {
                                    assert(out@ + rest =~= out0 + (
                                    "element.add_child(Child::Element("@ + codek@
                                        + ".into()));\n"@ + rest));
                                },
                                Err(e) => {},
                            }
                        }
                    },
                    Err(e) => {
                        return Err(e);
                    },
                }
            },
            Child::String(t) => {
                out.append("element.add_child(Child::String(\"");
                out.append(t.as_str());
                out.append("\".into()));\n");
                i = i + 1;
                proof {
                    match sp_gen_children(cs, i as int, registry@) {
                        Ok(rest) => {
                            assert(out@ + rest =~= out0 + ("element.add_child(Child::String(\""@
                                + t@ + "\".into()));\n"@ + rest));
                        },
                        Err(e) => {},
                    }
                }
            },
        }
    }
    proof {
        assert(out@ + Seq::<char>::empty() =~= out@);
    }
    Ok(out)
}

/// Generates the whole output function for a document's top-level elements.
pub fn generate(tree: Vec<Node>, registry: &Registry) -> (r: Result<String, GenError>)
    ensures
        match r {
            Ok(code) => sp_generate(nodes_view(tree@), registry@) == Ok::<Seq<char>, GenErrV>(
                code@,
            ),
            Err(e) => sp_generate(nodes_view(tree@), registry@) == Err::<Seq<char>, GenErrV>(e@),
        },
{
    let ghost nv = nodes_view(tree@);
    let root = document_root(tree);
    match generate_element(&root, registry) {
        Ok(code) => {
            let mut out = String::from_str("pub fn generate() -> impl UiElement {\n");
            out.append(code.as_str());
            out.append("\n}");
            proof {
                assert(out@ =~= "pub fn generate() -> impl UiElement {\n"@ + code@ + "\n}"@);
            }
            Ok(out)
        },
        Err(e) => Err(e),
    }
}

/// A fatal error from any stage of compiling one document.
#[derive(Debug, PartialEq, Clone)]
pub enum CompileError {
    Lex(LexError),
    Parse(ParseError),
    Gen(GenError),
}

/// The mathematical image of a [`CompileError`].
pub ghost enum CompErrV {
    Lex(LexErrV),
    Parse(PErrV),
    Gen(GenErrV),
}

impl View for CompileError {
    type V = CompErrV;

    open spec fn view(&self) -> CompErrV {
        match self {
            CompileError::Lex(e) => CompErrV::Lex(e@),
            CompileError::Parse(e) => CompErrV::Parse(e@),
            CompileError::Gen(e) => CompErrV::Gen(e@),
        }
    }
}

/// What compiling one document yields: the generated source, or the first
/// fatal error of the first failing stage.
pub open spec fn sp_compile(s: Seq<char>, reg: Seq<EntryV>) -> Result<Seq<char>, CompErrV> {
    match sp_tokenize(s) {
        Err(e) => Err(CompErrV::Lex(e)),
        Ok(toks) => match sp_parse(toks) {
            Err(e) => Err(CompErrV::Parse(e)),
            Ok(nodes) => match sp_generate(nodes, reg) {
                Ok(code) => Ok(code),
                Err(e) => Err(CompErrV::Gen(e)),
            },
        },
    }
}

/// Every document that tokenizes and parses compiles around exactly one
/// tree root: the sole top-level element when there is one, otherwise an
/// unnamed wrapper holding all the top-level elements in order.
pub proof fn lemma_one_root(doc: Seq<char>, reg: Seq<EntryV>)
    requires
        sp_tokenize(doc) is Ok,
        sp_parse(sp_tokenize(doc)->Ok_0) is Ok,
    ensures
        ({
            let nodes = sp_parse(sp_tokenize(doc)->Ok_0)->Ok_0;
            &&& sp_compile(doc, reg) == (match sp_gen_element(sp_root(nodes), reg) {
                Ok(code) => Ok::<Seq<char>, CompErrV>(
                    "pub fn generate() -> impl UiElement {\n"@ + code + "\n}"@,
                ),
                Err(e) => Err::<Seq<char>, CompErrV>(CompErrV::Gen(e)),
            })
            &&& (nodes.len() == 1 ==> sp_root(nodes) == nodes[0])
            &&& (nodes.len() != 1 ==> sp_root(nodes) == NodeV::Unnamed(
                UnnamedV { children: nodes.map_values(|n: NodeV| ChildV::Node(n)) },
            ))
        }),
{
}

/// Compiles one markup document against a loaded registry: tokenize, parse,
/// generate.
pub fn compile(ui: String, registry: &Registry) -> (r: Result<String, CompileError>)
    ensures
        match r {
            Ok(code) => sp_compile(ui@, registry@) == Ok::<Seq<char>, CompErrV>(code@),
            Err(e) => sp_compile(ui@, registry@) == Err::<Seq<char>, CompErrV>(e@),
        },
{
    let ghost s = ui@;
    let toks = match tokenize(ui) {
        Ok(t) => t,
        Err(e) => {
            return Err(CompileError::Lex(e));
        },
    };
    let tree = match parse(toks) {
        Ok(t) => t,
        Err(e) => {
            return Err(CompileError::Parse(e));
        },
    };
    match generate(tree, registry) {
        Ok(code) => Ok(code),
        Err(e) => Err(CompileError::Gen(e)),
    }
}

} // verus!
