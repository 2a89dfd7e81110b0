use muic::codegen::{compile, document_root, generate, CompileError, GenError};
use muic::registry::{MetaFormatError, Registry};
use muic::xml_lexer::{tokenize, Literal, Token};
use muic::xml_parser::{parse, ParseError};
use muic::xml_tree::{Child, Node};

#[test]
fn escaped_angle_stays_content() {
    let toks = tokenize("a<<b".to_string()).unwrap();
    assert_eq!(toks, vec![Token::Contents("a<b".to_string())]);
}

#[test]
fn self_closing_with_attribute() {
    let toks = tokenize("<label myAttrib=10 />".to_string()).unwrap();
    let nodes = parse(toks).unwrap();
    assert_eq!(nodes.len(), 1);
    match &nodes[0] {
        Node::Named(n) => {
            assert_eq!(n.tag, "label");
            assert_eq!(n.id, "");
            assert!(n.class.is_empty());
            assert_eq!(n.attributes.len(), 1);
            assert_eq!(n.attributes[0].name, "myAttrib");
            assert_eq!(n.attributes[0].value, Literal::Int(10));
            assert!(n.children.is_empty());
        }
        Node::Unnamed(_) => panic!("expected a named node"),
    }
}

#[test]
fn mismatched_closing_tag_names_both() {
    let toks = tokenize("<a><b></a></b>".to_string()).unwrap();
    let err = parse(toks).unwrap_err();
    assert_eq!(
        err,
        ParseError::MismatchedClosingTag { expected: "b".to_string(), found: "a".to_string() }
    );
}

#[test]
fn single_root_stays_named() {
    let toks = tokenize("<label>Hello</label>".to_string()).unwrap();
    let nodes = parse(toks).unwrap();
    let root = document_root(nodes);
    assert!(matches!(root, Node::Named(_)));
}

#[test]
fn multiple_roots_get_wrapped_in_order() {
    let toks = tokenize("<a></a><b></b>".to_string()).unwrap();
    let nodes = parse(toks).unwrap();
    assert_eq!(nodes.len(), 2);
    let root = document_root(nodes);
    match root {
        Node::Unnamed(u) => {
            assert_eq!(u.children.len(), 2);
            match &u.children[0] {
                Child::Node(Node::Named(n)) => assert_eq!(n.tag, "a"),
                _ => panic!("expected the first element"),
            }
            match &u.children[1] {
                Child::Node(Node::Named(n)) => assert_eq!(n.tag, "b"),
                _ => panic!("expected the second element"),
            }
        }
        Node::Named(_) => panic!("expected the unnamed wrapper"),
    }
}

#[test]
fn end_to_end_label_hello() {
    let reg = Registry::new();
    let out = compile("<label>Hello</label>".to_string(), &reg).unwrap();
    let expected = "pub fn generate() -> impl UiElement {\n\
        {\n\
        let mut attributes = mvcore::ui::attributes::Attributes::new();\n\
        let mut style = mvcore::ui::style::Style::new();\n\
        let mut element = ui::Label::new(attributes, style);\n\
        element.add_child(Child::String(\"Hello\".into()));\n\
        element\n\
        }\n\
        }";
    assert_eq!(out, expected);
}

#[test]
fn unknown_tag_is_named_in_the_error() {
    let reg = Registry::new();
    let toks = tokenize("<nope></nope>".to_string()).unwrap();
    let nodes = parse(toks).unwrap();
    let err = generate(nodes, &reg).unwrap_err();
    assert_eq!(err, GenError::UnknownTag("nope".to_string()));
}

#[test]
fn builtin_tag_resolves_with_empty_table() {
    let reg = Registry::new();
    assert_eq!(reg.lookup("label"), Some("ui::Label".to_string()));
    assert_eq!(reg.lookup("element"), Some("mvcore::ui::elements::UiElementImpl".to_string()));
}

#[test]
fn persisted_record_cannot_shadow_a_builtin() {
    let mut reg = Registry::new();
    reg.load("label=custom::Label;").unwrap();
    assert_eq!(reg.lookup("label"), Some("ui::Label".to_string()));
}

#[test]
fn loaded_record_resolves_new_tag() {
    let mut reg = Registry::new();
    reg.load(" slider = ui::Slider ; grid=ui::Grid;").unwrap();
    assert_eq!(reg.lookup("slider"), Some("ui::Slider".to_string()));
    assert_eq!(reg.lookup("grid"), Some("ui::Grid".to_string()));
}

#[test]
fn record_without_separator_fails() {
    let mut reg = Registry::new();
    let err = reg.load("broken;").unwrap_err();
    assert_eq!(err, MetaFormatError::RecordMissingEquals("broken".to_string()));
}

#[test]
fn text_lines_are_trimmed_and_joined() {
    let toks = tokenize("<a>hi\n   there  \nfriend</a>".to_string()).unwrap();
    let nodes = parse(toks).unwrap();
    match &nodes[0] {
        Node::Named(n) => match &n.children[0] {
            Child::String(s) => assert_eq!(s, "hi there friend"),
            _ => panic!("expected text"),
        },
        _ => panic!("expected named node"),
    }
}

#[test]
fn id_and_class_attributes_are_special() {
    let toks =
        tokenize("<a id=\"x\" class=\"red  big\" w=2></a>".to_string()).unwrap();
    let nodes = parse(toks).unwrap();
    match &nodes[0] {
        Node::Named(n) => {
            assert_eq!(n.id, "x");
            assert_eq!(n.class, vec!["red".to_string(), "big".to_string()]);
            assert_eq!(n.attributes.len(), 1);
            assert_eq!(n.attributes[0].name, "w");
        }
        _ => panic!("expected named node"),
    }
}

#[test]
fn id_requires_a_string_literal() {
    let toks = tokenize("<a id=3></a>".to_string()).unwrap();
    let err = parse(toks).unwrap_err();
    assert_eq!(err, ParseError::IdNotString { value: Literal::Int(3) });
}

#[test]
fn underscored_and_decimal_literals() {
    let toks = tokenize("<a x=1_000 y=2.5 />".to_string()).unwrap();
    let nodes = parse(toks).unwrap();
    match &nodes[0] {
        Node::Named(n) => {
            assert_eq!(n.attributes[0].value, Literal::Int(1000));
            assert_eq!(n.attributes[1].value, Literal::Float("2.5".to_string()));
        }
        _ => panic!("expected named node"),
    }
}

#[test]
fn unterminated_element_is_fatal() {
    let toks = tokenize("<a><b></b>".to_string()).unwrap();
    let err = parse(toks).unwrap_err();
    assert_eq!(err, ParseError::UnterminatedElement { tag: "a".to_string() });
}

#[test]
fn compile_reports_the_first_failing_stage() {
    let reg = Registry::new();
    let err = compile("stray text".to_string(), &reg).unwrap_err();
    assert!(matches!(err, CompileError::Parse(_)));
}
