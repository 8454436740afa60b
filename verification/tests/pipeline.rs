use lemoncc::grammar::RuleId;
use lemoncc::lang::{parse_source, LangParser, ParseNode};
use lemoncc::parser::parse_and_process;
use lemoncc::transpiler::{transpile, transpile_item, transpile_to_cpp};

#[test]
fn determinism_two_runs() {
    let source = "fn main struct Point";
    let first = transpile(&parse_source(source).unwrap()).unwrap();
    let second = transpile(&parse_source(source).unwrap()).unwrap();
    assert_eq!(first, second);
}

#[test]
fn two_items_scenario() {
    let tree = parse_source("fn main\nstruct Point").unwrap();
    let out = transpile(&tree).unwrap();
    assert_eq!(out.as_str(), "// Generated C++ header\n\nvoid main();\nstruct Point {};\n");
}

#[test]
fn empty_source_banner_only() {
    let tree = parse_source("").unwrap();
    let out = transpile(&tree).unwrap();
    assert_eq!(out.as_str(), "// Generated C++ header\n\n");
}

#[test]
fn unmapped_construct_comment() {
    let tree = parse_source("enum Color").unwrap();
    let out = transpile(&tree).unwrap();
    assert_eq!(out.as_str(), "// Generated C++ header\n\n// Unhandled: enum Color\n");
    assert!(out.contains("enum Color"));
}

#[test]
fn order_preserved() {
    let tree = parse_source("struct A fn b struct C").unwrap();
    let out = transpile(&tree).unwrap();
    assert_eq!(
        out.as_str(),
        "// Generated C++ header\n\nstruct A {};\nvoid b();\nstruct C {};\n"
    );
    let a = out.find("struct A {};").unwrap();
    let b = out.find("void b();").unwrap();
    let c = out.find("struct C {};").unwrap();
    assert!(a < b && b < c);
}

#[test]
fn name_fidelity() {
    let out = transpile(&parse_source("fn foo struct Bar").unwrap()).unwrap();
    assert!(out.contains("void foo();"));
    assert!(out.contains("struct Bar {};"));
}

#[test]
fn trailing_garbage_rejected() {
    let err = parse_source("fn main $").unwrap_err();
    assert_eq!(err.offset, 8);
    assert_eq!(
        err.expected,
        vec![RuleId::Function, RuleId::StructDef, RuleId::EnumDef, RuleId::EndOfInput]
    );
}

#[test]
fn garbage_at_start_rejected() {
    let err = parse_source("$").unwrap_err();
    assert_eq!(err.offset, 0);
    assert_eq!(
        err.expected,
        vec![RuleId::Function, RuleId::StructDef, RuleId::EnumDef, RuleId::EndOfInput]
    );
}

#[test]
fn missing_identifier_rejected() {
    let err = parse_source("fn ").unwrap_err();
    assert_eq!(err.offset, 3);
    assert_eq!(err.expected, vec![RuleId::Identifier]);
}

#[test]
fn keyword_must_be_followed_by_whitespace() {
    let err = parse_source("fnmain").unwrap_err();
    assert_eq!(err.offset, 0);
    assert_eq!(
        err.expected,
        vec![RuleId::Function, RuleId::StructDef, RuleId::EnumDef, RuleId::EndOfInput]
    );
}

#[test]
fn parse_tree_shape() {
    let tree = parse_source("fn main").unwrap();
    assert_eq!(tree.rule, RuleId::File);
    assert_eq!(tree.text.as_str(), "fn main");
    assert_eq!(tree.children.len(), 2);
    let decl = &tree.children[0];
    assert_eq!(decl.rule, RuleId::Function);
    assert_eq!(decl.text.as_str(), "fn main");
    assert_eq!(decl.children.len(), 1);
    assert_eq!(decl.children[0].rule, RuleId::Identifier);
    assert_eq!(decl.children[0].text.as_str(), "main");
    assert!(decl.children[0].children.is_empty());
    let eoi = &tree.children[1];
    assert_eq!(eoi.rule, RuleId::EndOfInput);
    assert_eq!(eoi.text.as_str(), "");
    assert!(eoi.children.is_empty());
}

#[test]
fn whitespace_is_free_form() {
    let out = transpile(&parse_source("  fn\nmain\t  struct\r\nPoint ").unwrap()).unwrap();
    assert_eq!(out.as_str(), "// Generated C++ header\n\nvoid main();\nstruct Point {};\n");
}

#[test]
fn internal_consistency_error_reported() {
    let orphan = ParseNode {
        rule: RuleId::Function,
        text: String::from("fn x"),
        children: Vec::new(),
    };
    let root = ParseNode {
        rule: RuleId::File,
        text: String::from("fn x"),
        children: vec![orphan],
    };
    let err = transpile(&root).unwrap_err();
    assert_eq!(err.child_index, 0);
    assert_eq!(err.rule, RuleId::Function);
}

#[test]
fn internal_consistency_error_names_first_bad_child() {
    let good = ParseNode {
        rule: RuleId::StructDef,
        text: String::from("struct A"),
        children: vec![ParseNode {
            rule: RuleId::Identifier,
            text: String::from("A"),
            children: Vec::new(),
        }],
    };
    let bad = ParseNode {
        rule: RuleId::StructDef,
        text: String::from("struct B"),
        children: Vec::new(),
    };
    let root = ParseNode {
        rule: RuleId::File,
        text: String::from("struct A struct B"),
        children: vec![good, bad],
    };
    let err = transpile(&root).unwrap_err();
    assert_eq!(err.child_index, 1);
    assert_eq!(err.rule, RuleId::StructDef);
}

#[test]
fn transpile_item_maps_each_rule() {
    let tree = parse_source("fn main struct Point enum Color").unwrap();
    let lines: Vec<String> = tree
        .children
        .iter()
        .map(|c| transpile_item(c).unwrap())
        .collect();
    assert_eq!(lines[0].as_str(), "void main();\n");
    assert_eq!(lines[1].as_str(), "struct Point {};\n");
    assert_eq!(lines[2].as_str(), "// Unhandled: enum Color\n");
    assert_eq!(lines[3].as_str(), "");
}

#[test]
fn transpile_to_cpp_emits_bare_declarations() {
    let tree = parse_source("fn main struct Point enum Color").unwrap();
    let out = transpile_to_cpp(&tree).unwrap();
    assert_eq!(out.as_str(), "void main();\nstruct Point {};\n");
}

#[test]
fn parse_and_process_agrees_with_parse_source() {
    let source = "fn main struct Point";
    let via_parser = transpile(&parse_and_process(source).unwrap()).unwrap();
    let via_lang = transpile(&parse_source(source).unwrap()).unwrap();
    assert_eq!(via_parser, via_lang);
    let err_a = parse_and_process("fn ").unwrap_err();
    let err_b = parse_source("fn ").unwrap_err();
    assert_eq!(err_a.offset, err_b.offset);
    assert_eq!(err_a.expected, err_b.expected);
}

#[test]
fn lang_parser_entry_point() {
    let out = transpile(&LangParser::parse("fn main").unwrap()).unwrap();
    assert_eq!(out.as_str(), "// Generated C++ header\n\nvoid main();\n");
}

#[test]
fn underscore_and_digit_identifiers() {
    let out = transpile(&parse_source("fn _start struct Vec2").unwrap()).unwrap();
    assert_eq!(out.as_str(), "// Generated C++ header\n\nvoid _start();\nstruct Vec2 {};\n");
}

#[test]
fn duplicate_declarations_both_emitted() {
    let out = transpile(&parse_source("struct P struct P").unwrap()).unwrap();
    assert_eq!(out.as_str(), "// Generated C++ header\n\nstruct P {};\nstruct P {};\n");
}

#[test]
fn non_ascii_input_rejected_with_offset() {
    let err = parse_source("fn namé").unwrap_err();
    assert_eq!(err.offset, 6);
    assert_eq!(err.expected, vec![RuleId::Function, RuleId::StructDef, RuleId::EnumDef, RuleId::EndOfInput]);
}
