use swcc::formatter::format_source;
use swcc::lowering::parse_int;
use swcc::lsp::modern::{offset_at_position, position_at_offset, ContentChange, Position, LspServer, Params, Request, TextDocument};
use swcc::lsp::{json_escape, unjson_escape};
use swcc::symbols::{ClassInfo, ModuleId, TypeTable};
use swcc::types::Type;
use swcc::typing::is_assignable;

fn without_white_space(s: &str) -> String {
    s.chars().filter(|c| !c.is_whitespace()).collect()
}

#[test]
fn formatting_keeps_the_text_and_ends_lines() {
    let src = "class  A<T>{ x : T ; }  // note\nconst s=\"a  b\";";
    let out = format_source(src);
    assert_eq!(without_white_space(&out), without_white_space(src));
    assert!(out.ends_with('\n'));
    assert!(out.contains("\"a  b\""));
    assert!(out.contains("// note"));
}

#[test]
fn escaping_round_trips() {
    for text in ["plain", "quote \" and \\ slash", "tab\tline\nbell\u{7}", "中文"] {
        let escaped = json_escape(text);
        assert_eq!(unjson_escape(&escaped[1..escaped.len() - 1]), text);
    }
}

#[test]
fn positions_round_trip() {
    let text = "a😀b\n\tx中\n";
    for offset in [0, 1, 5, 6, 7, 8, 9, 12, 13] {
        let p = position_at_offset(text, offset);
        assert_eq!(offset_at_position(text, &p), Some(offset));
    }
}

#[test]
fn offsets_round_trip_to_positions() {
    let text = "a😀b\n\tx中\n";
    let mut found = 0;
    for line in 0..4u64 {
        for character in 0..6u64 {
            let p = Position { line, character };
            if let Some(o) = offset_at_position(text, &p) {
                assert_eq!(position_at_offset(text, o), p);
                found += 1;
            }
        }
    }
    assert_eq!(found, 9);
}

#[test]
fn decimal_numerals_read_back() {
    for n in [0i64, 7, 10, 65535, i64::MAX] {
        assert_eq!(parse_int(&n.to_string()), Some(n));
    }
}

#[test]
fn assignability_is_reflexive_and_follows_bases() {
    let class = |name: &str, base: Option<u32>| ClassInfo {
        module: ModuleId(0),
        name: name.to_string(),
        generics: Vec::new(),
        base,
        fields: Vec::new(),
        methods: Vec::new(),
        final_: false,
    };
    let t = TypeTable {
        structs: Vec::new(),
        enums: Vec::new(),
        classes: vec![class("A", None), class("B", Some(0)), class("C", Some(1))],
        interfaces: Vec::new(),
        class_interfaces: Vec::new(),
        generic_struct_instances: Vec::new(),
        generic_class_instances: Vec::new(),
    };
    for ty in [Type::Int, Type::Str, Type::Class(2), Type::Array(Box::new(Type::Char))] {
        assert!(is_assignable(&t, &ty, &ty));
        assert!(is_assignable(&t, &ty, &Type::Nullable(Box::new(ty.clone()))));
    }
    assert!(t.is_class_assignable_to(2, 1) && t.is_class_assignable_to(1, 0) && t.is_class_assignable_to(2, 0));
}

#[test]
fn edits_touch_only_their_document() {
    let doc = |uri: &str, text: &str| Params {
        text_document: Some(TextDocument { uri: uri.to_string(), version: 1, text: text.to_string() }),
        content_changes: None,
        position: None,
    };
    let mut s = LspServer::new();
    s.handle(Request { id: None, method: "textDocument/didOpen".to_string(), params: doc("file:///a.sw", "a") });
    s.handle(Request { id: None, method: "textDocument/didOpen".to_string(), params: doc("file:///b.sw", "b") });
    let mut change = doc("file:///a.sw", "");
    change.content_changes = Some(vec![ContentChange { range: None, text: "aa".to_string() }]);
    s.handle(Request { id: None, method: "textDocument/didChange".to_string(), params: change });
    s.handle(Request { id: Some(serde_json::Value::from(1)), method: "textDocument/hover".to_string(), params: doc("file:///b.sw", "") });
    assert_eq!(s.document("file:///a.sw").unwrap().text, "aa");
    assert_eq!(s.document("file:///b.sw").unwrap().text, "b");
    s.handle(Request { id: None, method: "textDocument/didClose".to_string(), params: doc("file:///a.sw", "") });
    assert!(s.document("file:///a.sw").is_none());
    assert_eq!(s.document("file:///b.sw").unwrap().text, "b");
}
