use swcc::json::Json;
use swcc::lsp::modern::{
    definition_location, diagnostics_on_boundaries, find_symbol, offset_on_boundary, path_to_uri, percent_decode,
    position_at_offset, response, span_to_range, uri_to_path, is_uri_ok, Action, ContentChange, DiagnosticItem, LspServer,
    Params, Position, Range, Request, SymbolOccurrence, TextDocument,
};
use swcc::lsp::{
    definition_response, definition_symbol, extract_json_object, extract_json_string, hover_response, is_exit,
    json_escape, lsp_diagnostics, position_of_params, publish_body, top_json_object, top_json_string, unjson_escape,
    LineCol, LspDiagnostic, LspServer as LegacyServer, SourceDiagnostic,
};
use swcc::symbols::Span;
use swcc::lsp::{header_line, HeaderLine};

fn request(id: Option<i64>, method: &str, params: Params) -> Request {
    Request { id: id.map(serde_json::Value::from), method: method.to_string(), params }
}

fn no_params() -> Params {
    Params { text_document: None, content_changes: None, position: None }
}

fn doc(uri: &str, version: i64, text: &str) -> Params {
    Params {
        text_document: Some(TextDocument { uri: uri.to_string(), version, text: text.to_string() }),
        content_changes: None,
        position: None,
    }
}

fn keys(j: &Json) -> Vec<String> {
    match j {
        Json::Object(fields) => fields.iter().map(|(k, _)| k.clone()).collect(),
        _ => Vec::new(),
    }
}

fn field<'a>(j: &'a Json, key: &str) -> &'a Json {
    match j {
        Json::Object(fields) => &fields.iter().find(|(k, _)| k == key).expect("field").1,
        _ => panic!("not an object"),
    }
}

fn pos(line: u64, character: u64) -> Position {
    Position { line, character }
}

#[test]
fn escapes_and_unescapes_json_strings() {
    assert_eq!(json_escape("a\"b\\c\n\u{1}"), "\"a\\\"b\\\\c\\n\\u0001\"");
    assert_eq!(unjson_escape("x\\ty\\u0041\\\\"), "x\ty\u{41}\\");
    assert_eq!(unjson_escape("\\uD800z"), "z");
}

#[test]
fn unescapes_control_characters_and_surrogate_pairs() {
    assert_eq!(unjson_escape("\\b\\f"), "\u{8}\u{c}");
    assert_eq!(unjson_escape("\\ud83d\\ude00"), "\u{1F600}");
    assert_eq!(unjson_escape("a\\uD83D\\uDE00b"), "a\u{1F600}b");
    assert_eq!(unjson_escape("\\ude00x"), "x");
    assert_eq!(unjson_escape("\\/"), "/");
}

#[test]
fn string_values_end_at_their_unescaped_quote() {
    assert_eq!(extract_json_string("{\"text\":\"a\\\"b\"}", "\"text\"").as_deref(), Some("a\"b"));
    assert_eq!(extract_json_string("{\"text\":\"a\\\\\",\"x\":1}", "\"text\"").as_deref(), Some("a\\"));
    assert_eq!(extract_json_string("{\"text\":\"open", "\"text\""), None);
}

#[test]
fn message_fields_come_from_the_outermost_object() {
    let body = "{\"jsonrpc\":\"2.0\",\"method\":\"$/cancelRequest\",\"params\":{\"id\":3}}";
    assert_eq!(top_json_string(body, "\"id\""), None);
    assert_eq!(extract_json_string(body, "\"id\"").as_deref(), Some("3"));
    assert_eq!(top_json_string(body, "\"method\"").as_deref(), Some("$/cancelRequest"));
    assert_eq!(top_json_object(body, "\"params\"").as_deref(), Some("{\"id\":3}"));
    let tricky = "{\"params\":{\"x\":\"\\\"id\\\":9\"},\"id\":4,\"method\":\"m\"}";
    assert_eq!(top_json_string(tricky, "\"id\"").as_deref(), Some("4"));
    assert_eq!(top_json_string("{\"method\":\"id\"}", "\"id\""), None);
}

#[test]
fn notifications_get_no_reply() {
    let mut s = LegacyServer::new();
    let h = |s: &mut LegacyServer, b: &str| s.handle_message(b).response;
    assert_eq!(h(&mut s, "{\"jsonrpc\":\"2.0\",\"method\":\"initialized\",\"params\":{}}"), None);
    assert_eq!(h(&mut s, "{\"jsonrpc\":\"2.0\",\"method\":\"foo/bar\"}"), None);
    assert_eq!(
        h(&mut s, "{\"jsonrpc\":\"2.0\",\"id\":7,\"method\":\"foo/bar\"}"),
        Some("{\"jsonrpc\":\"2.0\",\"id\":7,\"result\":null}".to_string())
    );
    assert_eq!(h(&mut s, "{\"jsonrpc\":\"2.0\",\"method\":\"$/cancelRequest\",\"params\":{\"id\":3}}"), None);
}

fn occurrence(start: usize, end: usize, detail: &str, file: &str, def: (usize, usize)) -> SymbolOccurrence {
    SymbolOccurrence {
        span: Span { start, end },
        detail: detail.to_string(),
        definition_file: file.to_string(),
        definition_span: Span { start: def.0, end: def.1 },
    }
}

#[test]
fn legacy_hover_shows_type_or_diagnostic() {
    let text = "let x = 1;\nlet y = x;".to_string();
    let symbols = vec![occurrence(4, 5, "x: int", "/a.sw", (4, 5)), occurrence(15, 16, "y: string", "/a.sw", (15, 16))];
    let diagnostics = vec![LspDiagnostic { line: 1, character: 8, end_line: 1, end_character: 9, severity: 1, message: "unused \"x\"".to_string() }];
    let at = |line, character| Some(pos(line, character));
    assert_eq!(
        hover_response("5", Some(&text), at(0, 4), &symbols, &diagnostics),
        "{\"jsonrpc\":\"2.0\",\"id\":5,\"result\":{\"contents\":{\"kind\":\"markdown\",\"value\":\"```sw\\nx: int\\n```\"}}}"
    );
    assert_eq!(
        hover_response("5", Some(&text), at(1, 4), &symbols, &diagnostics),
        "{\"jsonrpc\":\"2.0\",\"id\":5,\"result\":{\"contents\":{\"kind\":\"markdown\",\"value\":\"```sw\\ny: string\\n```\"}}}"
    );
    assert_eq!(
        hover_response("5", Some(&text), at(1, 8), &symbols, &diagnostics),
        "{\"jsonrpc\":\"2.0\",\"id\":5,\"result\":{\"contents\":{\"kind\":\"markdown\",\"value\":\"unused \\\"x\\\"\"}}}"
    );
    assert!(hover_response("5", Some(&text), at(0, 0), &symbols, &diagnostics).contains("Problems"));
}

#[test]
fn legacy_definition_gives_the_location() {
    let mut s = LegacyServer::new();
    s.handle_message("{\"method\":\"textDocument/didOpen\",\"params\":{\"textDocument\":{\"uri\":\"file:///a.sw\",\"text\":\"let x = 1;\\nlet y = x;\"}}}");
    let r = s.handle_message("{\"jsonrpc\":\"2.0\",\"id\":5,\"method\":\"textDocument/definition\",\"params\":{\"textDocument\":{\"uri\":\"file:///a.sw\"},\"position\":{\"line\":1,\"character\":8}}}");
    assert!(r.response.is_none());
    let l = r.lookup.unwrap();
    assert!(l.definition);
    assert_eq!(l.uri, "file:///a.sw");
    assert_eq!(l.position, Some(pos(1, 8)));
    let text = s.document(&l.uri);
    let symbols = vec![occurrence(19, 20, "x: int", "/a.sw", (4, 5))];
    let sym = definition_symbol(text, l.position, &symbols).unwrap();
    assert_eq!(
        definition_response(&l.id, Some(sym), text.unwrap(), false),
        "{\"jsonrpc\":\"2.0\",\"id\":5,\"result\":{\"uri\":\"file:///a.sw\",\"range\":{\"start\":{\"line\":0,\"character\":4},\"end\":{\"line\":0,\"character\":5}}}}"
    );
    assert!(definition_symbol(text, Some(pos(0, 0)), &symbols).is_none());
    assert_eq!(definition_response("5", None, "", false), "{\"jsonrpc\":\"2.0\",\"id\":5,\"result\":null}");
    assert_eq!(position_of_params("{\"position\":{\"line\":2,\"character\":7}}"), Some(pos(2, 7)));
    assert_eq!(position_of_params("{\"position\":{\"line\":-1,\"character\":7}}"), None);
}

#[test]
fn extracts_message_fields() {
    let body = "{\"jsonrpc\":\"2.0\",\"id\":7,\"method\":\"textDocument/hover\",\"params\":{\"a\":{\"b\":1}}}";
    assert_eq!(extract_json_string(body, "\"id\"").as_deref(), Some("7"));
    assert_eq!(extract_json_string(body, "\"method\"").as_deref(), Some("textDocument/hover"));
    assert_eq!(extract_json_object(body, "\"params\"").as_deref(), Some("{\"a\":{\"b\":1}}"));
    assert_eq!(extract_json_object(body, "\"missing\""), None);
}

#[test]
fn legacy_server_round_trip() {
    let mut s = LegacyServer::new();
    let r = s.handle_message("{\"jsonrpc\":\"2.0\",\"id\":1,\"method\":\"initialize\",\"params\":{}}");
    assert!(r.response.unwrap().starts_with("{\"jsonrpc\":\"2.0\",\"id\":1,\"result\":{\"capabilities\""));
    let r = s.handle_message("{\"method\":\"textDocument/didOpen\",\"params\":{\"textDocument\":{\"uri\":\"file:///a.sw\",\"text\":\"let x = 1;\"}}}");
    assert!(r.response.is_none());
    assert_eq!(r.analyze, Some(("file:///a.sw".to_string(), "let x = 1;".to_string())));
    assert_eq!(s.document("file:///a.sw").map(|t| t.as_str()), Some("let x = 1;"));
    let r = s.handle_message("{\"id\":2,\"method\":\"textDocument/hover\",\"params\":{}}");
    assert!(r.response.is_none());
    let l = r.lookup.unwrap();
    assert_eq!((l.id.as_str(), l.definition, l.uri.as_str(), l.position), ("2", false, "", None));
    let answer = hover_response(&l.id, None, l.position, &Vec::new(), &Vec::new());
    assert_eq!(answer, "{\"jsonrpc\":\"2.0\",\"id\":2,\"result\":{\"contents\":{\"kind\":\"markdown\",\"value\":\"Sw 语言服务器（诊断见 Problems 面板）\"}}}");
    let r = s.handle_message("{\"id\":3,\"method\":\"shutdown\"}");
    assert_eq!(r.response.unwrap(), "{\"jsonrpc\":\"2.0\",\"id\":3,\"result\":null}");
    s.handle_message("{\"method\":\"textDocument/didClose\",\"params\":{\"textDocument\":{\"uri\":\"file:///a.sw\"}}}");
    assert!(s.document("file:///a.sw").is_none());
    assert!(is_exit("{\"jsonrpc\":\"2.0\",\"method\":\"exit\"}"));
    assert_eq!(LegacyServer::uri_to_path("file:///tmp/x.sw"), "/tmp/x.sw");
}

#[test]
fn legacy_diagnostics_are_zero_based() {
    let items = vec![
        SourceDiagnostic { same_file: true, location: Some((LineCol { line: 2, column: 3 }, LineCol { line: 2, column: 5 })), error: true, message: "bad \"x\"".to_string() },
        SourceDiagnostic { same_file: false, location: None, error: true, message: "elsewhere".to_string() },
        SourceDiagnostic { same_file: true, location: None, error: false, message: "note".to_string() },
    ];
    let ds = lsp_diagnostics(&items);
    assert_eq!(ds.len(), 2);
    assert_eq!((ds[0].line, ds[0].character, ds[0].end_line, ds[0].end_character, ds[0].severity), (1, 2, 1, 4, 1));
    assert_eq!((ds[1].line, ds[1].severity), (0, 2));
    let body = publish_body("file:///a.sw", &ds);
    assert!(body.starts_with("{\"jsonrpc\":\"2.0\",\"method\":\"textDocument/publishDiagnostics\",\"params\":{\"uri\":\"file:///a.sw\",\"diagnostics\":[{\"range\":{\"start\":{\"line\":1,\"character\":2}"));
    assert!(body.contains("\"message\":\"bad \\\"x\\\"\"}"));
}

#[test]
fn positions_and_offsets_round_trip() {
    let text = "ab\n中x\n";
    assert_eq!(position_at_offset(text, 6), pos(1, 1));
    assert_eq!(position_at_offset(text, 100), pos(2, 0));
    assert!(offset_on_boundary(text, 3));
    assert!(!offset_on_boundary(text, 4));
    assert!(offset_on_boundary(text, 99));
    let r = span_to_range(text, Span { start: 3, end: 7 });
    assert_eq!(r, Range { start: pos(1, 0), end: pos(1, 2) });
}

#[test]
fn uris_and_paths() {
    assert_eq!(percent_decode("a%20b%zz%4"), "a b%zz%4");
    assert_eq!(uri_to_path("file:///C:/x%20y.sw", true), "C:/x y.sw");
    assert_eq!(uri_to_path("file:///C:/x.sw", false), "/C:/x.sw");
    assert_eq!(uri_to_path("/plain.sw", false), "/plain.sw");
    assert!(is_uri_ok("file:///C:/x%20y.sw"));
    assert!(!is_uri_ok("file:///%4\u{e9}.sw"));
    assert!(is_uri_ok("file:///%zz\u{e9}"));
    assert_eq!(path_to_uri("\\\\?\\C:\\a\\b.sw", true), "file:///C:/a/b.sw");
    assert_eq!(path_to_uri("/home/u/b.sw", false), "file:///home/u/b.sw");
}

#[test]
fn server_opens_changes_and_closes_documents() {
    let mut s = LspServer::new();
    let out = s.handle(request(Some(1), "initialize", no_params()));
    assert_eq!(out.len(), 1);
    match &out[0] {
        Action::Send(j) => {
            assert_eq!(keys(j), vec!["jsonrpc", "id", "result"]);
            assert_eq!(keys(field(j, "result")), vec!["capabilities", "serverInfo"]);
        }
        _ => panic!("expected a reply"),
    }
    let out = s.handle(request(None, "textDocument/didOpen", doc("file:///a.sw", 1, "let a = 1;\n")));
    assert!(matches!(&out[..], [Action::Publish(u)] if u == "file:///a.sw"));
    let mut change = doc("file:///a.sw", 2, "");
    change.content_changes = Some(vec![
        ContentChange { range: Some(Range { start: pos(0, 4), end: pos(0, 5) }), text: "bb".to_string() },
        ContentChange { range: Some(Range { start: pos(0, 9), end: pos(0, 10) }), text: "2".to_string() },
    ]);
    s.handle(request(None, "textDocument/didChange", change));
    let d = s.document("file:///a.sw").unwrap();
    assert_eq!(d.text, "let bb = 2;\n");
    assert_eq!(d.version, 2);
    let mut full = doc("file:///b.sw", 5, "");
    full.content_changes = Some(vec![ContentChange { range: None, text: "new".to_string() }]);
    s.handle(request(None, "textDocument/didChange", full));
    assert_eq!(s.document("file:///b.sw").unwrap().text, "new");
    let out = s.handle(request(None, "textDocument/didClose", doc("file:///a.sw", 0, "")));
    assert!(s.document("file:///a.sw").is_none());
    match &out[0] {
        Action::Send(j) => assert!(matches!(field(field(j, "params"), "diagnostics"), Json::Array(items) if items.is_empty())),
        _ => panic!("expected a notification"),
    }
}

#[test]
fn server_answers_queries() {
    let mut s = LspServer::new();
    s.handle(request(None, "textDocument/didOpen", doc("file:///a.sw", 1, "let a = 1;")));
    let mut q = doc("file:///a.sw", 0, "");
    q.position = Some(pos(0, 4));
    let out = s.handle(request(Some(4), "textDocument/hover", q));
    assert!(matches!(&out[..], [Action::Hover(_, u, p)] if u == "file:///a.sw" && *p == pos(0, 4)));
    let mut missing = doc("file:///zzz.sw", 0, "");
    missing.position = Some(pos(0, 0));
    let out = s.handle(request(Some(5), "textDocument/definition", missing));
    assert!(matches!(&out[..], [Action::Send(j)] if matches!(field(j, "result"), Json::Null)));
    assert!(s.handle(request(None, "textDocument/hover", no_params())).is_empty());
    assert_eq!(s.handle(request(Some(6), "shutdown", no_params())).len(), 1);
    assert_eq!(s.handle(request(Some(7), "workspace/unknown", no_params())).len(), 1);
    assert!(s.handle(request(None, "initialized", no_params())).is_empty());
}

#[test]
fn server_publishes_hovers_and_locates() {
    let mut s = LspServer::new();
    s.handle(request(None, "textDocument/didOpen", doc("file:///a.sw", 3, "let a = 1;\nlet b = a;")));
    let items = vec![
        DiagnosticItem { in_document: true, span: Some(Span { start: 15, end: 16 }), error: true, message: "m".to_string() },
        DiagnosticItem { in_document: false, span: None, error: true, message: "other".to_string() },
        DiagnosticItem { in_document: true, span: None, error: false, message: "w".to_string() },
    ];
    assert!(diagnostics_on_boundaries("let a = 1;\nlet b = a;", &items));
    let j = s.publish("file:///a.sw", &items);
    let params = field(&j, "params");
    assert!(matches!(field(params, "version"), Json::Int(3)));
    match field(params, "diagnostics") {
        Json::Array(ds) => {
            assert_eq!(ds.len(), 2);
            assert!(matches!(field(&ds[0], "severity"), Json::UInt(1)));
            assert!(matches!(field(&ds[1], "severity"), Json::UInt(2)));
            let start = field(field(&ds[0], "range"), "start");
            assert!(matches!(field(start, "line"), Json::UInt(1)));
            assert!(matches!(field(start, "character"), Json::UInt(4)));
        }
        _ => panic!("expected a list"),
    }
    assert!(matches!(s.publish("file:///none.sw", &items), Json::Null));
    let symbols = vec![SymbolOccurrence {
        span: Span { start: 19, end: 20 },
        detail: "let a: int".to_string(),
        definition_file: "/src/a.sw".to_string(),
        definition_span: Span { start: 4, end: 5 },
    }];
    let h = s.hover("file:///a.sw", &pos(1, 8), &symbols);
    assert!(matches!(field(field(&h, "contents"), "value"), Json::Str(v) if v == "```sw\nlet a: int\n```"));
    assert!(matches!(s.hover("file:///a.sw", &pos(0, 0), &symbols), Json::Null));
    let target = s.definition_target("file:///a.sw", &pos(1, 8), &symbols).unwrap();
    let loc = definition_location(target, "let a = 1;", false);
    assert!(matches!(field(&loc, "uri"), Json::Str(u) if u == "file:///src/a.sw"));
    assert!(find_symbol(&symbols, "let a = 1;\nlet b = a;", &pos(1, 7)).is_none());
    let reply = response(Some(serde_json::Value::from(9)), Json::Bool(true));
    assert_eq!(keys(&reply), vec!["jsonrpc", "id", "result"]);
    assert!(matches!(field(&reply, "id"), Json::Received(v) if *v == serde_json::Value::from(9)));
}

#[test]
fn reads_frame_headers() {
    assert!(matches!(header_line("Content-Length: 42\r\n"), HeaderLine::Length(Some(42))));
    assert!(matches!(header_line("\u{feff}Content-Length:7\n"), HeaderLine::Length(Some(7))));
    assert!(matches!(header_line("Content-Length: +9"), HeaderLine::Length(Some(9))));
    assert!(matches!(header_line("Content-Length: x1"), HeaderLine::Length(None)));
    assert!(matches!(header_line("Content-Length: 99999999999999999999999"), HeaderLine::Length(None)));
    assert!(matches!(header_line("\r\n"), HeaderLine::End));
    assert!(matches!(header_line("Content-Type: utf-8\r\n"), HeaderLine::Other));
}
