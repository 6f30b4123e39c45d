use libside::codegen::{Event, GroupStatedump};
use libside::gather::gather_text;
use libside::group::{group_body, module_text};
use libside::parse::{
    derive_side_gather_impl, parse_event, parse_field, parse_field_kind, parse_fields, read_body,
    read_module, setting_parts, FieldKindAt, Reading, E_ATTRIBUTES, E_DECLARATION, E_EXTERN,
    E_FIELD, E_FIELDS, E_GATHER_BRACES, E_GATHER_FIELDS, E_GATHER_NAME, E_GATHER_STRUCT,
    E_INCOMPLETE, E_KEY_VALUE, E_MODULE, E_MODULE_BODY, E_MODULE_NAME, E_NAME, E_NO_EVENTS,
};
use libside::tokens::{split_on_comma, Delim, Token, TokenKind};

fn ident(s: &str) -> Token {
    Token { kind: TokenKind::Ident, text: s.to_string() }
}

fn punct(c: char) -> Token {
    Token { kind: TokenKind::Punct(c), text: c.to_string() }
}

fn lit(s: &str) -> Token {
    Token { kind: TokenKind::Literal, text: s.to_string() }
}

fn in_group(d: Delim, inner: Vec<Token>) -> Token {
    let body = inner.iter().map(|t| t.text.clone()).collect::<Vec<_>>().join(" ");
    let text = match d {
        Delim::Parenthesis => format!("({body})"),
        Delim::Brace => format!("{{ {body} }}"),
        Delim::Bracket => format!("[{body}]"),
        Delim::Invisible => body,
    };
    Token { kind: TokenKind::Group(d, inner), text }
}

/// `my_event, provider: "rust", event: "hello", level: LEVEL, fields: (count: u32, name: &str),`
fn declaration() -> Vec<Token> {
    vec![
        ident("my_event"),
        punct(','),
        ident("provider"),
        punct(':'),
        lit("\"rust\""),
        punct(','),
        ident("event"),
        punct(':'),
        lit("\"hello\""),
        punct(','),
        ident("level"),
        punct(':'),
        ident("LEVEL"),
        punct(','),
        ident("fields"),
        punct(':'),
        in_group(
            Delim::Parenthesis,
            vec![
                ident("count"),
                punct(':'),
                ident("u32"),
                punct(','),
                ident("name"),
                punct(':'),
                punct('&'),
                ident("str"),
            ],
        ),
        punct(','),
    ]
}

fn refused<T>(r: Reading<T>) -> String {
    match r {
        Reading::Refused(e) => e,
        Reading::Read(_) => panic!("read"),
        Reading::Cut => panic!("cut"),
    }
}

#[test]
fn split_on_comma_keeps_empty_parts() {
    let parts = split_on_comma(&[ident("a"), punct(','), punct(','), ident("b")]);
    let runs = parts.iter().map(|r| (r.start, r.end)).collect::<Vec<_>>();
    assert_eq!(runs, vec![(0, 1), (2, 2), (3, 4)]);
    let none = split_on_comma(&[]);
    assert_eq!(none.len(), 1);
    assert_eq!((none[0].start, none[0].end), (0, 0));
}

#[test]
fn an_event_is_read_by_position() {
    let tokens = declaration();
    let event = match parse_event(&tokens) {
        Reading::Read(e) => e,
        _ => panic!("not read"),
    };
    assert_eq!(event.name, "my_event");
    assert_eq!((event.provider.start, event.provider.end), (4, 5));
    assert_eq!((event.event.start, event.event.end), (8, 9));
    assert_eq!((event.level.start, event.level.end), (12, 13));
    assert!(event.attributes.is_none());
    assert_eq!(event.fields.len(), 2);
    assert_eq!(event.fields[0].list, 16);
    assert_eq!(event.fields[0].name, "count");
    match event.fields[0].kind {
        FieldKindAt::Rust(r) => assert_eq!((r.start, r.end), (2, 3)),
        FieldKindAt::Extern(_) => panic!("extern"),
    }
    assert_eq!(event.fields[1].name, "name");
    match event.fields[1].kind {
        FieldKindAt::Rust(r) => assert_eq!((r.start, r.end), (6, 8)),
        FieldKindAt::Extern(_) => panic!("extern"),
    }
}

#[test]
fn a_later_value_of_a_key_wins_and_field_lists_add_up() {
    let mut tokens = declaration();
    tokens.extend(vec![
        ident("level"),
        punct(':'),
        ident("OTHER"),
        punct(','),
        ident("fields"),
        punct(':'),
        in_group(Delim::Parenthesis, vec![ident("extra"), punct(':'), ident("u8")]),
        punct(','),
        ident("attributes"),
        punct(':'),
        in_group(Delim::Bracket, vec![]),
    ]);
    let event = match parse_event(&tokens) {
        Reading::Read(e) => e,
        _ => panic!("not read"),
    };
    assert_eq!((event.level.start, event.level.end), (20, 21));
    assert_eq!(event.fields.len(), 3);
    assert_eq!(event.fields[2].list, 24);
    assert_eq!(event.fields[2].name, "extra");
    assert_eq!(event.attributes, Some(28));
}

#[test]
fn an_event_is_refused_for_each_reason() {
    assert_eq!(refused(parse_event(&[])), E_NAME);
    assert_eq!(refused(parse_event(&[lit("\"x\"")])), E_NAME);
    assert_eq!(refused(parse_event(&[ident("e"), punct(','), ident("provider")])), E_KEY_VALUE);
    assert_eq!(
        refused(parse_event(&[ident("e"), punct(','), ident("colour"), punct(':'), ident("red")])),
        "side: unknown key `colour' in define_event!"
    );
    assert_eq!(
        refused(parse_event(&[ident("e"), punct(','), ident("attributes"), punct(':'), ident("x")])),
        E_ATTRIBUTES
    );
    assert_eq!(
        refused(parse_event(&[ident("e"), punct(','), ident("fields"), punct(':'), ident("x")])),
        E_FIELDS
    );
    /* A provider written as nothing is no provider. */
    let mut tokens = declaration();
    tokens.truncate(13);
    tokens.extend(vec![punct(','), ident("provider"), punct(':')]);
    assert_eq!(refused(parse_event(&tokens)), E_INCOMPLETE);
}

#[test]
fn a_declaration_cut_short_is_told_apart() {
    assert!(matches!(
        parse_event(&[ident("e"), punct(','), ident("fields"), punct(':')]),
        Reading::Cut
    ));
    let field = in_group(Delim::Parenthesis, vec![punct(':'), ident("u32")]);
    assert!(matches!(
        parse_event(&[ident("e"), punct(','), ident("fields"), punct(':'), field]),
        Reading::Cut
    ));
    /* An earlier refusal is what is reported. */
    assert_eq!(
        refused(parse_event(&[
            ident("e"),
            punct(','),
            ident("colour"),
            punct(':'),
            ident("red"),
            punct(','),
            ident("fields"),
            punct(':'),
        ])),
        "side: unknown key `colour' in define_event!"
    );
}

#[test]
fn a_field_is_written_name_colon_type() {
    let field = in_group(Delim::Parenthesis, vec![lit("1"), punct(':'), ident("u32")]);
    assert_eq!(
        refused(parse_event(&[ident("e"), punct(','), ident("fields"), punct(':'), field])),
        E_FIELD
    );
    let field = in_group(Delim::Parenthesis, vec![ident("x"), ident("u32")]);
    assert_eq!(
        refused(parse_event(&[ident("e"), punct(','), ident("fields"), punct(':'), field])),
        E_FIELD
    );
}

#[test]
fn side_extern_names_a_structure_described_elsewhere() {
    let tokens = vec![
        ident("side_extern"),
        in_group(Delim::Parenthesis, vec![ident("PROCESS_INFO")]),
        in_group(Delim::Bracket, vec![ident("a")]),
    ];
    match parse_field_kind(&tokens, 0, 2) {
        Ok(FieldKindAt::Extern(at)) => assert_eq!(at, 1),
        _ => panic!("not extern"),
    }
    match parse_field(&tokens, 0, 3) {
        Ok((FieldKindAt::Extern(at), Some(attrs))) => {
            assert_eq!(at, 1);
            assert_eq!(attrs, 2);
        }
        _ => panic!("not extern with attributes"),
    }
    assert_eq!(parse_field_kind(&tokens, 0, 3).err(), Some(E_EXTERN.to_string()));
    let empty = vec![ident("side_extern"), in_group(Delim::Parenthesis, vec![])];
    assert_eq!(parse_field_kind(&empty, 0, 2).err(), Some(E_EXTERN.to_string()));
    /* In brackets, the path is an argument list of another macro. */
    let bracketed = vec![ident("side_extern"), in_group(Delim::Bracket, vec![ident("X")])];
    match parse_field_kind(&bracketed, 0, 2) {
        Ok(FieldKindAt::Rust(r)) => assert_eq!((r.start, r.end), (0, 2)),
        _ => panic!("not a Rust type"),
    }
}

#[test]
fn a_lone_bracket_group_is_an_array_type() {
    let tokens = vec![in_group(Delim::Bracket, vec![ident("u8"), punct(';'), lit("4")])];
    match parse_field(&tokens, 0, 1) {
        Ok((FieldKindAt::Rust(r), None)) => assert_eq!((r.start, r.end), (0, 1)),
        _ => panic!("not an array type"),
    }
}

#[test]
fn members_are_read_with_their_types_a_space_apart() {
    let members = vec![
        ident("pub"),
        ident("pid"),
        punct(':'),
        ident("u32"),
        punct(','),
        ident("items"),
        punct(':'),
        ident("Vec"),
        punct('<'),
        ident("Item"),
        punct('>'),
        punct(','),
    ];
    let fields = parse_fields(&members).unwrap();
    assert_eq!(
        fields,
        vec![
            ("pid".to_string(), "u32".to_string()),
            ("items".to_string(), "Vec < Item >".to_string())
        ]
    );
    assert_eq!(parse_fields(&[ident("u32")]).err(), Some(E_GATHER_FIELDS.to_string()));
    assert_eq!(parse_fields(&[punct(':'), ident("u32")]).err(), Some(E_GATHER_FIELDS.to_string()));
}

#[test]
fn derive_reads_the_structure_it_is_put_on() {
    let members = vec![ident("pid"), punct(':'), ident("u32"), punct(','), ident("running"), punct(':'), ident("bool")];
    let input = vec![
        punct('#'),
        in_group(Delim::Bracket, vec![ident("repr"), in_group(Delim::Parenthesis, vec![ident("C")])]),
        ident("struct"),
        ident("ProcessInfo"),
        in_group(Delim::Brace, members),
    ];
    let expected = gather_text(
        "ProcessInfo",
        &[("pid".to_string(), "u32".to_string()), ("running".to_string(), "bool".to_string())],
    );
    assert_eq!(derive_side_gather_impl(&input), expected);
    assert!(expected.is_ok());
}

#[test]
fn derive_refuses_what_is_not_a_structure_with_named_members() {
    assert_eq!(
        derive_side_gather_impl(&[ident("enum"), ident("E"), in_group(Delim::Brace, vec![])]),
        Err(E_GATHER_STRUCT.to_string())
    );
    /* The first brace group is read as members before anything else is
     * asked of it. */
    assert_eq!(
        derive_side_gather_impl(&[ident("enum"), ident("E"), in_group(Delim::Brace, vec![ident("A")])]),
        Err(E_GATHER_FIELDS.to_string())
    );
    assert_eq!(
        derive_side_gather_impl(&[ident("struct"), ident("T"), in_group(Delim::Parenthesis, vec![ident("u32")]), punct(';')]),
        Err(E_GATHER_BRACES.to_string())
    );
    assert_eq!(
        derive_side_gather_impl(&[ident("struct"), lit("1")]),
        Err(E_GATHER_NAME.to_string())
    );
    assert_eq!(
        derive_side_gather_impl(&[ident("struct"), ident("S"), in_group(Delim::Brace, vec![ident("x")])]),
        Err(E_GATHER_FIELDS.to_string())
    );
}

#[test]
fn the_module_is_found_after_what_precedes_it() {
    let item = vec![ident("pub"), ident("mod"), ident("trace"), in_group(Delim::Brace, vec![])];
    let m = read_module(&item).unwrap();
    assert_eq!((m.prefix, m.name.as_str(), m.body), (1, "trace", 3));
    assert_eq!(read_module(&[ident("fn"), ident("f")]).err(), Some(E_MODULE.to_string()));
    assert_eq!(read_module(&[ident("mod"), lit("1")]).err(), Some(E_MODULE_NAME.to_string()));
    assert_eq!(read_module(&[ident("mod"), ident("m"), punct(';')]).err(), Some(E_MODULE_BODY.to_string()));
}

#[test]
fn the_body_keeps_what_is_not_an_event() {
    let body = vec![
        ident("use"),
        ident("x"),
        punct(';'),
        ident("define_event"),
        punct('!'),
        in_group(Delim::Parenthesis, declaration()),
        punct(';'),
        ident("define_event"),
        ident("y"),
    ];
    let read = match read_body(&body) {
        Reading::Read(r) => r,
        _ => panic!("not read"),
    };
    assert_eq!(read.passthrough, vec![0, 1, 2, 7, 8]);
    assert_eq!(read.events.len(), 1);
    assert_eq!(read.events[0].0, 5);
    assert_eq!(read.events[0].1.name, "my_event");

    assert_eq!(refused(read_body(&[ident("use"), ident("x")])), E_NO_EVENTS);
    assert_eq!(refused(read_body(&[ident("define_event"), punct('!'), ident("x")])), E_DECLARATION);
    assert_eq!(
        refused(read_body(&[ident("define_event"), punct('!'), in_group(Delim::Parenthesis, vec![])])),
        E_NAME
    );
}

#[test]
fn settings_are_split_at_their_equals_signs() {
    let attr = vec![
        ident("statedump"),
        punct('='),
        ident("dump"),
        punct(','),
        punct(','),
        ident("mode"),
        punct('='),
        ident("polling"),
        punct(','),
        ident("loose"),
    ];
    let parts = setting_parts(&attr);
    assert_eq!(parts.len(), 3);
    match &parts[0] {
        Some((key, value)) => {
            assert_eq!(key, "statedump");
            assert_eq!((value.start, value.end), (2, 3));
        }
        None => panic!("no setting"),
    }
    match &parts[1] {
        Some((key, value)) => {
            assert_eq!(key, "mode");
            assert_eq!((value.start, value.end), (7, 8));
        }
        None => panic!("no setting"),
    }
    assert!(parts[2].is_none());
}

#[test]
fn the_module_is_written_around_its_events() {
    let events = vec![Event {
        name: "started".to_string(),
        provider: "\"rust\"".to_string(),
        event: "\"started\"".to_string(),
        level: "LEVEL".to_string(),
        fields: vec![],
        attributes: String::new(),
    }];
    let statedump = GroupStatedump { callback: "dump".to_string(), mode: "Polling".to_string() };
    let text = module_text("pub", "trace", "use x ;", &events, Some(&statedump));
    let body = group_body("trace", &events, Some(&statedump));
    assert_eq!(text, format!("pub mod trace {{ use x ; {body} }}"));
}
