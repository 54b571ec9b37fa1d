use apollo_parser::{parse, Event, ParseResult, SyntaxKind, Token, TokenKind};

fn punct(c: char) -> Option<TokenKind> {
    match c {
        '@' => Some(TokenKind::At),
        '!' => Some(TokenKind::Bang),
        ':' => Some(TokenKind::Colon),
        ',' => Some(TokenKind::Comma),
        '$' => Some(TokenKind::Dollar),
        '=' => Some(TokenKind::Eq),
        '&' => Some(TokenKind::Amp),
        '|' => Some(TokenKind::Pipe),
        '(' => Some(TokenKind::LParen),
        ')' => Some(TokenKind::RParen),
        '[' => Some(TokenKind::LBracket),
        ']' => Some(TokenKind::RBracket),
        '{' => Some(TokenKind::LCurly),
        '}' => Some(TokenKind::RCurly),
        _ => None,
    }
}

/// Splits GraphQL source into tokens, dropping whitespace.
fn lex(src: &str) -> Vec<Token> {
    let chars: Vec<char> = src.chars().collect();
    let mut out = Vec::new();
    let mut i = 0;
    while i < chars.len() {
        let c = chars[i];
        let start = i;
        if c.is_whitespace() {
            i += 1;
            continue;
        }
        let kind = if let Some(k) = punct(c) {
            i += 1;
            k
        } else if c == '.' {
            i += 3;
            TokenKind::Spread
        } else if c.is_ascii_alphabetic() || c == '_' {
            while i < chars.len() && (chars[i].is_ascii_alphanumeric() || chars[i] == '_') {
                i += 1;
            }
            TokenKind::Name
        } else if c.is_ascii_digit() || c == '-' {
            let mut float = false;
            i += 1;
            while i < chars.len() && (chars[i].is_ascii_digit() || chars[i] == '.' || chars[i] == 'e') {
                float |= chars[i] != '_' && !chars[i].is_ascii_digit();
                i += 1;
            }
            if float { TokenKind::Float } else { TokenKind::Int }
        } else if c == '"' {
            i += 1;
            while i < chars.len() && chars[i] != '"' {
                i += if chars[i] == '\\' { 2 } else { 1 };
            }
            i += 1;
            TokenKind::StringValue
        } else {
            panic!("unexpected character {:?}", c);
        };
        let text: String = chars[start..i.min(chars.len())].iter().collect();
        out.push(Token::new(kind, &text));
    }
    out
}

fn parse_str(src: &str) -> ParseResult {
    parse(lex(src))
}

/// Offsets of each token in the text made of all token texts in order.
fn offsets(r: &ParseResult) -> Vec<usize> {
    let mut at = vec![0];
    for t in &r.tree.tokens {
        let last = *at.last().unwrap();
        at.push(last + t.text.len());
    }
    at
}

/// Renders the tree and the errors one element per line, children indented.
fn dump(r: &ParseResult) -> String {
    let at = offsets(r);
    let mut out = String::new();
    let mut stack: Vec<usize> = Vec::new();
    let mut lines: Vec<(usize, String, usize, usize, Option<String>)> = Vec::new();
    let mut next_tok = 0;
    for e in &r.tree.events {
        match e {
            Event::Open(k) => {
                stack.push(lines.len());
                lines.push((stack.len() - 1, format!("{:?}", k), at[next_tok], at[next_tok], None));
            }
            Event::Leaf(k, i) => {
                let t = &r.tree.tokens[*i];
                lines.push((stack.len(), format!("{:?}", k), at[*i], at[*i + 1], Some(t.text.clone())));
                next_tok = *i + 1;
            }
            Event::Close => {
                let j = stack.pop().unwrap();
                lines[j].3 = at[next_tok];
            }
        }
    }
    for (depth, kind, s, e, text) in lines {
        out.push_str(&"    ".repeat(depth));
        match text {
            Some(t) => out.push_str(&format!("- {}@{}..{} {:?}\n", kind, s, e, t)),
            None => out.push_str(&format!("- {}@{}..{}\n", kind, s, e)),
        }
    }
    for err in &r.errors {
        let s = at[err.index];
        let e = if err.index < r.tree.tokens.len() { at[err.index + 1] } else { s };
        out.push_str(&format!("- ERROR@{}..{} {:?}\n", s, e, err.message));
    }
    out
}

fn normalize(expected: &str) -> String {
    let lines: Vec<&str> = expected.lines().filter(|l| !l.trim().is_empty()).collect();
    let indent = lines.iter().map(|l| l.len() - l.trim_start().len()).min().unwrap_or(0);
    let mut out = String::new();
    for l in lines {
        out.push_str(l[indent..].trim_end());
        out.push('\n');
    }
    out
}

fn check_ast(src: &str, expected: &str) {
    let r = parse_str(src);
    assert_eq!(dump(&r), normalize(expected));
}

#[test]
fn it_parses_definition() {
    check_ast(
        "input ExampleInputObject {
              a: String
              b: Int!
            }",
        r#"
            - DOCUMENT@0..39
                - INPUT_OBJECT_TYPE_DEFINITION@0..39
                    - input_KW@0..5 "input"
                    - NAME@5..23
                        - IDENT@5..23 "ExampleInputObject"
                    - INPUT_FIELDS_DEFINITION@23..39
                        - L_CURLY@23..24 "{"
                        - INPUT_VALUE_DEFINITION@24..32
                            - NAME@24..25
                                - IDENT@24..25 "a"
                            - COLON@25..26 ":"
                            - TYPE@26..32
                                - NAMED_TYPE@26..32
                                    - NAME@26..32
                                        - IDENT@26..32 "String"
                        - INPUT_VALUE_DEFINITION@32..38
                            - NAME@32..33
                                - IDENT@32..33 "b"
                            - COLON@33..34 ":"
                            - TYPE@34..38
                                - NON_NULL_TYPE@34..38
                                    - TYPE@34..37
                                        - NAMED_TYPE@34..37
                                            - NAME@34..37
                                                - IDENT@34..37 "Int"
                                    - BANG@37..38 "!"
                        - R_CURLY@38..39 "}"
            "#,
    )
}

#[test]
fn it_creates_an_error_when_name_is_missing_in_definition() {
    check_ast(
        "input {
              a: String
              b: Int!
            }",
        r#"
            - DOCUMENT@0..21
                - INPUT_OBJECT_TYPE_DEFINITION@0..21
                    - input_KW@0..5 "input"
                    - INPUT_FIELDS_DEFINITION@5..21
                        - L_CURLY@5..6 "{"
                        - INPUT_VALUE_DEFINITION@6..14
                            - NAME@6..7
                                - IDENT@6..7 "a"
                            - COLON@7..8 ":"
                            - TYPE@8..14
                                - NAMED_TYPE@8..14
                                    - NAME@8..14
                                        - IDENT@8..14 "String"
                        - INPUT_VALUE_DEFINITION@14..20
                            - NAME@14..15
                                - IDENT@14..15 "b"
                            - COLON@15..16 ":"
                            - TYPE@16..20
                                - NON_NULL_TYPE@16..20
                                    - TYPE@16..19
                                        - NAMED_TYPE@16..19
                                            - NAME@16..19
                                                - IDENT@16..19 "Int"
                                    - BANG@19..20 "!"
                        - R_CURLY@20..21 "}"
            - ERROR@5..6 "Expected Input Object Type Definition to have a Name, got {"
            "#,
    )
}

#[test]
fn it_creates_an_error_when_enum_values_are_missing_in_definition() {
    check_ast(
        "input ExampleInputObject {}",
        r#"
            - DOCUMENT@0..25
                - INPUT_OBJECT_TYPE_DEFINITION@0..25
                    - input_KW@0..5 "input"
                    - NAME@5..23
                        - IDENT@5..23 "ExampleInputObject"
                    - INPUT_FIELDS_DEFINITION@23..25
                        - L_CURLY@23..24 "{"
                        - R_CURLY@24..25 "}"
            - ERROR@24..25 "Expected to have an InputValue definition, got }"
            "#,
    )
}

#[test]
fn it_parses_extension() {
    check_ast(
        "extend input ExampleInputObject @skip {
              a: String
            }",
        r#"
            - DOCUMENT@0..44
                - INPUT_OBJECT_TYPE_EXTENSION@0..44
                    - extend_KW@0..6 "extend"
                    - input_KW@6..11 "input"
                    - NAME@11..29
                        - IDENT@11..29 "ExampleInputObject"
                    - DIRECTIVES@29..34
                        - DIRECTIVE@29..34
                            - AT@29..30 "@"
                            - NAME@30..34
                                - IDENT@30..34 "skip"
                    - INPUT_FIELDS_DEFINITION@34..44
                        - L_CURLY@34..35 "{"
                        - INPUT_VALUE_DEFINITION@35..43
                            - NAME@35..36
                                - IDENT@35..36 "a"
                            - COLON@36..37 ":"
                            - TYPE@37..43
                                - NAMED_TYPE@37..43
                                    - NAME@37..43
                                        - IDENT@37..43 "String"
                        - R_CURLY@43..44 "}"
            "#,
    )
}

#[test]
fn it_creates_an_error_when_name_is_missing_in_extension() {
    check_ast(
        "extend input {
              a: String
            }",
        r#"
            - DOCUMENT@0..21
                - INPUT_OBJECT_TYPE_EXTENSION@0..21
                    - extend_KW@0..6 "extend"
                    - input_KW@6..11 "input"
                    - INPUT_FIELDS_DEFINITION@11..21
                        - L_CURLY@11..12 "{"
                        - INPUT_VALUE_DEFINITION@12..20
                            - NAME@12..13
                                - IDENT@12..13 "a"
                            - COLON@13..14 ":"
                            - TYPE@14..20
                                - NAMED_TYPE@14..20
                                    - NAME@14..20
                                        - IDENT@14..20 "String"
                        - R_CURLY@20..21 "}"
            - ERROR@11..12 "Expected Input Object Type Definition to have a Name, got {"
            "#,
    )
}

#[test]
fn it_creates_an_error_when_syntax_is_missing_in_extension() {
    check_ast(
        "extend input ExampleInputObject",
        r#"
            - DOCUMENT@0..29
                - INPUT_OBJECT_TYPE_EXTENSION@0..29
                    - extend_KW@0..6 "extend"
                    - input_KW@6..11 "input"
                    - NAME@11..29
                        - IDENT@11..29 "ExampleInputObject"
            - ERROR@29..29 "Expected Input Object Type Extension to have Directives or Input Fields Definition, got no further data"
            "#,
    )
}

fn leaf_text(r: &ParseResult) -> String {
    let mut s = String::new();
    for e in &r.tree.events {
        if let Event::Leaf(_, i) = e {
            s.push_str(&r.tree.tokens[*i].text);
        }
    }
    s
}

fn input_text(src: &str) -> String {
    src.chars().filter(|c| !c.is_whitespace()).collect()
}

fn messages(r: &ParseResult) -> Vec<String> {
    r.errors.iter().map(|e| e.message.clone()).collect()
}

#[test]
fn empty_stream_gives_bare_document() {
    let r = parse(Vec::new());
    assert_eq!(dump(&r), "- DOCUMENT@0..0\n");
    assert!(r.errors.is_empty());
}

#[test]
fn arbitrary_tokens_still_give_one_tree() {
    let src = "} ] : ! input extend extend input @ ( , $ = [ { 12 \"s\"";
    let r = parse_str(src);
    assert_eq!(r.tree.events[0], Event::Open(SyntaxKind::DOCUMENT));
    assert_eq!(*r.tree.events.last().unwrap(), Event::Close);
    assert_eq!(leaf_text(&r), input_text(src));
    assert!(!r.errors.is_empty());
}

#[test]
fn leaves_reproduce_input_tokens() {
    for src in [
        "input Foo { a: String b: Int! }",
        "input { a: String b: Int! }",
        "input Foo {}",
        "extend input Foo @skip { a: String }",
        "extend input Foo",
        "input Foo @a(x: [1, 2.5, \"s\", $v, {k: null}]) { a: [[Int]!]! = [true, false, E] @d b }",
        "} input Foo { a String, : }",
    ] {
        let r = parse_str(src);
        assert_eq!(leaf_text(&r), input_text(src), "{}", src);
        let indices: Vec<usize> = r
            .tree
            .events
            .iter()
            .filter_map(|e| if let Event::Leaf(_, i) = e { Some(*i) } else { None })
            .collect();
        assert_eq!(indices, (0..r.tree.tokens.len()).collect::<Vec<_>>());
    }
}


#[test]
fn missing_type_leaves_empty_type_node() {
    check_ast(
        "input Foo { a: }",
        r#"
        - DOCUMENT@0..12
            - INPUT_OBJECT_TYPE_DEFINITION@0..12
                - input_KW@0..5 "input"
                - NAME@5..8
                    - IDENT@5..8 "Foo"
                - INPUT_FIELDS_DEFINITION@8..12
                    - L_CURLY@8..9 "{"
                    - INPUT_VALUE_DEFINITION@9..11
                        - NAME@9..10
                            - IDENT@9..10 "a"
                        - COLON@10..11 ":"
                        - TYPE@11..11
                    - R_CURLY@11..12 "}"
        - ERROR@11..12 "Expected InputValue definition to have a Type, got }"
        - ERROR@11..12 "Expected to have an InputValue definition, got }"
        "#,
    );
    let r = parse_str("input Foo { a: }");
    let slot = r.errors[0].placeholder.unwrap();
    assert_eq!(r.tree.events[slot], Event::Open(SyntaxKind::TYPE));
    assert_eq!(r.tree.events[slot + 1], Event::Close);
    assert_eq!(r.errors[1].placeholder, None);
}

#[test]
fn missing_type_at_end_of_stream() {
    let r = parse_str("input Foo { a:");
    assert_eq!(
        messages(&r),
        vec![
            "Expected InputValue definition to have a Type, got no further data",
            "Expected to have an InputValue definition, got no further data",
            "Expected Fields Definition to have a closing }, got no further data",
        ]
    );
    let slot = r.errors[0].placeholder.unwrap();
    assert_eq!(r.tree.events[slot], Event::Open(SyntaxKind::TYPE));
    assert_eq!(r.tree.events[slot + 1], Event::Close);
    assert_eq!(r.errors[0].index, r.tree.tokens.len());
}

#[test]
fn valid_inputs_give_no_errors() {
    for src in [
        "input Foo { a: String b: Int! }",
        "input Foo",
        "input Foo @a @b(x: 1)",
        "input Foo { a: [[Int]!]! = [1, 2] @deprecated(reason: \"no\"), b: Boolean = true }",
        "input Foo { a: Obj = {x: 1.5, y: [null, ENUM], z: $v} }",
        "extend input Foo @skip",
        "extend input Foo { a: String }",
        "input A { a: A } extend input A @x input B { b: [B] }",
    ] {
        let r = parse_str(src);
        assert!(r.errors.is_empty(), "{}: {:?}", src, messages(&r));
    }
}

#[test]
fn reparsing_leaves_gives_same_tree() {
    for src in [
        "input Foo { a: String b: Int! }",
        "extend input Foo @skip { a: [String!] = [\"x\"] }",
    ] {
        let r = parse_str(src);
        let leaves: Vec<Token> = r
            .tree
            .events
            .iter()
            .filter_map(|e| if let Event::Leaf(_, i) = e { Some(*i) } else { None })
            .map(|i| {
                let t = &r.tree.tokens[i];
                Token::new(t.kind, &t.text)
            })
            .collect();
        let again = parse(leaves);
        assert_eq!(again.tree.events, r.tree.events);
        assert_eq!(dump(&again), dump(&r));
    }
}

#[test]
fn list_and_non_null_types_nest() {
    check_ast(
        "input F { a: [Int!]! }",
        r#"
        - DOCUMENT@0..17
            - INPUT_OBJECT_TYPE_DEFINITION@0..17
                - input_KW@0..5 "input"
                - NAME@5..6
                    - IDENT@5..6 "F"
                - INPUT_FIELDS_DEFINITION@6..17
                    - L_CURLY@6..7 "{"
                    - INPUT_VALUE_DEFINITION@7..16
                        - NAME@7..8
                            - IDENT@7..8 "a"
                        - COLON@8..9 ":"
                        - TYPE@9..16
                            - NON_NULL_TYPE@9..16
                                - TYPE@9..15
                                    - LIST_TYPE@9..15
                                        - L_BRACK@9..10 "["
                                        - TYPE@10..14
                                            - NON_NULL_TYPE@10..14
                                                - TYPE@10..13
                                                    - NAMED_TYPE@10..13
                                                        - NAME@10..13
                                                            - IDENT@10..13 "Int"
                                                - BANG@13..14 "!"
                                        - R_BRACK@14..15 "]"
                                - BANG@15..16 "!"
                    - R_CURLY@16..17 "}"
        "#,
    );
}

#[test]
fn default_value_and_field_directives() {
    check_ast(
        "input F { a: Int = 1 @d }",
        r#"
        - DOCUMENT@0..17
            - INPUT_OBJECT_TYPE_DEFINITION@0..17
                - input_KW@0..5 "input"
                - NAME@5..6
                    - IDENT@5..6 "F"
                - INPUT_FIELDS_DEFINITION@6..17
                    - L_CURLY@6..7 "{"
                    - INPUT_VALUE_DEFINITION@7..16
                        - NAME@7..8
                            - IDENT@7..8 "a"
                        - COLON@8..9 ":"
                        - TYPE@9..12
                            - NAMED_TYPE@9..12
                                - NAME@9..12
                                    - IDENT@9..12 "Int"
                        - DEFAULT_VALUE@12..14
                            - EQ@12..13 "="
                            - INT_VALUE@13..14
                                - INT@13..14 "1"
                        - DIRECTIVES@14..16
                            - DIRECTIVE@14..16
                                - AT@14..15 "@"
                                - NAME@15..16
                                    - IDENT@15..16 "d"
                    - R_CURLY@16..17 "}"
        "#,
    );
}

#[test]
fn comma_separated_fields() {
    let r = parse_str("input F { a: A, b: B, }");
    assert!(r.errors.is_empty());
    let fields = r
        .tree
        .events
        .iter()
        .filter(|e| **e == Event::Open(SyntaxKind::INPUT_VALUE_DEFINITION))
        .count();
    assert_eq!(fields, 2);
}

#[test]
fn field_without_colon() {
    let r = parse_str("input F { a String }");
    assert_eq!(
        messages(&r),
        vec![
            "Expected InputValue definition to have a Name, got String",
            "Expected to have an InputValue definition, got String",
            "Expected Fields Definition to have a closing }, got String",
            "Expected Document to have a Definition, got String",
            "Expected Document to have a Definition, got }",
        ]
    );
    assert!(dump(&r).contains("- ERROR@8..14\n        - IDENT@8..14 \"String\""));
}

#[test]
fn malformed_values_and_types() {
    let cases = [
        ("input F @ { a: A }", "Expected Directive to have a Name, got {"),
        ("input F @d(x: 1", "Expected Arguments to have a closing ), got no further data"),
        ("input F @d(x 1)", "Expected Argument to have a Colon, got 1"),
        ("input F @d(x: )", "Expected Argument to have a Value, got )"),
        ("input F { a: [] }", "Expected List Type to have a Type, got ]"),
        ("input F { a: [A }", "Expected List Type to have a closing ], got }"),
        ("input F { a: A = }", "Expected Default Value to have a Value, got }"),
        ("input F { a: A = $ }", "Expected Variable to have a Name, got }"),
        ("input F { a: A = [1 }", "Expected List Value to have a closing ], got }"),
        ("input F { a: A = {x: 1", "Expected Object Value to have a closing }, got no further data"),
        ("input F { a: A = {x 1} }", "Expected Object Field to have a Colon, got 1"),
        ("input F { a: A = {x: } }", "Expected Object Field to have a Value, got }"),
        ("input F { a: A", "Expected Fields Definition to have a closing }, got no further data"),
        ("type F", "Expected Document to have a Definition, got type"),
    ];
    for (src, msg) in cases {
        let r = parse_str(src);
        assert!(messages(&r).iter().any(|m| m == msg), "{}: {:?}", src, messages(&r));
        assert_eq!(leaf_text(&r), input_text(src));
    }
}

#[test]
fn bare_extension_keywords_give_two_errors() {
    let r = parse_str("extend input");
    assert_eq!(
        messages(&r),
        vec![
            "Expected Input Object Type Definition to have a Name, got no further data",
            "Expected Input Object Type Extension to have Directives or Input Fields Definition, got no further data",
        ]
    );
    assert_eq!(
        dump(&r),
        "- DOCUMENT@0..11\n    - INPUT_OBJECT_TYPE_EXTENSION@0..11\n        - extend_KW@0..6 \"extend\"\n        - input_KW@6..11 \"input\"\n- ERROR@11..11 \"Expected Input Object Type Definition to have a Name, got no further data\"\n- ERROR@11..11 \"Expected Input Object Type Extension to have Directives or Input Fields Definition, got no further data\"\n"
    );
}
