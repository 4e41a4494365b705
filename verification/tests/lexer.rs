use rivetlua::lexer::{
    CompileLimits, DiagnosticCode, Keyword, LanguageProfile, Literal, SourcePosition, Span, Symbol,
    TokenKind, lex,
};

#[test]
fn empty_input_has_eof_at_first_position() {
    let chunk = lex(b"", LanguageProfile::Lua55, &CompileLimits::default()).unwrap();
    assert_eq!(chunk.tokens.len(), 1);
    assert_eq!(chunk.tokens[0].kind, TokenKind::Eof);
    assert_eq!(
        chunk.tokens[0].span,
        Span {
            start_byte: 0,
            end_byte: 0
        }
    );
}

#[test]
fn all_logical_newline_forms_increment_once() {
    let chunk = lex(
        b"\n \r \r\n \n\r",
        LanguageProfile::Lua55,
        &CompileLimits::default(),
    )
    .unwrap();
    let eof = &chunk.tokens[0];
    assert_eq!((eof.span.end_byte, eof.end.line, eof.end.column), (9, 5, 1));
}

#[test]
fn source_and_line_limits_fail_before_overflow() {
    let limits = CompileLimits {
        max_source_bytes: 2,
        ..CompileLimits::default()
    };
    assert_eq!(
        lex(b"   ", LanguageProfile::Lua55, &limits)
            .unwrap_err()
            .code,
        DiagnosticCode::CompileLimit
    );
    let limits = CompileLimits {
        max_lines: 1,
        ..CompileLimits::default()
    };
    assert_eq!(
        lex(b"\n", LanguageProfile::Lua55, &limits)
            .unwrap_err()
            .code,
        DiagnosticCode::CompileLimit
    );
}

#[test]
fn unknown_byte_has_stopping_span() {
    let error = lex(b"@", LanguageProfile::Lua55, &CompileLimits::default()).unwrap_err();
    assert_eq!(error.code, DiagnosticCode::Lex);
    assert_eq!(
        error.span,
        Span {
            start_byte: 0,
            end_byte: 1
        }
    );
    assert_eq!(error.start, SourcePosition { line: 1, column: 1 });
    assert_eq!(error.end, SourcePosition { line: 1, column: 2 });
}

#[test]
fn strings_and_operators_are_lexed_without_runtime_values() {
    let chunk = lex(
        b"\"\\x41\\000B\" // .. ... == <= >= ~= << >> ::",
        LanguageProfile::Lua55,
        &CompileLimits::default(),
    )
    .unwrap();
    assert_eq!(
        chunk.tokens[0].literal,
        Some(Literal::String(vec![0x41, 0x00, 0x42]))
    );
    assert_eq!(chunk.tokens[1].kind, TokenKind::Symbol(Symbol::FloorSlash));
    assert_eq!(chunk.tokens[2].kind, TokenKind::Symbol(Symbol::Concat));
    assert_eq!(chunk.tokens[3].kind, TokenKind::Symbol(Symbol::Vararg));
    assert_eq!(
        chunk.tokens[10].kind,
        TokenKind::Symbol(Symbol::DoubleColon)
    );
}

#[test]
fn long_delimiters_require_the_same_separator_count() {
    let chunk = lex(
        b"[=[abc]=]",
        LanguageProfile::Lua55,
        &CompileLimits::default(),
    )
    .unwrap();
    assert_eq!(
        chunk.tokens[0].literal,
        Some(Literal::String(b"abc".to_vec()))
    );
    assert_eq!(
        lex(
            b"[=[abc]]",
            LanguageProfile::Lua55,
            &CompileLimits::default()
        )
        .unwrap_err()
        .code,
        DiagnosticCode::Lex
    );
}

#[test]
fn public_entry_reports_eof_and_source_limit() {
    let chunk = lex(b"", LanguageProfile::Lua55, &CompileLimits::default()).unwrap();
    assert_eq!(chunk.profile, LanguageProfile::Lua55);
    assert_eq!(chunk.source_len, 0);
    assert_eq!(chunk.tokens[0].kind, TokenKind::Eof);
    assert_eq!(
        chunk.tokens[0].span,
        Span {
            start_byte: 0,
            end_byte: 0
        }
    );
    assert_eq!(chunk.tokens[0].start, SourcePosition { line: 1, column: 1 });

    let limits = CompileLimits {
        max_source_bytes: 0,
        ..CompileLimits::default()
    };
    assert_eq!(
        lex(b"x", LanguageProfile::Lua55, &limits).unwrap_err().code,
        DiagnosticCode::CompileLimit
    );
}

#[test]
fn public_lexer_stops_on_bad_short_elements_and_token_limit() {
    for input in [b"'unterminated".as_slice(), b"\"\\q\"", b"123abc", b"1e+"] {
        assert_eq!(
            lex(input, LanguageProfile::Lua55, &CompileLimits::default())
                .unwrap_err()
                .code,
            DiagnosticCode::Lex
        );
    }
    let limits = CompileLimits {
        max_tokens: 2,
        ..CompileLimits::default()
    };
    assert_eq!(
        lex(b"a b", LanguageProfile::Lua55, &limits)
            .unwrap_err()
            .code,
        DiagnosticCode::CompileLimit
    );
}

#[test]
fn public_lexer_matches_long_delimiters_exactly() {
    let chunk = lex(
        b"[=[abc]=] --[==[comment]==]x",
        LanguageProfile::Lua55,
        &CompileLimits::default(),
    )
    .unwrap();
    assert_eq!(
        chunk.tokens[0].literal,
        Some(Literal::String(b"abc".to_vec()))
    );
    assert_eq!(chunk.tokens[1].kind, TokenKind::Name);
    assert_eq!(chunk.tokens[1].literal, Some(Literal::Name(b"x".to_vec())));

    let normalized = lex(
        b"[[\r\nfirst\rsecond\nthird\n\rfourth]]",
        LanguageProfile::Lua55,
        &CompileLimits::default(),
    )
    .unwrap();
    assert_eq!(
        normalized.tokens[0].literal,
        Some(Literal::String(b"first\nsecond\nthird\nfourth".to_vec()))
    );
}

#[test]
fn public_lexer_rejects_bad_or_unfinished_long_delimiters() {
    for input in [b"[=[abc]]".as_slice(), b"[=x", b"--[=[comment"] {
        assert_eq!(
            lex(input, LanguageProfile::Lua55, &CompileLimits::default())
                .unwrap_err()
                .code,
            DiagnosticCode::Lex
        );
    }
    let limits = CompileLimits {
        max_token_bytes: 4,
        ..CompileLimits::default()
    };
    assert_eq!(
        lex(b"[[abc]]", LanguageProfile::Lua55, &limits)
            .unwrap_err()
            .code,
        DiagnosticCode::CompileLimit
    );

    let oversized_name = vec![b'a'; CompileLimits::default().max_token_bytes + 1];
    assert_eq!(
        lex(
            &oversized_name,
            LanguageProfile::Lua55,
            &CompileLimits::default(),
        )
        .unwrap_err()
        .code,
        DiagnosticCode::CompileLimit
    );
}

#[test]
fn integer_numerals_keep_their_value_and_float_numerals_their_text() {
    let chunk = lex(
        b"0x10 1.5 0x1.8p1 9223372036854775807 9223372036854775808 0xffffffffffffffff",
        LanguageProfile::Lua55,
        &CompileLimits::default(),
    )
    .unwrap();
    assert_eq!(chunk.tokens[0].literal, Some(Literal::Integer(16)));
    assert_eq!(chunk.tokens[1].kind, TokenKind::Float);
    assert_eq!(chunk.tokens[1].literal, Some(Literal::Float(b"1.5".to_vec())));
    assert_eq!(chunk.tokens[2].literal, Some(Literal::Float(b"0x1.8p1".to_vec())));
    assert_eq!(chunk.tokens[3].literal, Some(Literal::Integer(i64::MAX)));
    assert_eq!(chunk.tokens[4].literal, Some(Literal::Float(b"9223372036854775808".to_vec())));
    assert_eq!(chunk.tokens[5].literal, Some(Literal::Integer(-1)));
    assert_eq!(
        lex(b"123abc", LanguageProfile::Lua55, &CompileLimits::default()).unwrap_err().code,
        DiagnosticCode::Lex
    );
    assert_eq!(
        lex(b"0x1p99999999999", LanguageProfile::Lua55, &CompileLimits::default()).unwrap_err().code,
        DiagnosticCode::Lex
    );
}

#[test]
fn public_lexer_covers_p02_short_elements_for_both_profiles() {
    let chunk = lex(
        b"local x = 0x10 -- comment\n \"\\x41\\000B\" // .. ... == <= >= ~= << >> ::",
        LanguageProfile::Lua55,
        &CompileLimits::default(),
    )
    .unwrap();
    assert_eq!(chunk.tokens[0].kind, TokenKind::Keyword(Keyword::Local));
    assert_eq!(chunk.tokens[1].literal, Some(Literal::Name(b"x".to_vec())));
    assert_eq!(chunk.tokens[2].kind, TokenKind::Symbol(Symbol::Assign));
    assert_eq!(chunk.tokens[3].literal, Some(Literal::Integer(16)));
    assert_eq!(chunk.tokens[4].literal, Some(Literal::String(vec![0x41, 0x00, 0x42])));
    assert_eq!(chunk.tokens.last().unwrap().kind, TokenKind::Eof);
    let lua55 = lex(b"global", LanguageProfile::Lua55, &CompileLimits::default()).unwrap();
    let lua54 = lex(b"global", LanguageProfile::Lua54, &CompileLimits::default()).unwrap();
    assert_eq!(lua55.tokens[0].kind, TokenKind::Keyword(Keyword::Global));
    assert_eq!(lua54.tokens[0].kind, TokenKind::Name);
    assert_eq!(lua54.tokens[0].literal, Some(Literal::Name(b"global".to_vec())));
}

fn float_literal_value(literal: &Option<Literal>) -> f64 {
    match literal {
        Some(Literal::Float(text)) => std::str::from_utf8(text).unwrap().parse::<f64>().unwrap(),
        other => panic!("expected a float literal, got {:?}", other),
    }
}

#[test]
fn public_lexer_keeps_profile_source_length_and_numeral_boundaries() {
    let chunk = lex(
        b"9223372036854775808 0xffffffffffffffff",
        LanguageProfile::Lua54,
        &CompileLimits::default(),
    )
    .unwrap();
    assert_eq!(chunk.profile, LanguageProfile::Lua54);
    assert_eq!(chunk.source_len, b"9223372036854775808 0xffffffffffffffff".len());
    assert_eq!(chunk.tokens[0].kind, TokenKind::Float);
    assert_eq!(float_literal_value(&chunk.tokens[0].literal), 9_223_372_036_854_775_808.0);
    assert_eq!(chunk.tokens[1].literal, Some(Literal::Integer(-1)));
}

#[test]
fn numerals_keep_p01_subtypes_and_reject_bad_forms() {
    let chunk = lex(b"0x10 1.5 0x1.8p1", LanguageProfile::Lua55, &CompileLimits::default()).unwrap();
    assert_eq!(chunk.tokens[0].literal, Some(Literal::Integer(16)));
    assert_eq!(float_literal_value(&chunk.tokens[1].literal), 1.5);
    assert_eq!(chunk.tokens[2].kind, TokenKind::Float);
    assert_eq!(chunk.tokens[2].literal, Some(Literal::Float(b"0x1.8p1".to_vec())));
    assert_eq!(
        lex(b"123abc", LanguageProfile::Lua55, &CompileLimits::default()).unwrap_err().code,
        DiagnosticCode::Lex
    );
    assert_eq!(
        lex(b"1e+", LanguageProfile::Lua55, &CompileLimits::default()).unwrap_err().code,
        DiagnosticCode::Lex
    );
}

#[test]
fn short_string_escapes_stand_for_their_bytes() {
    let chunk = lex(
        b"\"a\\z  \n  b\\65\\0659\\\"\\'\\\\\\\nc\\x7e\\\r\nd\" '\\v\\a'",
        LanguageProfile::Lua54,
        &CompileLimits::default(),
    )
    .unwrap();
    assert_eq!(
        chunk.tokens[0].literal,
        Some(Literal::String(b"abAA9\"'\\\nc~\nd".to_vec()))
    );
    assert_eq!(chunk.tokens[1].literal, Some(Literal::String(vec![11, 7])));
    assert_eq!(
        lex(b"'\\256'", LanguageProfile::Lua54, &CompileLimits::default()).unwrap_err().code,
        DiagnosticCode::Lex
    );
}

#[test]
fn long_strings_drop_the_first_newline_and_keep_the_rest() {
    let chunk = lex(
        b"[==[\n]]\r\n]=]]==] [[\n\n]]",
        LanguageProfile::Lua55,
        &CompileLimits::default(),
    )
    .unwrap();
    assert_eq!(chunk.tokens[0].literal, Some(Literal::String(b"]]\n]=]".to_vec())));
    assert_eq!(chunk.tokens[1].literal, Some(Literal::String(b"\n".to_vec())));
}

#[test]
fn only_white_space_and_comments_lie_between_tokens() {
    let source: &[u8] = b"a --[==[ x ]] ]=] ]==] b -- c ]]\n\td --[x\r\n e";
    let chunk = lex(source, LanguageProfile::Lua55, &CompileLimits::default()).unwrap();
    let names: Vec<Vec<u8>> = chunk
        .tokens
        .iter()
        .filter_map(|token| match &token.literal {
            Some(Literal::Name(name)) => Some(name.clone()),
            _ => None,
        })
        .collect();
    assert_eq!(names, vec![b"a".to_vec(), b"b".to_vec(), b"d".to_vec(), b"e".to_vec()]);
    assert_eq!(chunk.tokens.len(), 5);
    assert_eq!(chunk.tokens[4].kind, TokenKind::Eof);
    assert_eq!(chunk.tokens[4].span.start_byte, source.len());
}
