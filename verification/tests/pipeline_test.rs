use mig::ast::Ast;
use mig::converter::{convert_content, ConverterError};
use mig::file_helper::{get_extension_for_framework, get_file_name_for_framework, is_extension,
                       with_timestamp};
use mig::framework::{to_framework_type, Framework};
use mig::lexer::{lexical_analyzer, LexerError};
use mig::mig::Mig;
use mig::slice_helper::split_with_head_and_separator;
use mig::string_helper::{to_head_large, to_head_larges};
use mig::syntax::SyntaxError;
use mig::token::Token;

#[test]
fn directive_versus_identifier() {
    let p_1 = lexical_analyzer(":create".to_string()).unwrap();
    assert_eq!(p_1.get_tokens().len(), 1);
    assert_eq!(p_1.get_token(0), Token::NameColon("create".to_string()));

    let p_2 = lexical_analyzer("create".to_string()).unwrap();
    assert_eq!(p_2.get_tokens().len(), 1);
    assert_eq!(p_2.get_token(0), Token::Name("create".to_string()));
}

#[test]
fn empty_input_gives_no_tokens() {
    let p = lexical_analyzer(String::new()).unwrap();
    assert_eq!(p.get_tokens().len(), 0);
}

#[test]
fn non_ascii_is_rejected() {
    let p = lexical_analyzer("caf\u{e9}".to_string());
    match p {
        Ok(_) => panic!("non-ASCII input must fail"),
        Err(e) => assert_eq!(e, LexerError::NotAsciiCharacter(1, 3)),
    }
}

#[test]
fn unterminated_string_fails() {
    let p = lexical_analyzer("\"abc".to_string());
    assert!(p.is_err());
}

#[test]
fn carriage_returns_are_dropped() {
    let p = lexical_analyzer("hoge\r\nhoge".to_string()).unwrap();
    let tokens = p.get_tokens();
    assert_eq!(tokens.len(), 2);
    assert_eq!(tokens[0], Token::Name("hoge".to_string()));
    assert_eq!(tokens[1], Token::Name("hoge".to_string()));
}

#[test]
fn parse_builds_the_expected_tree() {
    let s = ":create members{\n\tname{\n\t:date 1996-07-12 }\n}";
    let seq = lexical_analyzer(s.to_string()).unwrap();
    let ast = seq.parse().unwrap();
    match &ast {
        Ast::Program { start } => match &**start {
            Ast::Method { method, table_name, table_define } => {
                assert_eq!(**method, Ast::Str("create".to_string()));
                assert_eq!(**table_name, Ast::Str("members".to_string()));
                match &**table_define {
                    Ast::Group(options) => {
                        assert_eq!(options.len(), 1);
                        match &*options[0] {
                            Ast::ColumnOption { option_name, option_params } => {
                                assert_eq!(
                                    **option_name,
                                    Ast::ColumnString("name".to_string())
                                );
                                match &**option_params {
                                    Ast::Group(params) => {
                                        assert_eq!(params.len(), 1);
                                        match &*params[0] {
                                            Ast::Param { param_name, param_options } => {
                                                assert_eq!(
                                                    **param_name,
                                                    Ast::Str("date".to_string())
                                                );
                                                match &**param_options {
                                                    Ast::Group(vals) => {
                                                        assert_eq!(vals.len(), 1);
                                                        assert_eq!(
                                                            *vals[0],
                                                            Ast::Ymd(
                                                                Box::new(Ast::UnsignedInteger(
                                                                    1996
                                                                )),
                                                                Box::new(Ast::UnsignedInteger(7)),
                                                                Box::new(Ast::UnsignedInteger(12)),
                                                            )
                                                        );
                                                    }
                                                    _ => panic!("expected a value group"),
                                                }
                                            }
                                            _ => panic!("expected a parameter"),
                                        }
                                    }
                                    _ => panic!("expected a parameter group"),
                                }
                            }
                            _ => panic!("expected a column option"),
                        }
                    }
                    _ => panic!("expected an option group"),
                }
            }
            _ => panic!("expected a method node"),
        },
        _ => panic!("expected a program node"),
    }
    assert!(ast.check_syntax());
}

#[test]
fn empty_table_body_is_rejected() {
    let seq = lexical_analyzer(":create members{\n}".to_string()).unwrap();
    match seq.parse() {
        Err(SyntaxError::TooShort) => {}
        other => panic!("expected TooShort, got {:?}", other),
    }
    assert!(!seq.check_syntax());
}

#[test]
fn empty_column_body_is_rejected() {
    let seq = lexical_analyzer(":create members{\nname {}}".to_string()).unwrap();
    match seq.parse() {
        Err(SyntaxError::NoOption(t)) => assert_eq!(t, Token::Name("name".to_string())),
        other => panic!("expected NoOption, got {:?}", other),
    }
}

#[test]
fn stray_literal_in_body_is_unknown_error() {
    let seq = lexical_analyzer(":create members{ 5 }".to_string()).unwrap();
    match seq.parse() {
        Err(SyntaxError::UnknownError) => {}
        other => panic!("expected UnknownError, got {:?}", other),
    }
}

#[test]
fn value_before_first_directive_is_unknown_option_param() {
    let seq =
        lexical_analyzer(":create members{ name { stray :a 1 } }".to_string()).unwrap();
    match seq.parse() {
        Err(SyntaxError::UnknownOptionParam(t)) => {
            assert_eq!(t, Token::Name("stray".to_string()))
        }
        other => panic!("expected UnknownOptionParam, got {:?}", other),
    }
}

#[test]
fn invalid_tree_reports_failed_validation() {
    // parses, but a bare name is not a legal column parameter value
    match convert_content(":create members{\nname{\n:ref other }\n}".to_string()) {
        Err(ConverterError::Syntax(SyntaxError::CorrectSyntax)) => {}
        other => panic!("expected a validation failure, got {:?}", other),
    }
}

#[test]
fn exact_token_queries() {
    let seq = lexical_analyzer(":create members 7 1996-07-12 12:30:00".to_string()).unwrap();
    assert!(seq.get_token(0).is_name_colon_with("create".to_string()));
    assert!(!seq.get_token(0).is_name_with("create".to_string()));
    assert!(seq.get_token(1).is_name_with("members".to_string()));
    assert!(seq.get_token(2).is_integer_with(7));
    assert!(!seq.get_token(2).is_integer_with(8));
    assert!(seq.get_token(3).is_ymd_with(1996, 7, 12));
    assert!(seq.get_token(4).is_time_with(12, 30, 0));
    assert!(seq.get_token(3).is_column_option());
    assert!(seq.get_token(1).is_table_option());
    assert!(!seq.get_token(1).is_column_option());
}

#[test]
fn validate_is_idempotent() {
    let seq = lexical_analyzer(
        ":create members{\n\tname{\n\t:date 1996-07-12 }\n}".to_string(),
    )
    .unwrap();
    let ast = seq.parse().unwrap();
    let first = ast.check_syntax();
    let second = ast.check_syntax();
    assert_eq!(first, second);
    assert!(first);

    let bad = Ast::Program { start: Box::new(Ast::Empty) };
    assert_eq!(bad.check_syntax(), bad.check_syntax());
    assert!(!bad.check_syntax());
}

#[test]
fn validator_rejects_bare_name_in_column_params() {
    // a bare name is legal as a table-option parameter, not as a column's
    let seq = lexical_analyzer(":create members{\nname{\n:ref other }\n}".to_string()).unwrap();
    let ast = seq.parse().unwrap();
    assert!(!ast.check_syntax());

    let seq2 = lexical_analyzer(":create members{\n:index{\n:ref other }\n}".to_string()).unwrap();
    let ast2 = seq2.parse().unwrap();
    assert!(ast2.check_syntax());
}

#[test]
fn convert_content_runs_the_whole_pipeline() {
    let good = convert_content(":create members{\n\tname{\n\t:date 1996-07-12 }\n}".to_string());
    assert!(good.is_ok());

    match convert_content("12a".to_string()) {
        Err(ConverterError::Parse(LexerError::NotANumber(1, 2))) => {}
        other => panic!("expected a lexical error, got {:?}", other),
    }

    match convert_content(":create members{\n}".to_string()) {
        Err(ConverterError::Syntax(SyntaxError::TooShort)) => {}
        other => panic!("expected a structural error, got {:?}", other),
    }
}

#[test]
fn split_separates_head_and_groups() {
    let tokens = vec![
        Token::Name("stray".to_string()),
        Token::NameColon("a".to_string()),
        Token::Integer(1),
        Token::Integer(2),
        Token::NameColon("b".to_string()),
        Token::Str("x".to_string()),
    ];
    let (head, groups) = split_with_head_and_separator(&tokens);
    assert_eq!(head, vec![Token::Name("stray".to_string())]);
    assert_eq!(groups.len(), 2);
    assert_eq!(groups[0].0, Token::NameColon("a".to_string()));
    assert_eq!(groups[0].1, vec![Token::Integer(1), Token::Integer(2)]);
    assert_eq!(groups[1].0, Token::NameColon("b".to_string()));
    assert_eq!(groups[1].1, vec![Token::Str("x".to_string())]);
}

#[test]
fn hand_built_sequences_parse_too() {
    let tokens = vec![
        Token::NameColon("create".to_string()),
        Token::Name("members".to_string()),
        Token::LMidParen,
        Token::Name("age".to_string()),
        Token::LMidParen,
        Token::NameColon("default".to_string()),
        Token::Integer(20),
        Token::RMidParen,
        Token::RMidParen,
    ];
    let seq = mig::token::Sequence::from(tokens);
    assert!(seq.check_syntax());
    let ast = seq.parse().unwrap();
    assert!(ast.check_syntax());
}

#[test]
fn framework_names_ignore_case() {
    assert_eq!(to_framework_type("laravel"), Some(Framework::Laravel));
    assert_eq!(to_framework_type("Laravel"), Some(Framework::Laravel));
    assert_eq!(to_framework_type("LARAVEL"), Some(Framework::Laravel));
    assert_eq!(to_framework_type(""), None);
    assert_eq!(to_framework_type("rails"), None);
    assert_eq!(to_framework_type("laravel2"), None);
}

#[test]
fn file_names_for_laravel() {
    assert_eq!(get_extension_for_framework(&Framework::Laravel), "php");
    assert_eq!(
        get_file_name_for_framework("create_members", &Framework::Laravel),
        "create_members.php"
    );
    let stamped = with_timestamp("create_members", &Framework::Laravel);
    assert!(stamped.ends_with("create_members.php"));
    assert!(stamped.len() > "create_members.php".len());
}

#[test]
fn extension_checks() {
    assert!(is_extension("input.mig", "mig"));
    assert!(is_extension("dir/input.mig", "mig"));
    assert!(!is_extension("input.mig", "php"));
    assert!(!is_extension("input", "mig"));
    assert!(!is_extension(".mig", "mig"));
    assert!(is_extension("dir.d/archive.tar.gz", "gz"));
}

#[test]
fn head_casing() {
    assert_eq!(to_head_large("laravel"), "Laravel");
    assert_eq!(to_head_large("lARAVEL"), "Laravel");
    assert_eq!(to_head_large(""), "");
    let parts = vec!["create".to_string(), "members".to_string()];
    assert_eq!(to_head_larges(&parts), "create members");
    assert_eq!(to_head_larges(&Vec::new()), "");
}

#[test]
fn mig_accumulates_options_in_order() {
    let mut mig = Mig::new();
    mig.set_method(Token::NameColon("create".to_string())).unwrap();
    mig.set_table_name(Token::Name("members".to_string())).unwrap();
    assert_eq!(mig.method, "create");
    assert_eq!(mig.table_name, "members");

    assert!(mig.set_method(Token::Name("oops".to_string())).is_err());
    assert_eq!(mig.method, "create");

    mig.add_column_options(
        Token::Name("name".to_string()),
        vec![("type".to_string(), vec![Token::Str("text".to_string())])],
    )
    .unwrap();
    mig.add_column_options(
        Token::Name("age".to_string()),
        vec![("type".to_string(), vec![Token::Str("int".to_string())])],
    )
    .unwrap();
    mig.add_column_options(
        Token::Name("name".to_string()),
        vec![("unique".to_string(), vec![])],
    )
    .unwrap();

    assert_eq!(mig.column_options.len(), 2);
    assert_eq!(mig.column_options[0].0, "name");
    assert_eq!(mig.column_options[0].1.len(), 2);
    assert_eq!(mig.column_options[0].1[0].0, "type");
    assert_eq!(mig.column_options[0].1[1].0, "unique");
    assert_eq!(mig.column_options[1].0, "age");

    mig.add_table_options(
        Token::NameColon("index".to_string()),
        vec![("target".to_string(), vec![Token::Name("name".to_string())])],
    )
    .unwrap();
    assert_eq!(mig.table_options.len(), 1);
    assert!(mig
        .add_table_options(Token::Name("bad".to_string()), vec![])
        .is_err());
}
