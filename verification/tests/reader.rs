use mal::environment::MalEnvironment;
use mal::read::{read_lexemes, read_str, read_tokens, tokenize, MalReaderError, Reader};
use mal::scan::{keep_lexemes, lexer, scan};
use mal::text::{chars_of, decimal_text, only_digits, parse_decimal, same_text};
use mal::{MalDataType, MalToken};

fn symbol(s: &str) -> MalToken {
    MalToken::Data(MalDataType::Symbol(s.to_owned()))
}

fn num(n: usize) -> MalToken {
    MalToken::Data(MalDataType::Int(n))
}

fn read(s: &str) -> Result<MalDataType, MalReaderError> {
    read_str(s, &MalEnvironment::new())
}

#[test]
fn can_tokenize() {
    let lexemes = lexer("  (  + 2   ( *  3   4)   )   ").unwrap();
    assert_eq!(lexemes, vec!["(", "+", "2", "(", "*", "3", "4", ")", ")"]);
}

#[test]
fn can_get_mal_tokens() {
    let mal = MalEnvironment::new();
    let mal_list = read_str("(+ 2 3 nil false)", &mal).unwrap();
    assert_eq!(
        mal_list,
        MalDataType::List(vec![
            MalToken::Data(MalDataType::Symbol("+".to_owned())),
            MalToken::Data(MalDataType::Int(2)),
            MalToken::Data(MalDataType::Int(3)),
            MalToken::Data(MalDataType::Nil),
            MalToken::Data(MalDataType::Boolean(false)),
        ])
    );
}

#[test]
fn can_render_s() {
    let mal = MalEnvironment::new();
    let mal_list = read_str(" ( + 2   3 )  ", &mal).unwrap();
    assert_eq!(mal_list.to_string(), "(+ 2 3)".to_owned());
}

#[test]
fn unterminated_list_is_reported() {
    assert_eq!(read("(1 2"), Err(MalReaderError::UnterminatedList));
    assert_eq!(read("[1 (2 3)"), Err(MalReaderError::UnterminatedList));
}

#[test]
fn double_colon_is_illegal_token() {
    assert_eq!(read("::bad"), Err(MalReaderError::IllegalToken("::bad".to_owned())));
}

#[test]
fn open_string_is_illegal_string() {
    assert_eq!(
        read("\"unterminated"),
        Err(MalReaderError::IllegalString("\"unterminated".to_owned()))
    );
    assert_eq!(
        MalToken::from_str("\""),
        Err(MalReaderError::IllegalString("\"".to_owned()))
    );
}

#[test]
fn digit_led_symbol_is_illegal_symbol() {
    assert_eq!(read("1abc"), Err(MalReaderError::IllegalSymbol("1abc".to_owned())));
    assert_eq!(
        MalToken::from_str("a\"b"),
        Err(MalReaderError::IllegalSymbol("a\"b".to_owned()))
    );
}

#[test]
fn empty_input_has_no_form() {
    assert_eq!(lexer("").unwrap(), Vec::<&str>::new());
    assert_eq!(lexer("   \t \n ").unwrap(), Vec::<&str>::new());
    assert_eq!(lexer(" , , ").unwrap(), Vec::<&str>::new());
    assert_eq!(read(""), Err(MalReaderError::UnterminatedList));
    assert_eq!(read("    "), Err(MalReaderError::UnterminatedList));
    assert_eq!(read_lexemes(&[]), Err(MalReaderError::UnterminatedList));
    assert_eq!(read_tokens(vec![]), Err(MalReaderError::UnterminatedList));
}

#[test]
fn closer_of_the_other_kind_is_a_mismatch() {
    assert_eq!(read("(]"), Err(MalReaderError::MismatchedBracket));
    assert_eq!(read("(1 2]"), Err(MalReaderError::MismatchedBracket));
    assert_eq!(read("[1 2)"), Err(MalReaderError::MismatchedBracket));
    assert_eq!(read("(1 [2 ) ]"), Err(MalReaderError::MismatchedBracket));
    assert_eq!(read("(1 [2] 3)").unwrap().to_string(), "(1 [2] 3)");
    assert_eq!(read("([)"), Err(MalReaderError::MismatchedBracket));
}

#[test]
fn tokens_after_the_first_form_are_not_read() {
    assert_eq!(read("1 2 )"), Ok(MalDataType::Int(1)));
    assert_eq!(read("(a) ]"), Ok(MalDataType::List(vec![symbol("a")])));
}

#[test]
fn stray_bracket_at_top_level_is_an_error() {
    assert_eq!(read(")"), Err(MalReaderError::UnterminatedList));
    assert_eq!(read("]"), Err(MalReaderError::UnterminatedList));
}

#[test]
fn numeral_too_large_is_a_typed_error() {
    let big = "99999999999999999999999999999999999999";
    assert_eq!(
        MalToken::from_str(big),
        Err(MalReaderError::IllegalInteger(big.to_owned()))
    );
    assert_eq!(read(big), Err(MalReaderError::IllegalInteger(big.to_owned())));
    assert_eq!(
        MalToken::from_str(""),
        Err(MalReaderError::IllegalInteger(String::new()))
    );
    let max = usize::MAX.to_string();
    assert_eq!(MalToken::from_str(&max), Ok(num(usize::MAX)));
}

#[test]
fn classifier_follows_first_match() {
    assert_eq!(MalToken::from_str("("), Ok(MalToken::OpenParen));
    assert_eq!(MalToken::from_str(")"), Ok(MalToken::CloseParen));
    assert_eq!(MalToken::from_str("["), Ok(MalToken::OpenBracket));
    assert_eq!(MalToken::from_str("]"), Ok(MalToken::CloseBracket));
    assert_eq!(MalToken::from_str("nil"), Ok(MalToken::Data(MalDataType::Nil)));
    assert_eq!(MalToken::from_str("true"), Ok(MalToken::Data(MalDataType::Boolean(true))));
    assert_eq!(MalToken::from_str("false"), Ok(MalToken::Data(MalDataType::Boolean(false))));
    assert_eq!(
        MalToken::from_str(":kw"),
        Ok(MalToken::Data(MalDataType::Keyword(":kw".to_owned())))
    );
    assert_eq!(MalToken::from_str("007"), Ok(num(7)));
    assert_eq!(MalToken::from_str("1234"), Ok(num(1234)));
    assert_eq!(
        MalToken::from_str("\"a b\""),
        Ok(MalToken::Data(MalDataType::String("\"a b\"".to_owned())))
    );
    assert_eq!(MalToken::from_str("\"\""), Ok(MalToken::Data(MalDataType::String("\"\"".to_owned()))));
    assert_eq!(MalToken::from_str("nile"), Ok(symbol("nile")));
    assert_eq!(MalToken::from_str("-5"), Ok(symbol("-5")));
}

#[test]
fn tokenize_reports_the_first_failure() {
    assert_eq!(
        tokenize(&["(", "1", ")"]),
        Ok(vec![MalToken::OpenParen, num(1), MalToken::CloseParen])
    );
    assert_eq!(
        tokenize(&["a", "::x", "1b"]),
        Err(MalReaderError::IllegalToken("::x".to_owned()))
    );
}

#[test]
fn reader_cursor_rests_on_the_last_token_of_a_form() {
    let tokens = tokenize(&["(", "a", "[", "1", "]", ")", "b"]).unwrap();
    let mut reader = Reader::new(tokens);
    assert_eq!(reader.peek(), Ok(&MalToken::OpenParen));
    assert_eq!(reader.read_atom(), Ok(MalToken::OpenParen));
    let form = reader.read_form().unwrap();
    assert_eq!(
        form,
        MalToken::Data(MalDataType::List(vec![
            symbol("a"),
            MalToken::Data(MalDataType::Vector(vec![num(1)])),
        ]))
    );
    assert_eq!(reader.peek(), Ok(&MalToken::CloseParen));
}

#[test]
fn reader_reads_rest_of_list_and_vector() {
    let mut reader = Reader::new(tokenize(&["1", "2", ")", "3"]).unwrap());
    assert_eq!(
        reader.read_list(),
        Ok(MalToken::Data(MalDataType::List(vec![num(1), num(2)])))
    );
    assert_eq!(reader.peek(), Ok(&MalToken::CloseParen));
    let mut reader = Reader::new(tokenize(&["1", "[", "]", "]"]).unwrap());
    assert_eq!(
        reader.read_vector(),
        Ok(MalToken::Data(MalDataType::Vector(vec![
            num(1),
            MalToken::Data(MalDataType::Vector(vec![])),
        ])))
    );
    let mut reader = Reader::new(tokenize(&["1", ")", "]"]).unwrap());
    assert_eq!(reader.read_vector(), Err(MalReaderError::MismatchedBracket));
    assert_eq!(reader.peek(), Ok(&MalToken::CloseParen));
    let mut reader = Reader::new(tokenize(&["1", "2"]).unwrap());
    assert_eq!(reader.read_list(), Err(MalReaderError::UnterminatedList));
    assert_eq!(reader.peek(), Err(MalReaderError::UnterminatedList));
    assert_eq!(reader.read_atom(), Err(MalReaderError::UnterminatedList));
    assert_eq!(reader.read_form(), Err(MalReaderError::UnterminatedList));
}

#[test]
fn printer_renders_each_kind() {
    assert_eq!(MalDataType::Nil.to_string(), "nil");
    assert_eq!(MalDataType::Boolean(true).to_string(), "true");
    assert_eq!(MalDataType::Boolean(false).to_string(), "false");
    assert_eq!(MalDataType::Int(0).to_string(), "0");
    assert_eq!(MalDataType::Int(4096).to_string(), "4096");
    assert_eq!(MalDataType::String("\"hi\"".to_owned()).to_string(), "\"hi\"");
    assert_eq!(MalDataType::Keyword(":kw".to_owned()).to_string(), ":kw");
    assert_eq!(MalDataType::Keyword("xkw".to_owned()).to_string(), ":kw");
    assert_eq!(MalDataType::Keyword(String::new()).to_string(), ":");
    assert_eq!(MalDataType::Symbol("abc".to_owned()).to_string(), "abc");
    assert_eq!(MalDataType::List(vec![]).to_string(), "()");
    assert_eq!(MalDataType::Vector(vec![]).to_string(), "[]");
    assert_eq!(
        MalDataType::Vector(vec![num(1), symbol(""), MalToken::Data(MalDataType::List(vec![symbol("a"), num(2)]))])
            .to_string(),
        "[1 (a 2)]"
    );
    assert_eq!(MalToken::OpenParen.to_string(), "(");
    assert_eq!(MalToken::CloseParen.to_string(), ")");
    assert_eq!(MalToken::OpenBracket.to_string(), "[");
    assert_eq!(MalToken::CloseBracket.to_string(), "]");
    assert_eq!(num(12).to_string(), "12");
}

#[test]
fn rendering_then_reading_gives_the_value_back() {
    for text in ["(+ 2 (* 3 4))", "[1 [2 :k] \"s t\" nil true]", "sym", "42", "()", " ( a , b ) "] {
        let value = read(text).unwrap();
        let again = read(&value.to_string()).unwrap();
        assert_eq!(again, value);
    }
}

#[test]
fn lexer_cuts_by_the_pattern() {
    assert_eq!(lexer("~@(a)").unwrap(), vec!["~@", "(", "a", ")"]);
    assert_eq!(lexer("'a `b ~c ^d @e").unwrap(), vec!["'", "a", "`", "b", "~", "c", "^", "d", "@", "e"]);
    assert_eq!(lexer("{a,b}").unwrap(), vec!["{", "a", "b", "}"]);
    assert_eq!(lexer("\"a \\\" b\" c").unwrap(), vec!["\"a \\\" b\"", "c"]);
    assert_eq!(lexer("\"open").unwrap(), vec!["\"open"]);
    assert_eq!(lexer("a ; rest (of line").unwrap(), vec!["a", "; rest (of line"]);
}

#[test]
fn lexer_trims_before_it_scans() {
    assert_eq!(lexer("a ;c \n").unwrap(), vec!["a", ";c"]);
    assert_eq!(scan("a ;c \n").unwrap(), vec!["a", ";c "]);
}

#[test]
fn keep_lexemes_drops_empty_and_missing_groups() {
    assert_eq!(keep_lexemes(vec![Some("a"), Some(""), None, Some("b")]), vec!["a", "b"]);
    assert_eq!(keep_lexemes(vec![]), Vec::<&str>::new());
}

#[test]
fn copies_are_equal() {
    let value = read("(a [1 \"s\"] :k)").unwrap();
    assert_eq!(value.clone(), value);
    let token = MalToken::Data(read("[x]").unwrap());
    assert_eq!(token.clone(), token);
}

#[test]
fn decimal_helpers() {
    assert_eq!(decimal_text(0), "0");
    assert_eq!(decimal_text(907), "907");
    assert_eq!(decimal_text(usize::MAX), usize::MAX.to_string());
    assert_eq!(parse_decimal(&chars_of("0042")), Some(42));
    assert_eq!(parse_decimal(&chars_of("")), None);
    assert_eq!(parse_decimal(&chars_of("4x")), None);
    assert_eq!(parse_decimal(&chars_of("340282366920938463463374607431768211456")), None);
    assert!(only_digits(&chars_of("123")));
    assert!(!only_digits(&chars_of("12a")));
    assert!(same_text("ab", "ab"));
    assert!(!same_text("ab", "abc"));
    assert_eq!(chars_of("héllo"), vec!['h', 'é', 'l', 'l', 'o']);
}

#[test]
fn environment_holds_the_standard_macros() {
    let env = MalEnvironment::new();
    assert_eq!(env.reader_macro("@"), Some("deref".to_owned()));
    assert_eq!(env.reader_macro("'"), Some("quote".to_owned()));
    assert_eq!(env.reader_macro("~"), None);
}

#[test]
fn comment_lexeme_runs_to_the_end_of_its_line() {
    assert_eq!(
        read("(1 ;x\n)"),
        Ok(MalDataType::List(vec![num(1), symbol(";x")]))
    );
    assert_eq!(read("(1 ;x)"), Err(MalReaderError::UnterminatedList));
}
