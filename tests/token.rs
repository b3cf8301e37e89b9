use nasl::token::{Base, Category, IdentifierType, StringCategory, Token, Tokenizer, UnclosedCategory};

fn build_token(input: (Category, usize, usize)) -> Token {
    let (category, start, end) = input;
    Token {
        category,
        position: (start, end),
    }
}

fn verify_tokens(code: &str, expected: Vec<(Category, usize, usize)>) -> (Tokenizer, Vec<Token>) {
    let tokenizer = Tokenizer::new(code);
    let actual: Vec<Token> = tokenizer.tokens();
    let expected: Vec<Token> = expected.into_iter().map(build_token).collect();
    assert_eq!(actual, expected);
    (tokenizer, actual)
}

fn range(token: &Token) -> std::ops::Range<usize> {
    token.position.0..token.position.1
}

#[test]
fn skip_white_space() {
    verify_tokens("     (       ", vec![(Category::LeftParen, 5, 6)]);
}

#[test]
fn single_symbol_tokens() {
    verify_tokens("(", vec![(Category::LeftParen, 0, 1)]);
    verify_tokens(")", vec![(Category::RightParen, 0, 1)]);
    verify_tokens("[", vec![(Category::LeftBrace, 0, 1)]);
    verify_tokens("]", vec![(Category::RightBrace, 0, 1)]);
    verify_tokens("{", vec![(Category::LeftCurlyBracket, 0, 1)]);
    verify_tokens("}", vec![(Category::RightCurlyBracket, 0, 1)]);
    verify_tokens(",", vec![(Category::Comma, 0, 1)]);
    verify_tokens(".", vec![(Category::Dot, 0, 1)]);
    verify_tokens("-", vec![(Category::Minus, 0, 1)]);
    verify_tokens("+", vec![(Category::Plus, 0, 1)]);
    verify_tokens("%", vec![(Category::Percent, 0, 1)]);
    verify_tokens(";", vec![(Category::Semicolon, 0, 1)]);
    verify_tokens("/", vec![(Category::Slash, 0, 1)]);
    verify_tokens("*", vec![(Category::Star, 0, 1)]);
    verify_tokens(":", vec![(Category::DoublePoint, 0, 1)]);
    verify_tokens("~", vec![(Category::Tilde, 0, 1)]);
    verify_tokens("&", vec![(Category::Ampersand, 0, 1)]);
    verify_tokens("|", vec![(Category::Pipe, 0, 1)]);
    verify_tokens("^", vec![(Category::Caret, 0, 1)]);
}

#[test]
fn two_symbol_tokens() {
    verify_tokens("&", vec![(Category::Ampersand, 0, 1)]);
    verify_tokens("&&", vec![(Category::AmpersandAmpersand, 0, 2)]);
    verify_tokens("|", vec![(Category::Pipe, 0, 1)]);
    verify_tokens("||", vec![(Category::PipePipe, 0, 2)]);
    verify_tokens("!", vec![(Category::Bang, 0, 1)]);
    verify_tokens("!=", vec![(Category::BangEqual, 0, 2)]);
    verify_tokens("!~", vec![(Category::BangTilde, 0, 2)]);
    verify_tokens("=", vec![(Category::Equal, 0, 1)]);
    verify_tokens("==", vec![(Category::EqualEqual, 0, 2)]);
    verify_tokens("=~", vec![(Category::EqualTilde, 0, 2)]);
    verify_tokens(">", vec![(Category::Greater, 0, 1)]);
    verify_tokens(">>", vec![(Category::GreaterGreater, 0, 2)]);
    verify_tokens(">=", vec![(Category::GreaterEqual, 0, 2)]);
    verify_tokens("><", vec![(Category::GreaterLess, 0, 2)]);
    verify_tokens("<", vec![(Category::Less, 0, 1)]);
    verify_tokens("<<", vec![(Category::LessLess, 0, 2)]);
    verify_tokens("<=", vec![(Category::LessEqual, 0, 2)]);
    verify_tokens("-", vec![(Category::Minus, 0, 1)]);
    verify_tokens("--", vec![(Category::MinusMinus, 0, 2)]);
    verify_tokens("+", vec![(Category::Plus, 0, 1)]);
    verify_tokens("+=", vec![(Category::PlusEqual, 0, 2)]);
    verify_tokens("++", vec![(Category::PlusPlus, 0, 2)]);
    verify_tokens("/", vec![(Category::Slash, 0, 1)]);
    verify_tokens("/=", vec![(Category::SlashEqual, 0, 2)]);
    verify_tokens("*", vec![(Category::Star, 0, 1)]);
    verify_tokens("**", vec![(Category::StarStar, 0, 2)]);
    verify_tokens("*=", vec![(Category::StarEqual, 0, 2)]);
}

#[test]
fn three_symbol_tokens() {
    verify_tokens(">>>", vec![(Category::GreaterGreaterGreater, 0, 3)]);
    verify_tokens(">>=", vec![(Category::GreaterGreaterEqual, 0, 3)]);
    verify_tokens(">!<", vec![(Category::GreaterBangLess, 0, 3)]);
    verify_tokens("<<=", vec![(Category::LessLessEqual, 0, 3)]);
}

#[test]
fn four_symbol_tokens() {
    verify_tokens(">>>=", vec![(Category::GreaterGreaterGreaterEqual, 0, 4)]);
}

#[test]
fn unquotable_string() {
    let code = "\"hello I am a closed string\"";
    let (tokenizer, result) = verify_tokens(
        code,
        vec![(Category::String("hello I am a closed string".to_owned()), 0, 28)],
    );
    assert_eq!(tokenizer.lookup(range(&result[0])), code);
    let code = "\"hello I am a closed string\\\"";
    verify_tokens(
        code,
        vec![(Category::Unclosed(UnclosedCategory::String(StringCategory::Unquotable)), 0, 29)],
    );
    let code = "\"hello I am a unclosed string\\";
    verify_tokens(
        code,
        vec![(Category::Unclosed(UnclosedCategory::String(StringCategory::Unquotable)), 0, 30)],
    );
}

#[test]
fn quotable_string() {
    let code = "'Hello \\'you\\'!'";
    verify_tokens(
        code,
        vec![(Category::String("Hello \\'you\\'!".to_owned()), 0, 16)],
    );
    let code = "'Hello \\'you\\'!\\'";
    verify_tokens(
        code,
        vec![(
            Category::Unclosed(UnclosedCategory::String(StringCategory::Quotable)),
            0,
            17,
        )],
    );
}

#[test]
fn numbers() {
    verify_tokens("0", vec![(Category::Number(0), 0, 1)]);
    verify_tokens("0b01", vec![(Category::Number(1), 0, 4)]);
    verify_tokens("1234567890", vec![(Category::Number(1234567890), 0, 10)]);
    verify_tokens("012345670", vec![(Category::Number(2739128), 0, 9)]);
    verify_tokens("0x1234567890ABCDEF", vec![(Category::Number(1311768467294899695), 0, 18)]);
    verify_tokens("0b02", vec![(Category::Number(0), 0, 3), (Category::Number(2), 3, 4)]);
    verify_tokens("0b2", vec![(Category::IllegalNumber(Base::Binary), 0, 2), (Category::Number(2), 2, 3)]);
}

#[test]
fn single_line_comments() {
    verify_tokens(
        "# this is a comment\n;",
        vec![(Category::Comment, 0, 19), (Category::Semicolon, 20, 21)],
    );
}

#[test]
fn identifier() {
    verify_tokens(
        "hel_lo",
        vec![(Category::Identifier(IdentifierType::Undefined("hel_lo".to_owned())), 0, 6)],
    );
    verify_tokens(
        "_hello",
        vec![(Category::Identifier(IdentifierType::Undefined("_hello".to_owned())), 0, 6)],
    );
    verify_tokens(
        "_h4llo",
        vec![(Category::Identifier(IdentifierType::Undefined("_h4llo".to_owned())), 0, 6)],
    );
    verify_tokens(
        "4_h4llo",
        vec![
            (Category::Number(4), 0, 1),
            (Category::Identifier(IdentifierType::Undefined("_h4llo".to_owned())), 1, 7),
        ],
    );
}

#[test]
fn keywords() {
    verify_tokens("for", vec![(Category::Identifier(IdentifierType::For), 0, 3)]);
    verify_tokens("foreach", vec![(Category::Identifier(IdentifierType::ForEach), 0, 7)]);
    verify_tokens("if", vec![(Category::Identifier(IdentifierType::If), 0, 2)]);
    verify_tokens("else", vec![(Category::Identifier(IdentifierType::Else), 0, 4)]);
    verify_tokens("while", vec![(Category::Identifier(IdentifierType::While), 0, 5)]);
    verify_tokens("repeat", vec![(Category::Identifier(IdentifierType::Repeat), 0, 6)]);
    verify_tokens("until", vec![(Category::Identifier(IdentifierType::Until), 0, 5)]);
    verify_tokens("local_var", vec![(Category::Identifier(IdentifierType::LocalVar), 0, 9)]);
    verify_tokens("global_var", vec![(Category::Identifier(IdentifierType::GlobalVar), 0, 10)]);
    verify_tokens("NULL", vec![(Category::Identifier(IdentifierType::Null), 0, 4)]);
    verify_tokens("return", vec![(Category::Identifier(IdentifierType::Return), 0, 6)]);
    verify_tokens("include", vec![(Category::Identifier(IdentifierType::Include), 0, 7)]);
    verify_tokens("exit", vec![(Category::Identifier(IdentifierType::Exit), 0, 4)]);
}

#[test]
fn string_quoting() {
    verify_tokens(
        r###"'webapps\\appliance\\'"###,
        vec![(Category::String("webapps\\\\appliance\\\\".to_owned()), 0, 22)],
    );
}

#[test]
fn simplified_ipv4_address() {
    verify_tokens("10.187.76.12", vec![(Category::IPv4Address, 0, 12)]);
}

#[test]
fn repeat_x_times() {
    verify_tokens(
        "x() x 10;",
        vec![
            (Category::Identifier(IdentifierType::Undefined("x".to_owned())), 0, 1),
            (Category::LeftParen, 1, 2),
            (Category::RightParen, 2, 3),
            (Category::X, 4, 5),
            (Category::Number(10), 6, 8),
            (Category::Semicolon, 8, 9),
        ],
    );
}

#[test]
fn tokenize_description_block() {

    let code = r#"
if(description)
{
  script_oid("1.3.6.1.4.1.25623.1.0.99999");
  exit(0);
}

j = 123;
j >>>= 8;
display(j);
exit(1);
"#;
    verify_tokens(
        code,
        vec![
            (Category::Identifier(IdentifierType::If), 1, 3),
            (Category::LeftParen, 3, 4),
            (Category::Identifier(IdentifierType::Undefined("description".to_owned())), 4, 15),
            (Category::RightParen, 15, 16),
            (Category::LeftCurlyBracket, 17, 18),
            (Category::Identifier(IdentifierType::Undefined("script_oid".to_owned())), 21, 31),
            (Category::LeftParen, 31, 32),
            (Category::String("1.3.6.1.4.1.25623.1.0.99999".to_owned()), 32, 61),
            (Category::RightParen, 61, 62),
            (Category::Semicolon, 62, 63),
            (Category::Identifier(IdentifierType::Exit), 66, 70),
            (Category::LeftParen, 70, 71),
            (Category::Number(0), 71, 72),
            (Category::RightParen, 72, 73),
            (Category::Semicolon, 73, 74),
            (Category::RightCurlyBracket, 75, 76),
            (Category::Identifier(IdentifierType::Undefined("j".to_owned())), 78, 79),
            (Category::Equal, 80, 81),
            (Category::Number(123), 82, 85),
            (Category::Semicolon, 85, 86),
            (Category::Identifier(IdentifierType::Undefined("j".to_owned())), 87, 88),
            (Category::GreaterGreaterGreaterEqual, 89, 93),
            (Category::Number(8), 94, 95),
            (Category::Semicolon, 95, 96),
            (Category::Identifier(IdentifierType::Undefined("display".to_owned())), 97, 104),
            (Category::LeftParen, 104, 105),
            (Category::Identifier(IdentifierType::Undefined("j".to_owned())), 105, 106),
            (Category::RightParen, 106, 107),
            (Category::Semicolon, 107, 108),
            (Category::Identifier(IdentifierType::Exit), 109, 113),
            (Category::LeftParen, 113, 114),
            (Category::Number(1), 114, 115),
            (Category::RightParen, 115, 116),
            (Category::Semicolon, 116, 117),
        ],
    );
}
