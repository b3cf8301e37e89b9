use nasl::assign::{assign_value, combine};
use nasl::error::{FunctionErrorKind, InterpretError};
use nasl::interpreter::read_element;
use nasl::operator::{as_i64, match_regex, not_match_regex, operate};
use nasl::register::{ContextType, Register};
use nasl::statement::AssignOrder;
use nasl::token::{Base, Category, IdentifierType, Token, Tokenizer, UnclosedCategory, StringCategory, ACT};
use nasl::value::{bytes_to_str, values_equal, NaslValue, StringOrData};

fn s(text: &str) -> NaslValue {
    NaslValue::String(text.to_owned())
}

#[test]
fn number_reads_as_itself() {
    for n in [i64::MIN, -1, 0, 1, 42, i64::MAX] {
        assert_eq!(NaslValue::Number(n).to_i64(), n);
    }
}

#[test]
fn coercion_to_number() {
    assert_eq!(NaslValue::Null.to_i64(), 0);
    assert_eq!(NaslValue::Boolean(true).to_i64(), 1);
    assert_eq!(NaslValue::Exit(7).to_i64(), 7);
    assert_eq!(s("abc").to_i64(), 1);
    assert_eq!(NaslValue::Array(vec![]).to_i64(), 1);
    assert_eq!(NaslValue::AttackCategory(ACT::Attack).to_i64(), 4);
}

#[test]
fn string_truth() {
    assert!(!s("").to_bool());
    assert!(!s("0").to_bool());
    assert!(s("00").to_bool());
    assert!(s("a").to_bool());
    assert!(!NaslValue::Null.to_bool());
    assert!(!NaslValue::Array(vec![]).to_bool());
    assert!(NaslValue::Array(vec![NaslValue::Null]).to_bool());
    assert!(NaslValue::AttackCategory(ACT::End).to_bool());
}

#[test]
fn text_of_values() {
    assert_eq!(NaslValue::Number(-120).to_text(), "-120");
    assert_eq!(NaslValue::Number(i64::MIN).to_text(), "-9223372036854775808");
    assert_eq!(NaslValue::Boolean(true).to_text(), "true");
    assert_eq!(NaslValue::Null.to_text(), "\0");
    assert_eq!(NaslValue::Exit(2).to_text(), "exit(2)");
    assert_eq!(
        NaslValue::Array(vec![NaslValue::Number(1), s("x")]).to_text(),
        "0: 1,1: x"
    );
    assert_eq!(
        NaslValue::Dict(vec![("k".to_owned(), NaslValue::Number(3))]).to_text(),
        "k: 3"
    );
    assert_eq!(NaslValue::AttackCategory(ACT::GatherInfo).to_text(), "ACT_GATHER_INFO");
    assert_eq!(NaslValue::Data(vec![104, 105]).to_text(), "hi");
}

#[test]
fn bytes_become_characters() {
    assert_eq!(bytes_to_str(&[72, 105, 0xe9]), "Hi\u{e9}");
}

#[test]
fn string_or_data() {
    assert_eq!(StringOrData::from_nasl_value(&s("a")).unwrap().0, "a");
    assert_eq!(
        StringOrData::from_nasl_value(&NaslValue::Data(vec![97, 98])).unwrap().0,
        "ab"
    );
    assert!(matches!(
        StringOrData::from_nasl_value(&NaslValue::Number(1)),
        Err(FunctionErrorKind::WrongArgument(_))
    ));
}

#[test]
fn deep_equality() {
    let a = NaslValue::Array(vec![s("x"), NaslValue::Number(1)]);
    let b = a.clone();
    assert!(values_equal(&a, &b));
    assert!(!values_equal(&a, &NaslValue::Array(vec![s("x")])));
}

#[test]
fn operator_errors() {
    assert_eq!(
        operate(&Category::Comma, NaslValue::Null, None),
        Err(InterpretError::WrongCategory)
    );
    assert_eq!(
        operate(&Category::Percent, NaslValue::Number(3), Some(NaslValue::Null)),
        Err(InterpretError::DivisionByZero)
    );
    assert_eq!(
        operate(&Category::Minus, NaslValue::Number(3), None),
        Ok(NaslValue::Number(-3))
    );
}

#[test]
fn operands_as_numbers() {
    assert_eq!(as_i64(&s("a"), &None), (1, 0));
    assert_eq!(as_i64(&NaslValue::Number(5), &Some(NaslValue::Boolean(true))), (5, 1));
}

#[test]
fn regex_matching() {
    assert_eq!(match_regex(&s("abc"), &Some(s("^a.c$"))), Ok(NaslValue::Boolean(true)));
    assert_eq!(match_regex(&s("abc"), &Some(s("^b"))), Ok(NaslValue::Boolean(false)));
    assert_eq!(not_match_regex(&s("abc"), &Some(s("^b"))), Ok(NaslValue::Boolean(true)));
    assert_eq!(
        match_regex(&s("abc"), &Some(s("["))),
        Err(InterpretError::UnparseableRegex("[".to_owned()))
    );
}

#[test]
fn combinators() {
    assert_eq!(
        combine(&Category::PlusEqual, &s("x"), NaslValue::Number(1)),
        Ok(NaslValue::Number(2))
    );
    assert_eq!(
        combine(&Category::GreaterGreaterGreaterEqual, &NaslValue::Number(-2), NaslValue::Number(2)),
        Ok(NaslValue::Number(1073741823))
    );
    assert_eq!(
        combine(&Category::SlashEqual, &NaslValue::Number(1), NaslValue::Number(0)),
        Err(InterpretError::DivisionByZero)
    );
    assert_eq!(
        combine(&Category::Comma, &NaslValue::Number(1), NaslValue::Number(0)),
        Err(InterpretError::WrongCategory)
    );
}

#[test]
fn write_past_end_pads_with_null() {
    let r = assign_value(
        &Category::Equal,
        AssignOrder::AssignReturn,
        NaslValue::Null,
        Some(NaslValue::Number(2)),
        NaslValue::Number(12),
    )
    .unwrap();
    assert_eq!(
        r.stored,
        NaslValue::Array(vec![NaslValue::Null, NaslValue::Null, NaslValue::Number(12)])
    );
    assert_eq!(r.returned, NaslValue::Number(12));
}

#[test]
fn scalar_becomes_first_element() {
    let r = assign_value(
        &Category::Equal,
        AssignOrder::AssignReturn,
        NaslValue::Number(12),
        Some(NaslValue::Number(2)),
        NaslValue::Number(12),
    )
    .unwrap();
    assert_eq!(
        r.stored,
        NaslValue::Array(vec![NaslValue::Number(12), NaslValue::Null, NaslValue::Number(12)])
    );
}

#[test]
fn string_key_makes_dict() {
    let r = assign_value(
        &Category::Equal,
        AssignOrder::AssignReturn,
        NaslValue::Array(vec![NaslValue::Number(7)]),
        Some(s("k")),
        NaslValue::Number(12),
    )
    .unwrap();
    assert_eq!(
        r.stored,
        NaslValue::Dict(vec![
            ("0".to_owned(), NaslValue::Number(7)),
            ("k".to_owned(), NaslValue::Number(12))
        ])
    );
}

#[test]
fn postfix_assignment_returns_previous() {
    let r = assign_value(
        &Category::PlusPlus,
        AssignOrder::ReturnAssign,
        NaslValue::Number(0),
        None,
        NaslValue::Null,
    )
    .unwrap();
    assert_eq!(r.stored, NaslValue::Number(1));
    assert_eq!(r.returned, NaslValue::Number(0));
}

#[test]
fn negative_index_is_error() {
    assert!(matches!(
        assign_value(
            &Category::Equal,
            AssignOrder::AssignReturn,
            NaslValue::Null,
            Some(NaslValue::Number(-1)),
            NaslValue::Number(1),
        ),
        Err(InterpretError::NegativeIndex(-1))
    ));
}

#[test]
fn element_reads() {
    let name = "a".to_owned();
    let arr = NaslValue::Array(vec![NaslValue::Number(1)]);
    assert_eq!(read_element(arr, NaslValue::Number(0), &name), Ok(NaslValue::Number(1)));
    let arr = NaslValue::Array(vec![NaslValue::Number(1)]);
    assert_eq!(read_element(arr, NaslValue::Number(4), &name), Ok(NaslValue::Null));
    let dict = NaslValue::Dict(vec![("k".to_owned(), NaslValue::Number(2))]);
    assert_eq!(read_element(dict, s("k"), &name), Ok(NaslValue::Number(2)));
    assert_eq!(
        read_element(NaslValue::Number(3), NaslValue::Number(0), &name),
        Err(InterpretError::NotIndexable("a".to_owned()))
    );
}

#[test]
fn register_scopes() {
    let mut r = Register::create_root(vec![]);
    r.add_global("g", ContextType::Value(NaslValue::Number(1)));
    r.create_child();
    r.add_local("l", ContextType::Value(NaslValue::Number(2)));
    assert_eq!(r.depth(), 2);
    assert_eq!(r.index_named("g").map(|(i, _)| i), Some(0));
    assert_eq!(r.named("l"), Some(&ContextType::Value(NaslValue::Number(2))));
    r.drop_frame();
    assert_eq!(r.named("l"), None);
    r.drop_frame();
    assert_eq!(r.depth(), 1);
}

#[test]
fn unclosed_string_token() {
    let t = Tokenizer::new("\"abc").tokens();
    assert_eq!(
        t,
        vec![Token {
            category: Category::Unclosed(UnclosedCategory::String(StringCategory::Unquotable)),
            position: (0, 4)
        }]
    );
}

#[test]
fn escapes_in_double_quotes() {
    let t = Tokenizer::new("\"a\\nb\\tc\"").tokens();
    assert_eq!(t[0].category, Category::String("a\nb\tc".to_owned()));
}

#[test]
fn number_literal_round_trip() {
    for (code, n, start) in [
        ("0b101", 5, 0),
        ("017", 15, 0),
        ("255", 255, 0),
        ("0xff", 255, 0),
        ("0x7FFFFFFFFFFFFFFF", i64::MAX, 0),
    ] {
        let t = Tokenizer::new(code).tokens();
        assert_eq!(
            t,
            vec![Token {
                category: Category::Number(n),
                position: (start, code.len())
            }]
        );
    }
}

#[test]
fn number_too_large() {
    let t = Tokenizer::new("0x8000000000000000").tokens();
    assert_eq!(t[0].category, Category::IllegalNumber(Base::Hex));
}

#[test]
fn unknown_base_and_symbol() {
    let t = Tokenizer::new("0z @").tokens();
    assert_eq!(t[0], Token { category: Category::UnknownBase, position: (0, 1) });
    assert!(t[0].is_faulty());
    assert_eq!(t[2], Token { category: Category::UnknownSymbol, position: (3, 4) });
}

#[test]
fn incomplete_address_is_illegal() {
    let t = Tokenizer::new("1.2.3").tokens();
    assert_eq!(t[0], Token { category: Category::IllegalIPv4Address, position: (0, 5) });
}

#[test]
fn keyword_table() {
    assert_eq!(IdentifierType::new("ACT_ATTACK"), IdentifierType::ACT(ACT::Attack));
    assert_eq!(IdentifierType::new("while"), IdentifierType::While);
    assert_eq!(IdentifierType::new("whilst"), IdentifierType::Undefined("whilst".to_owned()));
    assert_eq!(Base::Hex.radix(), 16);
}

#[test]
fn spans_and_whitespace_rebuild_source() {
    let code = "a  = 'b' +\t0x1 \"c\\\"d\";# done\n";
    let tokenizer = Tokenizer::new(code);
    let tokens = tokenizer.tokens();
    let mut rebuilt = String::new();
    let mut at = 0;
    for t in &tokens {
        rebuilt.push_str(&code[at..t.position.0]);
        rebuilt.push_str(&tokenizer.lookup(t.position.0..t.position.1));
        at = t.position.1;
    }
    rebuilt.push_str(&code[at..]);
    assert_eq!(rebuilt, code);
    for pair in tokens.windows(2) {
        assert!(pair[0].position.1 <= pair[1].position.0);
        assert!(code[pair[0].position.1..pair[1].position.0].trim().is_empty());
    }
}

#[test]
fn dictionaries_compare_by_key() {
    let a = NaslValue::Dict(vec![("a".to_owned(), NaslValue::Number(1)), ("b".to_owned(), NaslValue::Number(2))]);
    let b = NaslValue::Dict(vec![("b".to_owned(), NaslValue::Number(2)), ("a".to_owned(), NaslValue::Number(1))]);
    let c = NaslValue::Dict(vec![("b".to_owned(), NaslValue::Number(2)), ("a".to_owned(), NaslValue::Number(3))]);
    assert!(values_equal(&a, &b));
    assert!(!values_equal(&a, &c));
    assert_eq!(operate(&Category::EqualEqual, a, Some(b)), Ok(NaslValue::Boolean(true)));
}

#[test]
fn unsigned_shift_is_thirty_two_bit() {
    assert_eq!(
        operate(&Category::GreaterGreaterGreater, NaslValue::Number(-2), Some(NaslValue::Number(0))),
        Ok(NaslValue::Number(4294967294))
    );
}

#[test]
fn escaped_double_quote_does_not_close() {
    let t = Tokenizer::new("\"a\\\"").tokens();
    assert_eq!(
        t,
        vec![Token {
            category: Category::Unclosed(UnclosedCategory::String(StringCategory::Unquotable)),
            position: (0, 4)
        }]
    );
    let t = Tokenizer::new("\"a\\\"b\"").tokens();
    assert_eq!(t[0].category, Category::String("a\"b".to_owned()));
}

#[test]
fn whole_source_lookup() {
    let code = "x = 'é';";
    let t = Tokenizer::new(code);
    assert_eq!(t.lookup(0..code.len()), code);
}

#[test]
fn unicode_whitespace_is_skipped() {
    assert_eq!(Tokenizer::new("\u{a0}\u{3000} \u{2009}").tokens(), vec![]);
    let t = Tokenizer::new("\u{a0}(").tokens();
    assert_eq!(t, vec![Token { category: Category::LeftParen, position: (2, 3) }]);
}

#[test]
fn unknown_character_is_one_token() {
    let t = Tokenizer::new("\u{e9}").tokens();
    assert_eq!(t, vec![Token { category: Category::UnknownSymbol, position: (0, 2) }]);
}

#[test]
fn escapes_read_from_the_left() {
    let t = Tokenizer::new("\"a\\\\tb\"").tokens();
    assert_eq!(t[0].category, Category::String("a\\tb".to_owned()));
}
