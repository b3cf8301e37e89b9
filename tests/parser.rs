use nasl::parser::{parse, SyntaxError};
use nasl::statement::{AssignOrder, Statement};
use nasl::token::{Category, IdentifierType, Token};

fn result(code: &str) -> Statement {
    parse(code).into_iter().next().unwrap().unwrap()
}

fn token(category: Category, start: usize, end: usize) -> Token {
    Token {
        category,
        position: (start, end),
    }
}

fn name(n: &str, start: usize, end: usize) -> Token {
    token(
        Category::Identifier(IdentifierType::Undefined(n.to_owned())),
        start,
        end,
    )
}

#[test]
fn operations() {
    fn expected(category: Category) -> Statement {
        Statement::Operator(
            category,
            vec![Statement::Primitive(token(Category::Number(1), 1, 2))],
        )
    }
    assert_eq!(result("-1;"), expected(Category::Minus));
    assert_eq!(result("+1;"), expected(Category::Plus));
    assert_eq!(result("~1;"), expected(Category::Tilde));
    assert_eq!(result("!1;"), expected(Category::Bang));
}

#[test]
fn single_statement() {
    assert_eq!(
        result("1;"),
        Statement::Primitive(token(Category::Number(1), 0, 1))
    );
    assert_eq!(
        result("'a';"),
        Statement::Primitive(token(Category::String("a".to_owned()), 0, 3))
    );
}

#[test]
fn assignment_operator() {
    let expected = |assign_operator: Category| {
        Statement::Operator(
            Category::Plus,
            vec![
                Statement::Primitive(token(Category::Number(1), 0, 1)),
                Statement::Operator(
                    Category::Star,
                    vec![
                        Statement::Assign(
                            assign_operator,
                            AssignOrder::AssignReturn,
                            Box::new(Statement::Variable(name("a", 6, 7))),
                            Box::new(Statement::NoOp(None)),
                        ),
                        Statement::Primitive(token(Category::Number(1), 10, 11)),
                    ],
                ),
            ],
        )
    };
    assert_eq!(result("1 + ++a * 1;"), expected(Category::PlusPlus));
    assert_eq!(result("1 + --a * 1;"), expected(Category::MinusMinus));
}

#[test]
fn assignment_array_operator() {
    let expected = |assign_operator: Category| {
        Statement::Assign(
            assign_operator,
            AssignOrder::AssignReturn,
            Box::new(Statement::Array(
                name("a", 2, 3),
                Some(Box::new(Statement::Primitive(token(Category::Number(0), 4, 5)))),
            )),
            Box::new(Statement::NoOp(None)),
        )
    };
    assert_eq!(result("++a[0];"), expected(Category::PlusPlus));
    assert_eq!(result("--a[0];"), expected(Category::MinusMinus));
}

#[test]
fn variable_assignment_operator() {
    let expected = |assign_operator: Category| {
        Statement::Operator(
            Category::Plus,
            vec![
                Statement::Primitive(token(Category::Number(1), 0, 1)),
                Statement::Operator(
                    Category::Star,
                    vec![
                        Statement::Assign(
                            assign_operator,
                            AssignOrder::ReturnAssign,
                            Box::new(Statement::Variable(name("a", 4, 5))),
                            Box::new(Statement::NoOp(None)),
                        ),
                        Statement::Primitive(token(Category::Number(1), 10, 11)),
                    ],
                ),
            ],
        )
    };
    assert_eq!(result("1 + a++ * 1;"), expected(Category::PlusPlus));
    assert_eq!(result("1 + a-- * 1;"), expected(Category::MinusMinus));
}

#[test]
fn array_assignment_operator() {
    let expected = |assign_operator: Category| {
        Statement::Assign(
            assign_operator,
            AssignOrder::ReturnAssign,
            Box::new(Statement::Array(
                name("a", 0, 1),
                Some(Box::new(Statement::Primitive(token(Category::Number(1), 2, 3)))),
            )),
            Box::new(Statement::NoOp(None)),
        )
    };
    assert_eq!(result("a[1]++;"), expected(Category::PlusPlus));
    assert_eq!(result("a[1]--;"), expected(Category::MinusMinus));
}

#[test]
fn precedence_of_product_over_sum() {
    assert_eq!(
        result("1 + 2 * 3;"),
        Statement::Operator(
            Category::Plus,
            vec![
                Statement::Primitive(token(Category::Number(1), 0, 1)),
                Statement::Operator(
                    Category::Star,
                    vec![
                        Statement::Primitive(token(Category::Number(2), 4, 5)),
                        Statement::Primitive(token(Category::Number(3), 8, 9)),
                    ],
                ),
            ],
        )
    );
}

#[test]
fn missing_semicolon_is_reported() {
    let parsed = parse("1 + 2");
    assert_eq!(parsed.len(), 1);
    assert_eq!(parsed[0], Err(SyntaxError::UnexpectedEnd));
}

#[test]
fn parsing_resumes_after_error() {
    let parsed = parse("1 + ; 2;");
    assert_eq!(parsed.len(), 2);
    assert!(parsed[0].is_err());
    assert_eq!(
        parsed[1],
        Ok(Statement::Primitive(token(Category::Number(2), 6, 7)))
    );
}

#[test]
fn bracket_as_primary_is_rejected() {
    let parsed = parse("[1];");
    assert!(parsed[0].is_err());
}

#[test]
fn same_power_associates_left() {
    assert_eq!(
        result("1 - 2 - 3;"),
        Statement::Operator(
            Category::Minus,
            vec![
                Statement::Operator(
                    Category::Minus,
                    vec![
                        Statement::Primitive(token(Category::Number(1), 0, 1)),
                        Statement::Primitive(token(Category::Number(2), 4, 5)),
                    ],
                ),
                Statement::Primitive(token(Category::Number(3), 8, 9)),
            ],
        )
    );
}

#[test]
fn prefix_increment_of_element() {
    assert_eq!(
        result("++a[0];"),
        Statement::Assign(
            Category::PlusPlus,
            AssignOrder::AssignReturn,
            Box::new(Statement::Array(
                name("a", 2, 3),
                Some(Box::new(Statement::Primitive(token(Category::Number(0), 4, 5)))),
            )),
            Box::new(Statement::NoOp(None)),
        )
    );
}
