use nasl::error::InterpretError;
use nasl::error::FunctionErrorKind;
use nasl::interpreter::{run, run_statements, FunctionExecuter, NoBuiltins};
use nasl::parser::parse;
use nasl::register::{ContextType, Register};
use nasl::value::NaslValue;

fn ok(code: &str) -> Vec<NaslValue> {
    run(code)
        .into_iter()
        .map(|r| r.expect("evaluation error"))
        .collect()
}

fn num(n: i64) -> NaslValue {
    NaslValue::Number(n)
}

#[test]
fn variables() {
    let code = r###"
        a = 12;
        a += 13;
        a -= 2;
        a /= 2;
        a *= 2;
        a >>= 2;
        a <<= 2;
        a >>>= 2;
        a %= 2;
        a++;
        ++a;
        a--;
        --a;
        "###;
    assert_eq!(
        ok(code),
        vec![
            num(12),
            num(25),
            num(23),
            num(11),
            num(22),
            num(5),
            num(20),
            num(5),
            num(1),
            num(1),
            num(3),
            num(3),
            num(1)
        ]
    );
}

#[test]
fn arrays() {
    let code = r###"
        a[0] = 12;
        a[0] += 13;
        a[0] -= 2;
        a[0] /= 2;
        a[0] *= 2;
        a[0] >>= 2;
        a[0] <<= 2;
        a[0] >>>= 2;
        a[0] %= 2;
        a[0]++;
        ++a[0];
        "###;
    assert_eq!(
        ok(code),
        vec![
            num(12),
            num(25),
            num(23),
            num(11),
            num(22),
            num(5),
            num(20),
            num(5),
            num(1),
            num(1),
            num(3)
        ]
    );
}

#[test]
fn implicit_extend() {
    let code = r###"
        a[2] = 12;
        a;
        "###;
    assert_eq!(
        ok(code),
        vec![
            num(12),
            NaslValue::Array(vec![NaslValue::Null, NaslValue::Null, num(12)])
        ]
    );
}

#[test]
fn implicit_transformation() {
    let code = r###"
        a = 12;
        a;
        a[2] = 12;
        a;
        "###;
    assert_eq!(
        ok(code),
        vec![
            num(12),
            num(12),
            num(12),
            NaslValue::Array(vec![num(12), NaslValue::Null, num(12)])
        ]
    );
}

#[test]
fn dict() {
    let code = r###"
        a['hi'] = 12;
        a;
        a['hi'];
        "###;
    assert_eq!(
        ok(code),
        vec![
            num(12),
            NaslValue::Dict(vec![("hi".to_owned(), num(12))]),
            num(12)
        ]
    );
}

#[test]
fn numeric_plus() {
    assert_eq!(ok("1+2;"), vec![num(3)]);
}

#[test]
fn string_plus() {
    assert_eq!(
        ok("\"hello \"+\"world!\";"),
        vec![NaslValue::String("hello world!".to_owned())]
    );
}

#[test]
fn string_minus() {
    assert_eq!(
        ok("\"hello \" - 'o ';"),
        vec![NaslValue::String("hell".to_owned())]
    );
}

#[test]
fn unsigned_right_shift() {
    assert_eq!(ok("-2 >>> 2;"), vec![num(1073741823)]);
}

#[test]
fn r_match() {
    assert_eq!(ok("'hello' =~ 'hell';"), vec![NaslValue::Boolean(true)]);
}

#[test]
fn r_not_match() {
    assert_eq!(ok("'hello' !~ 'hell';"), vec![NaslValue::Boolean(false)]);
}

#[test]
fn unparseable_regex() {
    assert_eq!(
        run("'hello' =~ '(';"),
        vec![Err(InterpretError::UnparseableRegex("(".to_owned()))]
    );
}

#[test]
fn arithmetic_and_bits() {
    assert_eq!(
        ok("1 - 2; 1*2; 512/2; 512%2; 512 << 2; 512 >> 2; -2 & 2; -2 | 2; -2 ^ 2; 2 ** 2; ~2;"),
        vec![
            num(-1),
            num(2),
            num(256),
            num(0),
            num(2048),
            num(128),
            num(2),
            num(-2),
            num(-4),
            num(4),
            num(-3)
        ]
    );
}

#[test]
fn truncating_division() {
    assert_eq!(ok("-7 / 2; -7 % 2; 7 % -2;"), vec![num(-3), num(-1), num(1)]);
}

#[test]
fn division_by_zero() {
    assert_eq!(run("1 / 0;"), vec![Err(InterpretError::DivisionByZero)]);
}

#[test]
fn comparisons_and_logic() {
    let t = NaslValue::Boolean(true);
    let f = NaslValue::Boolean(false);
    assert_eq!(
        ok("'hello' >< 'hell'; 'hello' >!< 'hell'; !23; !0; 1 && 1; 1 || 0; '1' == '1'; 1 == 1; 1 != 1; 1 > 0; 1 < 2; 1 >= 1; 1 <= 1;"),
        vec![
            t.clone(),
            f.clone(),
            f.clone(),
            t.clone(),
            t.clone(),
            t.clone(),
            t.clone(),
            t.clone(),
            f.clone(),
            t.clone(),
            t.clone(),
            t.clone(),
            t
        ]
    );
}

#[test]
fn for_loop_sums() {
    assert_eq!(
        ok("a=0; for(i=1;i<5;i++){a+=i;} a;"),
        vec![num(0), NaslValue::Null, num(10)]
    );
}

#[test]
fn foreach_sums_array() {
    assert_eq!(
        ok("arr[0]=3; arr[1]=5; a=0; foreach i(arr){a+=i;} a;"),
        vec![num(3), num(5), num(0), NaslValue::Null, num(8)]
    );
}

#[test]
fn postfix_returns_previous() {
    assert_eq!(
        ok("a = 0; x = a++; y = a; x; y;"),
        vec![num(0), num(0), num(1), num(0), num(1)]
    );
}

#[test]
fn prefix_returns_new() {
    assert_eq!(
        ok("a = 0; x = ++a; y = a; x; y;"),
        vec![num(0), num(1), num(1), num(1), num(1)]
    );
}

#[test]
fn compound_assignment_matches_operator() {
    assert_eq!(ok("a = 5; a += 3; a;"), ok("a = 5; a = a + 3; a;"));
}

#[test]
fn index_past_end_reads_null() {
    assert_eq!(
        ok("a[1] = 1; a[5];"),
        vec![num(1), NaslValue::Null]
    );
}

#[test]
fn while_and_repeat() {
    assert_eq!(
        ok("i = 0; while (i < 3) i++; i; repeat i--; until (i < 1); i;"),
        vec![num(0), NaslValue::Null, num(3), NaslValue::Null, num(0)]
    );
}

#[test]
fn user_function_call() {
    assert_eq!(
        ok("function add(a, b) { return a + b; } add(2, 3); add(a: 1, b: 4); add(7);"),
        vec![NaslValue::Null, num(5), num(5), num(7)]
    );
}

#[test]
fn unknown_function_is_error() {
    assert_eq!(
        run("nope();"),
        vec![Err(InterpretError::UnknownFunction("nope".to_owned()))]
    );
}

#[test]
fn repeat_operator() {
    assert_eq!(
        ok("i = 0; i++ x 3; i; i++ x 0;"),
        vec![num(0), num(2), num(3), NaslValue::Null]
    );
}

#[test]
fn if_else_and_exit() {
    assert_eq!(
        ok("if (0) a = 1; else a = 2; a; exit(3);"),
        vec![num(2), num(2), NaslValue::Exit(3)]
    );
}

#[test]
fn return_ends_loop() {
    assert_eq!(
        ok("function f() { for (i = 0; i < 10; i++) { if (i == 3) return i; } } f();"),
        vec![NaslValue::Null, num(3)]
    );
}

#[test]
fn inclusion_merges_source() {
    let statements = nasl::parser::parse("include('lib.inc'); f(); g;");
    let sources = vec![(
        "lib.inc".to_owned(),
        "function f() { return 7; } g = 2;".to_owned(),
    )];
    assert_eq!(
        nasl::interpreter::run_statements(&statements, NoBuiltins, sources),
        vec![Ok(NaslValue::Null), Ok(num(7)), Ok(num(2))]
    );
}

#[test]
fn missing_inclusion_is_load_error() {
    assert_eq!(
        run("include('none.inc');"),
        vec![Err(InterpretError::Load("none.inc".to_owned()))]
    );
}

struct Scripted;

impl FunctionExecuter for Scripted {
    fn nasl_fn_defined(&self, name: &str) -> bool {
        name == "script_oid" || name == "count" || name == "fail"
    }

    fn nasl_fn_execute(&self, name: &str, register: &Register) -> Option<Result<NaslValue, FunctionErrorKind>> {
        match name {
            "script_oid" => Some(Ok(NaslValue::Null)),
            "count" => match register.named("_FCT_ANON_ARGS") {
                Some(ContextType::Value(NaslValue::Array(args))) => {
                    Some(Ok(NaslValue::Number(args.len() as i64)))
                }
                _ => Some(Ok(NaslValue::Number(-1))),
            },
            "fail" => Some(Err(FunctionErrorKind::MissingArgument("x".to_owned()))),
            _ => None,
        }
    }
}

#[test]
fn gonna_give_it_to_ya() {
    assert_eq!(
        run_statements(&parse("script_oid('hi') x 200;"), Scripted, vec![]),
        vec![Ok(NaslValue::Null)]
    );
}

#[test]
fn builtin_sees_positional_arguments() {
    assert_eq!(
        run_statements(&parse("count(1, 2, 3); fail(); other();"), Scripted, vec![]),
        vec![
            Ok(num(3)),
            Err(InterpretError::Function(FunctionErrorKind::MissingArgument("x".to_owned()))),
            Err(InterpretError::UnknownFunction("other".to_owned()))
        ]
    );
}

struct Counter {
    calls: std::cell::Cell<i64>,
}

impl FunctionExecuter for Counter {
    fn nasl_fn_defined(&self, name: &str) -> bool {
        name == "tick"
    }

    fn nasl_fn_execute(&self, _name: &str, _register: &Register) -> Option<Result<NaslValue, FunctionErrorKind>> {
        self.calls.set(self.calls.get() + 1);
        Some(Ok(NaslValue::Number(self.calls.get())))
    }
}

#[test]
fn repeat_calls_left_side_n_times() {
    let counter = Counter { calls: std::cell::Cell::new(0) };
    let r = run_statements(&parse("tick() x 4; tick() x 0;"), counter, vec![]);
    assert_eq!(r, vec![Ok(num(4)), Ok(NaslValue::Null)]);
}

#[test]
fn repeat_until_runs_body_first() {
    assert_eq!(
        ok("i = 10; a = 0; repeat { a += i; i--; } until (i > 0); a; i;"),
        vec![num(10), num(0), NaslValue::Null, num(10), num(9)]
    );
}

#[test]
fn block_stops_at_return() {
    assert_eq!(
        ok("function f() { a = 1; return 2; a = 3; } f(); a;"),
        vec![NaslValue::Null, num(2), num(1)]
    );
}
