use lamentable::program::run;
use lamentable::LangError;

fn printed(src: &str) -> Vec<String> {
    let outcome = run(src);
    assert_eq!(outcome.error, None, "unexpected error for {:?}", src);
    outcome.lines
}

fn failure(src: &str) -> Option<LangError> {
    run(src).error
}

#[test]
fn straight_line_program_prints_bindings_in_order() {
    let out = printed("let num a = 2, let str s = \"t\", shout a, shout s, let num a = 3, shout a");
    assert_eq!(out, vec!["2", "t", "3"]);
}

#[test]
fn declared_types_conflict() {
    assert_eq!(
        failure("let str x = \"a\", let num x = 1"),
        Some(LangError::TypeConflictError)
    );
}

#[test]
fn constant_cannot_be_declared_again() {
    assert_eq!(failure("const num x = 1, let num x = 2"), Some(LangError::ConstReassignError));
    assert_eq!(failure("const num x = 1, const num x = 2"), Some(LangError::ConstReassignError));
    assert_eq!(failure("const num x = 1, let str x = \"a\""), Some(LangError::ConstReassignError));
    assert_eq!(failure("const num x = 1, const bool x = True"), Some(LangError::ConstReassignError));
}

#[test]
fn block_writes_are_discarded() {
    assert_eq!(printed("let num x = 1, if (True) ( let num x = 2 ), shout x"), vec!["1"]);
}

#[test]
fn multiplication_binds_tighter() {
    assert_eq!(printed("shout (2 + 3 * 4)"), vec!["14"]);
    assert_eq!(printed("shout ((2 + 3) * 4)"), vec!["20"]);
}

#[test]
fn unbound_name_in_expression() {
    assert_eq!(failure("let num a = 1, shout a + b"), Some(LangError::UnboundIdentifierError));
    assert_eq!(failure("shout (1 + b)"), Some(LangError::UnboundIdentifierError));
}

#[test]
fn unbound_name_in_condition() {
    assert_eq!(
        failure("let num a = 1, if (a == b) ( shout \"x\" )"),
        Some(LangError::UnboundIdentifierError)
    );
    assert_eq!(failure("if (z == 1) ( shout \"x\" )"), Some(LangError::UnboundIdentifierError));
}

#[test]
fn shout_of_unbound_name() {
    let outcome = run("shout \"before\", shout nobody");
    assert_eq!(outcome.error, Some(LangError::UnboundIdentifierError));
    assert_eq!(outcome.lines, vec!["before"]);
}

#[test]
fn sum_of_two_variables() {
    assert_eq!(printed("let num a = 5, let num b = 10, shout (a + b)"), vec!["15"]);
}

#[test]
fn constant_greeting() {
    assert_eq!(printed("const str greeting = \"hi\", shout greeting"), vec!["hi"]);
}

#[test]
fn boolean_condition() {
    assert_eq!(printed("let bool flag = True, if (flag == True) ( shout \"yes\" )"), vec!["yes"]);
    assert!(printed("let bool flag = True, if (flag == False) ( shout \"yes\" )").is_empty());
    assert_eq!(printed("let bool flag = True, if (flag != False) ( shout \"no\" )"), vec!["no"]);
}

#[test]
fn string_and_number_conditions() {
    let out = printed(
        "let str s = \"a\", if (s == \"a\") ( shout \"eq\" ), if (s != \"a\") ( shout \"ne\" )",
    );
    assert_eq!(out, vec!["eq"]);
    assert_eq!(printed("let num x = 4, if (x == 2 * 2) ( shout \"four\" )"), vec!["four"]);
    assert!(printed("let num x = 4, if (x != (2 * 2)) ( shout \"four\" )").is_empty());
    assert_eq!(printed("let num x = 4, let num y = 4, if (x == y) ( shout \"same\" )"), vec!["same"]);
}

#[test]
fn skipped_block_with_nested_blocks() {
    assert_eq!(
        printed("if (False) ( if (True) ( shout \"a\" ) ), shout \"b\""),
        vec!["b"]
    );
    assert_eq!(printed("if (True) ( if (True) ( shout \"in\" ) )"), vec!["in"]);
}

#[test]
fn block_sees_outer_bindings() {
    assert_eq!(printed("let str s = \"out\", if (True) ( shout s )"), vec!["out"]);
    assert_eq!(printed("let num n = 2, if (True) ( shout n * 3 )"), vec!["6"]);
}

#[test]
fn booleans_print_as_words() {
    assert_eq!(printed("let bool t = True, let bool f = False, shout t, shout f"), vec!["True", "False"]);
}

#[test]
fn exact_fractions_print_in_decimal() {
    assert_eq!(printed("shout 1 / 4"), vec!["0.25"]);
    assert_eq!(printed("shout 1 / 3"), vec!["0.3333333333333333"]);
    assert_eq!(printed("shout 0 - 2.5"), vec!["-2.5"]);
    assert_eq!(printed("shout 1.50"), vec!["1.5"]);
    assert_eq!(printed("shout 7 - 2 - 1"), vec!["4"]);
    assert_eq!(printed("shout 8 / 2 / 2"), vec!["2"]);
}

#[test]
fn number_declared_from_expression() {
    assert_eq!(printed("let num a = 2, let num b = a * (a + 1), shout b"), vec!["6"]);
    assert_eq!(printed("let num a1 = 2.5, shout a1"), vec!["2.5"]);
}

#[test]
fn division_by_zero() {
    assert_eq!(failure("shout 1 / 0"), Some(LangError::ArithmeticError));
}

#[test]
fn number_too_large() {
    assert_eq!(failure("shout 99999999999999999999"), Some(LangError::ArithmeticError));
}

#[test]
fn lexer_errors() {
    assert_eq!(failure("shout @"), Some(LangError::LexError));
    assert_eq!(failure("shout 1.2.3"), Some(LangError::LexError));
    assert_eq!(failure("if (x ! 1)"), Some(LangError::LexError));
}

#[test]
fn unterminated_string_runs_to_the_end() {
    assert_eq!(printed("shout \"open"), vec!["open"]);
}

#[test]
fn syntax_errors() {
    assert_eq!(failure("let num = 5"), Some(LangError::SyntaxError));
    assert_eq!(failure("let foo x = 1"), Some(LangError::SyntaxError));
    assert_eq!(failure("let str x = 1"), Some(LangError::SyntaxError));
    assert_eq!(failure("if (True) ( shout \"a\""), Some(LangError::SyntaxError));
    assert_eq!(failure("shout"), Some(LangError::SyntaxError));
    assert_eq!(failure("shout (1 + 2"), Some(LangError::SyntaxError));
    assert_eq!(failure("x"), Some(LangError::SyntaxError));
}

#[test]
fn unsupported_conditions() {
    assert_eq!(failure("if (\"a\") ( shout \"x\" )"), Some(LangError::UnsupportedConditionError));
    assert_eq!(
        failure("let bool b = True, if (b == 1) ( shout \"x\" )"),
        Some(LangError::UnsupportedConditionError)
    );
    assert_eq!(
        failure("let str s = \"a\", if (s = \"a\") ( shout \"x\" )"),
        Some(LangError::UnsupportedConditionError)
    );
}

#[test]
fn nesting_limit() {
    let deep = |n: usize| {
        let mut src = String::new();
        for _ in 0..n {
            src.push_str("if (True) ( ");
        }
        src.push_str("shout \"deep\"");
        for _ in 0..n {
            src.push_str(" )");
        }
        src
    };
    assert_eq!(printed(&deep(64)), vec!["deep"]);
    assert_eq!(failure(&deep(65)), Some(LangError::NestingTooDeep));
}

#[test]
fn empty_program_prints_nothing() {
    assert!(printed("").is_empty());
    assert!(printed(" , ,\n").is_empty());
}

#[test]
fn identifiers_may_hold_unicode_letters_and_digits() {
    assert_eq!(printed("let num aé1 = 4, shout aé1 / 2"), vec!["2"]);
}

#[test]
fn const_of_a_bound_name_of_another_kind() {
    assert_eq!(
        failure("let num x = 1, const str x = \"a\""),
        Some(LangError::TypeConflictError)
    );
    assert_eq!(failure("let num x = 1, const num x = 2"), Some(LangError::ConstReassignError));
}

#[test]
fn let_overwrites_a_variable_of_the_same_kind() {
    assert_eq!(printed("let str s = \"a\", let str s = \"b\", shout s"), vec!["b"]);
    assert_eq!(printed("let bool b = True, let bool b = False, shout b"), vec!["False"]);
}
