use calculator::fx::Fx;
use calculator::is_postfix_expression;
use calculator::process_expression;
use calculator::token::Token;
use calculator::CalculatorError;

#[test]
fn test_basic_operations() {
    assert_eq!(process_expression("1 + 1"), Ok("2".to_string()));
    assert_eq!(process_expression("2 - 1"), Ok("1".to_string()));
    assert_eq!(process_expression("2 * 3"), Ok("6".to_string()));
    assert_eq!(process_expression("8 / 4"), Ok("2".to_string()));
}

#[test]
fn test_complex_expressions() {
    assert_eq!(process_expression("2 * (3 + 4)"), Ok("14".to_string()));
    assert_eq!(process_expression("(2 + 3) * (4 - 1)"), Ok("15".to_string()));
}

#[test]
fn test_trigonometric_functions() {
    assert_eq!(process_expression("cos(0)"), Ok("1".to_string()));
    assert_eq!(process_expression("tan(pi/4)"), Ok("1".to_string()));
}

#[test]
fn test_logarithmic_functions() {
    assert_eq!(process_expression("ln(e)"), Ok("1".to_string()));
    assert_eq!(process_expression("log(100)"), Ok("2".to_string()));
}

#[test]
fn test_error_handling() {
    assert!(process_expression("2 / 0").is_err());
    assert!(process_expression("2 * (3 + 4").is_err());
    assert!(process_expression("sin(90").is_err());
}

#[test]
fn test_constants_and_variables() {
    assert_eq!(process_expression("pi"), Ok("3.14159265".to_string()));
    assert_eq!(process_expression("e"), Ok("2.71828183".to_string()));
    assert_eq!(process_expression("2 * x + 1 = 3"), Ok("x=1".to_string()));
}

#[test]
fn evaluate_simple_expression() {
    let input = "(3+(4-1))*5";
    let result = process_expression(input);
    assert_eq!(result, Ok("30".to_string()));
}

#[test]
fn solve_linear_equation() {
    let input = "2 * x + 0.5 = 1";
    let result = process_expression(input);
    assert_eq!(result, Ok("x=0.25".to_string()));
}

#[test]
fn solve_equation_with_variables_on_both_sides() {
    let input = "2 * x + 1 = 2 * (1 - x)";
    let result = process_expression(input);
    assert_eq!(result, Ok("x=0.25".to_string()));
}

#[test]
fn test_log_base_10_of_10() {
    let input = "log(10)";
    assert_eq!(process_expression(input), Ok("1".to_string()));

    let input = "log10";
    assert_eq!(process_expression(input), Ok("1".to_string()));
}

#[test]
fn test_log_base_100_of_10() {
    let input = "log100(10)";
    assert_eq!(process_expression(input), Ok("0.5".to_string()));
}

#[test]
fn test_sin_of_pi() {
    let input = "sin(pi)";
    assert_eq!(process_expression(input), Ok("0".to_string()));

    let input = "sinpi";
    assert_eq!(process_expression(input), Ok("0".to_string()));
}

#[test]
fn test_sin_of_1_5_pi() {
    let input = "sin(1.5pi)";
    assert_eq!(process_expression(input), Ok("-1".to_string()));

    let input = "sin(1.5*pi)";
    assert_eq!(process_expression(input), Ok("-1".to_string()));
}

#[test]
fn test_postfix_expression() {
    assert_eq!(process_expression("3 4 + 2 *"), Ok("14".to_string()));
    assert_eq!(process_expression("10 2 8 * + 3 -"), Ok("23".to_string()));
}

#[test]
fn empty_input_fails_with_empty_expression() {
    assert_eq!(process_expression(""), Err(CalculatorError::EmptyExpression));
    assert_eq!(process_expression("   "), Err(CalculatorError::EmptyExpression));
    assert_eq!(process_expression(" \t\n"), Err(CalculatorError::EmptyExpression));
}

#[test]
fn multiple_variables_fail() {
    assert_eq!(process_expression("x + y"), Err(CalculatorError::MultipleVariables));
    assert_eq!(process_expression("x = y"), Err(CalculatorError::MultipleVariables));
    assert_eq!(process_expression("2 * a + b = 1"), Err(CalculatorError::MultipleVariables));
}

#[test]
fn division_by_zero_in_every_path() {
    assert_eq!(process_expression("2 / 0"), Err(CalculatorError::DivisionByZero));
    assert_eq!(process_expression("4 0 /"), Err(CalculatorError::DivisionByZero));
    assert_eq!(process_expression("x / 0 = 1"), Err(CalculatorError::DivisionByZero));
    assert_eq!(process_expression("x / (2 - 2) = 1"), Err(CalculatorError::DivisionByZero));
}

#[test]
fn unbalanced_parentheses_fail() {
    assert_eq!(process_expression("2 * (3 + 4"), Err(CalculatorError::UnmatchedLeftParenthesis));
    assert_eq!(process_expression("sin(90"), Err(CalculatorError::UnmatchedLeftParenthesis));
    assert_eq!(process_expression("2 + )"), Err(CalculatorError::UnmatchedRightParenthesis));
}

#[test]
fn extra_tokens_are_detected() {
    assert_eq!(process_expression("2 3"), Err(CalculatorError::ExtraTokensDetected));
    assert_eq!(process_expression("(2) 3"), Err(CalculatorError::ExtraTokensDetected));
}

#[test]
fn unexpected_tokens_fail() {
    assert_eq!(process_expression("2 # 2"), Err(CalculatorError::UnexpectedToken));
    assert_eq!(process_expression("1.2.3"), Err(CalculatorError::UnexpectedToken));
    assert_eq!(process_expression("1 2 + x"), Err(CalculatorError::UnexpectedToken));
}

#[test]
fn structural_parse_failures() {
    assert_eq!(process_expression("2 +"), Err(CalculatorError::ParseError));
    assert_eq!(process_expression("*"), Err(CalculatorError::ParseError));
    assert_eq!(process_expression("x ="), Err(CalculatorError::ParseError));
}

#[test]
fn invalid_expressions_fail() {
    assert_eq!(process_expression("x + 1"), Err(CalculatorError::InvalidExpression));
    assert_eq!(process_expression("x * x = 2"), Err(CalculatorError::InvalidExpression));
    assert_eq!(process_expression("x = x"), Err(CalculatorError::InvalidExpression));
    assert_eq!(process_expression("2 2 + +"), Err(CalculatorError::InvalidExpression));
}

#[test]
fn equation_without_variable_is_not_solved() {
    assert_eq!(process_expression("1 = 1"), Err(CalculatorError::ExtraTokensDetected));
}

#[test]
fn variable_inside_function_argument_fails() {
    assert_eq!(process_expression("sin(x)"), Err(CalculatorError::InvalidExpression));
}

#[test]
fn postfix_and_infix_agree() {
    assert_eq!(process_expression("3 4 + 2 *"), process_expression("(3+4)*2"));
    assert_eq!(process_expression("10 2 8 * + 3 -"), process_expression("10 + 2 * 8 - 3"));
}

#[test]
fn rounding_is_idempotent_on_display() {
    assert_eq!(process_expression("0.123456789"), Ok("0.12345679".to_string()));
    assert_eq!(process_expression("0.12345679"), Ok("0.12345679".to_string()));
    assert_eq!(process_expression("1 / 3"), Ok("0.33333333".to_string()));
    assert_eq!(process_expression("0.33333333"), Ok("0.33333333".to_string()));
}

#[test]
fn fractions_display_without_trailing_zeros() {
    assert_eq!(process_expression("2 / 4"), Ok("0.5".to_string()));
    assert_eq!(process_expression("0.1 + 0.2"), Ok("0.3".to_string()));
    assert_eq!(process_expression("1 - 2"), Ok("-1".to_string()));
    assert_eq!(process_expression("1 / 8"), Ok("0.125".to_string()));
}

#[test]
fn implicit_multiplication() {
    assert_eq!(process_expression("2pi"), Ok("6.28318531".to_string()));
    assert_eq!(process_expression("1.5pi"), Ok("4.71238898".to_string()));
    assert_eq!(process_expression("2x + 2 = 3"), Ok("x=0.5".to_string()));
    assert_eq!(process_expression("2(3 + 4)"), Ok("14".to_string()));
}

#[test]
fn postfix_classifier_on_tokens() {
    let two = Token::Number(Fx { neg: false, mag: 2_000_000_000_000 });
    let three = Token::Number(Fx { neg: false, mag: 3_000_000_000_000 });
    let postfix = vec![two, three, Token::Plus];
    assert!(is_postfix_expression(&postfix));

    let two = Token::Number(Fx { neg: false, mag: 2_000_000_000_000 });
    let three = Token::Number(Fx { neg: false, mag: 3_000_000_000_000 });
    let infix = vec![two, Token::Plus, three];
    assert!(!is_postfix_expression(&infix));

    let with_paren = vec![Token::LeftParenthesis, Token::RightParenthesis];
    assert!(!is_postfix_expression(&with_paren));
}

#[test]
fn function_sugar_agrees_with_explicit_form() {
    assert_eq!(process_expression("sin(pi)"), process_expression("sinpi"));
    assert_eq!(process_expression("log(10)"), process_expression("log10"));
    assert_eq!(process_expression("lne"), Ok("1".to_string()));
    assert_eq!(process_expression("sin(1.5pi)"), process_expression("sin(1.5*pi)"));
}

#[test]
fn logarithm_of_nonpositive_fails() {
    assert_eq!(process_expression("ln(0)"), Err(CalculatorError::InvalidExpression));
    assert_eq!(process_expression("ln(0 - 1)"), Err(CalculatorError::InvalidExpression));
    assert_eq!(process_expression("log1(5)"), Err(CalculatorError::DivisionByZero));
}
