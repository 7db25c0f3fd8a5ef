use calculator::dec::Dec;
use calculator::eval::{Bindings, EvalError, Evaluator, UnknownEvaluator};
use calculator::parser::{parse, ParseError};
use calculator::term::{Commutative, Operator, Term};
use calculator::console::ConsoleManager;
use calculator::session::{classify_line, Command};
use rust_decimal::Decimal;
use rust_decimal::MathematicalOps;

#[test]
fn round_trip_simple_sum() {
    let eq = parse("1+2").unwrap();
    assert!(eq.0.is_none());
    assert!(eq.1.is_some());
    let ev = Evaluator::new(eq).unwrap();
    assert_eq!(ev.formula, Term::Number(Dec { mantissa: 3, scale: 0 }));
}

#[test]
fn precedence_multiplication_binds_tighter() {
    let ev = Evaluator::new(parse("2+3*4").unwrap()).unwrap();
    assert_eq!(ev.formula, Term::Number(Dec { mantissa: 14, scale: 0 }));
}

#[test]
fn precedence_parentheses_group_first() {
    let ev = Evaluator::new(parse("(2+3)*4").unwrap()).unwrap();
    assert_eq!(ev.formula, Term::Number(Dec { mantissa: 20, scale: 0 }));
}

#[test]
fn addition_flattens_to_one_chain() {
    let eq = parse("1+2+3").unwrap();
    let right = eq.1.as_ref().unwrap();
    match right {
        Term::Chain(Commutative::Add, children) => {
            assert_eq!(children.len(), 3);
            for child in children {
                assert!(matches!(child, Term::Number(_)));
            }
        }
        other => panic!("expected a single additive chain, got {:?}", other),
    }
    let ev = Evaluator::new(eq).unwrap();
    assert_eq!(ev.formula, Term::Number(Dec { mantissa: 6, scale: 0 }));
}

#[test]
fn division_and_subtraction_reduce() {
    let ev = Evaluator::new(parse("10/2-3").unwrap()).unwrap();
    match ev.formula {
        Term::Number(d) => {
            let got = Decimal::from_i128_with_scale(d.mantissa, d.scale);
            assert_eq!(got, Decimal::new(2, 0));
        }
        other => panic!("expected a number, got {:?}", other),
    }
}

#[test]
fn division_by_literal_zero_is_an_error() {
    let r = Evaluator::new(parse("5/0").unwrap());
    assert_eq!(r.err(), Some(EvalError::DivisionByZero));
}

#[test]
fn integer_power_reduces() {
    let ev = Evaluator::new(parse("2^3").unwrap()).unwrap();
    match ev.formula {
        Term::Number(d) => {
            let got = Decimal::from_i128_with_scale(d.mantissa, d.scale);
            assert_eq!(got, Decimal::new(8, 0));
        }
        other => panic!("expected a number, got {:?}", other),
    }
}

#[test]
fn fractional_power_is_the_decimal_square_root() {
    let ev = Evaluator::new(parse("2^0.5").unwrap()).unwrap();
    let expected = Decimal::new(2, 0)
        .checked_powd(Decimal::new(5, 1))
        .unwrap();
    match ev.formula {
        Term::Number(d) => {
            let got = Decimal::from_i128_with_scale(d.mantissa, d.scale);
            assert_eq!(got, expected);
        }
        other => panic!("expected a number, got {:?}", other),
    }
}

#[test]
fn unbound_variable_defers_under_fold_only_reduction() {
    let ev = Evaluator::new(parse("x+1").unwrap()).unwrap();
    assert_eq!(
        ev.formula,
        Term::Chain(
            Commutative::Add,
            vec![
                Term::Unknown(vec!['x']),
                Term::Number(Dec { mantissa: 1, scale: 0 }),
            ],
        )
    );
    assert!(!ev.formula.to_string().is_empty());
}

#[test]
fn unbound_variable_fails_a_full_evaluation() {
    let ev = Evaluator::new(parse("x+1").unwrap()).unwrap();
    let context = Bindings::new();
    assert_eq!(ev.eval(&context).err(), Some(EvalError::UnresolvedVariable));
}

#[test]
fn binding_substitutes_into_the_formula() {
    let mut ev = Evaluator::new(parse("x+1").unwrap()).unwrap();
    let bound = UnknownEvaluator::new(parse("x = 5").unwrap()).unwrap();
    let mut context = Bindings::new();
    context.insert(bound.unknown, bound.evaluator.formula);
    ev.inline(&context).unwrap();
    assert_eq!(ev.formula, Term::Number(Dec { mantissa: 6, scale: 0 }));
}

#[test]
fn binding_equation_folds_its_right_side() {
    let bound = UnknownEvaluator::new(parse("x = 3+4").unwrap()).unwrap();
    assert_eq!(bound.unknown, vec!['x']);
    assert_eq!(
        bound.evaluator.formula,
        Term::Number(Dec { mantissa: 7, scale: 0 })
    );
}

#[test]
fn equation_rearranges_right_side_as_negation() {
    let ev = Evaluator::new(parse("3+4 = x").unwrap()).unwrap();
    assert_eq!(
        ev.formula,
        Term::Chain(
            Commutative::Add,
            vec![
                Term::Opposite(Box::new(Term::Unknown(vec!['x']))),
                Term::Number(Dec { mantissa: 7, scale: 0 }),
            ],
        )
    );
}

#[test]
fn reducing_a_pure_number_returns_it_unchanged() {
    let t = Term::Number(Dec { mantissa: 42, scale: 1 });
    let r = calculator::eval::reduce(&t, None).unwrap().unwrap();
    assert_eq!(r, Term::Number(Dec { mantissa: 42, scale: 1 }));
}

#[test]
fn leading_zero_numeral_is_rejected() {
    assert_eq!(parse("01+1").err(), Some(ParseError::LeadingZero));
}

#[test]
fn unmatched_parenthesis_is_rejected() {
    assert_eq!(parse("(1+1").err(), Some(ParseError::UnmatchedParens));
}

#[test]
fn invalid_character_is_rejected() {
    assert_eq!(parse("$1").err(), Some(ParseError::InvalidCharacter('$')));
}

#[test]
fn multiple_decimal_points_are_rejected() {
    assert_eq!(parse("1.2.3").err(), Some(ParseError::MultipleDecimals));
}

#[test]
fn a_second_equals_sign_is_rejected() {
    assert_eq!(parse("1 = 2 = 3").err(), Some(ParseError::TwoSides));
}

#[test]
fn fractional_literal_parses_exactly() {
    let ev = Evaluator::new(parse("0.5").unwrap()).unwrap();
    assert_eq!(ev.formula, Term::Number(Dec { mantissa: 5, scale: 1 }));
}

#[test]
fn binding_left_side_must_be_one_unknown() {
    let r = UnknownEvaluator::new(parse("1+1 = 5").unwrap());
    assert_eq!(r.err(), Some(EvalError::InvalidUnknownEquation));
}

#[test]
fn bare_equation_with_no_terms_is_rejected() {
    assert_eq!(parse("").err(), Some(ParseError::NoTerms));
}

#[test]
fn inline_with_unbound_variable_leaves_formula_unchanged() {
    let mut ev = Evaluator::new(parse("x+y").unwrap()).unwrap();
    let before = ev.formula.to_string();
    let bound = UnknownEvaluator::new(parse("x = 5").unwrap()).unwrap();
    let mut context = Bindings::new();
    context.insert(bound.unknown, bound.evaluator.formula);
    ev.inline(&context).unwrap();
    assert_eq!(ev.formula.to_string(), before);
}

#[test]
fn formula_renders_in_canonical_debug_form() {
    let ev = Evaluator::new(parse("x+1").unwrap()).unwrap();
    assert_eq!(ev.formula.to_string(), "+ [ x , 1 ]");
}

#[test]
fn equation_renders_both_sides() {
    let eq = parse("1+2").unwrap();
    assert_eq!(eq.to_string(), " = + [ 2 , 1 ]");
}

#[test]
fn number_renders_through_the_decimal_library() {
    let ev = Evaluator::new(parse("1/2").unwrap()).unwrap();
    match &ev.formula {
        Term::Number(d) => {
            let value = Decimal::from_i128_with_scale(d.mantissa, d.scale);
            assert_eq!(value, Decimal::new(5, 1));
            assert_eq!(ev.formula.to_string(), value.to_string());
        }
        other => panic!("expected a number, got {:?}", other),
    }
}

#[test]
fn bindings_later_entry_shadows_earlier() {
    let mut context = Bindings::new();
    context.insert(vec!['x'], Term::Number(Dec { mantissa: 1, scale: 0 }));
    context.insert(vec!['x'], Term::Number(Dec { mantissa: 2, scale: 0 }));
    let got = context.get(&vec!['x']).unwrap();
    assert_eq!(*got, Term::Number(Dec { mantissa: 2, scale: 0 }));
    assert!(context.get(&vec!['y']).is_none());
}

#[test]
fn operator_queries_match_the_grammar() {
    assert!(Operator::Add.com());
    assert!(Operator::Multiply.com());
    assert!(!Operator::Subtract.com());
    assert_eq!(Operator::Subtract.to_com(), Commutative::Add);
    assert_eq!(Operator::Divide.to_com(), Commutative::Multiply);
    assert_eq!(Operator::Power.priority(), 3);
    assert_eq!(Operator::Equals.priority(), 0);
    assert_eq!(Operator::from_char('^'), Some(Operator::Power));
    assert_eq!(Operator::from_char('x'), None);
    assert_eq!(Commutative::Add.to_string(), "+");
    assert_eq!(Commutative::Multiply.to_string(), "*");
}

#[test]
fn console_buffers_lines_on_the_head_screen() {
    let mut console = ConsoleManager::new();
    console.print(String::from("a"));
    console.println(String::from("b"));
    assert_eq!(console.head_lines(), vec![String::from("a"), String::from("b\n")]);
    console.join();
    console.println(String::from("nested"));
    assert_eq!(console.head_lines(), vec![String::from("nested\n")]);
    console.leave();
    assert_eq!(console.head_lines(), vec![String::from("a"), String::from("b\n")]);
    console.clear();
    assert_eq!(console.head_lines(), Vec::<String>::new());
}

#[test]
fn evaluator_prints_to_the_console() {
    let mut console = ConsoleManager::new();
    let mut ev = Evaluator::new(parse("1+1").unwrap()).unwrap();
    ev.print(&mut console);
    assert_eq!(console.head_lines(), vec![String::from("2\n")]);
    let mut bound = UnknownEvaluator::new(parse("x = 2").unwrap()).unwrap();
    bound.print(&mut console);
    assert_eq!(
        console.head_lines(),
        vec![String::from("2\n"), String::from("x = "), String::from("2\n")]
    );
}

#[test]
fn multiply_keeps_a_unit_accumulator_factor() {
    let ev = Evaluator::new(parse("1*x").unwrap()).unwrap();
    assert_eq!(
        ev.formula,
        Term::Chain(
            Commutative::Multiply,
            vec![
                Term::Unknown(vec!['x']),
                Term::Number(Dec { mantissa: 1, scale: 0 }),
            ],
        )
    );
}

#[test]
fn session_commands_classify_lines() {
    assert_eq!(classify_line(&String::from("exit")), Command::Exit);
    assert_eq!(classify_line(&String::from("inline")), Command::Inline);
    assert_eq!(classify_line(&String::from("")), Command::Finish);
    assert_eq!(classify_line(&String::from("x = 5")), Command::Equation);
}

#[test]
fn numeral_too_large_for_the_decimal_library_is_rejected() {
    assert_eq!(
        parse("111111111111111111111111111111").err(),
        Some(ParseError::NumberParse)
    );
}

#[test]
fn operator_without_enclosing_chain_is_rejected() {
    assert_eq!(parse("1+*2").err(), Some(ParseError::NoChainOrPower));
}

#[test]
fn chained_powers_leave_no_room_for_a_base() {
    assert_eq!(parse("2^3^4").err(), Some(ParseError::PowerHasBase));
}

#[test]
fn juxtaposed_numbers_do_not_combine() {
    assert_eq!(parse("1 2").err(), Some(ParseError::InvalidExpr));
}

#[test]
fn fold_target_must_be_chain_or_power() {
    assert_eq!(parse("1+2 3+4").err(), Some(ParseError::InvalidChainPower));
}

#[test]
fn multiplication_overflow_is_an_error() {
    let r = Evaluator::new(parse("79228162514264337593543950335*2").unwrap());
    assert_eq!(r.err(), Some(EvalError::Overflow));
}

#[test]
fn equation_without_right_side_is_invalid() {
    let eq = calculator::term::Equation(
        Some(Term::Number(Dec { mantissa: 1, scale: 0 })),
        None,
    );
    assert_eq!(Evaluator::new(eq).err(), Some(EvalError::InvalidEquation));
}

#[test]
fn power_without_base_fails_reduction() {
    let t = Term::Power(None, Box::new(Term::Number(Dec { mantissa: 2, scale: 0 })));
    let r = calculator::eval::reduce(&t, None);
    assert_eq!(r.err(), Some(EvalError::PowerMissingBase));
}
