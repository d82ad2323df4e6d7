use dice_roller::eval::eval_at;
use dice_roller::parser::parse;
use dice_roller::random::{RandomSource, StdRngSource};
use dice_roller::{roll_str, roll_str_with_rng};

fn rng() -> StdRngSource {
    StdRngSource::from_seed(42)
}

#[test]
fn test_parsing() {
    parse("1").unwrap();
    parse("1d20").unwrap();
    parse("1d(20)").unwrap();
    parse("1d(2 + 2)").unwrap();
    parse("(2 + 2)d(2 + 2)").unwrap();
}

#[test]
fn test_parens() {
    let a = parse("1d20").unwrap();
    let b = parse("1d(20)").unwrap();
    assert_eq!(a, b);
}

#[test]
fn test_eval() {
    let ast = parse("2 + 2").unwrap();
    let (result, _) = eval_at(&ast, &mut rng());
    assert_eq!(result.unwrap(), 4);
}

#[test]
fn test_1d20() {
    let mut draws = rng();
    let expected = draws.draw(1, 20);
    let ast = parse("1d20").unwrap();
    let (actual, _) = eval_at(&ast, &mut rng());
    assert_eq!(expected, actual.unwrap());
}

#[test]
fn test_negation() {
    let minus1 = roll_str("-1").unwrap();
    assert_eq!(minus1, -1);

    let minus1d20 = roll_str_with_rng("-1d20", &mut rng()).unwrap();
    let plus1d20 = roll_str_with_rng("1d20", &mut rng()).unwrap();
    assert_eq!(-plus1d20, minus1d20);
}
