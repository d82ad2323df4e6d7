use vstd::prelude::*;

pub mod ast;
pub mod eval;
pub mod laws;
pub mod parser;
pub mod random;

verus! {

use crate::eval::{eval_at, eval_take, EvalError};
use crate::parser::{parse, parse_spec, ParseDiag};
use crate::random::{Draw, RandomSource, ThreadRngSource};

/// Why a roll failed: the input did not parse, or evaluating it failed.
/// The two classes never mix; a parse failure consumes no randomness.
#[derive(Debug, PartialEq, Eq)]
pub enum DiceError {
    ParseError(ParseDiag),
    EvalError(EvalError),
}

/// Parses `dice_string` and evaluates it, drawing from the caller's source:
/// the result is what `eval_take` gives the tree on exactly the draws that
/// `rng` handed out, appended to its log in order.
pub fn roll_str_with_rng<R: RandomSource>(dice_string: &str, rng: &mut R) -> (r: Result<
    i32,
    DiceError,
>)
    ensures
        match parse_spec(dice_string@) {
            None => (r matches Err(DiceError::ParseError(_))) && final(rng).log() == old(
                rng,
            ).log(),
            Some(ast) => match r {
                Ok(v) => exists|taken: Seq<Draw>|
                    #![trigger eval_take(ast, taken)]
                    {
                        &&& final(rng).log() == old(rng).log() + taken
                        &&& eval_take(ast, taken) == Some(
                            (Ok::<i32, EvalError>(v), taken.len() as int),
                        )
                    },
                Err(DiceError::EvalError(er)) => exists|taken: Seq<Draw>|
                    #![trigger eval_take(ast, taken)]
                    {
                        &&& final(rng).log() == old(rng).log() + taken
                        &&& eval_take(ast, taken) == Some(
                            (Err::<i32, EvalError>(er), taken.len() as int),
                        )
                    },
                Err(DiceError::ParseError(_)) => false,
            },
        },
{
    match parse(dice_string) {
        Err(d) => Err(DiceError::ParseError(d)),
        Ok(ast) => {
            let (res, _) = eval_at(&ast, rng);
            match res {
                Ok(v) => Ok(v),
                Err(er) => Err(DiceError::EvalError(er)),
            }
        },
    }
}

/// Parses `dice_string` and evaluates it with the process-default random
/// source.  The result still fits the tree under `eval_take` for the draws
/// that source produced.
pub fn roll_str(dice_string: &str) -> (r: Result<i32, DiceError>)
    ensures
        match parse_spec(dice_string@) {
            None => r matches Err(DiceError::ParseError(_)),
            Some(ast) => match r {
                Ok(v) => exists|taken: Seq<Draw>|
                    #![trigger eval_take(ast, taken)]
                    eval_take(ast, taken) == Some((Ok::<i32, EvalError>(v), taken.len() as int)),
                Err(DiceError::EvalError(er)) => exists|taken: Seq<Draw>|
                    #![trigger eval_take(ast, taken)]
                    eval_take(ast, taken) == Some((Err::<i32, EvalError>(er), taken.len() as int)),
                Err(DiceError::ParseError(_)) => false,
            },
        },
{
    let mut source = ThreadRngSource::new();
    roll_str_with_rng(dice_string, &mut source)
}

} // verus!
