use vstd::prelude::*;
use crate::ast::Expr;
use crate::eval::{add_val, dice_sum, eval_take, lemma_eval_take_agree, lemma_size_pos, pair_take, size, EvalError};
use crate::random::Draw;

verus! {

/// Determinism.  Evaluation is a function of the expression and of the draws
/// the source hands out: two complete runs whose sources agree value for
/// value as far as both consumed return the same outcome and consume the
/// same draws.  There is no hidden state beyond the random source, so a
/// seeded source, which repeats its draws, repeats the result.
pub proof fn lemma_eval_deterministic(
    e: Expr,
    d1: Seq<Draw>,
    d2: Seq<Draw>,
    r1: Result<i32, EvalError>,
    r2: Result<i32, EvalError>,
)
    requires
        eval_take(e, d1) == Some((r1, d1.len() as int)),
        eval_take(e, d2) == Some((r2, d2.len() as int)),
        forall|k: int| 0 <= k < d1.len() && k < d2.len() ==> d1[k] == d2[k],
    ensures
        d1 == d2,
        r1 == r2,
{
    if d1.len() <= d2.len() {
        lemma_eval_take_agree(e, d1, d2, r1, d1.len() as int);
        assert(d1 =~= d2);
    } else {
        lemma_eval_take_agree(e, d2, d1, r2, d2.len() as int);
        assert(d1 =~= d2);
    }
}

/// Whether any `DieRoll` stands in the tree.
pub open spec fn has_dice(e: Expr) -> bool
    decreases e,
{
    match e {
        Expr::Constant(_) => false,
        Expr::DieRoll(_, _) => true,
        Expr::Neg(a) => has_dice(*a),
        Expr::Add(a, b) => has_dice(*a) || has_dice(*b),
        Expr::Sub(a, b) => has_dice(*a) || has_dice(*b),
        Expr::Mul(a, b) => has_dice(*a) || has_dice(*b),
        Expr::Div(a, b) => has_dice(*a) || has_dice(*b),
        Expr::Pow(a, b) => has_dice(*a) || has_dice(*b),
    }
}

/// Arithmetic correctness is source-independent: an expression without dice
/// always evaluates, consumes no draws, and comes out the same for every
/// random source.
pub proof fn lemma_dice_free(e: Expr, d: Seq<Draw>)
    requires
        !has_dice(e),
    ensures
        match eval_take(e, Seq::<Draw>::empty()) {
            Some((r, n)) => n == 0 && eval_take(e, d) == Some((r, 0int)),
            None => false,
        },
    decreases size(e),
{
    match e {
        Expr::Constant(_) => {},
        Expr::DieRoll(_, _) => {},
        Expr::Neg(a) => {
            lemma_dice_free(*a, d);
        },
        Expr::Add(a, b) => lemma_pair_dice_free(*a, *b, d),
        Expr::Sub(a, b) => lemma_pair_dice_free(*a, *b, d),
        Expr::Mul(a, b) => lemma_pair_dice_free(*a, *b, d),
        Expr::Div(a, b) => lemma_pair_dice_free(*a, *b, d),
        Expr::Pow(a, b) => lemma_pair_dice_free(*a, *b, d),
    }
}

/// As `lemma_dice_free`, for the two children of one node.
proof fn lemma_pair_dice_free(a: Expr, b: Expr, d: Seq<Draw>)
    requires
        !has_dice(a),
        !has_dice(b),
    ensures
        match pair_take(a, b, Seq::<Draw>::empty()) {
            Some((r, n)) => n == 0 && pair_take(a, b, d) == Some((r, 0int)),
            None => false,
        },
    decreases size(a) + size(b),
{
    lemma_size_pos(a);
    lemma_size_pos(b);
    lemma_dice_free(a, d);
    lemma_dice_free(b, d);
    assert(d.skip(0) =~= d);
    assert(Seq::<Draw>::empty().skip(0) =~= Seq::<Draw>::empty());
}

/// Rolling one die is one draw: `1dM` consumes exactly the first draw,
/// asked over `[1, M]`, and returns that draw's value unchanged.
pub proof fn lemma_one_die(m: i32, draws: Seq<Draw>)
    requires
        m >= 1,
        draws.len() >= 1,
        draws[0].lo == 1,
        draws[0].hi == m,
        1 <= draws[0].val <= m,
    ensures
        eval_take(
            Expr::DieRoll(Box::new(Expr::Constant(1)), Box::new(Expr::Constant(m))),
            draws,
        ) == Some((Ok::<i32, EvalError>(draws[0].val), 1int)),
{
    let count = Expr::Constant(1);
    let sides = Expr::Constant(m);
    assert(eval_take(count, draws) == Some((Ok::<i32, EvalError>(1), 0int)));
    assert(draws.skip(0) =~= draws);
    assert(eval_take(sides, draws.skip(0)) == Some((Ok::<i32, EvalError>(m), 0int)));
    assert(pair_take(count, sides, draws) == Some((Ok::<(i32, i32), EvalError>((1, m)), 0int)));
    assert(dice_sum(draws.skip(1), m, 0) == Some(0int));
    assert(dice_sum(draws, m, 1) == Some(draws[0].val as int));
}

/// Left-to-right consumption: in `1dM + 1dN` the left die takes the first
/// draw and the right die the second, and the result adds them in that
/// order.
pub proof fn lemma_two_dice_left_first(m1: i32, m2: i32, draws: Seq<Draw>)
    requires
        m1 >= 1,
        m2 >= 1,
        draws.len() == 2,
        draws[0].lo == 1,
        draws[0].hi == m1,
        1 <= draws[0].val <= m1,
        draws[1].lo == 1,
        draws[1].hi == m2,
        1 <= draws[1].val <= m2,
    ensures
        eval_take(
            Expr::Add(
                Box::new(Expr::DieRoll(Box::new(Expr::Constant(1)), Box::new(Expr::Constant(m1)))),
                Box::new(Expr::DieRoll(Box::new(Expr::Constant(1)), Box::new(Expr::Constant(m2)))),
            ),
            draws,
        ) == Some((add_val(draws[0].val, draws[1].val), 2int)),
{
    let left = Expr::DieRoll(Box::new(Expr::Constant(1)), Box::new(Expr::Constant(m1)));
    let right = Expr::DieRoll(Box::new(Expr::Constant(1)), Box::new(Expr::Constant(m2)));
    lemma_one_die(m1, draws);
    assert(draws.skip(1).len() == 1);
    assert(draws.skip(1)[0] == draws[1]);
    lemma_one_die(m2, draws.skip(1));
    assert(pair_take(left, right, draws) == Some(
        (Ok::<(i32, i32), EvalError>((draws[0].val, draws[1].val)), 2int),
    ));
}

/// Negation is structural: `Neg(e)` consumes exactly the draws `e` consumes
/// and negates its value.  The one value this cannot hold of is `i32::MIN`,
/// whose negation leaves the `i32` range and reports overflow instead.
pub proof fn lemma_negation(e: Expr, draws: Seq<Draw>, v: i32, n: int)
    requires
        eval_take(e, draws) == Some((Ok::<i32, EvalError>(v), n)),
        v != i32::MIN,
    ensures
        eval_take(Expr::Neg(Box::new(e)), draws) == Some(
            (Ok::<i32, EvalError>((-(v as int)) as i32), n),
        ),
{
}

} // verus!
