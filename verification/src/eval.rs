use vstd::prelude::*;
use crate::ast::Expr;
use crate::random::{Draw, RandomSource};

verus! {

/// Semantic failure during evaluation.
///
/// Arithmetic here is exact or fails: an operation whose mathematical result
/// leaves the `i32` range reports `Overflow` rather than wrapping, a literal
/// choice documented on each operation below.  A die roll whose side count
/// evaluates below 1 (with a positive count of dice) reports `InvalidSides`
/// rather than drawing from a degenerate range.
#[derive(Debug, PartialEq, Eq, Clone, Copy)]
pub enum EvalError {
    DivisionByZero,
    NegativeExponent,
    InvalidSides,
    Overflow,
}

impl EvalError {
    /// What each failure reads as, to a caller that wants prose.
    pub open spec fn message_spec(&self) -> Seq<char> {
        match self {
            EvalError::DivisionByZero => "division by zero"@,
            EvalError::NegativeExponent => "negative exponents are not allowed"@,
            EvalError::InvalidSides => "a die needs at least one side"@,
            EvalError::Overflow => "arithmetic overflow"@,
        }
    }

    /// A human-readable description of the semantic failure.
    pub fn message(&self) -> (m: &'static str)
        ensures
            m@ == self.message_spec(),
    {
        match self {
            EvalError::DivisionByZero => "division by zero",
            EvalError::NegativeExponent => "negative exponents are not allowed",
            EvalError::InvalidSides => "a die needs at least one side",
            EvalError::Overflow => "arithmetic overflow",
        }
    }
}

pub open spec fn in_i32(v: int) -> bool {
    i32::MIN <= v && v <= i32::MAX
}

pub open spec fn mag(v: int) -> int {
    if v >= 0 {
        v
    } else {
        -v
    }
}

/// Integer division truncating toward zero, as the `/` of the surface
/// language is defined to behave.
pub open spec fn div_trunc(a: int, b: int) -> int {
    if (a >= 0) == (b >= 0) {
        mag(a) / mag(b)
    } else {
        -(mag(a) / mag(b))
    }
}

pub open spec fn neg_val(v: i32) -> Result<i32, EvalError> {
    if in_i32(-(v as int)) {
        Ok((-(v as int)) as i32)
    } else {
        Err(EvalError::Overflow)
    }
}

pub open spec fn add_val(a: i32, b: i32) -> Result<i32, EvalError> {
    if in_i32(a + b) {
        Ok((a + b) as i32)
    } else {
        Err(EvalError::Overflow)
    }
}

pub open spec fn sub_val(a: i32, b: i32) -> Result<i32, EvalError> {
    if in_i32(a - b) {
        Ok((a - b) as i32)
    } else {
        Err(EvalError::Overflow)
    }
}

pub open spec fn mul_val(a: i32, b: i32) -> Result<i32, EvalError> {
    if in_i32(a * b) {
        Ok((a * b) as i32)
    } else {
        Err(EvalError::Overflow)
    }
}

pub open spec fn div_val(a: i32, b: i32) -> Result<i32, EvalError> {
    if b == 0 {
        Err(EvalError::DivisionByZero)
    } else if in_i32(div_trunc(a as int, b as int)) {
        Ok(div_trunc(a as int, b as int) as i32)
    } else {
        Err(EvalError::Overflow)
    }
}

/// `b` raised to `e` by repeated multiplication; `None` as soon as a product
/// leaves the `i32` range.  A zero exponent yields 1, `0 ^ 0` included.
pub open spec fn pow_partial(b: int, e: nat) -> Option<int>
    decreases e,
{
    if e == 0 {
        Some(1)
    } else {
        match pow_partial(b, (e - 1) as nat) {
            None => None,
            Some(p) => if in_i32(p * b) {
                Some(p * b)
            } else {
                None
            },
        }
    }
}

pub open spec fn pow_val(a: i32, b: i32) -> Result<i32, EvalError> {
    if b < 0 {
        Err(EvalError::NegativeExponent)
    } else {
        match pow_partial(a as int, b as nat) {
            Some(p) => Ok(p as i32),
            None => Err(EvalError::Overflow),
        }
    }
}

/// Sum of `n` die draws read off the front of `draws`: each entry must have
/// asked for the range `[1, m]` and hold a value of it.
pub open spec fn dice_sum(draws: Seq<Draw>, m: i32, n: nat) -> Option<int>
    decreases n,
{
    if n == 0 {
        Some(0)
    } else if draws.len() == 0 {
        None
    } else {
        let d = draws[0];
        if d.lo == 1 && d.hi == m && 1 <= d.val && d.val <= m {
            match dice_sum(draws.skip(1), m, (n - 1) as nat) {
                Some(rest) => Some(d.val + rest),
                None => None,
            }
        } else {
            None
        }
    }
}

/// The meaning of evaluation: given the draws a random source handed out, in
/// order, the outcome of the tree and how many of those draws it consumed.
/// Children of a binary node are charged left first, then right; a die roll
/// charges its count, then its sides, then one draw per die.  `None` says the
/// draw sequence does not fit the tree, which a real run never produces.
pub open spec fn eval_take(e: Expr, draws: Seq<Draw>) -> Option<(Result<i32, EvalError>, int)>
    decreases size(e),
{
    match e {
        Expr::Constant(v) => Some((Ok(v), 0)),
        Expr::Neg(a) => match eval_take(*a, draws) {
            None => None,
            Some((Err(er), n)) => Some((Err(er), n)),
            Some((Ok(v), n)) => Some((neg_val(v), n)),
        },
        Expr::Add(a, b) => match pair_take(*a, *b, draws) {
            None => None,
            Some((Err(er), n)) => Some((Err(er), n)),
            Some((Ok((va, vb)), n)) => Some((add_val(va, vb), n)),
        },
        Expr::Sub(a, b) => match pair_take(*a, *b, draws) {
            None => None,
            Some((Err(er), n)) => Some((Err(er), n)),
            Some((Ok((va, vb)), n)) => Some((sub_val(va, vb), n)),
        },
        Expr::Mul(a, b) => match pair_take(*a, *b, draws) {
            None => None,
            Some((Err(er), n)) => Some((Err(er), n)),
            Some((Ok((va, vb)), n)) => Some((mul_val(va, vb), n)),
        },
        Expr::Div(a, b) => match pair_take(*a, *b, draws) {
            None => None,
            Some((Err(er), n)) => Some((Err(er), n)),
            Some((Ok((va, vb)), n)) => Some((div_val(va, vb), n)),
        },
        Expr::Pow(a, b) => match pair_take(*a, *b, draws) {
            None => None,
            Some((Err(er), n)) => Some((Err(er), n)),
            Some((Ok((va, vb)), n)) => Some((pow_val(va, vb), n)),
        },
        Expr::DieRoll(c, s) => match pair_take(*c, *s, draws) {
            None => None,
            Some((Err(er), n)) => Some((Err(er), n)),
            Some((Ok((cnt, m)), n)) => {
                if cnt <= 0 {
                    Some((Ok(0), n))
                } else if m < 1 {
                    Some((Err(EvalError::InvalidSides), n))
                } else {
                    match dice_sum(draws.skip(n), m, cnt as nat) {
                        None => None,
                        Some(t) => Some(
                            (
                                if t <= i32::MAX {
                                    Ok(t as i32)
                                } else {
                                    Err(EvalError::Overflow)
                                },
                                n + cnt,
                            ),
                        ),
                    }
                }
            },
        },
    }
}

/// Both children of a node, left first; an error in the left child skips the
/// right one, so it consumes no draws.
pub open spec fn pair_take(a: Expr, b: Expr, draws: Seq<Draw>) -> Option<
    (Result<(i32, i32), EvalError>, int),
>
    decreases size(a) + size(b),
{
    match eval_take(a, draws) {
        None => None,
        Some((Err(er), na)) => Some((Err(er), na)),
        Some((Ok(va), na)) => match eval_take(b, draws.skip(na)) {
            None => None,
            Some((Err(er), nb)) => Some((Err(er), na + nb)),
            Some((Ok(vb), nb)) => Some((Ok((va, vb)), na + nb)),
        },
    }
}

/// Node count of a tree: the measure the mutually recursive walks below
/// decrease on.
pub open spec fn size(e: Expr) -> nat
    decreases e,
{
    match e {
        Expr::Constant(_) => 1,
        Expr::Neg(a) => 1 + size(*a),
        Expr::DieRoll(a, b) => 1 + size(*a) + size(*b),
        Expr::Add(a, b) => 1 + size(*a) + size(*b),
        Expr::Sub(a, b) => 1 + size(*a) + size(*b),
        Expr::Mul(a, b) => 1 + size(*a) + size(*b),
        Expr::Div(a, b) => 1 + size(*a) + size(*b),
        Expr::Pow(a, b) => 1 + size(*a) + size(*b),
    }
}

pub(crate) proof fn lemma_size_pos(e: Expr)
    ensures
        size(e) >= 1,
{
}

proof fn lemma_dice_sum_bounds(draws: Seq<Draw>, m: i32, n: nat)
    ensures
        match dice_sum(draws, m, n) {
            Some(t) => n <= draws.len() && n <= t,
            None => true,
        },
    decreases n,
{
    if n > 0 && draws.len() > 0 {
        lemma_dice_sum_bounds(draws.skip(1), m, (n - 1) as nat);
    }
}

proof fn lemma_eval_take_bounds(e: Expr, draws: Seq<Draw>)
    ensures
        match eval_take(e, draws) {
            Some((r, n)) => 0 <= n <= draws.len(),
            None => true,
        },
    decreases size(e),
{
    match e {
        Expr::Constant(v) => {},
        Expr::Neg(a) => {
            lemma_eval_take_bounds(*a, draws);
        },
        Expr::Add(a, b) => lemma_pair_bounds(*a, *b, draws),
        Expr::Sub(a, b) => lemma_pair_bounds(*a, *b, draws),
        Expr::Mul(a, b) => lemma_pair_bounds(*a, *b, draws),
        Expr::Div(a, b) => lemma_pair_bounds(*a, *b, draws),
        Expr::Pow(a, b) => lemma_pair_bounds(*a, *b, draws),
        Expr::DieRoll(c, s) => {
            lemma_pair_bounds(*c, *s, draws);
            match pair_take(*c, *s, draws) {
                Some((Ok((cnt, m)), n)) => {
                    if cnt > 0 && m >= 1 {
                        lemma_dice_sum_bounds(draws.skip(n), m, cnt as nat);
                    }
                },
                _ => {},
            }
        },
    }
}

proof fn lemma_pair_bounds(a: Expr, b: Expr, draws: Seq<Draw>)
    ensures
        match pair_take(a, b, draws) {
            Some((r, n)) => 0 <= n <= draws.len(),
            None => true,
        },
    decreases size(a) + size(b),
{
    lemma_size_pos(a);
    lemma_size_pos(b);
    lemma_eval_take_bounds(a, draws);
    match eval_take(a, draws) {
        Some((Ok(va), na)) => {
            lemma_eval_take_bounds(b, draws.skip(na));
        },
        _ => {},
    }
}

proof fn lemma_dice_sum_agree(d1: Seq<Draw>, d2: Seq<Draw>, m: i32, n: nat)
    requires
        dice_sum(d1, m, n) is Some,
        n <= d2.len(),
        forall|k: int| 0 <= k < n ==> d1[k] == d2[k],
    ensures
        dice_sum(d2, m, n) == dice_sum(d1, m, n),
    decreases n,
{
    if n > 0 {
        lemma_dice_sum_bounds(d1, m, n);
        assert(d1[0] == d2[0]);
        assert forall|k: int| 0 <= k < n - 1 implies d1.skip(1)[k] == d2.skip(1)[k] by {
            assert(d1.skip(1)[k] == d1[k + 1]);
            assert(d2.skip(1)[k] == d2[k + 1]);
            assert(d1[k + 1] == d2[k + 1]);
        }
        lemma_dice_sum_agree(d1.skip(1), d2.skip(1), m, (n - 1) as nat);
    }
}

/// The outcome of a tree depends only on the draws it consumes: any draw
/// sequence that agrees with a fitting one on that consumed prefix yields
/// the same result and consumes the same prefix.
#[verifier::rlimit(100)]
pub proof fn lemma_eval_take_agree(e: Expr, d1: Seq<Draw>, d2: Seq<Draw>, r: Result<i32, EvalError>, n: int)
    requires
        eval_take(e, d1) == Some((r, n)),
        n <= d2.len(),
        forall|k: int| 0 <= k < n ==> d1[k] == d2[k],
    ensures
        0 <= n <= d1.len(),
        eval_take(e, d2) == Some((r, n)),
    decreases size(e),
{
    lemma_eval_take_bounds(e, d1);
    match e {
        Expr::Constant(v) => {},
        Expr::Neg(a) => {
            match eval_take(*a, d1) {
                Some((r1, n1)) => {
                    lemma_eval_take_agree(*a, d1, d2, r1, n1);
                },
                None => {},
            }
        },
        Expr::Add(a, b) => lemma_pair_agree(*a, *b, d1, d2),
        Expr::Sub(a, b) => lemma_pair_agree(*a, *b, d1, d2),
        Expr::Mul(a, b) => lemma_pair_agree(*a, *b, d1, d2),
        Expr::Div(a, b) => lemma_pair_agree(*a, *b, d1, d2),
        Expr::Pow(a, b) => lemma_pair_agree(*a, *b, d1, d2),
        Expr::DieRoll(c, s) => {
            lemma_pair_agree(*c, *s, d1, d2);
            match pair_take(*c, *s, d1) {
                Some((Ok((cnt, m)), np)) => {
                    if cnt > 0 && m >= 1 {
                        match dice_sum(d1.skip(np), m, cnt as nat) {
                            Some(t) => {
                                lemma_pair_bounds(*c, *s, d1);
                                lemma_dice_sum_bounds(d1.skip(np), m, cnt as nat);
                                assert forall|k: int| 0 <= k < cnt implies d1.skip(np)[k]
                                    == d2.skip(np)[k] by {
                                    assert(d1[np + k] == d2[np + k]);
                                }
                                lemma_dice_sum_agree(d1.skip(np), d2.skip(np), m, cnt as nat);
                            },
                            None => {},
                        }
                    }
                },
                _ => {},
            }
        },
    }
}

/// As `lemma_eval_take_agree`, for the two children of one node.
proof fn lemma_pair_agree(a: Expr, b: Expr, d1: Seq<Draw>, d2: Seq<Draw>)
    requires
        pair_take(a, b, d1) is Some,
        ({
            let n = pair_take(a, b, d1)->Some_0.1;
            &&& n <= d2.len()
            &&& forall|k: int| 0 <= k < n ==> d1[k] == d2[k]
        }),
    ensures
        pair_take(a, b, d2) == pair_take(a, b, d1),
    decreases size(a) + size(b),
{
    lemma_size_pos(a);
    lemma_size_pos(b);
    lemma_eval_take_bounds(a, d1);
    match eval_take(a, d1) {
        Some((Err(er), na)) => {
            lemma_eval_take_agree(a, d1, d2, Err(er), na);
        },
        Some((Ok(va), na)) => {
            match eval_take(b, d1.skip(na)) {
                Some((rb, nb)) => {
                    lemma_eval_take_bounds(b, d1.skip(na));
                    lemma_eval_take_agree(a, d1, d2, Ok(va), na);
                    assert forall|k: int| 0 <= k < nb implies d1.skip(na)[k] == d2.skip(na)[k] by {
                        assert(d1[na + k] == d2[na + k]);
                    }
                    lemma_eval_take_agree(b, d1.skip(na), d2.skip(na), rb, nb);
                },
                None => {},
            }
        },
        None => {},
    }
}

proof fn lemma_pow_partial_none(b: int, e1: nat, e2: nat)
    requires
        pow_partial(b, e1) is None,
        e1 <= e2,
    ensures
        pow_partial(b, e2) is None,
    decreases e2,
{
    if e1 < e2 {
        lemma_pow_partial_none(b, e1, (e2 - 1) as nat);
    }
}

proof fn lemma_dice_sum_snoc(t: Seq<Draw>, m: i32, n: nat, d: Draw)
    requires
        dice_sum(t, m, n) is Some,
        t.len() == n,
        d.lo == 1,
        d.hi == m,
        1 <= d.val && d.val <= m,
    ensures
        match dice_sum(t, m, n) {
            Some(x) => dice_sum(t.push(d), m, n + 1) == Some(x + d.val),
            None => false,
        },
    decreases n,
{
    if n == 0 {
        assert(t.push(d)[0] == d);
        assert(t.push(d).skip(1) =~= Seq::<Draw>::empty());
        assert(dice_sum(t.push(d).skip(1), m, 0) == Some(0int));
        assert(dice_sum(t.push(d), m, 1) == Some(d.val as int));
    } else {
        assert(t.push(d)[0] == t[0]);
        assert(t.skip(1).push(d) =~= t.push(d).skip(1));
        lemma_dice_sum_snoc(t.skip(1), m, (n - 1) as nat, d);
        let x1 = match dice_sum(t.skip(1), m, (n - 1) as nat) {
            Some(y) => y,
            None => 0,
        };
        assert(dice_sum(t, m, n) == Some(t[0].val + x1));
        assert(dice_sum(t.push(d).skip(1), m, n) == Some(x1 + d.val));
        assert(((n + 1) - 1) as nat == n);
        assert(dice_sum(t.push(d), m, n + 1) == Some(t[0].val + (x1 + d.val)));
    }
}

// ---------------------------------------------------------------------------
// Executable arithmetic, each function exactly its spec-level counterpart.
// ---------------------------------------------------------------------------

fn add_exec(a: i32, b: i32) -> (r: Result<i32, EvalError>)
    ensures
        r == add_val(a, b),
{
    let s = a as i64 + b as i64;
    if s > i32::MAX as i64 || s < i32::MIN as i64 {
        Err(EvalError::Overflow)
    } else {
        Ok(s as i32)
    }
}

fn sub_exec(a: i32, b: i32) -> (r: Result<i32, EvalError>)
    ensures
        r == sub_val(a, b),
{
    let s = a as i64 - b as i64;
    if s > i32::MAX as i64 || s < i32::MIN as i64 {
        Err(EvalError::Overflow)
    } else {
        Ok(s as i32)
    }
}

fn mul_exec(a: i32, b: i32) -> (r: Result<i32, EvalError>)
    ensures
        r == mul_val(a, b),
{
    proof {
        assert((a as int) * (b as int) <= 0x4000_0000_0000_0000int && (a as int) * (b as int)
            >= -0x4000_0000_0000_0000int) by (nonlinear_arith)
            requires
                -0x8000_0000 <= a as int <= 0x7fff_ffff,
                -0x8000_0000 <= b as int <= 0x7fff_ffff,
        ;
    }
    let s = a as i64 * b as i64;
    if s > i32::MAX as i64 || s < i32::MIN as i64 {
        Err(EvalError::Overflow)
    } else {
        Ok(s as i32)
    }
}

fn div_exec(a: i32, b: i32) -> (r: Result<i32, EvalError>)
    ensures
        r == div_val(a, b),
{
    if b == 0 {
        return Err(EvalError::DivisionByZero);
    }
    let ma: u64 = if a >= 0 {
        a as u64
    } else {
        (-(a as i64)) as u64
    };
    let mb: u64 = if b >= 0 {
        b as u64
    } else {
        (-(b as i64)) as u64
    };
    let q = ma / mb;
    proof {
        assert(ma as int == mag(a as int));
        assert(mb as int == mag(b as int));
        assert(q as int <= ma as int) by (nonlinear_arith)
            requires
                mb as int >= 1,
                ma as int >= 0,
                q as int == ma as int / mb as int,
        ;
    }
    if (a >= 0) == (b >= 0) {
        if q > i32::MAX as u64 {
            Err(EvalError::Overflow)
        } else {
            Ok(q as i32)
        }
    } else {
        Ok((-(q as i64)) as i32)
    }
}

fn pow_exec(base: i32, exp: i32) -> (r: Result<i32, EvalError>)
    ensures
        r == pow_val(base, exp),
{
    if exp < 0 {
        return Err(EvalError::NegativeExponent);
    }
    let e = exp as u32;
    let mut i: u32 = 0;
    let mut acc: i32 = 1;
    while i < e
        invariant
            i <= e,
            e == exp,
            pow_partial(base as int, i as nat) == Some(acc as int),
        decreases e - i,
    {
        proof {
            assert((acc as int) * (base as int) <= 0x4000_0000_0000_0000int && (acc as int) * (
            base as int) >= -0x4000_0000_0000_0000int) by (nonlinear_arith)
                requires
                    -0x8000_0000 <= acc as int <= 0x7fff_ffff,
                    -0x8000_0000 <= base as int <= 0x7fff_ffff,
            ;
        }
        let p = acc as i64 * base as i64;
        if p > i32::MAX as i64 || p < i32::MIN as i64 {
            proof {
                lemma_pow_partial_none(base as int, (i + 1) as nat, exp as nat);
            }
            return Err(EvalError::Overflow);
        }
        acc = p as i32;
        i = i + 1;
    }
    Ok(acc)
}

// ---------------------------------------------------------------------------
// The evaluator.
// ---------------------------------------------------------------------------

/// Evaluates both children of a node, left first, and hands back the ghost
/// record of the draws the two together consumed.
fn eval_pair<R: RandomSource>(a: &Expr, b: &Expr, rng: &mut R) -> (res: (
    Result<(i32, i32), EvalError>,
    Ghost<Seq<Draw>>,
))
    ensures
        final(rng).log() == old(rng).log() + res.1@,
        pair_take(*a, *b, res.1@) == Some((res.0, res.1@.len() as int)),
    decreases size(*a) + size(*b),
{
    let ghost pre = rng.log();
    proof {
        lemma_size_pos(*a);
        lemma_size_pos(*b);
    }
    let (ra, t1) = eval_at(a, rng);
    match ra {
        Err(er) => (Err(er), t1),
        Ok(va) => {
            let (rb, t2) = eval_at(b, rng);
            let ghost t = t1@ + t2@;
            proof {
                lemma_eval_take_agree(*a, t1@, t, Ok(va), t1@.len() as int);
                assert(t.skip(t1@.len() as int) =~= t2@);
                assert(pre + t =~= (pre + t1@) + t2@);
            }
            match rb {
                Err(er) => (Err(er), Ghost(t)),
                Ok(vb) => (Ok((va, vb)), Ghost(t)),
            }
        },
    }
}

/// The tree-walking evaluator: reduces `expr` with draws from `rng`, and
/// says which draws it took and what they made, through `eval_take`.
#[verifier::rlimit(100)]
pub fn eval_at<R: RandomSource>(expr: &Expr, rng: &mut R) -> (res: (
    Result<i32, EvalError>,
    Ghost<Seq<Draw>>,
))
    ensures
        final(rng).log() == old(rng).log() + res.1@,
        eval_take(*expr, res.1@) == Some((res.0, res.1@.len() as int)),
    decreases size(*expr),
{
    match expr {
        Expr::Constant(v) => {
            proof {
                assert(rng.log() =~= rng.log() + Seq::<Draw>::empty());
            }
            (Ok(*v), Ghost(Seq::empty()))
        },
        Expr::Neg(a) => {
            let (ra, t1) = eval_at(a, rng);
            match ra {
                Err(er) => (Err(er), t1),
                Ok(v) => {
                    if v == i32::MIN {
                        (Err(EvalError::Overflow), t1)
                    } else {
                        (Ok(-v), t1)
                    }
                },
            }
        },
        Expr::Add(a, b) => {
            let (p, t) = eval_pair(a, b, rng);
            match p {
                Err(er) => (Err(er), t),
                Ok((va, vb)) => (add_exec(va, vb), t),
            }
        },
        Expr::Sub(a, b) => {
            let (p, t) = eval_pair(a, b, rng);
            match p {
                Err(er) => (Err(er), t),
                Ok((va, vb)) => (sub_exec(va, vb), t),
            }
        },
        Expr::Mul(a, b) => {
            let (p, t) = eval_pair(a, b, rng);
            match p {
                Err(er) => (Err(er), t),
                Ok((va, vb)) => (mul_exec(va, vb), t),
            }
        },
        Expr::Div(a, b) => {
            let (p, t) = eval_pair(a, b, rng);
            match p {
                Err(er) => (Err(er), t),
                Ok((va, vb)) => (div_exec(va, vb), t),
            }
        },
        Expr::Pow(a, b) => {
            let (p, t) = eval_pair(a, b, rng);
            match p {
                Err(er) => (Err(er), t),
                Ok((va, vb)) => (pow_exec(va, vb), t),
            }
        },
        Expr::DieRoll(c, s) => {
            let ghost pre = rng.log();
            let (p, t) = eval_pair(c, s, rng);
            match p {
                Err(er) => (Err(er), t),
                Ok((cnt, m)) => {
                    if cnt <= 0 {
                        (Ok(0), t)
                    } else if m < 1 {
                        (Err(EvalError::InvalidSides), t)
                    } else {
                        let ghost base = rng.log();
                        let mut total: i64 = 0;
                        let mut k: i32 = 0;
                        let ghost mut td = Seq::<Draw>::empty();
                        while k < cnt
                            invariant
                                0 <= k <= cnt,
                                1 <= m,
                                rng.log() == base + td,
                                td.len() == k as nat,
                                dice_sum(td, m, k as nat) == Some(total as int),
                                0 <= total,
                                total <= (k as int) * (m as int),
                            decreases cnt - k,
                        {
                            proof {
                                assert((total as int) + (m as int) <= ((k as int) + 1) * (
                                m as int) && ((k as int) + 1) * (m as int)
                                    <= 0x4000_0000_0000_0000int) by (nonlinear_arith)
                                    requires
                                        0 <= k as int <= 0x7fff_ffff,
                                        1 <= m as int <= 0x7fff_ffff,
                                        0 <= total as int <= (k as int) * (m as int),
                                ;
                            }
                            let d = rng.draw(1, m);
                            proof {
                                lemma_dice_sum_snoc(td, m, k as nat, Draw { lo: 1, hi: m, val: d });
                                td = td.push(Draw { lo: 1, hi: m, val: d });
                                assert(rng.log() =~= base + td);
                            }
                            total = total + d as i64;
                            k = k + 1;
                        }
                        let rr: Result<i32, EvalError> = if total > i32::MAX as i64 {
                            Err(EvalError::Overflow)
                        } else {
                            Ok(total as i32)
                        };
                        let ghost tt = t@ + td;
                        proof {
                            lemma_dice_sum_bounds(td, m, cnt as nat);
                            assert(forall|j: int| 0 <= j < t@.len() ==> t@[j] == tt[j]);
                            lemma_pair_agree_extend(**c, **s, t@, tt);
                            assert(tt.skip(t@.len() as int) =~= td);
                            lemma_dice_sum_agree(td, tt.skip(t@.len() as int), m, cnt as nat);
                            assert(pre + tt =~= (pre + t@) + td);
                        }
                        (rr, Ghost(tt))
                    }
                },
            }
        },
    }
}

/// Extending the draw sequence past what the pair consumed changes nothing.
proof fn lemma_pair_agree_extend(a: Expr, b: Expr, d1: Seq<Draw>, d2: Seq<Draw>)
    requires
        pair_take(a, b, d1) is Some,
        pair_take(a, b, d1)->Some_0.1 == d1.len(),
        d1.len() <= d2.len(),
        forall|k: int| 0 <= k < d1.len() ==> d1[k] == d2[k],
    ensures
        pair_take(a, b, d2) == pair_take(a, b, d1),
{
    lemma_pair_agree(a, b, d1, d2);
}

} // verus!
