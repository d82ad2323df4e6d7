use vstd::prelude::*;
use vstd::string::StrSliceExecFns;
use crate::ast::Expr;

verus! {

// ---------------------------------------------------------------------------
// The grammar, written as a deterministic recursive-descent function over the
// input's characters.  Precedence, lowest to highest:
//
//   sum     := product (('+' | '-') product)*         left-associative
//   product := pow (('*' | '/') pow)*                 left-associative
//   pow     := unary ('^' unary)?                     single optional exponent
//   unary   := '-'* roll
//   roll    := atom ('d' atom)?                       single optional die suffix
//   atom    := literal | '(' sum ')'
//
// Whitespace may stand before or after any token.  An operator whose right
// operand fails to parse is left unconsumed and the chain ends there; the
// input as a whole must then end, or the parse fails.
//
// Each function returns the parsed node and the position just past it, or
// `None`.  A sub-parse always moves the position strictly forward; the bound
// checks on positions below restate that fact where the recursion needs it
// to be well-founded, and can never fail on a result the functions produce.
// ---------------------------------------------------------------------------

pub open spec fn is_ws(c: char) -> bool {
    c == ' ' || c == '\t' || c == '\n' || c == '\r' || c == '\u{b}' || c == '\u{c}'
}

pub open spec fn is_digit(c: char) -> bool {
    48 <= c as u32 && c as u32 <= 57
}

pub open spec fn digit_val(c: char) -> int {
    c as u32 - 48
}

/// First position at or after `i` that does not hold whitespace.
pub open spec fn skip_ws(s: Seq<char>, i: int) -> int
    decreases s.len() - i,
{
    if 0 <= i && i < s.len() && is_ws(s[i]) {
        skip_ws(s, i + 1)
    } else {
        i
    }
}

/// First position at or after `i` that does not hold a decimal digit.
pub open spec fn digits_end(s: Seq<char>, i: int) -> int
    decreases s.len() - i,
{
    if 0 <= i && i < s.len() && is_digit(s[i]) {
        digits_end(s, i + 1)
    } else {
        i
    }
}

/// Base-10 value of the digits in `s[i..j)`.
pub open spec fn digits_val(s: Seq<char>, i: int, j: int) -> int
    decreases j - i,
{
    if i < j {
        digits_val(s, i, j - 1) * 10 + digit_val(s[j - 1])
    } else {
        0
    }
}

/// atom := literal | '(' sum ')'
///
/// A literal whose value exceeds `i32::MAX` is rejected: integer range is
/// checked at the lexical level rather than silently truncated.
pub open spec fn p_atom(s: Seq<char>, i: int) -> Option<(Expr, int)>
    decreases s.len() - i, 1int,
{
    let j = skip_ws(s, i);
    if i <= j && j < s.len() && is_digit(s[j]) {
        let k = digits_end(s, j);
        let v = digits_val(s, j, k);
        if v <= i32::MAX {
            Some((Expr::Constant(v as i32), k))
        } else {
            None
        }
    } else if i <= j && j < s.len() && s[j] == '(' {
        match p_sum(s, j + 1) {
            Some((e, k)) => {
                let m = skip_ws(s, k);
                if m < s.len() && s[m] == ')' {
                    Some((e, m + 1))
                } else {
                    None
                }
            },
            None => None,
        }
    } else {
        None
    }
}

/// roll := atom ('d' atom)?
pub open spec fn p_roll(s: Seq<char>, i: int) -> Option<(Expr, int)>
    decreases s.len() - i, 2int,
{
    match p_atom(s, i) {
        None => None,
        Some((a, j)) => {
            let m = skip_ws(s, j);
            if i < j && j <= m && m < s.len() && s[m] == 'd' {
                match p_atom(s, m + 1) {
                    Some((b, k)) => Some((Expr::DieRoll(Box::new(a), Box::new(b)), k)),
                    None => Some((a, j)),
                }
            } else {
                Some((a, j))
            }
        },
    }
}

/// unary := '-'* roll
pub open spec fn p_unary(s: Seq<char>, i: int) -> Option<(Expr, int)>
    decreases s.len() - i, 3int,
{
    let j = skip_ws(s, i);
    if i <= j && j < s.len() && s[j] == '-' {
        match p_unary(s, j + 1) {
            Some((e, k)) => Some((Expr::Neg(Box::new(e)), k)),
            None => None,
        }
    } else {
        p_roll(s, i)
    }
}

/// pow := unary ('^' unary)?
pub open spec fn p_pow(s: Seq<char>, i: int) -> Option<(Expr, int)>
    decreases s.len() - i, 4int,
{
    match p_unary(s, i) {
        None => None,
        Some((a, j)) => {
            let m = skip_ws(s, j);
            if i < j && j <= m && m < s.len() && s[m] == '^' {
                match p_unary(s, m + 1) {
                    Some((b, k)) => Some((Expr::Pow(Box::new(a), Box::new(b)), k)),
                    None => Some((a, j)),
                }
            } else {
                Some((a, j))
            }
        },
    }
}

/// The `(('*' | '/') pow)*` tail of a product, folded to the left onto `acc`.
pub open spec fn p_product_rest(acc: Expr, s: Seq<char>, i: int) -> Option<(Expr, int)>
    decreases s.len() - i, 6int,
{
    let m = skip_ws(s, i);
    if i <= m && m < s.len() && (s[m] == '*' || s[m] == '/') {
        match p_pow(s, m + 1) {
            Some((b, k)) => {
                let node = if s[m] == '*' {
                    Expr::Mul(Box::new(acc), Box::new(b))
                } else {
                    Expr::Div(Box::new(acc), Box::new(b))
                };
                if m + 1 < k && k <= s.len() {
                    p_product_rest(node, s, k)
                } else {
                    None
                }
            },
            None => Some((acc, i)),
        }
    } else {
        Some((acc, i))
    }
}

/// product := pow (('*' | '/') pow)*
pub open spec fn p_product(s: Seq<char>, i: int) -> Option<(Expr, int)>
    decreases s.len() - i, 5int,
{
    match p_pow(s, i) {
        None => None,
        Some((a, j)) => if i < j && j <= s.len() {
            p_product_rest(a, s, j)
        } else {
            None
        },
    }
}

/// The `(('+' | '-') product)*` tail of a sum, folded to the left onto `acc`.
pub open spec fn p_sum_rest(acc: Expr, s: Seq<char>, i: int) -> Option<(Expr, int)>
    decreases s.len() - i, 8int,
{
    let m = skip_ws(s, i);
    if i <= m && m < s.len() && (s[m] == '+' || s[m] == '-') {
        match p_product(s, m + 1) {
            Some((b, k)) => {
                let node = if s[m] == '+' {
                    Expr::Add(Box::new(acc), Box::new(b))
                } else {
                    Expr::Sub(Box::new(acc), Box::new(b))
                };
                if m + 1 < k && k <= s.len() {
                    p_sum_rest(node, s, k)
                } else {
                    None
                }
            },
            None => Some((acc, i)),
        }
    } else {
        Some((acc, i))
    }
}

/// sum := product (('+' | '-') product)*
pub open spec fn p_sum(s: Seq<char>, i: int) -> Option<(Expr, int)>
    decreases s.len() - i, 7int,
{
    match p_product(s, i) {
        None => None,
        Some((a, j)) => if i < j && j <= s.len() {
            p_sum_rest(a, s, j)
        } else {
            None
        },
    }
}

/// The whole input parses as one sum with nothing but whitespace after it,
/// or the parse fails.
pub open spec fn parse_spec(s: Seq<char>) -> Option<Expr> {
    match p_sum(s, 0) {
        Some((e, j)) => if skip_ws(s, j) == s.len() {
            Some(e)
        } else {
            None
        },
        None => None,
    }
}

// ---------------------------------------------------------------------------
// The executable parser.  Each function mirrors one level of the grammar and
// returns exactly what the spec-level function of that level says.
// ---------------------------------------------------------------------------

/// Syntactic failure: the position of the character at which the parse
/// stopped (the input's length when it ended too early).
#[derive(Debug, PartialEq, Eq, Clone, Copy)]
pub struct ParseDiag {
    pub pos: usize,
}

/// The executable result at one grammar level agrees with the spec-level one.
pub open spec fn level_ok(r: Option<(Expr, usize)>, p: Option<(Expr, int)>) -> bool {
    match (r, p) {
        (Option::None, Option::None) => true,
        (Option::Some((e1, j1)), Option::Some((e2, j2))) => e1 == e2 && j1 == j2,
        _ => false,
    }
}

proof fn lemma_digits_end_bounds(s: Seq<char>, i: int)
    requires
        0 <= i <= s.len(),
    ensures
        i <= digits_end(s, i) <= s.len(),
    decreases s.len() - i,
{
    if i < s.len() && is_digit(s[i]) {
        lemma_digits_end_bounds(s, i + 1);
    }
}

fn is_ws_char(c: char) -> (b: bool)
    ensures
        b == is_ws(c),
{
    c == ' ' || c == '\t' || c == '\n' || c == '\r' || c == '\u{b}' || c == '\u{c}'
}

fn is_digit_char(c: char) -> (b: bool)
    ensures
        b == is_digit(c),
{
    let u = c as u32;
    48 <= u && u <= 57
}

fn e_skip_ws(s: &Vec<char>, i: usize) -> (r: usize)
    requires
        i <= s@.len(),
    ensures
        i <= r <= s@.len(),
        r == skip_ws(s@, i as int),
{
    let mut j = i;
    while j < s.len() && is_ws_char(s[j])
        invariant
            i <= j <= s@.len(),
            skip_ws(s@, i as int) == skip_ws(s@, j as int),
        decreases s@.len() - j,
    {
        j = j + 1;
    }
    j
}

/// Scans the digits from `i` on and accumulates their value; hands back the
/// end of the run, and the value only when it fits an `i32`.
fn e_literal(s: &Vec<char>, i: usize) -> (r: (usize, Option<i32>))
    requires
        i <= s@.len(),
    ensures
        i <= r.0 <= s@.len(),
        r.0 == digits_end(s@, i as int),
        match r.1 {
            Some(v) => v as int == digits_val(s@, i as int, r.0 as int),
            None => digits_val(s@, i as int, r.0 as int) > i32::MAX,
        },
{
    let mut j = i;
    let mut acc: u64 = 0;
    let mut over = false;
    while j < s.len() && is_digit_char(s[j])
        invariant
            i <= j <= s@.len(),
            digits_end(s@, i as int) == digits_end(s@, j as int),
            !over ==> acc == digits_val(s@, i as int, j as int) && acc <= i32::MAX,
            over ==> digits_val(s@, i as int, j as int) > i32::MAX,
        decreases s@.len() - j,
    {
        let d = (s[j] as u32 - 48) as u64;
        proof {
            assert(digits_val(s@, i as int, j + 1) == digits_val(s@, i as int, j as int) * 10
                + digit_val(s@[j as int]));
        }
        if !over {
            let na = acc * 10 + d;
            if na > 0x7fff_ffff {
                over = true;
            } else {
                acc = na;
            }
        }
        j = j + 1;
    }
    (j, if over { None } else { Some(acc as i32) })
}

fn e_atom(s: &Vec<char>, i: usize) -> (r: Option<(Expr, usize)>)
    requires
        i <= s@.len(),
    ensures
        level_ok(r, p_atom(s@, i as int)),
        r matches Some(p) ==> i < p.1 <= s@.len(),
    decreases s@.len() - i, 1int,
{
    let j = e_skip_ws(s, i);
    if j < s.len() && is_digit_char(s[j]) {
        let (k, val) = e_literal(s, j);
        proof {
            assert(digits_end(s@, j as int) == digits_end(s@, j + 1));
            lemma_digits_end_bounds(s@, j + 1);
        }
        match val {
            Some(v) => Some((Expr::Constant(v), k)),
            None => None,
        }
    } else if j < s.len() && s[j] == '(' {
        match e_sum(s, j + 1) {
            Some((e, k)) => {
                let m = e_skip_ws(s, k);
                if m < s.len() && s[m] == ')' {
                    Some((e, m + 1))
                } else {
                    None
                }
            },
            None => None,
        }
    } else {
        None
    }
}

fn e_roll(s: &Vec<char>, i: usize) -> (r: Option<(Expr, usize)>)
    requires
        i <= s@.len(),
    ensures
        level_ok(r, p_roll(s@, i as int)),
        r matches Some(p) ==> i < p.1 <= s@.len(),
    decreases s@.len() - i, 2int,
{
    match e_atom(s, i) {
        None => None,
        Some((a, j)) => {
            let m = e_skip_ws(s, j);
            if m < s.len() && s[m] == 'd' {
                match e_atom(s, m + 1) {
                    Some((b, k)) => Some((Expr::DieRoll(Box::new(a), Box::new(b)), k)),
                    None => Some((a, j)),
                }
            } else {
                Some((a, j))
            }
        },
    }
}

fn e_unary(s: &Vec<char>, i: usize) -> (r: Option<(Expr, usize)>)
    requires
        i <= s@.len(),
    ensures
        level_ok(r, p_unary(s@, i as int)),
        r matches Some(p) ==> i < p.1 <= s@.len(),
    decreases s@.len() - i, 3int,
{
    let j = e_skip_ws(s, i);
    if j < s.len() && s[j] == '-' {
        match e_unary(s, j + 1) {
            Some((e, k)) => Some((Expr::Neg(Box::new(e)), k)),
            None => None,
        }
    } else {
        e_roll(s, i)
    }
}

fn e_pow(s: &Vec<char>, i: usize) -> (r: Option<(Expr, usize)>)
    requires
        i <= s@.len(),
    ensures
        level_ok(r, p_pow(s@, i as int)),
        r matches Some(p) ==> i < p.1 <= s@.len(),
    decreases s@.len() - i, 4int,
{
    match e_unary(s, i) {
        None => None,
        Some((a, j)) => {
            let m = e_skip_ws(s, j);
            if m < s.len() && s[m] == '^' {
                match e_unary(s, m + 1) {
                    Some((b, k)) => Some((Expr::Pow(Box::new(a), Box::new(b)), k)),
                    None => Some((a, j)),
                }
            } else {
                Some((a, j))
            }
        },
    }
}

fn e_product(s: &Vec<char>, i: usize) -> (r: Option<(Expr, usize)>)
    requires
        i <= s@.len(),
    ensures
        level_ok(r, p_product(s@, i as int)),
        r matches Some(p) ==> i < p.1 <= s@.len(),
    decreases s@.len() - i, 5int,
{
    match e_pow(s, i) {
        None => None,
        Some((a0, j0)) => {
            let mut acc = a0;
            let mut pos = j0;
            loop
                invariant
                    i < pos <= s@.len(),
                    p_product(s@, i as int) == p_product_rest(acc, s@, pos as int),
                decreases s@.len() - pos,
            {
                let m = e_skip_ws(s, pos);
                if m < s.len() && (s[m] == '*' || s[m] == '/') {
                    let is_mul = s[m] == '*';
                    match e_pow(s, m + 1) {
                        Some((b, k)) => {
                            acc = if is_mul {
                                Expr::Mul(Box::new(acc), Box::new(b))
                            } else {
                                Expr::Div(Box::new(acc), Box::new(b))
                            };
                            pos = k;
                        },
                        None => {
                            return Some((acc, pos));
                        },
                    }
                } else {
                    return Some((acc, pos));
                }
            }
        },
    }
}

fn e_sum(s: &Vec<char>, i: usize) -> (r: Option<(Expr, usize)>)
    requires
        i <= s@.len(),
    ensures
        level_ok(r, p_sum(s@, i as int)),
        r matches Some(p) ==> i < p.1 <= s@.len(),
    decreases s@.len() - i, 7int,
{
    match e_product(s, i) {
        None => None,
        Some((a0, j0)) => {
            let mut acc = a0;
            let mut pos = j0;
            loop
                invariant
                    i < pos <= s@.len(),
                    p_sum(s@, i as int) == p_sum_rest(acc, s@, pos as int),
                decreases s@.len() - pos,
            {
                let m = e_skip_ws(s, pos);
                if m < s.len() && (s[m] == '+' || s[m] == '-') {
                    let is_add = s[m] == '+';
                    match e_product(s, m + 1) {
                        Some((b, k)) => {
                            acc = if is_add {
                                Expr::Add(Box::new(acc), Box::new(b))
                            } else {
                                Expr::Sub(Box::new(acc), Box::new(b))
                            };
                            pos = k;
                        },
                        None => {
                            return Some((acc, pos));
                        },
                    }
                } else {
                    return Some((acc, pos));
                }
            }
        },
    }
}

fn chars_of(s: &str) -> (v: Vec<char>)
    ensures
        v@ == s@,
{
    let n = s.unicode_len();
    let mut v: Vec<char> = Vec::new();
    let mut i: usize = 0;
    while i < n
        invariant
            n == s@.len(),
            i <= n,
            v@ == s@.subrange(0, i as int),
        decreases n - i,
    {
        v.push(s.get_char(i));
        proof {
            assert(v@ =~= s@.subrange(0, i + 1));
        }
        i = i + 1;
    }
    proof {
        assert(v@ =~= s@);
    }
    v
}

/// Parse a dice expression.  Succeeds exactly when the grammar accepts the
/// whole input, and then returns the tree the grammar gives it; fails
/// otherwise with the position at which parsing stopped.
pub fn parse(dice_string: &str) -> (r: Result<Expr, ParseDiag>)
    ensures
        match parse_spec(dice_string@) {
            Some(ast) => r matches Ok(e) && e == ast,
            None => match p_sum(dice_string@, 0) {
                Some(p) => r matches Err(d) && d.pos == skip_ws(dice_string@, p.1) && d.pos
                    < dice_string@.len(),
                None => r matches Err(d) && d.pos <= dice_string@.len(),
            },
        },
{
    let v = chars_of(dice_string);
    match e_sum(&v, 0) {
        Some((e, j)) => {
            let m = e_skip_ws(&v, j);
            if m == v.len() {
                Ok(e)
            } else {
                Err(ParseDiag { pos: m })
            }
        },
        None => {
            let m = e_skip_ws(&v, 0);
            Err(ParseDiag { pos: m })
        },
    }
}

} // verus!
