//! The three operators of the numeric core, the six orders in which they can
//! fill three slots, and the evaluation of one order against four operands.

use vstd::prelude::*;

verus! {

/// The operators, each named after the colour of its core.
#[derive(Debug, Clone, Copy, PartialEq, Eq, Hash, Structural)]
pub enum NumericCoreOps {
    /// Subtraction, defined when the left operand is at least the right one.
    Yellow,
    /// Multiplication, always defined.
    Pink,
    /// Division, defined when the right operand is not zero and divides the
    /// left one exactly.
    Violet,
}

/// Three operators in evaluation slots one, two and three.
pub type OpTriple = (NumericCoreOps, NumericCoreOps, NumericCoreOps);

/// Every way to put the three operators into the three slots, each once.
pub const NUMERIC_CORE_OP_COMBOS: [OpTriple; 6] = [
    (NumericCoreOps::Yellow, NumericCoreOps::Pink, NumericCoreOps::Violet),
    (NumericCoreOps::Yellow, NumericCoreOps::Violet, NumericCoreOps::Pink),
    (NumericCoreOps::Pink, NumericCoreOps::Yellow, NumericCoreOps::Violet),
    (NumericCoreOps::Pink, NumericCoreOps::Violet, NumericCoreOps::Yellow),
    (NumericCoreOps::Violet, NumericCoreOps::Yellow, NumericCoreOps::Pink),
    (NumericCoreOps::Violet, NumericCoreOps::Pink, NumericCoreOps::Yellow),
];

/// A machine result read as a natural number.
pub open spec fn widen(r: Option<u64>) -> Option<nat> {
    match r {
        Some(v) => Some(v as nat),
        None => None,
    }
}

/// Whether a result, where there is one, can be held in 64 bits.
pub open spec fn fits(r: Option<nat>) -> bool {
    r matches Some(v) ==> v <= u64::MAX
}

/// Whether a triple holds each operator exactly once.
pub open spec fn is_arrangement(ops: OpTriple) -> bool {
    ops.0 != ops.1 && ops.0 != ops.2 && ops.1 != ops.2
}

impl NumericCoreOps {
    /// What the operator yields on a pair of naturals, if anything.
    pub open spec fn apply_spec(self, lhs: nat, rhs: nat) -> Option<nat> {
        match self {
            NumericCoreOps::Yellow => if lhs >= rhs {
                Some((lhs - rhs) as nat)
            } else {
                None
            },
            NumericCoreOps::Pink => Some(lhs * rhs),
            NumericCoreOps::Violet => if rhs != 0 && lhs % rhs == 0 {
                Some(lhs / rhs)
            } else {
                None
            },
        }
    }

    /// Applies the operator to `lhs` and `rhs`. A product has to fit in 64 bits.
    pub fn apply(&self, lhs: u64, rhs: u64) -> (r: Option<u64>)
        requires
            fits(self.apply_spec(lhs as nat, rhs as nat)),
        ensures
            widen(r) == self.apply_spec(lhs as nat, rhs as nat),
    {
        match self {
            NumericCoreOps::Yellow => yellow_subtract(lhs, rhs),
            NumericCoreOps::Pink => Some(pink_multiply(lhs, rhs)),
            NumericCoreOps::Violet => violet_divide(lhs, rhs),
        }
    }
}

/// `lhs - rhs`, where `lhs` is at least `rhs`.
pub fn yellow_subtract(lhs: u64, rhs: u64) -> (r: Option<u64>)
    ensures
        lhs >= rhs ==> r == Some((lhs - rhs) as u64),
        lhs < rhs ==> r is None,
{
    if lhs >= rhs {
        Some(lhs - rhs)
    } else {
        None
    }
}

/// `lhs * rhs`. The product has to fit in 64 bits.
pub fn pink_multiply(lhs: u64, rhs: u64) -> (r: u64)
    requires
        lhs * rhs <= u64::MAX,
    ensures
        r == lhs * rhs,
{
    lhs * rhs
}

/// `lhs / rhs`, where `rhs` is not zero and leaves no remainder.
pub fn violet_divide(lhs: u64, rhs: u64) -> (r: Option<u64>)
    ensures
        rhs != 0 && lhs % rhs == 0 ==> r == Some(lhs / rhs),
        rhs == 0 || lhs % rhs != 0 ==> r is None,
{
    if rhs != 0 && lhs % rhs == 0 {
        Some(lhs / rhs)
    } else {
        None
    }
}

/// Carries an earlier result on as the left operand of `op`.
pub open spec fn carry_left(prev: Option<nat>, op: NumericCoreOps, rhs: nat) -> Option<nat> {
    match prev {
        Some(v) => op.apply_spec(v, rhs),
        None => None,
    }
}

/// Carries an earlier result on as the right operand of `op`.
pub open spec fn carry_right(lhs: nat, op: NumericCoreOps, prev: Option<nat>) -> Option<nat> {
    match prev {
        Some(v) => op.apply_spec(lhs, v),
        None => None,
    }
}

/// The three results on the way through one evaluation, in the order in which
/// they are computed.
///
/// A division directly followed by the multiplication yields to it: with the
/// two in slots one and two, `b * c` is taken first and `a` divided by it; with
/// the two in slots two and three, the multiplication by `d` comes before the
/// division by `c`. Every other triple is folded from the left.
pub open spec fn evaluation_steps(ops: OpTriple, a: nat, b: nat, c: nat, d: nat) -> (
    Option<nat>,
    Option<nat>,
    Option<nat>,
) {
    let (op1, op2, op3) = ops;
    if op1 == NumericCoreOps::Violet && op2 == NumericCoreOps::Pink {
        let r1 = op2.apply_spec(b, c);
        let r2 = carry_right(a, op1, r1);
        (r1, r2, carry_left(r2, op3, d))
    } else if op2 == NumericCoreOps::Violet && op3 == NumericCoreOps::Pink {
        let r1 = op1.apply_spec(a, b);
        let r2 = carry_left(r1, op3, d);
        (r1, r2, carry_left(r2, op2, c))
    } else {
        let r1 = op1.apply_spec(a, b);
        let r2 = carry_left(r1, op2, c);
        (r1, r2, carry_left(r2, op3, d))
    }
}

/// The value of `ops` on the operands `a`, `b`, `c`, `d`: the last of the three
/// steps, defined only if all three are.
pub open spec fn evaluate_spec(ops: OpTriple, a: nat, b: nat, c: nat, d: nat) -> Option<nat> {
    evaluation_steps(ops, a, b, c, d).2
}

/// Whether each step of the evaluation can be held in 64 bits.
pub open spec fn evaluation_fits(ops: OpTriple, a: nat, b: nat, c: nat, d: nat) -> bool {
    let steps = evaluation_steps(ops, a, b, c, d);
    fits(steps.0) && fits(steps.1) && fits(steps.2)
}

/// Evaluates `ops` on four operands. No step may leave 64 bits.
pub fn evaluate(ops: OpTriple, operands: (u64, u64, u64, u64)) -> (r: Option<u64>)
    requires
        evaluation_fits(
            ops,
            operands.0 as nat,
            operands.1 as nat,
            operands.2 as nat,
            operands.3 as nat,
        ),
    ensures
        widen(r) == evaluate_spec(
            ops,
            operands.0 as nat,
            operands.1 as nat,
            operands.2 as nat,
            operands.3 as nat,
        ),
{
    let (a, b, c, d) = operands;
    match ops {
        (NumericCoreOps::Violet, NumericCoreOps::Pink, op3) => {
            let product: u64 = pink_multiply(b, c);
            match violet_divide(a, product) {
                Some(quotient) => op3.apply(quotient, d),
                None => None,
            }
        },
        (op1, NumericCoreOps::Violet, NumericCoreOps::Pink) => {
            match op1.apply(a, b) {
                Some(first) => violet_divide(pink_multiply(first, d), c),
                None => None,
            }
        },
        (op1, op2, op3) => {
            match op1.apply(a, b) {
                Some(first) => match op2.apply(first, c) {
                    Some(second) => op3.apply(second, d),
                    None => None,
                },
                None => None,
            }
        },
    }
}

/// With the division in slot one and the multiplication in slot two, `a` is
/// divided by the product of `b` and `c`, and the third operator takes the
/// quotient and `d`.
pub proof fn lemma_division_waits_in_slot_one(op3: NumericCoreOps, a: nat, b: nat, c: nat, d: nat)
    ensures
        evaluate_spec((NumericCoreOps::Violet, NumericCoreOps::Pink, op3), a, b, c, d) == if b * c
            != 0 && a % (b * c) == 0 {
            op3.apply_spec(a / (b * c), d)
        } else {
            None
        },
{
}

/// With the division in slot two and the multiplication in slot three, the
/// result of the first operator is multiplied by `d`, and the product divided
/// by `c`.
pub proof fn lemma_division_waits_in_slot_two(op1: NumericCoreOps, a: nat, b: nat, c: nat, d: nat)
    ensures
        evaluate_spec((op1, NumericCoreOps::Violet, NumericCoreOps::Pink), a, b, c, d)
            == match op1.apply_spec(a, b) {
            Some(first) => if c != 0 && (first * d) % c == 0 {
                Some(first * d / c)
            } else {
                None
            },
            None => None,
        },
{
}

/// A triple in which no division stands directly before the multiplication
/// is folded from the left.
pub proof fn lemma_left_fold(ops: OpTriple, a: nat, b: nat, c: nat, d: nat)
    requires
        !(ops.0 == NumericCoreOps::Violet && ops.1 == NumericCoreOps::Pink),
        !(ops.1 == NumericCoreOps::Violet && ops.2 == NumericCoreOps::Pink),
    ensures
        evaluate_spec(ops, a, b, c, d) == carry_left(
            carry_left(ops.0.apply_spec(a, b), ops.1, c),
            ops.2,
            d,
        ),
{
}

/// A difference or a quotient is at most its left operand, and a product is
/// at most `cap * rhs` when its left operand is at most `cap`.
pub proof fn lemma_apply_bound(op: NumericCoreOps, lhs: nat, rhs: nat, cap: nat)
    requires
        lhs <= cap,
        op.apply_spec(lhs, rhs) is Some,
    ensures
        op != NumericCoreOps::Pink ==> op.apply_spec(lhs, rhs).unwrap() <= cap,
        op == NumericCoreOps::Pink ==> op.apply_spec(lhs, rhs).unwrap() <= cap * rhs,
{
    match op {
        NumericCoreOps::Yellow => {},
        NumericCoreOps::Pink => {
            assert(lhs * rhs <= cap * rhs) by (nonlinear_arith)
                requires
                    lhs <= cap,
            ;
        },
        NumericCoreOps::Violet => {
            assert(lhs / rhs <= lhs) by (nonlinear_arith)
                requires
                    rhs > 0,
            ;
        },
    }
}

/// With each operator used once, a result is at most the first operand or
/// its product with one of the others.
pub proof fn lemma_result_bound(ops: OpTriple, a: nat, b: nat, c: nat, d: nat)
    requires
        is_arrangement(ops),
        evaluate_spec(ops, a, b, c, d) is Some,
    ensures
        ({
            let r = evaluate_spec(ops, a, b, c, d).unwrap();
            r <= a || r <= a * b || r <= a * c || r <= a * d
        }),
{
    let (op1, op2, op3) = ops;
    let steps = evaluation_steps(ops, a, b, c, d);
    let r2 = steps.1.unwrap();
    if op1 == NumericCoreOps::Violet && op2 == NumericCoreOps::Pink {
        let r1 = steps.0.unwrap();
        lemma_apply_bound(op1, a, r1, a);
        lemma_apply_bound(op3, r2, d, a);
    } else if op2 == NumericCoreOps::Violet && op3 == NumericCoreOps::Pink {
        let r1 = steps.0.unwrap();
        lemma_apply_bound(op1, a, b, a);
        lemma_apply_bound(op3, r1, d, a);
        lemma_apply_bound(op2, r2, c, a * d);
    } else {
        let r1 = steps.0.unwrap();
        lemma_apply_bound(op1, a, b, a);
        if op1 == NumericCoreOps::Pink {
            lemma_apply_bound(op2, r1, c, a * b);
            lemma_apply_bound(op3, r2, d, a * b);
        } else {
            lemma_apply_bound(op2, r1, c, a);
            if op2 == NumericCoreOps::Pink {
                lemma_apply_bound(op3, r2, d, a * c);
            } else {
                lemma_apply_bound(op3, r2, d, a);
            }
        }
    }
}

/// Operands below 2^32 keep every step of every arrangement within 64 bits.
pub proof fn lemma_small_operands_fit(ops: OpTriple, a: nat, b: nat, c: nat, d: nat)
    requires
        is_arrangement(ops),
        a <= u32::MAX,
        b <= u32::MAX,
        c <= u32::MAX,
        d <= u32::MAX,
    ensures
        evaluation_fits(ops, a, b, c, d),
{
    let (op1, op2, op3) = ops;
    let steps = evaluation_steps(ops, a, b, c, d);
    let square: nat = 0xFFFF_FFFE_0000_0001;
    assert(a * b <= square && a * c <= square && a * d <= square && b * c <= square)
        by (nonlinear_arith)
        requires
            a <= 0xFFFF_FFFF,
            b <= 0xFFFF_FFFF,
            c <= 0xFFFF_FFFF,
            d <= 0xFFFF_FFFF,
            square == 0xFFFF_FFFE_0000_0001,
    ;
    if op1 == NumericCoreOps::Violet && op2 == NumericCoreOps::Pink {
        if steps.1 is Some {
            lemma_apply_bound(op1, a, steps.0.unwrap(), a);
            if steps.2 is Some {
                lemma_apply_bound(op3, steps.1.unwrap(), d, a);
            }
        }
    } else if op2 == NumericCoreOps::Violet && op3 == NumericCoreOps::Pink {
        if steps.0 is Some {
            lemma_apply_bound(op1, a, b, a);
            if steps.1 is Some {
                lemma_apply_bound(op3, steps.0.unwrap(), d, a);
                if steps.2 is Some {
                    lemma_apply_bound(op2, steps.1.unwrap(), c, a * d);
                }
            }
        }
    } else {
        if steps.0 is Some {
            lemma_apply_bound(op1, a, b, a);
            if steps.1 is Some {
                if op1 == NumericCoreOps::Pink {
                    lemma_apply_bound(op2, steps.0.unwrap(), c, a * b);
                    if steps.2 is Some {
                        lemma_apply_bound(op3, steps.1.unwrap(), d, a * b);
                    }
                } else {
                    lemma_apply_bound(op2, steps.0.unwrap(), c, a);
                    if steps.2 is Some {
                        if op2 == NumericCoreOps::Pink {
                            lemma_apply_bound(op3, steps.1.unwrap(), d, a * c);
                        } else {
                            lemma_apply_bound(op3, steps.1.unwrap(), d, a);
                        }
                    }
                }
            }
        }
    }
}

/// The table holds six distinct triples, each with every operator once, and
/// every such triple is in it.
pub proof fn lemma_combos_are_the_arrangements()
    ensures
        forall|t: int| 0 <= t < 6 ==> is_arrangement(#[trigger] NUMERIC_CORE_OP_COMBOS[t]),
        forall|s: int, t: int|
            0 <= s < t < 6 ==> #[trigger] NUMERIC_CORE_OP_COMBOS[s]
                != #[trigger] NUMERIC_CORE_OP_COMBOS[t],
        forall|ops: OpTriple|
            is_arrangement(ops) ==> exists|t: int|
                0 <= t < 6 && #[trigger] NUMERIC_CORE_OP_COMBOS[t] == ops,
{
    assert forall|ops: OpTriple| is_arrangement(ops) implies exists|t: int|
        0 <= t < 6 && #[trigger] NUMERIC_CORE_OP_COMBOS[t] == ops by {
        let t: int = match ops {
            (NumericCoreOps::Yellow, NumericCoreOps::Pink, _) => 0,
            (NumericCoreOps::Yellow, _, _) => 1,
            (NumericCoreOps::Pink, NumericCoreOps::Yellow, _) => 2,
            (NumericCoreOps::Pink, _, _) => 3,
            (NumericCoreOps::Violet, NumericCoreOps::Yellow, _) => 4,
            (NumericCoreOps::Violet, _, _) => 5,
        };
        assert(NUMERIC_CORE_OP_COMBOS[t] == ops);
    }
}

} // verus!
