//! The dynamically typed runtime value and its arithmetic and slicing rules.
//!
//! Every failure path is a typed, recoverable error carrying the location the
//! evaluator handed in: operand mismatches, overflow, division by zero, a
//! zero or negative slice step and a slice index off the subject are all
//! reported through `ValueError` rather than aborting.
//!
//! Floating-point payloads are carried as their IEEE-754 bit patterns, and
//! the one thing this module cannot compute itself — the float arithmetic —
//! is handed back to the embedder as an `ArithOutcome::FloatPending` request;
//! every coercion decision around it is made, and verified, here.

use vstd::prelude::*;
use vstd::string::{StrSliceExecFns, StringExecFns};
use vstd::arithmetic::div_mod::{
    lemma_div_is_ordered_by_denominator, lemma_div_nonincreasing, lemma_div_pos_is_pos,
};
use crate::token::Location;

verus! {

/// A stable handle to an AST node held in the surrounding interpreter's
/// arena.  The value layer never looks inside it.
#[derive(Debug, Clone, Copy, PartialEq, Eq, Structural)]
pub struct AstRef {
    pub id: usize,
}

/// A stable handle to a scope held in the surrounding interpreter's arena:
/// every closure made from one lexical environment carries the same handle,
/// so the captured scope is shared, never copied.
#[derive(Debug, Clone, Copy, PartialEq, Eq, Structural)]
pub struct ScopeRef {
    pub id: usize,
}

/// A runtime value.  `Float` holds the IEEE-754 bit pattern of a 64-bit
/// float; the bits are opaque to every rule in this module.  Values are
/// immutable: the operators consume their operands and build new values.
#[derive(Debug, Clone)]
pub enum Value {
    Integer(i64),
    Float(u64),
    String(String),
    Boolean(bool),
    BuiltInFunction(String),
    Function { body: AstRef, params: Vec<String>, scope: ScopeRef },
    Nothing,
}

/// The four arithmetic operators.
#[derive(Debug, Clone, Copy, PartialEq, Eq, Structural)]
pub enum BinOp {
    Add,
    Subtract,
    Multiply,
    Divide,
}

/// One operand of a pending float operation: either an integer still to be
/// promoted, or float bits.
#[derive(Debug, Clone, Copy, PartialEq, Eq, Structural)]
pub enum FloatOperand {
    FromInt(i64),
    FromBits(u64),
}

/// What an arithmetic operator produced: a finished value, or a float
/// operation for the embedder to carry out (floats cannot be computed here).
/// The coercion decision — which operation, which operands, in which order —
/// is already made and verified.
#[derive(Debug, Clone)]
pub enum ArithOutcome {
    Concrete(Value),
    FloatPending { op: BinOp, left: FloatOperand, right: FloatOperand },
}

/// Why a value operation failed.
#[derive(Debug, Clone, Copy, PartialEq, Eq, Structural)]
pub enum ValueErrorKind {
    /// The operand types are outside the operator's coercion table.
    InvalidTypes { op: BinOp },
    /// A string was to be repeated a negative number of times.
    NegativeRepeat { count: i64 },
    /// An integer operation left the 64-bit signed range.
    IntegerOverflow { op: BinOp },
    /// An integer division by zero.
    DivisionByZero,
    /// A slice step of exactly zero.
    ZeroStep,
    /// A negative slice step: the walk compares its index only with `<`, so
    /// a negative step could never terminate and is refused.
    NegativeStep,
    /// A provided slice bound or step was not an integer.
    InvalidSliceTypes,
    /// Only strings can be sliced.
    NotSliceable,
    /// The slice walk reached an index outside the subject.
    SliceOutOfRange,
}

/// A failed value operation: why, and the source location the evaluator
/// attributed to the expression.
#[derive(Debug, Clone)]
pub struct ValueError {
    pub kind: ValueErrorKind,
    pub location: Location,
}

impl ValueError {
    /// A short description of the fault class, as the language reports it.
    pub fn message(&self) -> (r: String)
        ensures
            (match self.kind {
                ValueErrorKind::InvalidTypes { op: BinOp::Add } => (
                    r@ == "Invalid types for addition"@
                ),
                ValueErrorKind::InvalidTypes { op: BinOp::Subtract } => (
                    r@ == "Invalid types for subtraction"@
                ),
                ValueErrorKind::InvalidTypes { op: BinOp::Multiply } => (
                    r@ == "Invalid types for multiplication"@
                ),
                ValueErrorKind::InvalidTypes { op: BinOp::Divide } => (
                    r@ == "Invalid types for division"@
                ),
                ValueErrorKind::NegativeRepeat { .. } => (
                    r@ == "Repetition count is not a positive integer"@
                ),
                ValueErrorKind::IntegerOverflow { .. } => (
                    r@ == "Integer arithmetic overflowed"@
                ),
                ValueErrorKind::DivisionByZero => r@ == "Division by zero"@,
                ValueErrorKind::ZeroStep => r@ == "Step cannot be 0"@,
                ValueErrorKind::NegativeStep => r@ == "Step cannot be negative"@,
                ValueErrorKind::InvalidSliceTypes => r@ == "Invalid types for slice"@,
                ValueErrorKind::NotSliceable => r@ == "Can only slice strings"@,
                ValueErrorKind::SliceOutOfRange => r@ == "Slice index out of range"@,
            }),
    {
        match self.kind {
            ValueErrorKind::InvalidTypes { op: BinOp::Add } => String::from_str(
                "Invalid types for addition",
            ),
            ValueErrorKind::InvalidTypes { op: BinOp::Subtract } => String::from_str(
                "Invalid types for subtraction",
            ),
            ValueErrorKind::InvalidTypes { op: BinOp::Multiply } => String::from_str(
                "Invalid types for multiplication",
            ),
            ValueErrorKind::InvalidTypes { op: BinOp::Divide } => String::from_str(
                "Invalid types for division",
            ),
            ValueErrorKind::NegativeRepeat { .. } => String::from_str(
                "Repetition count is not a positive integer",
            ),
            ValueErrorKind::IntegerOverflow { .. } => String::from_str(
                "Integer arithmetic overflowed",
            ),
            ValueErrorKind::DivisionByZero => String::from_str("Division by zero"),
            ValueErrorKind::ZeroStep => String::from_str("Step cannot be 0"),
            ValueErrorKind::NegativeStep => String::from_str("Step cannot be negative"),
            ValueErrorKind::InvalidSliceTypes => String::from_str("Invalid types for slice"),
            ValueErrorKind::NotSliceable => String::from_str("Can only slice strings"),
            ValueErrorKind::SliceOutOfRange => String::from_str("Slice index out of range"),
        }
    }
}

/// Did the operation fail exactly this way, at exactly this location?
pub open spec fn arith_err(
    r: Result<ArithOutcome, ValueError>,
    kind: ValueErrorKind,
    loc: Location,
) -> bool {
    match r {
        Err(e) => e.kind == kind && e.location == loc,
        _ => false,
    }
}

/// Did the operation finish with a string holding exactly this text?
pub open spec fn arith_ok_string(r: Result<ArithOutcome, ValueError>, text: Seq<char>) -> bool {
    match r {
        Ok(ArithOutcome::Concrete(Value::String(u))) => u@ == text,
        _ => false,
    }
}

/// The float operation handed back to the embedder.
pub open spec fn pending(op: BinOp, left: FloatOperand, right: FloatOperand) -> Result<
    ArithOutcome,
    ValueError,
> {
    Ok(ArithOutcome::FloatPending { op, left, right })
}

/// `text` repeated `n` times.
pub open spec fn repeat_text(text: Seq<char>, n: nat) -> Seq<char>
    decreases n,
{
    if n == 0 {
        Seq::<char>::empty()
    } else {
        text + repeat_text(text, (n - 1) as nat)
    }
}

/// Integer division truncating toward zero, as the `/` of the language.
pub open spec fn trunc_div(x: int, d: int) -> int
    recommends
        d != 0,
{
    if x == 0 {
        0
    } else if x > 0 && d > 0 {
        x / d
    } else if x < 0 && d < 0 {
        (x * -1) / (d * -1)
    } else if x < 0 {
        ((x * -1) / d) * -1
    } else {
        (x / (d * -1)) * -1
    }
}

/// The coercion table of `add`: integers add (within 64 bits), any float
/// operand makes the addition a pending float operation, strings
/// concatenate, and everything else is a type error.
pub open spec fn add_post(a: Value, b: Value, loc: Location, r: Result<
    ArithOutcome,
    ValueError,
>) -> bool {
    match (a, b) {
        (Value::Integer(x), Value::Integer(y)) => if i64::MIN <= x + y <= i64::MAX {
            r == Ok::<ArithOutcome, ValueError>(ArithOutcome::Concrete(Value::Integer((x + y) as i64)))
        } else {
            arith_err(r, ValueErrorKind::IntegerOverflow { op: BinOp::Add }, loc)
        },
        (Value::Integer(x), Value::Float(g)) => r == pending(
            BinOp::Add,
            FloatOperand::FromInt(x),
            FloatOperand::FromBits(g),
        ),
        (Value::Float(f), Value::Float(g)) => r == pending(
            BinOp::Add,
            FloatOperand::FromBits(f),
            FloatOperand::FromBits(g),
        ),
        (Value::Float(f), Value::Integer(y)) => r == pending(
            BinOp::Add,
            FloatOperand::FromBits(f),
            FloatOperand::FromInt(y),
        ),
        (Value::String(u), Value::String(v)) => arith_ok_string(r, u@ + v@),
        _ => arith_err(r, ValueErrorKind::InvalidTypes { op: BinOp::Add }, loc),
    }
}

/// The coercion table of `subtract`: as `add`, but strings do not subtract.
pub open spec fn subtract_post(a: Value, b: Value, loc: Location, r: Result<
    ArithOutcome,
    ValueError,
>) -> bool {
    match (a, b) {
        (Value::Integer(x), Value::Integer(y)) => if i64::MIN <= x - y <= i64::MAX {
            r == Ok::<ArithOutcome, ValueError>(ArithOutcome::Concrete(Value::Integer((x - y) as i64)))
        } else {
            arith_err(r, ValueErrorKind::IntegerOverflow { op: BinOp::Subtract }, loc)
        },
        (Value::Integer(x), Value::Float(g)) => r == pending(
            BinOp::Subtract,
            FloatOperand::FromInt(x),
            FloatOperand::FromBits(g),
        ),
        (Value::Float(f), Value::Float(g)) => r == pending(
            BinOp::Subtract,
            FloatOperand::FromBits(f),
            FloatOperand::FromBits(g),
        ),
        (Value::Float(f), Value::Integer(y)) => r == pending(
            BinOp::Subtract,
            FloatOperand::FromBits(f),
            FloatOperand::FromInt(y),
        ),
        _ => arith_err(r, ValueErrorKind::InvalidTypes { op: BinOp::Subtract }, loc),
    }
}

/// The coercion table of `multiply`: as `add`, and a string times an integer
/// repeats the string — a negative count is an error naming the count.
pub open spec fn multiply_post(a: Value, b: Value, loc: Location, r: Result<
    ArithOutcome,
    ValueError,
>) -> bool {
    match (a, b) {
        (Value::Integer(x), Value::Integer(y)) => if i64::MIN <= x * y <= i64::MAX {
            r == Ok::<ArithOutcome, ValueError>(ArithOutcome::Concrete(Value::Integer((x * y) as i64)))
        } else {
            arith_err(r, ValueErrorKind::IntegerOverflow { op: BinOp::Multiply }, loc)
        },
        (Value::Integer(x), Value::Float(g)) => r == pending(
            BinOp::Multiply,
            FloatOperand::FromInt(x),
            FloatOperand::FromBits(g),
        ),
        (Value::Float(f), Value::Float(g)) => r == pending(
            BinOp::Multiply,
            FloatOperand::FromBits(f),
            FloatOperand::FromBits(g),
        ),
        (Value::Float(f), Value::Integer(y)) => r == pending(
            BinOp::Multiply,
            FloatOperand::FromBits(f),
            FloatOperand::FromInt(y),
        ),
        (Value::String(u), Value::Integer(n)) => if n < 0 {
            arith_err(r, ValueErrorKind::NegativeRepeat { count: n }, loc)
        } else {
            arith_ok_string(r, repeat_text(u@, n as nat))
        },
        _ => arith_err(r, ValueErrorKind::InvalidTypes { op: BinOp::Multiply }, loc),
    }
}

/// The coercion table of `divide`: integer division truncates toward zero,
/// division by integer zero and the one overflowing quotient are errors, and
/// any float operand makes the division a pending float operation (float
/// division by zero is then the embedder's IEEE-754 infinity or NaN).
pub open spec fn divide_post(a: Value, b: Value, loc: Location, r: Result<
    ArithOutcome,
    ValueError,
>) -> bool {
    match (a, b) {
        (Value::Integer(x), Value::Integer(y)) => if y == 0 {
            arith_err(r, ValueErrorKind::DivisionByZero, loc)
        } else if x == i64::MIN && y == -1 {
            arith_err(r, ValueErrorKind::IntegerOverflow { op: BinOp::Divide }, loc)
        } else {
            r == Ok::<ArithOutcome, ValueError>(ArithOutcome::Concrete(Value::Integer(trunc_div(x as int, y as int) as i64)))
        },
        (Value::Integer(x), Value::Float(g)) => r == pending(
            BinOp::Divide,
            FloatOperand::FromInt(x),
            FloatOperand::FromBits(g),
        ),
        (Value::Float(f), Value::Float(g)) => r == pending(
            BinOp::Divide,
            FloatOperand::FromBits(f),
            FloatOperand::FromBits(g),
        ),
        (Value::Float(f), Value::Integer(y)) => r == pending(
            BinOp::Divide,
            FloatOperand::FromBits(f),
            FloatOperand::FromInt(y),
        ),
        _ => arith_err(r, ValueErrorKind::InvalidTypes { op: BinOp::Divide }, loc),
    }
}

/// A slice argument, or its documented default where none was given.
pub open spec fn given_or(a: Option<Value>, d: i64) -> Value {
    match a {
        Some(v) => v,
        None => Value::Integer(d),
    }
}

/// How many rounds a slice walk from `i` to `end` still has before it.
pub open spec fn steps_left(i: int, end: int) -> int {
    if i < end {
        end - i
    } else {
        0
    }
}

/// Does a slice walk from `i` by `step` while `i < end` keep every visited
/// index inside a subject of length `n`?
pub open spec fn slice_ok(n: int, i: int, end: int, step: int) -> bool
    decreases steps_left(i, end),
        when step >= 1
{
    if i >= end {
        true
    } else {
        0 <= i < n && slice_ok(n, i + step, end, step)
    }
}

/// The characters a slice walk from `i` by `step` while `i < end` collects.
pub open spec fn slice_text(s: Seq<char>, i: int, end: int, step: int) -> Seq<char>
    decreases steps_left(i, end),
        when step >= 1
{
    if i >= end {
        Seq::<char>::empty()
    } else {
        seq![s[i]] + slice_text(s, i + step, end, step)
    }
}

/// Did the slice fail exactly this way, at exactly this location?
pub open spec fn slice_err(r: Result<Value, ValueError>, kind: ValueErrorKind, loc: Location) -> bool {
    match r {
        Err(e) => e.kind == kind && e.location == loc,
        _ => false,
    }
}

/// Did the slice finish with a string holding exactly this text?
pub open spec fn slice_ok_string(r: Result<Value, ValueError>, text: Seq<char>) -> bool {
    match r {
        Ok(Value::String(u)) => u@ == text,
        _ => false,
    }
}

/// The slicing contract.  Only a string can be sliced; `start` defaults to
/// 0, `step` to 1 and `end` to the subject's length; any given bound must be
/// an integer.  A zero step, a negative step and a visited index off the
/// subject are each their own error; otherwise the walk collects the
/// characters at `start`, `start + step`, … while the index stays below
/// `end`.
pub open spec fn slice_post(
    subject: Value,
    start: Option<Value>,
    end: Option<Value>,
    step: Option<Value>,
    loc: Location,
    r: Result<Value, ValueError>,
) -> bool {
    match subject {
        Value::String(sv) => {
            let a = given_or(start, 0);
            let e = given_or(end, sv@.len() as i64);
            let st = given_or(step, 1);
            match (a, e, st) {
                (Value::Integer(av), Value::Integer(ev), Value::Integer(stv)) => if stv == 0 {
                    slice_err(r, ValueErrorKind::ZeroStep, loc)
                } else if stv < 0 {
                    slice_err(r, ValueErrorKind::NegativeStep, loc)
                } else if !slice_ok(sv@.len() as int, av as int, ev as int, stv as int) {
                    slice_err(r, ValueErrorKind::SliceOutOfRange, loc)
                } else {
                    slice_ok_string(r, slice_text(sv@, av as int, ev as int, stv as int))
                },
                _ => slice_err(r, ValueErrorKind::InvalidSliceTypes, loc),
            }
        },
        _ => slice_err(r, ValueErrorKind::NotSliceable, loc),
    }
}

/// Truncating division of 64-bit values stays inside 64 bits, except for
/// `i64::MIN / -1`.
proof fn lemma_trunc_div_bounds(x: int, d: int)
    requires
        i64::MIN <= x <= i64::MAX,
        i64::MIN <= d <= i64::MAX,
        d != 0,
        !(x == i64::MIN && d == -1),
    ensures
        i64::MIN <= trunc_div(x, d) <= i64::MAX,
{
    if x == 0 {
    } else if x > 0 && d > 0 {
        lemma_div_pos_is_pos(x, d);
        lemma_div_nonincreasing(x, d);
    } else if x < 0 && d < 0 {
        lemma_div_pos_is_pos(x * -1, d * -1);
        lemma_div_nonincreasing(x * -1, d * -1);
        if d <= -2 {
            lemma_div_is_ordered_by_denominator(x * -1, 2, d * -1);
            lemma_div_nonincreasing(x * -1, 2);
        }
    } else if x < 0 {
        lemma_div_pos_is_pos(x * -1, d);
        lemma_div_nonincreasing(x * -1, d);
    } else {
        lemma_div_pos_is_pos(x, d * -1);
        lemma_div_nonincreasing(x, d * -1);
    }
}

/// Repeating once more appends one more copy.
proof fn lemma_repeat_snoc(text: Seq<char>, n: nat)
    ensures
        repeat_text(text, n + 1) == repeat_text(text, n) + text,
    decreases n,
{
    if n == 0 {
        assert(text + repeat_text(text, 0) =~= repeat_text(text, 0) + text);
    } else {
        lemma_repeat_snoc(text, (n - 1) as nat);
        assert(text + (repeat_text(text, (n - 1) as nat) + text) =~= (text + repeat_text(
            text,
            (n - 1) as nat,
        )) + text);
    }
}

impl Value {
    /// Adds `other` to `self` under the coercion table; `loc` is named in
    /// any error.
    pub fn add(self, other: Value, loc: &Location) -> (r: Result<ArithOutcome, ValueError>)
        ensures
            add_post(self, other, *loc, r),
    {
        match (self, other) {
            (Value::Integer(x), Value::Integer(y)) => match x.checked_add(y) {
                Some(z) => Ok(ArithOutcome::Concrete(Value::Integer(z))),
                None => Err(
                    ValueError {
                        kind: ValueErrorKind::IntegerOverflow { op: BinOp::Add },
                        location: loc.duplicate(),
                    },
                ),
            },
            (Value::Integer(x), Value::Float(g)) => Ok(
                ArithOutcome::FloatPending {
                    op: BinOp::Add,
                    left: FloatOperand::FromInt(x),
                    right: FloatOperand::FromBits(g),
                },
            ),
            (Value::Float(f), Value::Float(g)) => Ok(
                ArithOutcome::FloatPending {
                    op: BinOp::Add,
                    left: FloatOperand::FromBits(f),
                    right: FloatOperand::FromBits(g),
                },
            ),
            (Value::Float(f), Value::Integer(y)) => Ok(
                ArithOutcome::FloatPending {
                    op: BinOp::Add,
                    left: FloatOperand::FromBits(f),
                    right: FloatOperand::FromInt(y),
                },
            ),
            (Value::String(u), Value::String(v)) => Ok(
                ArithOutcome::Concrete(Value::String(u.concat(v.as_str()))),
            ),
            (_, _) => Err(
                ValueError {
                    kind: ValueErrorKind::InvalidTypes { op: BinOp::Add },
                    location: loc.duplicate(),
                },
            ),
        }
    }

    /// Subtracts `other` from `self` under the coercion table.
    pub fn subtract(self, other: Value, loc: &Location) -> (r: Result<ArithOutcome, ValueError>)
        ensures
            subtract_post(self, other, *loc, r),
    {
        match (self, other) {
            (Value::Integer(x), Value::Integer(y)) => match x.checked_sub(y) {
                Some(z) => Ok(ArithOutcome::Concrete(Value::Integer(z))),
                None => Err(
                    ValueError {
                        kind: ValueErrorKind::IntegerOverflow { op: BinOp::Subtract },
                        location: loc.duplicate(),
                    },
                ),
            },
            (Value::Integer(x), Value::Float(g)) => Ok(
                ArithOutcome::FloatPending {
                    op: BinOp::Subtract,
                    left: FloatOperand::FromInt(x),
                    right: FloatOperand::FromBits(g),
                },
            ),
            (Value::Float(f), Value::Float(g)) => Ok(
                ArithOutcome::FloatPending {
                    op: BinOp::Subtract,
                    left: FloatOperand::FromBits(f),
                    right: FloatOperand::FromBits(g),
                },
            ),
            (Value::Float(f), Value::Integer(y)) => Ok(
                ArithOutcome::FloatPending {
                    op: BinOp::Subtract,
                    left: FloatOperand::FromBits(f),
                    right: FloatOperand::FromInt(y),
                },
            ),
            (_, _) => Err(
                ValueError {
                    kind: ValueErrorKind::InvalidTypes { op: BinOp::Subtract },
                    location: loc.duplicate(),
                },
            ),
        }
    }

    /// Multiplies `self` by `other` under the coercion table.  A string
    /// times a non-negative integer repeats the string that many times.
    pub fn multiply(self, other: Value, loc: &Location) -> (r: Result<ArithOutcome, ValueError>)
        ensures
            multiply_post(self, other, *loc, r),
    {
        match (self, other) {
            (Value::Integer(x), Value::Integer(y)) => match x.checked_mul(y) {
                Some(z) => Ok(ArithOutcome::Concrete(Value::Integer(z))),
                None => Err(
                    ValueError {
                        kind: ValueErrorKind::IntegerOverflow { op: BinOp::Multiply },
                        location: loc.duplicate(),
                    },
                ),
            },
            (Value::Integer(x), Value::Float(g)) => Ok(
                ArithOutcome::FloatPending {
                    op: BinOp::Multiply,
                    left: FloatOperand::FromInt(x),
                    right: FloatOperand::FromBits(g),
                },
            ),
            (Value::Float(f), Value::Float(g)) => Ok(
                ArithOutcome::FloatPending {
                    op: BinOp::Multiply,
                    left: FloatOperand::FromBits(f),
                    right: FloatOperand::FromBits(g),
                },
            ),
            (Value::Float(f), Value::Integer(y)) => Ok(
                ArithOutcome::FloatPending {
                    op: BinOp::Multiply,
                    left: FloatOperand::FromBits(f),
                    right: FloatOperand::FromInt(y),
                },
            ),
            (Value::String(u), Value::Integer(n)) => {
                if n < 0 {
                    Err(
                        ValueError {
                            kind: ValueErrorKind::NegativeRepeat { count: n },
                            location: loc.duplicate(),
                        },
                    )
                } else {
                    let mut out = String::new();
                    let mut j: i64 = 0;
                    while j < n
                        invariant
                            0 <= j <= n,
                            out@ == repeat_text(u@, j as nat),
                        decreases n - j,
                    {
                        out.append(u.as_str());
                        proof {
                            lemma_repeat_snoc(u@, j as nat);
                        }
                        j = j + 1;
                    }
                    Ok(ArithOutcome::Concrete(Value::String(out)))
                }
            },
            (_, _) => Err(
                ValueError {
                    kind: ValueErrorKind::InvalidTypes { op: BinOp::Multiply },
                    location: loc.duplicate(),
                },
            ),
        }
    }

    /// Divides `self` by `other` under the coercion table.  Integer division
    /// truncates toward zero; a zero integer divisor and the one overflowing
    /// quotient are errors.
    pub fn divide(self, other: Value, loc: &Location) -> (r: Result<ArithOutcome, ValueError>)
        ensures
            divide_post(self, other, *loc, r),
    {
        match (self, other) {
            (Value::Integer(x), Value::Integer(y)) => {
                if y == 0 {
                    Err(
                        ValueError {
                            kind: ValueErrorKind::DivisionByZero,
                            location: loc.duplicate(),
                        },
                    )
                } else if x == i64::MIN && y == -1 {
                    Err(
                        ValueError {
                            kind: ValueErrorKind::IntegerOverflow { op: BinOp::Divide },
                            location: loc.duplicate(),
                        },
                    )
                } else {
                    proof {
                        lemma_trunc_div_bounds(x as int, y as int);
                    }
                    match x.checked_div(y) {
                        Some(q) => Ok(ArithOutcome::Concrete(Value::Integer(q))),
                        None => Err(
                            ValueError {
                                kind: ValueErrorKind::DivisionByZero,
                                location: loc.duplicate(),
                            },
                        ),
                    }
                }
            },
            (Value::Integer(x), Value::Float(g)) => Ok(
                ArithOutcome::FloatPending {
                    op: BinOp::Divide,
                    left: FloatOperand::FromInt(x),
                    right: FloatOperand::FromBits(g),
                },
            ),
            (Value::Float(f), Value::Float(g)) => Ok(
                ArithOutcome::FloatPending {
                    op: BinOp::Divide,
                    left: FloatOperand::FromBits(f),
                    right: FloatOperand::FromBits(g),
                },
            ),
            (Value::Float(f), Value::Integer(y)) => Ok(
                ArithOutcome::FloatPending {
                    op: BinOp::Divide,
                    left: FloatOperand::FromBits(f),
                    right: FloatOperand::FromInt(y),
                },
            ),
            (_, _) => Err(
                ValueError {
                    kind: ValueErrorKind::InvalidTypes { op: BinOp::Divide },
                    location: loc.duplicate(),
                },
            ),
        }
    }

    /// Slices `self`: a bounded, steppable extraction over a string, per
    /// `slice_post`.  The walk collects the character at `start`, then
    /// `start + step`, and so on while the index stays below `end`; an index
    /// off the subject, a zero step and a negative step are each errors.
    #[verifier::loop_isolation(false)]
    pub fn slice(
        self,
        start: Option<Value>,
        end: Option<Value>,
        step: Option<Value>,
        loc: &Location,
    ) -> (r: Result<Value, ValueError>)
        ensures
            slice_post(self, start, end, step, *loc, r),
    {
        match self {
            Value::String(s) => {
                let ghost sv = s@;
                let ghost n = s@.len() as int;
                let length = s.as_str().unicode_len();
                let start_v = match start {
                    Some(v) => v,
                    None => Value::Integer(0),
                };
                let end_v = match end {
                    Some(v) => v,
                    None => Value::Integer(length as i64),
                };
                let step_v = match step {
                    Some(v) => v,
                    None => Value::Integer(1),
                };
                match (start_v, end_v, step_v) {
                    (Value::Integer(a), Value::Integer(e), Value::Integer(st)) => {
                        if st == 0 {
                            return Err(
                                ValueError {
                                    kind: ValueErrorKind::ZeroStep,
                                    location: loc.duplicate(),
                                },
                            );
                        }
                        if st < 0 {
                            return Err(
                                ValueError {
                                    kind: ValueErrorKind::NegativeStep,
                                    location: loc.duplicate(),
                                },
                            );
                        }
                        let mut out = String::new();
                        let mut i: i128 = a as i128;
                        let e_wide: i128 = e as i128;
                        let st_wide: i128 = st as i128;
                        while i < e_wide
                            invariant
                                a as int <= i as int,
                                (slice_ok(n, a as int, e as int, st as int) <==> slice_ok(
                                    n,
                                    i as int,
                                    e as int,
                                    st as int,
                                )),
                                (slice_ok(n, i as int, e as int, st as int) ==> slice_text(
                                    sv,
                                    a as int,
                                    e as int,
                                    st as int,
                                ) == out@ + slice_text(sv, i as int, e as int, st as int)),
                            decreases steps_left(i as int, e_wide as int),
                        {
                            if i < 0 || i >= length as i128 {
                                return Err(
                                    ValueError {
                                        kind: ValueErrorKind::SliceOutOfRange,
                                        location: loc.duplicate(),
                                    },
                                );
                            }
                            let idx = i as usize;
                            let ghost out_before = out@;
                            out.append(s.as_str().substring_char(idx, idx + 1));
                            proof {
                                assert(sv.subrange(i as int, i as int + 1) =~= seq![
                                    sv[i as int],
                                ]);
                                assert(slice_text(sv, i as int, e as int, st as int) == seq![
                                    sv[i as int],
                                ] + slice_text(sv, i as int + st as int, e as int, st as int));
                                assert(out_before + (seq![sv[i as int]] + slice_text(
                                    sv,
                                    i as int + st as int,
                                    e as int,
                                    st as int,
                                )) =~= out@ + slice_text(
                                    sv,
                                    i as int + st as int,
                                    e as int,
                                    st as int,
                                ));
                            }
                            i = i + st_wide;
                        }
                        proof {
                            assert(slice_text(sv, i as int, e as int, st as int)
                                =~= Seq::<char>::empty());
                            assert(out@ + Seq::<char>::empty() =~= out@);
                        }
                        Ok(Value::String(out))
                    },
                    (_, _, _) => Err(
                        ValueError {
                            kind: ValueErrorKind::InvalidSliceTypes,
                            location: loc.duplicate(),
                        },
                    ),
                }
            },
            _ => Err(
                ValueError { kind: ValueErrorKind::NotSliceable, location: loc.duplicate() },
            ),
        }
    }
}

} // verus!
