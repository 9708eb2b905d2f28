//! What conditions come to, over the numbers and operators that they are made
//! of.

use crate::preproc::condition::{
    condition_holds, digits_value, eval_level, eval_primary, eval_rest, eval_ternary, eval_unary,
    has_unsigned_suffix, int_literal, is_suffix_char, octal_run, operate, operator_at, radix_digits,
    signed_value, suffix_start, BinOp, EvalV, PpVal,
};
use crate::preproc::token::{KindV, TokenV};
use vstd::prelude::*;

verus! {

/// How tightly a binary operator binds: 0 is the loosest. -1 where a text is
/// none.
pub open spec fn tightness(op: Seq<char>) -> int {
    if op == "||"@ {
        0
    } else if op == "&&"@ {
        1
    } else if op == "|"@ {
        2
    } else if op == "^"@ {
        3
    } else if op == "&"@ {
        4
    } else if op == "=="@ || op == "!="@ {
        5
    } else if op == "<"@ || op == ">"@ || op == "<="@ || op == ">="@ {
        6
    } else if op == "<<"@ || op == ">>"@ {
        7
    } else if op == "+"@ || op == "-"@ {
        8
    } else if op == "*"@ || op == "/"@ || op == "%"@ {
        9
    } else {
        -1
    }
}

proof fn operators_differ()
    ensures
        "||"@.len() == 2 && "||"@[0] == '|' && "||"@[1] == '|',
        "&&"@.len() == 2 && "&&"@[0] == '&' && "&&"@[1] == '&',
        "|"@.len() == 1 && "|"@[0] == '|',
        "^"@.len() == 1 && "^"@[0] == '^',
        "&"@.len() == 1 && "&"@[0] == '&',
        "=="@.len() == 2 && "=="@[0] == '=' && "=="@[1] == '=',
        "!="@.len() == 2 && "!="@[0] == '!' && "!="@[1] == '=',
        "<"@.len() == 1 && "<"@[0] == '<',
        ">"@.len() == 1 && ">"@[0] == '>',
        "<="@.len() == 2 && "<="@[0] == '<' && "<="@[1] == '=',
        ">="@.len() == 2 && ">="@[0] == '>' && ">="@[1] == '=',
        "<<"@.len() == 2 && "<<"@[0] == '<' && "<<"@[1] == '<',
        ">>"@.len() == 2 && ">>"@[0] == '>' && ">>"@[1] == '>',
        "+"@.len() == 1 && "+"@[0] == '+',
        "-"@.len() == 1 && "-"@[0] == '-',
        "*"@.len() == 1 && "*"@[0] == '*',
        "/"@.len() == 1 && "/"@[0] == '/',
        "%"@.len() == 1 && "%"@[0] == '%',
        "!"@.len() == 1 && "!"@[0] == '!',
        "~"@.len() == 1 && "~"@[0] == '~',
        "?"@.len() == 1 && "?"@[0] == '?',
        ":"@.len() == 1 && ":"@[0] == ':',
        "("@.len() == 1 && "("@[0] == '(',
        ")"@.len() == 1 && ")"@[0] == ')',
{
    reveal_strlit("||");
    reveal_strlit("&&");
    reveal_strlit("|");
    reveal_strlit("^");
    reveal_strlit("&");
    reveal_strlit("==");
    reveal_strlit("!=");
    reveal_strlit("<");
    reveal_strlit(">");
    reveal_strlit("<=");
    reveal_strlit(">=");
    reveal_strlit("<<");
    reveal_strlit(">>");
    reveal_strlit("+");
    reveal_strlit("-");
    reveal_strlit("*");
    reveal_strlit("/");
    reveal_strlit("%");
    reveal_strlit("!");
    reveal_strlit("~");
    reveal_strlit("?");
    reveal_strlit(":");
    reveal_strlit("(");
    reveal_strlit(")");
}

/// The operator that a text is.
spec fn named(op: Seq<char>) -> BinOp {
    if op == "||"@ {
        BinOp::Or
    } else if op == "&&"@ {
        BinOp::And
    } else if op == "|"@ {
        BinOp::BitOr
    } else if op == "^"@ {
        BinOp::BitXor
    } else if op == "&"@ {
        BinOp::BitAnd
    } else if op == "=="@ {
        BinOp::Eq
    } else if op == "!="@ {
        BinOp::Ne
    } else if op == "<"@ {
        BinOp::Lt
    } else if op == ">"@ {
        BinOp::Gt
    } else if op == "<="@ {
        BinOp::Le
    } else if op == ">="@ {
        BinOp::Ge
    } else if op == "<<"@ {
        BinOp::Shl
    } else if op == ">>"@ {
        BinOp::Shr
    } else if op == "+"@ {
        BinOp::Plus
    } else if op == "-"@ {
        BinOp::Minus
    } else if op == "*"@ {
        BinOp::Times
    } else if op == "/"@ {
        BinOp::Div
    } else {
        BinOp::Rem
    }
}

/// An operator binds as tightly as it does, and at no other level.
proof fn operator_found(ts: Seq<TokenV>, pos: int, op: Seq<char>, level: int)
    requires
        0 <= pos < ts.len(),
        ts[pos].kind == KindV::Punct(op),
    ensures
        0 <= level && level == tightness(op) ==> operator_at(level, ts, pos) == Some(named(op)),
        level != tightness(op) ==> operator_at(level, ts, pos) is None,
{
    operators_differ();
}

/// Whether no operator from a level on stands at a position.
spec fn stops(ts: Seq<TokenV>, pos: int, low: int) -> bool {
    forall|l: int| low <= l ==> #[trigger] operator_at(l, ts, pos) is None
}

/// What has been read at one level is what is read at a looser one, if no
/// operator in between follows.
proof fn passes(ts: Seq<TokenV>, high: int, low: int, pos: int, err: bool)
    requires
        0 <= low <= high <= 10,
        ({
            let r = eval_level(ts, high, pos, err);
            &&& pos <= r.pos <= ts.len()
            &&& forall|l: int| low <= l < high ==> #[trigger] operator_at(l, ts, r.pos) is None
        }),
    ensures
        eval_level(ts, low, pos, err) == eval_level(ts, high, pos, err),
    decreases high - low,
{
    if low < high {
        let r = eval_level(ts, high, pos, err);
        assert(operator_at(high - 1, ts, r.pos) is None);
        assert(eval_rest(ts, high - 1, r) == r);
        assert(eval_level(ts, high - 1, pos, err) == r);
        passes(ts, high - 1, low, pos, err);
    }
}

/// Whether a value stands at a position by itself, up to another.
spec fn is_operand(ts: Seq<TokenV>, pos: int, end: int, v: PpVal) -> bool {
    &&& 0 <= pos < end <= ts.len()
    &&& eval_unary(ts, pos, false) == (EvalV { val: v, pos: end, err: false })
}

proof fn number_is_operand(ts: Seq<TokenV>, pos: int, text: Seq<char>)
    requires
        0 <= pos < ts.len(),
        ts[pos].kind == KindV::Number(text),
    ensures
        is_operand(ts, pos, pos + 1, int_literal(text)),
{
    assert(eval_unary(ts, pos, false) == eval_primary(ts, pos, false));
}

proof fn operand_at(ts: Seq<TokenV>, level: int, pos: int, end: int, v: PpVal)
    requires
        0 <= level <= 10,
        is_operand(ts, pos, end, v),
        stops(ts, end, level),
    ensures
        eval_level(ts, level, pos, false) == (EvalV { val: v, pos: end, err: false }),
{
    assert(eval_level(ts, 10, pos, false) == eval_unary(ts, pos, false));
    passes(ts, 10, level, pos, false);
}

/// Two operands with an operator between them.
proof fn binary_at(
    ts: Seq<TokenV>,
    level: int,
    pos: int,
    mid: int,
    end: int,
    op: Seq<char>,
    x: PpVal,
    y: PpVal,
)
    requires
        0 <= level <= tightness(op),
        is_operand(ts, pos, mid, x),
        mid < ts.len(),
        ts[mid].kind == KindV::Punct(op),
        is_operand(ts, mid + 1, end, y),
        stops(ts, end, level),
    ensures
        eval_level(ts, level, pos, false) == (EvalV {
            val: operate(named(op), x, y),
            pos: end,
            err: false,
        }),
{
    let t = tightness(op);
    assert(stops(ts, mid, t + 1)) by {
        assert forall|l: int| t + 1 <= l implies #[trigger] operator_at(l, ts, mid) is None by {
            operator_found(ts, mid, op, l);
        }
    }
    operand_at(ts, t + 1, pos, mid, x);
    operator_found(ts, mid, op, t);
    operand_at(ts, t + 1, mid + 1, end, y);
    let left = EvalV { val: x, pos: mid, err: false };
    let both = EvalV { val: operate(named(op), x, y), pos: end, err: false };
    assert(operator_at(t, ts, end) is None);
    assert(eval_rest(ts, t, both) == both);
    assert(eval_rest(ts, t, left) == both);
    assert(eval_level(ts, t, pos, false) == both);
    passes(ts, t, level, pos, false);
}

proof fn nothing_follows(ts: Seq<TokenV>, pos: int, low: int)
    requires
        pos >= ts.len() || !(ts[pos].kind is Punct) || (ts[pos].kind matches KindV::Punct(o)
            && tightness(o) < low),
        pos >= 0,
        low >= 0,
    ensures
        stops(ts, pos, low),
{
    assert forall|l: int| low <= l implies #[trigger] operator_at(l, ts, pos) is None by {
        if pos < ts.len() && ts[pos].kind is Punct {
            operator_found(ts, pos, ts[pos].kind->Punct_0, l);
        }
    }
}

proof fn whole_is_level(ts: Seq<TokenV>, pos: int)
    requires
        ({
            let r = eval_level(ts, 0, pos, false);
            r.pos >= ts.len() || ts[r.pos].kind == KindV::Punct(")"@)
        }),
    ensures
        eval_ternary(ts, pos, false) == eval_level(ts, 0, pos, false),
{
    operators_differ();
}

/// What is written between parentheses is an operand.
proof fn group_is_operand(ts: Seq<TokenV>, pos: int, end: int, v: PpVal)
    requires
        0 <= pos,
        pos + 1 < end < ts.len(),
        ts[pos].kind == KindV::Punct("("@),
        ts[end].kind == KindV::Punct(")"@),
        eval_level(ts, 0, pos + 1, false) == (EvalV { val: v, pos: end, err: false }),
    ensures
        is_operand(ts, pos, end + 1, v),
{
    operators_differ();
    whole_is_level(ts, pos + 1);
    assert(eval_unary(ts, pos, false) == eval_primary(ts, pos, false));
}

/// A number, an operator and a number.
pub open spec fn operation(
    ts: Seq<TokenV>,
    x: Seq<char>,
    op: Seq<char>,
    y: Seq<char>,
) -> bool {
    &&& ts.len() == 3
    &&& ts[0].kind == KindV::Number(x)
    &&& ts[1].kind == KindV::Punct(op)
    &&& ts[2].kind == KindV::Number(y)
}

proof fn operation_value(ts: Seq<TokenV>, x: Seq<char>, op: Seq<char>, y: Seq<char>)
    requires
        operation(ts, x, op, y),
        tightness(op) >= 0,
    ensures
        eval_ternary(ts, 0, false) == (EvalV {
            val: operate(named(op), int_literal(x), int_literal(y)),
            pos: 3,
            err: false,
        }),
{
    number_is_operand(ts, 0, x);
    number_is_operand(ts, 2, y);
    nothing_follows(ts, 3, 0);
    binary_at(ts, 0, 0, 1, 3, op, int_literal(x), int_literal(y));
    whole_is_level(ts, 0);
}

/// A number that is not unsigned is none of those that stand for negative ones.
proof fn literals_are_not_negative(x: Seq<char>)
    ensures
        int_literal(x).unsigned_ || int_literal(x).bits < 0x8000_0000_0000_0000,
{
}

/// Whether a condition is well formed, has a value, and holds if and only if
/// that is not 0.
pub open spec fn comes_to(ts: Seq<TokenV>, bits: int) -> bool {
    let r = eval_ternary(ts, 0, false);
    &&& !r.err
    &&& r.pos == ts.len()
    &&& r.val.bits == bits
    &&& condition_holds(ts) <==> bits != 0
}

/// A sum, a difference and a product of two numbers are those of arithmetic
/// modulo two to the sixty-fourth; a quotient and a remainder those of
/// arithmetic, and 0 where the divisor is.
pub proof fn arithmetic_is_that_of_numbers(
    ts: Seq<TokenV>,
    x: Seq<char>,
    op: Seq<char>,
    y: Seq<char>,
)
    requires
        operation(ts, x, op, y),
    ensures
        ({
            let a = int_literal(x).bits as int;
            let b = int_literal(y).bits as int;
            let all = 0x1_0000_0000_0000_0000int;
            &&& op == "+"@ ==> comes_to(ts, (a + b) % all)
            &&& op == "-"@ ==> comes_to(ts, (a - b) % all)
            &&& op == "*"@ ==> comes_to(ts, (a * b) % all)
            &&& op == "/"@ ==> comes_to(
                ts,
                if b == 0 {
                    0
                } else {
                    a / b
                },
            )
            &&& op == "%"@ ==> comes_to(
                ts,
                if b == 0 {
                    0
                } else {
                    a % b
                },
            )
        }),
{
    operators_differ();
    if tightness(op) >= 0 {
        operation_value(ts, x, op, y);
    }
    literals_are_not_negative(x);
    literals_are_not_negative(y);
    let a = int_literal(x).bits as int;
    let b = int_literal(y).bits as int;
    if b != 0 {
        assert(0 <= a / b <= a && 0 <= a % b < b) by (nonlinear_arith)
            requires
                a >= 0,
                b > 0,
        ;
    }
}

/// Two numbers are compared as numbers, and what comes of it is 1 or 0.
pub proof fn comparisons_are_those_of_numbers(
    ts: Seq<TokenV>,
    x: Seq<char>,
    op: Seq<char>,
    y: Seq<char>,
)
    requires
        operation(ts, x, op, y),
    ensures
        ({
            let a = int_literal(x).bits as int;
            let b = int_literal(y).bits as int;
            &&& op == "=="@ ==> comes_to(ts, if a == b { 1 } else { 0 })
            &&& op == "!="@ ==> comes_to(ts, if a != b { 1 } else { 0 })
            &&& op == "<"@ ==> comes_to(ts, if a < b { 1 } else { 0 })
            &&& op == ">"@ ==> comes_to(ts, if a > b { 1 } else { 0 })
            &&& op == "<="@ ==> comes_to(ts, if a <= b { 1 } else { 0 })
            &&& op == ">="@ ==> comes_to(ts, if a >= b { 1 } else { 0 })
            &&& op == "&&"@ ==> comes_to(ts, if a != 0 && b != 0 { 1 } else { 0 })
            &&& op == "||"@ ==> comes_to(ts, if a != 0 || b != 0 { 1 } else { 0 })
        }),
{
    operators_differ();
    if tightness(op) >= 0 {
        operation_value(ts, x, op, y);
    }
    literals_are_not_negative(x);
    literals_are_not_negative(y);
}

/// The operators on bits work on the bits of two numbers.
pub proof fn bits_are_those_of_numbers(
    ts: Seq<TokenV>,
    x: Seq<char>,
    op: Seq<char>,
    y: Seq<char>,
)
    requires
        operation(ts, x, op, y),
    ensures
        ({
            let a = int_literal(x).bits;
            let b = int_literal(y).bits;
            &&& op == "&"@ ==> comes_to(ts, (a & b) as int)
            &&& op == "|"@ ==> comes_to(ts, (a | b) as int)
            &&& op == "^"@ ==> comes_to(ts, (a ^ b) as int)
            &&& op == "<<"@ && b < 64 ==> comes_to(ts, (a << b) as int)
            &&& op == ">>"@ && b < 64 ==> comes_to(ts, (a >> b) as int)
        }),
{
    operators_differ();
    if tightness(op) >= 0 {
        operation_value(ts, x, op, y);
    }
    literals_are_not_negative(x);
    literals_are_not_negative(y);
}

/// Whether two conditions come to the same.
pub open spec fn same_value(a: Seq<TokenV>, b: Seq<TokenV>) -> bool {
    let x = eval_ternary(a, 0, false);
    let y = eval_ternary(b, 0, false);
    &&& x.val == y.val
    &&& !x.err && !y.err
    &&& condition_holds(a) <==> condition_holds(b)
}

/// Tokens of some kinds.
pub open spec fn of_kinds(ts: Seq<TokenV>, kinds: Seq<KindV>) -> bool {
    ts.len() == kinds.len() && forall|i: int|
        0 <= i < ts.len() ==> (#[trigger] ts[i]).kind == kinds[i]
}

/// `a op b more c` is `a op (b more c)` where the second operator binds more
/// tightly than the first.
pub proof fn tighter_operators_come_first(
    ts: Seq<TokenV>,
    grouped: Seq<TokenV>,
    x: Seq<char>,
    op: Seq<char>,
    y: Seq<char>,
    more: Seq<char>,
    z: Seq<char>,
)
    requires
        0 <= tightness(op) < tightness(more),
        of_kinds(
            ts,
            seq![
                KindV::Number(x),
                KindV::Punct(op),
                KindV::Number(y),
                KindV::Punct(more),
                KindV::Number(z),
            ],
        ),
        of_kinds(
            grouped,
            seq![
                KindV::Number(x),
                KindV::Punct(op),
                KindV::Punct("("@),
                KindV::Number(y),
                KindV::Punct(more),
                KindV::Number(z),
                KindV::Punct(")"@),
            ],
        ),
    ensures
        same_value(ts, grouped),
{
    operators_differ();
    let a = int_literal(x);
    let b = int_literal(y);
    let c = int_literal(z);
    let t = tightness(op);
    let right = operate(named(more), b, c);
    assert(ts[0].kind == KindV::Number(x) && ts[1].kind == KindV::Punct(op) && ts[2].kind
        == KindV::Number(y) && ts[3].kind == KindV::Punct(more) && ts[4].kind == KindV::Number(
        z,
    ));
    assert(grouped[0].kind == KindV::Number(x) && grouped[1].kind == KindV::Punct(op)
        && grouped[2].kind == KindV::Punct("("@) && grouped[3].kind == KindV::Number(y)
        && grouped[4].kind == KindV::Punct(more) && grouped[5].kind == KindV::Number(z)
        && grouped[6].kind == KindV::Punct(")"@));
    number_is_operand(ts, 0, x);
    number_is_operand(ts, 2, y);
    number_is_operand(ts, 4, z);
    nothing_follows(ts, 5, 0);
    nothing_follows(ts, 1, t + 1);
    assert(stops(ts, 5, t + 1)) by {
        nothing_follows(ts, 5, t + 1);
    }
    binary_at(ts, t + 1, 2, 3, 5, more, b, c);
    operand_at(ts, t + 1, 0, 1, a);
    operator_found(ts, 1, op, t);
    let left = EvalV { val: a, pos: 1, err: false };
    let both = EvalV { val: operate(named(op), a, right), pos: 5, err: false };
    assert(operator_at(t, ts, 5) is None);
    assert(eval_rest(ts, t, both) == both);
    assert(eval_rest(ts, t, left) == both);
    assert(eval_level(ts, t, 0, false) == both);
    passes(ts, t, 0, 0, false);
    whole_is_level(ts, 0);

    number_is_operand(grouped, 0, x);
    number_is_operand(grouped, 3, y);
    number_is_operand(grouped, 5, z);
    nothing_follows(grouped, 6, 0);
    binary_at(grouped, 0, 3, 4, 6, more, b, c);
    group_is_operand(grouped, 2, 6, right);
    nothing_follows(grouped, 7, 0);
    binary_at(grouped, 0, 0, 1, 7, op, a, right);
    whole_is_level(grouped, 0);
}

/// `a op b more c` is `(a op b) more c` where the second operator binds no more
/// tightly than the first: operators of one kind go from left to right.
pub proof fn other_operators_go_from_left_to_right(
    ts: Seq<TokenV>,
    grouped: Seq<TokenV>,
    x: Seq<char>,
    op: Seq<char>,
    y: Seq<char>,
    more: Seq<char>,
    z: Seq<char>,
)
    requires
        0 <= tightness(more) <= tightness(op),
        of_kinds(
            ts,
            seq![
                KindV::Number(x),
                KindV::Punct(op),
                KindV::Number(y),
                KindV::Punct(more),
                KindV::Number(z),
            ],
        ),
        of_kinds(
            grouped,
            seq![
                KindV::Punct("("@),
                KindV::Number(x),
                KindV::Punct(op),
                KindV::Number(y),
                KindV::Punct(")"@),
                KindV::Punct(more),
                KindV::Number(z),
            ],
        ),
    ensures
        same_value(ts, grouped),
{
    operators_differ();
    let a = int_literal(x);
    let b = int_literal(y);
    let c = int_literal(z);
    let t = tightness(op);
    let u = tightness(more);
    let first = operate(named(op), a, b);
    assert(ts[0].kind == KindV::Number(x) && ts[1].kind == KindV::Punct(op) && ts[2].kind
        == KindV::Number(y) && ts[3].kind == KindV::Punct(more) && ts[4].kind == KindV::Number(
        z,
    ));
    assert(grouped[0].kind == KindV::Punct("("@) && grouped[1].kind == KindV::Number(x)
        && grouped[2].kind == KindV::Punct(op) && grouped[3].kind == KindV::Number(y)
        && grouped[4].kind == KindV::Punct(")"@) && grouped[5].kind == KindV::Punct(more)
        && grouped[6].kind == KindV::Number(z));
    number_is_operand(ts, 0, x);
    number_is_operand(ts, 2, y);
    number_is_operand(ts, 4, z);
    nothing_follows(ts, 5, 0);
    nothing_follows(ts, 1, t + 1);
    nothing_follows(ts, 3, u + 1);
    nothing_follows(ts, 3, t + 1);
    nothing_follows(ts, 5, u + 1);
    operator_found(ts, 3, more, u);
    operand_at(ts, u + 1, 4, 5, c);
    let one = EvalV { val: first, pos: 3, err: false };
    let both = EvalV { val: operate(named(more), first, c), pos: 5, err: false };
    assert(operator_at(u, ts, 5) is None);
    assert(eval_rest(ts, u, both) == both);
    assert(eval_rest(ts, u, one) == both);
    if u < t {
        binary_at(ts, u + 1, 0, 1, 3, op, a, b);
        assert(eval_level(ts, u, 0, false) == both);
    } else {
        operand_at(ts, t + 1, 0, 1, a);
        operator_found(ts, 1, op, t);
        operand_at(ts, t + 1, 2, 3, b);
        let left = EvalV { val: a, pos: 1, err: false };
        assert(eval_rest(ts, t, left) == both);
        assert(eval_level(ts, t, 0, false) == both);
    }
    passes(ts, u, 0, 0, false);
    whole_is_level(ts, 0);

    number_is_operand(grouped, 1, x);
    number_is_operand(grouped, 3, y);
    number_is_operand(grouped, 6, z);
    nothing_follows(grouped, 4, 0);
    binary_at(grouped, 0, 1, 2, 4, op, a, b);
    group_is_operand(grouped, 0, 4, first);
    nothing_follows(grouped, 7, 0);
    binary_at(grouped, 0, 0, 5, 7, more, first, c);
    whole_is_level(grouped, 0);
}

/// A number by itself, or between parentheses, is that number; `!` turns 0 into
/// 1 and everything else into 0; `~` turns all bits over; `-` is the difference
/// to 0, and `+` changes nothing.
pub proof fn prefixes_change_numbers(ts: Seq<TokenV>, x: Seq<char>, op: Seq<char>)
    requires
        of_kinds(ts, seq![KindV::Punct(op), KindV::Number(x)]),
    ensures
        ({
            let a = int_literal(x).bits;
            &&& op == "!"@ ==> comes_to(ts, if a == 0 { 1 } else { 0 })
            &&& op == "~"@ ==> comes_to(ts, (!a) as int)
            &&& op == "-"@ ==> comes_to(ts, (0 - a) % 0x1_0000_0000_0000_0000)
            &&& op == "+"@ ==> comes_to(ts, a as int)
        }),
{
    operators_differ();
    assert(ts[0].kind == KindV::Punct(op) && ts[1].kind == KindV::Number(x));
    number_is_operand(ts, 1, x);
    nothing_follows(ts, 2, 0);
    let r = eval_unary(ts, 0, false);
    if op == "!"@ || op == "~"@ || op == "-"@ || op == "+"@ {
        assert(r.pos == 2 && !r.err);
        operand_at(ts, 0, 0, 2, r.val);
        whole_is_level(ts, 0);
    }
}

/// A number by itself is that number, and between parentheses too.
pub proof fn numbers_are_themselves(ts: Seq<TokenV>, grouped: Seq<TokenV>, x: Seq<char>)
    requires
        of_kinds(ts, seq![KindV::Number(x)]),
        of_kinds(grouped, seq![KindV::Punct("("@), KindV::Number(x), KindV::Punct(")"@)]),
    ensures
        comes_to(ts, int_literal(x).bits as int),
        comes_to(grouped, int_literal(x).bits as int),
{
    operators_differ();
    assert(ts[0].kind == KindV::Number(x));
    assert(grouped[0].kind == KindV::Punct("("@) && grouped[1].kind == KindV::Number(x)
        && grouped[2].kind == KindV::Punct(")"@));
    number_is_operand(ts, 0, x);
    nothing_follows(ts, 1, 0);
    operand_at(ts, 0, 0, 1, int_literal(x));
    whole_is_level(ts, 0);
    number_is_operand(grouped, 1, x);
    nothing_follows(grouped, 2, 0);
    operand_at(grouped, 0, 1, 2, int_literal(x));
    group_is_operand(grouped, 0, 2, int_literal(x));
    nothing_follows(grouped, 3, 0);
    operand_at(grouped, 0, 0, 3, int_literal(x));
    whole_is_level(grouped, 0);
}

/// `c ? a : b` is `a` where `c` is not 0, and `b` where it is.
pub proof fn alternatives_are_chosen(
    ts: Seq<TokenV>,
    c: Seq<char>,
    x: Seq<char>,
    y: Seq<char>,
)
    requires
        of_kinds(
            ts,
            seq![
                KindV::Number(c),
                KindV::Punct("?"@),
                KindV::Number(x),
                KindV::Punct(":"@),
                KindV::Number(y),
            ],
        ),
    ensures
        comes_to(
            ts,
            if int_literal(c).bits != 0 {
                int_literal(x).bits as int
            } else {
                int_literal(y).bits as int
            },
        ),
{
    operators_differ();
    assert(ts[0].kind == KindV::Number(c) && ts[1].kind == KindV::Punct("?"@) && ts[2].kind
        == KindV::Number(x) && ts[3].kind == KindV::Punct(":"@) && ts[4].kind == KindV::Number(
        y,
    ));
    number_is_operand(ts, 0, c);
    number_is_operand(ts, 2, x);
    number_is_operand(ts, 4, y);
    nothing_follows(ts, 1, 0);
    nothing_follows(ts, 3, 0);
    nothing_follows(ts, 5, 0);
    operand_at(ts, 0, 0, 1, int_literal(c));
    operand_at(ts, 0, 2, 3, int_literal(x));
    operand_at(ts, 0, 4, 5, int_literal(y));
    assert(eval_ternary(ts, 2, false) == eval_level(ts, 0, 2, false));
    assert(eval_ternary(ts, 4, false) == eval_level(ts, 0, 4, false));
}

/// A condition that is missing, or that something follows, does not hold.
pub proof fn malformed_conditions_do_not_hold(ts: Seq<TokenV>, x: Seq<char>, y: Seq<char>)
    ensures
        !condition_holds(Seq::empty()),
        of_kinds(ts, seq![KindV::Number(x), KindV::Number(y)]) ==> !condition_holds(ts),
{
    let none = Seq::<TokenV>::empty();
    nothing_follows(none, 0, 0);
    assert(eval_unary(none, 0, false) == eval_primary(none, 0, false));
    assert(eval_level(none, 10, 0, false) == eval_unary(none, 0, false));
    passes(none, 10, 0, 0, false);
    whole_is_level(none, 0);
    if of_kinds(ts, seq![KindV::Number(x), KindV::Number(y)]) {
        assert(ts[0].kind == KindV::Number(x) && ts[1].kind == KindV::Number(y));
        number_is_operand(ts, 0, x);
        nothing_follows(ts, 1, 0);
        operand_at(ts, 0, 0, 1, int_literal(x));
        assert(eval_ternary(ts, 0, false) == eval_level(ts, 0, 0, false));
    }
}

/// A name that no macro has replaced is 0, but for `true`.
pub proof fn unknown_names_are_zero(ts: Seq<TokenV>, name: Seq<char>)
    requires
        of_kinds(ts, seq![KindV::Identifier(name)]),
    ensures
        comes_to(ts, if name == "true"@ { 1 } else { 0 }),
{
    reveal_strlit("true");
    reveal_strlit("false");
    assert(ts[0].kind == KindV::Identifier(name));
    nothing_follows(ts, 1, 0);
    let r = eval_unary(ts, 0, false);
    assert(r == eval_primary(ts, 0, false));
    operand_at(ts, 0, 0, 1, r.val);
    whole_is_level(ts, 0);
}

/// Negative numbers are divided towards 0 and compared as numbers, where
/// neither number is unsigned.
pub proof fn negative_numbers_are_numbers(
    ts: Seq<TokenV>,
    x: Seq<char>,
    op: Seq<char>,
    y: Seq<char>,
)
    requires
        of_kinds(
            ts,
            seq![KindV::Punct("-"@), KindV::Number(x), KindV::Punct(op), KindV::Number(y)],
        ),
        !int_literal(x).unsigned_,
        !int_literal(y).unsigned_,
    ensures
        ({
            let a = int_literal(x).bits as int;
            let b = int_literal(y).bits as int;
            let all = 0x1_0000_0000_0000_0000int;
            &&& op == "/"@ && b != 0 ==> comes_to(ts, (0 - a / b) % all)
            &&& op == "%"@ && b != 0 ==> comes_to(ts, (0 - a % b) % all)
            &&& op == "<"@ ==> comes_to(ts, if 0 - a < b { 1 } else { 0 })
            &&& op == ">"@ ==> comes_to(ts, if 0 - a > b { 1 } else { 0 })
            &&& op == "<="@ ==> comes_to(ts, if 0 - a <= b { 1 } else { 0 })
            &&& op == ">="@ ==> comes_to(ts, if 0 - a >= b { 1 } else { 0 })
            &&& op == "=="@ ==> comes_to(ts, if 0 - a == b { 1 } else { 0 })
        }),
{
    operators_differ();
    assert(ts[0].kind == KindV::Punct("-"@) && ts[1].kind == KindV::Number(x) && ts[2].kind
        == KindV::Punct(op) && ts[3].kind == KindV::Number(y));
    literals_are_not_negative(x);
    literals_are_not_negative(y);
    number_is_operand(ts, 1, x);
    number_is_operand(ts, 3, y);
    nothing_follows(ts, 4, 0);
    let a = int_literal(x).bits as int;
    let b = int_literal(y).bits as int;
    let v = eval_unary(ts, 0, false);
    assert(v.pos == 2 && !v.err);
    if tightness(op) >= 0 {
        binary_at(ts, 0, 0, 2, 4, op, v.val, int_literal(y));
        whole_is_level(ts, 0);
    }
    assert(signed_value(v.val.bits) == 0 - a);
    if b != 0 {
        assert(0 <= a / b <= a && 0 <= a % b < b && a % b <= a) by (nonlinear_arith)
            requires
                a >= 0,
                b > 0,
        ;
        if a == 0 {
            assert(0int / b == 0 && 0int % b == 0) by (nonlinear_arith)
                requires
                    b > 0,
            ;
        }
    }
}

/// What a digit is worth.
pub open spec fn worth(c: char) -> int {
    if '0' <= c <= '9' {
        c as int - '0' as int
    } else if 'a' <= c <= 'z' {
        c as int - 'a' as int + 10
    } else if 'A' <= c <= 'Z' {
        c as int - 'A' as int + 10
    } else {
        36
    }
}

/// Whether a text is made of digits of a base.
pub open spec fn is_number(s: Seq<char>, base: int) -> bool {
    s.len() > 0 && forall|i: int| 0 <= i < s.len() ==> worth(#[trigger] s[i]) < base
}

/// The number that digits stand for in a base: each is worth the base times
/// what the next one is.
pub open spec fn number_of(s: Seq<char>, base: int) -> int
    decreases s.len(),
{
    if s.len() == 0 {
        0
    } else {
        number_of(s.drop_last(), base) * base + worth(s.last())
    }
}

proof fn digits_stand_for(s: Seq<char>, n: int, base: nat)
    requires
        forall|i: int| 0 <= i < s.len() ==> worth(#[trigger] s[i]) < base,
        2 <= base <= 36,
        0 <= n <= s.len(),
    ensures
        digits_value(s, n, base) is Some,
        digits_value(s, n, base)->0 == number_of(s.take(n), base as int),
        0 <= number_of(s.take(n), base as int),
    decreases n,
{
    if n > 0 {
        digits_stand_for(s, n - 1, base);
        assert(s.take(n).drop_last() =~= s.take(n - 1));
        assert(worth(s[n - 1]) < base);
        let before = number_of(s.take(n - 1), base as int);
        assert(before * base >= 0) by (nonlinear_arith)
            requires
                before >= 0,
                base >= 0,
        ;
    }
}

proof fn suffix_begins(s: Seq<char>, t: Seq<char>, end: int)
    requires
        s.len() > 0,
        !is_suffix_char(s.last()),
        forall|i: int| 0 <= i < t.len() ==> is_suffix_char(#[trigger] t[i]),
        s.len() <= end <= s.len() + t.len(),
    ensures
        suffix_start(s + t, end) == s.len(),
    decreases end,
{
    let all = s + t;
    if end > s.len() {
        assert(all[end - 1] == t[end - 1 - s.len()]);
        suffix_begins(s, t, end - 1);
    } else {
        assert(all[end - 1] == s.last());
    }
}

/// Whether a text is a suffix of a number.
pub open spec fn is_suffix(t: Seq<char>) -> bool {
    forall|i: int|
        0 <= i < t.len() ==> (#[trigger] t[i] == 'u' || t[i] == 'U' || t[i] == 'l' || t[i] == 'L')
}

proof fn literal_of(head: Seq<char>, digits: Seq<char>, base: nat, suffix: Seq<char>)
    requires
        is_number(digits, base as int),
        base == 2 || base == 8 || base == 10 || base == 16,
        is_suffix(suffix),
        number_of(digits, base as int) < 0x1_0000_0000_0000_0000,
        radix_digits(head + digits) == (digits, base),
    ensures
        ({
            let v = int_literal(head + digits + suffix);
            let n = number_of(digits, base as int);
            &&& v.bits == n
            &&& v.unsigned_ == (suffix.contains('u') || suffix.contains('U') || n
                >= 0x8000_0000_0000_0000)
        }),
{
    let body = head + digits;
    let all = body + suffix;
    assert(body.last() == digits.last());
    assert(worth(digits[digits.len() - 1]) < 16);
    suffix_begins(body, suffix, all.len() as int);
    assert(all.take(body.len() as int) =~= body);
    digits_stand_for(digits, digits.len() as int, base);
    assert(digits.take(digits.len() as int) =~= digits);
    assert(digits[0] != '+') by {
        assert(worth(digits[0]) < 16);
    }
    let from = body.len() as int;
    if has_unsigned_suffix(all, from) {
        let i = choose|i: int| from <= i < all.len() && (#[trigger] all[i] == 'u' || all[i] == 'U');
        assert(suffix[i - from] == all[i]);
    }
    if suffix.contains('u') {
        let i = choose|i: int| 0 <= i < suffix.len() && suffix[i] == 'u';
        assert(all[from + i] == 'u');
    }
    if suffix.contains('U') {
        let i = choose|i: int| 0 <= i < suffix.len() && suffix[i] == 'U';
        assert(all[from + i] == 'U');
    }
}

/// Digits stand for a number in the base that is written in front of them: ten,
/// but for `0x`, `0b` and a leading `0`. A suffix does not change the number; it
/// is unsigned with `u`, or where it is too large for a signed one.
pub proof fn literals_stand_for_numbers(digits: Seq<char>, suffix: Seq<char>)
    requires
        is_suffix(suffix),
    ensures
        ({
            let marked = suffix.contains('u') || suffix.contains('U');
            let stands_for = |s: Seq<char>, n: int|
                n < 0x1_0000_0000_0000_0000 ==> int_literal(s + suffix).bits == n && int_literal(
                    s + suffix,
                ).unsigned_ == (marked || n >= 0x8000_0000_0000_0000);
            &&& is_number(digits, 10) && (digits[0] != '0' || digits.len() == 1) ==> stands_for(
                digits,
                number_of(digits, 10),
            )
            &&& is_number(digits, 16) ==> stands_for(
                seq!['0', 'x'] + digits,
                number_of(digits, 16),
            ) && stands_for(seq!['0', 'X'] + digits, number_of(digits, 16))
            &&& is_number(digits, 2) ==> stands_for(
                seq!['0', 'b'] + digits,
                number_of(digits, 2),
            ) && stands_for(seq!['0', 'B'] + digits, number_of(digits, 2))
            &&& is_number(digits, 8) ==> stands_for(seq!['0'] + digits, number_of(digits, 8))
        }),
{
    if is_number(digits, 10) && (digits[0] != '0' || digits.len() == 1) {
        let none = Seq::<char>::empty();
        assert(none + digits =~= digits);
        assert(none + digits + suffix =~= digits + suffix);
        if number_of(digits, 10) < 0x1_0000_0000_0000_0000 {
            literal_of(none, digits, 10, suffix);
        }
    }
    if is_number(digits, 16) && number_of(digits, 16) < 0x1_0000_0000_0000_0000 {
        assert((seq!['0', 'x'] + digits).skip(2) =~= digits);
        assert((seq!['0', 'X'] + digits).skip(2) =~= digits);
        literal_of(seq!['0', 'x'], digits, 16, suffix);
        literal_of(seq!['0', 'X'], digits, 16, suffix);
    }
    if is_number(digits, 2) && number_of(digits, 2) < 0x1_0000_0000_0000_0000 {
        assert((seq!['0', 'b'] + digits).skip(2) =~= digits);
        assert((seq!['0', 'B'] + digits).skip(2) =~= digits);
        literal_of(seq!['0', 'b'], digits, 2, suffix);
        literal_of(seq!['0', 'B'], digits, 2, suffix);
    }
    if is_number(digits, 8) && number_of(digits, 8) < 0x1_0000_0000_0000_0000 {
        assert((seq!['0'] + digits).skip(1) =~= digits);
        assert(worth(digits[0]) < 8);
        literal_of(seq!['0'], digits, 8, suffix);
    }
}

/// A character constant is the code of its character; behind a backslash a
/// letter stands for what it does in C.
pub proof fn characters_are_their_codes(ts: Seq<TokenV>, s: Seq<char>, c: char)
    requires
        of_kinds(ts, seq![KindV::Char(s)]),
    ensures
        s == seq![c] && c != '\\' ==> comes_to(ts, c as int),
        s == seq!['\\', 'n'] ==> comes_to(ts, 10),
        s == seq!['\\', 't'] ==> comes_to(ts, 9),
        s == seq!['\\', 'r'] ==> comes_to(ts, 13),
        s == seq!['\\', '0'] ==> comes_to(ts, 0),
        s == seq!['\\', '\\'] ==> comes_to(ts, 92),
        s == seq!['\\', '\''] ==> comes_to(ts, 39),
{
    assert(ts[0].kind == KindV::Char(s));
    nothing_follows(ts, 1, 0);
    let r = eval_unary(ts, 0, false);
    assert(r == eval_primary(ts, 0, false));
    operand_at(ts, 0, 0, 1, r.val);
    whole_is_level(ts, 0);
    if s == seq!['\\', '0'] {
        assert(octal_run(s, 2, 2, 0) == 0);
    }
}

} // verus!
