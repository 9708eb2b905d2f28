//! The values of `#if` conditions.

use crate::preproc::substitute::{is_punct_at, kind_at, punct_at};
use crate::preproc::token::{tokens_view, KindV, Token, TokenKind, TokenV};
use crate::text::{chars_of, str_eq};
use vstd::prelude::*;

verus! {

/// How many different values there are.
pub open spec fn span() -> int {
    0x1_0000_0000_0000_0000
}

/// The 64 bits that stand for a number.
pub open spec fn wrap(n: int) -> u64 {
    (n % span()) as u64
}

/// A value of preprocessor arithmetic: 64 bits, and whether they are read
/// as an unsigned number.
#[derive(Debug, Clone, Copy, PartialEq, Eq, Structural)]
pub struct PpVal {
    pub bits: u64,
    pub unsigned_: bool,
}

/// 64 bits read in two's complement.
pub open spec fn signed_value(bits: u64) -> int {
    if bits < 0x8000_0000_0000_0000 {
        bits as int
    } else {
        bits - span()
    }
}

pub open spec fn int_val(n: int) -> PpVal {
    PpVal { bits: wrap(n), unsigned_: false }
}

pub open spec fn bool_val(b: bool) -> PpVal {
    PpVal {
        bits: if b {
            1
        } else {
            0
        },
        unsigned_: false,
    }
}

/// Division that rounds towards zero.
pub open spec fn quotient(a: int, b: int) -> int {
    let q = abs(a) / abs(b);
    if (a < 0) == (b < 0) {
        q
    } else {
        -q
    }
}

/// What is left of a division that rounds towards zero: it has the sign of
/// the dividend.
pub open spec fn remainder(a: int, b: int) -> int {
    let r = abs(a) % abs(b);
    if a < 0 {
        -r
    } else {
        r
    }
}

pub open spec fn abs(n: int) -> int {
    if n < 0 {
        -n
    } else {
        n
    }
}

impl PpVal {
    pub open spec fn is_true(self) -> bool {
        self.bits != 0
    }

    /// The type of an operation on two values is unsigned if either is.
    pub open spec fn mixed_unsigned(self, other: PpVal) -> bool {
        self.unsigned_ || other.unsigned_
    }

    /// Comparison in the common type.
    pub open spec fn less(self, other: PpVal) -> bool {
        if self.mixed_unsigned(other) {
            self.bits < other.bits
        } else {
            signed_value(self.bits) < signed_value(other.bits)
        }
    }

    /// `/` and `%` in the common type; nothing can be divided by zero, so
    /// that gives 0.
    pub open spec fn divided(self, other: PpVal, rem: bool) -> PpVal {
        let unsigned_ = self.mixed_unsigned(other);
        let bits = if other.bits == 0 {
            0
        } else if unsigned_ {
            if rem {
                (self.bits % other.bits) as u64
            } else {
                (self.bits / other.bits) as u64
            }
        } else if rem {
            wrap(remainder(signed_value(self.bits), signed_value(other.bits)))
        } else {
            wrap(quotient(signed_value(self.bits), signed_value(other.bits)))
        };
        PpVal { bits, unsigned_ }
    }

    /// `>>` keeps the sign of a signed value.
    pub open spec fn shifted_right(self, by: u64) -> PpVal {
        PpVal {
            bits: if self.unsigned_ || self.bits < 0x8000_0000_0000_0000 {
                self.bits >> by
            } else {
                !(!self.bits >> by)
            },
            unsigned_: self.unsigned_,
        }
    }
}

/// The binary operators of conditions.
pub enum BinOp {
    Or,
    And,
    BitOr,
    BitXor,
    BitAnd,
    Eq,
    Ne,
    Le,
    Ge,
    Lt,
    Gt,
    Shl,
    Shr,
    Plus,
    Minus,
    Times,
    Div,
    Rem,
}

/// The binary operator at `pos` that binds as tightly as `level` says: 0 is
/// `||`, 9 is `*`.
pub open spec fn operator_at(level: int, ts: Seq<TokenV>, pos: int) -> Option<BinOp> {
    if level == 0 && punct_at(ts, pos, "||"@) {
        Some(BinOp::Or)
    } else if level == 1 && punct_at(ts, pos, "&&"@) {
        Some(BinOp::And)
    } else if level == 2 && punct_at(ts, pos, "|"@) {
        Some(BinOp::BitOr)
    } else if level == 3 && punct_at(ts, pos, "^"@) {
        Some(BinOp::BitXor)
    } else if level == 4 && punct_at(ts, pos, "&"@) {
        Some(BinOp::BitAnd)
    } else if level == 5 && punct_at(ts, pos, "=="@) {
        Some(BinOp::Eq)
    } else if level == 5 && punct_at(ts, pos, "!="@) {
        Some(BinOp::Ne)
    } else if level == 6 && punct_at(ts, pos, "<="@) {
        Some(BinOp::Le)
    } else if level == 6 && punct_at(ts, pos, ">="@) {
        Some(BinOp::Ge)
    } else if level == 6 && punct_at(ts, pos, "<"@) {
        Some(BinOp::Lt)
    } else if level == 6 && punct_at(ts, pos, ">"@) {
        Some(BinOp::Gt)
    } else if level == 7 && punct_at(ts, pos, "<<"@) {
        Some(BinOp::Shl)
    } else if level == 7 && punct_at(ts, pos, ">>"@) {
        Some(BinOp::Shr)
    } else if level == 8 && punct_at(ts, pos, "+"@) {
        Some(BinOp::Plus)
    } else if level == 8 && punct_at(ts, pos, "-"@) {
        Some(BinOp::Minus)
    } else if level == 9 && punct_at(ts, pos, "*"@) {
        Some(BinOp::Times)
    } else if level == 9 && punct_at(ts, pos, "/"@) {
        Some(BinOp::Div)
    } else if level == 9 && punct_at(ts, pos, "%"@) {
        Some(BinOp::Rem)
    } else {
        None
    }
}

/// What an operator makes of two values. Arithmetic is modulo 2^64;
/// comparisons and logic give 0 or 1; a shift takes the last six bits of its
/// amount and has the type of what is shifted.
pub open spec fn operate(op: BinOp, a: PpVal, b: PpVal) -> PpVal {
    let unsigned_ = a.mixed_unsigned(b);
    match op {
        BinOp::Or => bool_val(a.is_true() || b.is_true()),
        BinOp::And => bool_val(a.is_true() && b.is_true()),
        BinOp::BitOr => PpVal { bits: a.bits | b.bits, unsigned_ },
        BinOp::BitXor => PpVal { bits: a.bits ^ b.bits, unsigned_ },
        BinOp::BitAnd => PpVal { bits: a.bits & b.bits, unsigned_ },
        BinOp::Eq => bool_val(a.bits == b.bits),
        BinOp::Ne => bool_val(a.bits != b.bits),
        BinOp::Le => bool_val(!b.less(a)),
        BinOp::Ge => bool_val(!a.less(b)),
        BinOp::Lt => bool_val(a.less(b)),
        BinOp::Gt => bool_val(b.less(a)),
        BinOp::Shl => PpVal { bits: a.bits << ((b.bits % 64) as u64), unsigned_: a.unsigned_ },
        BinOp::Shr => a.shifted_right((b.bits % 64) as u64),
        BinOp::Plus => PpVal { bits: wrap(a.bits + b.bits), unsigned_ },
        BinOp::Minus => PpVal { bits: wrap(a.bits - b.bits), unsigned_ },
        BinOp::Times => PpVal { bits: wrap(a.bits * b.bits), unsigned_ },
        BinOp::Div => a.divided(b, false),
        BinOp::Rem => a.divided(b, true),
    }
}

/// How far an evaluation has come: the value, the position behind what was
/// read, and whether something was malformed.
pub struct EvalV {
    pub val: PpVal,
    pub pos: int,
    pub err: bool,
}

/// Behind the parenthesis that closes the group at `pos`, and whether there
/// is one. `depth` groups are open already.
pub open spec fn group_end(ts: Seq<TokenV>, pos: int, depth: int) -> (int, bool)
    decreases ts.len() - pos,
{
    if pos < 0 || pos >= ts.len() {
        (pos, false)
    } else if punct_at(ts, pos, "("@) {
        group_end(ts, pos + 1, depth + 1)
    } else if punct_at(ts, pos, ")"@) {
        if depth == 1 {
            (pos + 1, true)
        } else {
            group_end(ts, pos + 1, depth - 1)
        }
    } else {
        group_end(ts, pos + 1, depth)
    }
}

/// A conditional expression: `c ? a : b`, or `c` alone. Its type is the
/// common type of both arms.
pub open spec fn eval_ternary(ts: Seq<TokenV>, pos: int, err: bool) -> EvalV
    decreases ts.len() - pos, 40int,
{
    let c = eval_level(ts, 0, pos, err);
    if c.pos >= pos && punct_at(ts, c.pos, "?"@) {
        let a = eval_ternary(ts, c.pos + 1, c.err);
        let b = if !punct_at(ts, a.pos, ":"@) {
            EvalV { val: int_val(0), pos: a.pos, err: true }
        } else if a.pos >= c.pos {
            eval_ternary(ts, a.pos + 1, a.err)
        } else {
            a
        };
        let chosen = if c.val.is_true() {
            a.val
        } else {
            b.val
        };
        EvalV {
            val: PpVal { bits: chosen.bits, unsigned_: a.val.mixed_unsigned(b.val) },
            pos: b.pos,
            err: b.err,
        }
    } else {
        c
    }
}

/// Lower levels come first.
pub open spec fn level_rank(level: int) -> int {
    if 0 <= level <= 10 {
        2 * (12 - level) + 1
    } else {
        30
    }
}

/// Operands of `level` with the operators of that level between them, which
/// associate to the left.
pub open spec fn eval_level(ts: Seq<TokenV>, level: int, pos: int, err: bool) -> EvalV
    decreases ts.len() - pos, level_rank(level),
{
    if level < 0 || level >= 10 {
        eval_unary(ts, pos, err)
    } else {
        let first = eval_level(ts, level + 1, pos, err);
        if pos <= first.pos <= ts.len() {
            eval_rest(ts, level, first)
        } else {
            first
        }
    }
}

/// An operand of `level` that has been read, and the operators of that level
/// behind it.
pub open spec fn eval_rest(ts: Seq<TokenV>, level: int, left: EvalV) -> EvalV
    decreases ts.len() - left.pos, level_rank(level) - 1,
{
    match operator_at(level, ts, left.pos) {
        Some(op) => {
            let right = eval_level(ts, level + 1, left.pos + 1, left.err);
            let both = EvalV { val: operate(op, left.val, right.val), ..right };
            if left.pos < right.pos <= ts.len() {
                eval_rest(ts, level, both)
            } else {
                both
            }
        },
        None => left,
    }
}

/// Prefix operators.
pub open spec fn eval_unary(ts: Seq<TokenV>, pos: int, err: bool) -> EvalV
    decreases ts.len() - pos, 2int,
{
    if punct_at(ts, pos, "!"@) {
        let v = eval_unary(ts, pos + 1, err);
        EvalV { val: bool_val(!v.val.is_true()), ..v }
    } else if punct_at(ts, pos, "~"@) {
        let v = eval_unary(ts, pos + 1, err);
        EvalV { val: PpVal { bits: !v.val.bits, unsigned_: v.val.unsigned_ }, ..v }
    } else if punct_at(ts, pos, "-"@) {
        let v = eval_unary(ts, pos + 1, err);
        EvalV { val: PpVal { bits: wrap(-(v.val.bits as int)), unsigned_: v.val.unsigned_ }, ..v }
    } else if punct_at(ts, pos, "+"@) {
        eval_unary(ts, pos + 1, err)
    } else {
        eval_primary(ts, pos, err)
    }
}

/// Literals, groups and names. A name that is still there stands for 0, with
/// the group behind it if there is one, but for `true`.
pub open spec fn eval_primary(ts: Seq<TokenV>, pos: int, err: bool) -> EvalV
    decreases ts.len() - pos, 1int,
{
    match kind_at(ts, pos) {
        None => EvalV { val: int_val(0), pos, err: true },
        Some(KindV::Number(s)) => EvalV { val: int_literal(s), pos: pos + 1, err },
        Some(KindV::Char(s)) => EvalV { val: int_val(char_code(s)), pos: pos + 1, err },
        Some(KindV::Punct(p)) => if p == "("@ {
            let v = eval_ternary(ts, pos + 1, err);
            if punct_at(ts, v.pos, ")"@) {
                EvalV { pos: v.pos + 1, ..v }
            } else {
                EvalV { err: true, ..v }
            }
        } else {
            EvalV { val: int_val(0), pos: pos + 1, err: true }
        },
        Some(KindV::Identifier(name)) => if name == "true"@ {
            EvalV { val: int_val(1), pos: pos + 1, err }
        } else if name == "false"@ {
            EvalV { val: int_val(0), pos: pos + 1, err }
        } else if punct_at(ts, pos + 1, "("@) {
            let (end, closed) = group_end(ts, pos + 1, 0);
            EvalV { val: int_val(0), pos: end, err: err || !closed }
        } else {
            EvalV { val: int_val(0), pos: pos + 1, err }
        },
        Some(_) => EvalV { val: int_val(0), pos: pos + 1, err: true },
    }
}

/// Whether a condition holds: it is well formed, nothing is left over, and
/// its value is not 0.
pub open spec fn condition_holds(ts: Seq<TokenV>) -> bool {
    let r = eval_ternary(ts, 0, false);
    !r.err && r.pos == ts.len() && r.val.is_true()
}

/// What a digit is worth, in the given base.
pub open spec fn digit_value(c: char, radix: nat) -> Option<nat> {
    let d = if '0' <= c <= '9' {
        c as nat - '0' as nat
    } else if 'a' <= c <= 'z' {
        c as nat - 'a' as nat + 10
    } else if 'A' <= c <= 'Z' {
        c as nat - 'A' as nat + 10
    } else {
        radix as int
    };
    if d < radix {
        Some(d as nat)
    } else {
        None
    }
}

/// The number that the first `n` digits stand for, if they all are digits.
pub open spec fn digits_value(s: Seq<char>, n: int, radix: nat) -> Option<nat>
    decreases n,
{
    if n <= 0 {
        Some(0)
    } else {
        match (digits_value(s, n - 1, radix), digit_value(s[n - 1], radix)) {
            (Some(a), Some(d)) => Some(a * radix + d),
            _ => None,
        }
    }
}

/// The unsigned number that a text stands for: at least one digit, with an
/// optional `+` before them, and no more than 128 bits.
pub open spec fn parsed_number(s: Seq<char>, radix: nat) -> Option<nat> {
    let t = if s.len() > 0 && s[0] == '+' {
        s.skip(1)
    } else {
        s
    };
    match digits_value(t, t.len() as int, radix) {
        Some(v) => if t.len() > 0 && v <= u128::MAX {
            Some(v)
        } else {
            None
        },
        None => None,
    }
}

pub open spec fn is_suffix_char(c: char) -> bool {
    c == 'u' || c == 'U' || c == 'l' || c == 'L'
}

/// Where the suffix of a literal that ends at `end` begins.
pub open spec fn suffix_start(s: Seq<char>, end: int) -> int
    decreases end,
{
    if 0 < end <= s.len() && is_suffix_char(s[end - 1]) {
        suffix_start(s, end - 1)
    } else {
        end
    }
}

/// Whether a suffix makes a literal unsigned.
pub open spec fn has_unsigned_suffix(s: Seq<char>, from: int) -> bool {
    exists|i: int| from <= i < s.len() && (#[trigger] s[i] == 'u' || s[i] == 'U')
}

/// The digits of a literal without suffix, and their base.
pub open spec fn radix_digits(t: Seq<char>) -> (Seq<char>, nat) {
    if t.len() >= 2 && t[0] == '0' && (t[1] == 'x' || t[1] == 'X') {
        (t.skip(2), 16)
    } else if t.len() >= 2 && t[0] == '0' && (t[1] == 'b' || t[1] == 'B') {
        (t.skip(2), 2)
    } else if t.len() > 1 && t[0] == '0' {
        (t.skip(1), 8)
    } else {
        (t, 10)
    }
}

/// The value of an integer literal. One that does not fit the signed type is
/// unsigned; a text that is none counts as 0.
pub open spec fn int_literal(s: Seq<char>) -> PpVal {
    let end = suffix_start(s, s.len() as int);
    let (digits, radix) = radix_digits(s.take(end));
    match parsed_number(digits, radix) {
        Some(v) => PpVal {
            bits: wrap(v as int),
            unsigned_: has_unsigned_suffix(s, end) || v > i64::MAX,
        },
        None => int_val(0),
    }
}

/// The number that the hexadecimal digits from `i` on stand for, `v` being
/// what came before them.
pub open spec fn hex_run(s: Seq<char>, i: int, v: int) -> int
    decreases s.len() - i,
{
    if 0 <= i < s.len() && digit_value(s[i], 16) is Some {
        hex_run(s, i + 1, v * 16 + digit_value(s[i], 16)->0)
    } else {
        v
    }
}

/// The number that at most `room` octal digits from `i` on stand for, `v`
/// being what came before them.
pub open spec fn octal_run(s: Seq<char>, i: int, room: int, v: int) -> int
    decreases room,
{
    if room > 0 && 0 <= i < s.len() && digit_value(s[i], 8) is Some {
        octal_run(s, i + 1, room - 1, v * 8 + digit_value(s[i], 8)->0)
    } else {
        v
    }
}

/// The number that a character constant stands for.
pub open spec fn char_code(s: Seq<char>) -> int {
    if s.len() == 0 {
        0
    } else if s[0] != '\\' {
        s[0] as u32 as int
    } else if s.len() == 1 {
        0
    } else {
        let c = s[1];
        if c == 'n' {
            10
        } else if c == 't' {
            9
        } else if c == 'r' {
            13
        } else if c == 'a' {
            7
        } else if c == 'b' {
            8
        } else if c == 'f' {
            12
        } else if c == 'v' {
            11
        } else if c == 'x' {
            hex_run(s, 2, 0)
        } else if '0' <= c <= '7' {
            octal_run(s, 2, 2, c as u32 - '0' as u32)
        } else {
            c as u32 as int
        }
    }
}

impl PpVal {
    fn zero() -> (r: PpVal)
        ensures
            r == int_val(0),
    {
        PpVal { bits: 0, unsigned_: false }
    }

    fn from_bool(b: bool) -> (r: PpVal)
        ensures
            r == bool_val(b),
    {
        PpVal {
            bits: if b {
                1
            } else {
                0
            },
            unsigned_: false,
        }
    }

    fn truthy(self) -> (r: bool)
        ensures
            r == self.is_true(),
    {
        self.bits != 0
    }

    fn either_unsigned(self, other: PpVal) -> (r: bool)
        ensures
            r == self.mixed_unsigned(other),
    {
        self.unsigned_ || other.unsigned_
    }

    fn lt(self, other: PpVal) -> (r: bool)
        ensures
            r == self.less(other),
    {
        let a_neg = self.bits >= 0x8000_0000_0000_0000;
        let b_neg = other.bits >= 0x8000_0000_0000_0000;
        if self.either_unsigned(other) || a_neg == b_neg {
            self.bits < other.bits
        } else {
            a_neg
        }
    }

    /// The magnitude of a signed value.
    fn magnitude(self) -> (r: u64)
        ensures
            r == abs(signed_value(self.bits)),
    {
        if self.bits < 0x8000_0000_0000_0000 {
            self.bits
        } else {
            neg_bits(self.bits)
        }
    }

    /// `/` and `%` in the common type; dividing by zero gives 0.
    fn divide(self, other: PpVal, rem: bool) -> (r: PpVal)
        ensures
            r == self.divided(other, rem),
    {
        let unsigned_ = self.either_unsigned(other);
        if other.bits == 0 {
            return PpVal { bits: 0, unsigned_ };
        }
        if unsigned_ {
            let bits = if rem {
                self.bits % other.bits
            } else {
                self.bits / other.bits
            };
            return PpVal { bits, unsigned_ };
        }
        let a = self.magnitude();
        let b = other.magnitude();
        let a_neg = self.bits >= 0x8000_0000_0000_0000;
        let b_neg = other.bits >= 0x8000_0000_0000_0000;
        let bits = if rem {
            let m = a % b;
            if a_neg {
                neg_bits(m)
            } else {
                m
            }
        } else {
            let q = a / b;
            if a_neg == b_neg {
                q
            } else {
                neg_bits(q)
            }
        };
        PpVal { bits, unsigned_ }
    }
}

/// Two's complement.
fn neg_bits(b: u64) -> (r: u64)
    ensures
        r == wrap(-(b as int)),
{
    if b == 0 {
        0
    } else {
        u64::MAX - b + 1
    }
}

fn add_bits(a: u64, b: u64) -> (r: u64)
    ensures
        r == wrap(a + b),
{
    let s = (a as u128) + (b as u128);
    if s >= 0x1_0000_0000_0000_0000 {
        (s - 0x1_0000_0000_0000_0000) as u64
    } else {
        s as u64
    }
}

fn sub_bits(a: u64, b: u64) -> (r: u64)
    ensures
        r == wrap(a - b),
{
    if a >= b {
        a - b
    } else {
        u64::MAX - (b - a) + 1
    }
}

fn mul_bits(a: u64, b: u64) -> (r: u64)
    ensures
        r == wrap(a * b),
{
    assert(a * b <= 0xffff_ffff_ffff_ffff * 0xffff_ffff_ffff_ffff) by (nonlinear_arith)
        requires
            a <= 0xffff_ffff_ffff_ffff,
            b <= 0xffff_ffff_ffff_ffff,
    ;
    let p = (a as u128) * (b as u128);
    (p % 0x1_0000_0000_0000_0000) as u64
}

/// Reads the value of a condition off its tokens.
struct PpExprParser<'a> {
    toks: &'a [Token],
    pos: usize,
    /// Set on any syntax error.
    err: bool,
}

impl<'a> PpExprParser<'a> {
    spec fn ts(&self) -> Seq<TokenV> {
        tokens_view(self.toks@)
    }

    spec fn wf(&self) -> bool {
        self.pos <= self.toks@.len()
    }

    /// The state behind an evaluation that began at `self`.
    spec fn at(&self, val: PpVal) -> EvalV {
        EvalV { val, pos: self.pos as int, err: self.err }
    }

    fn peek_punct(&self, p: &str) -> (r: bool)
        ensures
            r == punct_at(self.ts(), self.pos as int, p@),
    {
        is_punct_at(self.toks, self.pos, p)
    }

    fn eat(&mut self, p: &str) -> (r: bool)
        ensures
            r == punct_at(old(self).ts(), old(self).pos as int, p@),
            final(self).toks == old(self).toks,
            final(self).err == old(self).err,
            final(self).pos == if r {
                old(self).pos + 1
            } else {
                old(self).pos as int
            },
            r ==> old(self).pos < old(self).toks@.len(),
    {
        let n = self.toks.len();
        if self.peek_punct(p) {
            self.pos = self.pos + 1;
            true
        } else {
            false
        }
    }

    fn ternary(&mut self) -> (v: PpVal)
        requires
            old(self).wf(),
        ensures
            final(self).wf(),
            final(self).toks == old(self).toks,
            final(self).pos >= old(self).pos,
            final(self).at(v) == eval_ternary(old(self).ts(), old(self).pos as int, old(self).err),
        decreases old(self).toks@.len() - old(self).pos, 40int,
    {
        let c = self.logical_or();
        if self.eat("?") {
            let a = self.ternary();
            let b = if self.eat(":") {
                self.ternary()
            } else {
                self.err = true;
                PpVal::zero()
            };
            let chosen = if c.truthy() {
                a
            } else {
                b
            };
            return PpVal { bits: chosen.bits, unsigned_: a.either_unsigned(b) };
        }
        c
    }

    fn logical_or(&mut self) -> (v: PpVal)
        requires
            old(self).wf(),
        ensures
            final(self).wf(),
            final(self).toks == old(self).toks,
            final(self).pos >= old(self).pos,
            final(self).at(v) == eval_level(old(self).ts(), 0, old(self).pos as int, old(self).err),
        decreases old(self).toks@.len() - old(self).pos, 25int,
    {
        let mut v = self.logical_and();
        while self.eat("||")
            invariant
                self.wf(),
                self.toks == old(self).toks,
                self.pos >= old(self).pos,
                eval_rest(self.ts(), 0, self.at(v)) == eval_level(
                    old(self).ts(),
                    0,
                    old(self).pos as int,
                    old(self).err,
                ),
            decreases self.toks@.len() - self.pos,
        {
            let r = self.logical_and();
            v = PpVal::from_bool(v.truthy() || r.truthy());
        }
        v
    }

    fn logical_and(&mut self) -> (v: PpVal)
        requires
            old(self).wf(),
        ensures
            final(self).wf(),
            final(self).toks == old(self).toks,
            final(self).pos >= old(self).pos,
            final(self).at(v) == eval_level(old(self).ts(), 1, old(self).pos as int, old(self).err),
        decreases old(self).toks@.len() - old(self).pos, 23int,
    {
        let mut v = self.bit_or();
        while self.eat("&&")
            invariant
                self.wf(),
                self.toks == old(self).toks,
                self.pos >= old(self).pos,
                eval_rest(self.ts(), 1, self.at(v)) == eval_level(
                    old(self).ts(),
                    1,
                    old(self).pos as int,
                    old(self).err,
                ),
            decreases self.toks@.len() - self.pos,
        {
            let r = self.bit_or();
            v = PpVal::from_bool(v.truthy() && r.truthy());
        }
        v
    }

    fn bit_or(&mut self) -> (v: PpVal)
        requires
            old(self).wf(),
        ensures
            final(self).wf(),
            final(self).toks == old(self).toks,
            final(self).pos >= old(self).pos,
            final(self).at(v) == eval_level(old(self).ts(), 2, old(self).pos as int, old(self).err),
        decreases old(self).toks@.len() - old(self).pos, 21int,
    {
        let mut v = self.bit_xor();
        while self.eat("|")
            invariant
                self.wf(),
                self.toks == old(self).toks,
                self.pos >= old(self).pos,
                eval_rest(self.ts(), 2, self.at(v)) == eval_level(
                    old(self).ts(),
                    2,
                    old(self).pos as int,
                    old(self).err,
                ),
            decreases self.toks@.len() - self.pos,
        {
            let r = self.bit_xor();
            v = PpVal { bits: v.bits | r.bits, unsigned_: v.either_unsigned(r) };
        }
        v
    }

    fn bit_xor(&mut self) -> (v: PpVal)
        requires
            old(self).wf(),
        ensures
            final(self).wf(),
            final(self).toks == old(self).toks,
            final(self).pos >= old(self).pos,
            final(self).at(v) == eval_level(old(self).ts(), 3, old(self).pos as int, old(self).err),
        decreases old(self).toks@.len() - old(self).pos, 19int,
    {
        let mut v = self.bit_and();
        while self.eat("^")
            invariant
                self.wf(),
                self.toks == old(self).toks,
                self.pos >= old(self).pos,
                eval_rest(self.ts(), 3, self.at(v)) == eval_level(
                    old(self).ts(),
                    3,
                    old(self).pos as int,
                    old(self).err,
                ),
            decreases self.toks@.len() - self.pos,
        {
            let r = self.bit_and();
            v = PpVal { bits: v.bits ^ r.bits, unsigned_: v.either_unsigned(r) };
        }
        v
    }

    fn bit_and(&mut self) -> (v: PpVal)
        requires
            old(self).wf(),
        ensures
            final(self).wf(),
            final(self).toks == old(self).toks,
            final(self).pos >= old(self).pos,
            final(self).at(v) == eval_level(old(self).ts(), 4, old(self).pos as int, old(self).err),
        decreases old(self).toks@.len() - old(self).pos, 17int,
    {
        let mut v = self.equality();
        while self.eat("&")
            invariant
                self.wf(),
                self.toks == old(self).toks,
                self.pos >= old(self).pos,
                eval_rest(self.ts(), 4, self.at(v)) == eval_level(
                    old(self).ts(),
                    4,
                    old(self).pos as int,
                    old(self).err,
                ),
            decreases self.toks@.len() - self.pos,
        {
            let r = self.equality();
            v = PpVal { bits: v.bits & r.bits, unsigned_: v.either_unsigned(r) };
        }
        v
    }

    fn equality(&mut self) -> (v: PpVal)
        requires
            old(self).wf(),
        ensures
            final(self).wf(),
            final(self).toks == old(self).toks,
            final(self).pos >= old(self).pos,
            final(self).at(v) == eval_level(old(self).ts(), 5, old(self).pos as int, old(self).err),
        decreases old(self).toks@.len() - old(self).pos, 15int,
    {
        let mut v = self.relational();
        loop
            invariant
                self.wf(),
                self.toks == old(self).toks,
                self.pos >= old(self).pos,
                eval_rest(self.ts(), 5, self.at(v)) == eval_level(
                    old(self).ts(),
                    5,
                    old(self).pos as int,
                    old(self).err,
                ),
            decreases self.toks@.len() - self.pos,
        {
            if self.eat("==") {
                let r = self.relational();
                v = PpVal::from_bool(v.bits == r.bits);
            } else if self.eat("!=") {
                let r = self.relational();
                v = PpVal::from_bool(v.bits != r.bits);
            } else {
                return v;
            }
        }
    }

    fn relational(&mut self) -> (v: PpVal)
        requires
            old(self).wf(),
        ensures
            final(self).wf(),
            final(self).toks == old(self).toks,
            final(self).pos >= old(self).pos,
            final(self).at(v) == eval_level(old(self).ts(), 6, old(self).pos as int, old(self).err),
        decreases old(self).toks@.len() - old(self).pos, 13int,
    {
        let mut v = self.shift();
        loop
            invariant
                self.wf(),
                self.toks == old(self).toks,
                self.pos >= old(self).pos,
                eval_rest(self.ts(), 6, self.at(v)) == eval_level(
                    old(self).ts(),
                    6,
                    old(self).pos as int,
                    old(self).err,
                ),
            decreases self.toks@.len() - self.pos,
        {
            if self.eat("<=") {
                let r = self.shift();
                v = PpVal::from_bool(!r.lt(v));
            } else if self.eat(">=") {
                let r = self.shift();
                v = PpVal::from_bool(!v.lt(r));
            } else if self.eat("<") {
                let r = self.shift();
                v = PpVal::from_bool(v.lt(r));
            } else if self.eat(">") {
                let r = self.shift();
                v = PpVal::from_bool(r.lt(v));
            } else {
                return v;
            }
        }
    }

    fn shift(&mut self) -> (v: PpVal)
        requires
            old(self).wf(),
        ensures
            final(self).wf(),
            final(self).toks == old(self).toks,
            final(self).pos >= old(self).pos,
            final(self).at(v) == eval_level(old(self).ts(), 7, old(self).pos as int, old(self).err),
        decreases old(self).toks@.len() - old(self).pos, 11int,
    {
        let mut v = self.additive();
        loop
            invariant
                self.wf(),
                self.toks == old(self).toks,
                self.pos >= old(self).pos,
                eval_rest(self.ts(), 7, self.at(v)) == eval_level(
                    old(self).ts(),
                    7,
                    old(self).pos as int,
                    old(self).err,
                ),
            decreases self.toks@.len() - self.pos,
        {
            if self.eat("<<") {
                let r = self.additive();
                let by: u64 = r.bits % 64;
                v = PpVal { bits: v.bits << by, unsigned_: v.unsigned_ };
            } else if self.eat(">>") {
                let r = self.additive();
                let by: u64 = r.bits % 64;
                let bits = if v.unsigned_ || v.bits < 0x8000_0000_0000_0000 {
                    v.bits >> by
                } else {
                    !(!v.bits >> by)
                };
                v = PpVal { bits, unsigned_: v.unsigned_ };
            } else {
                return v;
            }
        }
    }

    fn additive(&mut self) -> (v: PpVal)
        requires
            old(self).wf(),
        ensures
            final(self).wf(),
            final(self).toks == old(self).toks,
            final(self).pos >= old(self).pos,
            final(self).at(v) == eval_level(old(self).ts(), 8, old(self).pos as int, old(self).err),
        decreases old(self).toks@.len() - old(self).pos, 9int,
    {
        let mut v = self.multiplicative();
        loop
            invariant
                self.wf(),
                self.toks == old(self).toks,
                self.pos >= old(self).pos,
                eval_rest(self.ts(), 8, self.at(v)) == eval_level(
                    old(self).ts(),
                    8,
                    old(self).pos as int,
                    old(self).err,
                ),
            decreases self.toks@.len() - self.pos,
        {
            if self.eat("+") {
                let r = self.multiplicative();
                v = PpVal { bits: add_bits(v.bits, r.bits), unsigned_: v.either_unsigned(r) };
            } else if self.eat("-") {
                let r = self.multiplicative();
                v = PpVal { bits: sub_bits(v.bits, r.bits), unsigned_: v.either_unsigned(r) };
            } else {
                return v;
            }
        }
    }

    fn multiplicative(&mut self) -> (v: PpVal)
        requires
            old(self).wf(),
        ensures
            final(self).wf(),
            final(self).toks == old(self).toks,
            final(self).pos >= old(self).pos,
            final(self).at(v) == eval_level(old(self).ts(), 9, old(self).pos as int, old(self).err),
        decreases old(self).toks@.len() - old(self).pos, 7int,
    {
        let mut v = self.unary();
        assert(eval_level(self.ts(), 10, old(self).pos as int, old(self).err) == self.at(v));
        loop
            invariant
                self.wf(),
                self.toks == old(self).toks,
                self.pos >= old(self).pos,
                eval_rest(self.ts(), 9, self.at(v)) == eval_level(
                    old(self).ts(),
                    9,
                    old(self).pos as int,
                    old(self).err,
                ),
            decreases self.toks@.len() - self.pos,
        {
            let ghost left = self.at(v);
            assert(eval_level(self.ts(), 10, left.pos + 1, left.err) == eval_unary(
                self.ts(),
                left.pos + 1,
                left.err,
            ));
            if self.eat("*") {
                let r = self.unary();
                v = PpVal { bits: mul_bits(v.bits, r.bits), unsigned_: v.either_unsigned(r) };
            } else if self.eat("/") {
                let r = self.unary();
                v = v.divide(r, false);
            } else if self.eat("%") {
                let r = self.unary();
                v = v.divide(r, true);
            } else {
                return v;
            }
        }
    }

    fn unary(&mut self) -> (v: PpVal)
        requires
            old(self).wf(),
        ensures
            final(self).wf(),
            final(self).toks == old(self).toks,
            final(self).pos >= old(self).pos,
            final(self).at(v) == eval_unary(old(self).ts(), old(self).pos as int, old(self).err),
        decreases old(self).toks@.len() - old(self).pos, 2int,
    {
        if self.eat("!") {
            let v = self.unary();
            return PpVal::from_bool(!v.truthy());
        }
        if self.eat("~") {
            let v = self.unary();
            return PpVal { bits: !v.bits, unsigned_: v.unsigned_ };
        }
        if self.eat("-") {
            let v = self.unary();
            return PpVal { bits: neg_bits(v.bits), unsigned_: v.unsigned_ };
        }
        if self.eat("+") {
            return self.unary();
        }
        self.primary()
    }

    /// Passes over the group that begins here.
    fn skip_group(&mut self) -> (closed: bool)
        requires
            old(self).wf(),
        ensures
            final(self).wf(),
            final(self).toks == old(self).toks,
            final(self).err == old(self).err,
            final(self).pos >= old(self).pos,
            (final(self).pos as int, closed) == group_end(old(self).ts(), old(self).pos as int, 0),
    {
        let n = self.toks.len();
        let mut level: i128 = 0;
        while self.pos < n
            invariant
                self.wf(),
                n == self.toks@.len(),
                self.toks == old(self).toks,
                self.err == old(self).err,
                self.pos >= old(self).pos,
                -(self.pos as int) <= level <= self.pos,
                group_end(self.ts(), self.pos as int, level as int) == group_end(
                    old(self).ts(),
                    old(self).pos as int,
                    0,
                ),
            decreases n - self.pos,
        {
            if self.peek_punct("(") {
                level = level + 1;
            } else if self.peek_punct(")") {
                level = level - 1;
                if level == 0 {
                    self.pos = self.pos + 1;
                    return true;
                }
            }
            self.pos = self.pos + 1;
        }
        false
    }

    fn primary(&mut self) -> (v: PpVal)
        requires
            old(self).wf(),
        ensures
            final(self).wf(),
            final(self).toks == old(self).toks,
            final(self).pos >= old(self).pos,
            final(self).at(v) == eval_primary(old(self).ts(), old(self).pos as int, old(self).err),
        decreases old(self).toks@.len() - old(self).pos, 1int,
    {
        if self.pos >= self.toks.len() {
            self.err = true;
            return PpVal::zero();
        }
        let toks = self.toks;
        match &toks[self.pos].kind {
            TokenKind::Number(s) => {
                self.pos = self.pos + 1;
                parse_pp_int(s.as_str())
            },
            TokenKind::Char(s) => {
                self.pos = self.pos + 1;
                PpVal { bits: char_value(s.as_str()), unsigned_: false }
            },
            TokenKind::Punct(p) => {
                if str_eq(p.as_str(), "(") {
                    self.pos = self.pos + 1;
                    let v = self.ternary();
                    if !self.eat(")") {
                        self.err = true;
                    }
                    v
                } else {
                    self.pos = self.pos + 1;
                    self.err = true;
                    PpVal::zero()
                }
            },
            TokenKind::Identifier(name) => {
                self.pos = self.pos + 1;
                if str_eq(name.as_str(), "true") {
                    return PpVal { bits: 1, unsigned_: false };
                }
                if str_eq(name.as_str(), "false") {
                    return PpVal::zero();
                }
                if self.peek_punct("(") {
                    if !self.skip_group() {
                        self.err = true;
                    }
                }
                PpVal::zero()
            },
            _ => {
                self.pos = self.pos + 1;
                self.err = true;
                PpVal::zero()
            },
        }
    }
}

/// Whether a fully expanded condition holds.
pub fn eval_pp_tokens(toks: &[Token]) -> (r: bool)
    ensures
        r == condition_holds(tokens_view(toks@)),
{
    let mut p = PpExprParser { toks, pos: 0, err: false };
    let v = p.ternary();
    if p.err || p.pos != p.toks.len() {
        return false;
    }
    v.truthy()
}

fn digit_of(c: char, radix: u32) -> (r: Option<u32>)
    requires
        radix <= 36,
    ensures
        match r {
            Some(d) => digit_value(c, radix as nat) == Some(d as nat) && d < radix,
            None => digit_value(c, radix as nat) is None,
        },
{
    let d = if '0' <= c && c <= '9' {
        c as u32 - '0' as u32
    } else if 'a' <= c && c <= 'z' {
        c as u32 - 'a' as u32 + 10
    } else if 'A' <= c && c <= 'Z' {
        c as u32 - 'A' as u32 + 10
    } else {
        radix
    };
    if d < radix {
        Some(d)
    } else {
        None
    }
}

/// More digits do not make a number smaller.
proof fn digits_value_grows(s: Seq<char>, n: int, m: int, radix: nat)
    requires
        0 <= n <= m,
        radix >= 1,
        digits_value(s, n, radix) is Some,
    ensures
        digits_value(s, m, radix) is Some ==> digits_value(s, m, radix)->0 >= digits_value(
            s,
            n,
            radix,
        )->0,
    decreases m - n,
{
    if n < m {
        digits_value_grows(s, n, m - 1, radix);
        if digits_value(s, m, radix) is Some {
            let a = digits_value(s, m - 1, radix)->0;
            assert(a * radix >= a) by (nonlinear_arith)
                requires
                    radix >= 1,
            ;
        }
    }
}

/// One bad digit spoils the number.
proof fn digits_value_spoilt(s: Seq<char>, n: int, m: int, radix: nat)
    requires
        0 <= n <= m,
        digits_value(s, n, radix) is None,
    ensures
        digits_value(s, m, radix) is None,
    decreases m - n,
{
    if n < m {
        digits_value_spoilt(s, n, m - 1, radix);
    }
}

/// The number that the characters from `start` on stand for.
pub(crate) fn parse_number(s: &Vec<char>, start: usize, end: usize, radix: u32) -> (r: Option<u128>)
    requires
        2 <= radix <= 36,
        start <= end <= s@.len(),
    ensures
        match r {
            Some(v) => parsed_number(s@.subrange(start as int, end as int), radix as nat) == Some(
                v as nat,
            ),
            None => parsed_number(s@.subrange(start as int, end as int), radix as nat) is None,
        },
{
    let ghost text = s@.subrange(start as int, end as int);
    let from = if start < end && s[start] == '+' {
        start + 1
    } else {
        start
    };
    let ghost t = s@.subrange(from as int, end as int);
    assert(text.len() > 0 && text[0] == '+' ==> t =~= text.skip(1));
    assert(!(text.len() > 0 && text[0] == '+') ==> t =~= text);
    if from == end {
        return None;
    }
    let mut v: u128 = 0;
    let mut i: usize = from;
    while i < end
        invariant
            2 <= radix <= 36,
            from <= i <= end <= s@.len(),
            t == s@.subrange(from as int, end as int),
            digits_value(t, i - from, radix as nat) == Some(v as nat),
            text == s@.subrange(start as int, end as int),
            parsed_number(text, radix as nat) == (match digits_value(
                t,
                t.len() as int,
                radix as nat,
            ) {
                Some(v) => if t.len() > 0 && v <= u128::MAX {
                    Some(v)
                } else {
                    None
                },
                None => None,
            }),
        decreases end - i,
    {
        assert(t[i - from] == s@[i as int]);
        match digit_of(s[i], radix) {
            Some(d) => {
                let room: u128 = (u128::MAX - d as u128) / (radix as u128);
                if v > room {
                    proof {
                        let m = u128::MAX - d;
                        assert(v * radix + d > u128::MAX) by (nonlinear_arith)
                            requires
                                v >= (u128::MAX - d) / (radix as int) + 1,
                                radix >= 2,
                                d < radix,
                        {
                            let q = (u128::MAX - d) / (radix as int);
                            assert((q + 1) * radix > u128::MAX - d);
                            assert(v * radix >= (q + 1) * radix);
                        }
                        digits_value_grows(t, i - from + 1, t.len() as int, radix as nat);
                    }
                    return None;
                }
                assert(v * radix + d <= u128::MAX) by (nonlinear_arith)
                    requires
                        v <= (u128::MAX - d) / (radix as int),
                        radix >= 2,
                        d < radix,
                {
                    let q = (u128::MAX - d) / (radix as int);
                    assert(q * radix <= u128::MAX - d);
                    assert(v * radix <= q * radix);
                }
                v = v * (radix as u128) + (d as u128);
            },
            None => {
                proof {
                    digits_value_spoilt(t, i - from + 1, t.len() as int, radix as nat);
                }
                return None;
            },
        }
        i = i + 1;
    }
    Some(v)
}

/// The value of an integer literal.
pub fn parse_pp_int(s: &str) -> (r: PpVal)
    ensures
        r == int_literal(s@),
{
    let c = chars_of(s);
    let n = c.len();
    let mut end: usize = n;
    let mut unsigned_suffix = false;
    while end > 0 && (c[end - 1] == 'u' || c[end - 1] == 'U' || c[end - 1] == 'l' || c[end - 1]
        == 'L')
        invariant
            c@ == s@,
            n == c@.len(),
            end <= n,
            suffix_start(s@, end as int) == suffix_start(s@, n as int),
            unsigned_suffix == has_unsigned_suffix(s@, end as int),
        decreases end,
    {
        if c[end - 1] == 'u' || c[end - 1] == 'U' {
            unsigned_suffix = true;
            assert(s@[end - 1] == 'u' || s@[end - 1] == 'U');
        } else {
            proof {
                if has_unsigned_suffix(s@, end - 1) {
                    let i = choose|i: int|
                        end - 1 <= i < s@.len() && (#[trigger] s@[i] == 'u' || s@[i] == 'U');
                    assert(end <= i);
                }
            }
        }
        end = end - 1;
    }
    let (from, radix): (usize, u32) = if end >= 2 && c[0] == '0' && (c[1] == 'x' || c[1] == 'X') {
        (2, 16)
    } else if end >= 2 && c[0] == '0' && (c[1] == 'b' || c[1] == 'B') {
        (2, 2)
    } else if end > 1 && c[0] == '0' {
        (1, 8)
    } else {
        (0, 10)
    };
    proof {
        let t = s@.take(end as int);
        assert(radix_digits(t).0 =~= s@.subrange(from as int, end as int));
    }
    match parse_number(&c, from, end, radix) {
        Some(v) => PpVal {
            bits: (v % 0x1_0000_0000_0000_0000) as u64,
            unsigned_: unsigned_suffix || v > 0x7fff_ffff_ffff_ffff,
        },
        None => PpVal::zero(),
    }
}

/// Carrying on modulo 2^64 gives the same as reducing at the end.
proof fn wrap_carries(v: int, d: int)
    ensures
        wrap(wrap(v) * 16 + d) == wrap(v * 16 + d),
{
    let m = v % span();
    let q = v / span();
    assert(v == q * span() + m);
    assert(v * 16 + d == (q * 16) * span() + (m * 16 + d));
    vstd::arithmetic::div_mod::lemma_mod_multiples_vanish(q * 16, m * 16 + d, span());
    assert(span() * (q * 16) + (m * 16 + d) == v * 16 + d);
}

/// The bits of a character constant's value.
pub fn char_value(s: &str) -> (r: u64)
    ensures
        r == wrap(char_code(s@)),
{
    let c = chars_of(s);
    if c.len() == 0 {
        return 0;
    }
    if c[0] != '\\' {
        return c[0] as u32 as u64;
    }
    if c.len() == 1 {
        return 0;
    }
    let e = c[1];
    if e == 'n' {
        10
    } else if e == 't' {
        9
    } else if e == 'r' {
        13
    } else if e == 'a' {
        7
    } else if e == 'b' {
        8
    } else if e == 'f' {
        12
    } else if e == 'v' {
        11
    } else if e == 'x' {
        let mut v: u64 = 0;
        let mut i: usize = 2;
        let ghost mut exact: int = 0;
        while i < c.len()
            invariant
                c@ == s@,
                s@[0] == '\\',
                s@[1] == 'x',
                2 <= i <= c@.len(),
                v == wrap(exact),
                hex_run(s@, i as int, exact) == hex_run(s@, 2, 0),
            decreases c@.len() - i,
        {
            match digit_of(c[i], 16) {
                Some(d) => {
                    let ghost before = exact;
                    proof {
                        exact = exact * 16 + d;
                        wrap_carries(before, d as int);
                    }
                    let wide: u128 = (v as u128) * 16 + (d as u128);
                    v = (wide % 0x1_0000_0000_0000_0000) as u64;
                    assert(v == wrap(wrap(before) * 16 + d));
                },
                None => {
                    assert(hex_run(s@, i as int, exact) == exact);
                    return v;
                },
            }
            i = i + 1;
        }
        v
    } else if '0' <= e && e <= '7' {
        let mut v: u64 = (e as u32 - '0' as u32) as u64;
        let mut i: usize = 2;
        let mut room: usize = 2;
        while room > 0 && i < c.len()
            invariant
                c@ == s@,
                s@[0] == '\\',
                '0' <= s@[1] <= '7',
                2 <= i <= c@.len(),
                room <= 2,
                room == 2 ==> v <= 7,
                room == 1 ==> v <= 63,
                room == 0 ==> v <= 511,
                octal_run(s@, i as int, room as int, v as int) == octal_run(
                    s@,
                    2,
                    2,
                    s@[1] as u32 - '0' as u32,
                ),
            decreases room,
        {
            match digit_of(c[i], 8) {
                Some(d) => {
                    v = v * 8 + (d as u64);
                },
                None => {
                    return v;
                },
            }
            i = i + 1;
            room = room - 1;
        }
        v
    } else {
        e as u32 as u64
    }
}

} // verus!
