//! Properties of the language that span several operations: what one
//! instruction undoes of another, how operators relate, and how the text
//! that one part writes is read back by another.
use vstd::prelude::*;
use vstd::set_lib::{lemma_int_range, lemma_map_size, lemma_subset_equality, set_int_range};

use crate::builtins::{native_spec, render_spec, text, NativeOf};
use crate::compiler::{simple_expr, initial_compiler, c_program, scope_get_from, scope_insert, CompilerModel, ScopeModel};
use crate::lexer::{
    char_at, ident_end, is_blank, lemma_ident_end_ge, lemma_line_end_ge, lemma_number_end_ge,
    lemma_string_body_ge, lex, lex_from, line_end, number_end, number_token, operator_tokens,
    single_token, string_body, word_token,
};
use crate::opcode::OpCodeOf;
use crate::shell::{handle, CommandOf, ShellModel};
use crate::text::{
    decimal_value, is_ascii_digit, is_ascii_letter, is_white_space, lead_end, parse_int_spec,
    trail_start, trimmed, unsigned_part,
};
use crate::token::{SpecToken, TokenOf};
use crate::value::{
    digit_char, find_field, find_field_from, int_text, set_field, is_nan_bits, lemma_find_field_from_range,
    nat_text, truthy, value_eq, Native, SpecValue,
};
use crate::vm::{binary_result, compare_spec, CompareOf, CompareOp, initial_globals, SpecStep, add_spec, div_spec, mul_spec, rem_spec, step, ArithOf, StepOf, VMModel};

verus! {

/// Popping right after pushing an integer gives back the machine as it was,
/// two instructions on.
pub proof fn law_pop_undoes_push(m: VMModel, i: i64)
    requires
        m.ip + 2 <= usize::MAX,
    ensures
        ({
            let (m1, s1) = step(m, OpCodeOf::PushInt(i));
            let (m2, s2) = step(m1, OpCodeOf::Pop);
            s1 == StepOf::<SpecValue, Seq<SpecValue>, Seq<char>>::Done
                && s2 == StepOf::<SpecValue, Seq<SpecValue>, Seq<char>>::Done
                && m2 == m.with_ip((m.ip + 2) as usize)
        }),
{
    let (m1, _) = step(m, OpCodeOf::PushInt(i));
    assert(m1.stack.drop_last() =~= m.stack);
}

/// Popping right after duplicating the top of the stack gives back the
/// machine as it was, two instructions on.
pub proof fn law_pop_undoes_dup(m: VMModel)
    requires
        m.ip + 2 <= usize::MAX,
    ensures
        ({
            let (m1, s1) = step(m, OpCodeOf::Dup);
            let (m2, s2) = step(m1, OpCodeOf::Pop);
            s1 == StepOf::<SpecValue, Seq<SpecValue>, Seq<char>>::Done
                && s2 == StepOf::<SpecValue, Seq<SpecValue>, Seq<char>>::Done
                && (m.stack.len() > 0 ==> m2 == m.with_ip((m.ip + 2) as usize))
        }),
{
    let (m1, _) = step(m, OpCodeOf::Dup);
    if m.stack.len() > 0 {
        assert(m1.stack.drop_last() =~= m.stack);
    }
}

/// `!=` pushes the negation of what `==` pushes, on the same operands.
pub proof fn law_ne_negates_eq(m: VMModel)
    requires
        m.stack.len() >= 2,
    ensures
        ({
            let (me, se) = step(m, OpCodeOf::Eq);
            let (mn, sn) = step(m, OpCodeOf::Ne);
            se == sn && me.stack.last() == SpecValue::Bool(value_eq(m.stack[m.stack.len() - 2], m.stack.last()))
                && mn == me.popped().push(SpecValue::Bool(!value_eq(m.stack[m.stack.len() - 2], m.stack.last())))
        }),
{
    let (me, _) = step(m, OpCodeOf::Eq);
    let (mn, _) = step(m, OpCodeOf::Ne);
    assert(m.stack.drop_last().last() == m.stack[m.stack.len() - 2]);
    assert(me.popped().stack =~= m.stack.drop_last().drop_last());
}

/// Negating twice leaves the truth of the value that was on top.
pub proof fn law_not_twice_is_truth(m: VMModel)
    requires
        m.stack.len() >= 1,
        m.ip + 2 <= usize::MAX,
    ensures
        ({
            let (m1, _) = step(m, OpCodeOf::Not);
            let (m2, s2) = step(m1, OpCodeOf::Not);
            s2 == StepOf::<SpecValue, Seq<SpecValue>, Seq<char>>::Done
                && m2 == m.popped().push(SpecValue::Bool(truthy(m.stack.last()))).with_ip((m.ip + 2) as usize)
        }),
{
    let (m1, _) = step(m, OpCodeOf::Not);
    assert(m1.stack.last() == SpecValue::Bool(!truthy(m.stack.last())));
    assert(m1.popped().stack =~= m.popped().stack);
}

/// Integer addition and multiplication do not depend on the order of the
/// operands, overflow included.
pub proof fn law_int_add_mul_commute(x: i64, y: i64)
    ensures
        add_spec(SpecValue::Int(x), SpecValue::Int(y)) == add_spec(SpecValue::Int(y), SpecValue::Int(x)),
        mul_spec(SpecValue::Int(x), SpecValue::Int(y)) == mul_spec(SpecValue::Int(y), SpecValue::Int(x)),
{
    assert(x * y == y * x) by (nonlinear_arith);
}

/// Integer `/` and `%` fit together: where neither divides by zero nor
/// overflows, `(x / y) * y + x % y == x`, and the remainder is smaller than
/// the divisor and has the sign of `x`.
pub proof fn law_int_div_rem(x: i64, y: i64)
    requires
        y != 0,
        !(x == i64::MIN && y == -1),
    ensures
        div_spec(SpecValue::Int(x), SpecValue::Int(y)) matches ArithOf::Value(SpecValue::Int(_)),
        rem_spec(SpecValue::Int(x), SpecValue::Int(y)) matches ArithOf::Value(SpecValue::Int(_)),
        ({
            let q = div_spec(SpecValue::Int(x), SpecValue::Int(y))->Value_0->Int_0;
            let r = rem_spec(SpecValue::Int(x), SpecValue::Int(y))->Value_0->Int_0;
            &&& q * y + r == x
            &&& (if r < 0 { -r } else { r as int }) < (if y < 0 { -y } else { y as int })
            &&& (r == 0 || (r > 0) == (x > 0))
        }),
{
    lemma_truncated(x as int, y as int);
    let q = truncated_quotient(x as int, y as int);
    let r = truncated_remainder(x as int, y as int);
    assert(x.checked_div(y) == Some(q as i64));
    assert(x.checked_rem(y) == Some(r as i64));
    assert(div_spec(SpecValue::Int(x), SpecValue::Int(y)) == ArithOf::<SpecValue, Seq<char>>::Value(SpecValue::Int(q as i64)));
    assert(rem_spec(SpecValue::Int(x), SpecValue::Int(y)) == ArithOf::<SpecValue, Seq<char>>::Value(SpecValue::Int(r as i64)));
}

/// The quotient of `x / d` rounded toward zero.
spec fn truncated_quotient(x: int, d: int) -> int {
    if x == 0 {
        0
    } else if x > 0 && d > 0 {
        x / d
    } else if x < 0 && d < 0 {
        (x * -1) / (d * -1)
    } else if x < 0 {
        ((x * -1) / d) * -1
    } else {
        (x / (d * -1)) * -1
    }
}

/// The remainder that goes with `truncated_quotient`.
spec fn truncated_remainder(x: int, d: int) -> int {
    if x == 0 {
        0
    } else if x > 0 && d > 0 {
        x % d
    } else if x < 0 && d < 0 {
        ((x * -1) % (d * -1)) * -1
    } else if x < 0 {
        ((x * -1) % d) * -1
    } else {
        x % (d * -1)
    }
}

proof fn lemma_truncated(x: int, d: int)
    requires
        d != 0,
        i64::MIN <= x <= i64::MAX,
        i64::MIN <= d <= i64::MAX,
        !(x == i64::MIN && d == -1),
    ensures
        truncated_quotient(x, d) * d + truncated_remainder(x, d) == x,
        i64::MIN <= truncated_quotient(x, d) <= i64::MAX,
        (if truncated_remainder(x, d) < 0 { -truncated_remainder(x, d) } else { truncated_remainder(x, d) })
            < (if d < 0 { -d } else { d }),
        truncated_remainder(x, d) == 0 || (truncated_remainder(x, d) > 0) == (x > 0),
{
    let a = if x < 0 { -x } else { x };
    let b = if d < 0 { -d } else { d };
    vstd::arithmetic::div_mod::lemma_fundamental_div_mod(a, b);
    vstd::arithmetic::div_mod::lemma_mod_pos_bound(a, b);
    vstd::arithmetic::div_mod::lemma_div_pos_is_pos(a, b);
    if b == 1 {
        vstd::arithmetic::div_mod::lemma_div_is_ordered_by_denominator(a, 1, b);
    } else {
        vstd::arithmetic::div_mod::lemma_div_is_ordered_by_denominator(a, 2, b);
    }
    let q = a / b;
    let r = a % b;
    assert(b * q == q * b) by (nonlinear_arith);
    assert((-q) * d == -(q * d)) by (nonlinear_arith);
    assert(q * (-d) == -(q * d)) by (nonlinear_arith);
    if x > 0 && d > 0 {
        assert(truncated_quotient(x, d) == q);
    } else if x < 0 && d < 0 {
        assert(truncated_quotient(x, d) == q);
    } else if x < 0 && d > 0 {
        assert(truncated_quotient(x, d) == -q);
    } else if x > 0 && d < 0 {
        assert(truncated_quotient(x, d) == -q);
    }
}

/// A compiled program always ends by returning `null`.
pub proof fn law_program_ends_with_return(ts: Seq<SpecToken>, st: CompilerModel)
    ensures
        c_program(ts, st) matches Ok(st1) ==> {
            let n = st1.instructions.len();
            n >= 2 && st1.instructions[n - 2] == OpCodeOf::<Seq<char>>::PushNull
                && st1.instructions[n - 1] == OpCodeOf::<Seq<char>>::Return
        },
{
}

/// Lexing from `p` after tokens none of which is `EOF`: a successful result
/// ends with `EOF`, and has it nowhere else.
proof fn lemma_lex_from_eof(cs: Seq<char>, p: int, acc: Seq<SpecToken>)
    requires
        0 <= p,
        forall|i: int| 0 <= i < acc.len() ==> !(#[trigger] acc[i] is EOF),
    ensures
        lex_from(cs, p, acc).0 matches Ok(ts) ==> {
            &&& ts.len() >= 1
            &&& ts.last() is EOF
            &&& forall|i: int| 0 <= i < ts.len() - 1 ==> !(#[trigger] ts[i] is EOF)
        },
    decreases cs.len() - p,
{
    if p >= cs.len() {
        let ts = acc.push(TokenOf::EOF);
        assert forall|i: int| 0 <= i < ts.len() - 1 implies !(#[trigger] ts[i] is EOF) by {
            assert(ts[i] == acc[i]);
        }
    } else {
        let c = cs[p];
        if is_blank(c) {
            lemma_lex_from_eof(cs, p + 1, acc);
        } else {
            if c == '\n' {
                lemma_push_no_eof(acc, TokenOf::Newline);
                lemma_lex_from_eof(cs, p + 1, acc.push(TokenOf::Newline));
            } else if c == '/' {
                if char_at(cs, p + 1) == Some('/') {
                    lemma_line_end_ge(cs, p + 1);
                    lemma_lex_from_eof(cs, line_end(cs, p), acc);
                } else {
                    lemma_push_no_eof(acc, TokenOf::Divide);
                    lemma_lex_from_eof(cs, p + 1, acc.push(TokenOf::Divide));
                }
            } else if c == '"' {
                let (body, e) = string_body(cs, p + 1, Seq::empty());
                lemma_string_body_ge(cs, p + 1, Seq::empty());
                lemma_push_no_eof(acc, TokenOf::String(body));
                lemma_lex_from_eof(cs, e, acc.push(TokenOf::String(body)));
            } else if is_ascii_digit(c) {
                let (e, dot) = number_end(cs, p, false);
                lemma_number_end_ge(cs, p + 1, false);
                let t = number_token(cs.subrange(p, e), dot);
                lemma_push_no_eof(acc, t);
                lemma_lex_from_eof(cs, e, acc.push(t));
            } else if is_ascii_letter(c) || c == '_' {
                let e = ident_end(cs, p);
                lemma_ident_end_ge(cs, p + 1);
                let t = word_token(cs.subrange(p, e));
                lemma_push_no_eof(acc, t);
                lemma_lex_from_eof(cs, e, acc.push(t));
            } else if single_token(c) is Some {
                let t = single_token(c)->0;
                lemma_push_no_eof(acc, t);
                lemma_lex_from_eof(cs, p + 1, acc.push(t));
            } else if operator_tokens(c) is Some {
                let (t1, t2) = operator_tokens(c)->0;
                if char_at(cs, p + 1) == Some('=') {
                    lemma_push_no_eof(acc, t2);
                    lemma_lex_from_eof(cs, p + 2, acc.push(t2));
                } else {
                    lemma_push_no_eof(acc, t1);
                    lemma_lex_from_eof(cs, p + 1, acc.push(t1));
                }
            }
        }
    }
}

proof fn lemma_push_no_eof(acc: Seq<SpecToken>, t: SpecToken)
    requires
        forall|i: int| 0 <= i < acc.len() ==> !(#[trigger] acc[i] is EOF),
        !(t is EOF),
    ensures
        forall|i: int| 0 <= i < acc.push(t).len() ==> !(#[trigger] acc.push(t)[i] is EOF),
{
    assert forall|i: int| 0 <= i < acc.push(t).len() implies !(#[trigger] acc.push(t)[i] is EOF) by {
        if i < acc.len() {
            assert(acc.push(t)[i] == acc[i]);
        }
    }
}

/// The tokens of a source text that lexes end with one `EOF`, and hold no
/// other.
pub proof fn law_lex_ends_with_eof(cs: Seq<char>)
    ensures
        lex(cs) matches Ok(ts) ==> {
            &&& ts.len() >= 1
            &&& ts.last() is EOF
            &&& forall|i: int| 0 <= i < ts.len() - 1 ==> !(#[trigger] ts[i] is EOF)
        },
{
    lemma_lex_from_eof(cs, 0, Seq::empty());
}

/// The decimal text of a natural number is one or more digits, whose value
/// is the number.
pub proof fn lemma_nat_text_digits(n: nat)
    ensures
        nat_text(n).len() >= 1,
        forall|i: int| 0 <= i < nat_text(n).len() ==> is_ascii_digit(#[trigger] nat_text(n)[i]),
        decimal_value(nat_text(n)) == n,
    decreases n,
{
    if n < 10 {
        let s = nat_text(n);
        assert(s.drop_last() =~= Seq::<char>::empty());
        assert(decimal_value(s.drop_last()) == 0);
    } else {
        lemma_nat_text_digits(n / 10);
        let s = nat_text(n);
        assert(s.drop_last() =~= nat_text(n / 10));
        assert(s.last() == digit_char(n % 10));
        assert forall|i: int| 0 <= i < s.len() implies is_ascii_digit(#[trigger] s[i]) by {
            if i < s.len() - 1 {
                assert(s[i] == nat_text(n / 10)[i]);
            }
        }
    }
}

proof fn lemma_number_end_digits(cs: Seq<char>, p: int)
    requires
        0 <= p <= cs.len(),
        forall|i: int| p <= i < cs.len() ==> is_ascii_digit(#[trigger] cs[i]),
    ensures
        number_end(cs, p, false) == (cs.len() as int, false),
    decreases cs.len() - p,
{
    if p < cs.len() {
        lemma_number_end_digits(cs, p + 1);
    }
}

/// The lexer reads back the decimal text of a non-negative integer as that
/// integer.
pub proof fn law_lex_reads_integer_text(n: i64)
    requires
        n >= 0,
    ensures
        lex(int_text(n as int)) == Ok::<Seq<SpecToken>, crate::error::SpecError>(seq![TokenOf::Integer(n), TokenOf::EOF]),
{
    let cs = nat_text(n as nat);
    assert(int_text(n as int) == cs);
    lemma_nat_text_digits(n as nat);
    lemma_number_end_digits(cs, 0);
    assert(is_ascii_digit(cs[0]));
    assert(cs.subrange(0, cs.len() as int) =~= cs);
    let acc = seq![TokenOf::Integer(n)];
    assert(lex_from(cs, cs.len() as int, acc).0 == Ok::<Seq<SpecToken>, crate::error::SpecError>(acc.push(TokenOf::EOF)));
    assert(acc.push(TokenOf::EOF) =~= seq![TokenOf::Integer(n), TokenOf::EOF]);
}

/// `int` reads back what `str` writes of an integer: the text of an integer
/// value is its decimal text, and that text converts back to the integer.
pub proof fn law_int_reads_str(n: i64)
    ensures
        native_spec(Native::Str, seq![SpecValue::Int(n)]) == NativeOf::<SpecValue, Seq<SpecValue>, Seq<char>>::Render(SpecValue::Int(n)),
        render_spec(SpecValue::Int(n)) == seq![text(int_text(n as int))],
        native_spec(Native::Int, seq![SpecValue::String(int_text(n as int))])
            == NativeOf::<SpecValue, Seq<SpecValue>, Seq<char>>::Value(SpecValue::Int(n)),
{
    let s = int_text(n as int);
    if n >= 0 {
        lemma_nat_text_digits(n as nat);
        assert(unsigned_part(s) == s);
    } else {
        let m = (-(n as int)) as nat;
        lemma_nat_text_digits(m);
        assert(s.drop_first() =~= nat_text(m));
        assert(unsigned_part(s) == nat_text(m));
    }
    assert(parse_int_spec(s) == Some(n));
}

proof fn lemma_lead_end_stops(s: Seq<char>, i: int)
    requires
        0 <= i <= s.len(),
    ensures
        lead_end(s, i) == s.len() || !is_white_space(s[lead_end(s, i)]),
    decreases s.len() - i,
{
    if i < s.len() && is_white_space(s[i]) {
        lemma_lead_end_stops(s, i + 1);
    }
}

proof fn lemma_trail_start_stops(s: Seq<char>, j: int, lo: int)
    requires
        0 <= lo <= j <= s.len(),
    ensures
        trail_start(s, j, lo) == lo || !is_white_space(s[trail_start(s, j, lo) - 1]),
    decreases j - lo,
{
    if lo < j && is_white_space(s[j - 1]) {
        lemma_trail_start_stops(s, j - 1, lo);
    }
}

/// Trimming a trimmed text changes nothing.
pub proof fn law_trim_idempotent(s: Seq<char>)
    ensures
        trimmed(trimmed(s)) == trimmed(s),
{
    let a = lead_end(s, 0);
    crate::text::lemma_lead_end(s, 0);
    let b = trail_start(s, s.len() as int, a);
    crate::text::lemma_trail_start(s, s.len() as int, a);
    let t = s.subrange(a, b);
    if b == a {
        assert(t.len() == 0);
        assert(lead_end(t, 0) == 0);
        assert(trail_start(t, 0, 0) == 0);
        assert(trimmed(t) =~= t);
    } else {
        lemma_lead_end_stops(s, 0);
        lemma_trail_start_stops(s, s.len() as int, a);
        assert(t[0] == s[a]);
        assert(t[t.len() - 1] == s[b - 1]);
        assert(lead_end(t, 0) == 0);
        assert(trail_start(t, t.len() as int, 0) == t.len());
        assert(trimmed(t) =~= t);
    }
}

/// Typing `debug` twice switches debug mode on and off again (or off and
/// on), and keeps both lines in the history.
pub proof fn law_debug_twice(sh: ShellModel)
    ensures
        ({
            let (sh1, c1) = handle(sh, "debug"@);
            let (sh2, c2) = handle(sh1, "debug"@);
            &&& c1 == CommandOf::<Seq<char>>::Debug(!sh.debug_mode)
            &&& c2 == CommandOf::<Seq<char>>::Debug(sh.debug_mode)
            &&& sh2 == ShellModel { history: sh.history.push("debug"@).push("debug"@), ..sh }
        }),
{
    reveal_strlit("debug");
    reveal_strlit("exit");
    reveal_strlit("quit");
    reveal_strlit("clear");
    let d = "debug"@;
    assert(!is_white_space(d[0]));
    assert(!is_white_space(d[4]));
    assert(lead_end(d, 0) == 0);
    assert(trail_start(d, 5, 0) == 5);
    assert(trimmed(d) =~= d);
    assert(d != "exit"@);
    assert(d != "quit"@);
    assert(d[0] != "clear"@[0]);
    assert(d != "clear"@);
}

/// No field name occurs twice.
pub open spec fn distinct_names(f: Seq<(Seq<char>, SpecValue)>) -> bool {
    forall|i: int, j: int| 0 <= i < j < f.len() ==> #[trigger] f[i].0 != #[trigger] f[j].0
}

/// A value with no NaN anywhere in it, and no field name twice in any of
/// its objects and instances.
pub open spec fn plain_value(v: SpecValue) -> bool
    decreases v,
{
    match v {
        SpecValue::Float(f) => !is_nan_bits(f),
        SpecValue::Array(xs) => forall|i: int| 0 <= i < xs.len() ==> plain_value(#[trigger] xs[i]),
        SpecValue::Object(f) => distinct_names(f) && forall|i: int| 0 <= i < f.len() ==> plain_value(#[trigger] f[i].1),
        SpecValue::Instance(_, f) => distinct_names(f) && forall|i: int| 0 <= i < f.len() ==> plain_value(#[trigger] f[i].1),
        _ => true,
    }
}

proof fn lemma_find_distinct_from(f: Seq<(Seq<char>, SpecValue)>, i: int, k: int)
    requires
        distinct_names(f),
        0 <= k <= i < f.len(),
    ensures
        find_field_from(f, f[i].0, k) == Some(i),
    decreases i - k,
{
    if k < i {
        assert(f[k].0 != f[i].0);
        lemma_find_distinct_from(f, i, k + 1);
    }
}

/// `==` holds between a value and itself, unless a NaN is in it or a field
/// name occurs twice in one of its objects.
pub proof fn law_value_eq_reflexive(v: SpecValue)
    requires
        plain_value(v),
    ensures
        value_eq(v, v),
    decreases v,
{
    match v {
        SpecValue::Array(xs) => {
            assert forall|i: int| 0 <= i < xs.len() implies value_eq(#[trigger] xs[i], xs[i]) by {
                law_value_eq_reflexive(xs[i]);
            }
        },
        SpecValue::Object(f) => {
            assert forall|i: int| 0 <= i < f.len() implies match find_field(f, #[trigger] f[i].0) {
                Some(j) => value_eq(f[i].1, f[j].1),
                None => false,
            } by {
                lemma_find_distinct_from(f, i, 0);
                law_value_eq_reflexive(f[i].1);
            }
        },
        SpecValue::Instance(_, f) => {
            assert forall|i: int| 0 <= i < f.len() implies match find_field(f, #[trigger] f[i].0) {
                Some(j) => value_eq(f[i].1, f[j].1),
                None => false,
            } by {
                lemma_find_distinct_from(f, i, 0);
                law_value_eq_reflexive(f[i].1);
            }
        },
        _ => {},
    }
}

/// `return` outside any call leaves the machine where it is: the top of the
/// stack is all that stays on it, the instruction pointer does not move, and
/// the same instruction does the same again.
pub proof fn law_top_level_return_stays(m: VMModel)
    requires
        m.stack.len() >= 1,
        m.call_stack.len() <= 1,
    ensures
        ({
            let (m1, s1) = step(m, OpCodeOf::Return);
            &&& s1 == StepOf::<SpecValue, Seq<SpecValue>, Seq<char>>::Done
            &&& m1 == m.with_stack(seq![m.stack.last()])
            &&& m1.ip == m.ip
            &&& step(m1, OpCodeOf::Return) == (m1, s1)
        }),
{
    let (m1, _) = step(m, OpCodeOf::Return);
    assert(m1.with_stack(seq![m1.stack.last()]).stack =~= m1.stack);
}

/// Some number of `0..n` is sent to `j`.
spec fn reaches(sigma: spec_fn(int) -> int, n: int, j: int) -> bool {
    exists|i: int| 0 <= i < n && #[trigger] sigma(i) == j
}

/// A map of `0..n` into itself that sends no two numbers to the same one
/// reaches every number.
proof fn lemma_injection_onto(n: int, sigma: spec_fn(int) -> int)
    requires
        0 <= n,
        forall|i: int| 0 <= i < n ==> 0 <= #[trigger] sigma(i) < n,
        forall|i: int, k: int| 0 <= i < n && 0 <= k < n && #[trigger] sigma(i) == #[trigger] sigma(k) ==> i == k,
    ensures
        forall|j: int| 0 <= j < n ==> #[trigger] reaches(sigma, n, j),
{
    let dom = set_int_range(0, n);
    lemma_int_range(0, n);
    let img = dom.map(sigma);
    assert(vstd::relations::injective_on(sigma, dom));
    lemma_map_size(dom, img, sigma);
    assert(img.subset_of(dom)) by {
        assert forall|a: int| img.contains(a) implies dom.contains(a) by {
            let x = choose|x: int| dom.contains(x) && a == sigma(x);
        }
    }
    lemma_subset_equality(img, dom);
    assert forall|j: int| 0 <= j < n implies #[trigger] reaches(sigma, n, j) by {
        assert(dom.contains(j));
        assert(img.contains(j));
    }
}

/// The fields `g` hold, under the same names, values equal to those of the
/// fields `f`, and name for name the other way round: `==` on objects and
/// instances is symmetric when no name occurs twice.
proof fn lemma_fields_eq_symmetric(a: SpecValue, f: Seq<(Seq<char>, SpecValue)>, g: Seq<(Seq<char>, SpecValue)>)
    requires
        distinct_names(f),
        distinct_names(g),
        forall|i: int| 0 <= i < f.len() ==> plain_value(#[trigger] f[i].1),
        forall|j: int| 0 <= j < g.len() ==> plain_value(#[trigger] g[j].1),
        f.len() == g.len(),
        forall|i: int| 0 <= i < f.len() ==> match find_field(g, #[trigger] f[i].0) {
            Some(j) => value_eq(f[i].1, g[j].1),
            None => false,
        },
        forall|i: int| 0 <= i < f.len() ==> decreases_to!(a => #[trigger] f[i].1),
    ensures
        forall|j: int| 0 <= j < g.len() ==> match find_field(f, #[trigger] g[j].0) {
            Some(i) => value_eq(g[j].1, f[i].1),
            None => false,
        },
    decreases a, 0int,
{
    let n = f.len() as int;
    let sigma = |i: int| find_field(g, f[i].0)->0;
    assert forall|i: int| 0 <= i < n implies 0 <= #[trigger] sigma(i) < n && g[sigma(i)].0 == f[i].0 by {
        assert(find_field(g, f[i].0) is Some);
        lemma_find_field_from_range(g, f[i].0, 0);
    }
    assert forall|i: int, k: int| 0 <= i < n && 0 <= k < n && #[trigger] sigma(i) == #[trigger] sigma(k) implies i == k by {
        if i != k {
            if i < k {
                assert(f[i].0 != f[k].0);
            } else {
                assert(f[k].0 != f[i].0);
            }
        }
    }
    lemma_injection_onto(n, sigma);
    assert forall|j: int| 0 <= j < g.len() implies match find_field(f, #[trigger] g[j].0) {
        Some(i) => value_eq(g[j].1, f[i].1),
        None => false,
    } by {
        assert(reaches(sigma, n, j));
        let i = choose|i: int| 0 <= i < n && #[trigger] sigma(i) == j;
        assert(g[sigma(i)].0 == f[i].0);
        lemma_find_distinct_from(f, i, 0);
        assert(find_field(g, f[i].0) == Some(j));
        law_value_eq_symmetric(f[i].1, g[j].1);
    }
}

/// `==` is symmetric on values with no field name twice in any object (and
/// no NaN, which equals nothing anyway).
pub proof fn law_value_eq_symmetric(a: SpecValue, b: SpecValue)
    requires
        plain_value(a),
        plain_value(b),
        value_eq(a, b),
    ensures
        value_eq(b, a),
    decreases a, 1int,
{
    match a {
        SpecValue::Array(xs) => {
            let ys = b->Array_0;
            assert forall|i: int| 0 <= i < ys.len() implies value_eq(#[trigger] ys[i], xs[i]) by {
                law_value_eq_symmetric(xs[i], ys[i]);
            }
        },
        SpecValue::Object(f) => {
            let g = b->Object_0;
            lemma_fields_eq_symmetric(a, f, g);
        },
        SpecValue::Instance(_, f) => {
            let g = b->Instance_1;
            lemma_fields_eq_symmetric(a, f, g);
        },
        _ => {},
    }
}

/// Storing the top of the stack into a local and loading that local back:
/// the stored value is pushed again, the stack under it is untouched, the
/// slot holds the value, slots that had to be added below it hold `null`,
/// and the other slots keep their values.
pub proof fn law_store_then_load_local(m: VMModel, i: usize)
    requires
        m.call_stack.len() > 0,
        m.stack.len() > 0,
        m.ip + 2 <= usize::MAX,
        i + 1 <= usize::MAX,
    ensures
        ({
            let (m1, s1) = step(m, OpCodeOf::StoreLocal(i));
            let (m2, s2) = step(m1, OpCodeOf::LoadLocal(i));
            let before = m.call_stack.last().locals;
            let after = m2.call_stack.last().locals;
            &&& s1 == StepOf::<SpecValue, Seq<SpecValue>, Seq<char>>::Done
            &&& s2 == StepOf::<SpecValue, Seq<SpecValue>, Seq<char>>::Done
            &&& m2.stack == m.stack.push(m.stack.last())
            &&& m2.ip == m.ip + 2
            &&& m2.call_stack.len() == m.call_stack.len()
            &&& after.len() == if i < before.len() { before.len() as int } else { i + 1 }
            &&& after[i as int] == m.stack.last()
            &&& forall|k: int| 0 <= k < before.len() && k != i ==> after[k] == before[k]
            &&& forall|k: int| before.len() <= k < i ==> after[k] == SpecValue::Null
        }),
{
    let (m1, _) = step(m, OpCodeOf::StoreLocal(i));
    let f = m.call_stack.last();
    assert(m1.call_stack.last() == m1.call_stack[m.call_stack.len() - 1]);
    if i >= f.locals.len() {
        let grown = f.locals + Seq::new((i + 1 - f.locals.len()) as nat, |k: int| SpecValue::Null);
        assert forall|k: int| f.locals.len() <= k < i implies grown[k] == SpecValue::Null by {
            assert(grown[k] == Seq::new((i + 1 - f.locals.len()) as nat, |k: int| SpecValue::Null)[k - f.locals.len()]);
        }
    }
}

proof fn lemma_find_same_names(g: Seq<(Seq<char>, SpecValue)>, h: Seq<(Seq<char>, SpecValue)>, k: Seq<char>, i: int)
    requires
        0 <= i,
        g.len() <= h.len(),
        forall|l: int| 0 <= l < g.len() ==> #[trigger] g[l].0 == h[l].0,
        forall|l: int| g.len() <= l < h.len() ==> #[trigger] h[l].0 != k,
    ensures
        find_field_from(g, k, i) == find_field_from(h, k, i),
    decreases h.len() - i,
{
    if i < h.len() {
        if i < g.len() {
            assert(g[i].0 == h[i].0);
        }
        lemma_find_same_names(g, h, k, i + 1);
    }
}

proof fn lemma_find_none(g: Seq<(Seq<char>, SpecValue)>, k: Seq<char>, i: int)
    requires
        0 <= i,
        find_field_from(g, k, i) is None,
    ensures
        forall|l: int| i <= l < g.len() ==> #[trigger] g[l].0 != k,
    decreases g.len() - i,
{
    if i < g.len() {
        lemma_find_none(g, k, i + 1);
    }
}

/// Setting a field keeps field names distinct; reading the field back gives
/// the value set, and every other name is found where it was, with the value
/// it had. Globals, object fields and instance fields are all set this way.
pub proof fn law_set_field_read_back(g: Seq<(Seq<char>, SpecValue)>, k: Seq<char>, v: SpecValue)
    requires
        distinct_names(g),
    ensures
        distinct_names(set_field(g, k, v)),
        find_field(set_field(g, k, v), k) matches Some(j) && set_field(g, k, v)[j] == (k, v),
        forall|k2: Seq<char>| k2 != k ==> #[trigger] find_field(set_field(g, k, v), k2) == find_field(g, k2)
            && (find_field(g, k2) matches Some(j) ==> set_field(g, k, v)[j] == g[j]),
{
    let h = set_field(g, k, v);
    match find_field(g, k) {
        Some(j) => {
            lemma_find_field_from_range(g, k, 0);
            assert forall|l: int| 0 <= l < g.len() implies #[trigger] g[l].0 == h[l].0 by {}
            assert forall|a: int, b: int| 0 <= a < b < h.len() implies #[trigger] h[a].0 != #[trigger] h[b].0 by {
                assert(g[a].0 != g[b].0);
            }
            lemma_find_distinct_from(h, j, 0);
            assert forall|k2: Seq<char>| k2 != k implies #[trigger] find_field(h, k2) == find_field(g, k2)
                && (find_field(g, k2) matches Some(j2) ==> h[j2] == g[j2]) by {
                lemma_find_same_names(g, h, k2, 0);
                lemma_find_field_from_range(g, k2, 0);
            }
        },
        None => {
            lemma_find_none(g, k, 0);
            assert forall|l: int| 0 <= l < g.len() implies #[trigger] g[l].0 == h[l].0 by {}
            assert forall|a: int, b: int| 0 <= a < b < h.len() implies #[trigger] h[a].0 != #[trigger] h[b].0 by {
                if b < g.len() {
                    assert(g[a].0 != g[b].0);
                } else {
                    assert(g[a].0 != k);
                }
            }
            lemma_find_distinct_from(h, g.len() as int, 0);
            assert forall|k2: Seq<char>| k2 != k implies #[trigger] find_field(h, k2) == find_field(g, k2)
                && (find_field(g, k2) matches Some(j2) ==> h[j2] == g[j2]) by {
                lemma_find_same_names(g, h, k2, 0);
                lemma_find_field_from_range(g, k2, 0);
            }
        },
    }
}

/// No variable name occurs twice in the scope.
pub open spec fn distinct_slots(s: ScopeModel) -> bool {
    forall|i: int, j: int| 0 <= i < j < s.len() ==> #[trigger] s[i].0 != #[trigger] s[j].0
}

proof fn lemma_scope_none(s: ScopeModel, k: Seq<char>, i: int)
    requires
        0 <= i,
        scope_get_from(s, k, i) is None,
    ensures
        forall|l: int| i <= l < s.len() ==> #[trigger] s[l].0 != k,
    decreases s.len() - i,
{
    if i < s.len() {
        lemma_scope_none(s, k, i + 1);
    }
}

proof fn lemma_scope_found(s: ScopeModel, k: Seq<char>, i: int)
    requires
        0 <= i,
    ensures
        scope_get_from(s, k, i) matches Some(j) ==> i <= j < s.len() && s[j].0 == k,
    decreases s.len() - i,
{
    if i < s.len() && s[i].0 != k {
        lemma_scope_found(s, k, i + 1);
    }
}

proof fn lemma_scope_distinct_from(s: ScopeModel, i: int, k: int)
    requires
        distinct_slots(s),
        0 <= k <= i < s.len(),
    ensures
        scope_get_from(s, s[i].0, k) == Some(i),
    decreases i - k,
{
    if k < i {
        assert(s[k].0 != s[i].0);
        lemma_scope_distinct_from(s, i, k + 1);
    }
}

/// Declaring a variable keeps the names of a scope distinct, and the name
/// then gives the slot it was declared with.
pub proof fn law_scope_insert_read_back(s: ScopeModel, k: Seq<char>, slot: usize)
    requires
        distinct_slots(s),
    ensures
        distinct_slots(scope_insert(s, k, slot)),
        scope_get_from(scope_insert(s, k, slot), k, 0) matches Some(j) && scope_insert(s, k, slot)[j] == (k, slot),
{
    let h = scope_insert(s, k, slot);
    match scope_get_from(s, k, 0) {
        Some(j) => {
            lemma_scope_found(s, k, 0);
            assert forall|a: int, b: int| 0 <= a < b < h.len() implies #[trigger] h[a].0 != #[trigger] h[b].0 by {
                assert(s[a].0 != s[b].0);
            }
            lemma_scope_distinct_from(h, j, 0);
        },
        None => {
            lemma_scope_none(s, k, 0);
            assert forall|a: int, b: int| 0 <= a < b < h.len() implies #[trigger] h[a].0 != #[trigger] h[b].0 by {
                if b < s.len() {
                    assert(s[a].0 != s[b].0);
                } else {
                    assert(s[a].0 != k);
                }
            }
            lemma_scope_distinct_from(h, s.len() as int, 0);
        },
    }
}

/// A machine starts with no global name twice.
pub proof fn law_initial_globals_distinct()
    ensures
        distinct_names(initial_globals()),
{
    reveal_strlit("print");
    reveal_strlit("println");
    reveal_strlit("input");
    reveal_strlit("len");
    reveal_strlit("type");
    reveal_strlit("str");
    reveal_strlit("int");
    reveal_strlit("float");
    let g = initial_globals();
    assert forall|a: int, b: int| 0 <= a < b < g.len() implies #[trigger] g[a].0 != #[trigger] g[b].0 by {
        assert(g[a].0.len() != g[b].0.len() || g[a].0[0] != g[b].0[0] || g[a].0[1] != g[b].0[1]
            || g[a].0[3] != g[b].0[3]);
    }
}

/// Two machines with the same globals, functions and classes are, once a
/// program is loaded into them, the same machine but for debug mode: what
/// they ran before leaves no trace.
pub proof fn law_start_forgets_earlier_runs(m1: VMModel, m2: VMModel, ins: Seq<crate::opcode::SpecOp>, cs: Seq<SpecValue>)
    requires
        m1.globals == m2.globals,
        m1.functions == m2.functions,
        m1.classes == m2.classes,
    ensures
        m1.started(ins, cs) == (VMModel { debug_mode: m1.debug_mode, ..m2.started(ins, cs) }),
{
}

/// The machine with debug mode `d`.
pub open spec fn with_debug(m: VMModel, d: bool) -> VMModel {
    VMModel { debug_mode: d, ..m }
}

proof fn lemma_step_binary_debug(m: VMModel, op: crate::opcode::SpecOp, d: bool)
    ensures
        crate::vm::step_binary(with_debug(m, d), op) == (with_debug(crate::vm::step_binary(m, op).0, d), crate::vm::step_binary(m, op).1),
{
}

proof fn lemma_step_import_debug(m: VMModel, op: crate::opcode::SpecOp, d: bool)
    ensures
        crate::vm::step_import(with_debug(m, d), op) == (with_debug(crate::vm::step_import(m, op).0, d), crate::vm::step_import(m, op).1),
{
}

proof fn lemma_step_download_debug(m: VMModel, d: bool)
    ensures
        crate::vm::step_download(with_debug(m, d)) == (with_debug(crate::vm::step_download(m).0, d), crate::vm::step_download(m).1),
{
}

proof fn lemma_step_call_debug(m: VMModel, a: usize, d: bool)
    ensures
        crate::vm::step_call(with_debug(m, d), a) == (with_debug(crate::vm::step_call(m, a).0, d), crate::vm::step_call(m, a).1),
{
}

proof fn lemma_step_call_method_debug(m: VMModel, a: usize, d: bool)
    ensures
        crate::vm::step_call_method(with_debug(m, d), a) == (with_debug(crate::vm::step_call_method(m, a).0, d), crate::vm::step_call_method(m, a).1),
{
}

proof fn lemma_step_get_field_debug(m: VMModel, a: usize, d: bool)
    ensures
        crate::vm::step_get_field(with_debug(m, d), a) == (with_debug(crate::vm::step_get_field(m, a).0, d), crate::vm::step_get_field(m, a).1),
{
}

proof fn lemma_step_set_field_debug(m: VMModel, a: usize, objects: bool, d: bool)
    ensures
        crate::vm::step_set_field(with_debug(m, d), a, objects) == (with_debug(crate::vm::step_set_field(m, a, objects).0, d), crate::vm::step_set_field(m, a, objects).1),
{
}

proof fn lemma_step_get_index_debug(m: VMModel, d: bool)
    ensures
        crate::vm::step_get_index(with_debug(m, d)) == (with_debug(crate::vm::step_get_index(m).0, d), crate::vm::step_get_index(m).1),
{
}

proof fn lemma_step_set_index_debug(m: VMModel, d: bool)
    ensures
        crate::vm::step_set_index(with_debug(m, d)) == (with_debug(crate::vm::step_set_index(m).0, d), crate::vm::step_set_index(m).1),
{
}

proof fn lemma_step_store_local_debug(m: VMModel, a: usize, d: bool)
    ensures
        crate::vm::step_store_local(with_debug(m, d), a) == (with_debug(crate::vm::step_store_local(m, a).0, d), crate::vm::step_store_local(m, a).1),
{
}

/// Debug mode changes nothing an instruction does: two machines that differ
/// only in debug mode make the same step and still differ only in it.
#[verifier::rlimit(40)]
pub proof fn law_step_ignores_debug_mode(m: VMModel, op: crate::opcode::SpecOp, d: bool)
    ensures
        step(with_debug(m, d), op) == (with_debug(step(m, op).0, d), step(m, op).1),
{
    match op {
        OpCodeOf::PushInt(_) => {},
        OpCodeOf::PushFloat(_) => {},
        OpCodeOf::PushString(_) => {},
        OpCodeOf::PushBool(_) => {},
        OpCodeOf::PushNull => {},
        OpCodeOf::Pop => {},
        OpCodeOf::Dup => {},
        OpCodeOf::Add => lemma_step_binary_debug(m, op, d),
        OpCodeOf::Sub => lemma_step_binary_debug(m, op, d),
        OpCodeOf::Mul => lemma_step_binary_debug(m, op, d),
        OpCodeOf::Div => lemma_step_binary_debug(m, op, d),
        OpCodeOf::Mod => lemma_step_binary_debug(m, op, d),
        OpCodeOf::Neg => {},
        OpCodeOf::Eq => lemma_step_binary_debug(m, op, d),
        OpCodeOf::Ne => lemma_step_binary_debug(m, op, d),
        OpCodeOf::Gt => lemma_step_binary_debug(m, op, d),
        OpCodeOf::Lt => lemma_step_binary_debug(m, op, d),
        OpCodeOf::Ge => lemma_step_binary_debug(m, op, d),
        OpCodeOf::Le => lemma_step_binary_debug(m, op, d),
        OpCodeOf::And => lemma_step_binary_debug(m, op, d),
        OpCodeOf::Or => lemma_step_binary_debug(m, op, d),
        OpCodeOf::Not => {},
        OpCodeOf::LoadLocal(_) => {},
        OpCodeOf::StoreLocal(a) => lemma_step_store_local_debug(m, a, d),
        OpCodeOf::LoadGlobal(_) => {},
        OpCodeOf::StoreGlobal(_) => {},
        OpCodeOf::Jump(_) => {},
        OpCodeOf::JumpIfFalse(_) => {},
        OpCodeOf::JumpIfTrue(_) => {},
        OpCodeOf::Loop(_) => {},
        OpCodeOf::Call(a) => lemma_step_call_debug(m, a, d),
        OpCodeOf::Return => {},
        OpCodeOf::DefineFunction(_) => {},
        OpCodeOf::NewArray(_) => {},
        OpCodeOf::GetIndex => lemma_step_get_index_debug(m, d),
        OpCodeOf::SetIndex => lemma_step_set_index_debug(m, d),
        OpCodeOf::Len => {},
        OpCodeOf::NewObject => {},
        OpCodeOf::GetField(a) => lemma_step_get_field_debug(m, a, d),
        OpCodeOf::SetField(a) => lemma_step_set_field_debug(m, a, true, d),
        OpCodeOf::DefineClass(_) => {},
        OpCodeOf::NewInstance(_) => {},
        OpCodeOf::CallMethod(a) => lemma_step_call_method_debug(m, a, d),
        OpCodeOf::SetProperty(a) => lemma_step_set_field_debug(m, a, false, d),
        OpCodeOf::GetProperty(_) => {},
        OpCodeOf::Try(_) => {},
        OpCodeOf::EndTry => {},
        OpCodeOf::Throw => {},
        OpCodeOf::Catch => {},
        OpCodeOf::Import => lemma_step_import_debug(m, op, d),
        OpCodeOf::ImportPy => lemma_step_import_debug(m, op, d),
        OpCodeOf::ImportJs => lemma_step_import_debug(m, op, d),
        OpCodeOf::ImportRs => lemma_step_import_debug(m, op, d),
        OpCodeOf::Download => lemma_step_download_debug(m, d),
        OpCodeOf::Print => {},
        OpCodeOf::PrintLn => {},
        OpCodeOf::Input => {},
        OpCodeOf::TypeOf => {},
        OpCodeOf::ToString => {},
        OpCodeOf::ToInt => {},
        OpCodeOf::ToFloat => {},
        OpCodeOf::Debug => {},
        OpCodeOf::Halt => {},
    }
}

/// A run of the machine for at most `fuel` instructions, the host answering
/// each request with `host`: the machine after the host's work, or `None`
/// where that work fails (a missing file to import, a failed download). The
/// result is the machine when the run ends, and the request that ended it:
/// none where the instructions ran out or the fuel did.
pub open spec fn run_for(
    m: VMModel,
    host: spec_fn(VMModel, SpecStep) -> Option<VMModel>,
    fuel: nat,
) -> (VMModel, Option<SpecStep>)
    decreases fuel,
{
    if fuel == 0 || m.ip >= m.instructions.len() {
        (m, None)
    } else {
        let (m1, s) = step(m, m.instructions[m.ip as int]);
        match s {
            StepOf::Done => run_for(m1, host, (fuel - 1) as nat),
            StepOf::Failed(_) | StepOf::Uncaught(_) | StepOf::Fault => (m1, Some(s)),
            _ => match host(m1, s) {
                Some(m2) => run_for(m2, host, (fuel - 1) as nat),
                None => (m1, Some(s)),
            },
        }
    }
}

/// The host's answers do not depend on debug mode: it only prints more.
pub open spec fn host_ignores_debug(host: spec_fn(VMModel, SpecStep) -> Option<VMModel>) -> bool {
    forall|m: VMModel, s: SpecStep, d: bool| #[trigger] host(with_debug(m, d), s) == match host(m, s) {
        Some(x) => Some(with_debug(x, d)),
        None => None,
    }
}

proof fn lemma_run_ignores_debug(
    m: VMModel,
    host: spec_fn(VMModel, SpecStep) -> Option<VMModel>,
    fuel: nat,
    d: bool,
)
    requires
        host_ignores_debug(host),
    ensures
        run_for(with_debug(m, d), host, fuel)
            == (with_debug(run_for(m, host, fuel).0, d), run_for(m, host, fuel).1),
    decreases fuel,
{
    if fuel > 0 && m.ip < m.instructions.len() {
        let op = m.instructions[m.ip as int];
        law_step_ignores_debug_mode(m, op, d);
        let (m1, s) = step(m, op);
        match s {
            StepOf::Done => {
                lemma_run_ignores_debug(m1, host, (fuel - 1) as nat, d);
            },
            StepOf::Failed(_) | StepOf::Uncaught(_) | StepOf::Fault => {},
            _ => {
                assert(host(with_debug(m1, d), s) == match host(m1, s) {
                    Some(x) => Some(with_debug(x, d)),
                    None => None::<VMModel>,
                });
                match host(m1, s) {
                    Some(m2) => {
                        lemma_run_ignores_debug(m2, host, (fuel - 1) as nat, d);
                    },
                    None => {},
                }
            },
        }
    }
}

/// Loading the same program into two machines with the same globals,
/// functions and classes and running it with the same host, for as long as
/// one likes, gives the same outcome: what the machines ran before and their
/// debug modes leave no trace. So either both runs go on past any bound, or
/// both end with the same request or the same machine (and so the same
/// result on top of its stack).
pub proof fn law_runs_alike(
    m1: VMModel,
    m2: VMModel,
    ins: Seq<crate::opcode::SpecOp>,
    cs: Seq<SpecValue>,
    host: spec_fn(VMModel, SpecStep) -> Option<VMModel>,
    fuel: nat,
)
    requires
        m1.globals == m2.globals,
        m1.functions == m2.functions,
        m1.classes == m2.classes,
        host_ignores_debug(host),
    ensures
        ({
            let (a, sa) = run_for(m1.started(ins, cs), host, fuel);
            let (b, sb) = run_for(m2.started(ins, cs), host, fuel);
            &&& a == with_debug(b, m1.debug_mode)
            &&& sa == sb
        }),
{
    law_start_forgets_earlier_runs(m1, m2, ins, cs);
    assert(m1.started(ins, cs) == with_debug(m2.started(ins, cs), m1.debug_mode));
    lemma_run_ignores_debug(m2.started(ins, cs), host, fuel, m1.debug_mode);
}

/// All of `cs` continues a word.
proof fn lemma_ident_end_all(cs: Seq<char>, p: int)
    requires
        0 <= p <= cs.len(),
        forall|i: int| p <= i < cs.len() ==> crate::lexer::is_ident_char(#[trigger] cs[i]),
    ensures
        ident_end(cs, p) == cs.len(),
    decreases cs.len() - p,
{
    if p < cs.len() {
        lemma_ident_end_all(cs, p + 1);
    }
}

/// A source text that is one word (a letter or `_`, then letters, digits or
/// `_`) lexes as that word's token.
proof fn lemma_lex_word(cs: Seq<char>)
    requires
        cs.len() > 0,
        forall|i: int| 0 <= i < cs.len() ==> ('a' <= #[trigger] cs[i] <= 'z' || cs[i] == '_'),
    ensures
        lex(cs) == Ok::<Seq<SpecToken>, crate::error::SpecError>(seq![word_token(cs), TokenOf::EOF]),
{
    lemma_ident_end_all(cs, 0);
    assert(cs.subrange(0, cs.len() as int) =~= cs);
    let acc = seq![word_token(cs)];
    assert(lex_from(cs, cs.len() as int, acc).0 == Ok::<Seq<SpecToken>, crate::error::SpecError>(acc.push(TokenOf::EOF)));
    assert(acc.push(TokenOf::EOF) =~= seq![word_token(cs), TokenOf::EOF]);
}

/// Every keyword lexes as its own token (so no two keywords share one, and
/// none is taken for another, such as `println` for `print`).
#[verifier::rlimit(60)]
pub proof fn law_keywords_lex_to_their_tokens()
    ensures
        lex("let"@) == Ok::<Seq<SpecToken>, crate::error::SpecError>(seq![TokenOf::Let, TokenOf::EOF]),
        lex("if"@) == Ok::<Seq<SpecToken>, crate::error::SpecError>(seq![TokenOf::If, TokenOf::EOF]),
        lex("else"@) == Ok::<Seq<SpecToken>, crate::error::SpecError>(seq![TokenOf::Else, TokenOf::EOF]),
        lex("while"@) == Ok::<Seq<SpecToken>, crate::error::SpecError>(seq![TokenOf::While, TokenOf::EOF]),
        lex("for"@) == Ok::<Seq<SpecToken>, crate::error::SpecError>(seq![TokenOf::For, TokenOf::EOF]),
        lex("in"@) == Ok::<Seq<SpecToken>, crate::error::SpecError>(seq![TokenOf::In, TokenOf::EOF]),
        lex("fn"@) == Ok::<Seq<SpecToken>, crate::error::SpecError>(seq![TokenOf::Function, TokenOf::EOF]),
        lex("return"@) == Ok::<Seq<SpecToken>, crate::error::SpecError>(seq![TokenOf::Return, TokenOf::EOF]),
        lex("print"@) == Ok::<Seq<SpecToken>, crate::error::SpecError>(seq![TokenOf::Print, TokenOf::EOF]),
        lex("println"@) == Ok::<Seq<SpecToken>, crate::error::SpecError>(seq![TokenOf::PrintLn, TokenOf::EOF]),
        lex("true"@) == Ok::<Seq<SpecToken>, crate::error::SpecError>(seq![TokenOf::True, TokenOf::EOF]),
        lex("false"@) == Ok::<Seq<SpecToken>, crate::error::SpecError>(seq![TokenOf::False, TokenOf::EOF]),
        lex("null"@) == Ok::<Seq<SpecToken>, crate::error::SpecError>(seq![TokenOf::Null, TokenOf::EOF]),
        lex("break"@) == Ok::<Seq<SpecToken>, crate::error::SpecError>(seq![TokenOf::Break, TokenOf::EOF]),
        lex("continue"@) == Ok::<Seq<SpecToken>, crate::error::SpecError>(seq![TokenOf::Continue, TokenOf::EOF]),
        lex("import"@) == Ok::<Seq<SpecToken>, crate::error::SpecError>(seq![TokenOf::Import, TokenOf::EOF]),
        lex("import_py"@) == Ok::<Seq<SpecToken>, crate::error::SpecError>(seq![TokenOf::ImportPy, TokenOf::EOF]),
        lex("import_js"@) == Ok::<Seq<SpecToken>, crate::error::SpecError>(seq![TokenOf::ImportJs, TokenOf::EOF]),
        lex("import_rs"@) == Ok::<Seq<SpecToken>, crate::error::SpecError>(seq![TokenOf::ImportRs, TokenOf::EOF]),
        lex("class"@) == Ok::<Seq<SpecToken>, crate::error::SpecError>(seq![TokenOf::Class, TokenOf::EOF]),
        lex("new"@) == Ok::<Seq<SpecToken>, crate::error::SpecError>(seq![TokenOf::New, TokenOf::EOF]),
        lex("try"@) == Ok::<Seq<SpecToken>, crate::error::SpecError>(seq![TokenOf::Try, TokenOf::EOF]),
        lex("catch"@) == Ok::<Seq<SpecToken>, crate::error::SpecError>(seq![TokenOf::Catch, TokenOf::EOF]),
        lex("throw"@) == Ok::<Seq<SpecToken>, crate::error::SpecError>(seq![TokenOf::Throw, TokenOf::EOF]),
        lex("this"@) == Ok::<Seq<SpecToken>, crate::error::SpecError>(seq![TokenOf::This, TokenOf::EOF]),
        lex("download"@) == Ok::<Seq<SpecToken>, crate::error::SpecError>(seq![TokenOf::Download, TokenOf::EOF]),
        lex("from"@) == Ok::<Seq<SpecToken>, crate::error::SpecError>(seq![TokenOf::From, TokenOf::EOF]),
        lex("and"@) == Ok::<Seq<SpecToken>, crate::error::SpecError>(seq![TokenOf::And, TokenOf::EOF]),
        lex("or"@) == Ok::<Seq<SpecToken>, crate::error::SpecError>(seq![TokenOf::Or, TokenOf::EOF]),
        lex("not"@) == Ok::<Seq<SpecToken>, crate::error::SpecError>(seq![TokenOf::Not, TokenOf::EOF]),
{
    reveal_strlit("let");
    reveal_strlit("if");
    reveal_strlit("else");
    reveal_strlit("while");
    reveal_strlit("for");
    reveal_strlit("in");
    reveal_strlit("fn");
    reveal_strlit("return");
    reveal_strlit("print");
    reveal_strlit("println");
    reveal_strlit("true");
    reveal_strlit("false");
    reveal_strlit("null");
    reveal_strlit("break");
    reveal_strlit("continue");
    reveal_strlit("import");
    reveal_strlit("import_py");
    reveal_strlit("import_js");
    reveal_strlit("import_rs");
    reveal_strlit("class");
    reveal_strlit("new");
    reveal_strlit("try");
    reveal_strlit("catch");
    reveal_strlit("throw");
    reveal_strlit("this");
    reveal_strlit("download");
    reveal_strlit("from");
    reveal_strlit("and");
    reveal_strlit("or");
    reveal_strlit("not");
    assert("import_js"@[7] != "import_py"@[7]);
    assert("import_rs"@[7] != "import_py"@[7]);
    assert("import_rs"@[7] != "import_js"@[7]);
    lemma_lex_word("let"@);
    lemma_lex_word("if"@);
    lemma_lex_word("else"@);
    lemma_lex_word("while"@);
    lemma_lex_word("for"@);
    lemma_lex_word("in"@);
    lemma_lex_word("fn"@);
    lemma_lex_word("return"@);
    lemma_lex_word("print"@);
    lemma_lex_word("println"@);
    lemma_lex_word("true"@);
    lemma_lex_word("false"@);
    lemma_lex_word("null"@);
    lemma_lex_word("break"@);
    lemma_lex_word("continue"@);
    lemma_lex_word("import"@);
    lemma_lex_word("import_py"@);
    lemma_lex_word("import_js"@);
    lemma_lex_word("import_rs"@);
    lemma_lex_word("class"@);
    lemma_lex_word("new"@);
    lemma_lex_word("try"@);
    lemma_lex_word("catch"@);
    lemma_lex_word("throw"@);
    lemma_lex_word("this"@);
    lemma_lex_word("download"@);
    lemma_lex_word("from"@);
    lemma_lex_word("and"@);
    lemma_lex_word("or"@);
    lemma_lex_word("not"@);
}

/// Runs instructions one after another, each on the machine the one before
/// left.
pub open spec fn run_ops(m: VMModel, ops: Seq<crate::opcode::SpecOp>) -> VMModel
    decreases ops.len(),
{
    if ops.len() == 0 {
        m
    } else {
        run_ops(step(m, ops[0]).0, ops.drop_first())
    }
}

proof fn lemma_run_one(m: VMModel, op: crate::opcode::SpecOp)
    ensures
        run_ops(m, seq![op]) == step(m, op).0,
{
    assert(seq![op].drop_first() =~= Seq::<crate::opcode::SpecOp>::empty());
    assert(run_ops(step(m, op).0, Seq::<crate::opcode::SpecOp>::empty()) == step(m, op).0);
}

/// The instructions that a fresh compiler makes of an expression that is
/// the one token `t`.
pub open spec fn compiled_ops(t: SpecToken) -> Seq<crate::opcode::SpecOp> {
    match simple_expr(seq![t], 0, initial_compiler()) {
        Ok(st) => st.instructions,
        Err(_) => Seq::empty(),
    }
}

proof fn lemma_compiled_single(t: SpecToken)
    requires
        crate::compiler::simple_ops(t) is Some,
    ensures
        compiled_ops(t) == crate::compiler::simple_ops(t)->0,
{
    let st = initial_compiler();
    let st1 = CompilerModel { instructions: st.instructions + crate::compiler::simple_ops(t)->0, ..st };
    assert(simple_expr(seq![t], 1, st1) == Ok::<CompilerModel, (crate::compiler::SpecStop, CompilerModel)>(st1));
    assert(st.instructions + crate::compiler::simple_ops(t)->0 =~= crate::compiler::simple_ops(t)->0);
}

proof fn lemma_token_greater(m: VMModel, x: i64, y: i64)
    requires
        m.ip + 3 <= usize::MAX,
    ensures
        run_ops(m.push(SpecValue::Int(x)).push(SpecValue::Int(y)), compiled_ops(TokenOf::Greater)).stack == m.stack.push(SpecValue::Bool(x > y)),
{
    let m0 = m.push(SpecValue::Int(x)).push(SpecValue::Int(y));
    lemma_compiled_single(TokenOf::Greater);
    assert(compiled_ops(TokenOf::Greater) == seq![OpCodeOf::<Seq<char>>::Gt]);
    lemma_run_one(m0, OpCodeOf::Gt);
    assert(m0.stack.drop_last().drop_last() =~= m.stack);
    assert(m0.stack.drop_last().last() == SpecValue::Int(x));
    assert(step(m0, OpCodeOf::Gt).0.stack =~= m.stack.push(SpecValue::Bool(x > y)));
}

proof fn lemma_token_less(m: VMModel, x: i64, y: i64)
    requires
        m.ip + 3 <= usize::MAX,
    ensures
        run_ops(m.push(SpecValue::Int(x)).push(SpecValue::Int(y)), compiled_ops(TokenOf::Less)).stack == m.stack.push(SpecValue::Bool(x < y)),
{
    let m0 = m.push(SpecValue::Int(x)).push(SpecValue::Int(y));
    lemma_compiled_single(TokenOf::Less);
    assert(compiled_ops(TokenOf::Less) == seq![OpCodeOf::<Seq<char>>::Lt]);
    lemma_run_one(m0, OpCodeOf::Lt);
    assert(m0.stack.drop_last().drop_last() =~= m.stack);
    assert(m0.stack.drop_last().last() == SpecValue::Int(x));
    assert(step(m0, OpCodeOf::Lt).0.stack =~= m.stack.push(SpecValue::Bool(x < y)));
}

proof fn lemma_token_greaterequal(m: VMModel, x: i64, y: i64)
    requires
        m.ip + 3 <= usize::MAX,
    ensures
        run_ops(m.push(SpecValue::Int(x)).push(SpecValue::Int(y)), compiled_ops(TokenOf::GreaterEqual)).stack == m.stack.push(SpecValue::Bool(x >= y)),
{
    let m0 = m.push(SpecValue::Int(x)).push(SpecValue::Int(y));
    lemma_compiled_single(TokenOf::GreaterEqual);
    assert(compiled_ops(TokenOf::GreaterEqual) == seq![OpCodeOf::<Seq<char>>::Ge]);
    lemma_run_one(m0, OpCodeOf::Ge);
    assert(m0.stack.drop_last().drop_last() =~= m.stack);
    assert(m0.stack.drop_last().last() == SpecValue::Int(x));
    assert(step(m0, OpCodeOf::Ge).0.stack =~= m.stack.push(SpecValue::Bool(x >= y)));
}

proof fn lemma_token_lessequal(m: VMModel, x: i64, y: i64)
    requires
        m.ip + 3 <= usize::MAX,
    ensures
        run_ops(m.push(SpecValue::Int(x)).push(SpecValue::Int(y)), compiled_ops(TokenOf::LessEqual)).stack == m.stack.push(SpecValue::Bool(x <= y)),
{
    let m0 = m.push(SpecValue::Int(x)).push(SpecValue::Int(y));
    lemma_compiled_single(TokenOf::LessEqual);
    assert(compiled_ops(TokenOf::LessEqual) == seq![OpCodeOf::<Seq<char>>::Le]);
    lemma_run_one(m0, OpCodeOf::Le);
    assert(m0.stack.drop_last().drop_last() =~= m.stack);
    assert(m0.stack.drop_last().last() == SpecValue::Int(x));
    assert(step(m0, OpCodeOf::Le).0.stack =~= m.stack.push(SpecValue::Bool(x <= y)));
}

proof fn lemma_token_equal(m: VMModel, x: i64, y: i64)
    requires
        m.ip + 3 <= usize::MAX,
    ensures
        run_ops(m.push(SpecValue::Int(x)).push(SpecValue::Int(y)), compiled_ops(TokenOf::Equal)).stack == m.stack.push(SpecValue::Bool(x == y)),
{
    let m0 = m.push(SpecValue::Int(x)).push(SpecValue::Int(y));
    lemma_compiled_single(TokenOf::Equal);
    assert(compiled_ops(TokenOf::Equal) == seq![OpCodeOf::<Seq<char>>::Eq]);
    lemma_run_one(m0, OpCodeOf::Eq);
    assert(m0.stack.drop_last().drop_last() =~= m.stack);
    assert(m0.stack.drop_last().last() == SpecValue::Int(x));
    assert(step(m0, OpCodeOf::Eq).0.stack =~= m.stack.push(SpecValue::Bool(x == y)));
}

proof fn lemma_token_plus(m: VMModel, x: i64, y: i64)
    requires
        m.ip + 3 <= usize::MAX,
        i64::MIN <= x + y <= i64::MAX,
    ensures
        run_ops(m.push(SpecValue::Int(x)).push(SpecValue::Int(y)), compiled_ops(TokenOf::Plus)).stack == m.stack.push(SpecValue::Int((x + y) as i64)),
{
    let m0 = m.push(SpecValue::Int(x)).push(SpecValue::Int(y));
    lemma_compiled_single(TokenOf::Plus);
    assert(compiled_ops(TokenOf::Plus) == seq![OpCodeOf::<Seq<char>>::Add]);
    lemma_run_one(m0, OpCodeOf::Add);
    assert(m0.stack.drop_last().drop_last() =~= m.stack);
    assert(m0.stack.drop_last().last() == SpecValue::Int(x));
    assert(step(m0, OpCodeOf::Add).0.stack =~= m.stack.push(SpecValue::Int((x + y) as i64)));
}

proof fn lemma_token_minus(m: VMModel, x: i64, y: i64)
    requires
        m.ip + 3 <= usize::MAX,
        i64::MIN <= x - y <= i64::MAX,
    ensures
        run_ops(m.push(SpecValue::Int(x)).push(SpecValue::Int(y)), compiled_ops(TokenOf::Minus)).stack == m.stack.push(SpecValue::Int((x - y) as i64)),
{
    let m0 = m.push(SpecValue::Int(x)).push(SpecValue::Int(y));
    lemma_compiled_single(TokenOf::Minus);
    assert(compiled_ops(TokenOf::Minus) == seq![OpCodeOf::<Seq<char>>::Sub]);
    lemma_run_one(m0, OpCodeOf::Sub);
    assert(m0.stack.drop_last().drop_last() =~= m.stack);
    assert(m0.stack.drop_last().last() == SpecValue::Int(x));
    assert(step(m0, OpCodeOf::Sub).0.stack =~= m.stack.push(SpecValue::Int((x - y) as i64)));
}

proof fn lemma_token_multiply(m: VMModel, x: i64, y: i64)
    requires
        m.ip + 3 <= usize::MAX,
        i64::MIN <= x * y <= i64::MAX,
    ensures
        run_ops(m.push(SpecValue::Int(x)).push(SpecValue::Int(y)), compiled_ops(TokenOf::Multiply)).stack == m.stack.push(SpecValue::Int((x * y) as i64)),
{
    let m0 = m.push(SpecValue::Int(x)).push(SpecValue::Int(y));
    lemma_compiled_single(TokenOf::Multiply);
    assert(compiled_ops(TokenOf::Multiply) == seq![OpCodeOf::<Seq<char>>::Mul]);
    lemma_run_one(m0, OpCodeOf::Mul);
    assert(m0.stack.drop_last().drop_last() =~= m.stack);
    assert(m0.stack.drop_last().last() == SpecValue::Int(x));
    assert(step(m0, OpCodeOf::Mul).0.stack =~= m.stack.push(SpecValue::Int((x * y) as i64)));
}

proof fn lemma_token_notequal(m: VMModel, x: i64, y: i64)
    requires
        m.ip + 3 <= usize::MAX,
    ensures
        run_ops(m.push(SpecValue::Int(x)).push(SpecValue::Int(y)), compiled_ops(TokenOf::NotEqual)).stack
            == m.stack.push(SpecValue::Bool(x != y)),
{
    let m0 = m.push(SpecValue::Int(x)).push(SpecValue::Int(y));
    lemma_compiled_single(TokenOf::NotEqual);
    let ops = seq![OpCodeOf::<Seq<char>>::Eq, OpCodeOf::<Seq<char>>::Not];
    assert(compiled_ops(TokenOf::NotEqual) == ops);
    assert(m0.stack.drop_last().drop_last() =~= m.stack);
    assert(m0.stack.drop_last().last() == SpecValue::Int(x));
    let m1 = step(m0, OpCodeOf::Eq).0;
    assert(m1.stack =~= m.stack.push(SpecValue::Bool(x == y)));
    assert(ops.drop_first() =~= seq![OpCodeOf::<Seq<char>>::Not]);
    lemma_run_one(m1, OpCodeOf::Not);
    assert(step(m1, OpCodeOf::Not).0.stack =~= m.stack.push(SpecValue::Bool(x != y)));
}

/// Each comparison and arithmetic operator, compiled and run on two
/// integers `x` then `y`, leaves on the stack the relation or result it
/// names: `>=` is `x >= y`, `<=` is `x <= y`, `!=` is `x != y`, `-` is
/// `x - y` (where no overflow comes), and so on.
pub proof fn law_operator_tokens_compute(m: VMModel, x: i64, y: i64)
    requires
        m.ip + 3 <= usize::MAX,
    ensures
        run_ops(m.push(SpecValue::Int(x)).push(SpecValue::Int(y)), compiled_ops(TokenOf::Greater)).stack == m.stack.push(SpecValue::Bool(x > y)),
        run_ops(m.push(SpecValue::Int(x)).push(SpecValue::Int(y)), compiled_ops(TokenOf::Less)).stack == m.stack.push(SpecValue::Bool(x < y)),
        run_ops(m.push(SpecValue::Int(x)).push(SpecValue::Int(y)), compiled_ops(TokenOf::GreaterEqual)).stack == m.stack.push(SpecValue::Bool(x >= y)),
        run_ops(m.push(SpecValue::Int(x)).push(SpecValue::Int(y)), compiled_ops(TokenOf::LessEqual)).stack == m.stack.push(SpecValue::Bool(x <= y)),
        run_ops(m.push(SpecValue::Int(x)).push(SpecValue::Int(y)), compiled_ops(TokenOf::Equal)).stack == m.stack.push(SpecValue::Bool(x == y)),
        run_ops(m.push(SpecValue::Int(x)).push(SpecValue::Int(y)), compiled_ops(TokenOf::NotEqual)).stack == m.stack.push(SpecValue::Bool(x != y)),
        i64::MIN <= x + y <= i64::MAX ==> run_ops(m.push(SpecValue::Int(x)).push(SpecValue::Int(y)), compiled_ops(TokenOf::Plus)).stack == m.stack.push(SpecValue::Int((x + y) as i64)),
        i64::MIN <= x - y <= i64::MAX ==> run_ops(m.push(SpecValue::Int(x)).push(SpecValue::Int(y)), compiled_ops(TokenOf::Minus)).stack == m.stack.push(SpecValue::Int((x - y) as i64)),
        i64::MIN <= x * y <= i64::MAX ==> run_ops(m.push(SpecValue::Int(x)).push(SpecValue::Int(y)), compiled_ops(TokenOf::Multiply)).stack == m.stack.push(SpecValue::Int((x * y) as i64)),
{
    lemma_token_greater(m, x, y);
    lemma_token_less(m, x, y);
    lemma_token_greaterequal(m, x, y);
    lemma_token_lessequal(m, x, y);
    lemma_token_equal(m, x, y);
    if i64::MIN <= x + y <= i64::MAX {
        lemma_token_plus(m, x, y);
    }
    if i64::MIN <= x - y <= i64::MAX {
        lemma_token_minus(m, x, y);
    }
    if i64::MIN <= x * y <= i64::MAX {
        lemma_token_multiply(m, x, y);
    }
    lemma_token_notequal(m, x, y);
}

/// `<=` pushes the negation of what `>` pushes on the same operands, of
/// any kind; where floats make the host compare, it is asked the negated
/// question on the same numbers; and both fail alike.
pub proof fn law_le_negates_gt(m: VMModel)
    requires
        m.stack.len() >= 2,
    ensures
        ({
            let (ms, ss) = step(m, OpCodeOf::Gt);
            let (mn, sn) = step(m, OpCodeOf::Le);
            &&& (ss is Done || ss is FloatCompare || ss is Failed)
            &&& (ss is Done <==> sn is Done)
            &&& ss is Done ==> ms.stack.last() is Bool
                && mn == ms.popped().push(SpecValue::Bool(!ms.stack.last()->Bool_0))
            &&& ss matches StepOf::FloatCompare(o, a, b) ==> o == CompareOp::Greater
                && sn == StepOf::<SpecValue, Seq<SpecValue>, Seq<char>>::FloatCompare(CompareOp::NotGreater, a, b)
                && mn == ms
            &&& ss is Failed ==> sn == ss && mn == ms
        }),
{
    let b = m.stack.last();
    let a = m.stack.drop_last().last();
    let mp = m.popped().popped();
    assert(step(m, OpCodeOf::Gt) == binary_result(mp, OpCodeOf::Gt, a, b));
    assert(step(m, OpCodeOf::Le) == binary_result(mp, OpCodeOf::Le, a, b));
    let (ms, ss) = step(m, OpCodeOf::Gt);
    let (mn, sn) = step(m, OpCodeOf::Le);
    match compare_spec(true, a, b) {
        CompareOf::Bool(r) => {
            assert(ms == mp.push(SpecValue::Bool(r)).next());
            assert(mn == mp.push(SpecValue::Bool(!r)).next());
            assert(ms.popped().stack =~= mp.stack);
            assert(ms.popped().push(SpecValue::Bool(!r)).stack =~= mn.stack);
        },
        CompareOf::Float(x, y) => {},
        CompareOf::Failed(e) => {},
    }
}

/// `>=` pushes the negation of what `<` pushes on the same operands, of
/// any kind; where floats make the host compare, it is asked the negated
/// question on the same numbers; and both fail alike.
pub proof fn law_ge_negates_lt(m: VMModel)
    requires
        m.stack.len() >= 2,
    ensures
        ({
            let (ms, ss) = step(m, OpCodeOf::Lt);
            let (mn, sn) = step(m, OpCodeOf::Ge);
            &&& (ss is Done || ss is FloatCompare || ss is Failed)
            &&& (ss is Done <==> sn is Done)
            &&& ss is Done ==> ms.stack.last() is Bool
                && mn == ms.popped().push(SpecValue::Bool(!ms.stack.last()->Bool_0))
            &&& ss matches StepOf::FloatCompare(o, a, b) ==> o == CompareOp::Less
                && sn == StepOf::<SpecValue, Seq<SpecValue>, Seq<char>>::FloatCompare(CompareOp::NotLess, a, b)
                && mn == ms
            &&& ss is Failed ==> sn == ss && mn == ms
        }),
{
    let b = m.stack.last();
    let a = m.stack.drop_last().last();
    let mp = m.popped().popped();
    assert(step(m, OpCodeOf::Lt) == binary_result(mp, OpCodeOf::Lt, a, b));
    assert(step(m, OpCodeOf::Ge) == binary_result(mp, OpCodeOf::Ge, a, b));
    let (ms, ss) = step(m, OpCodeOf::Lt);
    let (mn, sn) = step(m, OpCodeOf::Ge);
    match compare_spec(false, a, b) {
        CompareOf::Bool(r) => {
            assert(ms == mp.push(SpecValue::Bool(r)).next());
            assert(mn == mp.push(SpecValue::Bool(!r)).next());
            assert(ms.popped().stack =~= mp.stack);
            assert(ms.popped().push(SpecValue::Bool(!r)).stack =~= mn.stack);
        },
        CompareOf::Float(x, y) => {},
        CompareOf::Failed(e) => {},
    }
}

/// A value with no float, object or instance anywhere in it.
pub open spec fn exact_value(v: SpecValue) -> bool
    decreases v,
{
    match v {
        SpecValue::Float(_) | SpecValue::Object(_) | SpecValue::Instance(_, _) => false,
        SpecValue::Array(xs) => forall|i: int| 0 <= i < xs.len() ==> exact_value(#[trigger] xs[i]),
        _ => true,
    }
}

/// On values with no float, object or instance in them, `==` holds exactly
/// when the two values are the same: same kind, same integer, the same
/// characters of a string, the same elements in the same order.
pub proof fn law_value_eq_is_identity(a: SpecValue, b: SpecValue)
    requires
        exact_value(a),
        exact_value(b),
    ensures
        value_eq(a, b) <==> a == b,
    decreases a,
{
    match a {
        SpecValue::Array(xs) => match b {
            SpecValue::Array(ys) => {
                if xs.len() == ys.len() {
                    assert forall|i: int| 0 <= i < xs.len() implies (value_eq(#[trigger] xs[i], ys[i]) <==> xs[i] == ys[i]) by {
                        law_value_eq_is_identity(xs[i], ys[i]);
                    }
                    if value_eq(a, b) {
                        assert(xs =~= ys);
                    }
                }
            },
            _ => {},
        },
        _ => {},
    }
}

/// The text that `str` gives of a value whose text is one plain piece.
pub open spec fn plain_text(v: SpecValue) -> Seq<char> {
    render_spec(v)[0]->Text_0
}

/// `+` with a string on either side joins the texts of the two operands,
/// left operand first: `3 + "ab"` is `"3ab"`, `"ab" + 3` is `"ab3"`, and
/// `"a" + "b"` is `"ab"`. The texts are those that `str` gives.
pub proof fn law_string_addition_joins_in_order(a: SpecValue, b: SpecValue)
    requires
        a is Int || a is String,
        b is Int || b is String,
        a is String || b is String,
    ensures
        render_spec(a).len() == 1 && render_spec(a)[0] is Text,
        render_spec(b).len() == 1 && render_spec(b)[0] is Text,
        add_spec(a, b) == ArithOf::<SpecValue, Seq<char>>::Value(SpecValue::String(plain_text(a) + plain_text(b))),
{
}

} // verus!
