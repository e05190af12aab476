//! Run-time values and the meaning of the operators on them.
//!
//! A floating-point number is held as the bits of its IEEE-754 binary64
//! encoding. What can be decided on those bits (zero, equality, sign) is
//! decided here; arithmetic on them is described as a `FloatWork` request,
//! which the host that runs the machine carries out.
use vstd::prelude::*;

use crate::text::{char_count, push_char};
use vstd::string::{StringExecFns, StringSliceAdditionalSpecFns};

verus! {

broadcast use vstd::string::group_string_axioms;

/// The built-in functions that the global scope starts with.
#[derive(Debug, PartialEq, Eq, Structural, Clone, Copy)]
pub enum Native {
    Print,
    PrintLn,
    Input,
    Len,
    Type,
    Str,
    Int,
    Float,
}

/// A value of the language.
#[derive(Debug)]
pub enum Value {
    Int(i64),
    /// The IEEE-754 bits of a binary64 number.
    Float(u64),
    String(String),
    Bool(bool),
    Null,
    Array(Vec<Value>),
    /// Fields by name, in the order they were first set; no name twice.
    Object(Vec<(String, Value)>),
    Function(usize),
    NativeFunction(Native),
    Class(usize),
    Instance(usize, Vec<(String, Value)>),
}

/// A value as specifications see it.
pub enum SpecValue {
    Int(i64),
    Float(u64),
    String(Seq<char>),
    Bool(bool),
    Null,
    Array(Seq<SpecValue>),
    Object(Seq<(Seq<char>, SpecValue)>),
    Function(usize),
    NativeFunction(Native),
    Class(usize),
    Instance(usize, Seq<(Seq<char>, SpecValue)>),
}

pub open spec fn value_view(v: Value) -> SpecValue
    decreases v,
{
    match v {
        Value::Int(i) => SpecValue::Int(i),
        Value::Float(b) => SpecValue::Float(b),
        Value::String(s) => SpecValue::String(s@),
        Value::Bool(b) => SpecValue::Bool(b),
        Value::Null => SpecValue::Null,
        Value::Array(xs) => SpecValue::Array(
            Seq::new(
                xs@.len(),
                |i: int|
                    if 0 <= i < xs@.len() {
                        value_view(xs@[i])
                    } else {
                        SpecValue::Null
                    },
            ),
        ),
        Value::Object(fs) => SpecValue::Object(
            Seq::new(
                fs@.len(),
                |i: int|
                    if 0 <= i < fs@.len() {
                        (fs@[i].0@, value_view(fs@[i].1))
                    } else {
                        (Seq::empty(), SpecValue::Null)
                    },
            ),
        ),
        Value::Function(i) => SpecValue::Function(i),
        Value::NativeFunction(n) => SpecValue::NativeFunction(n),
        Value::Class(i) => SpecValue::Class(i),
        Value::Instance(c, fs) => SpecValue::Instance(
            c,
            Seq::new(
                fs@.len(),
                |i: int|
                    if 0 <= i < fs@.len() {
                        (fs@[i].0@, value_view(fs@[i].1))
                    } else {
                        (Seq::empty(), SpecValue::Null)
                    },
            ),
        ),
    }
}

impl View for Value {
    type V = SpecValue;

    open spec fn view(&self) -> SpecValue {
        value_view(*self)
    }
}

/// The views of a sequence of values.
pub open spec fn values_view(xs: Seq<Value>) -> Seq<SpecValue> {
    Seq::new(xs.len(), |i: int| xs[i]@)
}

/// The views of a sequence of named fields.
pub open spec fn fields_view(fs: Seq<(String, Value)>) -> Seq<(Seq<char>, SpecValue)> {
    Seq::new(fs.len(), |i: int| (fs[i].0@, fs[i].1@))
}

pub proof fn lemma_array_view(xs: Vec<Value>)
    ensures
        Value::Array(xs)@ == SpecValue::Array(values_view(xs@)),
{
    let v = value_view(Value::Array(xs));
    let s1 = values_view(xs@);
    assert(v is Array);
    let s2 = v->Array_0;
    assert(s1.len() == s2.len());
    assert forall|i: int| 0 <= i < s1.len() implies s1[i] == s2[i] by {}
    assert(s1 =~= s2);
}

pub proof fn lemma_object_view(fs: Vec<(String, Value)>)
    ensures
        Value::Object(fs)@ == SpecValue::Object(fields_view(fs@)),
        forall|c: usize| #[trigger] Value::Instance(c, fs)@ == SpecValue::Instance(c, fields_view(fs@)),
{
    let v = value_view(Value::Object(fs));
    let s1 = fields_view(fs@);
    let s2 = v->Object_0;
    assert forall|i: int| 0 <= i < s1.len() implies s1[i] == s2[i] by {}
    assert(s1 =~= s2);
    assert forall|c: usize| #[trigger] Value::Instance(c, fs)@ == SpecValue::Instance(c, fields_view(fs@)) by {
        let w = value_view(Value::Instance(c, fs));
        let s3 = w->Instance_1;
        assert forall|i: int| 0 <= i < s1.len() implies s1[i] == s3[i] by {}
        assert(s1 =~= s3);
    }
}

pub proof fn lemma_values_view_push(xs: Seq<Value>, x: Value)
    ensures
        values_view(xs.push(x)) == values_view(xs).push(x@),
{
    assert(values_view(xs.push(x)) =~= values_view(xs).push(x@));
}

pub proof fn lemma_fields_view_push(fs: Seq<(String, Value)>, f: (String, Value))
    ensures
        fields_view(fs.push(f)) == fields_view(fs).push((f.0@, f.1@)),
{
    assert(fields_view(fs.push(f)) =~= fields_view(fs).push((f.0@, f.1@)));
}

pub proof fn lemma_values_view_drop_last(xs: Seq<Value>)
    requires
        xs.len() > 0,
    ensures
        values_view(xs.drop_last()) == values_view(xs).drop_last(),
        values_view(xs).last() == xs.last()@,
{
    assert(values_view(xs.drop_last()) =~= values_view(xs).drop_last());
}

// ---------------------------------------------------------------------------
// Floating-point bits.
// ---------------------------------------------------------------------------

/// All bits but the sign.
pub open spec fn magnitude(bits: u64) -> u64 {
    bits & 0x7fff_ffff_ffff_ffffu64
}

/// The bits encode a NaN.
pub open spec fn is_nan_bits(bits: u64) -> bool {
    magnitude(bits) > 0x7ff0_0000_0000_0000u64
}

/// The bits encode `+0.0` or `-0.0`.
pub open spec fn is_zero_bits(bits: u64) -> bool {
    magnitude(bits) == 0
}

/// IEEE-754 equality on the encoded numbers: no NaN equals anything, and the
/// two zeros are equal.
pub open spec fn float_bits_equal(a: u64, b: u64) -> bool {
    !is_nan_bits(a) && !is_nan_bits(b) && (a == b || (is_zero_bits(a) && is_zero_bits(b)))
}

/// The encoding of the negated number: the sign bit flipped.
pub open spec fn negated_bits(bits: u64) -> u64 {
    bits ^ 0x8000_0000_0000_0000u64
}

pub fn float_is_zero(bits: u64) -> (r: bool)
    ensures
        r == is_zero_bits(bits),
{
    bits & 0x7fff_ffff_ffff_ffffu64 == 0
}

pub fn float_equal(a: u64, b: u64) -> (r: bool)
    ensures
        r == float_bits_equal(a, b),
{
    let ma = a & 0x7fff_ffff_ffff_ffffu64;
    let mb = b & 0x7fff_ffff_ffff_ffffu64;
    ma <= 0x7ff0_0000_0000_0000u64 && mb <= 0x7ff0_0000_0000_0000u64 && (a == b || (ma == 0 && mb == 0))
}

// ---------------------------------------------------------------------------
// Truthiness and type names.
// ---------------------------------------------------------------------------

/// Whether a value counts as true in a condition.
pub open spec fn truthy(v: SpecValue) -> bool {
    match v {
        SpecValue::Bool(b) => b,
        SpecValue::Int(i) => i != 0,
        SpecValue::Float(f) => !is_zero_bits(f),
        SpecValue::String(s) => s.len() != 0,
        SpecValue::Array(a) => a.len() != 0,
        SpecValue::Object(o) => o.len() != 0,
        SpecValue::Null => false,
        _ => true,
    }
}

/// The name of a value's type.
pub open spec fn type_name_of(v: SpecValue) -> Seq<char> {
    match v {
        SpecValue::Int(_) => "int"@,
        SpecValue::Float(_) => "float"@,
        SpecValue::String(_) => "string"@,
        SpecValue::Bool(_) => "bool"@,
        SpecValue::Null => "null"@,
        SpecValue::Array(_) => "array"@,
        SpecValue::Object(_) => "object"@,
        SpecValue::Function(_) => "function"@,
        SpecValue::NativeFunction(_) => "native"@,
        SpecValue::Class(_) => "class"@,
        SpecValue::Instance(_, _) => "instance"@,
    }
}

/// The name under which a built-in function is bound.
pub open spec fn native_name_of(n: Native) -> Seq<char> {
    match n {
        Native::Print => "print"@,
        Native::PrintLn => "println"@,
        Native::Input => "input"@,
        Native::Len => "len"@,
        Native::Type => "type"@,
        Native::Str => "str"@,
        Native::Int => "int"@,
        Native::Float => "float"@,
    }
}

impl Native {
    /// The name under which the built-in function is bound.
    pub fn name(&self) -> (s: &'static str)
        ensures
            s@ == native_name_of(*self),
    {
        match self {
            Native::Print => "print",
            Native::PrintLn => "println",
            Native::Input => "input",
            Native::Len => "len",
            Native::Type => "type",
            Native::Str => "str",
            Native::Int => "int",
            Native::Float => "float",
        }
    }
}

impl Value {
    /// Whether the value counts as true in a condition: `false`, zero, `0.0`,
    /// empty strings, arrays and objects, and `null` do not.
    pub fn is_truthy(&self) -> (b: bool)
        ensures
            b == truthy(self@),
    {
        proof {
            lemma_object_view_all(*self);
        }
        match self {
            Value::Bool(b) => *b,
            Value::Int(i) => *i != 0,
            Value::Float(f) => !float_is_zero(*f),
            Value::String(s) => char_count(s.as_str()) != 0,
            Value::Array(a) => a.len() != 0,
            Value::Object(o) => o.len() != 0,
            Value::Null => false,
            _ => true,
        }
    }

    /// The name of the value's type.
    pub fn value_type_name(&self) -> (s: &'static str)
        ensures
            s@ == type_name_of(self@),
    {
        proof {
            lemma_object_view_all(*self);
        }
        match self {
            Value::Int(_) => "int",
            Value::Float(_) => "float",
            Value::String(_) => "string",
            Value::Bool(_) => "bool",
            Value::Null => "null",
            Value::Array(_) => "array",
            Value::Object(_) => "object",
            Value::Function(_) => "function",
            Value::NativeFunction(_) => "native",
            Value::Class(_) => "class",
            Value::Instance(_, _) => "instance",
        }
    }
}

/// How each kind of value appears in the view.
pub proof fn lemma_object_view_all(v: Value)
    ensures
        match v {
            Value::Array(xs) => v@ == SpecValue::Array(values_view(xs@)),
            Value::Object(fs) => v@ == SpecValue::Object(fields_view(fs@)),
            Value::Instance(c, fs) => v@ == SpecValue::Instance(c, fields_view(fs@)),
            _ => true,
        },
{
    match v {
        Value::Array(xs) => lemma_array_view(xs),
        Value::Object(fs) => lemma_object_view(fs),
        Value::Instance(c, fs) => lemma_object_view(fs),
        _ => {},
    }
}


// ---------------------------------------------------------------------------
// Equality.
// ---------------------------------------------------------------------------

/// The first field at or after `i` named `k`.
pub open spec fn find_field_from(g: Seq<(Seq<char>, SpecValue)>, k: Seq<char>, i: int) -> Option<int>
    decreases g.len() - i,
{
    if i < 0 || i >= g.len() {
        None
    } else if g[i].0 == k {
        Some(i)
    } else {
        find_field_from(g, k, i + 1)
    }
}

pub proof fn lemma_find_field_from_range(g: Seq<(Seq<char>, SpecValue)>, k: Seq<char>, i: int)
    ensures
        find_field_from(g, k, i) matches Some(j) ==> i <= j < g.len() && g[j].0 == k,
    decreases g.len() - i,
{
    if 0 <= i < g.len() && g[i].0 != k {
        lemma_find_field_from_range(g, k, i + 1);
    }
}

/// The first field named `k`.
pub open spec fn find_field(g: Seq<(Seq<char>, SpecValue)>, k: Seq<char>) -> Option<int> {
    find_field_from(g, k, 0)
}

/// The fields with `k` set to `v`: in place where `k` is already a field,
/// else added at the end.
pub open spec fn set_field(g: Seq<(Seq<char>, SpecValue)>, k: Seq<char>, v: SpecValue) -> Seq<(Seq<char>, SpecValue)> {
    match find_field(g, k) {
        Some(j) => g.update(j, (k, v)),
        None => g.push((k, v)),
    }
}

/// Equality of values, as `==` decides it: numbers of the same kind compare
/// by value (IEEE-754 for floats), arrays element by element, objects and
/// instances as maps from field names to values.
pub open spec fn value_eq(a: SpecValue, b: SpecValue) -> bool
    decreases a,
{
    match a {
        SpecValue::Int(x) => b matches SpecValue::Int(y) && x == y,
        SpecValue::Float(x) => b matches SpecValue::Float(y) && float_bits_equal(x, y),
        SpecValue::String(x) => b matches SpecValue::String(y) && x == y,
        SpecValue::Bool(x) => b matches SpecValue::Bool(y) && x == y,
        SpecValue::Null => b is Null,
        SpecValue::Array(xs) => match b {
            SpecValue::Array(ys) => xs.len() == ys.len() && forall|i: int|
                0 <= i < xs.len() ==> value_eq(#[trigger] xs[i], ys[i]),
            _ => false,
        },
        SpecValue::Object(f) => match b {
            SpecValue::Object(g) => f.len() == g.len() && forall|i: int|
                0 <= i < f.len() ==> match find_field(g, #[trigger] f[i].0) {
                    Some(j) => value_eq(f[i].1, g[j].1),
                    None => false,
                },
            _ => false,
        },
        SpecValue::Function(x) => b matches SpecValue::Function(y) && x == y,
        SpecValue::NativeFunction(x) => b matches SpecValue::NativeFunction(y) && x == y,
        SpecValue::Class(x) => b matches SpecValue::Class(y) && x == y,
        SpecValue::Instance(c, f) => match b {
            SpecValue::Instance(d, g) => c == d && f.len() == g.len() && forall|i: int|
                0 <= i < f.len() ==> match find_field(g, #[trigger] f[i].0) {
                    Some(j) => value_eq(f[i].1, g[j].1),
                    None => false,
                },
            _ => false,
        },
    }
}

/// The index of the first field named `k`.
pub fn find_field_index(fs: &Vec<(String, Value)>, k: &String) -> (r: Option<usize>)
    ensures
        match r {
            Some(j) => find_field(fields_view(fs@), k@) == Some(j as int),
            None => find_field(fields_view(fs@), k@) is None,
        },
{
    let ghost g = fields_view(fs@);
    let mut i: usize = 0;
    while i < fs.len()
        invariant
            g == fields_view(fs@),
            i <= fs.len(),
            find_field_from(g, k@, i as int) == find_field(g, k@),
        decreases fs.len() - i,
    {
        if fs[i].0 == *k {
            return Some(i);
        }
        i = i + 1;
    }
    None
}

/// Whether two values are equal, as `==` decides it.
pub fn values_equal(a: &Value, b: &Value) -> (r: bool)
    ensures
        r == value_eq(a@, b@),
    decreases *a,
{
    proof {
        lemma_object_view_all(*a);
        lemma_object_view_all(*b);
    }
    match a {
        Value::Int(x) => match b {
            Value::Int(y) => *x == *y,
            _ => false,
        },
        Value::Float(x) => match b {
            Value::Float(y) => float_equal(*x, *y),
            _ => false,
        },
        Value::String(x) => match b {
            Value::String(y) => *x == *y,
            _ => false,
        },
        Value::Bool(x) => match b {
            Value::Bool(y) => *x == *y,
            _ => false,
        },
        Value::Null => match b {
            Value::Null => true,
            _ => false,
        },
        Value::Array(xs) => match b {
            Value::Array(ys) => {
                if xs.len() != ys.len() {
                    return false;
                }
                let mut i: usize = 0;
                while i < xs.len()
                    invariant
                        xs.len() == ys.len(),
                        i <= xs.len(),
                        *a == Value::Array(*xs),
                        a@ == SpecValue::Array(values_view(xs@)),
                        b@ == SpecValue::Array(values_view(ys@)),
                        forall|k: int| 0 <= k < i ==> value_eq(#[trigger] values_view(xs@)[k], values_view(ys@)[k]),
                    decreases xs.len() - i,
                {
                    proof {
                        assert(decreases_to!(*a => (*a)->Array_0));
                        assert((*a)->Array_0 == *xs);
                        assert(decreases_to!(*xs => xs@));
                        assert(decreases_to!(xs@ => xs@[i as int]));
                    }
                    if !values_equal(&xs[i], &ys[i]) {
                        proof {
                            let av = values_view(xs@);
                            let bv = values_view(ys@);
                            assert(av[i as int] == xs@[i as int]@);
                            assert(bv[i as int] == ys@[i as int]@);
                            assert(!value_eq(av[i as int], bv[i as int]));
                            assert(a@ == SpecValue::Array(av));
                            assert(b@ == SpecValue::Array(bv));
                        }
                        return false;
                    }
                    i = i + 1;
                }
                true
            },
            _ => false,
        },
        Value::Object(f) => match b {
            Value::Object(g) => fields_equal(a, f, g),
            _ => false,
        },
        Value::Function(x) => match b {
            Value::Function(y) => *x == *y,
            _ => false,
        },
        Value::NativeFunction(x) => match b {
            Value::NativeFunction(y) => *x == *y,
            _ => false,
        },
        Value::Class(x) => match b {
            Value::Class(y) => *x == *y,
            _ => false,
        },
        Value::Instance(c, f) => match b {
            Value::Instance(d, g) => *c == *d && fields_equal(a, f, g),
            _ => false,
        },
    }
}

/// Whether two field maps are equal: the same number of fields, and each
/// field of `f` is a field of `g` with an equal value.
fn fields_equal(owner: &Value, f: &Vec<(String, Value)>, g: &Vec<(String, Value)>) -> (r: bool)
    requires
        *owner == Value::Object(*f) || exists|c: usize| *owner == Value::Instance(c, *f),
    ensures
        r == (f@.len() == g@.len() && forall|i: int|
            0 <= i < f@.len() ==> match find_field(fields_view(g@), #[trigger] fields_view(f@)[i].0) {
                Some(j) => value_eq(fields_view(f@)[i].1, fields_view(g@)[j].1),
                None => false,
            }),
    decreases *owner, 0nat,
{
    if f.len() != g.len() {
        return false;
    }
    let mut i: usize = 0;
    while i < f.len()
        invariant
            f.len() == g.len(),
            i <= f.len(),
            *owner == Value::Object(*f) || exists|c: usize| *owner == Value::Instance(c, *f),
            forall|k: int| 0 <= k < i ==> match find_field(fields_view(g@), #[trigger] fields_view(f@)[k].0) {
                Some(j) => value_eq(fields_view(f@)[k].1, fields_view(g@)[j].1),
                None => false,
            },
        decreases f.len() - i,
    {
        match find_field_index(g, &f[i].0) {
            Some(j) => {
                proof {
                    lemma_find_field_from_range(fields_view(g@), f@[i as int].0@, 0);
                }
                proof {
                    if *owner == Value::Object(*f) {
                        assert(decreases_to!(*owner => (*owner)->Object_0));
                    } else {
                        let c = choose|c: usize| *owner == Value::Instance(c, *f);
                        assert(decreases_to!(*owner => (*owner)->Instance_1));
                    }
                    assert(decreases_to!(*f => f@));
                    assert(decreases_to!(f@ => f@[i as int]));
                    assert(decreases_to!(f@[i as int] => f@[i as int].1));
                }
                if !values_equal(&f[i].1, &g[j].1) {
                    proof {
                        let fv = fields_view(f@);
                        let gv = fields_view(g@);
                        assert(fv[i as int].1 == f@[i as int].1@);
                        assert(gv[j as int].1 == g@[j as int].1@);
                        assert(fv[i as int].0 == f@[i as int].0@);
                        assert(!value_eq(fv[i as int].1, gv[j as int].1));
                    }
                    return false;
                }
            },
            None => {
                assert(fields_view(f@)[i as int].0 == f@[i as int].0@);
                return false;
            },
        }
        i = i + 1;
    }
    true
}


// ---------------------------------------------------------------------------
// Text of numbers, byte lengths and string order.
// ---------------------------------------------------------------------------

/// The decimal digit for `d < 10`.
pub open spec fn digit_char(d: nat) -> char {
    ((d + 48) as u8) as char
}

/// The decimal text of a natural number, without leading zeros.
pub open spec fn nat_text(n: nat) -> Seq<char>
    decreases n,
{
    if n < 10 {
        seq![digit_char(n)]
    } else {
        nat_text(n / 10).push(digit_char(n % 10))
    }
}

/// The decimal text of an integer, with a leading `-` when negative.
pub open spec fn int_text(i: int) -> Seq<char> {
    if i < 0 {
        seq!['-'] + nat_text((-i) as nat)
    } else {
        nat_text(i as nat)
    }
}

/// The number of bytes of the UTF-8 encoding of `s`.
pub open spec fn byte_len(s: Seq<char>) -> nat {
    vstd::utf8::encode_utf8(s).len()
}

/// Lexicographic order on byte sequences: `a` comes before `b`.
pub open spec fn bytes_less(a: Seq<u8>, b: Seq<u8>) -> bool
    decreases a.len(),
{
    if a.len() == 0 {
        b.len() > 0
    } else if b.len() == 0 {
        false
    } else if a[0] != b[0] {
        a[0] < b[0]
    } else {
        bytes_less(a.drop_first(), b.drop_first())
    }
}

/// The order of strings: that of their UTF-8 bytes.
pub open spec fn text_less(a: Seq<char>, b: Seq<char>) -> bool {
    bytes_less(vstd::utf8::encode_utf8(a), vstd::utf8::encode_utf8(b))
}

/// `s` repeated `n` times.
pub open spec fn repeated(s: Seq<char>, n: nat) -> Seq<char>
    decreases n,
{
    if n == 0 {
        Seq::empty()
    } else {
        repeated(s, (n - 1) as nat) + s
    }
}

fn push_digits(out: &mut String, n: u64)
    ensures
        final(out)@ == old(out)@ + nat_text(n as nat),
    decreases n,
{
    if n >= 10 {
        push_digits(out, n / 10);
    }
    let d = (n % 10) as u8;
    push_char(out, (d + 48u8) as char);
    proof {
        if n >= 10 {
            assert(old(out)@ + nat_text(n as nat) =~= old(out)@ + nat_text((n / 10) as nat) + seq![digit_char((n % 10) as nat)]);
        } else {
            assert(nat_text(n as nat) =~= seq![digit_char(n as nat)]);
        }
    }
}

/// The decimal text of a natural number.
pub fn uint_to_text(n: u64) -> (s: String)
    ensures
        s@ == nat_text(n as nat),
{
    let mut out = String::new();
    push_digits(&mut out, n);
    proof {
        assert(out@ =~= nat_text(n as nat));
    }
    out
}

/// The decimal text of an integer.
pub fn int_to_text(i: i64) -> (s: String)
    ensures
        s@ == int_text(i as int),
{
    let mut out = String::new();
    if i < 0 {
        push_char(&mut out, '-');
        let m: u64 = if i == i64::MIN {
            9223372036854775808u64
        } else {
            (-i) as u64
        };
        push_digits(&mut out, m);
        proof {
            assert(out@ =~= int_text(i as int));
        }
    } else {
        push_digits(&mut out, i as u64);
        proof {
            assert(out@ =~= int_text(i as int));
        }
    }
    out
}

/// The number of bytes of the UTF-8 encoding of a string.
pub fn text_byte_len(s: &String) -> (n: usize)
    ensures
        n == byte_len(s@) as usize,
{
    s.as_str().len()
}

/// Whether `a` comes before `b` in the order of strings.
pub fn string_less(a: &String, b: &String) -> (r: bool)
    ensures
        r == text_less(a@, b@),
{
    let x = a.as_str().as_bytes();
    let y = b.as_str().as_bytes();
    let mut i: usize = 0;
    proof {
        assert(x@.skip(0) =~= x@);
        assert(y@.skip(0) =~= y@);
    }
    while i < x.len() && i < y.len() && x[i] == y[i]
        invariant
            i <= x@.len(),
            i <= y@.len(),
            x@ == vstd::utf8::encode_utf8(a@),
            y@ == vstd::utf8::encode_utf8(b@),
            bytes_less(x@.skip(i as int), y@.skip(i as int)) == text_less(a@, b@),
        decreases x.len() - i,
    {
        proof {
            assert(x@.skip(i as int).drop_first() =~= x@.skip(i + 1));
            assert(y@.skip(i as int).drop_first() =~= y@.skip(i + 1));
        }
        i = i + 1;
    }
    if i == x.len() {
        i < y.len()
    } else if i == y.len() {
        false
    } else {
        x[i] < y[i]
    }
}

/// `s` followed by `t`.
pub fn concat_text(s: &String, t: &String) -> (r: String)
    ensures
        r@ == s@ + t@,
{
    let mut r = s.clone();
    r.append(t.as_str());
    r
}

/// `s` repeated `n` times.
pub fn repeat_text(s: &String, n: usize) -> (r: String)
    ensures
        r@ == repeated(s@, n as nat),
{
    let mut r = String::new();
    let mut k: usize = 0;
    while k < n
        invariant
            k <= n,
            r@ == repeated(s@, k as nat),
        decreases n - k,
    {
        r.append(s.as_str());
        k = k + 1;
    }
    r
}


// ---------------------------------------------------------------------------
// Copies.
// ---------------------------------------------------------------------------

/// A copy of a value.
pub fn copy_value(v: &Value) -> (r: Value)
    ensures
        r@ == v@,
    decreases *v,
{
    proof {
        lemma_object_view_all(*v);
    }
    match v {
        Value::Int(i) => Value::Int(*i),
        Value::Float(f) => Value::Float(*f),
        Value::String(s) => Value::String(s.clone()),
        Value::Bool(b) => Value::Bool(*b),
        Value::Null => Value::Null,
        Value::Array(xs) => {
            let mut r: Vec<Value> = Vec::new();
            let mut i: usize = 0;
            while i < xs.len()
                invariant
                    i <= xs.len(),
                    *v == Value::Array(*xs),
                    values_view(r@) == values_view(xs@.take(i as int)),
                decreases xs.len() - i,
            {
                proof {
                    assert(decreases_to!(*v => (*v)->Array_0));
                    assert(decreases_to!(*xs => xs@));
                    assert(decreases_to!(xs@ => xs@[i as int]));
                }
                let c = copy_value(&xs[i]);
                let ghost old_r = r@;
                r.push(c);
                proof {
                    lemma_values_view_push(old_r, c);
                    assert(xs@.take(i + 1) =~= xs@.take(i as int).push(xs@[i as int]));
                    lemma_values_view_push(xs@.take(i as int), xs@[i as int]);
                }
                i = i + 1;
            }
            proof {
                assert(xs@.take(xs.len() as int) =~= xs@);
                lemma_array_view(r);
            }
            Value::Array(r)
        },
        Value::Object(fs) => {
            let r = copy_fields(v, fs);
            proof {
                lemma_object_view(r);
            }
            Value::Object(r)
        },
        Value::Function(i) => Value::Function(*i),
        Value::NativeFunction(n) => Value::NativeFunction(*n),
        Value::Class(i) => Value::Class(*i),
        Value::Instance(c, fs) => {
            let r = copy_fields(v, fs);
            proof {
                lemma_object_view(r);
            }
            Value::Instance(*c, r)
        },
    }
}

fn copy_fields(owner: &Value, fs: &Vec<(String, Value)>) -> (r: Vec<(String, Value)>)
    requires
        *owner == Value::Object(*fs) || exists|c: usize| *owner == Value::Instance(c, *fs),
    ensures
        fields_view(r@) == fields_view(fs@),
    decreases *owner, 0nat,
{
    let mut r: Vec<(String, Value)> = Vec::new();
    let mut i: usize = 0;
    while i < fs.len()
        invariant
            i <= fs.len(),
            *owner == Value::Object(*fs) || exists|c: usize| *owner == Value::Instance(c, *fs),
            fields_view(r@) == fields_view(fs@.take(i as int)),
        decreases fs.len() - i,
    {
        proof {
            if *owner == Value::Object(*fs) {
                assert(decreases_to!(*owner => (*owner)->Object_0));
            } else {
                let c = choose|c: usize| *owner == Value::Instance(c, *fs);
                assert(decreases_to!(*owner => (*owner)->Instance_1));
            }
            assert(decreases_to!(*fs => fs@));
            assert(decreases_to!(fs@ => fs@[i as int]));
            assert(decreases_to!(fs@[i as int] => fs@[i as int].1));
        }
        let c = copy_value(&fs[i].1);
        let ghost old_r = r@;
        let entry = (fs[i].0.clone(), c);
        r.push(entry);
        proof {
            lemma_fields_view_push(old_r, entry);
            assert(fs@.take(i + 1) =~= fs@.take(i as int).push(fs@[i as int]));
            lemma_fields_view_push(fs@.take(i as int), fs@[i as int]);
        }
        i = i + 1;
    }
    proof {
        assert(fs@.take(fs.len() as int) =~= fs@);
    }
    r
}

impl Clone for Value {
    fn clone(&self) -> (r: Self)
        ensures
            r@ == self@,
    {
        copy_value(self)
    }
}

} // verus!
