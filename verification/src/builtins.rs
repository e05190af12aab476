//! The text of values and errors, and the built-in functions.
//!
//! The text of a value is given as pieces: plain text, and floating-point
//! numbers, whose decimal form the host writes.
use vstd::prelude::*;

use crate::error::{ErrorOf, SpecError};
use crate::text::{parse_int, parse_int_spec};
use crate::value::{
    byte_len, concat_text, fields_view, int_text, int_to_text, lemma_object_view_all,
    native_name_of, text_byte_len, type_name_of, values_view, Native, SpecValue, Value,
};

verus! {

broadcast use vstd::string::group_string_axioms;

/// A piece of the text of a value.
#[derive(Debug, PartialEq)]
pub enum PieceOf<S> {
    Text(S),
    /// A floating-point number, by its IEEE-754 bits.
    Float(u64),
}

pub type Piece = PieceOf<String>;

pub type SpecPiece = PieceOf<Seq<char>>;

impl View for PieceOf<String> {
    type V = PieceOf<Seq<char>>;

    open spec fn view(&self) -> SpecPiece {
        match self {
            PieceOf::Text(s) => PieceOf::Text(s@),
            PieceOf::Float(f) => PieceOf::Float(*f),
        }
    }
}

pub open spec fn pieces_view(ps: Seq<Piece>) -> Seq<SpecPiece> {
    ps.map_values(|p: Piece| p@)
}

pub open spec fn text(s: Seq<char>) -> SpecPiece {
    PieceOf::Text(s)
}

/// The text of a value, in pieces.
pub open spec fn render_spec(v: SpecValue) -> Seq<SpecPiece>
    decreases v, 1int,
{
    match v {
        SpecValue::Int(i) => seq![text(int_text(i as int))],
        SpecValue::Float(f) => seq![PieceOf::Float(f)],
        SpecValue::String(s) => seq![text(s)],
        SpecValue::Bool(b) => seq![text(if b { "true"@ } else { "false"@ })],
        SpecValue::Null => seq![text("null"@)],
        SpecValue::Array(xs) => seq![text("["@)] + render_items(xs) + seq![text("]"@)],
        SpecValue::Object(fs) => seq![text("{"@)] + render_fields(fs) + seq![text("}"@)],
        SpecValue::Function(_) => seq![text("<函数>"@)],
        SpecValue::NativeFunction(n) => seq![text("<内置函数 "@ + native_name_of(n) + ">"@)],
        SpecValue::Class(_) => seq![text("<类>"@)],
        SpecValue::Instance(_, fs) => seq![text("<实例 {"@)] + render_fields(fs) + seq![text("}>"@)],
    }
}

/// The texts of values, separated by `", "`.
pub open spec fn render_items(xs: Seq<SpecValue>) -> Seq<SpecPiece>
    decreases xs, 0int,
{
    if xs.len() == 0 {
        Seq::empty()
    } else if xs.len() == 1 {
        render_spec(xs[0])
    } else {
        render_items(xs.drop_last()) + seq![text(", "@)] + render_spec(xs[xs.len() - 1])
    }
}

/// The texts `name: value` of fields, separated by `", "`.
pub open spec fn render_fields(fs: Seq<(Seq<char>, SpecValue)>) -> Seq<SpecPiece>
    decreases fs, 0int,
{
    if fs.len() == 0 {
        Seq::empty()
    } else if fs.len() == 1 {
        seq![text(fs[0].0 + ": "@)] + render_spec(fs[0].1)
    } else {
        render_fields(fs.drop_last()) + seq![text(", "@)] + seq![text(fs[fs.len() - 1].0 + ": "@)]
            + render_spec(fs[fs.len() - 1].1)
    }
}


pub proof fn lemma_pieces_view_push(ps: Seq<Piece>, p: Piece)
    ensures
        pieces_view(ps.push(p)) == pieces_view(ps).push(p@),
{
    assert(pieces_view(ps.push(p)) =~= pieces_view(ps).push(p@));
}

pub proof fn lemma_pieces_view_add(a: Seq<Piece>, b: Seq<Piece>)
    ensures
        pieces_view(a + b) == pieces_view(a) + pieces_view(b),
{
    assert(pieces_view(a + b) =~= pieces_view(a) + pieces_view(b));
}

fn push_text(out: &mut Vec<Piece>, s: String)
    ensures
        pieces_view(final(out)@) == pieces_view(old(out)@).push(text(s@)),
{
    let ghost before = out@;
    let p = PieceOf::Text(s);
    out.push(p);
    proof {
        lemma_pieces_view_push(before, p);
    }
}

fn append_pieces(out: &mut Vec<Piece>, more: Vec<Piece>)
    ensures
        pieces_view(final(out)@) == pieces_view(old(out)@) + pieces_view(more@),
{
    let ghost before = out@;
    let ghost added = more@;
    let mut more = more;
    out.append(&mut more);
    proof {
        lemma_pieces_view_add(before, added);
    }
}

/// The text of a value, in pieces. Fields come in the order they were first
/// set.
pub fn render(v: &Value) -> (r: Vec<Piece>)
    ensures
        pieces_view(r@) == render_spec(v@),
    decreases *v, 1int,
{
    proof {
        lemma_object_view_all(*v);
    }
    let mut out: Vec<Piece> = Vec::new();
    match v {
        Value::Int(i) => push_text(&mut out, int_to_text(*i)),
        Value::Float(f) => {
            out.push(PieceOf::Float(*f));
        },
        Value::String(s) => push_text(&mut out, s.clone()),
        Value::Bool(b) => push_text(&mut out, (if *b { "true" } else { "false" }).to_owned()),
        Value::Null => push_text(&mut out, "null".to_owned()),
        Value::Array(xs) => {
            push_text(&mut out, "[".to_owned());
            let items = render_items_of(v, xs);
            append_pieces(&mut out, items);
            push_text(&mut out, "]".to_owned());
        },
        Value::Object(fs) => {
            push_text(&mut out, "{".to_owned());
            let items = render_fields_of(v, fs);
            append_pieces(&mut out, items);
            push_text(&mut out, "}".to_owned());
        },
        Value::Function(_) => push_text(&mut out, "<函数>".to_owned()),
        Value::NativeFunction(n) => {
            let head = "<内置函数 ".to_owned();
            let name = n.name().to_owned();
            let t = concat_text(&concat_text(&head, &name), &">".to_owned());
            push_text(&mut out, t);
        },
        Value::Class(_) => push_text(&mut out, "<类>".to_owned()),
        Value::Instance(_, fs) => {
            push_text(&mut out, "<实例 {".to_owned());
            let items = render_fields_of(v, fs);
            append_pieces(&mut out, items);
            push_text(&mut out, "}>".to_owned());
        },
    }
    proof {
        assert(pieces_view(out@) =~= render_spec(v@));
    }
    out
}

fn render_items_of(owner: &Value, xs: &Vec<Value>) -> (r: Vec<Piece>)
    requires
        *owner == Value::Array(*xs),
    ensures
        pieces_view(r@) == render_items(values_view(xs@)),
    decreases *owner, 0int,
{
    let ghost s = values_view(xs@);
    let mut out: Vec<Piece> = Vec::new();
    let mut i: usize = 0;
    proof {
        assert(pieces_view(out@) =~= render_items(s.take(0)));
    }
    while i < xs.len()
        invariant
            i <= xs.len(),
            *owner == Value::Array(*xs),
            s == values_view(xs@),
            pieces_view(out@) == render_items(s.take(i as int)),
        decreases xs.len() - i,
    {
        proof {
            assert(decreases_to!(*owner => (*owner)->Array_0));
            assert(decreases_to!(*xs => xs@));
            assert(decreases_to!(xs@ => xs@[i as int]));
        }
        let ghost before = pieces_view(out@);
        if i > 0 {
            push_text(&mut out, ", ".to_owned());
        }
        let piece = render(&xs[i]);
        append_pieces(&mut out, piece);
        proof {
            let t = s.take(i + 1);
            assert(t.drop_last() =~= s.take(i as int));
            assert(t[t.len() - 1] == xs@[i as int]@);
            if i == 0 {
                assert(t.len() == 1);
                assert(t[0] == xs@[0]@);
                assert(pieces_view(out@) =~= render_items(t));
            } else {
                assert(pieces_view(out@) =~= render_items(t));
            }
        }
        i = i + 1;
    }
    proof {
        assert(s.take(xs.len() as int) =~= s);
    }
    out
}

fn render_fields_of(owner: &Value, fs: &Vec<(String, Value)>) -> (r: Vec<Piece>)
    requires
        *owner == Value::Object(*fs) || exists|c: usize| *owner == Value::Instance(c, *fs),
    ensures
        pieces_view(r@) == render_fields(fields_view(fs@)),
    decreases *owner, 0int,
{
    let ghost s = fields_view(fs@);
    let mut out: Vec<Piece> = Vec::new();
    let mut i: usize = 0;
    proof {
        assert(pieces_view(out@) =~= render_fields(s.take(0)));
    }
    while i < fs.len()
        invariant
            i <= fs.len(),
            *owner == Value::Object(*fs) || exists|c: usize| *owner == Value::Instance(c, *fs),
            s == fields_view(fs@),
            pieces_view(out@) == render_fields(s.take(i as int)),
        decreases fs.len() - i,
    {
        proof {
            if *owner == Value::Object(*fs) {
                assert(decreases_to!(*owner => (*owner)->Object_0));
            } else {
                let c = choose|c: usize| *owner == Value::Instance(c, *fs);
                assert(decreases_to!(*owner => (*owner)->Instance_1));
            }
            assert(decreases_to!(*fs => fs@));
            assert(decreases_to!(fs@ => fs@[i as int]));
            assert(decreases_to!(fs@[i as int] => fs@[i as int].1));
        }
        if i > 0 {
            push_text(&mut out, ", ".to_owned());
        }
        push_text(&mut out, concat_text(&fs[i].0, &": ".to_owned()));
        let piece = render(&fs[i].1);
        append_pieces(&mut out, piece);
        proof {
            let t = s.take(i + 1);
            assert(t.drop_last() =~= s.take(i as int));
            assert(t[t.len() - 1] == (fs@[i as int].0@, fs@[i as int].1@));
            if i == 0 {
                assert(t.len() == 1);
                assert(pieces_view(out@) =~= render_fields(t));
            } else {
                assert(pieces_view(out@) =~= render_fields(t));
            }
        }
        i = i + 1;
    }
    proof {
        assert(s.take(fs.len() as int) =~= s);
    }
    out
}


// ---------------------------------------------------------------------------
// Built-in functions.
// ---------------------------------------------------------------------------

/// What a built-in function comes to: a value, or work for the host whose
/// result is the value (printing and reading give `null` and the line read).
#[derive(Debug)]
pub enum NativeOf<V, L, S> {
    Value(V),
    /// Print the texts of the values, each followed by a space; then a line
    /// break when `true`. The result is `null`.
    Print(L, bool),
    /// Read a line; the result is the line, trimmed.
    ReadLine,
    /// The float (by its bits) converted to an integer.
    FloatToInt(u64),
    /// The integer converted to a float.
    IntToFloat(i64),
    /// The float that the text denotes, or 0.0.
    ParseFloat(S),
    /// The text of the value, as a string.
    Render(V),
}

pub type NativeCall = NativeOf<Value, Vec<Value>, String>;

pub type SpecNativeCall = NativeOf<SpecValue, Seq<SpecValue>, Seq<char>>;

impl View for NativeOf<Value, Vec<Value>, String> {
    type V = SpecNativeCall;

    open spec fn view(&self) -> SpecNativeCall {
        match self {
            NativeOf::Value(v) => NativeOf::Value(v@),
            NativeOf::Print(vs, nl) => NativeOf::Print(values_view(vs@), *nl),
            NativeOf::ReadLine => NativeOf::ReadLine,
            NativeOf::FloatToInt(f) => NativeOf::FloatToInt(*f),
            NativeOf::IntToFloat(i) => NativeOf::IntToFloat(*i),
            NativeOf::ParseFloat(s) => NativeOf::ParseFloat(s@),
            NativeOf::Render(v) => NativeOf::Render(v@),
        }
    }
}

/// `len(x)`: bytes of a string, elements of an array, fields of an object.
pub open spec fn len_spec(args: Seq<SpecValue>) -> SpecValue {
    if args.len() == 0 {
        SpecValue::Int(0)
    } else {
        match args[0] {
            SpecValue::String(s) => SpecValue::Int((byte_len(s) as usize) as i64),
            SpecValue::Array(a) => SpecValue::Int((a.len() as usize) as i64),
            SpecValue::Object(o) => SpecValue::Int((o.len() as usize) as i64),
            _ => SpecValue::Int(0),
        }
    }
}

/// `type(x)`: the name of the type; `null` without an argument.
pub open spec fn type_spec(args: Seq<SpecValue>) -> SpecValue {
    if args.len() == 0 {
        SpecValue::String("null"@)
    } else {
        SpecValue::String(type_name_of(args[0]))
    }
}

/// What each built-in function comes to on its arguments.
pub open spec fn native_spec(n: Native, args: Seq<SpecValue>) -> SpecNativeCall {
    match n {
        Native::Print => NativeOf::Print(args, false),
        Native::PrintLn => NativeOf::Print(args, true),
        Native::Input => NativeOf::ReadLine,
        Native::Len => NativeOf::Value(len_spec(args)),
        Native::Type => NativeOf::Value(type_spec(args)),
        Native::Str => if args.len() == 0 {
            NativeOf::Value(SpecValue::String(Seq::empty()))
        } else {
            NativeOf::Render(args[0])
        },
        Native::Int => if args.len() == 0 {
            NativeOf::Value(SpecValue::Int(0))
        } else {
            match args[0] {
                SpecValue::Int(i) => NativeOf::Value(SpecValue::Int(i)),
                SpecValue::Float(f) => NativeOf::FloatToInt(f),
                SpecValue::String(s) => NativeOf::Value(SpecValue::Int(
                    match parse_int_spec(s) {
                        Some(v) => v,
                        None => 0,
                    },
                )),
                SpecValue::Bool(b) => NativeOf::Value(SpecValue::Int(if b { 1 } else { 0 })),
                _ => NativeOf::Value(SpecValue::Int(0)),
            }
        },
        Native::Float => if args.len() == 0 {
            NativeOf::Value(SpecValue::Float(0))
        } else {
            match args[0] {
                SpecValue::Int(i) => NativeOf::IntToFloat(i),
                SpecValue::Float(f) => NativeOf::Value(SpecValue::Float(f)),
                SpecValue::String(s) => NativeOf::ParseFloat(s),
                SpecValue::Bool(b) => NativeOf::Value(SpecValue::Float(if b { 0x3ff0_0000_0000_0000u64 } else { 0 })),
                _ => NativeOf::Value(SpecValue::Float(0)),
            }
        },
    }
}

/// `len(x)`.
pub fn len_native(args: &Vec<Value>) -> (v: Value)
    ensures
        v@ == len_spec(values_view(args@)),
{
    if args.len() == 0 {
        return Value::Int(0);
    }
    proof {
        lemma_object_view_all(args@[0]);
    }
    match &args[0] {
        Value::String(s) => Value::Int(text_byte_len(s) as i64),
        Value::Array(a) => Value::Int(a.len() as i64),
        Value::Object(o) => Value::Int(o.len() as i64),
        _ => Value::Int(0),
    }
}

/// `type(x)`.
pub fn type_native(args: &Vec<Value>) -> (v: Value)
    ensures
        v@ == type_spec(values_view(args@)),
{
    if args.len() == 0 {
        return Value::String("null".to_owned());
    }
    Value::String(args[0].value_type_name().to_owned())
}

/// `str(x)`: the text of the value, for the host to write out.
pub fn str_native(args: &Vec<Value>) -> (r: NativeCall)
    ensures
        r@ == native_spec(Native::Str, values_view(args@)),
{
    if args.len() == 0 {
        return NativeOf::Value(Value::String(String::new()));
    }
    NativeOf::Render(args[0].clone())
}

/// `int(x)`.
pub fn int_native(args: &Vec<Value>) -> (r: NativeCall)
    ensures
        r@ == native_spec(Native::Int, values_view(args@)),
{
    if args.len() == 0 {
        return NativeOf::Value(Value::Int(0));
    }
    match &args[0] {
        Value::Int(i) => NativeOf::Value(Value::Int(*i)),
        Value::Float(f) => NativeOf::FloatToInt(*f),
        Value::String(s) => NativeOf::Value(Value::Int(
            match parse_int(s.as_str()) {
                Some(v) => v,
                None => 0,
            },
        )),
        Value::Bool(b) => NativeOf::Value(Value::Int(if *b { 1 } else { 0 })),
        _ => NativeOf::Value(Value::Int(0)),
    }
}

/// `float(x)`.
pub fn float_native(args: &Vec<Value>) -> (r: NativeCall)
    ensures
        r@ == native_spec(Native::Float, values_view(args@)),
{
    if args.len() == 0 {
        return NativeOf::Value(Value::Float(0));
    }
    match &args[0] {
        Value::Int(i) => NativeOf::IntToFloat(*i),
        Value::Float(f) => NativeOf::Value(Value::Float(*f)),
        Value::String(s) => NativeOf::ParseFloat(s.clone()),
        Value::Bool(b) => NativeOf::Value(Value::Float(if *b { 0x3ff0_0000_0000_0000u64 } else { 0 })),
        _ => NativeOf::Value(Value::Float(0)),
    }
}

/// What a built-in function comes to on its arguments.
pub fn call_native(n: Native, args: Vec<Value>) -> (r: NativeCall)
    ensures
        r@ == native_spec(n, values_view(args@)),
{
    match n {
        Native::Print => NativeOf::Print(args, false),
        Native::PrintLn => NativeOf::Print(args, true),
        Native::Input => NativeOf::ReadLine,
        Native::Len => NativeOf::Value(len_native(&args)),
        Native::Type => NativeOf::Value(type_native(&args)),
        Native::Str => str_native(&args),
        Native::Int => int_native(&args),
        Native::Float => float_native(&args),
    }
}

// ---------------------------------------------------------------------------
// The text of errors.
// ---------------------------------------------------------------------------

/// The text of an error.
pub open spec fn error_text(e: SpecError) -> Seq<char> {
    match e {
        ErrorOf::Syntax(s) => "语法错误: "@ + s,
        ErrorOf::Runtime(s) => "运行时错误: "@ + s,
        ErrorOf::TypeError(s) => "类型错误: "@ + s,
        ErrorOf::IndexError(s) => "索引错误: "@ + s,
        ErrorOf::NameError(s) => "名称错误: "@ + s,
        ErrorOf::DivisionByZero => "除以零"@,
        ErrorOf::FileNotFound(s) => "文件未找到: "@ + s,
        ErrorOf::ImportError(s) => "导入错误: "@ + s,
        ErrorOf::ClassError(s) => "类错误: "@ + s,
        ErrorOf::MethodError(s) => "方法错误: "@ + s,
        ErrorOf::DownloadError(s) => "下载错误: "@ + s,
        ErrorOf::NetworkError(s) => "网络错误: "@ + s,
        ErrorOf::ArityError => "参数数量错误"@,
    }
}

fn prefixed(head: &str, s: &String) -> (r: String)
    ensures
        r@ == head@ + s@,
{
    concat_text(&head.to_owned(), s)
}

impl ErrorOf<String> {
    /// The text of the error.
    pub fn message(&self) -> (m: String)
        ensures
            m@ == error_text(self@),
    {
        match self {
            ErrorOf::Syntax(s) => prefixed("语法错误: ", s),
            ErrorOf::Runtime(s) => prefixed("运行时错误: ", s),
            ErrorOf::TypeError(s) => prefixed("类型错误: ", s),
            ErrorOf::IndexError(s) => prefixed("索引错误: ", s),
            ErrorOf::NameError(s) => prefixed("名称错误: ", s),
            ErrorOf::DivisionByZero => "除以零".to_owned(),
            ErrorOf::FileNotFound(s) => prefixed("文件未找到: ", s),
            ErrorOf::ImportError(s) => prefixed("导入错误: ", s),
            ErrorOf::ClassError(s) => prefixed("类错误: ", s),
            ErrorOf::MethodError(s) => prefixed("方法错误: ", s),
            ErrorOf::DownloadError(s) => prefixed("下载错误: ", s),
            ErrorOf::NetworkError(s) => prefixed("网络错误: ", s),
            ErrorOf::ArityError => "参数数量错误".to_owned(),
        }
    }
}

} // verus!
