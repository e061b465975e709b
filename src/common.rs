use crate::tokens::push_char;
use std::rc::Rc;
use vstd::prelude::*;

verus! {

/// A number of the language: a double-precision float.
///
/// The library never computes with numbers itself. A numeral keeps the digits
/// it was written with (it stands for the double nearest to them); a number
/// produced at run time keeps its IEEE-754 bit pattern.
#[derive(Debug, PartialEq)]
pub enum Number {
    Numeral(String),
    Bits(u64),
}

pub enum NumberView {
    Numeral(Seq<char>),
    Bits(u64),
}

impl View for Number {
    type V = NumberView;

    open spec fn view(&self) -> NumberView {
        match self {
            Number::Numeral(s) => NumberView::Numeral(s@),
            Number::Bits(b) => NumberView::Bits(*b),
        }
    }
}

impl Number {
    pub fn duplicate(&self) -> (r: Number)
        ensures
            r@ == self@,
    {
        match self {
            Number::Numeral(s) => Number::Numeral(s.clone()),
            Number::Bits(b) => Number::Bits(*b),
        }
    }
}

/// A heap object. Its contents sit behind a shared handle, so copying a value
/// never copies the text.
#[derive(Debug, PartialEq)]
pub enum Obj {
    String(Rc<String>),
}

/// A run-time value.
#[derive(Debug, PartialEq)]
pub enum Value {
    Number(Number),
    Boolean(bool),
    Nil,
    Obj(Obj),
}

/// What a value is, with its text as a sequence of characters.
pub enum ValueView {
    Number(NumberView),
    Boolean(bool),
    Nil,
    Str(Seq<char>),
}

impl View for Value {
    type V = ValueView;

    open spec fn view(&self) -> ValueView {
        match self {
            Value::Number(n) => ValueView::Number(n@),
            Value::Boolean(b) => ValueView::Boolean(*b),
            Value::Nil => ValueView::Nil,
            Value::Obj(Obj::String(s)) => ValueView::Str(s@),
        }
    }
}

impl Value {
    /// A copy of the value that shares the text of a string object.
    pub fn duplicate(&self) -> (r: Value)
        ensures
            r@ == self@,
    {
        match self {
            Value::Number(n) => Value::Number(n.duplicate()),
            Value::Boolean(b) => Value::Boolean(*b),
            Value::Nil => Value::Nil,
            Value::Obj(Obj::String(s)) => Value::Obj(Obj::String(Rc::clone(s))),
        }
    }
}


/// What a value prints as: `true`/`false`, `nil`, or the text of a string.
/// A number has no such text here: only a double can give its decimal form.
pub open spec fn printed(v: ValueView) -> Option<Seq<char>> {
    match v {
        ValueView::Number(_) => None,
        ValueView::Boolean(b) => Some(if b { seq!['t', 'r', 'u', 'e'] } else { seq!['f', 'a', 'l', 's', 'e'] }),
        ValueView::Nil => Some(seq!['n', 'i', 'l']),
        ValueView::Str(s) => Some(s),
    }
}

impl Value {
    /// The value's printed text; `None` for a number.
    pub fn print_lox(&self) -> (r: Option<String>)
        ensures
            r matches Some(t) ==> printed(self@) == Some(t@),
            r is None ==> printed(self@) is None,
    {
        match self {
            Value::Number(_) => None,
            Value::Boolean(b) => {
                if *b {
                    proof { reveal_strlit("true"); }
                    Some(String::from_str("true"))
                } else {
                    proof { reveal_strlit("false"); }
                    Some(String::from_str("false"))
                }
            },
            Value::Nil => {
                proof { reveal_strlit("nil"); }
                Some(String::from_str("nil"))
            },
            Value::Obj(Obj::String(s)) => Some((**s).clone()),
        }
    }
}

/// An instruction of the virtual machine. A constant carries its value inline.
#[derive(Debug, PartialEq)]
pub enum OpCode {
    Return,
    Constant(Value),
    Not,
    Negate,
    Add,
    Subtract,
    Multiply,
    Divide,
    Equal,
    Greater,
    Less,
    Print,
    Pop,
}

pub enum OpView {
    Return,
    Constant(ValueView),
    Not,
    Negate,
    Add,
    Subtract,
    Multiply,
    Divide,
    Equal,
    Greater,
    Less,
    Print,
    Pop,
}

impl View for OpCode {
    type V = OpView;

    open spec fn view(&self) -> OpView {
        match self {
            OpCode::Return => OpView::Return,
            OpCode::Constant(v) => OpView::Constant(v@),
            OpCode::Not => OpView::Not,
            OpCode::Negate => OpView::Negate,
            OpCode::Add => OpView::Add,
            OpCode::Subtract => OpView::Subtract,
            OpCode::Multiply => OpView::Multiply,
            OpCode::Divide => OpView::Divide,
            OpCode::Equal => OpView::Equal,
            OpCode::Greater => OpView::Greater,
            OpCode::Less => OpView::Less,
            OpCode::Print => OpView::Print,
            OpCode::Pop => OpView::Pop,
        }
    }
}

/// An instruction with the source line it came from.
pub type Instr = (OpCode, usize);

pub open spec fn instr_view(i: Instr) -> (OpView, int) {
    (i.0@, i.1 as int)
}

/// The instructions of a sequence, as views.
pub open spec fn code_view(code: Seq<Instr>) -> Seq<(OpView, int)> {
    code.map_values(|i: Instr| instr_view(i))
}

/// A labelled sequence of instructions with their source lines.
pub struct Chunk {
    pub name: String,
    pub code: Vec<Instr>,
}

impl Chunk {
    /// An empty chunk with the given label.
    pub fn new(name: &str) -> (r: Chunk)
        ensures
            r.name@ == name@,
            r.code@.len() == 0,
    {
        Chunk { name: String::from_str(name), code: Vec::new() }
    }

    /// Whether the last instruction is `Return`, so that a run cannot pass
    /// the end of the chunk.
    pub open spec fn returns_at_end(&self) -> bool {
        self.code@.len() > 0 && self.code@.last().0 is Return
    }

    pub fn ends_with_return(&self) -> (r: bool)
        ensures
            r == self.returns_at_end(),
    {
        let n = self.code.len();
        n > 0 && matches!(self.code[n - 1].0, OpCode::Return)
    }

    /// Appends one instruction.
    pub fn write(&mut self, byte: OpCode, line: usize)
        ensures
            final(self).name == old(self).name,
            final(self).code@ == old(self).code@.push((byte, line)),
    {
        self.code.push((byte, line));
    }
}

/// A diagnostic rendering, for traces of a run.
pub trait Disassembler {
    spec fn listing(&self) -> Seq<char>;

    fn disassemble(&self) -> (r: String)
        ensures
            r@ == self.listing();
}

pub open spec fn digit_char(d: nat) -> char {
    seq!['0', '1', '2', '3', '4', '5', '6', '7', '8', '9'][d as int]
}

/// The decimal digits of a natural number.
pub open spec fn decimal(n: nat) -> Seq<char>
    decreases n,
{
    if n < 10 {
        seq![digit_char(n)]
    } else {
        decimal(n / 10).push(digit_char(n % 10))
    }
}

fn digit(d: u64) -> (c: char)
    requires
        d < 10,
    ensures
        c == digit_char(d as nat),
{
    let digits = ['0', '1', '2', '3', '4', '5', '6', '7', '8', '9'];
    proof {
        assert(digits@ =~= seq!['0', '1', '2', '3', '4', '5', '6', '7', '8', '9']);
    }
    digits[d as usize]
}

/// The decimal form of `n`.
pub fn decimal_text(n: u64) -> (r: String)
    ensures
        r@ == decimal(n as nat),
    decreases n,
{
    if n < 10 {
        let mut s = String::new();
        push_char(&mut s, digit(n));
        assert(s@ =~= seq![digit_char(n as nat)]);
        s
    } else {
        let mut s = decimal_text(n / 10);
        push_char(&mut s, digit(n % 10));
        s
    }
}

/// How a value shows in a trace: its variant and its contents.
pub open spec fn described(v: ValueView) -> Seq<char> {
    match v {
        ValueView::Number(NumberView::Numeral(d)) => "Number("@ + d + ")"@,
        ValueView::Number(NumberView::Bits(b)) => "Number(bits "@ + decimal(b as nat) + ")"@,
        ValueView::Boolean(true) => "Boolean(true)"@,
        ValueView::Boolean(false) => "Boolean(false)"@,
        ValueView::Nil => "Nil"@,
        ValueView::Str(s) => "String("@ + s + ")"@,
    }
}

impl Value {
    /// The value as it shows in a trace.
    pub fn describe(&self) -> (r: String)
        ensures
            r@ == described(self@),
    {
        let (mut text, close) = match self {
            Value::Number(Number::Numeral(d)) => {
                let mut t = String::from_str("Number(");
                t.append(d.as_str());
                (t, true)
            },
            Value::Number(Number::Bits(b)) => {
                let mut t = String::from_str("Number(bits ");
                let digits = decimal_text(*b);
                t.append(digits.as_str());
                (t, true)
            },
            Value::Boolean(true) => (String::from_str("Boolean(true)"), false),
            Value::Boolean(false) => (String::from_str("Boolean(false)"), false),
            Value::Nil => (String::from_str("Nil"), false),
            Value::Obj(Obj::String(s)) => {
                let mut t = String::from_str("String(");
                let inner: &String = &s;
                t.append(inner.as_str());
                (t, true)
            },
        };
        if close {
            text.append(")");
        }
        text
    }
}

pub open spec fn op_listing(op: OpView) -> Seq<char> {
    match op {
        OpView::Constant(v) => "Constant "@ + described(v),
            OpView::Return => "Return"@,
            OpView::Not => "Not"@,
            OpView::Negate => "Negate"@,
            OpView::Add => "Add"@,
            OpView::Subtract => "Subtract"@,
            OpView::Multiply => "Multiply"@,
            OpView::Divide => "Divide"@,
            OpView::Equal => "Equal"@,
            OpView::Greater => "Greater"@,
            OpView::Less => "Less"@,
            OpView::Print => "Print"@,
            OpView::Pop => "Pop"@,
    }
}

impl Disassembler for OpCode {
    open spec fn listing(&self) -> Seq<char> {
        op_listing(self@)
    }

    fn disassemble(&self) -> (r: String) {
        match self {
            OpCode::Constant(v) => {
                let mut t = String::from_str("Constant ");
                let d = v.describe();
                t.append(d.as_str());
                t
            },
            OpCode::Return => String::from_str("Return"),
            OpCode::Not => String::from_str("Not"),
            OpCode::Negate => String::from_str("Negate"),
            OpCode::Add => String::from_str("Add"),
            OpCode::Subtract => String::from_str("Subtract"),
            OpCode::Multiply => String::from_str("Multiply"),
            OpCode::Divide => String::from_str("Divide"),
            OpCode::Equal => String::from_str("Equal"),
            OpCode::Greater => String::from_str("Greater"),
            OpCode::Less => String::from_str("Less"),
            OpCode::Print => String::from_str("Print"),
            OpCode::Pop => String::from_str("Pop"),
        }
    }
}

/// One line per instruction.
pub open spec fn code_listing(code: Seq<(OpView, int)>) -> Seq<char>
    decreases code.len(),
{
    if code.len() == 0 {
        Seq::empty()
    } else {
        code_listing(code.drop_last()) + op_listing(code.last().0) + "\n"@
    }
}

impl Disassembler for Chunk {
    /// A header line naming the chunk, then one line per instruction.
    open spec fn listing(&self) -> Seq<char> {
        "=== "@ + self.name@ + " ===\n"@ + code_listing(code_view(self.code@))
    }

    fn disassemble(&self) -> (r: String) {
        let mut text = String::from_str("=== ");
        text.append(self.name.as_str());
        text.append(" ===\n");
        let ghost header = text@;
        let mut i: usize = 0;
        while i < self.code.len()
            invariant
                i <= self.code@.len(),
                text@ == header + code_listing(code_view(self.code@.subrange(0, i as int))),
            decreases self.code@.len() - i,
        {
            let line = self.code[i].0.disassemble();
            let ghost before = text@;
            text.append(line.as_str());
            text.append("\n");
            proof {
                let c = code_view(self.code@.subrange(0, i + 1));
                assert(c.drop_last() =~= code_view(self.code@.subrange(0, i as int)));
                assert(c.last().0 == self.code@[i as int].0@);
                assert(text@ =~= header + code_listing(c));
            }
            i = i + 1;
        }
        assert(self.code@.subrange(0, self.code@.len() as int) =~= self.code@);
        text
    }
}

} // verus!
