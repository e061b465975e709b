use crate::common::{code_view, printed, Chunk, Instr, Number, NumberView, Obj, OpCode, OpView, Value, ValueView};
use std::rc::Rc;
use vstd::prelude::*;

verus! {

/// Whether a run also writes its disassembly and the stack after each step.
#[derive(Debug, Clone, Copy, PartialEq, Eq, Structural)]
pub enum InterpretMode {
    Debug,
    Release,
}

/// How a unit of source ended.
#[derive(Debug, Clone, Copy, PartialEq, Eq, Structural)]
pub enum InterpretResult {
    Success,
    CompileError,
    RuntimeError,
}

/// An operation on two numbers, carried out by the caller.
#[derive(Debug, Clone, Copy, PartialEq, Eq, Structural)]
pub enum NumericOp {
    Add,
    Subtract,
    Multiply,
    Divide,
    Greater,
    Less,
    Equal,
}

/// What the machine asks of its caller when it stops.
///
/// Numbers are doubles, and this library does no floating-point work: each
/// operation on numbers, and the printing of one, is handed out. After a
/// `Negate`, `NonZero` or `Binary` request the caller pushes the result with
/// [`VM::supply`] and runs on.
#[derive(Debug, PartialEq)]
pub enum Request {
    /// The run is over.
    Done(InterpretResult),
    /// Write this text and a newline to standard output.
    Print(String),
    /// Write the decimal form of this number and a newline.
    PrintNumber(Number),
    /// Push the arithmetic negation of this number.
    Negate(Number),
    /// Push `Boolean(true)` if this number is not zero, else `Boolean(false)`.
    NonZero(Number),
    /// Push `left op right`: a number for arithmetic, a Boolean for a comparison.
    Binary(NumericOp, Number, Number),
}

pub enum RequestView {
    Done(InterpretResult),
    Print(Seq<char>),
    PrintNumber(NumberView),
    Negate(NumberView),
    NonZero(NumberView),
    Binary(NumericOp, NumberView, NumberView),
}

impl View for Request {
    type V = RequestView;

    open spec fn view(&self) -> RequestView {
        match self {
            Request::Done(r) => RequestView::Done(*r),
            Request::Print(s) => RequestView::Print(s@),
            Request::PrintNumber(n) => RequestView::PrintNumber(n@),
            Request::Negate(n) => RequestView::Negate(n@),
            Request::NonZero(n) => RequestView::NonZero(n@),
            Request::Binary(op, l, r) => RequestView::Binary(*op, l@, r@),
        }
    }
}

/// The effect of one instruction on the stack.
pub enum Step {
    /// Go on with the next instruction.
    Continue(Seq<ValueView>),
    /// Stop with a request; the stack is as given.
    Yield(RequestView, Seq<ValueView>),
}

pub open spec fn fail(stack: Seq<ValueView>) -> Step {
    Step::Yield(RequestView::Done(InterpretResult::RuntimeError), stack)
}

/// The stack without its top two values, or empty if it holds fewer.
pub open spec fn drop_two(stack: Seq<ValueView>) -> Seq<ValueView> {
    if stack.len() >= 2 {
        stack.subrange(0, stack.len() - 2)
    } else {
        Seq::empty()
    }
}

/// A binary instruction: the right operand is on top, the left one below it.
/// Two numbers go to the caller; two strings under `Add` are joined, left
/// first; anything else is a run-time error.
pub open spec fn binary_step(op: OpView, stack: Seq<ValueView>) -> Step {
    if stack.len() < 2 {
        fail(Seq::empty())
    } else {
        let left = stack[stack.len() - 2];
        let right = stack[stack.len() - 1];
        let below = drop_two(stack);
        match (left, right) {
            (ValueView::Number(l), ValueView::Number(r)) => match numeric_op(op) {
                Some(nop) => Step::Yield(RequestView::Binary(nop, l, r), below),
                None => fail(below),
            },
            (ValueView::Str(l), ValueView::Str(r)) => match op {
                OpView::Add => Step::Continue(below.push(ValueView::Str(l + r))),
                OpView::Equal => Step::Continue(below.push(ValueView::Boolean(l == r))),
                _ => fail(below),
            },
            (ValueView::Boolean(l), ValueView::Boolean(r)) => match op {
                OpView::Equal => Step::Continue(below.push(ValueView::Boolean(l == r))),
                _ => fail(below),
            },
            (ValueView::Nil, ValueView::Nil) => match op {
                OpView::Equal => Step::Continue(below.push(ValueView::Boolean(true))),
                _ => fail(below),
            },
            _ => fail(below),
        }
    }
}

pub open spec fn numeric_op(op: OpView) -> Option<NumericOp> {
    match op {
        OpView::Add => Some(NumericOp::Add),
        OpView::Subtract => Some(NumericOp::Subtract),
        OpView::Multiply => Some(NumericOp::Multiply),
        OpView::Divide => Some(NumericOp::Divide),
        OpView::Greater => Some(NumericOp::Greater),
        OpView::Less => Some(NumericOp::Less),
        OpView::Equal => Some(NumericOp::Equal),
        _ => None,
    }
}

/// What one instruction does to the stack. Unary instructions pop their
/// operand first. `Not` turns `nil` into true and a Boolean into its negation,
/// and asks the caller whether a number is non-zero; on a string it fails.
/// `Print` on an empty stack fails like any other missing operand, while `Pop`
/// and `Return` on an empty stack leave it empty.
pub open spec fn step(op: OpView, stack: Seq<ValueView>) -> Step {
    let popped = if stack.len() > 0 { stack.drop_last() } else { stack };
    match op {
        OpView::Return => Step::Yield(RequestView::Done(InterpretResult::Success), popped),
        OpView::Constant(v) => Step::Continue(stack.push(v)),
        OpView::Pop => Step::Continue(popped),
        OpView::Negate => if stack.len() > 0 && stack.last() is Number {
            Step::Yield(RequestView::Negate(stack.last()->Number_0), popped)
        } else {
            fail(popped)
        },
        OpView::Not => if stack.len() == 0 {
            fail(popped)
        } else {
            match stack.last() {
                ValueView::Nil => Step::Continue(popped.push(ValueView::Boolean(true))),
                ValueView::Boolean(b) => Step::Continue(popped.push(ValueView::Boolean(!b))),
                ValueView::Number(n) => Step::Yield(RequestView::NonZero(n), popped),
                ValueView::Str(_) => fail(popped),
            }
        },
        OpView::Print => if stack.len() == 0 {
            fail(popped)
        } else {
            match stack.last() {
                ValueView::Number(n) => Step::Yield(RequestView::PrintNumber(n), popped),
                v => Step::Yield(RequestView::Print(printed(v)->Some_0), popped),
            }
        },
        _ => binary_step(op, stack),
    }
}

/// Runs `code` from instruction `ip` on `stack` until an instruction yields:
/// the request, the stack then, and where the run resumes. A `Done` request
/// leaves `ip` on the instruction that ended the run. A chunk that ends with
/// `Return` never reaches the first case (see `lemma_run_stays_inside`).
pub open spec fn run_from(code: Seq<(OpView, int)>, ip: nat, stack: Seq<ValueView>) -> (RequestView, Seq<ValueView>, nat)
    decreases code.len() - ip,
{
    if ip >= code.len() {
        (RequestView::Done(InterpretResult::RuntimeError), stack, ip)
    } else {
        match step(code[ip as int].0, stack) {
            Step::Continue(s) => run_from(code, ip + 1, s),
            Step::Yield(r, s) => (r, s, if r is Done { ip } else { ip + 1 }),
        }
    }
}

/// A run of a chunk that ends with `Return` stops inside the chunk.
pub proof fn lemma_run_stays_inside(code: Seq<(OpView, int)>, ip: nat, stack: Seq<ValueView>)
    requires
        ip < code.len(),
        code.last().0 is Return,
    ensures
        run_from(code, ip, stack).2 < code.len(),
    decreases code.len() - ip,
{
    if let Step::Continue(s) = step(code[ip as int].0, stack) {
        lemma_run_stays_inside(code, ip + 1, s);
    }
}

pub open spec fn stack_view(s: Seq<Value>) -> Seq<ValueView> {
    s.map_values(|v: Value| v@)
}

/// A stack machine. Its stack lasts from one run to the next.
pub struct VM {
    pub stack: Vec<Value>,
    pub ip: usize,
}

/// The numeric operation an instruction stands for, if any.
fn numeric_op_of(op: &OpCode) -> (r: Option<NumericOp>)
    ensures
        r == numeric_op(op@),
{
    match op {
        OpCode::Add => Some(NumericOp::Add),
        OpCode::Subtract => Some(NumericOp::Subtract),
        OpCode::Multiply => Some(NumericOp::Multiply),
        OpCode::Divide => Some(NumericOp::Divide),
        OpCode::Greater => Some(NumericOp::Greater),
        OpCode::Less => Some(NumericOp::Less),
        OpCode::Equal => Some(NumericOp::Equal),
        _ => None,
    }
}

impl VM {
    /// A machine with an empty stack.
    pub fn new() -> (r: VM)
        ensures
            r.stack@.len() == 0,
            r.ip == 0,
    {
        VM { stack: Vec::new(), ip: 0 }
    }

    /// Points the machine at the first instruction of a chunk; the stack stays.
    pub fn start(&mut self)
        ensures
            final(self).stack@ == old(self).stack@,
            final(self).ip == 0,
    {
        self.ip = 0;
    }

    /// Pushes the result of a request.
    pub fn supply(&mut self, v: Value)
        ensures
            stack_view(final(self).stack@) == stack_view(old(self).stack@).push(v@),
            final(self).ip == old(self).ip,
    {
        let ghost before = stack_view(self.stack@);
        self.stack.push(v);
        assert(stack_view(self.stack@) =~= before.push(v@));
    }

    fn pop_value(&mut self) -> (r: Option<Value>)
        ensures
            final(self).ip == old(self).ip,
            old(self).stack@.len() == 0 ==> (r is None && final(self).stack@ == old(self).stack@),
            old(self).stack@.len() > 0 ==> (r matches Some(v) && v@ == stack_view(old(self).stack@).last()
                && stack_view(final(self).stack@) == stack_view(old(self).stack@).drop_last()),
    {
        let r = self.stack.pop();
        proof {
            if old(self).stack@.len() > 0 {
                assert(stack_view(self.stack@) =~= stack_view(old(self).stack@).drop_last());
            }
        }
        r
    }

    /// Carries out a binary instruction.
    fn binary(&mut self, op: &OpCode) -> (r: Option<Request>)
        requires
            step(op@, stack_view(old(self).stack@)) == binary_step(op@, stack_view(old(self).stack@)),
        ensures
            final(self).ip == old(self).ip,
            match binary_step(op@, stack_view(old(self).stack@)) {
                Step::Continue(s) => r is None && stack_view(final(self).stack@) == s,
                Step::Yield(q, s) => r matches Some(x) && x@ == q && stack_view(final(self).stack@) == s,
            },
    {
        let ghost st = stack_view(self.stack@);
        let right = self.pop_value();
        let left = self.pop_value();
        proof {
            if st.len() >= 2 {
                assert(stack_view(self.stack@) =~= drop_two(st));
            } else {
                assert(stack_view(self.stack@) =~= Seq::<ValueView>::empty());
            }
        }
        let fault = Some(Request::Done(InterpretResult::RuntimeError));
        match (left, right) {
            (Some(Value::Number(l)), Some(Value::Number(r))) => match numeric_op_of(op) {
                Some(nop) => Some(Request::Binary(nop, l, r)),
                None => fault,
            },
            (Some(Value::Obj(Obj::String(l))), Some(Value::Obj(Obj::String(r)))) => match op {
                OpCode::Add => {
                    let mut text: String = (*l).clone();
                    let rs: &String = &r;
                    text.append(rs.as_str());
                    self.supply(Value::Obj(Obj::String(Rc::new(text))));
                    None
                },
                OpCode::Equal => {
                    let same = *l == *r;
                    self.supply(Value::Boolean(same));
                    None
                },
                _ => fault,
            },
            (Some(Value::Boolean(l)), Some(Value::Boolean(r))) => match op {
                OpCode::Equal => {
                    self.supply(Value::Boolean(l == r));
                    None
                },
                _ => fault,
            },
            (Some(Value::Nil), Some(Value::Nil)) => match op {
                OpCode::Equal => {
                    self.supply(Value::Boolean(true));
                    None
                },
                _ => fault,
            },
            _ => fault,
        }
    }

    /// Carries out one instruction.
    fn execute(&mut self, op: &OpCode) -> (r: Option<Request>)
        ensures
            final(self).ip == old(self).ip,
            match step(op@, stack_view(old(self).stack@)) {
                Step::Continue(s) => r is None && stack_view(final(self).stack@) == s,
                Step::Yield(q, s) => r matches Some(x) && x@ == q && stack_view(final(self).stack@) == s,
            },
    {
        let fault = Some(Request::Done(InterpretResult::RuntimeError));
        match op {
            OpCode::Return => {
                let _ = self.pop_value();
                Some(Request::Done(InterpretResult::Success))
            },
            OpCode::Constant(v) => {
                self.supply(v.duplicate());
                None
            },
            OpCode::Pop => {
                let _ = self.pop_value();
                None
            },
            OpCode::Negate => match self.pop_value() {
                Some(Value::Number(n)) => Some(Request::Negate(n)),
                _ => fault,
            },
            OpCode::Not => match self.pop_value() {
                Some(Value::Nil) => {
                    self.supply(Value::Boolean(true));
                    None
                },
                Some(Value::Boolean(b)) => {
                    self.supply(Value::Boolean(!b));
                    None
                },
                Some(Value::Number(n)) => Some(Request::NonZero(n)),
                _ => fault,
            },
            OpCode::Print => match self.pop_value() {
                Some(Value::Number(n)) => Some(Request::PrintNumber(n)),
                Some(v) => match v.print_lox() {
                    Some(text) => Some(Request::Print(text)),
                    None => fault,
                },
                None => fault,
            },
            _ => self.binary(op),
        }
    }

    /// Carries out the instruction at `ip`: `None` where the run goes on
    /// with the next one, else the request it stops with.
    pub fn advance(&mut self, chunk: &Chunk) -> (r: Option<Request>)
        requires
            chunk.returns_at_end(),
            old(self).ip < chunk.code@.len(),
        ensures
            final(self).ip < chunk.code@.len(),
            match step(chunk.code@[old(self).ip as int].0@, stack_view(old(self).stack@)) {
                Step::Continue(s) => r is None && stack_view(final(self).stack@) == s
                    && final(self).ip == old(self).ip + 1,
                Step::Yield(q, s) => r matches Some(x) && x@ == q && stack_view(final(self).stack@) == s
                    && final(self).ip == if q is Done { old(self).ip as int } else { old(self).ip + 1 },
            },
    {
        let n = chunk.code.len();
        let instr: &Instr = &chunk.code[self.ip];
        let r = self.execute(&instr.0);
        proof {
            if self.ip + 1 == n {
                assert(chunk.code@[self.ip as int] == chunk.code@.last());
            }
        }
        match &r {
            Some(Request::Done(_)) => {},
            _ => {
                self.ip = self.ip + 1;
            },
        }
        r
    }

    /// Runs `chunk` from the current instruction until it needs its caller:
    /// to end the run, to print, or to compute with numbers.
    pub fn run(&mut self, chunk: &Chunk) -> (r: Request)
        requires
            chunk.returns_at_end(),
            old(self).ip < chunk.code@.len(),
        ensures
            final(self).ip < chunk.code@.len(),
            (r@, stack_view(final(self).stack@), final(self).ip as nat) == run_from(
                code_view(chunk.code@),
                old(self).ip as nat,
                stack_view(old(self).stack@),
            ),
    {
        let ghost code = code_view(chunk.code@);
        let ghost target = run_from(code, self.ip as nat, stack_view(self.stack@));
        loop
            invariant
                code == code_view(chunk.code@),
                run_from(code, self.ip as nat, stack_view(self.stack@)) == target,
                target == run_from(code, old(self).ip as nat, stack_view(old(self).stack@)),
                chunk.returns_at_end(),
                self.ip < chunk.code@.len(),
            decreases chunk.code@.len() - self.ip,
        {
            match self.advance(chunk) {
                Some(req) => return req,
                None => {},
            }
        }
    }
}

} // verus!
