use std::rc::Rc;
use vstd::prelude::*;
use vstd::laws_eq::obeys_concrete_eq;

use crate::dictionary::{find, inserted, lemma_find, Dictionary, DictionaryErr};
use crate::id::{id_chars, id_of, lemma_id_obeys_concrete_eq, Id};
use crate::lexer::{datum_of, fold, fold_token, parse_datum, split_tokens, tokens, views};
use crate::stack::{Stack, StackErr};

verus! {

/// The basic type that may be put on the stack.
pub type Datum = i32;

/// How a resolved word is handled.
#[derive(Copy, Clone, Debug, PartialEq, Eq, Structural)]
pub enum Mode {
    Interpreting,
    Compiling,
}

/// How an evaluation ended.
#[derive(Copy, Clone, Debug, PartialEq, Eq, Structural)]
pub enum Return {
    /// The line ran to its end.
    Done,
    Yielding,
    Shutdown,
}

#[derive(Copy, Clone, Debug, PartialEq, Eq, Structural)]
pub enum ContextErr {
    StackErr(StackErr),
    DivideByZero,
    Parse,
    DictionaryErr(DictionaryErr),
    AccessedUndefinedAtAddr(usize),
    UnsupportedOperation,
}

impl From<StackErr> for ContextErr {
    fn from(se: StackErr) -> ContextErr {
        ContextErr::StackErr(se)
    }
}

impl vstd::std_specs::convert::FromSpecImpl<StackErr> for ContextErr {
    open spec fn obeys_from_spec() -> bool {
        true
    }

    open spec fn from_spec(se: StackErr) -> ContextErr {
        ContextErr::StackErr(se)
    }
}

impl From<DictionaryErr> for ContextErr {
    fn from(de: DictionaryErr) -> ContextErr {
        ContextErr::DictionaryErr(de)
    }
}

impl vstd::std_specs::convert::FromSpecImpl<DictionaryErr> for ContextErr {
    open spec fn obeys_from_spec() -> bool {
        true
    }

    open spec fn from_spec(de: DictionaryErr) -> ContextErr {
        ContextErr::DictionaryErr(de)
    }
}

/// How the next token is read.
#[derive(Copy, Clone, Debug, PartialEq, Eq, Structural)]
pub enum Fsm {
    /// The token is run.
    Execute,
    /// The token names a new variable.
    GetVariable,
}

/// The operations the engine provides itself.
#[derive(Copy, Clone, Debug, PartialEq, Eq, Structural)]
pub enum Builtin {
    Does,
    Create,
    Drop,
    Print,
    Store,
    Dict,
    Fetch,
    Sub,
    Add,
    Mul,
    Div,
    Dup,
}

/// Output that a word asks the embedding program to show.
#[derive(Copy, Clone, Debug, PartialEq, Eq, Structural)]
pub enum Diagnostic {
    /// A value that `print` observed.
    Value(Datum),
    /// `dict` asked for a listing of the dictionary.
    Dictionary,
}

/// The unit of execution.
#[derive(Debug, Clone)]
pub enum Word {
    Builtin(Builtin),
    /// A user defined word: the words it runs, in order.
    Custom { body: Vec<Rc<Word>> },
    Data(Datum),
}

/// The number of words a fresh engine defines.
pub const BUILTIN_COUNT: usize = 12;

/// The state of an engine, as the contracts see it.
pub struct Machine {
    /// The operands, bottom to top.
    pub stack: Seq<Datum>,
    pub stack_capacity: nat,
    /// The dictionary entries, by address.
    pub dict: Seq<(Option<Id>, Rc<Word>)>,
    pub dict_capacity: nat,
    pub mode: Mode,
    pub fsm: Fsm,
    /// The tokens a `yield` left for the next evaluation.
    pub pending: Seq<Seq<char>>,
    /// Diagnostics not yet collected, oldest first.
    pub out: Seq<Diagnostic>,
}

impl Machine {
    /// This state with the stack replaced.
    pub open spec fn with_stack(self, stack: Seq<Datum>) -> Machine {
        Machine { stack, ..self }
    }

    /// This state with the dictionary entries replaced.
    pub open spec fn with_dict(self, dict: Seq<(Option<Id>, Rc<Word>)>) -> Machine {
        Machine { dict, ..self }
    }

    /// This state with the token-reading state replaced.
    pub open spec fn with_fsm(self, fsm: Fsm) -> Machine {
        Machine { fsm, ..self }
    }

    /// This state with the pending tokens replaced.
    pub open spec fn with_pending(self, pending: Seq<Seq<char>>) -> Machine {
        Machine { pending, ..self }
    }

    /// This state with the uncollected diagnostics replaced.
    pub open spec fn with_out(self, out: Seq<Diagnostic>) -> Machine {
        Machine { out, ..self }
    }
}

/// A failure of the stack.
pub open spec fn stack_err(e: StackErr) -> Result<(), ContextErr> {
    Err(ContextErr::StackErr(e))
}

/// Pushes `v`, unless the stack is full.
pub open spec fn push_value(m: Machine, v: Datum) -> (Machine, Result<(), ContextErr>) {
    if m.stack.len() < m.stack_capacity {
        (m.with_stack(m.stack.push(v)), Ok(()))
    } else {
        (m, stack_err(StackErr::Overflow))
    }
}

/// `n1 / n2` rounded toward zero; the one quotient out of range,
/// `i32::MIN / -1`, wraps to `i32::MIN`.
pub open spec fn quotient(n1: Datum, n2: Datum) -> Datum {
    let x = n1 as int;
    let d = n2 as int;
    let q = if x == 0 {
        0
    } else if x > 0 && d > 0 {
        x / d
    } else if x < 0 && d < 0 {
        (-x) / (-d)
    } else if x < 0 {
        -((-x) / d)
    } else {
        -(x / (-d))
    };
    if q > i32::MAX {
        i32::MIN
    } else {
        q as i32
    }
}

/// What the arithmetic word `op` computes from the top value `n1` and the
/// value `n2` below it; none for a division by zero. Results wrap around.
pub open spec fn arith(op: Builtin, n1: Datum, n2: Datum) -> Option<Datum> {
    match op {
        Builtin::Add => Some(n1.wrapping_add(n2)),
        Builtin::Sub => Some(n1.wrapping_sub(n2)),
        Builtin::Mul => Some(n1.wrapping_mul(n2)),
        _ => if n2 == 0 {
            None
        } else {
            Some(quotient(n1, n2))
        },
    }
}

/// An arithmetic word: both operands are popped before anything is checked,
/// so they are gone even when the operation then fails.
pub open spec fn binary(m: Machine, op: Builtin) -> (Machine, Result<(), ContextErr>) {
    let n = m.stack.len();
    if n == 0 {
        (m, stack_err(StackErr::Underflow))
    } else if n == 1 {
        (m.with_stack(Seq::empty()), stack_err(StackErr::Underflow))
    } else {
        let popped = m.with_stack(m.stack.take(n - 2));
        match arith(op, m.stack[n - 1], m.stack[n - 2]) {
            Some(v) => push_value(popped, v),
            None => (popped, Err(ContextErr::DivideByZero)),
        }
    }
}

/// `!`: pops an address, then a value, and stores the value at the address.
pub open spec fn store(m: Machine) -> (Machine, Result<(), ContextErr>) {
    let n = m.stack.len();
    if n == 0 {
        (m, stack_err(StackErr::Underflow))
    } else if n == 1 {
        (m.with_stack(Seq::empty()), stack_err(StackErr::Underflow))
    } else {
        let addr = m.stack[n - 1] as usize;
        let popped = m.with_stack(m.stack.take(n - 2));
        if addr < m.dict.len() {
            (
                popped.with_dict(
                    m.dict.update(addr as int, (m.dict[addr as int].0, Rc::new(Word::Data(m.stack[n - 2])))),
                ),
                Ok(()),
            )
        } else {
            (popped, Err(ContextErr::DictionaryErr(DictionaryErr::UndefinedAccess)))
        }
    }
}

/// `@`: pops an address and pushes the data stored there; for a named entry
/// that holds no data, the address of that name instead.
pub open spec fn fetch(m: Machine) -> (Machine, Result<(), ContextErr>) {
    let n = m.stack.len();
    if n == 0 {
        (m, stack_err(StackErr::Underflow))
    } else {
        let addr = m.stack[n - 1] as usize;
        let popped = m.with_stack(m.stack.drop_last());
        let undefined = (popped, Err(ContextErr::AccessedUndefinedAtAddr(addr)));
        if addr < m.dict.len() {
            match *m.dict[addr as int].1 {
                Word::Data(v) => push_value(popped, v),
                _ => match m.dict[addr as int].0 {
                    Some(k) => match find(m.dict, k) {
                        Some(p) => push_value(popped, p as usize as i32),
                        None => undefined,
                    },
                    None => undefined,
                },
            }
        } else {
            undefined
        }
    }
}

/// What running the built-in word `b` does.
pub open spec fn builtin(m: Machine, b: Builtin) -> (Machine, Result<(), ContextErr>) {
    match b {
        Builtin::Does | Builtin::Create => (m, Err(ContextErr::UnsupportedOperation)),
        Builtin::Drop => if m.stack.len() == 0 {
            (m, stack_err(StackErr::Underflow))
        } else {
            (m.with_stack(m.stack.drop_last()), Ok(()))
        },
        Builtin::Print => if m.stack.len() == 0 {
            (m, stack_err(StackErr::Underflow))
        } else {
            (m.with_out(m.out.push(Diagnostic::Value(m.stack.last()))), Ok(()))
        },
        Builtin::Store => store(m),
        Builtin::Dict => (m.with_out(m.out.push(Diagnostic::Dictionary)), Ok(())),
        Builtin::Fetch => fetch(m),
        Builtin::Dup => if m.stack.len() == 0 {
            (m, stack_err(StackErr::Underflow))
        } else {
            push_value(m, m.stack.last())
        },
        _ => binary(m, b),
    }
}

/// What running `w` does: a built-in acts, data is pushed, and a custom
/// word runs its body in order up to the first failure.
pub open spec fn run(m: Machine, w: Word) -> (Machine, Result<(), ContextErr>)
    decreases w, 1nat, 0nat,
{
    match w {
        Word::Builtin(b) => builtin(m, b),
        Word::Data(v) => push_value(m, v),
        Word::Custom { body } => run_body(m, w, body.len() as nat),
    }
}

/// Runs the first `n` words of the body of the custom word `w`.
pub open spec fn run_body(m: Machine, w: Word, n: nat) -> (Machine, Result<(), ContextErr>)
    decreases w, 0nat, n,
{
    match w {
        Word::Custom { body } => if n == 0 || n > body.len() {
            (m, Ok(()))
        } else {
            let (m1, r) = run_body(m, w, (n - 1) as nat);
            match r {
                Ok(_) => run(m1, *body[n - 1]),
                Err(e) => (m1, Err(e)),
            }
        },
        _ => (m, Ok(())),
    }
}

/// The word of the first entry named `name`, if any.
pub open spec fn lookup(m: Machine, name: Seq<char>) -> Option<Rc<Word>> {
    match find(m.dict, id_of(name)) {
        Some(i) => Some(m.dict[i].1),
        None => None,
    }
}

/// The word a token stands for: the dictionary word of its name, else the
/// numeral it writes.
pub open spec fn resolve(m: Machine, tok: Seq<char>) -> Option<Rc<Word>> {
    match lookup(m, fold(tok)) {
        Some(w) => Some(w),
        None => match datum_of(tok) {
            Some(v) => Some(Rc::new(Word::Data(v))),
            None => None,
        },
    }
}

/// Declares the variable `name`: an anonymous slot holding 0, then an
/// entry named `name` holding the slot's address.
pub open spec fn declare(m: Machine, name: Seq<char>) -> (Machine, Option<Result<Return, ContextErr>>) {
    let (d1, r1) = inserted(m.dict, m.dict_capacity, None, Rc::new(Word::Data(0)));
    match r1 {
        Err(e) => (m, Some(Err(ContextErr::DictionaryErr(e)))),
        Ok(addr) => {
            let (d2, r2) = inserted(
                d1,
                m.dict_capacity,
                Some(id_of(name)),
                Rc::new(Word::Data(addr as i32)),
            );
            match r2 {
                Err(e) => (m.with_dict(d1), Some(Err(ContextErr::DictionaryErr(e)))),
                Ok(_) => (m.with_dict(d2).with_fsm(Fsm::Execute), None),
            }
        },
    }
}

/// What the token `tok` does, with `rest` the tokens after it: the new
/// state, and how evaluation ends here, if it does.
pub open spec fn step(m: Machine, tok: Seq<char>, rest: Seq<Seq<char>>) -> (
    Machine,
    Option<Result<Return, ContextErr>>,
) {
    let name = fold(tok);
    match m.fsm {
        Fsm::GetVariable => declare(m, name),
        Fsm::Execute => if name == seq!['b', 'y', 'e'] {
            (m, Some(Ok(Return::Shutdown)))
        } else if name == seq!['y', 'i', 'e', 'l', 'd'] {
            (m.with_pending(rest), Some(Ok(Return::Yielding)))
        } else if name == seq!['v', 'a', 'r'] || name == seq![
            'v',
            'a',
            'r',
            'i',
            'a',
            'b',
            'l',
            'e',
        ] {
            (m.with_fsm(Fsm::GetVariable), None)
        } else {
            match resolve(m, tok) {
                None => (m, Some(Err(ContextErr::Parse))),
                Some(w) => match m.mode {
                    Mode::Compiling => (m, Some(Err(ContextErr::UnsupportedOperation))),
                    Mode::Interpreting => {
                        let (m1, r) = run(m, *w);
                        match r {
                            Ok(_) => (m1, None),
                            Err(e) => (m1, Some(Err(e))),
                        }
                    },
                },
            }
        },
    }
}

/// Runs `toks` left to right until one ends the evaluation.
pub open spec fn eval_tokens(m: Machine, toks: Seq<Seq<char>>) -> (Machine, Result<Return, ContextErr>)
    decreases toks.len(),
{
    if toks.len() == 0 {
        (m, Ok(Return::Done))
    } else {
        let (m1, stop) = step(m, toks[0], toks.drop_first());
        match stop {
            Some(r) => (m1, r),
            None => eval_tokens(m1, toks.drop_first()),
        }
    }
}

/// Evaluating `line`: the tokens a `yield` left come first, then those of
/// the line.
pub open spec fn eval_line(m: Machine, line: Seq<char>) -> (Machine, Result<Return, ContextErr>) {
    eval_tokens(m.with_pending(Seq::empty()), m.pending + tokens(line))
}

/// The dictionary of a fresh engine: the built-in words, in this order.
pub open spec fn builtin_entries() -> Seq<(Option<Id>, Rc<Word>)> {
    seq![
        (Some(id_of(seq!['d', 'o', 'e', 's', '>'])), Rc::new(Word::Builtin(Builtin::Does))),
        (Some(id_of(seq!['c', 'r', 'e', 'a', 't', 'e'])), Rc::new(Word::Builtin(Builtin::Create))),
        (Some(id_of(seq!['d', 'r', 'o', 'p'])), Rc::new(Word::Builtin(Builtin::Drop))),
        (Some(id_of(seq!['p', 'r', 'i', 'n', 't'])), Rc::new(Word::Builtin(Builtin::Print))),
        (Some(id_of(seq!['!'])), Rc::new(Word::Builtin(Builtin::Store))),
        (Some(id_of(seq!['d', 'i', 'c', 't'])), Rc::new(Word::Builtin(Builtin::Dict))),
        (Some(id_of(seq!['@'])), Rc::new(Word::Builtin(Builtin::Fetch))),
        (Some(id_of(seq!['-'])), Rc::new(Word::Builtin(Builtin::Sub))),
        (Some(id_of(seq!['+'])), Rc::new(Word::Builtin(Builtin::Add))),
        (Some(id_of(seq!['*'])), Rc::new(Word::Builtin(Builtin::Mul))),
        (Some(id_of(seq!['/'])), Rc::new(Word::Builtin(Builtin::Div))),
        (Some(id_of(seq!['d', 'u', 'p'])), Rc::new(Word::Builtin(Builtin::Dup))),
    ]
}

/// A fresh engine: empty stack, only the built-in words, reading tokens to
/// run them, interpreting, nothing pending and nothing to report.
pub open spec fn pristine(stack_capacity: nat, dict_capacity: nat) -> Machine {
    Machine {
        stack: Seq::empty(),
        stack_capacity,
        dict: builtin_entries(),
        dict_capacity,
        mode: Mode::Interpreting,
        fsm: Fsm::Execute,
        pending: Seq::empty(),
        out: Seq::empty(),
    }
}

/// Whether no entry of `dict` is named by the characters `chars`.
pub open spec fn unnamed(dict: Seq<(Option<Id>, Rc<Word>)>, chars: Seq<char>) -> bool {
    forall|i: int| 0 <= i < dict.len() ==> (#[trigger] dict[i].0 matches Some(k) ==> k@ != chars)
}

/// Dividing: with `a` pushed and then `b`, `/` pops `b` and then `a` and
/// pushes `b / a` rounded toward zero; when `a` is 0 it fails with
/// `DivideByZero`, and both operands are gone all the same.
pub proof fn lemma_divide(m: Machine, s: Seq<Datum>, a: Datum, b: Datum)
    requires
        m.stack == s.push(a).push(b),
        m.stack.len() <= m.stack_capacity,
    ensures
        a != 0 ==> builtin(m, Builtin::Div) == (
            m.with_stack(s.push(quotient(b, a))),
            Ok::<(), ContextErr>(()),
        ),
        a == 0 ==> builtin(m, Builtin::Div) == (m.with_stack(s), Err::<(), ContextErr>(
            ContextErr::DivideByZero,
        )),
{
    assert(m.stack.take(m.stack.len() - 2) =~= s);
}

/// Evaluating the token `/`, where it names the built-in division: with `a`
/// pushed and then `b`, `b / a` rounded toward zero replaces both.
pub proof fn lemma_eval_divide(m: Machine, s: Seq<Datum>, a: Datum, b: Datum)
    requires
        m.fsm == Fsm::Execute,
        m.mode == Mode::Interpreting,
        lookup(m, seq!['/']) == Some(Rc::new(Word::Builtin(Builtin::Div))),
        m.stack == s.push(a).push(b),
        m.stack.len() <= m.stack_capacity,
        a != 0,
    ensures
        eval_tokens(m, seq![seq!['/']]) == (
            m.with_stack(s.push(quotient(b, a))),
            Ok::<Return, ContextErr>(Return::Done),
        ),
{
    let tok = seq!['/'];
    let toks = seq![tok];
    assert(fold(tok) =~= tok);
    assert(toks[0] == tok);
    assert(toks.drop_first() =~= Seq::<Seq<char>>::empty());
    lemma_divide(m, s, a, b);
    let m1 = m.with_stack(s.push(quotient(b, a)));
    assert(resolve(m, tok) == Some(Rc::new(Word::Builtin(Builtin::Div))));
    assert(run(m, Word::Builtin(Builtin::Div)) == (m1, Ok::<(), ContextErr>(())));
    assert(tok.len() == 1);
    assert(step(m, tok, Seq::empty()) == (m1, None::<Result<Return, ContextErr>>));
    assert(eval_tokens(m1, Seq::empty()) == (m1, Ok::<Return, ContextErr>(Return::Done)));
}

/// Subtracting: with `a` pushed and then `b`, `-` leaves `b - a` (top
/// minus next) in their place.
pub proof fn lemma_subtract(m: Machine, s: Seq<Datum>, a: Datum, b: Datum)
    requires
        m.stack == s.push(a).push(b),
        m.stack.len() <= m.stack_capacity,
    ensures
        builtin(m, Builtin::Sub) == (
            m.with_stack(s.push(b.wrapping_sub(a))),
            Ok::<(), ContextErr>(()),
        ),
{
    assert(m.stack.take(m.stack.len() - 2) =~= s);
}

/// Storing `v` at an existing address with `!` and then fetching that
/// address with `@` pushes `v` back.
pub proof fn lemma_store_then_fetch(m: Machine, s: Seq<Datum>, v: Datum, addr: Datum)
    requires
        m.stack == s.push(v).push(addr),
        m.stack.len() <= m.stack_capacity,
        0 <= addr < m.dict.len(),
    ensures
        ({
            let (m1, r1) = builtin(m, Builtin::Store);
            let (m2, r2) = push_value(m1, addr);
            let (m3, r3) = builtin(m2, Builtin::Fetch);
            &&& r1 is Ok
            &&& r2 is Ok
            &&& r3 is Ok
            &&& m3.stack == s.push(v)
        }),
{
    assert(m.stack.take(m.stack.len() - 2) =~= s);
    let (m1, r1) = builtin(m, Builtin::Store);
    let (m2, r2) = push_value(m1, addr);
    assert(m2.stack.drop_last() =~= s);
    assert((addr as usize) as int == addr as int);
}

/// A successful outcome that carries no value is `Ok(())`.
proof fn lemma_ok_unit(x: Result<(), ContextErr>)
    requires
        x is Ok,
    ensures
        x == Ok::<(), ContextErr>(()),
{
    if let Ok(u) = x {
        let v: () = ();
        assert(u == v);
    }
}

/// A body that ran without failure yields `Ok(())`.
proof fn lemma_body_ok_unit(m: Machine, w: &Word, n: nat)
    requires
        run_body(m, *w, n).1 is Ok,
    ensures
        run_body(m, *w, n).1 == Ok::<(), ContextErr>(()),
{
    lemma_ok_unit(run_body(m, *w, n).1);
}

/// Once a word of a body fails, the rest of the body does not run.
proof fn lemma_run_body_stops(m: Machine, w: &Word, i: nat, n: nat)
    requires
        *w is Custom,
        i <= n <= w->body.len(),
        run_body(m, *w, i).1 is Err,
    ensures
        run_body(m, *w, n) == run_body(m, *w, i),
    decreases n - i,
{
    if i < n {
        lemma_run_body_stops(m, w, i, (n - 1) as nat);
    }
}

/// The first two characters of the identifier spelled by `s`.
proof fn lemma_id_chars_head(s: Seq<char>)
    ensures
        id_chars(s)[0] == (if s.len() > 0 { s[0] } else { '\0' }),
        id_chars(s)[1] == (if s.len() > 1 { s[1] } else { '\0' }),
{
}

/// Whether `a` and `b` hold the same characters.
fn same_chars(a: &[char], b: &[char]) -> (r: bool)
    ensures
        r == (a@ == b@),
{
    if a.len() != b.len() {
        return false;
    }
    let mut i: usize = 0;
    while i < a.len()
        invariant
            a@.len() == b@.len(),
            0 <= i <= a@.len(),
            forall|j: int| 0 <= j < i ==> a@[j] == b@[j],
        decreases a@.len() - i,
    {
        if a[i] != b[i] {
            return false;
        }
        i = i + 1;
    }
    assert(a@ =~= b@);
    true
}

/// The engine: an operand stack, a dictionary, and the state that governs
/// how the next token is read.
pub struct Context {
    stack: Stack<Datum>,
    mode: Mode,
    dictionary: Dictionary<Id, Rc<Word>>,
    fsm: Fsm,
    pending: Vec<Vec<char>>,
    diagnostics: Vec<Diagnostic>,
}

impl View for Context {
    type V = Machine;

    closed spec fn view(&self) -> Machine {
        Machine {
            stack: self.stack@,
            stack_capacity: self.stack.spec_capacity(),
            dict: self.dictionary@,
            dict_capacity: self.dictionary.spec_capacity(),
            mode: self.mode,
            fsm: self.fsm,
            pending: views(self.pending@),
            out: self.diagnostics@,
        }
    }
}

impl Context {
    /// The stack and the dictionary stay within their capacities, and the
    /// dictionary has room for the built-in words.
    pub closed spec fn wf(&self) -> bool {
        &&& self.stack.wf()
        &&& self.dictionary.wf()
        &&& self.dictionary.spec_capacity() >= BUILTIN_COUNT
    }

    /// Creates a new context for interpreting.
    pub fn new(stack_capacity: usize, dictionary_capacity: usize) -> (r: Self)
        requires
            dictionary_capacity >= BUILTIN_COUNT,
        ensures
            r.wf(),
            r@ == pristine(stack_capacity as nat, dictionary_capacity as nat),
    {
        let mut forth = Self {
            fsm: Fsm::Execute,
            stack: Stack::new(stack_capacity),
            mode: Mode::Interpreting,
            dictionary: Dictionary::new(dictionary_capacity),
            pending: Vec::new(),
            diagnostics: Vec::new(),
        };
        forth.reset();
        forth
    }

    /// Resets the context to a pristine state.
    pub fn reset(&mut self)
        requires
            old(self).wf(),
        ensures
            final(self).wf(),
            final(self)@ == pristine(old(self)@.stack_capacity, old(self)@.dict_capacity),
    {
        self.fsm = Fsm::Execute;
        self.dictionary.clear();
        self.stack.clear();
        self.mode = Mode::Interpreting;
        self.pending = Vec::new();
        self.diagnostics = Vec::new();
        assert(views(self.pending@) =~= Seq::<Seq<char>>::empty());
        self.set_primitives();
    }

    /// Pushes a new value onto the stack.
    pub fn push(&mut self, data: Datum) -> (r: Result<(), StackErr>)
        requires
            old(self).wf(),
        ensures
            final(self).wf(),
            ({
                let (m, e) = push_value(old(self)@, data);
                final(self)@ == m && r == match e {
                    Ok(_) => Ok(()),
                    Err(_) => Err::<(), StackErr>(StackErr::Overflow),
                }
            }),
    {
        self.stack.push(data)
    }

    /// Pops a value off the stack.
    pub fn pop(&mut self) -> (r: Result<Datum, StackErr>)
        requires
            old(self).wf(),
        ensures
            final(self).wf(),
            old(self)@.stack.len() > 0 ==> r == Ok::<Datum, StackErr>(old(self)@.stack.last())
                && final(self)@ == old(self)@.with_stack(old(self)@.stack.drop_last()),
            old(self)@.stack.len() == 0 ==> r == Err::<Datum, StackErr>(StackErr::Underflow)
                && final(self)@ == old(self)@,
    {
        self.stack.pop()
    }

    /// Returns a read-only handle to the stack, bottom to top.
    pub fn stack(&self) -> (r: &[Datum])
        ensures
            r@ == self@.stack,
    {
        self.stack.data()
    }

    /// Returns a read-only handle to the dictionary, by address.
    pub fn dictionary(&self) -> (r: &[(Option<Id>, Rc<Word>)])
        ensures
            r@ == self@.dict,
    {
        self.dictionary.dictionary()
    }

    /// How resolved words are handled.
    pub fn mode(&self) -> (r: Mode)
        ensures
            r == self@.mode,
    {
        self.mode
    }

    /// How the next token will be read.
    pub fn fsm(&self) -> (r: Fsm)
        ensures
            r == self@.fsm,
    {
        self.fsm
    }

    /// Hands over the diagnostics produced since the last call, oldest first.
    pub fn take_diagnostics(&mut self) -> (r: Vec<Diagnostic>)
        requires
            old(self).wf(),
        ensures
            final(self).wf(),
            r@ == old(self)@.out,
            final(self)@ == old(self)@.with_out(Seq::empty()),
    {
        let mut r: Vec<Diagnostic> = Vec::new();
        std::mem::swap(&mut r, &mut self.diagnostics);
        r
    }

    fn push_datum(&mut self, v: Datum) -> (r: Result<(), ContextErr>)
        requires
            old(self).wf(),
        ensures
            final(self).wf(),
            (final(self)@, r) == push_value(old(self)@, v),
    {
        match self.stack.push(v) {
            Ok(()) => Ok(()),
            Err(e) => Err(ContextErr::from(e)),
        }
    }

    fn pop_datum(&mut self) -> (r: Result<Datum, ContextErr>)
        requires
            old(self).wf(),
        ensures
            final(self).wf(),
            old(self)@.stack.len() > 0 ==> r == Ok::<Datum, ContextErr>(old(self)@.stack.last())
                && final(self)@ == old(self)@.with_stack(old(self)@.stack.drop_last()),
            old(self)@.stack.len() == 0 ==> r == Err::<Datum, ContextErr>(
                ContextErr::StackErr(StackErr::Underflow),
            ) && final(self)@ == old(self)@,
    {
        match self.stack.pop() {
            Ok(v) => Ok(v),
            Err(e) => Err(ContextErr::from(e)),
        }
    }

    /// Adds the built-in word `b` under `name`, which no entry holds yet.
    fn register(&mut self, name: &[char], b: Builtin)
        requires
            old(self).wf(),
            old(self)@.dict.len() < old(self)@.dict_capacity,
            unnamed(old(self)@.dict, id_chars(name@)),
        ensures
            final(self).wf(),
            final(self)@ == old(self)@.with_dict(
                old(self)@.dict.push((Some(id_of(name@)), Rc::new(Word::Builtin(b)))),
            ),
            id_of(name@)@ == id_chars(name@),
    {
        let key = Id::from_chars(name);
        proof {
            lemma_id_obeys_concrete_eq();
            lemma_find(self@.dict, key);
            if let Some(i) = find(self@.dict, key) {
                assert(self@.dict[i].0 == Some(key));
            }
        }
        // there is room, and no entry holds the name, so this succeeds
        let _ = self.dictionary.insert(Some(key), Rc::new(Word::Builtin(b)));
    }

    /// Registers the built-in words in an empty dictionary.
    fn set_primitives(&mut self)
        requires
            old(self).wf(),
            old(self)@.dict.len() == 0,
        ensures
            final(self).wf(),
            final(self)@ == old(self)@.with_dict(builtin_entries()),
    {
        proof {
            lemma_id_chars_head(seq!['d', 'o', 'e', 's', '>']);
            lemma_id_chars_head(seq!['c', 'r', 'e', 'a', 't', 'e']);
            lemma_id_chars_head(seq!['d', 'r', 'o', 'p']);
            lemma_id_chars_head(seq!['p', 'r', 'i', 'n', 't']);
            lemma_id_chars_head(seq!['!']);
            lemma_id_chars_head(seq!['d', 'i', 'c', 't']);
            lemma_id_chars_head(seq!['@']);
            lemma_id_chars_head(seq!['-']);
            lemma_id_chars_head(seq!['+']);
            lemma_id_chars_head(seq!['*']);
            lemma_id_chars_head(seq!['/']);
            lemma_id_chars_head(seq!['d', 'u', 'p']);
        }
        let n_does: [char; 5] = ['d', 'o', 'e', 's', '>'];
        assert(n_does@ =~= seq!['d', 'o', 'e', 's', '>']);
        self.register(&n_does, Builtin::Does);
        let n_create: [char; 6] = ['c', 'r', 'e', 'a', 't', 'e'];
        assert(n_create@ =~= seq!['c', 'r', 'e', 'a', 't', 'e']);
        self.register(&n_create, Builtin::Create);
        let n_drop: [char; 4] = ['d', 'r', 'o', 'p'];
        assert(n_drop@ =~= seq!['d', 'r', 'o', 'p']);
        self.register(&n_drop, Builtin::Drop);
        let n_print: [char; 5] = ['p', 'r', 'i', 'n', 't'];
        assert(n_print@ =~= seq!['p', 'r', 'i', 'n', 't']);
        self.register(&n_print, Builtin::Print);
        let n_store: [char; 1] = ['!'];
        assert(n_store@ =~= seq!['!']);
        self.register(&n_store, Builtin::Store);
        let n_dict: [char; 4] = ['d', 'i', 'c', 't'];
        assert(n_dict@ =~= seq!['d', 'i', 'c', 't']);
        self.register(&n_dict, Builtin::Dict);
        let n_fetch: [char; 1] = ['@'];
        assert(n_fetch@ =~= seq!['@']);
        self.register(&n_fetch, Builtin::Fetch);
        let n_sub: [char; 1] = ['-'];
        assert(n_sub@ =~= seq!['-']);
        self.register(&n_sub, Builtin::Sub);
        let n_add: [char; 1] = ['+'];
        assert(n_add@ =~= seq!['+']);
        self.register(&n_add, Builtin::Add);
        let n_mul: [char; 1] = ['*'];
        assert(n_mul@ =~= seq!['*']);
        self.register(&n_mul, Builtin::Mul);
        let n_div: [char; 1] = ['/'];
        assert(n_div@ =~= seq!['/']);
        self.register(&n_div, Builtin::Div);
        let n_dup: [char; 3] = ['d', 'u', 'p'];
        assert(n_dup@ =~= seq!['d', 'u', 'p']);
        self.register(&n_dup, Builtin::Dup);
        assert(self@.dict =~= builtin_entries());
    }

    /// Evaluates a line of code: the tokens a `yield` left come first, then
    /// the whitespace-separated tokens of the line, one at a time, until one
    /// ends the evaluation. A failure abandons the rest of the line.
    pub fn eval(&mut self, line: String) -> (r: Result<Return, ContextErr>)
        requires
            old(self).wf(),
        ensures
            final(self).wf(),
            (final(self)@, r) == eval_line(old(self)@, line@),
    {
        let ghost start = self@;
        proof {
            lemma_id_obeys_concrete_eq();
        }
        let mut toks: Vec<Vec<char>> = Vec::new();
        std::mem::swap(&mut toks, &mut self.pending);
        assert(views(self.pending@) =~= Seq::<Seq<char>>::empty());
        let mut fresh = split_tokens(line.as_str());
        while fresh.len() > 0
            invariant
                start == old(self)@,
                views(toks@) + views(fresh@) == start.pending + tokens(line@),
            decreases fresh@.len(),
        {
            let ghost a = toks@;
            let ghost b = fresh@;
            let t = fresh.remove(0);
            toks.push(t);
            assert(views(toks@) + views(fresh@) =~= views(a) + views(b));
        }
        assert(views(toks@) =~= views(toks@) + views(fresh@));
        let bye: [char; 3] = ['b', 'y', 'e'];
        let yield_: [char; 5] = ['y', 'i', 'e', 'l', 'd'];
        let var: [char; 3] = ['v', 'a', 'r'];
        let variable: [char; 8] = ['v', 'a', 'r', 'i', 'a', 'b', 'l', 'e'];
        assert(bye@ =~= seq!['b', 'y', 'e']);
        assert(yield_@ =~= seq!['y', 'i', 'e', 'l', 'd']);
        assert(var@ =~= seq!['v', 'a', 'r']);
        assert(variable@ =~= seq!['v', 'a', 'r', 'i', 'a', 'b', 'l', 'e']);
        while toks.len() > 0
            invariant
                self.wf(),
                start == old(self)@,
                obeys_concrete_eq::<Id>(),
                eval_tokens(self@, views(toks@)) == eval_line(start, line@),
                bye@ == seq!['b', 'y', 'e'],
                yield_@ == seq!['y', 'i', 'e', 'l', 'd'],
                var@ == seq!['v', 'a', 'r'],
                variable@ == seq!['v', 'a', 'r', 'i', 'a', 'b', 'l', 'e'],
            decreases toks@.len(),
        {
            let ghost ts = views(toks@);
            let tok = toks.remove(0);
            assert(ts[0] == tok@);
            assert(ts.drop_first() =~= views(toks@));
            let name = fold_token(tok.as_slice());
            match self.fsm {
                Fsm::GetVariable => {
                    // add a value to the dictionary without a name
                    let addr = match self.dictionary.insert(None, Rc::new(Word::Data(0))) {
                        Ok(a) => a,
                        Err(e) => return Err(ContextErr::from(e)),
                    };
                    let key = Id::from_chars(name.as_slice());
                    match self.dictionary.insert(Some(key), Rc::new(Word::Data(addr as Datum))) {
                        Ok(_) => {},
                        Err(e) => return Err(ContextErr::from(e)),
                    }
                    self.fsm = Fsm::Execute;
                },
                Fsm::Execute => {
                    if same_chars(name.as_slice(), &bye) {
                        return Ok(Return::Shutdown);
                    } else if same_chars(name.as_slice(), &yield_) {
                        self.pending = toks;
                        return Ok(Return::Yielding);
                    } else if same_chars(name.as_slice(), &var) || same_chars(
                        name.as_slice(),
                        &variable,
                    ) {
                        self.fsm = Fsm::GetVariable;
                    } else {
                        let word = match self.find_word(name.as_slice()) {
                            Some(word) => word,
                            None => match self.convert_to_number(tok.as_slice()) {
                                Ok(i) => Rc::new(Word::Data(i)),
                                Err(e) => return Err(e),
                            },
                        };
                        match self.mode {
                            Mode::Interpreting => match self.run_word(word) {
                                Ok(()) => {},
                                Err(e) => return Err(e),
                            },
                            Mode::Compiling => return Err(ContextErr::UnsupportedOperation),
                        }
                    }
                },
            }
        }
        Ok(Return::Done)
    }

    /// Pops the two operands of an arithmetic word, top first.
    fn pop_pair(&mut self) -> (r: Result<(Datum, Datum), ContextErr>)
        requires
            old(self).wf(),
        ensures
            final(self).wf(),
            ({
                let m = old(self)@;
                let n = m.stack.len();
                if n == 0 {
                    r == Err::<(Datum, Datum), ContextErr>(ContextErr::StackErr(StackErr::Underflow))
                        && final(self)@ == m
                } else if n == 1 {
                    r == Err::<(Datum, Datum), ContextErr>(ContextErr::StackErr(StackErr::Underflow))
                        && final(self)@ == m.with_stack(Seq::empty())
                } else {
                    r == Ok::<(Datum, Datum), ContextErr>((m.stack[n - 1], m.stack[n - 2]))
                        && final(self)@ == m.with_stack(m.stack.take(n - 2))
                }
            }),
    {
        let ghost m = self@;
        let n1 = match self.pop_datum() {
            Ok(v) => v,
            Err(e) => return Err(e),
        };
        let n2 = match self.pop_datum() {
            Ok(v) => v,
            Err(e) => {
                assert(m.stack.drop_last() =~= Seq::<Datum>::empty());
                return Err(e);
            },
        };
        assert(m.stack.drop_last().drop_last() =~= m.stack.take(m.stack.len() - 2));
        Ok((n1, n2))
    }

    /// Runs the built-in word `b`.
    fn run_builtin(&mut self, b: Builtin) -> (r: Result<(), ContextErr>)
        requires
            old(self).wf(),
        ensures
            final(self).wf(),
            (final(self)@, r) == builtin(old(self)@, b),
    {
        let ghost m = self@;
        match b {
            Builtin::Does => Err(ContextErr::UnsupportedOperation),
            Builtin::Create => Err(ContextErr::UnsupportedOperation),
            Builtin::Drop => match self.pop_datum() {
                Ok(_) => Ok(()),
                Err(e) => Err(e),
            },
            Builtin::Print => {
                let val = match self.pop_datum() {
                    Ok(v) => v,
                    Err(e) => return Err(e),
                };
                self.diagnostics.push(Diagnostic::Value(val));
                let r = self.push_datum(val);
                assert(m.stack.drop_last().push(val) =~= m.stack);
                r
            },
            Builtin::Store => {
                let (addr, x) = match self.pop_pair() {
                    Ok(p) => p,
                    Err(e) => return Err(e),
                };
                let r = match self.dictionary.set_from_addr(addr as usize, Rc::new(Word::Data(x))) {
                    Ok(()) => Ok(()),
                    Err(e) => Err(ContextErr::from(e)),
                };
                r
            },
            Builtin::Dict => {
                self.diagnostics.push(Diagnostic::Dictionary);
                Ok(())
            },
            Builtin::Fetch => {
                let a_addr = match self.pop_datum() {
                    Ok(v) => v,
                    Err(e) => return Err(e),
                };
                let a_addr = a_addr as usize;
                proof {
                    lemma_id_obeys_concrete_eq();
                }
                let fetched: Result<Datum, ContextErr> = match self.dictionary.get_from_addr(
                    a_addr,
                ) {
                    Some(entry) => match &*entry.1 {
                        Word::Data(i) => Ok(*i),
                        _ => match &entry.0 {
                            Some(key) => match self.dictionary.get_addr(*key) {
                                Some(addr) => Ok(addr as Datum),
                                None => Err(ContextErr::AccessedUndefinedAtAddr(a_addr)),
                            },
                            None => Err(ContextErr::AccessedUndefinedAtAddr(a_addr)),
                        },
                    },
                    None => Err(ContextErr::AccessedUndefinedAtAddr(a_addr)),
                };
                let r = match fetched {
                    Ok(v) => self.push_datum(v),
                    Err(e) => Err(e),
                };
                r
            },
            Builtin::Dup => {
                let n = match self.pop_datum() {
                    Ok(v) => v,
                    Err(e) => return Err(e),
                };
                if let Err(e) = self.push_datum(n) {
                    return Err(e);
                }
                assert(m.stack.drop_last().push(n) =~= m.stack);
                let r = self.push_datum(n);
                r
            },
            _ => {
                let (n1, n2) = match self.pop_pair() {
                    Ok(p) => p,
                    Err(e) => return Err(e),
                };
                let v = match b {
                    Builtin::Add => n1.wrapping_add(n2),
                    Builtin::Sub => n1.wrapping_sub(n2),
                    Builtin::Mul => n1.wrapping_mul(n2),
                    _ => {
                        if n2 == 0 {
                            return Err(ContextErr::DivideByZero);
                        }
                        match n1.checked_div(n2) {
                            Some(q) => q,
                            None => i32::MIN,
                        }
                    },
                };
                let r = self.push_datum(v);
                r
            },
        }
    }

    /// Runs `word`: a built-in acts, data is pushed, and a custom word runs
    /// its body in order, stopping at the first failure.
    fn run_word(&mut self, word: Rc<Word>) -> (r: Result<(), ContextErr>)
        requires
            old(self).wf(),
        ensures
            final(self).wf(),
            (final(self)@, r) == run(old(self)@, *word),
        decreases *word,
    {
        match &*word {
            Word::Builtin(built_in) => self.run_builtin(*built_in),
            Word::Data(lit) => self.push_datum(*lit),
            Word::Custom { body } => {
                let ghost m = self@;
                let mut i: usize = 0;
                while i < body.len()
                    invariant
                        self.wf(),
                        *word == (Word::Custom { body: *body }),
                        0 <= i <= body@.len(),
                        m == old(self)@,
                        run_body(m, *word, i as nat).0 == self@,
                        run_body(m, *word, i as nat).1 is Ok,
                    decreases body@.len() - i,
                {
                    let call = body[i].clone();
                    assert(decreases_to!(*word => *body[i as int]));
                    let ghost before = self@;
                    let r = self.run_word(call);
                    assert(run_body(m, *word, (i + 1) as nat) == run(before, *body@[i as int]));
                    match r {
                        Ok(()) => {},
                        Err(e) => {
                            proof {
                                lemma_run_body_stops(m, &*word, (i + 1) as nat, body@.len() as nat);
                            }
                            return Err(e);
                        },
                    }
                    i = i + 1;
                }
                proof {
                    lemma_body_ok_unit(m, &*word, i as nat);
                }
                Ok(())
            },
        }
    }

    /// The word of the first entry named `name`, if any.
    fn find_word(&self, name: &[char]) -> (r: Option<Rc<Word>>)
        ensures
            r == lookup(self@, name@),
    {
        proof {
            lemma_id_obeys_concrete_eq();
        }
        match self.dictionary.get(Id::from_chars(name)) {
            Some(word) => Some(word.clone()),
            None => None,
        }
    }

    /// The operand the token `word` writes.
    fn convert_to_number(&self, word: &[char]) -> (r: Result<Datum, ContextErr>)
        ensures
            r == match datum_of(word@) {
                Some(v) => Ok::<Datum, ContextErr>(v),
                None => Err(ContextErr::Parse),
            },
    {
        match parse_datum(word) {
            Some(v) => Ok(v),
            None => Err(ContextErr::Parse),
        }
    }
}

} // verus!
