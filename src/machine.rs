use vstd::prelude::*;

use crate::error::MachineError;
use crate::resolver::{lemma_resolve_match, resolve, seek_closing};
use crate::token::{positioned, Token, TokenType};

verus! {

/// The mathematical state of a running machine.
pub ghost struct State {
    pub tape: Seq<i32>,
    pub dp: int,
    pub ip: int,
    pub loop_start: int,
}

/// What the caller of `step` is to do next.
#[derive(Debug, Clone, Copy, PartialEq, Eq, Structural)]
pub enum Action {
    /// The instruction ran; step again.
    Continue,
    /// Write this character to the output stream, then step again.
    Output(char),
    /// Read one byte and hand it to `provide_input`.
    Input,
    /// The instruction pointer is past the last token: the run is over.
    Halted,
}

/// The machine: a tape of signed cells of fixed capacity, the data pointer, the
/// instruction pointer, and one register with the position of the most
/// recently entered loop start. The register is a single slot, not a stack:
/// loops one after another work, loops inside loops do not.
pub struct Machine {
    pub tape: Vec<i32>,
    pub dp: usize,
    pub ip: usize,
    pub loop_start: usize,
}

impl View for Machine {
    type V = State;

    open spec fn view(&self) -> State {
        State { tape: self.tape@, dp: self.dp as int, ip: self.ip as int, loop_start: self.loop_start as int }
    }
}

/// Cell arithmetic wraps around at the ends of `i32`.
pub open spec fn wrap_inc(v: i32) -> i32 {
    if v == i32::MAX { i32::MIN } else { (v + 1) as i32 }
}

pub open spec fn wrap_dec(v: i32) -> i32 {
    if v == i32::MIN { i32::MAX } else { (v - 1) as i32 }
}

/// Unicode scalar values: code points other than surrogates.
pub open spec fn is_scalar(v: int) -> bool {
    (0 <= v <= 0xD7FF) || (0xE000 <= v <= 0x10FFFF)
}

/// The character a cell value prints as, if it is a scalar value.
pub open spec fn scalar_of(v: i32) -> Option<char> {
    if is_scalar(v as int) { Some(v as char) } else { None }
}

pub open spec fn zeros(capacity: nat) -> Seq<i32> {
    Seq::new(capacity, |i: int| 0i32)
}

pub open spec fn initial(capacity: nat) -> State {
    State { tape: zeros(capacity), dp: 0, ip: 0, loop_start: 0 }
}

/// A state the machine can be in: the data pointer is on the tape.
pub open spec fn valid_state(s: State) -> bool {
    &&& 0 < s.tape.len() <= isize::MAX
    &&& 0 <= s.dp < s.tape.len()
    &&& 0 <= s.ip <= usize::MAX
    &&& 0 <= s.loop_start < usize::MAX
}

pub open spec fn address_error(dp: int, s: State) -> MachineError {
    MachineError::AddressError { dp: dp as isize, capacity: s.tape.len() as usize }
}

/// One step of the machine on `toks` from `s`: the next state and what the
/// caller is to do, or the error that ends the run.
pub open spec fn next(s: State, toks: Seq<Token>) -> Result<(State, Action), MachineError> {
    if s.ip >= toks.len() {
        Ok((s, Action::Halted))
    } else {
        let cell = s.tape[s.dp];
        let adv = State { ip: s.ip + 1, ..s };
        match toks[s.ip].typ {
            TokenType::Left => if s.dp == 0 {
                Err(address_error(-1, s))
            } else {
                Ok((State { dp: s.dp - 1, ..adv }, Action::Continue))
            },
            TokenType::Right => if s.dp + 1 >= s.tape.len() {
                Err(address_error(s.dp + 1, s))
            } else {
                Ok((State { dp: s.dp + 1, ..adv }, Action::Continue))
            },
            TokenType::Plus => Ok((State { tape: s.tape.update(s.dp, wrap_inc(cell)), ..adv }, Action::Continue)),
            TokenType::Minus => Ok((State { tape: s.tape.update(s.dp, wrap_dec(cell)), ..adv }, Action::Continue)),
            TokenType::Comma => Ok((s, Action::Input)),
            TokenType::Dot => match scalar_of(cell) {
                Some(c) => Ok((adv, Action::Output(c))),
                None => Err(MachineError::EncodingError { value: cell }),
            },
            TokenType::Lpar => {
                let entered = State { loop_start: s.ip, ..adv };
                if cell != 0 {
                    Ok((entered, Action::Continue))
                } else {
                    match resolve(s.ip as usize, toks) {
                        Ok(p) => Ok((State { ip: p + 1, ..entered }, Action::Continue)),
                        Err(e) => Err(e),
                    }
                }
            },
            TokenType::Rpar => if cell != 0 {
                Ok((State { ip: s.loop_start + 1, ..s }, Action::Continue))
            } else {
                Ok((adv, Action::Continue))
            },
        }
    }
}

/// The state after the byte `b` was read for the input instruction at `s.ip`.
pub open spec fn fed(s: State, b: u8) -> State {
    State { tape: s.tape.update(s.dp, b as i32), ip: s.ip + 1, ..s }
}

/// How a run that stopped without error ended.
pub ghost struct Outcome {
    pub state: State,
    pub output: Seq<char>,
    pub steps: nat,
    pub halted: bool,
}

/// `r` with `out` written before its output and `k` more steps counted.
pub open spec fn after(r: Result<Outcome, MachineError>, out: Seq<char>, k: nat) -> Result<Outcome, MachineError> {
    match r {
        Ok(o) => Ok(Outcome { output: out + o.output, steps: o.steps + k, ..o }),
        Err(e) => Err(e),
    }
}

/// Running `toks` from `s` with the bytes `input` to read and at most `fuel`
/// instructions to execute. The run halts when the instruction pointer is past
/// the last token; it stops, not halted, when the fuel is spent. An input
/// instruction with no byte left is an `IoError`.
pub open spec fn run_spec(s: State, toks: Seq<Token>, input: Seq<u8>, fuel: nat) -> Result<Outcome, MachineError>
    decreases fuel,
{
    if s.ip >= toks.len() {
        Ok(Outcome { state: s, output: seq![], steps: 0, halted: true })
    } else if fuel == 0 {
        Ok(Outcome { state: s, output: seq![], steps: 0, halted: false })
    } else {
        match next(s, toks) {
            Err(e) => Err(e),
            Ok((t, a)) => match a {
                Action::Continue => after(run_spec(t, toks, input, (fuel - 1) as nat), seq![], 1),
                Action::Output(c) => after(run_spec(t, toks, input, (fuel - 1) as nat), seq![c], 1),
                Action::Input => if input.len() == 0 {
                    Err(MachineError::IoError)
                } else {
                    after(run_spec(fed(t, input[0]), toks, input.drop_first(), (fuel - 1) as nat), seq![], 1)
                },
                Action::Halted => Ok(Outcome { state: t, output: seq![], steps: 0, halted: true }),
            },
        }
    }
}

proof fn lemma_after_after(r: Result<Outcome, MachineError>, a: Seq<char>, i: nat, b: Seq<char>, j: nat)
    ensures
        after(after(r, a, i), b, j) == after(r, b + a, i + j),
{
    if let Ok(o) = r {
        assert(b + (a + o.output) =~= (b + a) + o.output);
    }
}

proof fn lemma_after_nothing(r: Result<Outcome, MachineError>)
    ensures
        after(r, seq![], 0) == r,
{
    if let Ok(o) = r {
        assert(seq![] + o.output =~= o.output);
    }
}

/// The instructions that only move the pointer or change a cell.
pub open spec fn is_arith(t: TokenType) -> bool {
    t == TokenType::Plus || t == TokenType::Minus || t == TokenType::Left || t == TokenType::Right
}

/// Right moves minus left moves among the first `n` tokens.
pub open spec fn net_shift(toks: Seq<Token>, n: int) -> int
    decreases n,
{
    if n <= 0 {
        0
    } else {
        net_shift(toks, n - 1) + match toks[n - 1].typ {
            TokenType::Right => 1int,
            TokenType::Left => -1int,
            _ => 0int,
        }
    }
}

/// The tape after applying the first `n` tokens one after another to a fresh
/// tape of `capacity` cells, each cell change at the net shift reached so far.
pub open spec fn simulate(toks: Seq<Token>, n: int, capacity: nat) -> Seq<i32>
    decreases n,
{
    if n <= 0 {
        zeros(capacity)
    } else {
        let t = simulate(toks, n - 1, capacity);
        let d = net_shift(toks, n - 1);
        match toks[n - 1].typ {
            TokenType::Plus => t.update(d, wrap_inc(t[d])),
            TokenType::Minus => t.update(d, wrap_dec(t[d])),
            _ => t,
        }
    }
}

/// The pointer stays on a tape of `capacity` cells after every prefix.
pub open spec fn stays_on_tape(toks: Seq<Token>, capacity: nat) -> bool {
    forall|n: int| 0 <= n <= toks.len() ==> 0 <= #[trigger] net_shift(toks, n) < capacity
}

pub open spec fn simulated_state(toks: Seq<Token>, n: int, capacity: nat) -> State {
    State { tape: simulate(toks, n, capacity), dp: net_shift(toks, n), ip: n, loop_start: 0 }
}

proof fn lemma_simulate_len(toks: Seq<Token>, n: int, capacity: nat)
    requires
        stays_on_tape(toks, capacity),
        n <= toks.len(),
    ensures
        simulate(toks, n, capacity).len() == capacity,
    decreases n,
{
    if n > 0 {
        lemma_simulate_len(toks, n - 1, capacity);
        assert(0 <= net_shift(toks, n - 1) < capacity);
    }
}

proof fn lemma_straight_from(toks: Seq<Token>, capacity: nat, input: Seq<u8>, n: int, fuel: nat)
    requires
        positioned(toks),
        forall|i: int| 0 <= i < toks.len() ==> is_arith(#[trigger] toks[i].typ),
        0 < capacity <= isize::MAX,
        toks.len() <= usize::MAX,
        stays_on_tape(toks, capacity),
        0 <= n <= toks.len(),
        fuel >= toks.len() - n,
    ensures
        run_spec(simulated_state(toks, n, capacity), toks, input, fuel) == Ok::<Outcome, MachineError>(
            Outcome {
                state: simulated_state(toks, toks.len() as int, capacity),
                output: seq![],
                steps: (toks.len() - n) as nat,
                halted: true,
            },
        ),
    decreases toks.len() - n,
{
    if n < toks.len() {
        lemma_simulate_len(toks, n, capacity);
        assert(0 <= net_shift(toks, n) < capacity);
        assert(0 <= net_shift(toks, n + 1) < capacity);
        assert(is_arith(toks[n].typ));
        let s = simulated_state(toks, n, capacity);
        assert(next(s, toks) == Ok::<(State, Action), MachineError>(
            (simulated_state(toks, n + 1, capacity), Action::Continue),
        ));
        lemma_straight_from(toks, capacity, input, n + 1, (fuel - 1) as nat);
        assert(seq![] + seq![] =~= Seq::<char>::empty());
    }
}

/// A program made only of `+`, `-`, `<` and `>`, whose pointer never leaves the
/// tape, halts after one step per token, writes nothing, and ends with the tape
/// of the direct simulation of its tokens in order and the pointer at the
/// number of right moves minus the number of left moves.
pub proof fn lemma_straight_line(toks: Seq<Token>, capacity: nat, input: Seq<u8>, fuel: nat)
    requires
        positioned(toks),
        forall|i: int| 0 <= i < toks.len() ==> is_arith(#[trigger] toks[i].typ),
        0 < capacity <= isize::MAX,
        toks.len() <= usize::MAX,
        stays_on_tape(toks, capacity),
        fuel >= toks.len(),
    ensures
        run_spec(initial(capacity), toks, input, fuel) == Ok::<Outcome, MachineError>(
            Outcome {
                state: State {
                    tape: simulate(toks, toks.len() as int, capacity),
                    dp: net_shift(toks, toks.len() as int),
                    ip: toks.len() as int,
                    loop_start: 0,
                },
                output: seq![],
                steps: toks.len(),
                halted: true,
            },
        ),
{
    assert(initial(capacity) == simulated_state(toks, 0, capacity));
    lemma_straight_from(toks, capacity, input, 0, fuel);
}

/// What `run` gives back: the machine as it stopped, the characters written,
/// the number of instructions executed, and whether the program ran to its end.
pub struct Run {
    pub machine: Machine,
    pub output: Vec<char>,
    pub steps: usize,
    pub halted: bool,
}

/// Relies on `char::from_u32`: it returns the character of `v` exactly when `v`
/// is a Unicode scalar value, and `None` otherwise.
#[verifier::external_body]
fn char_from_u32(v: u32) -> (r: Option<char>)
    ensures
        r == (if is_scalar(v as int) { Some(v as char) } else { None::<char> }),
{
    char::from_u32(v)
}

impl Machine {
    pub open spec fn wf(&self) -> bool {
        valid_state(self@)
    }

    /// A fresh machine: `capacity` cells, all zero, both pointers at 0. The
    /// capacity is at most `isize::MAX`, so that every data pointer, one step
    /// off the tape included, is an `isize`.
    pub fn new(capacity: usize) -> (m: Machine)
        requires
            0 < capacity <= isize::MAX as usize,
        ensures
            m@ == initial(capacity as nat),
            m.wf(),
    {
        let mut tape: Vec<i32> = Vec::new();
        let mut i: usize = 0;
        while i < capacity
            invariant
                i <= capacity,
                tape@ == zeros(i as nat),
            decreases capacity - i,
        {
            tape.push(0);
            i = i + 1;
            assert(tape@ =~= zeros(i as nat));
        }
        Machine { tape, dp: 0, ip: 0, loop_start: 0 }
    }

    /// Runs the instruction at the instruction pointer and says what the caller
    /// is to do next. An input instruction changes nothing here: the caller
    /// reads a byte and hands it to `provide_input`. A loop start whose cell is
    /// zero skips to just past the loop end that `seek_closing` finds; a loop end
    /// whose cell is nonzero jumps back to just past the position in the loop
    /// register. On an error the machine is left as it was.
    pub fn step(&mut self, program: &Vec<Token>) -> (r: Result<Action, MachineError>)
        requires
            old(self).wf(),
            positioned(program@),
        ensures
            final(self).wf(),
            match next(old(self)@, program@) {
                Ok((s, a)) => r == Ok::<Action, MachineError>(a) && final(self)@ == s,
                Err(e) => r == Err::<Action, MachineError>(e) && final(self)@ == old(self)@,
            },
    {
        if self.ip >= program.len() {
            return Ok(Action::Halted);
        }
        let cell = self.tape[self.dp];
        match program[self.ip].typ {
            TokenType::Left => {
                if self.dp == 0 {
                    return Err(MachineError::AddressError { dp: -1, capacity: self.tape.len() });
                }
                self.dp = self.dp - 1;
            },
            TokenType::Right => {
                if self.dp + 1 >= self.tape.len() {
                    return Err(MachineError::AddressError { dp: (self.dp + 1) as isize, capacity: self.tape.len() });
                }
                self.dp = self.dp + 1;
            },
            TokenType::Plus => {
                let v = if cell == i32::MAX { i32::MIN } else { cell + 1 };
                self.tape.set(self.dp, v);
            },
            TokenType::Minus => {
                let v = if cell == i32::MIN { i32::MAX } else { cell - 1 };
                self.tape.set(self.dp, v);
            },
            TokenType::Comma => {
                return Ok(Action::Input);
            },
            TokenType::Dot => {
                if cell < 0 {
                    return Err(MachineError::EncodingError { value: cell });
                }
                match char_from_u32(cell as u32) {
                    Some(c) => {
                        self.ip = self.ip + 1;
                        return Ok(Action::Output(c));
                    },
                    None => {
                        return Err(MachineError::EncodingError { value: cell });
                    },
                }
            },
            TokenType::Lpar => {
                if cell == 0 {
                    match seek_closing(self.ip, program) {
                        Ok(p) => {
                            proof {
                                lemma_resolve_match(self.ip, program@, 0);
                            }
                            self.loop_start = self.ip;
                            self.ip = p + 1;
                            return Ok(Action::Continue);
                        },
                        Err(e) => {
                            return Err(e);
                        },
                    }
                }
                self.loop_start = self.ip;
            },
            TokenType::Rpar => {
                if cell != 0 {
                    self.ip = self.loop_start + 1;
                    return Ok(Action::Continue);
                }
            },
        }
        self.ip = self.ip + 1;
        Ok(Action::Continue)
    }

    /// Stores the byte read for the input instruction at the instruction
    /// pointer into the current cell and moves past that instruction.
    pub fn provide_input(&mut self, program: &Vec<Token>, byte: u8)
        requires
            old(self).wf(),
            old(self).ip < program@.len(),
            program@[old(self).ip as int].typ == TokenType::Comma,
        ensures
            final(self).wf(),
            final(self)@ == fed(old(self)@, byte),
    {
        let n = program.len();
        assert(self.ip < n);
        self.tape.set(self.dp, byte as i32);
        self.ip = self.ip + 1;
    }

    /// The tape's cells in order, for inspection after a run; with `all` false
    /// the cells holding zero are left out.
    pub fn cells(&self, all: bool) -> (r: Vec<i32>)
        ensures
            all ==> r@ == self.tape@,
            !all ==> r@ == self.tape@.filter(|v: i32| v != 0),
    {
        let mut out: Vec<i32> = Vec::new();
        let mut i: usize = 0;
        while i < self.tape.len()
            invariant
                i <= self.tape@.len(),
                all ==> out@ == self.tape@.subrange(0, i as int),
                !all ==> out@ == self.tape@.subrange(0, i as int).filter(|v: i32| v != 0),
            decreases self.tape@.len() - i,
        {
            let v = self.tape[i];
            proof {
                let pre = self.tape@.subrange(0, i + 1);
                assert(pre.drop_last() =~= self.tape@.subrange(0, i as int));
                reveal(Seq::filter);
            }
            if all || v != 0 {
                out.push(v);
            }
            i = i + 1;
            assert(all ==> out@ =~= self.tape@.subrange(0, i as int));
        }
        assert(self.tape@.subrange(0, self.tape@.len() as int) =~= self.tape@);
        out
    }

    /// The capacity of the tape.
    pub fn capacity(&self) -> (r: usize)
        ensures
            r == self.tape@.len(),
    {
        self.tape.len()
    }
}

/// Runs `program` on a fresh tape of `capacity` cells, reading input bytes from
/// `input` in order, for at most `fuel` instructions.
pub fn run(program: &Vec<Token>, capacity: usize, input: &Vec<u8>, fuel: usize) -> (r: Result<Run, MachineError>)
    requires
        positioned(program@),
        0 < capacity <= isize::MAX as usize,
    ensures
        match run_spec(initial(capacity as nat), program@, input@, fuel as nat) {
            Ok(o) => r matches Ok(res) && res.machine@ == o.state && res.output@ == o.output
                && res.steps == o.steps && res.halted == o.halted,
            Err(e) => r == Err::<Run, MachineError>(e),
        },
{
    let mut m = Machine::new(capacity);
    let mut out: Vec<char> = Vec::new();
    let mut k: usize = 0;
    let mut steps: usize = 0;
    proof {
        assert(input@.subrange(0, input@.len() as int) =~= input@);
        lemma_after_nothing(run_spec(m@, program@, input@, fuel as nat));
    }
    loop
        invariant
            positioned(program@),
            m.wf(),
            steps <= fuel,
            k <= input@.len(),
            run_spec(initial(capacity as nat), program@, input@, fuel as nat) == after(
                run_spec(m@, program@, input@.subrange(k as int, input@.len() as int), (fuel - steps) as nat),
                out@,
                steps as nat,
            ),
        decreases fuel - steps,
    {
        let ghost rest = input@.subrange(k as int, input@.len() as int);
        if m.ip >= program.len() || steps == fuel {
            let halted = m.ip >= program.len();
            assert(out@ + seq![] =~= out@);
            return Ok(Run { machine: m, output: out, steps, halted });
        }
        let ghost left = (fuel - steps - 1) as nat;
        match m.step(program) {
            Err(e) => {
                return Err(e);
            },
            Ok(Action::Continue) => {
                proof {
                    lemma_after_after(run_spec(m@, program@, rest, left), seq![], 1, out@, steps as nat);
                    assert(out@ + seq![] =~= out@);
                }
            },
            Ok(Action::Output(c)) => {
                proof {
                    lemma_after_after(run_spec(m@, program@, rest, left), seq![c], 1, out@, steps as nat);
                    assert(out@ + seq![c] =~= out@.push(c));
                }
                out.push(c);
            },
            Ok(Action::Input) => {
                if k >= input.len() {
                    return Err(MachineError::IoError);
                }
                let b = input[k];
                m.provide_input(program, b);
                proof {
                    assert(rest.drop_first() =~= input@.subrange(k + 1, input@.len() as int));
                    lemma_after_after(run_spec(m@, program@, rest.drop_first(), left), seq![], 1, out@, steps as nat);
                    assert(out@ + seq![] =~= out@);
                }
                k = k + 1;
            },
            Ok(Action::Halted) => {
                // `step` halts only past the last token, which was ruled out above
                assert(false);
                return Ok(Run { machine: m, output: out, steps, halted: true });
            },
        }
        steps = steps + 1;
    }
}

} // verus!
