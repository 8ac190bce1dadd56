use vstd::prelude::*;

use crate::machine::{
    init_view, spec_action, spec_advance, spec_feed, Action, Machine, VmView,
};
use crate::opcode::OpCode;
use crate::translate::{prog_wf, target_in_range};

verus! {

/// How a budgeted run ended.
#[derive(Debug, PartialEq, Eq)]
pub enum RunOutcome {
    /// The program counter reached the program's end; these are the bytes
    /// the program wrote, in order.
    Done(Vec<u8>),
    /// The input stream ended while an input instruction was pending: the
    /// run aborted, and no output is handed back.
    IOError,
    /// The step budget ran out with the program still going. The language
    /// admits programs that run forever, so some budget always runs out.
    Running,
}

/// The complete state of one run against streams: the machine, how much of
/// the input was consumed, and the output produced so far.
#[verifier::ext_equal]
pub struct RunState {
    pub vm: VmView,
    pub in_pos: int,
    pub out: Seq<u8>,
}

/// The state a run of a program starts in.
pub open spec fn init_run() -> RunState {
    RunState { vm: init_view(), in_pos: 0, out: Seq::empty() }
}

/// One step of a run against the input stream `input`: output is appended,
/// input is consumed byte by byte, and an input instruction facing an
/// exhausted stream is the one failure. A halted run stays halted.
pub open spec fn io_step(prog: Seq<OpCode>, input: Seq<u8>, s: RunState) -> Option<RunState> {
    match spec_action(prog, s.vm) {
        Action::Halt => Some(s),
        Action::Continue => Some(RunState { vm: spec_advance(prog, s.vm), ..s }),
        Action::Output(b) => Some(
            RunState { vm: spec_advance(prog, s.vm), out: s.out.push(b), ..s },
        ),
        Action::Input => {
            if s.in_pos < input.len() {
                Some(
                    RunState {
                        vm: spec_feed(s.vm, input[s.in_pos]),
                        in_pos: s.in_pos + 1,
                        ..s
                    },
                )
            } else {
                None
            }
        },
    }
}

/// `n` steps of a run; `None` once any step fails.
pub open spec fn io_steps(prog: Seq<OpCode>, input: Seq<u8>, s: RunState, n: nat) -> Option<
    RunState,
>
    decreases n,
{
    if n == 0 {
        Some(s)
    } else {
        match io_step(prog, input, s) {
            Some(t) => io_steps(prog, input, t, (n - 1) as nat),
            None => None,
        }
    }
}

/// Steps compose one at a time: after `n` good steps, step `n + 1` is one
/// more step from where the run stands.
pub proof fn lemma_io_steps_snoc(prog: Seq<OpCode>, input: Seq<u8>, s: RunState, t: RunState, n: nat)
    requires
        io_steps(prog, input, s, n) == Some(t),
    ensures
        io_steps(prog, input, s, n + 1) == io_step(prog, input, t),
    decreases n,
{
    if n == 0 {
        match io_step(prog, input, s) {
            Some(u) => {
                assert(io_steps(prog, input, u, 0) == Some(u));
            },
            None => {
                assert(io_steps(prog, input, s, 1) is None);
            },
        }
    } else {
        match io_step(prog, input, s) {
            Some(u) => {
                lemma_io_steps_snoc(prog, input, u, t, (n - 1) as nat);
            },
            None => {
                assert(false);
            },
        }
    }
}

/// Run a program against an in-memory input stream for at most `max_steps`
/// instructions, collecting the bytes it outputs.
///
/// On completion some number of steps within the budget reaches the
/// program's end with exactly the returned output; on an input failure some
/// number of steps within the budget runs out of input at an input
/// instruction. Either trace is unique, one step being a function of the
/// state. Otherwise the program is still going when the budget ends: the
/// budget is the caller's patience, not a bound the language imposes, and a
/// program that loops forever outlasts every budget.
pub fn run(code: &Vec<OpCode>, input: &Vec<u8>, max_steps: u64) -> (r: RunOutcome)
    requires
        prog_wf(code@),
    ensures
        (r matches RunOutcome::Done(out) ==> exists|n: nat|
            (#[trigger] io_steps(code@, input@, init_run(), n)) matches Some(f)
                && n <= max_steps && f.vm.pc == code@.len() && f.out == out@),
        (r is IOError ==> exists|n: nat| n <= max_steps
            && (#[trigger] io_steps(code@, input@, init_run(), n)) is None),
        (r is Running ==> (io_steps(code@, input@, init_run(), max_steps as nat) matches Some(f)
            && f.vm.pc < code@.len())),
{
    let mut m = Machine::new();
    let mut out: Vec<u8> = Vec::new();
    let mut pos: usize = 0;
    let mut steps: u64 = 0;
    proof {
        assert(out@ =~= init_run().out);
        assert(RunState { vm: m@, in_pos: pos as int, out: out@ } =~= init_run());
    }
    while steps < max_steps
        invariant
            m.wf(),
            prog_wf(code@),
            0 <= m@.pc <= code@.len(),
            pos <= input@.len(),
            steps <= max_steps,
            io_steps(code@, input@, init_run(), steps as nat) == Some(
                RunState { vm: m@, in_pos: pos as int, out: out@ },
            ),
        decreases max_steps - steps,
    {
        let ghost pre = RunState { vm: m@, in_pos: pos as int, out: out@ };
        let a = m.step(code);
        match a {
            Action::Halt => {
                proof {
                    assert(io_steps(code@, input@, init_run(), steps as nat) matches Some(f)
                        && f.vm.pc == code@.len() && f.out == out@);
                }
                return RunOutcome::Done(out);
            }
            Action::Continue => {
                proof {
                    lemma_io_steps_snoc(code@, input@, init_run(), pre, steps as nat);
                    assert(io_step(code@, input@, pre) == Some(
                        RunState { vm: m@, in_pos: pos as int, out: out@ },
                    ));
                }
            }
            Action::Output(b) => {
                out.push(b);
                proof {
                    lemma_io_steps_snoc(code@, input@, init_run(), pre, steps as nat);
                    assert(io_step(code@, input@, pre) == Some(
                        RunState { vm: m@, in_pos: pos as int, out: out@ },
                    ));
                }
            }
            Action::Input => {
                if pos < input.len() {
                    let b = input[pos];
                    m.give_input(code, b);
                    pos += 1;
                    proof {
                        lemma_io_steps_snoc(code@, input@, init_run(), pre, steps as nat);
                        assert(io_step(code@, input@, pre) == Some(
                            RunState { vm: m@, in_pos: pos as int, out: out@ },
                        ));
                    }
                } else {
                    proof {
                        lemma_io_steps_snoc(code@, input@, init_run(), pre, steps as nat);
                        assert(io_step(code@, input@, pre) is None);
                        assert(io_steps(code@, input@, init_run(), steps as nat + 1) is None);
                    }
                    return RunOutcome::IOError;
                }
            }
        }
        steps += 1;
    }
    if m.pc() == code.len() {
        RunOutcome::Done(out)
    } else {
        RunOutcome::Running
    }
}

/// A run of the empty program is over before its first step: every step
/// leaves the initial state untouched, so it halts at once with no output
/// and consumes no input, whatever the input holds. The empty program is
/// what any source of comment characters alone translates to.
pub proof fn lemma_empty_program_halts(input: Seq<u8>, n: nat)
    ensures
        io_steps(Seq::<OpCode>::empty(), input, init_run(), n) == Some(init_run()),
    decreases n,
{
    if n > 0 {
        assert(spec_action(Seq::<OpCode>::empty(), init_run().vm) is Halt);
        assert(io_step(Seq::<OpCode>::empty(), input, init_run()) == Some(init_run()));
        lemma_empty_program_halts(input, (n - 1) as nat);
    }
}

/// The program of the source `+[]`: one increment, then a loop whose cell
/// never returns to zero.
pub open spec fn tight_loop_prog() -> Seq<OpCode> {
    seq![OpCode::IncVal, OpCode::JmpFront(2), OpCode::JmpBack(1)]
}

/// The tight loop runs forever, by the language's own semantics: after any
/// number of steps the run is neither at the program's end nor out of input,
/// so no step budget sees it finish and no input stream fails it.
pub proof fn lemma_tight_loop_runs_forever(input: Seq<u8>, n: nat)
    ensures
        (io_steps(tight_loop_prog(), input, init_run(), n) matches Some(s) && 0 <= s.vm.pc < 3),
        (n == 0 ==> io_steps(tight_loop_prog(), input, init_run(), n) == Some(init_run())),
        (n == 1 ==> (io_steps(tight_loop_prog(), input, init_run(), n) matches Some(s)
            && s.vm.pc == 1 && s.vm.ptr == 0 && s.vm.tape == init_view().tape.update(0, 1u8))),
        (n >= 2 ==> (io_steps(tight_loop_prog(), input, init_run(), n) matches Some(s)
            && s.vm.pc == 2 && s.vm.ptr == 0 && s.vm.tape == init_view().tape.update(0, 1u8))),
    decreases n,
{
    let prog = tight_loop_prog();
    assert(prog.len() == 3);
    assert(prog[0] == OpCode::IncVal);
    assert(prog[1] == OpCode::JmpFront(2));
    assert(prog[2] == OpCode::JmpBack(1));
    if n > 0 {
        lemma_tight_loop_runs_forever(input, (n - 1) as nat);
        let s_prev = io_steps(prog, input, init_run(), (n - 1) as nat)->Some_0;
        lemma_io_steps_snoc(prog, input, init_run(), s_prev, (n - 1) as nat);
        if n == 1 {
            assert(init_view().tape[0] == 0);
            assert(spec_action(prog, s_prev.vm) is Continue);
        } else {
            assert(s_prev.vm.tape[0] == 1);
            assert(spec_action(prog, s_prev.vm) is Continue);
        }
    }
}

/// Check the executor's one assumption on a program: every jump lands
/// inside it. Translation guarantees this of its own output; a program built
/// by hand is checked here before it is run.
pub fn is_well_formed(code: &Vec<OpCode>) -> (b: bool)
    ensures
        b == prog_wf(code@),
{
    let n = code.len();
    let mut i: usize = 0;
    while i < n
        invariant
            i <= n,
            n == code@.len(),
            forall|k: int| 0 <= k < i ==> #[trigger] target_in_range(code@, k),
        decreases n - i,
    {
        let ok = match code[i] {
            OpCode::JmpFront(t) => t < n,
            OpCode::JmpBack(t) => t < n,
            _ => true,
        };
        if !ok {
            proof {
                assert(!target_in_range(code@, i as int));
            }
            return false;
        }
        proof {
            assert(target_in_range(code@, i as int));
        }
        i += 1;
    }
    true
}

} // verus!
