use vstd::prelude::*;

use crate::machine::{spec_action, spec_advance, spec_feed, Action, Machine};
use crate::opcode::OpCode;
use crate::translate::prog_wf;

verus! {

/// std's standard-input handle, opaque to the verifier.
#[verifier::external_type_specification]
#[verifier::external_body]
pub struct ExStdin(std::io::Stdin);

/// std's standard-output handle, opaque to the verifier.
#[verifier::external_type_specification]
#[verifier::external_body]
pub struct ExStdout(std::io::Stdout);

/// std's I/O error, opaque to the verifier.
#[verifier::external_type_specification]
#[verifier::external_body]
pub struct ExIoError(std::io::Error);

/// Relies on std::io::Write::write_all: on success the one-byte buffer
/// reached the output stream whole; on failure the stream failed and nothing
/// of the byte is promised.
#[verifier::external_body]
fn write_byte(out: &mut std::io::Stdout, b: u8) -> Result<(), std::io::Error> {
    std::io::Write::write_all(out, &[b])
}

/// Read exactly one byte from the input stream. Relies on
/// std::io::Read::read_exact: on success the one-byte buffer was filled from
/// the stream; end of stream before the byte, or a failed read, is an error.
#[verifier::external_body]
pub fn read_value(stdin: &mut std::io::Stdin) -> Result<u8, std::io::Error> {
    let mut input: [u8; 1] = [0; 1];
    std::io::Read::read_exact(stdin, &mut input)?;
    Ok(input[0])
}

/// Execute one instruction against the process's real streams: an output
/// byte goes to `sout`, an input instruction reads one byte from `sin`.
///
/// Returns whether the program is still going, or the I/O error that aborts
/// the run. Driving this function until it returns false is the whole
/// executor; the language admits programs that run forever, so the driving
/// loop never gets to promise an end.
pub fn exec_step(
    m: &mut Machine,
    prog: &Vec<OpCode>,
    sin: &mut std::io::Stdin,
    sout: &mut std::io::Stdout,
) -> (r: Result<bool, std::io::Error>)
    requires
        old(m).wf(),
        prog_wf(prog@),
        0 <= old(m)@.pc <= prog@.len(),
    ensures
        final(m).wf(),
        0 <= final(m)@.pc <= prog@.len(),
        (r matches Ok(more) ==> (more <==> old(m)@.pc < prog@.len())),
        (r is Ok && spec_action(prog@, old(m)@) is Input ==> exists|b: u8|
            final(m)@ == spec_feed(old(m)@, b)),
        (r is Ok && !(spec_action(prog@, old(m)@) is Input) ==> final(m)@ == spec_advance(
            prog@,
            old(m)@,
        )),
        (r is Err ==> (spec_action(prog@, old(m)@) is Output || spec_action(
            prog@,
            old(m)@,
        ) is Input) && final(m)@ == spec_advance(prog@, old(m)@)),
{
    let a = m.step(prog);
    match a {
        Action::Halt => Ok(false),
        Action::Continue => Ok(true),
        Action::Output(b) => {
            match write_byte(sout, b) {
                Ok(_) => Ok(true),
                Err(e) => Err(e),
            }
        }
        Action::Input => {
            match read_value(sin) {
                Ok(b) => {
                    m.give_input(prog, b);
                    proof {
                        assert(m@ == spec_feed(old(m)@, b));
                    }
                    Ok(true)
                }
                Err(e) => Err(e),
            }
        }
    }
}

} // verus!
