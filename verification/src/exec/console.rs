//! What a program asks of the console.

use vstd::prelude::*;

verus! {

/// One request to the console, in the order in which the program makes them.
#[derive(Debug, PartialEq, Eq)]
pub enum ConsoleOp {
    /// Write the text, without ending the line.
    Write(String),
    /// Write the text and end the line.
    WriteLine(String),
    /// Clear the screen and put the cursor in its first position.
    ClearScreen,
}

/// The mathematical model of a console request.
pub enum OpV {
    Write(Seq<char>),
    WriteLine(Seq<char>),
    ClearScreen,
}

impl View for ConsoleOp {
    type V = OpV;

    open spec fn view(&self) -> OpV {
        match self {
            ConsoleOp::Write(s) => OpV::Write(s@),
            ConsoleOp::WriteLine(s) => OpV::WriteLine(s@),
            ConsoleOp::ClearScreen => OpV::ClearScreen,
        }
    }
}

/// The models of a sequence of requests.
pub open spec fn ops_model(ops: Seq<ConsoleOp>) -> Seq<OpV> {
    Seq::new(ops.len(), |i: int| ops[i]@)
}

/// The characters that a terminal receives for one request. Clearing the
/// screen is the escape sequence that erases the display, then the one that
/// homes the cursor.
pub open spec fn op_text(op: OpV) -> Seq<char> {
    match op {
        OpV::Write(s) => s,
        OpV::WriteLine(s) => s.push('\n'),
        OpV::ClearScreen => "\x1B[2J\x1B[1;1H"@,
    }
}

/// The characters that a terminal receives for a sequence of requests.
pub open spec fn console_text(ops: Seq<OpV>) -> Seq<char>
    decreases ops.len(),
{
    if ops.len() == 0 {
        Seq::empty()
    } else {
        console_text(ops.drop_last()) + op_text(ops.last())
    }
}

/// The characters that a terminal receives for `ops`, as one string.
pub fn terminal_text(ops: &Vec<ConsoleOp>) -> (r: String)
    ensures
        r@ == console_text(ops_model(ops@)),
{
    let mut text = String::new();
    let mut i: usize = 0;
    while i < ops.len()
        invariant
            i <= ops.len(),
            text@ == console_text(ops_model(ops@).take(i as int)),
        decreases ops.len() - i,
    {
        let ghost head = ops_model(ops@).take(i + 1);
        assert(head.drop_last() =~= ops_model(ops@).take(i as int));
        assert(head.last() == ops[i as int]@);
        let ghost before = text@;
        match &ops[i] {
            ConsoleOp::Write(s) => {
                text.append(s.as_str());
            },
            ConsoleOp::WriteLine(s) => {
                text.append(s.as_str());
                text.append("\n");
                proof {
                    reveal_strlit("\n");
                    assert("\n"@ =~= seq!['\n']);
                    assert((before + s@) + "\n"@ =~= before + s@.push('\n'));
                }
            },
            ConsoleOp::ClearScreen => {
                text.append("\x1B[2J\x1B[1;1H");
            },
        }
        i += 1;
    }
    assert(ops_model(ops@).take(ops.len() as int) =~= ops_model(ops@));
    text
}

} // verus!
