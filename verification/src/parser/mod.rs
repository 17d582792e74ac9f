//! From source text to statements.

pub mod expr;
pub mod grammar;
pub mod instr;
pub mod lower;
pub mod parse_tools;
pub mod theorems;

pub use expr::Expr;
pub use instr::Instr;
pub use lower::LowerCase;
pub use parse_tools::ParseError;

use crate::parser::grammar::{line, mistake, prefixed_line, Parsed};
use crate::parser::instr::{instrs_model, InstrV};
use crate::text::{lines_of, split_lines};
use vstd::prelude::*;

verus! {

/// What one line of a program reads as, with or without a line number before
/// it.
pub open spec fn read_line(s: Seq<char>, prefixed: bool) -> Parsed<InstrV> {
    if prefixed {
        prefixed_line(s)
    } else {
        line(s)
    }
}

/// What the lines from the `i`-th on read as, `acc` being the statements of
/// those before: the statements of all lines, or the mistake of the first
/// line that has one.
pub open spec fn read_from(lines: Seq<Seq<char>>, i: nat, acc: Seq<InstrV>, prefixed: bool) -> Parsed<
    Seq<InstrV>,
>
    decreases lines.len() - i,
{
    if i >= lines.len() {
        Parsed::Done(acc, Seq::empty())
    } else {
        match read_line(lines[i as int], prefixed) {
            Parsed::Done(instr, _) => read_from(lines, i + 1, acc.push(instr), prefixed),
            other => mistake(other),
        }
    }
}

/// What a program text reads as: one statement for each of its lines.
pub open spec fn read_file(text: Seq<char>, prefixed: bool) -> Parsed<Seq<InstrV>> {
    read_from(lines_of(text), 0, Seq::empty(), prefixed)
}

/// Reads a program, one statement from each line. With `prefixed`, each line
/// begins with its number, which is read and dropped. The first line that
/// cannot be read ends the reading, and its mistake is returned.
pub fn parse_file<'a>(file: &'a str, prefixed: bool) -> (r: Result<Vec<Instr<'a>>, ParseError<'a>>)
    ensures
        match r {
            Ok(instrs) => read_file(file@, prefixed) == Parsed::Done(
                instrs_model(instrs@),
                Seq::empty(),
            ),
            Err(e) => read_file(file@, prefixed) == (if e.fatal {
                Parsed::<Seq<InstrV>>::Fail(e@)
            } else {
                Parsed::<Seq<InstrV>>::Miss(e@)
            }),
        },
{
    let lines = split_lines(file);
    let mut instrs: Vec<Instr<'a>> = Vec::new();
    let mut i: usize = 0;
    proof {
        assert(instrs_model(instrs@) =~= Seq::empty());
    }
    while i < lines.len()
        invariant
            i <= lines@.len(),
            lines@.len() == lines_of(file@).len(),
            forall|j: int| 0 <= j < lines@.len() ==> (#[trigger] lines@[j])@ == lines_of(file@)[j],
            read_file(file@, prefixed) == read_from(
                lines_of(file@),
                i as nat,
                instrs_model(instrs@),
                prefixed,
            ),
        decreases lines@.len() - i,
    {
        let text = lines[i];
        assert(text@ == lines_of(file@)[i as int]);
        let read = if prefixed {
            Instr::parse_prefixed(text)
        } else {
            Instr::parse(text)
        };
        match read {
            Ok((_, instr)) => {
                let ghost before = instrs_model(instrs@);
                instrs.push(instr);
                assert(instrs_model(instrs@) =~= before.push(instr@));
            },
            Err(e) => {
                return Err(e);
            },
        }
        i += 1;
    }
    Ok(instrs)
}

} // verus!
