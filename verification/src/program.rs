//! The program handed to the external evaluator: its runtime, the rendered
//! book, and an entry point that checks or normalizes one definition.

use vstd::prelude::*;
use vstd::string::StringExecFns;

verus! {

/// The entry point for a command: `check` type-checks the named definition,
/// `run` normalizes it.
pub open spec fn main_line(command: Seq<char>, arg: Seq<char>) -> Seq<char> {
    if command == "check"@ {
        "Main = (API.check Book."@ + arg + ")\n"@
    } else {
        "Main = (API.normal Book."@ + arg + ")\n"@
    }
}

/// The whole program: the runtime, the book and the entry point, one after
/// the other, a line feed between them.
pub open spec fn check_program(
    kind_hvm1: Seq<char>,
    book_hvm1: Seq<char>,
    command: Seq<char>,
    arg: Seq<char>,
) -> Seq<char> {
    kind_hvm1 + "\n"@ + book_hvm1 + "\n"@ + main_line(command, arg)
}

/// Whether a command is one that the evaluator is run for.
pub fn is_command(command: &str) -> (res: bool)
    ensures
        res == (command@ == "check"@ || command@ == "run"@),
{
    let given = command.to_owned();
    given == "check".to_owned() || given == "run".to_owned()
}

/// Puts together the program for the external evaluator from the text of
/// its runtime, the rendered book, the command and the name of the
/// definition it is about.
pub fn generate_check_hvm1(kind_hvm1: &str, book_hvm1: &str, command: &str, arg: &str) -> (res:
    String)
    requires
        command@ == "check"@ || command@ == "run"@,
    ensures
        res@ == check_program(kind_hvm1@, book_hvm1@, command@, arg@),
{
    let mut main_hvm1 = if command.to_owned() == "check".to_owned() {
        String::from_str("Main = (API.check Book.")
    } else {
        String::from_str("Main = (API.normal Book.")
    };
    main_hvm1.append(arg);
    main_hvm1.append(")\n");
    let mut code = String::from_str(kind_hvm1);
    code.append("\n");
    code.append(book_hvm1);
    code.append("\n");
    code.append(main_hvm1.as_str());
    code
}

} // verus!
