use crate::body::decimal::{decimal_within, parse_decimal};
use crate::errors::{Error, ErrorType};
use vstd::prelude::*;

verus! {

/// How many words the command line has: the program's name, the input directory, the
/// number of workers and the output path.
pub const CONSOLE_WORDS: usize = 4;

/// Checks the words of the command line and hands them back.
///
/// Fails with an `InputError` unless there are exactly four: the program's name and three
/// arguments.
pub fn read_console(console: Vec<String>) -> (checked: Result<Vec<String>, Error>)
    ensures
        match checked {
            Ok(words) => console.len() == CONSOLE_WORDS && words == console,
            Err(error) => {
                &&& console.len() != CONSOLE_WORDS
                &&& error.type_error == ErrorType::InputError
                &&& error.message@ == "Invalid arguments"@
            },
        },
{
    if console.len() != CONSOLE_WORDS {
        return Err(Error::new(ErrorType::InputError, "Invalid arguments"));
    }
    Ok(console)
}

/// The number of workers that an argument asks for: the number it writes if it is a decimal
/// number that fits, and zero for anything else. Zero leaves the choice to the worker pool.
pub open spec fn workers_of(argument: Seq<char>) -> nat {
    match decimal_within(argument, usize::MAX as nat) {
        Some(workers) => workers,
        None => 0,
    }
}

/// Reads the number of workers that an argument asks for.
pub fn worker_count(argument: &str) -> (workers: usize)
    ensures
        workers == workers_of(argument@),
{
    match parse_decimal(argument, usize::MAX as u64) {
        Some(workers) => workers as usize,
        None => 0,
    }
}

} // verus!
