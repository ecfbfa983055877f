use vstd::prelude::*;

use crate::error::{CompileError, ErrorModel};
use crate::parser::{procedures, Program};
use crate::runtime::entry_message;

verus! {

/// The name of the procedure that a program starts in.
pub const ENTRY_POINT: &'static str = "main";

/// A backend that translates a parsed program into another language. It
/// checks that the program has an entry point; the translation itself is
/// empty.
pub struct Codegen<'a> {
    program: &'a Program,
}

impl<'a> Codegen<'a> {
    pub fn new(program: &'a Program) -> (r: Self)
        ensures
            r.program() == program,
    {
        Codegen { program }
    }

    pub closed spec fn program(&self) -> &'a Program {
        self.program
    }

    /// The translated program: empty where the program declares `main`,
    /// else the general diagnostic naming the missing entry point.
    pub fn gen(&mut self) -> (r: Result<String, CompileError>)
        ensures
            final(self).program() == old(self).program(),
            procedures(old(self).program()@).contains_key(ENTRY_POINT@) ==> (r matches Ok(out) && out@
                == Seq::<char>::empty()),
            !procedures(old(self).program()@).contains_key(ENTRY_POINT@) ==> (r matches Err(x) && x@
                == ErrorModel::General(entry_message())),
    {
        if self.program.has_func(ENTRY_POINT) {
            Ok(String::new())
        } else {
            Err(CompileError::General(String::from_str("main entry point is not found, try adding \\main {}")))
        }
    }
}

} // verus!
