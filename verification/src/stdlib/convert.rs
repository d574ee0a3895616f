//! Type conversion native names.

use vstd::prelude::*;
use crate::error::Error;
use crate::interpreter::{Function, Interpreter, StateM};
use crate::stdlib::{stub_fun, with_stub};

verus! {

/// The names this module registers, applied to a function table in order.
pub open spec fn convert_stubs(m: Map<Seq<char>, crate::interpreter::FunM>) -> Map<
    Seq<char>,
    crate::interpreter::FunM,
> {
    with_stub(with_stub(with_stub(with_stub(with_stub(m, "int"@), "float"@), "string"@), "list"@), "bool"@)
}

/// Registers one stub entry under the given name.
fn register_function(interpreter: &mut Interpreter, name: &str) -> (r: Result<(), Error>)
    requires
        old(interpreter).wf(),
    ensures
        final(interpreter).wf(),
        r matches Ok(u),
        final(interpreter).stm() == (StateM {
            funcs: with_stub(old(interpreter).stm().funcs, name@),
            ..old(interpreter).stm()
        }),
{
    let function = Function { parameters: Vec::new(), body: Vec::new() };
    proof {
        assert(function@ =~~= stub_fun());
    }
    interpreter.define_function(String::from_str(name), function);
    Ok(())
}

/// Registers every name of this module.
pub fn register_conversion_functions(interpreter: &mut Interpreter) -> (r: Result<(), Error>)
    requires
        old(interpreter).wf(),
    ensures
        final(interpreter).wf(),
        r matches Ok(u),
        final(interpreter).stm() == (StateM {
            funcs: convert_stubs(old(interpreter).stm().funcs),
            ..old(interpreter).stm()
        }),
{
    register_function(interpreter, "int")?;
    register_function(interpreter, "float")?;
    register_function(interpreter, "string")?;
    register_function(interpreter, "list")?;
    register_function(interpreter, "bool")?;
    proof {
        assert(final(interpreter).stm() =~~= (StateM {
            funcs: convert_stubs(old(interpreter).stm().funcs),
            ..old(interpreter).stm()
        }));
    }
    Ok(())
}

} // verus!
