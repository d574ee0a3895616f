//! Mathematical native names.

use vstd::prelude::*;
use crate::error::Error;
use crate::interpreter::{Function, Interpreter, StateM};
use crate::stdlib::{stub_fun, with_stub};

verus! {

/// The names this module registers, applied to a function table in order.
pub open spec fn math_stubs(m: Map<Seq<char>, crate::interpreter::FunM>) -> Map<
    Seq<char>,
    crate::interpreter::FunM,
> {
    with_stub(with_stub(with_stub(with_stub(with_stub(with_stub(with_stub(with_stub(with_stub(with_stub(with_stub(with_stub(with_stub(with_stub(m, "abs"@), "sqrt"@), "pow"@), "min"@), "max"@), "floor"@), "ceil"@), "round"@), "sin"@), "cos"@), "tan"@), "asin"@), "acos"@), "atan"@)
}

/// Registers one stub entry under the given name.
fn register_function(interpreter: &mut Interpreter, name: &str) -> (r: Result<(), Error>)
    requires
        old(interpreter).wf(),
    ensures
        final(interpreter).wf(),
        r matches Ok(u),
        final(interpreter).stm() == (StateM {
            funcs: with_stub(old(interpreter).stm().funcs, name@),
            ..old(interpreter).stm()
        }),
{
    let function = Function { parameters: Vec::new(), body: Vec::new() };
    proof {
        assert(function@ =~~= stub_fun());
    }
    interpreter.define_function(String::from_str(name), function);
    Ok(())
}

/// Registers every name of this module.
pub fn register_math_functions(interpreter: &mut Interpreter) -> (r: Result<(), Error>)
    requires
        old(interpreter).wf(),
    ensures
        final(interpreter).wf(),
        r matches Ok(u),
        final(interpreter).stm() == (StateM {
            funcs: math_stubs(old(interpreter).stm().funcs),
            ..old(interpreter).stm()
        }),
{
    register_function(interpreter, "abs")?;
    register_function(interpreter, "sqrt")?;
    register_function(interpreter, "pow")?;
    register_function(interpreter, "min")?;
    register_function(interpreter, "max")?;
    register_function(interpreter, "floor")?;
    register_function(interpreter, "ceil")?;
    register_function(interpreter, "round")?;
    register_function(interpreter, "sin")?;
    register_function(interpreter, "cos")?;
    register_function(interpreter, "tan")?;
    register_function(interpreter, "asin")?;
    register_function(interpreter, "acos")?;
    register_function(interpreter, "atan")?;
    proof {
        assert(final(interpreter).stm() =~~= (StateM {
            funcs: math_stubs(old(interpreter).stm().funcs),
            ..old(interpreter).stm()
        }));
    }
    Ok(())
}

} // verus!
