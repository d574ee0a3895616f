//! The native standard library: placeholder entries registered in the
//! interpreter's function table.  Each entry is a stub with no parameters
//! and an empty body, reserving its name; the native implementations are a
//! host concern outside the verified core.

use vstd::prelude::*;
use crate::error::Error;
use crate::interpreter::{FunM, Interpreter, StateM};

pub mod convert;
pub mod list_utils;
pub mod math;
pub mod string_utils;

verus! {

/// The stub entry a registered native name maps to.
pub open spec fn stub_fun() -> FunM {
    FunM { params: Seq::empty(), body: Seq::empty() }
}

/// The function table with one more stub registered.
pub open spec fn with_stub(m: Map<Seq<char>, FunM>, name: Seq<char>) -> Map<Seq<char>, FunM> {
    m.insert(name, stub_fun())
}

/// Registers every native module with the interpreter.
pub fn register_stdlib(interpreter: &mut Interpreter) -> (r: Result<(), Error>)
    requires
        old(interpreter).wf(),
    ensures
        final(interpreter).wf(),
        r matches Ok(u),
        final(interpreter).stm() == (StateM {
            funcs: crate::stdlib::list_utils::list_stubs(
                crate::stdlib::string_utils::string_stubs(
                    crate::stdlib::convert::convert_stubs(
                        crate::stdlib::math::math_stubs(old(interpreter).stm().funcs),
                    ),
                ),
            ),
            ..old(interpreter).stm()
        }),
{
    math::register_math_functions(interpreter)?;
    convert::register_conversion_functions(interpreter)?;
    string_utils::register_string_functions(interpreter)?;
    list_utils::register_list_functions(interpreter)?;
    proof {
        assert(final(interpreter).stm() =~~= (StateM {
            funcs: crate::stdlib::list_utils::list_stubs(
                crate::stdlib::string_utils::string_stubs(
                    crate::stdlib::convert::convert_stubs(
                        crate::stdlib::math::math_stubs(old(interpreter).stm().funcs),
                    ),
                ),
            ),
            ..old(interpreter).stm()
        }));
    }
    Ok(())
}

} // verus!
