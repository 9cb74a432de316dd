//! What the library knows of shaders: where their sources lie, and what
//! becomes of a failed compilation.

use vstd::prelude::*;
use vstd::string::StringExecFns;

verus! {

/// The report of a shader that did not compile or a program that did not
/// link.
#[derive(Debug)]
pub struct ShaderError {
    pub msg: String,
}

/// The path of the shader source called `filename`.
pub fn shader_path(filename: &str) -> (r: String)
    ensures
        r@ == "shaders/"@ + filename@,
{
    "shaders/".to_owned().concat(filename)
}

impl ShaderError {
    /// The text of the report.
    pub fn message(&self) -> (r: String)
        ensures
            r@ == self.msg@,
    {
        self.msg.clone()
    }

    /// Judges the status that the graphics driver reports after compiling or
    /// linking: zero means failure, and `log` is then the report.
    pub fn check(status: i32, log: String) -> (r: Result<(), ShaderError>)
        ensures
            r is Ok <==> status != 0,
            r matches Err(e) ==> e.msg@ == log@,
    {
        if status == 0 {
            Err(ShaderError { msg: log })
        } else {
            Ok(())
        }
    }
}

} // verus!
