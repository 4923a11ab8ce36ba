//! Opening files, shortcuts and URLs through the shell.
use vstd::prelude::*;
use crate::entries::{decimal, push_decimal};
use crate::text::{chars_of, string_from_chars};

verus! {

/// Error text for a failed shell open with the given result code.
pub open spec fn shell_error_message(code: nat) -> Seq<char> {
    "ShellExecuteW 失败，错误码 "@ + decimal(code)
}

/// Outcome of a shell open from the value it returned: values up to 32 are
/// error codes, anything larger means success.
pub fn launch_outcome(code: usize) -> (r: Result<(), String>)
    ensures
        r is Ok <==> code > 32,
        r matches Err(m) ==> m@ == shell_error_message(code as nat),
{
    if code <= 32 {
        let mut msg = chars_of("ShellExecuteW 失败，错误码 ");
        push_decimal(&mut msg, code as u32);
        Err(string_from_chars(msg.as_slice()))
    } else {
        Ok(())
    }
}

} // verus!
