//! The signature of a file that was downloaded.
//!
//! Without a valid signature nothing is installed. A missing signature and a
//! wrong one are the same here: the caller must refuse both.

use vstd::prelude::*;
use vstd::string::*;

verus! {

/// Why the signature was not accepted.
#[derive(Debug, Clone, PartialEq, Eq)]
pub struct VerifyError(pub String);

/// What the system's verdict means: zero is a valid signature that leads to a
/// trusted root, anything else is a refusal. `message` is what the system says
/// of the status.
pub fn verify_authenticode(status: i32, message: &str) -> (out: Result<(), VerifyError>)
    ensures
        status == 0 <==> out is Ok,
        out matches Err(e) ==> e.0@ == "подпись не подтверждена (WinVerifyTrust: "@ + message@
            + ")"@,
{
    if status == 0 {
        return Ok(());
    }
    let mut text = "подпись не подтверждена (WinVerifyTrust: ".to_owned();
    text.append(message);
    text.append(")");
    Err(VerifyError(text))
}

} // verus!
