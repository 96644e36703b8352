use vstd::prelude::*;
use crate::error::ProgramError;

verus! {

/// The message of the error for an operating system without a known shell.
pub open spec fn unsupported_os_message() -> Seq<char> {
    "OS not supported by CLI"@
}

/// The shell program, and the switch that hands it a command line, on the
/// operating system named `os` (as `std::env::consts::OS` names it).
pub open spec fn shell_for(os: Seq<char>) -> Option<(Seq<char>, Seq<char>)> {
    if os == "linux"@ {
        Some(("sh"@, "-c"@))
    } else if os == "windows"@ {
        Some(("cmd"@, "/C"@))
    } else {
        None
    }
}

/// The shell program and its command switch for the operating system `os`.
pub fn shell_command(os: &str) -> (r: Result<(&'static str, &'static str), ProgramError>)
    ensures
        match shell_for(os@) {
            Some((program, switch)) => r matches Ok((p, s)) && p@ == program && s@ == switch,
            None => r matches Err(e) && e.message() == unsupported_os_message(),
        },
{
    let name = String::from_str(os);
    if name == String::from_str("linux") {
        Ok(("sh", "-c"))
    } else if name == String::from_str("windows") {
        Ok(("cmd", "/C"))
    } else {
        Err(ProgramError::new(String::from_str("OS not supported by CLI")))
    }
}

} // verus!
