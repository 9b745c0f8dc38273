//! Validation of the directories given on the command line.

use vstd::prelude::*;

verus! {

/// What is said of a path that is not a directory.
pub open spec fn not_a_directory(path: Seq<char>) -> Seq<char> {
    "'"@ + path + "' is not a valid directory path"@
}

/// Accepts `path` where it names a directory, which `is_dir` says, and
/// says what is wrong with it where it does not.
pub fn validate_directory(path: &str, is_dir: bool) -> (checked: Result<String, String>)
    ensures
        match checked {
            Ok(accepted) => is_dir && accepted@ == path@,
            Err(message) => !is_dir && message@ == not_a_directory(path@),
        },
{
    if is_dir {
        Ok(String::from_str(path))
    } else {
        let mut message: String = String::from_str("'");
        message.append(path);
        message.append("' is not a valid directory path");
        Err(message)
    }
}

} // verus!
