//! Ways to find the names of the sub-files of an archive that stores only
//! their hashes.

use vstd::prelude::*;

verus! {

/// The way in which the names of the sub-files of an archive can be found.
#[derive(Copy, Clone, Debug, PartialEq, Eq)]
pub enum FileHashType {
    /// The archive holds the messages of the game in one language. The game
    /// ships a list file beside it that names its sub-files.
    Message,
}

/// Whether `name` is the file name of an archive of game messages.
pub open spec fn is_message_archive(name: Seq<char>) -> bool {
    ||| name == "message.bin"@
    ||| name == "message_en.bin"@
    ||| name == "message_fr.bin"@
    ||| name == "message_ge.bin"@
    ||| name == "message_it.bin"@
    ||| name == "message_sp.bin"@
    ||| name == "message_us.bin"@
    ||| name == "message_debug.bin"@
    ||| name == "message_debug_en.bin"@
    ||| name == "message_debug_fr.bin"@
    ||| name == "message_debug_ge.bin"@
    ||| name == "message_debug_it.bin"@
    ||| name == "message_debug_sp.bin"@
    ||| name == "message_debug_us.bin"@
}

fn is_name(file_name: &str, expected: &str) -> (same: bool)
    ensures
        same == (file_name@ == expected@),
{
    file_name.to_owned() == expected.to_owned()
}

impl FileHashType {
    /// Tells from the file name of an archive how the names of its sub-files
    /// can be found, or `None` where no way is known.
    pub fn predict_from_file_name(file_name: &str) -> (r: Option<FileHashType>)
        ensures
            r == if is_message_archive(file_name@) {
                Some(FileHashType::Message)
            } else {
                None
            },
    {
        if is_name(file_name, "message.bin") || is_name(file_name, "message_en.bin") || is_name(
            file_name,
            "message_fr.bin",
        ) || is_name(file_name, "message_ge.bin") || is_name(file_name, "message_it.bin")
            || is_name(file_name, "message_sp.bin") || is_name(file_name, "message_us.bin")
            || is_name(file_name, "message_debug.bin") || is_name(file_name, "message_debug_en.bin")
            || is_name(file_name, "message_debug_fr.bin") || is_name(
            file_name,
            "message_debug_ge.bin",
        ) || is_name(file_name, "message_debug_it.bin") || is_name(
            file_name,
            "message_debug_sp.bin",
        ) || is_name(file_name, "message_debug_us.bin") {
            Some(FileHashType::Message)
        } else {
            None
        }
    }
}

} // verus!
