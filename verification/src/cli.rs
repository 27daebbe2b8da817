//! The data carried by each command of the command-line surface. The
//! argument parsing, file reading and writing around these types live
//! outside the library; the types themselves only name what each command
//! needs: a file, a chunk type string, and for encoding a message.

use vstd::prelude::*;

use std::path::PathBuf;

verus! {

/// `std::path::PathBuf` as an opaque carrier for a file location; vstd gives
/// it no specification, and the library never looks inside one.
#[verifier::external_type_specification]
#[verifier::external_body]
pub struct ExPathBuf(PathBuf);

/// One invocation: a single command.
pub struct Cli {
    pub command: Command,
}

/// The commands the tool offers over a PNG file.
pub enum Command {
    Encode(EncodeArgs),
    Decode(DecodeArgs),
    Remove(RemoveArgs),
    Print(PrintArgs),
}

/// Embed a message: the file, the chunk type to store it under, and the
/// message text.
pub struct EncodeArgs {
    pub file_path: PathBuf,
    pub chunk_type: String,
    pub message: String,
}

/// Read a message back: the file and the chunk type to look for.
pub struct DecodeArgs {
    pub file_path: PathBuf,
    pub chunk_type: String,
}

/// Remove the first chunk of a type: the file and the chunk type.
pub struct RemoveArgs {
    pub file_path: PathBuf,
    pub chunk_type: String,
}

/// List every chunk of a file.
pub struct PrintArgs {
    pub file_path: PathBuf,
}

} // verus!
