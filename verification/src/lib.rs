//! The client side of the Language Server Protocol: positions, edits and
//! snippets of the protocol on a rope of chars, the framing of messages,
//! and the bookkeeping of requests, clients and work in progress.

use vstd::prelude::*;

pub mod calls;
pub mod completion;
pub mod diagnostic;
pub mod diff;
pub mod edits;
pub mod error;
pub mod json;
pub mod jsonrpc;
pub mod lifecycle;
pub mod lsp;
pub mod progress;
pub mod registry;
pub mod requests;
pub mod rope;
pub mod selection;
pub mod snippet;
pub mod strings;
pub mod table;
pub mod text;
pub mod transaction;
pub mod transport;
pub mod util;

pub use calls::{MethodCall, Notification};
pub use error::Error;
pub use lsp::Position;
pub use progress::{LspProgressMap, ProgressStatus};
pub use registry::Registry;

verus! {

/// The code unit in which the `character` field of a protocol position is
/// counted.
#[derive(Clone, Copy, Debug, PartialEq, Eq, Structural)]
pub enum OffsetEncoding {
    /// UTF-8 code units, that is bytes.
    Utf8,
    /// UTF-32 code units, that is chars.
    Utf32,
    /// UTF-16 code units.
    Utf16,
}

impl OffsetEncoding {
    /// The encoding that a name of the protocol stands for.
    pub open spec fn of_name(name: Option<Seq<char>>) -> OffsetEncoding {
        match name {
            Some(name) => if name == "utf-8"@ {
                OffsetEncoding::Utf8
            } else if name == "utf-32"@ {
                OffsetEncoding::Utf32
            } else {
                OffsetEncoding::Utf16
            },
            None => OffsetEncoding::Utf16,
        }
    }

    /// The encoding that a server asks for by the name it gives: `utf-8`
    /// or `utf-32`, and UTF-16 where it gives no name or any other.
    pub fn from_name(name: Option<&str>) -> (r: OffsetEncoding)
        ensures
            r == Self::of_name(
                match name {
                    Some(name) => Some(name@),
                    None => None,
                },
            ),
    {
        match name {
            Some(name) => {
                let name = name.to_owned();
                if name == "utf-8".to_owned() {
                    OffsetEncoding::Utf8
                } else if name == "utf-32".to_owned() {
                    OffsetEncoding::Utf32
                } else {
                    OffsetEncoding::Utf16
                }
            },
            None => OffsetEncoding::Utf16,
        }
    }
}

impl Default for OffsetEncoding {
    fn default() -> (r: Self)
        ensures
            r == OffsetEncoding::Utf16,
    {
        OffsetEncoding::Utf16
    }
}

} // verus!
