//! Reading and rewriting iTunes style metadata of MPEG-4 audio files.

pub mod again;
pub mod atom;
pub mod audio;
pub mod codec;
pub mod content;
pub mod data;
pub mod error;
pub mod file;
pub mod head;
pub mod ident;
pub mod laws;
pub mod reader;
pub mod rewrite;
pub mod schedule;
pub mod tag;
pub mod template;

pub use atom::metaitem::MetaItem;
pub use atom::{Atom, AtomT};
pub use audio::{AudioInfo, ChannelConfig, Duration, SampleRate};
pub use content::{Content, ContentT};
pub use data::{Data, DataT};
pub use error::{Error, ErrorKind};
pub use file::read_tag_from;
pub use head::{parse_head, write_head, AtomBounds, Head, Size};
pub use ident::{DataIdent, Ident};
pub use reader::Reader;
pub use rewrite::{dump_tag_to, write_tag_to};
pub use tag::Tag;
pub use template::{filetype_atom, item_list_atom_t, metadata_atom};
