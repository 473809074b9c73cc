//! Wire format of the nyansync file transfer protocol: requests, responses,
//! response headers and the file-name scheme that names a served file after
//! its own header, together with the path tables of the server and the
//! decisions that client and server make on them.

pub mod be;
pub mod decimal;
pub mod file_name;
pub mod file_table;
pub mod hex;
pub mod path_table;
pub mod protocol;
pub mod serve;
pub mod text;

pub use file_name::ParseFileNameError;
pub use file_table::FileTable;
pub use path_table::{PathTable, PathTableError};
pub use protocol::{
    ExtCommand, FileType, ProtocolError, Request, Resolution, Response, ResponseHeader,
};
