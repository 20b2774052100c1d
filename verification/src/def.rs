//! Constants shared by the codec, the envelope and the request facade.
use vstd::prelude::*;

verus! {

/// Column names used by the file-update service.
pub const PACKER_INT_FILE_LIST: &'static str = "file_list";

pub const PACKER_INT_FILE_ID: &'static str = "file_id";

pub const PACKER_INT_FILE_SIZE: &'static str = "file_size";

pub const PACKER_INT_TIME: &'static str = "time";

pub const PACKER_STRING_FILE_NAME: &'static str = "file_name";

pub const PACKER_STRING_FILE_PATH: &'static str = "file_path";

pub const PACKER_STRING_LOCAL_PATH: &'static str = "local_path";

pub const PACKER_STRING_MD5_CODE: &'static str = "md5_code";

pub const PACKER_STRING_FILE_FLAG: &'static str = "file_flag";

/// Packet kind of an outgoing request.
pub const REQUEST_PACKET: i32 = 0;

/// Packet kind of an answer.
pub const ANSWER_PACKET: i32 = 1;

/// Version tag of the legacy single-section record layout.
pub const PACKER_VERSION_V1: i32 = 1;

/// Version tag of the extended multi-section record layout.
pub const PACKER_VERSION_V2: i32 = 0x20;

/// Milliseconds that a connection attempt may take.
pub const CONNECT_TIMEOUT_MS: u32 = 5000;

/// Seconds that a request waits for its response.
pub const REQUEST_TIMEOUT_SECS: u64 = 30;

} // verus!
