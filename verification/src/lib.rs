//! Client-side core of a message-oriented middleware binding: a
//! self-describing binary record codec, the routable business message that
//! carries its output, and the registry that correlates in-flight requests
//! with their single-use completion sinks.
pub mod def;
pub mod text;
pub mod f2_record;
pub mod f2_laws;
pub mod f2_result_set;
pub mod f2_packer;
pub mod f2_unpacker;
pub mod biz_message;
pub mod connection;
pub mod callback;
pub mod json;
pub mod config;

use vstd::prelude::*;
use crate::biz_message::BizMessage;
use crate::connection::Connection;
use crate::def::{PACKER_VERSION_V1, PACKER_VERSION_V2, REQUEST_PACKET};
use crate::f2_packer::{blank, packed, Packer};
use crate::f2_record::{decode, version_known, CodecError, DatasetSpec};
use crate::f2_unpacker::{opened, UnPacker};
use crate::json::{is_body, lemma_body_keeps_version, pack_body, run_body, JsonValue};

verus! {

/// The header fields of a request. A field left out stays zero.
#[derive(Clone, Copy, Debug, PartialEq, Eq, Structural)]
pub struct T2Header {
    pub function_no: i32,
    pub system_no: Option<i32>,
    pub branch_no: Option<i32>,
    pub sub_system_no: Option<i32>,
    pub company_id: Option<i32>,
}

/// Why a request could not be made ready for sending.
#[derive(Clone, Copy, Debug, PartialEq, Eq, Structural)]
pub enum SendError {
    /// No connection is open.
    NotConnected,
    /// The body is neither an object nor an array.
    NotObjectOrArray,
    /// The packer refused part of the body.
    Codec(CodecError),
}

/// A client: its connection, once one is open.
#[derive(Debug)]
pub struct T2SDK {
    pub connection: Option<Connection>,
}

/// The value of a header field: zero where it was left out.
pub open spec fn or_zero(field: Option<i32>) -> i32 {
    match field {
        Some(x) => x,
        None => 0,
    }
}

/// The request that a header and a packed content make: a blank message
/// but for the packet kind, the header fields and the content.
pub open spec fn is_request(m: BizMessage, header: T2Header, content: Seq<u8>) -> bool {
    &&& m.wf()
    &&& m.packet_type == REQUEST_PACKET
    &&& m.function_no == header.function_no
    &&& m.system_no == or_zero(header.system_no)
    &&& m.branch_no == or_zero(header.branch_no)
    &&& m.sub_system_no == or_zero(header.sub_system_no)
    &&& m.company_id == or_zero(header.company_id)
    &&& m.content@ == content
    &&& m.sender_id == 0
    &&& m.packet_id == 0
    &&& m.target_info.zeroed()
    &&& m.send_info.zeroed()
    &&& m.error_no == 0
    &&& m.error_info@.len() == 0
    &&& m.return_code == 0
    &&& m.issue_type == 0
    &&& m.sequence_no == 0
    &&& m.key_info@.len() == 0
    &&& m.app_data@.len() == 0
    &&& m.sender_company_id == 0
    &&& m.internal_license == 0
    &&& m.app_reserved@.len() == 0
}

/// A packer for the given layout.
pub fn new_packer(version: i32) -> (r: Result<Packer, CodecError>)
    ensures
        version == 1 || version == 0x20 ==> r is Ok && r->Ok_0.wf() && r->Ok_0@ == blank(
            version,
            0,
        ),
        !(version == 1 || version == 0x20) ==> r is Err && r->Err_0 == CodecError::BadVersion,
{
    Packer::new(version)
}

/// A reader over a packed record of the extended layout.
pub fn new_unpacker(buffer: &[u8]) -> (r: Result<UnPacker, CodecError>)
    ensures
        match decode(buffer@) {
            Err(e) => r is Err && r->Err_0 == e,
            Ok((v, st)) => if v == 0x20 {
                r is Ok && r->Ok_0.wf() && r->Ok_0@ == opened(0x20, buffer@, st)
            } else {
                r is Err && r->Err_0 == CodecError::BadVersion
            },
        },
{
    UnPacker::new(buffer, PACKER_VERSION_V2)
}

/// A reader over a packed record of the legacy layout.
pub fn new_unpacker_v1(buffer: &[u8]) -> (r: Result<UnPacker, CodecError>)
    ensures
        match decode(buffer@) {
            Err(e) => r is Err && r->Err_0 == e,
            Ok((v, st)) => if v == 1 {
                r is Ok && r->Ok_0.wf() && r->Ok_0@ == opened(1, buffer@, st)
            } else {
                r is Err && r->Err_0 == CodecError::BadVersion
            },
        },
{
    UnPacker::new(buffer, PACKER_VERSION_V1)
}

/// The layout that the header of a packed record names.
pub fn get_pack_version(buffer: &[u8]) -> (r: Result<i32, CodecError>)
    ensures
        buffer@.len() == 0 ==> r == Err::<i32, CodecError>(CodecError::Truncated),
        buffer@.len() > 0 && !version_known(buffer@[0]) ==> r == Err::<i32, CodecError>(
            CodecError::BadVersion,
        ),
        buffer@.len() > 0 && version_known(buffer@[0]) ==> r == Ok::<i32, CodecError>(
            buffer@[0] as i32,
        ),
{
    if buffer.len() == 0 {
        return Err(CodecError::Truncated);
    }
    let v: u8 = buffer[0];
    if v != 1 && v != 0x20 {
        return Err(CodecError::BadVersion);
    }
    Ok(v as i32)
}

/// A blank business message.
pub fn new_biz_message() -> (m: BizMessage)
    ensures
        m.wf(),
        m.is_blank(),
{
    BizMessage::new()
}

impl T2SDK {
    /// A client without a connection.
    pub fn new() -> (r: T2SDK)
        ensures
            r.connection is None,
    {
        T2SDK { connection: None }
    }

    /// Whether a connection is open.
    pub fn is_connected(&self) -> (r: bool)
        ensures
            r == self.connection is Some,
    {
        self.connection.is_some()
    }

    /// Takes the status that the transport returned for a connection
    /// attempt: zero opens the connection, anything else is the error
    /// number and leaves the client as it was.
    pub fn connect(&mut self, connection: Connection, status: i32) -> (r: Result<i32, i32>)
        ensures
            status == 0 ==> r == Ok::<i32, i32>(0) && final(self).connection == Some(connection),
            status != 0 ==> r == Err::<i32, i32>(status) && *final(self) == *old(self),
    {
        if status != 0 {
            return Err(status);
        }
        self.connection = Some(connection);
        Ok(status)
    }

    /// Gives the connection up, and hands it out for closing if there was
    /// one.
    pub fn disconnect(&mut self) -> (r: Option<Connection>)
        ensures
            r == old(self).connection,
            final(self).connection is None,
    {
        self.connection.take()
    }

    /// Makes a request ready for sending: a request message with the
    /// header's fields whose content is the body, packed in the extended
    /// layout. Without a connection, with a body that is neither object
    /// nor array, or with a body that the packer refuses, there is no
    /// request.
    pub fn send(&self, header: T2Header, body: &JsonValue) -> (r: Result<BizMessage, SendError>)
        ensures
            self.connection is None ==> r is Err && r->Err_0 == SendError::NotConnected,
            self.connection is Some && !is_body(*body) ==> r is Err && r->Err_0
                == SendError::NotObjectOrArray,
            self.connection is Some && is_body(*body) ==> (match run_body(blank(0x20, 0), *body) {
                (v, Some(e)) => r is Err && r->Err_0 == SendError::Codec(e),
                (v, None) => r is Ok && is_request(r->Ok_0, header, packed(v)) && decode(
                    r->Ok_0.content@,
                ) == Ok::<(u8, Seq<DatasetSpec>), CodecError>((0x20u8, v.datasets)),
            }),
    {
        if !self.is_connected() {
            return Err(SendError::NotConnected);
        }
        match body {
            JsonValue::Object(_) => {},
            JsonValue::Array(_) => {},
            _ => {
                return Err(SendError::NotObjectOrArray);
            },
        }
        let mut message = BizMessage::new();
        message.set_packet_type(REQUEST_PACKET);
        message.set_function(header.function_no);
        if let Some(system_no) = header.system_no {
            message.set_system_no(system_no);
        }
        if let Some(branch_no) = header.branch_no {
            message.set_branch_no(branch_no);
        }
        if let Some(sub_system_no) = header.sub_system_no {
            message.set_sub_system_no(sub_system_no);
        }
        if let Some(company_id) = header.company_id {
            message.set_company_id(company_id);
        }
        let mut packer = match Packer::new(PACKER_VERSION_V2) {
            Ok(p) => p,
            Err(e) => {
                return Err(SendError::Codec(e));
            },
        };
        packer.begin_pack();
        match pack_body(body, &mut packer) {
            Err(e) => {
                return Err(SendError::Codec(e));
            },
            Ok(()) => {},
        }
        proof {
            lemma_body_keeps_version(blank(0x20, 0), *body);
        }
        packer.end_pack();
        let content = packer.get_pack_buf();
        message.set_content(content);
        Ok(message)
    }
}

} // verus!
