//! The business message: a routable envelope of header fields, routing
//! descriptors and opaque byte fields, and the fixed-width routing
//! descriptor itself.
use vstd::prelude::*;
use vstd::string::*;
use vstd::slice::{slice_subrange, slice_to_vec};
use vstd::utf8::{decode_utf8, encode_utf8, valid_utf8};
use crate::text::{gbk_decode, gbk_text, utf8_string};

verus! {

pub const IDENTITY_NAME_LENGTH: usize = 32;

pub const ID_LENGTH: usize = 4;

pub const ID_STR_LEN: usize = IDENTITY_NAME_LENGTH + ID_LENGTH + 1;

pub const PLUGINID_LENGTH: usize = 256;

pub const PLUGIN_NAME_LENGTH: usize = PLUGINID_LENGTH + ID_LENGTH + 1;

pub const SVR_NAME_LENGTH: usize = 256;

pub const SVRINSTANCE_NAME_LENGTH: usize = SVR_NAME_LENGTH + ID_LENGTH + 1;

/// Why an envelope operation was refused.
#[derive(Clone, Copy, Debug, PartialEq, Eq, Structural)]
pub enum EnvelopeError {
    /// A NUL byte inside a text that must end at its first NUL.
    InteriorNul,
    /// Bytes that are not text in the encoding asked for.
    InvalidText,
}

/// The array after a text was copied into it as a C string: as much of the
/// text as leaves room for the terminator, then the terminator, then what
/// the array held before.
pub open spec fn c_copy(dst: Seq<u8>, src: Seq<u8>) -> Seq<u8> {
    Seq::new(
        dst.len(),
        |i: int|
            if i < src.len() && i < dst.len() - 1 {
                src[i]
            } else if i == src.len() || i == dst.len() - 1 && src.len() >= dst.len() {
                0u8
            } else {
                dst[i]
            },
    )
}

/// `n` is the length of the C string in `a`: the number of bytes before
/// the first NUL, or all of them where there is none.
pub open spec fn is_c_len(a: Seq<u8>, n: int) -> bool {
    &&& 0 <= n <= a.len()
    &&& forall|j: int| 0 <= j < n ==> a[j] != 0
    &&& n < a.len() ==> a[n] == 0
}

/// The length of the C string in `a`.
pub open spec fn c_len(a: Seq<u8>) -> int {
    choose|n: int| is_c_len(a, n)
}

/// The bytes of the C string in `a`.
pub open spec fn c_str(a: Seq<u8>) -> Seq<u8> {
    a.take(c_len(a))
}

pub open spec fn has_nul(s: Seq<u8>) -> bool {
    exists|i: int| 0 <= i < s.len() && s[i] == 0
}

/// A sequence has one C string length only.
pub proof fn lemma_c_len_unique(a: Seq<u8>, n: int)
    requires
        is_c_len(a, n),
    ensures
        c_len(a) == n,
{
    let m = c_len(a);
    assert(is_c_len(a, m));
    if m < n {
        assert(a[m] != 0);
    } else if n < m {
        assert(a[n] != 0);
    }
}

/// The fixed-width rule of routing names, byte by byte. A text shorter
/// than the array stands at its front unchanged, with the terminator behind
/// it; of a longer one the array holds all that fits in front of its last
/// byte, which is the terminator.
pub proof fn lemma_copy_keeps_bytes(dst: Seq<u8>, src: Seq<u8>)
    requires
        dst.len() > 0,
    ensures
        c_copy(dst, src).len() == dst.len(),
        src.len() < dst.len() ==> c_copy(dst, src).take(src.len() as int) == src && c_copy(
            dst,
            src,
        )[src.len() as int] == 0,
        src.len() >= dst.len() ==> c_copy(dst, src).take(dst.len() - 1) == src.take(
            dst.len() - 1,
        ) && c_copy(dst, src).last() == 0,
{
    let out = c_copy(dst, src);
    if src.len() < dst.len() {
        assert(out.take(src.len() as int) =~= src);
    } else {
        assert(out.take(dst.len() - 1) =~= src.take(dst.len() - 1));
    }
}

/// The fixed-width rule of routing names, read back. A text without NUL
/// that is shorter than the array is kept byte for byte; a longer one is cut to
/// one byte less than the array, whose last byte is then the terminator.
pub proof fn lemma_fixed_width(dst: Seq<u8>, src: Seq<u8>)
    requires
        dst.len() > 0,
        !has_nul(src),
    ensures
        c_copy(dst, src).len() == dst.len(),
        src.len() < dst.len() ==> c_str(c_copy(dst, src)) == src,
        src.len() >= dst.len() ==> c_str(c_copy(dst, src)) == src.take(dst.len() - 1)
            && c_copy(dst, src).last() == 0,
{
    let out = c_copy(dst, src);
    let n = if src.len() < dst.len() {
        src.len() as int
    } else {
        dst.len() - 1
    };
    assert forall|j: int| 0 <= j < n implies out[j] != 0 by {
        assert(out[j] == src[j]);
    }
    assert(is_c_len(out, n));
    lemma_c_len_unique(out, n);
    assert(out.take(n) =~= src.take(n));
    assert(src.len() < dst.len() ==> src.take(n) =~= src);
}

/// Copies a text into a fixed array as a C string. Text beyond the
/// array's capacity is dropped, and a terminator always follows what was
/// copied.
pub fn copy_to_c_array(src: &str, dst: &mut Vec<u8>)
    requires
        old(dst)@.len() > 0,
    ensures
        final(dst)@ == c_copy(old(dst)@, src.spec_bytes()),
{
    let bytes = src.as_bytes();
    let n: usize = dst.len();
    let mut i: usize = 0;
    while i < bytes.len() && i < n - 1
        invariant
            n == dst@.len(),
            n == old(dst)@.len(),
            n > 0,
            bytes@ == src.spec_bytes(),
            i <= bytes@.len(),
            i <= n - 1,
            forall|j: int| 0 <= j < i ==> dst@[j] == bytes@[j],
            forall|j: int| i <= j < n ==> dst@[j] == old(dst)@[j],
        decreases bytes@.len() - i,
    {
        dst.set(i, bytes[i]);
        i = i + 1;
    }
    if bytes.len() < n {
        dst.set(bytes.len(), 0);
    } else {
        dst.set(n - 1, 0);
    }
    assert(dst@ =~= c_copy(old(dst)@, src.spec_bytes()));
}

/// Length of the C string in the array.
pub fn c_array_len(array: &[u8]) -> (n: usize)
    ensures
        is_c_len(array@, n as int),
        n == c_len(array@),
{
    let mut i: usize = 0;
    while i < array.len() && array[i] != 0
        invariant
            i <= array@.len(),
            forall|j: int| 0 <= j < i ==> array@[j] != 0,
        decreases array@.len() - i,
    {
        i = i + 1;
    }
    proof {
        lemma_c_len_unique(array@, i as int);
    }
    i
}

/// Reads the C string in the array as UTF-8 text.
pub fn c_array_to_string(array: &[u8]) -> (r: Result<String, EnvelopeError>)
    ensures
        valid_utf8(c_str(array@)) ==> r is Ok && r->Ok_0@ == decode_utf8(c_str(array@)),
        !valid_utf8(c_str(array@)) ==> r is Err && r->Err_0 == EnvelopeError::InvalidText,
{
    let n: usize = c_array_len(array);
    let text = slice_subrange(array, 0, n);
    assert(text@ =~= c_str(array@));
    match utf8_string(text) {
        Some(s) => Ok(s),
        None => Err(EnvelopeError::InvalidText),
    }
}

/// A routing descriptor as callers write it.
#[derive(Debug)]
pub struct JSRouteInfo {
    pub ospf_name: String,
    pub nbr_name: String,
    pub svr_name: String,
    pub plugin_id: String,
    pub connect_id: i32,
    pub member_no: i32,
}

/// A routing descriptor in its fixed-width form: four NUL-terminated byte
/// arrays and two integers.
#[derive(Debug)]
pub struct RouteInfo {
    pub ospf_name: Vec<u8>,
    pub nbr_name: Vec<u8>,
    pub svr_name: Vec<u8>,
    pub plugin_id: Vec<u8>,
    pub connect_id: i32,
    pub member_no: i32,
}

/// An array of the given length whose last byte is the terminator.
pub open spec fn terminated(a: Seq<u8>, len: int) -> bool {
    a.len() == len && len > 0 && a[len - 1] == 0
}

impl RouteInfo {
    /// Every array has its fixed length and ends in the terminator.
    pub open spec fn wf(&self) -> bool {
        &&& terminated(self.ospf_name@, ID_STR_LEN + 1)
        &&& terminated(self.nbr_name@, ID_STR_LEN + 1)
        &&& terminated(self.svr_name@, SVRINSTANCE_NAME_LENGTH + 1)
        &&& terminated(self.plugin_id@, PLUGIN_NAME_LENGTH + 1)
    }

    /// The descriptor of all zeros.
    pub open spec fn zeroed(&self) -> bool {
        &&& self.ospf_name@ == zeros(ID_STR_LEN + 1)
        &&& self.nbr_name@ == zeros(ID_STR_LEN + 1)
        &&& self.svr_name@ == zeros(SVRINSTANCE_NAME_LENGTH + 1)
        &&& self.plugin_id@ == zeros(PLUGIN_NAME_LENGTH + 1)
        &&& self.connect_id == 0
        &&& self.member_no == 0
    }

    /// The fixed-width form of a descriptor: each name copied into its
    /// array of zeros, cut where it is longer than the array allows.
    pub fn from_js(js: &JSRouteInfo) -> (r: RouteInfo)
        ensures
            r.wf(),
            r.ospf_name@ == c_copy(zeros(ID_STR_LEN + 1), encode_utf8(js.ospf_name@)),
            r.nbr_name@ == c_copy(zeros(ID_STR_LEN + 1), encode_utf8(js.nbr_name@)),
            r.svr_name@ == c_copy(zeros(SVRINSTANCE_NAME_LENGTH + 1), encode_utf8(js.svr_name@)),
            r.plugin_id@ == c_copy(zeros(PLUGIN_NAME_LENGTH + 1), encode_utf8(js.plugin_id@)),
            r.connect_id == js.connect_id,
            r.member_no == js.member_no,
    {
        let mut ospf_name = vec![0u8; ID_STR_LEN + 1];
        let mut nbr_name = vec![0u8; ID_STR_LEN + 1];
        let mut svr_name = vec![0u8; SVRINSTANCE_NAME_LENGTH + 1];
        let mut plugin_id = vec![0u8; PLUGIN_NAME_LENGTH + 1];
        assert(ospf_name@ =~= zeros(ID_STR_LEN + 1));
        assert(nbr_name@ =~= zeros(ID_STR_LEN + 1));
        assert(svr_name@ =~= zeros(SVRINSTANCE_NAME_LENGTH + 1));
        assert(plugin_id@ =~= zeros(PLUGIN_NAME_LENGTH + 1));
        copy_to_c_array(js.ospf_name.as_str(), &mut ospf_name);
        copy_to_c_array(js.nbr_name.as_str(), &mut nbr_name);
        copy_to_c_array(js.svr_name.as_str(), &mut svr_name);
        copy_to_c_array(js.plugin_id.as_str(), &mut plugin_id);
        RouteInfo {
            ospf_name,
            nbr_name,
            svr_name,
            plugin_id,
            connect_id: js.connect_id,
            member_no: js.member_no,
        }
    }

    /// The descriptor as callers read it: each name is the C string in
    /// its array, read as UTF-8. A name that is not UTF-8 fails the whole.
    pub fn to_js(&self) -> (r: Result<JSRouteInfo, EnvelopeError>)
        ensures
            names_are_text(*self) ==> r is Ok && r->Ok_0.ospf_name@ == decode_utf8(
                c_str(self.ospf_name@),
            ) && r->Ok_0.nbr_name@ == decode_utf8(c_str(self.nbr_name@)) && r->Ok_0.svr_name@
                == decode_utf8(c_str(self.svr_name@)) && r->Ok_0.plugin_id@ == decode_utf8(
                c_str(self.plugin_id@),
            ) && r->Ok_0.connect_id == self.connect_id && r->Ok_0.member_no == self.member_no,
            !names_are_text(*self) ==> r is Err && r->Err_0 == EnvelopeError::InvalidText,
    {
        let ospf_name = match c_array_to_string(self.ospf_name.as_slice()) {
            Ok(s) => s,
            Err(e) => {
                return Err(e);
            },
        };
        let nbr_name = match c_array_to_string(self.nbr_name.as_slice()) {
            Ok(s) => s,
            Err(e) => {
                return Err(e);
            },
        };
        let svr_name = match c_array_to_string(self.svr_name.as_slice()) {
            Ok(s) => s,
            Err(e) => {
                return Err(e);
            },
        };
        let plugin_id = match c_array_to_string(self.plugin_id.as_slice()) {
            Ok(s) => s,
            Err(e) => {
                return Err(e);
            },
        };
        Ok(
            JSRouteInfo {
                ospf_name,
                nbr_name,
                svr_name,
                plugin_id,
                connect_id: self.connect_id,
                member_no: self.member_no,
            },
        )
    }
}

/// `n` zero bytes.
pub open spec fn zeros(n: int) -> Seq<u8> {
    Seq::new(n as nat, |i: int| 0u8)
}

/// Every name of the descriptor is a C string of valid UTF-8.
pub open spec fn names_are_text(r: RouteInfo) -> bool {
    &&& valid_utf8(c_str(r.ospf_name@))
    &&& valid_utf8(c_str(r.nbr_name@))
    &&& valid_utf8(c_str(r.svr_name@))
    &&& valid_utf8(c_str(r.plugin_id@))
}

impl Default for RouteInfo {
    /// The descriptor of all zeros.
    fn default() -> (r: RouteInfo)
        ensures
            r.wf(),
            r.ospf_name@ == zeros(ID_STR_LEN + 1),
            r.nbr_name@ == zeros(ID_STR_LEN + 1),
            r.svr_name@ == zeros(SVRINSTANCE_NAME_LENGTH + 1),
            r.plugin_id@ == zeros(PLUGIN_NAME_LENGTH + 1),
            r.connect_id == 0,
            r.member_no == 0,
    {
        let ospf_name = vec![0u8; ID_STR_LEN + 1];
        let nbr_name = vec![0u8; ID_STR_LEN + 1];
        let svr_name = vec![0u8; SVRINSTANCE_NAME_LENGTH + 1];
        let plugin_id = vec![0u8; PLUGIN_NAME_LENGTH + 1];
        assert(ospf_name@ =~= zeros(ID_STR_LEN + 1));
        assert(nbr_name@ =~= zeros(ID_STR_LEN + 1));
        assert(svr_name@ =~= zeros(SVRINSTANCE_NAME_LENGTH + 1));
        assert(plugin_id@ =~= zeros(PLUGIN_NAME_LENGTH + 1));
        RouteInfo { ospf_name, nbr_name, svr_name, plugin_id, connect_id: 0, member_no: 0 }
    }
}

/// A business message: header fields, routing descriptors and opaque
/// byte fields.
#[derive(Debug)]
pub struct BizMessage {
    pub function_no: i32,
    pub packet_type: i32,
    pub branch_no: i32,
    pub system_no: i32,
    pub sub_system_no: i32,
    pub sender_id: i32,
    pub packet_id: i32,
    pub target_info: RouteInfo,
    pub send_info: RouteInfo,
    pub error_no: i32,
    pub error_info: Vec<u8>,
    pub return_code: i32,
    pub content: Vec<u8>,
    pub issue_type: i32,
    pub sequence_no: i32,
    pub key_info: Vec<u8>,
    pub app_data: Vec<u8>,
    pub company_id: i32,
    pub sender_company_id: i32,
    pub internal_license: i32,
    pub app_reserved: Vec<u8>,
}

impl BizMessage {
    /// Both routing descriptors are in their fixed-width form.
    pub open spec fn wf(&self) -> bool {
        self.target_info.wf() && self.send_info.wf()
    }

    /// Every header field is zero, every byte field is empty, and both
    /// routing descriptors are all zeros.
    pub open spec fn is_blank(&self) -> bool {
        &&& self.function_no == 0
        &&& self.packet_type == 0
        &&& self.branch_no == 0
        &&& self.system_no == 0
        &&& self.sub_system_no == 0
        &&& self.sender_id == 0
        &&& self.packet_id == 0
        &&& self.target_info.zeroed()
        &&& self.send_info.zeroed()
        &&& self.error_no == 0
        &&& self.error_info@.len() == 0
        &&& self.return_code == 0
        &&& self.content@.len() == 0
        &&& self.issue_type == 0
        &&& self.sequence_no == 0
        &&& self.key_info@.len() == 0
        &&& self.app_data@.len() == 0
        &&& self.company_id == 0
        &&& self.sender_company_id == 0
        &&& self.internal_license == 0
        &&& self.app_reserved@.len() == 0
    }

    /// A blank message.
    pub fn new() -> (m: BizMessage)
        ensures
            m.wf(),
            m.is_blank(),
    {
        BizMessage {
            function_no: 0,
            packet_type: 0,
            branch_no: 0,
            system_no: 0,
            sub_system_no: 0,
            sender_id: 0,
            packet_id: 0,
            target_info: RouteInfo::default(),
            send_info: RouteInfo::default(),
            error_no: 0,
            error_info: Vec::new(),
            return_code: 0,
            content: Vec::new(),
            issue_type: 0,
            sequence_no: 0,
            key_info: Vec::new(),
            app_data: Vec::new(),
            company_id: 0,
            sender_company_id: 0,
            internal_license: 0,
            app_reserved: Vec::new(),
        }
    }

    /// Makes the message blank again.
    pub fn reset(&mut self)
        ensures
            final(self).wf(),
            final(self).is_blank(),
    {
        *self = BizMessage::new();
    }

    /// Sets the destination of the message from a descriptor as callers
    /// write it.
    pub fn set_target_info(&mut self, js_target_info: &JSRouteInfo)
        ensures
            final(self).target_info.wf(),
            final(self).target_info.ospf_name@ == c_copy(
                zeros(ID_STR_LEN + 1),
                encode_utf8(js_target_info.ospf_name@),
            ),
            final(self).target_info.nbr_name@ == c_copy(
                zeros(ID_STR_LEN + 1),
                encode_utf8(js_target_info.nbr_name@),
            ),
            final(self).target_info.svr_name@ == c_copy(
                zeros(SVRINSTANCE_NAME_LENGTH + 1),
                encode_utf8(js_target_info.svr_name@),
            ),
            final(self).target_info.plugin_id@ == c_copy(
                zeros(PLUGIN_NAME_LENGTH + 1),
                encode_utf8(js_target_info.plugin_id@),
            ),
            final(self).target_info.connect_id == js_target_info.connect_id,
            final(self).target_info.member_no == js_target_info.member_no,
            *final(self) == (BizMessage { target_info: final(self).target_info, ..*old(self) }),
    {
        self.target_info = RouteInfo::from_js(js_target_info);
    }

    /// The destination of the message, as callers read it.
    pub fn get_target_info(&self) -> (r: Result<JSRouteInfo, EnvelopeError>)
        ensures
            names_are_text(self.target_info) ==> r is Ok && r->Ok_0.ospf_name@ == decode_utf8(
                c_str(self.target_info.ospf_name@),
            ) && r->Ok_0.nbr_name@ == decode_utf8(c_str(self.target_info.nbr_name@))
                && r->Ok_0.svr_name@ == decode_utf8(c_str(self.target_info.svr_name@))
                && r->Ok_0.plugin_id@ == decode_utf8(c_str(self.target_info.plugin_id@))
                && r->Ok_0.connect_id == self.target_info.connect_id && r->Ok_0.member_no
                == self.target_info.member_no,
            !names_are_text(self.target_info) ==> r is Err && r->Err_0
                == EnvelopeError::InvalidText,
    {
        self.target_info.to_js()
    }

    /// Sets the sender of the message from a descriptor as callers write
    /// it.
    pub fn set_send_info(&mut self, js_send_info: &JSRouteInfo)
        ensures
            final(self).send_info.wf(),
            final(self).send_info.ospf_name@ == c_copy(
                zeros(ID_STR_LEN + 1),
                encode_utf8(js_send_info.ospf_name@),
            ),
            final(self).send_info.nbr_name@ == c_copy(
                zeros(ID_STR_LEN + 1),
                encode_utf8(js_send_info.nbr_name@),
            ),
            final(self).send_info.svr_name@ == c_copy(
                zeros(SVRINSTANCE_NAME_LENGTH + 1),
                encode_utf8(js_send_info.svr_name@),
            ),
            final(self).send_info.plugin_id@ == c_copy(
                zeros(PLUGIN_NAME_LENGTH + 1),
                encode_utf8(js_send_info.plugin_id@),
            ),
            final(self).send_info.connect_id == js_send_info.connect_id,
            final(self).send_info.member_no == js_send_info.member_no,
            *final(self) == (BizMessage { send_info: final(self).send_info, ..*old(self) }),
    {
        self.send_info = RouteInfo::from_js(js_send_info);
    }

    /// The sender of the message, as callers read it.
    pub fn get_send_info(&self) -> (r: Result<JSRouteInfo, EnvelopeError>)
        ensures
            names_are_text(self.send_info) ==> r is Ok && r->Ok_0.ospf_name@ == decode_utf8(
                c_str(self.send_info.ospf_name@),
            ) && r->Ok_0.nbr_name@ == decode_utf8(c_str(self.send_info.nbr_name@))
                && r->Ok_0.svr_name@ == decode_utf8(c_str(self.send_info.svr_name@))
                && r->Ok_0.plugin_id@ == decode_utf8(c_str(self.send_info.plugin_id@))
                && r->Ok_0.connect_id == self.send_info.connect_id && r->Ok_0.member_no
                == self.send_info.member_no,
            !names_are_text(self.send_info) ==> r is Err && r->Err_0 == EnvelopeError::InvalidText,
    {
        self.send_info.to_js()
    }

    /// Sets the error text. A text with a NUL inside is refused, and the
    /// message stays as it was.
    pub fn set_error_info(&mut self, error_info: &str) -> (r: Result<(), EnvelopeError>)
        ensures
            has_nul(encode_utf8(error_info@)) ==> r == Err::<(), EnvelopeError>(
                EnvelopeError::InteriorNul,
            ) && *final(self) == *old(self),
            !has_nul(encode_utf8(error_info@)) ==> r is Ok && final(self).error_info@
                == encode_utf8(error_info@) && *final(self) == (BizMessage {
                error_info: final(self).error_info,
                ..*old(self)
            }),
    {
        let bytes = error_info.as_bytes();
        let mut i: usize = 0;
        while i < bytes.len()
            invariant
                i <= bytes@.len(),
                bytes@ == encode_utf8(error_info@),
                forall|j: int| 0 <= j < i ==> bytes@[j] != 0,
            decreases bytes@.len() - i,
        {
            if bytes[i] == 0 {
                return Err(EnvelopeError::InteriorNul);
            }
            i = i + 1;
        }
        self.error_info = slice_to_vec(bytes);
        Ok(())
    }

    /// The error text, which the transport delivers in GBK.
    pub fn get_error_info(&self) -> (r: Result<String, EnvelopeError>)
        ensures
            match gbk_text(self.error_info@) {
                Some(text) => r is Ok && r->Ok_0@ == text,
                None => r is Err && r->Err_0 == EnvelopeError::InvalidText,
            },
    {
        match gbk_decode(self.error_info.as_slice()) {
            Some(s) => Ok(s),
            None => Err(EnvelopeError::InvalidText),
        }
    }

    /// Sets the function number.
    pub fn set_function(&mut self, function_no: i32)
        ensures
            *final(self) == (BizMessage { function_no, ..*old(self) }),
    {
        self.function_no = function_no;
    }

    /// The function number.
    pub fn get_function(&self) -> (r: i32)
        ensures
            r == self.function_no,
    {
        self.function_no
    }

    /// Sets the packet kind, request or answer.
    pub fn set_packet_type(&mut self, packet_type: i32)
        ensures
            *final(self) == (BizMessage { packet_type, ..*old(self) }),
    {
        self.packet_type = packet_type;
    }

    /// The packet kind, request or answer.
    pub fn get_packet_type(&self) -> (r: i32)
        ensures
            r == self.packet_type,
    {
        self.packet_type
    }

    /// Sets the branch number.
    pub fn set_branch_no(&mut self, branch_no: i32)
        ensures
            *final(self) == (BizMessage { branch_no, ..*old(self) }),
    {
        self.branch_no = branch_no;
    }

    /// The branch number.
    pub fn get_branch_no(&self) -> (r: i32)
        ensures
            r == self.branch_no,
    {
        self.branch_no
    }

    /// Sets the system number.
    pub fn set_system_no(&mut self, system_no: i32)
        ensures
            *final(self) == (BizMessage { system_no, ..*old(self) }),
    {
        self.system_no = system_no;
    }

    /// The system number.
    pub fn get_system_no(&self) -> (r: i32)
        ensures
            r == self.system_no,
    {
        self.system_no
    }

    /// Sets the sub-system number.
    pub fn set_sub_system_no(&mut self, sub_system_no: i32)
        ensures
            *final(self) == (BizMessage { sub_system_no, ..*old(self) }),
    {
        self.sub_system_no = sub_system_no;
    }

    /// The sub-system number.
    pub fn get_sub_system_no(&self) -> (r: i32)
        ensures
            r == self.sub_system_no,
    {
        self.sub_system_no
    }

    /// Sets the sender's id.
    pub fn set_sender_id(&mut self, sender_id: i32)
        ensures
            *final(self) == (BizMessage { sender_id, ..*old(self) }),
    {
        self.sender_id = sender_id;
    }

    /// The sender's id.
    pub fn get_sender_id(&self) -> (r: i32)
        ensures
            r == self.sender_id,
    {
        self.sender_id
    }

    /// Sets the packet id.
    pub fn set_packet_id(&mut self, packet_id: i32)
        ensures
            *final(self) == (BizMessage { packet_id, ..*old(self) }),
    {
        self.packet_id = packet_id;
    }

    /// The packet id.
    pub fn get_packet_id(&self) -> (r: i32)
        ensures
            r == self.packet_id,
    {
        self.packet_id
    }

    /// Sets the error number.
    pub fn set_error_no(&mut self, error_no: i32)
        ensures
            *final(self) == (BizMessage { error_no, ..*old(self) }),
    {
        self.error_no = error_no;
    }

    /// The error number.
    pub fn get_error_no(&self) -> (r: i32)
        ensures
            r == self.error_no,
    {
        self.error_no
    }

    /// Sets the return code.
    pub fn set_return_code(&mut self, return_code: i32)
        ensures
            *final(self) == (BizMessage { return_code, ..*old(self) }),
    {
        self.return_code = return_code;
    }

    /// The return code.
    pub fn get_return_code(&self) -> (r: i32)
        ensures
            r == self.return_code,
    {
        self.return_code
    }

    /// Sets the issue type of a subscription.
    pub fn set_issue_type(&mut self, issue_type: i32)
        ensures
            *final(self) == (BizMessage { issue_type, ..*old(self) }),
    {
        self.issue_type = issue_type;
    }

    /// The issue type of a subscription.
    pub fn get_issue_type(&self) -> (r: i32)
        ensures
            r == self.issue_type,
    {
        self.issue_type
    }

    /// Sets the sequence number.
    pub fn set_sequence_no(&mut self, sequence_no: i32)
        ensures
            *final(self) == (BizMessage { sequence_no, ..*old(self) }),
    {
        self.sequence_no = sequence_no;
    }

    /// The sequence number.
    pub fn get_sequence_no(&self) -> (r: i32)
        ensures
            r == self.sequence_no,
    {
        self.sequence_no
    }

    /// Sets the company id.
    pub fn set_company_id(&mut self, company_id: i32)
        ensures
            *final(self) == (BizMessage { company_id, ..*old(self) }),
    {
        self.company_id = company_id;
    }

    /// The company id.
    pub fn get_company_id(&self) -> (r: i32)
        ensures
            r == self.company_id,
    {
        self.company_id
    }

    /// Sets the sender's company id.
    pub fn set_sender_company_id(&mut self, sender_company_id: i32)
        ensures
            *final(self) == (BizMessage { sender_company_id, ..*old(self) }),
    {
        self.sender_company_id = sender_company_id;
    }

    /// The sender's company id.
    pub fn get_sender_company_id(&self) -> (r: i32)
        ensures
            r == self.sender_company_id,
    {
        self.sender_company_id
    }

    /// Sets the internal licence number.
    pub fn set_internal_license(&mut self, internal_license: i32)
        ensures
            *final(self) == (BizMessage { internal_license, ..*old(self) }),
    {
        self.internal_license = internal_license;
    }

    /// The internal licence number.
    pub fn get_internal_license(&self) -> (r: i32)
        ensures
            r == self.internal_license,
    {
        self.internal_license
    }

    /// Sets the packed content.
    pub fn set_content(&mut self, content: Vec<u8>)
        ensures
            *final(self) == (BizMessage { content, ..*old(self) }),
    {
        self.content = content;
    }

    /// A copy of the packed content.
    pub fn get_content(&self) -> (r: Vec<u8>)
        ensures
            r@ == self.content@,
    {
        slice_to_vec(self.content.as_slice())
    }

    /// Sets the key information.
    pub fn set_key_info(&mut self, key_info: Vec<u8>)
        ensures
            *final(self) == (BizMessage { key_info, ..*old(self) }),
    {
        self.key_info = key_info;
    }

    /// A copy of the key information.
    pub fn get_key_info(&self) -> (r: Vec<u8>)
        ensures
            r@ == self.key_info@,
    {
        slice_to_vec(self.key_info.as_slice())
    }

    /// Sets the application data, which a delivery echoes verbatim.
    pub fn set_app_data(&mut self, app_data: Vec<u8>)
        ensures
            *final(self) == (BizMessage { app_data, ..*old(self) }),
    {
        self.app_data = app_data;
    }

    /// A copy of the application data, which a delivery echoes verbatim.
    pub fn get_app_data(&self) -> (r: Vec<u8>)
        ensures
            r@ == self.app_data@,
    {
        slice_to_vec(self.app_data.as_slice())
    }

    /// Sets the bytes reserved for the application.
    pub fn set_app_reserved(&mut self, app_reserved: Vec<u8>)
        ensures
            *final(self) == (BizMessage { app_reserved, ..*old(self) }),
    {
        self.app_reserved = app_reserved;
    }

    /// A copy of the bytes reserved for the application.
    pub fn get_app_reserved(&self) -> (r: Vec<u8>)
        ensures
            r@ == self.app_reserved@,
    {
        slice_to_vec(self.app_reserved.as_slice())
    }
}

} // verus!
