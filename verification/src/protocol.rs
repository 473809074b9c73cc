//! Requests and responses exchanged between client and server, and their
//! byte layout on the wire.
//!
//! A request is the big-endian cursor of the file that the client asks for.
//! A response is either one command byte (above 127) or a header of
//! `ResponseHeader::TOTAL_LEN` bytes: the file type, the SHA-1 hash of the
//! file, its resolution and the length of the payload that follows.

use vstd::prelude::*;

use crate::be::{be_bytes, be_value, u32_from_be, u32_to_be};
use crate::decimal::push_decimal;
use crate::file_name::{
    file_name_spec, file_type_name, lemma_file_name_ascii, lemma_names_ascii, resolution_text,
};
use crate::hex::bytes_to_hex;
use crate::text::{ascii_chars, ascii_string};

verus! {

/// What decoding or encoding a message can fail on.
#[derive(Debug, Clone, Copy, PartialEq, Eq, Structural)]
pub enum ProtocolError {
    /// The buffer cannot hold the message.
    BufferTooShort,
    /// A header starts with a byte that names no file type.
    InvalidFileType,
    /// A byte above 127 that names no command.
    InvalidExtCommand,
}

impl ProtocolError {
    /// The text that describes the error.
    pub fn message(&self) -> (s: &'static str)
        ensures
            s@ == protocol_error_text(*self)@,
    {
        match self {
            ProtocolError::BufferTooShort => "buffer too short",
            ProtocolError::InvalidFileType => "invalid file type",
            ProtocolError::InvalidExtCommand => "invalid ext command",
        }
    }
}

/// The text of each protocol error.
pub open spec fn protocol_error_text(e: ProtocolError) -> &'static str {
    match e {
        ProtocolError::BufferTooShort => "buffer too short",
        ProtocolError::InvalidFileType => "invalid file type",
        ProtocolError::InvalidExtCommand => "invalid ext command",
    }
}

/// A request for the file at position `cursor` of the server's table.
pub struct Request {
    cursor: u32,
}

impl View for Request {
    type V = u32;

    closed spec fn view(&self) -> u32 {
        self.cursor
    }
}

impl Request {
    pub fn new(cursor: u32) -> (r: Self)
        ensures
            r@ == cursor,
    {
        Self { cursor }
    }

    pub fn cursor(&self) -> (c: u32)
        ensures
            c == self@,
    {
        self.cursor
    }

    /// Writes the cursor, most significant byte first.
    pub fn encode(&self, buf: &mut [u8; 4])
        ensures
            final(buf)@ == be_bytes(self@),
    {
        *buf = u32_to_be(self.cursor);
    }

    /// Reads a cursor written by `encode`.
    pub fn decode(buf: [u8; 4]) -> (r: Self)
        ensures
            r@ == be_value(buf@),
    {
        Self { cursor: u32_from_be(buf) }
    }
}

/// The kind of image a file holds.
#[derive(Debug, Clone, Copy, PartialEq, Eq, Structural)]
pub enum FileType {
    Gif,
    Jpg,
    Webp,
    Png,
}

/// The byte of each file type on the wire.
pub open spec fn file_type_byte(t: FileType) -> u8 {
    match t {
        FileType::Gif => 0,
        FileType::Jpg => 1,
        FileType::Webp => 2,
        FileType::Png => 3,
    }
}

/// The file type that a byte names, if any.
pub open spec fn file_type_of_byte(b: u8) -> Option<FileType> {
    if b == 0 {
        Some(FileType::Gif)
    } else if b == 1 {
        Some(FileType::Jpg)
    } else if b == 2 {
        Some(FileType::Webp)
    } else if b == 3 {
        Some(FileType::Png)
    } else {
        None
    }
}

impl FileType {
    pub fn as_byte(self) -> (b: u8)
        ensures
            b == file_type_byte(self),
    {
        match self {
            FileType::Gif => 0,
            FileType::Jpg => 1,
            FileType::Webp => 2,
            FileType::Png => 3,
        }
    }
}

impl FileType {
    /// Appends the name of the file type (`gif`, `jpg`, `wbp` or `png`).
    pub fn push_name(self, out: &mut Vec<u8>)
        ensures
            final(out)@ == old(out)@ + file_type_name(self),
    {
        let ghost before = out@;
        match self {
            FileType::Gif => {
                out.push(0x67);
                out.push(0x69);
                out.push(0x66);
            },
            FileType::Jpg => {
                out.push(0x6A);
                out.push(0x70);
                out.push(0x67);
            },
            FileType::Webp => {
                out.push(0x77);
                out.push(0x62);
                out.push(0x70);
            },
            FileType::Png => {
                out.push(0x70);
                out.push(0x6E);
                out.push(0x67);
            },
        }
        assert(out@ =~= before + file_type_name(self));
    }

    /// The name of the file type, as file names carry it.
    pub fn to_string(self) -> (s: String)
        ensures
            s@ == ascii_chars(file_type_name(self)),
    {
        let mut out: Vec<u8> = Vec::new();
        self.push_name(&mut out);
        proof {
            lemma_names_ascii(self);
            assert(out@ =~= file_type_name(self));
        }
        ascii_string(out)
    }
}

impl TryFrom<u8> for FileType {
    type Error = ProtocolError;

    fn try_from(v: u8) -> (r: Result<Self, ProtocolError>) {
        if v == 0 {
            Ok(FileType::Gif)
        } else if v == 1 {
            Ok(FileType::Jpg)
        } else if v == 2 {
            Ok(FileType::Webp)
        } else if v == 3 {
            Ok(FileType::Png)
        } else {
            Err(ProtocolError::InvalidFileType)
        }
    }
}

impl vstd::std_specs::convert::TryFromSpecImpl<u8> for FileType {
    open spec fn obeys_try_from_spec() -> bool {
        true
    }

    open spec fn try_from_spec(v: u8) -> Result<Self, ProtocolError> {
        match file_type_of_byte(v) {
            Some(t) => Ok(t),
            None => Err(ProtocolError::InvalidFileType),
        }
    }
}

/// A one-byte command of the server that carries no file.
#[derive(Debug, Clone, Copy, PartialEq, Eq, Structural)]
pub enum ExtCommand {
    /// The file at the cursor is misnamed or does not match its name.
    FileNameInvalid,
    /// The cursor is past the last file.
    EndOfTransaction,
}

/// The byte of each command on the wire.
pub open spec fn ext_command_byte(c: ExtCommand) -> u8 {
    match c {
        ExtCommand::FileNameInvalid => 254,
        ExtCommand::EndOfTransaction => 255,
    }
}

/// The command that a byte names, if any.
pub open spec fn ext_command_of_byte(b: u8) -> Option<ExtCommand> {
    if b == 254 {
        Some(ExtCommand::FileNameInvalid)
    } else if b == 255 {
        Some(ExtCommand::EndOfTransaction)
    } else {
        None
    }
}

impl ExtCommand {
    pub fn as_byte(self) -> (b: u8)
        ensures
            b == ext_command_byte(self),
    {
        match self {
            ExtCommand::FileNameInvalid => 254,
            ExtCommand::EndOfTransaction => 255,
        }
    }
}

impl TryFrom<u8> for ExtCommand {
    type Error = ProtocolError;

    fn try_from(v: u8) -> (r: Result<Self, ProtocolError>) {
        if v == 254 {
            Ok(ExtCommand::FileNameInvalid)
        } else if v == 255 {
            Ok(ExtCommand::EndOfTransaction)
        } else {
            Err(ProtocolError::InvalidExtCommand)
        }
    }
}

impl vstd::std_specs::convert::TryFromSpecImpl<u8> for ExtCommand {
    open spec fn obeys_try_from_spec() -> bool {
        true
    }

    open spec fn try_from_spec(v: u8) -> Result<Self, ProtocolError> {
        match ext_command_of_byte(v) {
            Some(c) => Ok(c),
            None => Err(ProtocolError::InvalidExtCommand),
        }
    }
}

/// Width and height of an image.
pub struct Resolution {
    x: u32,
    y: u32,
}

impl View for Resolution {
    type V = (u32, u32);

    closed spec fn view(&self) -> (u32, u32) {
        (self.x, self.y)
    }
}

/// The eight bytes of a resolution: width then height, each big-endian.
pub open spec fn resolution_bytes(r: (u32, u32)) -> Seq<u8> {
    be_bytes(r.0) + be_bytes(r.1)
}

/// The resolution that eight bytes stand for.
pub open spec fn resolution_of_bytes(b: Seq<u8>) -> (u32, u32) {
    (be_value(b.subrange(0, 4)), be_value(b.subrange(4, 8)))
}

impl Resolution {
    pub fn new(x: u32, y: u32) -> (r: Self)
        ensures
            r@ == (x, y),
    {
        Self { x, y }
    }

    pub fn encode(&self) -> (out: [u8; 8])
        ensures
            out@ == resolution_bytes(self@),
    {
        let a = u32_to_be(self.x);
        let b = u32_to_be(self.y);
        let out = [a[0], a[1], a[2], a[3], b[0], b[1], b[2], b[3]];
        assert(out@ =~= resolution_bytes(self@));
        out
    }

    /// Appends the width, `-` and the height, in decimal.
    pub fn push_text(&self, out: &mut Vec<u8>)
        ensures
            final(out)@ == old(out)@ + resolution_text(self@),
    {
        let ghost before = out@;
        push_decimal(out, self.x);
        out.push(0x2D);
        push_decimal(out, self.y);
        assert(out@ =~= before + resolution_text(self@));
    }

    /// The width and the height, in decimal, joined by `-`.
    pub fn to_string(&self) -> (s: String)
        ensures
            s@ == ascii_chars(resolution_text(self@)),
    {
        let mut out: Vec<u8> = Vec::new();
        self.push_text(&mut out);
        proof {
            crate::file_name::lemma_resolution_text_ascii(self@);
            assert(out@ =~= resolution_text(self@));
        }
        ascii_string(out)
    }

    pub fn decode(buf: [u8; 8]) -> (r: Self)
        ensures
            r@ == resolution_of_bytes(buf@),
    {
        let x = u32_from_be([buf[0], buf[1], buf[2], buf[3]]);
        let y = u32_from_be([buf[4], buf[5], buf[6], buf[7]]);
        assert(seq![buf[0], buf[1], buf[2], buf[3]] =~= buf@.subrange(0, 4));
        assert(seq![buf[4], buf[5], buf[6], buf[7]] =~= buf@.subrange(4, 8));
        Self { x, y }
    }
}

/// What a response header says, as mathematical values.
pub struct HeaderModel {
    pub file_type: FileType,
    pub file_hash: Seq<u8>,
    pub resolution: (u32, u32),
    pub payload_len: u32,
}

/// The header of a file that the server sends, followed by its payload.
pub struct ResponseHeader {
    file_type: FileType,
    file_hash: [u8; 20],
    resolution: Resolution,
    payload_len: u32,
}

impl View for ResponseHeader {
    type V = HeaderModel;

    closed spec fn view(&self) -> HeaderModel {
        HeaderModel {
            file_type: self.file_type,
            file_hash: self.file_hash@,
            resolution: self.resolution@,
            payload_len: self.payload_len,
        }
    }
}

/// The bytes of a header on the wire: type, hash, resolution, payload length.
pub open spec fn header_bytes(h: HeaderModel) -> Seq<u8> {
    seq![file_type_byte(h.file_type)] + h.file_hash + resolution_bytes(h.resolution) + be_bytes(
        h.payload_len,
    )
}

impl ResponseHeader {
    pub const FILE_TYPE_LEN: usize = 1;
    pub const FILE_HASH_LEN: usize = 20;
    pub const RESOLUTION_LEN: usize = 8;
    pub const PAYLOAD_LEN_LEN: usize = 4;
    pub const TOTAL_LEN: usize = Self::FILE_TYPE_LEN + Self::FILE_HASH_LEN + Self::RESOLUTION_LEN
        + Self::PAYLOAD_LEN_LEN;

    pub fn new(file_type: FileType, file_hash: [u8; 20], resolution: Resolution, payload_len: u32) -> (r: Self)
        ensures
            r@ == (HeaderModel { file_type, file_hash: file_hash@, resolution: resolution@, payload_len }),
    {
        Self { file_type, file_hash, resolution, payload_len }
    }

    pub fn file_type(&self) -> (t: FileType)
        ensures
            t == self@.file_type,
    {
        self.file_type
    }

    pub fn file_hash(&self) -> (h: [u8; 20])
        ensures
            h@ == self@.file_hash,
    {
        self.file_hash
    }

    pub fn payload_len(&self) -> (n: u32)
        ensures
            n == self@.payload_len,
    {
        self.payload_len
    }

    /// Whether `hash` is the hash that the header names.
    pub fn matches_hash(&self, hash: &[u8; 20]) -> (b: bool)
        ensures
            b == (self@.file_hash == hash@),
    {
        let mut i: usize = 0;
        while i < 20
            invariant
                0 <= i <= 20,
                self.file_hash@.len() == 20,
                hash@.len() == 20,
                forall|j: int| 0 <= j < i ==> self.file_hash@[j] == hash@[j],
            decreases 20 - i,
        {
            if self.file_hash[i] != hash[i] {
                return false;
            }
            i += 1;
        }
        assert(self.file_hash@ =~= hash@);
        true
    }

    /// The name of the file that the header describes:
    /// `<hash hex>-<payload len>-<width>-<height>-<type>`.
    pub fn file_name_bytes(&self) -> (out: Vec<u8>)
        ensures
            out@ == file_name_spec(self@),
    {
        let hex = bytes_to_hex(&self.file_hash);
        let mut out: Vec<u8> = Vec::new();
        out.extend_from_slice(&hex);
        assert(out@ =~= hex@);
        out.push(0x2D);
        push_decimal(&mut out, self.payload_len);
        out.push(0x2D);
        self.resolution.push_text(&mut out);
        out.push(0x2D);
        self.file_type.push_name(&mut out);
        assert(out@ =~= file_name_spec(self@));
        out
    }

    /// The file name of the header as a string.
    pub fn to_string(&self) -> (s: String)
        ensures
            s@ == ascii_chars(file_name_spec(self@)),
    {
        let out = self.file_name_bytes();
        proof {
            lemma_file_name_ascii(self@);
        }
        ascii_string(out)
    }

    /// The two directories, one inside the other, that a client stores the
    /// file in: the first two and the next two characters of its name.
    pub fn storage_dirs(&self) -> (d: (String, String))
        ensures
            d.0@ == ascii_chars(file_name_spec(self@).subrange(0, 2)),
            d.1@ == ascii_chars(file_name_spec(self@).subrange(2, 4)),
    {
        let name = self.file_name_bytes();
        proof {
            lemma_file_name_ascii(self@);
            crate::hex::lemma_hex_roundtrip(self@.file_hash);
        }
        assert(name@.len() >= 4);
        let mut first: Vec<u8> = Vec::new();
        first.push(name[0]);
        first.push(name[1]);
        let mut second: Vec<u8> = Vec::new();
        second.push(name[2]);
        second.push(name[3]);
        assert(first@ =~= name@.subrange(0, 2));
        assert(second@ =~= name@.subrange(2, 4));
        (ascii_string(first), ascii_string(second))
    }
}

/// A response as mathematical values.
pub enum ResponseModel {
    Header(HeaderModel),
    ExtCommand(ExtCommand),
}

/// The answer of the server to one request.
pub enum Response {
    Header(ResponseHeader),
    ExtCommand(ExtCommand),
}

impl View for Response {
    type V = ResponseModel;

    open spec fn view(&self) -> ResponseModel {
        match self {
            Response::Header(h) => ResponseModel::Header(h@),
            Response::ExtCommand(c) => ResponseModel::ExtCommand(*c),
        }
    }
}

/// The bytes of a response on the wire.
pub open spec fn response_bytes(r: ResponseModel) -> Seq<u8> {
    match r {
        ResponseModel::Header(h) => header_bytes(h),
        ResponseModel::ExtCommand(c) => seq![ext_command_byte(c)],
    }
}

/// What decoding the start of `s` gives: `Ok(None)` when more bytes are
/// needed, else the response and how many bytes it took.
pub open spec fn decode_spec(s: Seq<u8>) -> Result<Option<(ResponseModel, nat)>, ProtocolError> {
    if s.len() == 0 {
        Ok(None)
    } else if s[0] > 127 {
        match ext_command_of_byte(s[0]) {
            Some(c) => Ok(Some((ResponseModel::ExtCommand(c), 1))),
            None => Err(ProtocolError::InvalidExtCommand),
        }
    } else if s.len() < 33 {
        Ok(None)
    } else {
        match file_type_of_byte(s[0]) {
            None => Err(ProtocolError::InvalidFileType),
            Some(t) => Ok(
                Some(
                    (
                        ResponseModel::Header(
                            HeaderModel {
                                file_type: t,
                                file_hash: s.subrange(1, 21),
                                resolution: resolution_of_bytes(s.subrange(21, 29)),
                                payload_len: be_value(s.subrange(29, 33)),
                            },
                        ),
                        33,
                    ),
                ),
            ),
        }
    }
}

/// The model of what `Response::decode` returns.
pub open spec fn decoded_model(r: Result<Option<(Response, usize)>, ProtocolError>) -> Result<
    Option<(ResponseModel, nat)>,
    ProtocolError,
> {
    match r {
        Ok(Some((resp, n))) => Ok(Some((resp@, n as nat))),
        Ok(None) => Ok(None),
        Err(e) => Err(e),
    }
}

/// Writes `src` into `buf` at `pos`.
fn put_bytes(buf: &mut [u8], pos: usize, src: &[u8])
    requires
        pos + src@.len() <= old(buf)@.len(),
    ensures
        final(buf)@ == old(buf)@.subrange(0, pos as int) + src@ + old(buf)@.subrange(
            pos + src@.len(),
            old(buf)@.len() as int,
        ),
{
    let mut i: usize = 0;
    while i < src.len()
        invariant
            0 <= i <= src@.len(),
            pos + src@.len() <= buf.len(),
            buf@.len() == old(buf)@.len(),
            forall|j: int|
                0 <= j < buf@.len() ==> #[trigger] buf@[j] == if pos <= j < pos + i {
                    src@[j - pos]
                } else {
                    old(buf)@[j]
                },
        decreases src@.len() - i,
    {
        buf[pos + i] = src[i];
        i += 1;
    }
    assert(buf@ =~= old(buf)@.subrange(0, pos as int) + src@ + old(buf)@.subrange(
        pos + src@.len(),
        old(buf)@.len() as int,
    ));
}

/// Copies `dst@.len()` bytes of `src`, starting at `from`, into `dst`.
fn get_bytes(dst: &mut [u8], src: &[u8], from: usize)
    requires
        from + old(dst)@.len() <= src@.len(),
    ensures
        final(dst)@ == src@.subrange(from as int, from + old(dst)@.len()),
{
    let mut i: usize = 0;
    while i < dst.len()
        invariant
            0 <= i <= dst@.len(),
            dst@.len() == old(dst)@.len(),
            from + dst@.len() <= src.len(),
            forall|j: int| 0 <= j < i ==> #[trigger] dst@[j] == src@[from + j],
        decreases dst@.len() - i,
    {
        dst[i] = src[from + i];
        i += 1;
    }
    assert(dst@ =~= src@.subrange(from as int, from + old(dst)@.len()));
}

impl Response {
    /// Writes the response at the start of `buf` and returns how many bytes
    /// it took; the rest of `buf` is left as it was. A header needs
    /// `ResponseHeader::TOTAL_LEN` bytes, a command one.
    pub fn encode(&self, buf: &mut [u8]) -> (r: Result<usize, ProtocolError>)
        requires
            self is ExtCommand ==> old(buf)@.len() >= 1,
        ensures
            ({
                let bytes = response_bytes(self@);
                if self is Header && old(buf)@.len() < 33 {
                    &&& r == Err::<usize, ProtocolError>(ProtocolError::BufferTooShort)
                    &&& final(buf)@ == old(buf)@
                } else {
                    &&& r == Ok::<usize, ProtocolError>(bytes.len() as usize)
                    &&& final(buf)@ == bytes + old(buf)@.subrange(
                        bytes.len() as int,
                        old(buf)@.len() as int,
                    )
                }
            }),
    {
        match self {
            Response::Header(h) => {
                if buf.len() < ResponseHeader::TOTAL_LEN {
                    return Err(ProtocolError::BufferTooShort);
                }
                let ghost old_buf = buf@;
                buf[0] = h.file_type.as_byte();
                put_bytes(buf, 1, &h.file_hash);
                let res = h.resolution.encode();
                put_bytes(buf, 21, &res);
                let len = u32_to_be(h.payload_len);
                put_bytes(buf, 29, &len);
                assert(buf@ =~= header_bytes(h@) + old_buf.subrange(33, old_buf.len() as int));
                Ok(ResponseHeader::TOTAL_LEN)
            },
            Response::ExtCommand(c) => {
                let ghost old_buf = buf@;
                buf[0] = c.as_byte();
                assert(buf@ =~= seq![ext_command_byte(*c)] + old_buf.subrange(1, old_buf.len() as int));
                Ok(1)
            },
        }
    }

    /// Reads a response from the start of `buf`: `Ok(None)` when `buf`
    /// holds too few bytes yet, else the response and the bytes it took.
    pub fn decode(buf: &[u8]) -> (r: Result<Option<(Self, usize)>, ProtocolError>)
        ensures
            decoded_model(r) == decode_spec(buf@),
    {
        if buf.len() == 0 {
            return Ok(None);
        }
        let first_byte = buf[0];
        if first_byte > 127 {
            return match ExtCommand::try_from(first_byte) {
                Ok(c) => Ok(Some((Response::ExtCommand(c), 1))),
                Err(e) => Err(e),
            };
        }
        if buf.len() < ResponseHeader::TOTAL_LEN {
            return Ok(None);
        }
        let file_type = match FileType::try_from(first_byte) {
            Ok(t) => t,
            Err(e) => {
                return Err(e);
            },
        };
        let mut file_hash = [0u8; 20];
        get_bytes(&mut file_hash, buf, 1);
        let mut resolution_buf = [0u8; 8];
        get_bytes(&mut resolution_buf, buf, 21);
        let resolution = Resolution::decode(resolution_buf);
        let mut payload_len_buf = [0u8; 4];
        get_bytes(&mut payload_len_buf, buf, 29);
        let payload_len = u32_from_be(payload_len_buf);
        let header = ResponseHeader { file_type, file_hash, resolution, payload_len };
        Ok(Some((Response::Header(header), ResponseHeader::TOTAL_LEN)))
    }
}

/// Decoding the bytes of a response gives the response back, and says how
/// many bytes it took.
pub proof fn lemma_response_roundtrip(r: ResponseModel, rest: Seq<u8>)
    requires
        r matches ResponseModel::Header(h) ==> h.file_hash.len() == 20,
    ensures
        decode_spec(response_bytes(r) + rest) == Ok::<_, ProtocolError>(
            Some((r, response_bytes(r).len()))),
{
    let s = response_bytes(r) + rest;
    match r {
        ResponseModel::Header(h) => {
            let hb = header_bytes(h);
            assert(hb.len() == 33);
            assert(s.subrange(1, 21) =~= h.file_hash);
            assert(s.subrange(21, 29) =~= resolution_bytes(h.resolution));
            assert(resolution_bytes(h.resolution).subrange(0, 4) =~= be_bytes(h.resolution.0));
            assert(resolution_bytes(h.resolution).subrange(4, 8) =~= be_bytes(h.resolution.1));
            crate::be::lemma_be_value_of_bytes(h.resolution.0);
            crate::be::lemma_be_value_of_bytes(h.resolution.1);
            assert(s.subrange(29, 33) =~= be_bytes(h.payload_len));
            crate::be::lemma_be_value_of_bytes(h.payload_len);
            assert(s[0] == file_type_byte(h.file_type));
        },
        ResponseModel::ExtCommand(c) => {
            assert(s[0] == ext_command_byte(c));
        },
    }
}

/// The bytes that decode as a response are the bytes of that response.
pub proof fn lemma_decode_bytes(s: Seq<u8>)
    ensures
        decode_spec(s) matches Ok(Some((r, n))) ==> n <= s.len() && s.subrange(0, n as int)
            == response_bytes(r),
{
    if let Ok(Some((r, n))) = decode_spec(s) {
        if s[0] > 127 {
            assert(s.subrange(0, 1) =~= response_bytes(r));
        } else {
            let h = r->Header_0;
            crate::be::lemma_be_bytes_of_value(s.subrange(21, 25));
            crate::be::lemma_be_bytes_of_value(s.subrange(25, 29));
            crate::be::lemma_be_bytes_of_value(s.subrange(29, 33));
            assert(s.subrange(21, 29).subrange(0, 4) =~= s.subrange(21, 25));
            assert(s.subrange(21, 29).subrange(4, 8) =~= s.subrange(25, 29));
            assert(s.subrange(0, 33) =~= response_bytes(r));
        }
    }
}

/// A request decodes to the cursor it was encoded from.
pub proof fn lemma_request_roundtrip(cursor: u32)
    ensures
        be_value(be_bytes(cursor)) == cursor,
{
    crate::be::lemma_be_value_of_bytes(cursor);
}

/// A resolution decodes to the width and height it was encoded from.
pub proof fn lemma_resolution_roundtrip(r: (u32, u32))
    ensures
        resolution_of_bytes(resolution_bytes(r)) == r,
{
    assert(resolution_bytes(r).subrange(0, 4) =~= be_bytes(r.0));
    assert(resolution_bytes(r).subrange(4, 8) =~= be_bytes(r.1));
    crate::be::lemma_be_value_of_bytes(r.0);
    crate::be::lemma_be_value_of_bytes(r.1);
}

/// The byte of a file type or a command names it back, and the two ranges
/// of bytes do not meet: file types are below 128, commands above 127.
pub proof fn lemma_byte_roundtrip(t: FileType, c: ExtCommand)
    ensures
        file_type_of_byte(file_type_byte(t)) == Some(t),
        ext_command_of_byte(ext_command_byte(c)) == Some(c),
        file_type_byte(t) <= 127 < ext_command_byte(c),
{
}

/// The bytes that name each file type and each command on the wire.
pub proof fn lemma_wire_values()
    ensures
        file_type_byte(FileType::Gif) == 0,
        file_type_byte(FileType::Jpg) == 1,
        file_type_byte(FileType::Webp) == 2,
        file_type_byte(FileType::Png) == 3,
        ext_command_byte(ExtCommand::FileNameInvalid) == 254,
        ext_command_byte(ExtCommand::EndOfTransaction) == 255,
        forall|b: u8| #[trigger] file_type_of_byte(b) matches Some(t) ==> file_type_byte(t) == b,
        forall|b: u8| #[trigger] ext_command_of_byte(b) matches Some(c) ==> ext_command_byte(c) == b,
{
}

/// The layout of an encoded header: the byte of its file type, the twenty
/// bytes of the hash, width and height, then the payload length, each of
/// the last three big-endian.
pub proof fn lemma_header_layout(h: HeaderModel)
    requires
        h.file_hash.len() == 20,
    ensures
        ({
            let b = response_bytes(ResponseModel::Header(h));
            &&& b.len() == 33
            &&& b[0] == file_type_byte(h.file_type)
            &&& b.subrange(1, 21) == h.file_hash
            &&& b.subrange(21, 25) == be_bytes(h.resolution.0)
            &&& b.subrange(25, 29) == be_bytes(h.resolution.1)
            &&& b.subrange(29, 33) == be_bytes(h.payload_len)
        }),
{
    let b = response_bytes(ResponseModel::Header(h));
    assert(b.subrange(1, 21) =~= h.file_hash);
    assert(b.subrange(21, 25) =~= be_bytes(h.resolution.0));
    assert(b.subrange(25, 29) =~= be_bytes(h.resolution.1));
    assert(b.subrange(29, 33) =~= be_bytes(h.payload_len));
}

/// An encoded command is its one byte.
pub proof fn lemma_command_layout(c: ExtCommand)
    ensures
        response_bytes(ResponseModel::ExtCommand(c)) == seq![ext_command_byte(c)],
{
}

/// A decoded header takes each value from its own bytes: the file type
/// from the first, the hash from the next twenty, then width, height and
/// payload length from four big-endian bytes each; a decoded command is the
/// one byte above 127 that names it.
pub proof fn lemma_decoded_fields(s: Seq<u8>)
    ensures
        decode_spec(s) matches Ok(Some((ResponseModel::Header(h), n))) ==> {
            &&& n == 33
            &&& s.len() >= 33
            &&& file_type_byte(h.file_type) == s[0]
            &&& h.file_hash == s.subrange(1, 21)
            &&& be_bytes(h.resolution.0) == s.subrange(21, 25)
            &&& be_bytes(h.resolution.1) == s.subrange(25, 29)
            &&& be_bytes(h.payload_len) == s.subrange(29, 33)
        },
        decode_spec(s) matches Ok(Some((ResponseModel::ExtCommand(c), n))) ==> {
            &&& n == 1
            &&& s[0] > 127
            &&& ext_command_byte(c) == s[0]
        },
{
    if let Ok(Some((ResponseModel::Header(h), n))) = decode_spec(s) {
        crate::be::lemma_be_bytes_of_value(s.subrange(21, 25));
        crate::be::lemma_be_bytes_of_value(s.subrange(25, 29));
        crate::be::lemma_be_bytes_of_value(s.subrange(29, 33));
        assert(s.subrange(21, 29).subrange(0, 4) =~= s.subrange(21, 25));
        assert(s.subrange(21, 29).subrange(4, 8) =~= s.subrange(25, 29));
    }
}

} // verus!
