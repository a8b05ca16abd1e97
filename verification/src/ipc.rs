//! The binary message codec and the in-process transport used between the
//! browser side and the content side.
//!
//! Messages are framed as a little-endian schema version, a one-byte tag,
//! and the tag's fields; strings are a little-endian byte length followed
//! by UTF-8 bytes.  `spec_encode_*` and `spec_decode_*` define the wire
//! format exactly; the executable encoders and decoders are proved to
//! produce precisely those bytes and results, including when each decode
//! error is returned.

use vstd::bytes::{spec_u32_to_le_bytes, spec_u64_to_le_bytes, u32_from_le_bytes, u32_to_le_bytes, u64_from_le_bytes, u64_to_le_bytes};
use vstd::prelude::*;
use vstd::utf8::{decode_utf8, encode_utf8, valid_utf8};

use std::collections::VecDeque;

verus! {

/// The wire schema version written at the head of every message.
pub const IPC_SCHEMA_VERSION: u32 = 1;

/// The viewport carried in a load request.
#[derive(Debug, Clone, Copy, PartialEq, Eq)]
pub struct Viewport {
    pub width: u32,
    pub height: u32,
}

/// A message from the browser side to the content side.
#[derive(Debug, Clone, PartialEq, Eq)]
pub enum BrowserToContent {
    LoadDocument { request_id: u64, url: String, html: String, viewport: Viewport },
    Tick { frame_index: u64 },
    Shutdown,
}

/// Mathematical image of a `BrowserToContent`.
pub enum BrowserToContentV {
    LoadDocument { request_id: u64, url: Seq<char>, html: Seq<char>, viewport: Viewport },
    Tick { frame_index: u64 },
    Shutdown,
}

impl View for BrowserToContent {
    type V = BrowserToContentV;

    open spec fn view(&self) -> BrowserToContentV {
        match self {
            BrowserToContent::LoadDocument { request_id, url, html, viewport } =>
                BrowserToContentV::LoadDocument {
                request_id: *request_id,
                url: url@,
                html: html@,
                viewport: *viewport,
            },
            BrowserToContent::Tick { frame_index } => BrowserToContentV::Tick {
                frame_index: *frame_index,
            },
            BrowserToContent::Shutdown => BrowserToContentV::Shutdown,
        }
    }
}

/// A message from the content side back to the browser side.
#[derive(Debug, Clone, PartialEq, Eq)]
pub enum ContentToBrowser {
    DocumentReady { request_id: u64, command_count: u32 },
    Log { level: u8, message: String },
    AckShutdown,
}

/// Mathematical image of a `ContentToBrowser`.
pub enum ContentToBrowserV {
    DocumentReady { request_id: u64, command_count: u32 },
    Log { level: u8, message: Seq<char> },
    AckShutdown,
}

impl View for ContentToBrowser {
    type V = ContentToBrowserV;

    open spec fn view(&self) -> ContentToBrowserV {
        match self {
            ContentToBrowser::DocumentReady { request_id, command_count } =>
                ContentToBrowserV::DocumentReady {
                request_id: *request_id,
                command_count: *command_count,
            },
            ContentToBrowser::Log { level, message } => ContentToBrowserV::Log {
                level: *level,
                message: message@,
            },
            ContentToBrowser::AckShutdown => ContentToBrowserV::AckShutdown,
        }
    }
}

/// Why a message failed to decode.
#[derive(Debug, Clone, PartialEq, Eq)]
pub enum CodecError {
    UnexpectedEof,
    InvalidTag(u8),
    InvalidUtf8,
}

/// The wire form of a string: little-endian byte length, then UTF-8 bytes.
/// The length is written modulo 2^32, as the encoder's cast does.
pub open spec fn spec_str_bytes(s: Seq<char>) -> Seq<u8> {
    spec_u32_to_le_bytes(((encode_utf8(s).len() as usize) as u32)) + encode_utf8(s)
}

/// The wire form of a browser-to-content message.
pub open spec fn spec_encode_b2c(m: BrowserToContentV) -> Seq<u8> {
    spec_u32_to_le_bytes(IPC_SCHEMA_VERSION) + match m {
        BrowserToContentV::LoadDocument { request_id, url, html, viewport } => seq![1u8]
            + spec_u64_to_le_bytes(request_id) + spec_str_bytes(url) + spec_str_bytes(html)
            + spec_u32_to_le_bytes(viewport.width) + spec_u32_to_le_bytes(viewport.height),
        BrowserToContentV::Tick { frame_index } => seq![2u8] + spec_u64_to_le_bytes(frame_index),
        BrowserToContentV::Shutdown => seq![3u8],
    }
}

/// The wire form of a content-to-browser message.
pub open spec fn spec_encode_c2b(m: ContentToBrowserV) -> Seq<u8> {
    spec_u32_to_le_bytes(IPC_SCHEMA_VERSION) + match m {
        ContentToBrowserV::DocumentReady { request_id, command_count } => seq![1u8]
            + spec_u64_to_le_bytes(request_id) + spec_u32_to_le_bytes(command_count),
        ContentToBrowserV::Log { level, message } => seq![2u8, level] + spec_str_bytes(message),
        ContentToBrowserV::AckShutdown => seq![3u8],
    }
}

/// Whether `n` bytes can be read at offset `off`.
pub open spec fn rd_fits(b: Seq<u8>, off: int, n: int) -> bool {
    0 <= off && off + n <= b.len()
}

/// Reading a length-prefixed string at `off`: the decoded characters and
/// the offset after them, or the decode error.
pub open spec fn spec_rd_string(b: Seq<u8>, off: int) -> Result<(Seq<char>, int), CodecError> {
    if !rd_fits(b, off, 4) {
        Err(CodecError::UnexpectedEof)
    } else {
        let n = spec_u32_from_le_bytes_at(b, off) as int;
        if !rd_fits(b, off + 4, n) {
            Err(CodecError::UnexpectedEof)
        } else {
            let bs = b.subrange(off + 4, off + 4 + n);
            if valid_utf8(bs) {
                Ok((decode_utf8(bs), off + 4 + n))
            } else {
                Err(CodecError::InvalidUtf8)
            }
        }
    }
}

/// The little-endian `u32` at offset `off`.
pub open spec fn spec_u32_from_le_bytes_at(b: Seq<u8>, off: int) -> u32 {
    vstd::bytes::spec_u32_from_le_bytes(b.subrange(off, off + 4))
}

/// The little-endian `u64` at offset `off`.
pub open spec fn spec_u64_from_le_bytes_at(b: Seq<u8>, off: int) -> u64 {
    vstd::bytes::spec_u64_from_le_bytes(b.subrange(off, off + 8))
}

/// The result of decoding a browser-to-content message, including exactly
/// when each error is returned.  Trailing bytes are ignored.
pub open spec fn spec_decode_b2c(b: Seq<u8>) -> Result<BrowserToContentV, CodecError> {
    if !rd_fits(b, 0, 4) {
        Err(CodecError::UnexpectedEof)
    } else if !rd_fits(b, 4, 1) {
        Err(CodecError::UnexpectedEof)
    } else {
        let tag = b[4];
        if tag == 1 {
            if !rd_fits(b, 5, 8) {
                Err(CodecError::UnexpectedEof)
            } else {
                let request_id = spec_u64_from_le_bytes_at(b, 5);
                match spec_rd_string(b, 13) {
                    Err(e) => Err(e),
                    Ok((url, o1)) => match spec_rd_string(b, o1) {
                        Err(e) => Err(e),
                        Ok((html, o2)) => if !rd_fits(b, o2, 4) {
                            Err(CodecError::UnexpectedEof)
                        } else if !rd_fits(b, o2 + 4, 4) {
                            Err(CodecError::UnexpectedEof)
                        } else {
                            Ok(
                                BrowserToContentV::LoadDocument {
                                    request_id,
                                    url,
                                    html,
                                    viewport: Viewport {
                                        width: spec_u32_from_le_bytes_at(b, o2),
                                        height: spec_u32_from_le_bytes_at(b, o2 + 4),
                                    },
                                },
                            )
                        },
                    },
                }
            }
        } else if tag == 2 {
            if !rd_fits(b, 5, 8) {
                Err(CodecError::UnexpectedEof)
            } else {
                Ok(BrowserToContentV::Tick { frame_index: spec_u64_from_le_bytes_at(b, 5) })
            }
        } else if tag == 3 {
            Ok(BrowserToContentV::Shutdown)
        } else {
            Err(CodecError::InvalidTag(tag))
        }
    }
}

/// The result of decoding a content-to-browser message, including exactly
/// when each error is returned.  Trailing bytes are ignored.
pub open spec fn spec_decode_c2b(b: Seq<u8>) -> Result<ContentToBrowserV, CodecError> {
    if !rd_fits(b, 0, 4) {
        Err(CodecError::UnexpectedEof)
    } else if !rd_fits(b, 4, 1) {
        Err(CodecError::UnexpectedEof)
    } else {
        let tag = b[4];
        if tag == 1 {
            if !rd_fits(b, 5, 8) {
                Err(CodecError::UnexpectedEof)
            } else if !rd_fits(b, 13, 4) {
                Err(CodecError::UnexpectedEof)
            } else {
                Ok(
                    ContentToBrowserV::DocumentReady {
                        request_id: spec_u64_from_le_bytes_at(b, 5),
                        command_count: spec_u32_from_le_bytes_at(b, 13),
                    },
                )
            }
        } else if tag == 2 {
            if !rd_fits(b, 5, 1) {
                Err(CodecError::UnexpectedEof)
            } else {
                match spec_rd_string(b, 6) {
                    Err(e) => Err(e),
                    Ok((message, _o)) => Ok(ContentToBrowserV::Log { level: b[5], message }),
                }
            }
        } else if tag == 3 {
            Ok(ContentToBrowserV::AckShutdown)
        } else {
            Err(CodecError::InvalidTag(tag))
        }
    }
}

/// A length-prefixed string embedded at `off` reads back as itself.
proof fn lemma_rd_string_at(b: Seq<u8>, off: int, s: Seq<char>)
    requires
        encode_utf8(s).len() < 0x1_0000_0000,
        0 <= off,
        off + spec_str_bytes(s).len() <= b.len(),
        b.subrange(off, off + spec_str_bytes(s).len()) == spec_str_bytes(s),
    ensures
        spec_rd_string(b, off) == Ok::<(Seq<char>, int), CodecError>(
            (s, off + spec_str_bytes(s).len()),
        ),
{
    broadcast use vstd::utf8::encode_utf8_valid_utf8, vstd::utf8::encode_utf8_decode_utf8;

    vstd::bytes::lemma_auto_spec_u32_to_from_le_bytes();
    let n = encode_utf8(s).len() as int;
    let len_word = spec_u32_to_le_bytes(((encode_utf8(s).len() as usize) as u32));
    assert(len_word.len() == 4);
    assert(spec_str_bytes(s).len() == 4 + n);
    assert(b.subrange(off, off + 4) =~= len_word);
    assert(spec_u32_from_le_bytes_at(b, off) as int == n);
    assert(rd_fits(b, off + 4, n));
    assert forall|i: int| 0 <= i < n implies b[off + 4 + i] == encode_utf8(s)[i] by {
        assert(b.subrange(off, off + 4 + n)[4 + i] == b[off + 4 + i]);
    }
    assert(b.subrange(off + 4, off + 4 + n) =~= encode_utf8(s));
}

/// Decoding inverts encoding for browser-to-content messages whose string
/// fields fit the 32-bit length prefix.
pub proof fn lemma_b2c_roundtrip(m: BrowserToContentV)
    requires
        m matches BrowserToContentV::LoadDocument { url, html, .. } ==> encode_utf8(url).len()
            < 0x1_0000_0000 && encode_utf8(html).len() < 0x1_0000_0000,
    ensures
        spec_decode_b2c(spec_encode_b2c(m)) == Ok::<BrowserToContentV, CodecError>(m),
{
    vstd::bytes::lemma_auto_spec_u32_to_from_le_bytes();
    vstd::bytes::lemma_auto_spec_u64_to_from_le_bytes();
    let b = spec_encode_b2c(m);
    let ver = spec_u32_to_le_bytes(IPC_SCHEMA_VERSION);
    assert(ver.len() == 4);
    match m {
        BrowserToContentV::LoadDocument { request_id, url, html, viewport } => {
            let rid = spec_u64_to_le_bytes(request_id);
            let su = spec_str_bytes(url);
            let sh = spec_str_bytes(html);
            let lw = spec_u32_to_le_bytes(viewport.width);
            let lh = spec_u32_to_le_bytes(viewport.height);
            let lu = su.len() as int;
            let lhh = sh.len() as int;
            assert(rid.len() == 8 && lw.len() == 4 && lh.len() == 4);
            assert(b.len() == 21 + lu + lhh);
            assert(b[4] == 1);
            assert(b.subrange(5, 13) =~= rid);
            assert(spec_u64_from_le_bytes_at(b, 5) == request_id);
            assert(b.subrange(13, 13 + lu) =~= su);
            lemma_rd_string_at(b, 13, url);
            let o1 = 13 + lu;
            assert(b.subrange(o1, o1 + lhh) =~= sh);
            lemma_rd_string_at(b, o1, html);
            let o2 = o1 + lhh;
            assert(b.subrange(o2, o2 + 4) =~= lw);
            assert(b.subrange(o2 + 4, o2 + 8) =~= lh);
            assert(spec_u32_from_le_bytes_at(b, o2) == viewport.width);
            assert(spec_u32_from_le_bytes_at(b, o2 + 4) == viewport.height);
        },
        BrowserToContentV::Tick { frame_index } => {
            let fr = spec_u64_to_le_bytes(frame_index);
            assert(fr.len() == 8);
            assert(b.len() == 13);
            assert(b[4] == 2);
            assert(b.subrange(5, 13) =~= fr);
            assert(spec_u64_from_le_bytes_at(b, 5) == frame_index);
        },
        BrowserToContentV::Shutdown => {
            assert(b.len() == 5);
            assert(b[4] == 3);
        },
    }
}

/// Decoding inverts encoding for content-to-browser messages whose string
/// fields fit the 32-bit length prefix.
pub proof fn lemma_c2b_roundtrip(m: ContentToBrowserV)
    requires
        m matches ContentToBrowserV::Log { message, .. } ==> encode_utf8(message).len()
            < 0x1_0000_0000,
    ensures
        spec_decode_c2b(spec_encode_c2b(m)) == Ok::<ContentToBrowserV, CodecError>(m),
{
    vstd::bytes::lemma_auto_spec_u32_to_from_le_bytes();
    vstd::bytes::lemma_auto_spec_u64_to_from_le_bytes();
    let b = spec_encode_c2b(m);
    let ver = spec_u32_to_le_bytes(IPC_SCHEMA_VERSION);
    assert(ver.len() == 4);
    match m {
        ContentToBrowserV::DocumentReady { request_id, command_count } => {
            let rid = spec_u64_to_le_bytes(request_id);
            let cc = spec_u32_to_le_bytes(command_count);
            assert(rid.len() == 8 && cc.len() == 4);
            assert(b.len() == 17);
            assert(b[4] == 1);
            assert(b.subrange(5, 13) =~= rid);
            assert(spec_u64_from_le_bytes_at(b, 5) == request_id);
            assert(b.subrange(13, 17) =~= cc);
            assert(spec_u32_from_le_bytes_at(b, 13) == command_count);
        },
        ContentToBrowserV::Log { level, message } => {
            let sm = spec_str_bytes(message);
            let lm = sm.len() as int;
            assert(b.len() == 6 + lm);
            assert(b[4] == 2);
            assert(b[5] == level);
            assert(b.subrange(6, 6 + lm) =~= sm);
            lemma_rd_string_at(b, 6, message);
        },
        ContentToBrowserV::AckShutdown => {
            assert(b.len() == 5);
            assert(b[4] == 3);
        },
    }
}

/// Relies on `String::from_utf8`: succeeds exactly on valid UTF-8 input and
/// decodes it; the specification is stated with vstd's own UTF-8 model.
#[verifier::external_body]
fn string_from_utf8(v: Vec<u8>) -> (r: Option<String>)
    ensures
        r is Some <==> valid_utf8(v@),
        r matches Some(s) ==> s@ == decode_utf8(v@),
{
    String::from_utf8(v).ok()
}

/// Appends one byte.
fn write_u8(out: &mut Vec<u8>, value: u8)
    ensures
        final(out)@ == old(out)@.push(value),
{
    out.push(value);
}

/// Appends a `u32` in little-endian order.
fn write_u32(out: &mut Vec<u8>, value: u32)
    ensures
        final(out)@ == old(out)@ + spec_u32_to_le_bytes(value),
{
    let bytes = u32_to_le_bytes(value);
    out.extend_from_slice(bytes.as_slice());
}

/// Appends a `u64` in little-endian order.
fn write_u64(out: &mut Vec<u8>, value: u64)
    ensures
        final(out)@ == old(out)@ + spec_u64_to_le_bytes(value),
{
    let bytes = u64_to_le_bytes(value);
    out.extend_from_slice(bytes.as_slice());
}

/// Appends a string: little-endian byte length, then the UTF-8 bytes.
fn write_string(out: &mut Vec<u8>, value: &str)
    ensures
        final(out)@ == old(out)@ + spec_str_bytes(value@),
{
    let len = value.len() as u32;
    write_u32(out, len);
    out.extend_from_slice(value.as_bytes());
    proof {
        assert(out@ =~= old(out)@ + spec_str_bytes(value@));
    }
}

/// Encodes a browser-to-content message into its wire bytes.
pub fn encode_browser_to_content(message: &BrowserToContent) -> (out: Vec<u8>)
    ensures
        out@ == spec_encode_b2c(message@),
{
    let mut out: Vec<u8> = Vec::new();
    write_u32(&mut out, IPC_SCHEMA_VERSION);
    match message {
        BrowserToContent::LoadDocument { request_id, url, html, viewport } => {
            write_u8(&mut out, 1);
            write_u64(&mut out, *request_id);
            write_string(&mut out, url.as_str());
            write_string(&mut out, html.as_str());
            write_u32(&mut out, viewport.width);
            write_u32(&mut out, viewport.height);
        },
        BrowserToContent::Tick { frame_index } => {
            write_u8(&mut out, 2);
            write_u64(&mut out, *frame_index);
        },
        BrowserToContent::Shutdown => {
            write_u8(&mut out, 3);
        },
    }
    proof {
        assert(out@ =~= spec_encode_b2c(message@));
    }
    out
}

/// Encodes a content-to-browser message into its wire bytes.
pub fn encode_content_to_browser(message: &ContentToBrowser) -> (out: Vec<u8>)
    ensures
        out@ == spec_encode_c2b(message@),
{
    let mut out: Vec<u8> = Vec::new();
    write_u32(&mut out, IPC_SCHEMA_VERSION);
    match message {
        ContentToBrowser::DocumentReady { request_id, command_count } => {
            write_u8(&mut out, 1);
            write_u64(&mut out, *request_id);
            write_u32(&mut out, *command_count);
        },
        ContentToBrowser::Log { level, message } => {
            write_u8(&mut out, 2);
            write_u8(&mut out, *level);
            write_string(&mut out, message.as_str());
        },
        ContentToBrowser::AckShutdown => {
            write_u8(&mut out, 3);
        },
    }
    proof {
        assert(out@ =~= spec_encode_c2b(message@));
    }
    out
}

/// A read position in a byte buffer.
struct Cursor<'a> {
    bytes: &'a [u8],
    offset: usize,
}

impl<'a> Cursor<'a> {
    /// The position never passes the end of the buffer.
    spec fn wf(&self) -> bool {
        self.offset <= self.bytes@.len()
    }

    fn new(bytes: &'a [u8]) -> (c: Self)
        ensures
            c.bytes@ == bytes@,
            c.offset == 0,
            c.wf(),
    {
        Cursor { bytes, offset: 0 }
    }

    /// Takes the next `len` bytes, or fails without enough input.
    fn read_exact(&mut self, len: usize) -> (r: Result<&'a [u8], CodecError>)
        requires
            old(self).wf(),
        ensures
            final(self).bytes@ == old(self).bytes@,
            final(self).wf(),
            rd_fits(old(self).bytes@, old(self).offset as int, len as int) ==> (r matches Ok(s)
                && s@ == old(self).bytes@.subrange(
                old(self).offset as int,
                old(self).offset + len,
            ) && final(self).offset == old(self).offset + len),
            !rd_fits(old(self).bytes@, old(self).offset as int, len as int) ==> (r matches Err(e)
                && e == CodecError::UnexpectedEof && final(self).offset == old(self).offset),
    {
        if len > self.bytes.len() - self.offset {
            return Err(CodecError::UnexpectedEof);
        }
        let start = self.offset;
        self.offset = self.offset + len;
        Ok(vstd::slice::slice_subrange(self.bytes, start, start + len))
    }

    /// Reads one byte.
    fn read_u8(&mut self) -> (r: Result<u8, CodecError>)
        requires
            old(self).wf(),
        ensures
            final(self).bytes@ == old(self).bytes@,
            final(self).wf(),
            rd_fits(old(self).bytes@, old(self).offset as int, 1) ==> (r matches Ok(v)
                && v == old(self).bytes@[old(self).offset as int]
                && final(self).offset == old(self).offset + 1),
            !rd_fits(old(self).bytes@, old(self).offset as int, 1) ==> (r matches Err(e) && e
                == CodecError::UnexpectedEof && final(self).offset == old(self).offset),
    {
        let s = self.read_exact(1)?;
        Ok(*vstd::slice::slice_index_get(s, 0))
    }

    /// Reads a little-endian `u32`.
    fn read_u32(&mut self) -> (r: Result<u32, CodecError>)
        requires
            old(self).wf(),
        ensures
            final(self).bytes@ == old(self).bytes@,
            final(self).wf(),
            rd_fits(old(self).bytes@, old(self).offset as int, 4) ==> (r matches Ok(v) && v
                == spec_u32_from_le_bytes_at(old(self).bytes@, old(self).offset as int)
                && final(self).offset == old(self).offset + 4),
            !rd_fits(old(self).bytes@, old(self).offset as int, 4) ==> (r matches Err(e) && e
                == CodecError::UnexpectedEof && final(self).offset == old(self).offset),
    {
        let s = self.read_exact(4)?;
        Ok(u32_from_le_bytes(s))
    }

    /// Reads a little-endian `u64`.
    fn read_u64(&mut self) -> (r: Result<u64, CodecError>)
        requires
            old(self).wf(),
        ensures
            final(self).bytes@ == old(self).bytes@,
            final(self).wf(),
            rd_fits(old(self).bytes@, old(self).offset as int, 8) ==> (r matches Ok(v) && v
                == spec_u64_from_le_bytes_at(old(self).bytes@, old(self).offset as int)
                && final(self).offset == old(self).offset + 8),
            !rd_fits(old(self).bytes@, old(self).offset as int, 8) ==> (r matches Err(e) && e
                == CodecError::UnexpectedEof && final(self).offset == old(self).offset),
    {
        let s = self.read_exact(8)?;
        Ok(u64_from_le_bytes(s))
    }

    /// Reads a length-prefixed UTF-8 string.
    fn read_string(&mut self) -> (r: Result<String, CodecError>)
        requires
            old(self).wf(),
        ensures
            final(self).bytes@ == old(self).bytes@,
            final(self).wf(),
            match spec_rd_string(old(self).bytes@, old(self).offset as int) {
                Ok(p) => r matches Ok(s) && s@ == p.0 && final(self).offset == p.1,
                Err(e) => r matches Err(e2) && e2 == e,
            },
    {
        let len = match self.read_u32() {
            Ok(v) => v,
            Err(e) => {
                return Err(e);
            },
        };
        let s = match self.read_exact(len as usize) {
            Ok(s) => s,
            Err(e) => {
                return Err(e);
            },
        };
        let v = vstd::slice::slice_to_vec(s);
        match string_from_utf8(v) {
            Some(text) => Ok(text),
            None => Err(CodecError::InvalidUtf8),
        }
    }
}

/// Decodes a browser-to-content message from its wire bytes.
pub fn decode_browser_to_content(bytes: &[u8]) -> (r: Result<BrowserToContent, CodecError>)
    ensures
        match r {
            Ok(m) => spec_decode_b2c(bytes@) == Ok::<BrowserToContentV, CodecError>(m@),
            Err(e) => spec_decode_b2c(bytes@) == Err::<BrowserToContentV, CodecError>(e),
        },
{
    let mut cursor = Cursor::new(bytes);
    let _version = match cursor.read_u32() {
        Ok(v) => v,
        Err(e) => {
            return Err(e);
        },
    };
    let tag = match cursor.read_u8() {
        Ok(v) => v,
        Err(e) => {
            return Err(e);
        },
    };
    if tag == 1 {
        let request_id = match cursor.read_u64() {
            Ok(v) => v,
            Err(e) => {
                return Err(e);
            },
        };
        let url = match cursor.read_string() {
            Ok(v) => v,
            Err(e) => {
                return Err(e);
            },
        };
        let html = match cursor.read_string() {
            Ok(v) => v,
            Err(e) => {
                return Err(e);
            },
        };
        let width = match cursor.read_u32() {
            Ok(v) => v,
            Err(e) => {
                return Err(e);
            },
        };
        let height = match cursor.read_u32() {
            Ok(v) => v,
            Err(e) => {
                return Err(e);
            },
        };
        Ok(
            BrowserToContent::LoadDocument {
                request_id,
                url,
                html,
                viewport: Viewport { width, height },
            },
        )
    } else if tag == 2 {
        let frame_index = match cursor.read_u64() {
            Ok(v) => v,
            Err(e) => {
                return Err(e);
            },
        };
        Ok(BrowserToContent::Tick { frame_index })
    } else if tag == 3 {
        Ok(BrowserToContent::Shutdown)
    } else {
        Err(CodecError::InvalidTag(tag))
    }
}

/// Decodes a content-to-browser message from its wire bytes.
pub fn decode_content_to_browser(bytes: &[u8]) -> (r: Result<ContentToBrowser, CodecError>)
    ensures
        match r {
            Ok(m) => spec_decode_c2b(bytes@) == Ok::<ContentToBrowserV, CodecError>(m@),
            Err(e) => spec_decode_c2b(bytes@) == Err::<ContentToBrowserV, CodecError>(e),
        },
{
    let mut cursor = Cursor::new(bytes);
    let _version = match cursor.read_u32() {
        Ok(v) => v,
        Err(e) => {
            return Err(e);
        },
    };
    let tag = match cursor.read_u8() {
        Ok(v) => v,
        Err(e) => {
            return Err(e);
        },
    };
    if tag == 1 {
        let request_id = match cursor.read_u64() {
            Ok(v) => v,
            Err(e) => {
                return Err(e);
            },
        };
        let command_count = match cursor.read_u32() {
            Ok(v) => v,
            Err(e) => {
                return Err(e);
            },
        };
        Ok(ContentToBrowser::DocumentReady { request_id, command_count })
    } else if tag == 2 {
        let level = match cursor.read_u8() {
            Ok(v) => v,
            Err(e) => {
                return Err(e);
            },
        };
        let message = match cursor.read_string() {
            Ok(v) => v,
            Err(e) => {
                return Err(e);
            },
        };
        Ok(ContentToBrowser::Log { level, message })
    } else if tag == 3 {
        Ok(ContentToBrowser::AckShutdown)
    } else {
        Err(CodecError::InvalidTag(tag))
    }
}

/// Mathematical image of the transport: the two message queues, oldest
/// first, each message as its wire bytes.
pub struct TransportV {
    pub to_content: Seq<Seq<u8>>,
    pub to_browser: Seq<Seq<u8>>,
}

/// An in-process pair of message queues standing in for a real process
/// boundary: encoded messages go in, decoded messages come out.
#[derive(Debug)]
pub struct InProcessTransport {
    to_content: VecDeque<Vec<u8>>,
    to_browser: VecDeque<Vec<u8>>,
}

impl View for InProcessTransport {
    type V = TransportV;

    closed spec fn view(&self) -> TransportV {
        TransportV {
            to_content: self.to_content@.map_values(|v: Vec<u8>| v@),
            to_browser: self.to_browser@.map_values(|v: Vec<u8>| v@),
        }
    }
}

impl Default for InProcessTransport {
    /// Both queues start empty.
    fn default() -> (t: Self)
        ensures
            t@.to_content == Seq::<Seq<u8>>::empty(),
            t@.to_browser == Seq::<Seq<u8>>::empty(),
    {
        let t = InProcessTransport { to_content: VecDeque::new(), to_browser: VecDeque::new() };
        proof {
            assert(t@.to_content =~= Seq::<Seq<u8>>::empty());
            assert(t@.to_browser =~= Seq::<Seq<u8>>::empty());
        }
        t
    }
}

impl InProcessTransport {
    /// Queues a message for the content side.
    pub fn send_to_content(&mut self, message: &BrowserToContent)
        ensures
            final(self)@.to_content == old(self)@.to_content.push(spec_encode_b2c(message@)),
            final(self)@.to_browser == old(self)@.to_browser,
    {
        let encoded = encode_browser_to_content(message);
        self.to_content.push_back(encoded);
        proof {
            assert(self@.to_content =~= old(self)@.to_content.push(spec_encode_b2c(message@)));
        }
    }

    /// Takes the oldest message queued for the content side and decodes it.
    pub fn recv_for_content(&mut self) -> (r: Option<Result<BrowserToContent, CodecError>>)
        ensures
            old(self)@.to_content.len() == 0 ==> r is None && final(self)@.to_content == old(
                self,
            )@.to_content,
            old(self)@.to_content.len() > 0 ==> final(self)@.to_content == old(
                self,
            )@.to_content.drop_first() && (match r {
                Some(Ok(m)) => spec_decode_b2c(old(self)@.to_content[0]) == Ok::<
                    BrowserToContentV,
                    CodecError,
                >(m@),
                Some(Err(e)) => spec_decode_b2c(old(self)@.to_content[0]) == Err::<
                    BrowserToContentV,
                    CodecError,
                >(e),
                None => false,
            }),
            final(self)@.to_browser == old(self)@.to_browser,
    {
        match self.to_content.pop_front() {
            Some(payload) => {
                proof {
                    assert(self@.to_content =~= old(self)@.to_content.drop_first());
                    assert(old(self)@.to_content[0] == payload@);
                }
                Some(decode_browser_to_content(payload.as_slice()))
            },
            None => {
                proof {
                    assert(old(self)@.to_content.len() == 0);
                }
                None
            },
        }
    }

    /// Queues a message for the browser side.
    pub fn send_to_browser(&mut self, message: &ContentToBrowser)
        ensures
            final(self)@.to_browser == old(self)@.to_browser.push(spec_encode_c2b(message@)),
            final(self)@.to_content == old(self)@.to_content,
    {
        let encoded = encode_content_to_browser(message);
        self.to_browser.push_back(encoded);
        proof {
            assert(self@.to_browser =~= old(self)@.to_browser.push(spec_encode_c2b(message@)));
        }
    }

    /// Takes the oldest message queued for the browser side and decodes it.
    pub fn recv_for_browser(&mut self) -> (r: Option<Result<ContentToBrowser, CodecError>>)
        ensures
            old(self)@.to_browser.len() == 0 ==> r is None && final(self)@.to_browser == old(
                self,
            )@.to_browser,
            old(self)@.to_browser.len() > 0 ==> final(self)@.to_browser == old(
                self,
            )@.to_browser.drop_first() && (match r {
                Some(Ok(m)) => spec_decode_c2b(old(self)@.to_browser[0]) == Ok::<
                    ContentToBrowserV,
                    CodecError,
                >(m@),
                Some(Err(e)) => spec_decode_c2b(old(self)@.to_browser[0]) == Err::<
                    ContentToBrowserV,
                    CodecError,
                >(e),
                None => false,
            }),
            final(self)@.to_content == old(self)@.to_content,
    {
        match self.to_browser.pop_front() {
            Some(payload) => {
                proof {
                    assert(self@.to_browser =~= old(self)@.to_browser.drop_first());
                    assert(old(self)@.to_browser[0] == payload@);
                }
                Some(decode_content_to_browser(payload.as_slice()))
            },
            None => {
                proof {
                    assert(old(self)@.to_browser.len() == 0);
                }
                None
            },
        }
    }
}

} // verus!
