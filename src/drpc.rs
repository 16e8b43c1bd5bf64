//! The DRPC request and response messages and their byte layout: fixed-width
//! little-endian integers and length-prefixed byte fields, in declaration order.
use vstd::prelude::*;
use vstd::slice::slice_subrange;
use crate::wire::{
    blob, get_blob, get_u32, get_u64, le32, le_i32, le_i64, le_usize, lemma_i32_bits,
    lemma_i64_bits, lemma_le32_len, lemma_le64_len, lemma_read32_at, lemma_read32_span,
    lemma_read64_at, lemma_read64_span, lemma_read_blob_at, lemma_read_blob_span, lemma_u32_bits,
    lemma_u64_bits, put_blob, put_u32, put_u64, read32, read64, read_blob,
};

verus! {

/// The operation that a DRPC message carries.
#[derive(Clone, Copy, Debug, PartialEq, Eq, Structural)]
pub enum DRPC {
    /// Open a file
    Open,
    /// Read from a file
    Read,
    /// Read from a file from the given offset
    PRead,
    /// Write to a file
    Write,
    /// Write to a file at the given offset
    PWrite,
    /// Close an opened file.
    Close,
    /// Remove the file
    Remove,
    /// Create a directory.
    MkDir,
    /// Remove a directory.
    RmDir,
}

/// The wire byte of each operation.
pub open spec fn opcode(op: DRPC) -> u8 {
    match op {
        DRPC::Open => 1,
        DRPC::Read => 2,
        DRPC::PRead => 3,
        DRPC::Write => 4,
        DRPC::PWrite => 5,
        DRPC::Close => 6,
        DRPC::Remove => 7,
        DRPC::MkDir => 8,
        DRPC::RmDir => 9,
    }
}

/// A whole message: the opcode byte, then the encoded request or response.
pub open spec fn message_bytes(op: DRPC, body: Seq<u8>) -> Seq<u8> {
    seq![opcode(op)] + body
}

impl DRPC {
    /// The wire byte of this operation.
    pub fn code(&self) -> (r: u8)
        ensures
            r == opcode(*self),
    {
        match self {
            DRPC::Open => 1,
            DRPC::Read => 2,
            DRPC::PRead => 3,
            DRPC::Write => 4,
            DRPC::PWrite => 5,
            DRPC::Close => 6,
            DRPC::Remove => 7,
            DRPC::MkDir => 8,
            DRPC::RmDir => 9,
        }
    }

    /// The operation whose wire byte is `c`, if any.
    pub fn from_code(c: u8) -> (r: Option<DRPC>)
        ensures
            match r {
                Some(op) => opcode(op) == c,
                None => forall|op: DRPC| opcode(op) != c,
            },
    {
        match c {
            1 => Some(DRPC::Open),
            2 => Some(DRPC::Read),
            3 => Some(DRPC::PRead),
            4 => Some(DRPC::Write),
            5 => Some(DRPC::PWrite),
            6 => Some(DRPC::Close),
            7 => Some(DRPC::Remove),
            8 => Some(DRPC::MkDir),
            9 => Some(DRPC::RmDir),
            _ => None,
        }
    }
}

/// Distinct operations have distinct wire bytes, so an opcode decodes back to
/// the operation it was encoded from.
pub proof fn lemma_opcode_round_trip(op: DRPC, op2: DRPC)
    requires
        opcode(op) == opcode(op2),
    ensures
        op == op2,
{
}

/// Prefixes `body` with the opcode byte of `op`.
pub fn frame(op: DRPC, body: &[u8]) -> (r: Vec<u8>)
    ensures
        r@ == message_bytes(op, body@),
{
    let mut out: Vec<u8> = Vec::new();
    out.push(op.code());
    let mut i: usize = 0;
    while i < body.len()
        invariant
            i <= body@.len(),
            out@ == seq![opcode(op)] + body@.subrange(0, i as int),
        decreases body@.len() - i,
    {
        out.push(body[i]);
        i = i + 1;
        assert(out@ =~= seq![opcode(op)] + body@.subrange(0, i as int));
    }
    assert(body@.subrange(0, body@.len() as int) =~= body@);
    out
}

/// Splits a message into its operation and its body, which stays in `b`.
pub fn split_frame(b: &[u8]) -> (r: Option<(DRPC, &[u8])>)
    ensures
        match r {
            Some((op, body)) => message_bytes(op, body@) == b@,
            None => forall|op: DRPC, body: Seq<u8>| #[trigger] message_bytes(op, body) != b@,
        },
{
    if b.len() == 0 {
        proof {
            assert forall|op: DRPC, body: Seq<u8>| #[trigger] message_bytes(op, body) != b@ by {
                assert(message_bytes(op, body).len() >= 1);
            }
        }
        return None;
    }
    match DRPC::from_code(b[0]) {
        Some(op) => {
            let body = slice_subrange(b, 1, b.len());
            assert(message_bytes(op, body@) =~= b@);
            Some((op, body))
        },
        None => {
            proof {
                assert forall|op: DRPC, body: Seq<u8>| #[trigger] message_bytes(op, body) != b@ by {
                    assert(message_bytes(op, body)[0] == opcode(op));
                }
            }
            None
        },
    }
}

/// Splitting a framed message gives back its operation and its body unchanged.
pub proof fn lemma_message_round_trip(op: DRPC, body: Seq<u8>, op2: DRPC, body2: Seq<u8>)
    requires
        message_bytes(op, body) == message_bytes(op2, body2),
    ensures
        op == op2,
        body == body2,
{
    assert(message_bytes(op, body)[0] == opcode(op));
    assert(message_bytes(op2, body2)[0] == opcode(op2));
    assert(body =~= message_bytes(op, body).subrange(1, message_bytes(op, body).len() as int));
    assert(body2 =~= message_bytes(op2, body2).subrange(1, message_bytes(op2, body2).len() as int));
}

/// Opens the file at `path` with `flags` and `mode`.
pub struct OpenReq {
    pub path: Vec<u8>,
    pub flags: i32,
    pub mode: u32,
}

/// The bytes of an open request.
pub open spec fn open_req_bytes(path: Seq<u8>, flags: i32, mode: u32) -> Seq<u8> {
    blob(path) + le_i32(flags) + le32(mode)
}

/// Reads an open request that fills `b` exactly.
pub open spec fn parse_open_req(b: Seq<u8>) -> Option<(Seq<u8>, i32, u32)> {
    match read_blob(b, 0) {
        None => None,
        Some((path, p1)) => {
            match read32(b, p1) {
                None => None,
                Some((flags_bits, p2)) => {
                    match read32(b, p2) {
                        None => None,
                        Some((mode, p3)) => {
                            if p3 == b.len() {
                                Some((path, flags_bits as i32, mode))
                            } else {
                                None
                            }
                        },
                    }
                },
            }
        },
    }
}

proof fn lemma_open_req_parse(path: Seq<u8>, flags: i32, mode: u32)
    requires
        path.len() <= u64::MAX,
    ensures
        parse_open_req(open_req_bytes(path, flags, mode)) == Some((path, flags, mode)),
{
    lemma_le64_len(path.len() as u64);
    lemma_le32_len(flags as u32);
    lemma_le32_len(mode);
    let b = open_req_bytes(path, flags, mode);
    let pre0 = Seq::<u8>::empty();
    let post0 = le_i32(flags) + le32(mode);
    assert(b =~= pre0 + blob(path) + post0);
    lemma_read_blob_at(pre0, path, post0);
    let pre1 = blob(path);
    let post1 = le32(mode);
    assert(b =~= pre1 + le_i32(flags) + post1);
    lemma_read32_at(pre1, flags as u32, post1);
    lemma_i32_bits(flags);
    let pre2 = blob(path) + le_i32(flags);
    let post2 = Seq::<u8>::empty();
    assert(b =~= pre2 + le32(mode) + post2);
    lemma_read32_at(pre2, mode, post2);
}

proof fn lemma_open_req_parsed(b: Seq<u8>)
    requires
        parse_open_req(b) is Some,
    ensures
        b == open_req_bytes(parse_open_req(b).unwrap().0, parse_open_req(b).unwrap().1, parse_open_req(b).unwrap().2),
{
    let (path, p1) = read_blob(b, 0).unwrap();
    lemma_read_blob_span(b, 0);
    let (flags, p2) = read32(b, p1).unwrap();
    lemma_read32_span(b, p1);
    lemma_u32_bits(flags);
    let (mode, p3) = read32(b, p2).unwrap();
    lemma_read32_span(b, p2);
    assert(b =~= b.subrange(0, p1) + b.subrange(p1, p2) + b.subrange(p2, p3));
}

/// Decoding the bytes of an open request gives back every field unchanged: no two
/// distinct open requests share an encoding.
pub proof fn lemma_open_req_round_trip(path: Seq<u8>, flags: i32, mode: u32, path2: Seq<u8>, flags2: i32, mode2: u32)
    requires
        path.len() <= u64::MAX,
        open_req_bytes(path, flags, mode) == open_req_bytes(path2, flags2, mode2),
    ensures
        path == path2 && flags == flags2 && mode == mode2,
{
    lemma_le64_len(path.len() as u64);
    lemma_le32_len(flags as u32);
    lemma_le32_len(mode);
    lemma_le64_len(path2.len() as u64);
    lemma_le32_len(flags2 as u32);
    lemma_le32_len(mode2);
    lemma_open_req_parse(path, flags, mode);
    lemma_open_req_parse(path2, flags2, mode2);
}

impl OpenReq {
    /// The bytes of this value.
    pub fn encode(&self) -> (r: Vec<u8>)
        ensures
            r@ == open_req_bytes(self.path@, self.flags, self.mode),
    {
        let mut out: Vec<u8> = Vec::new();
        put_blob(&mut out, self.path.as_slice());
        put_u32(&mut out, self.flags as u32);
        put_u32(&mut out, self.mode);
        assert(out@ =~= open_req_bytes(self.path@, self.flags, self.mode));
        out
    }

    fn parse(b: &[u8]) -> (r: Option<OpenReq>)
        ensures
            match r {
                Some(x) => parse_open_req(b@) == Some((x.path@, x.flags, x.mode)),
                None => parse_open_req(b@) is None,
            },
    {
        match get_blob(b, 0) {
            None => None,
            Some((path, p1)) => {
                match get_u32(b, p1) {
                    None => None,
                    Some((flags_bits, p2)) => {
                        let flags = flags_bits as i32;
                        match get_u32(b, p2) {
                            None => None,
                            Some((mode, p3)) => {
                                if p3 == b.len() {
                                    Some(OpenReq { path, flags, mode })
                                } else {
                                    None
                                }
                            },
                        }
                    },
                }
            },
        }
    }

    /// The value whose bytes are exactly `b`, if there is one.
    pub fn decode(b: &[u8]) -> (r: Option<OpenReq>)
        ensures
            match r {
                Some(x) => open_req_bytes(x.path@, x.flags, x.mode) == b@,
                None => forall|path: Seq<u8>, flags: i32, mode: u32| path.len() <= u64::MAX ==> #[trigger] open_req_bytes(path, flags, mode) != b@,
            },
    {
        let r = Self::parse(b);
        proof {
            if r is Some {
                lemma_open_req_parsed(b@);
            } else {
                assert forall|path: Seq<u8>, flags: i32, mode: u32| path.len() <= u64::MAX implies #[trigger] open_req_bytes(path, flags, mode) != b@ by {
                    if open_req_bytes(path, flags, mode) == b@ {
                        lemma_open_req_parse(path, flags, mode);
                    }
                }
            }
        }
        r
    }
}

/// Reads `size` bytes from `fd` (at `offset` for a positioned read).
pub struct ReadReq {
    pub fd: i32,
    pub size: usize,
    pub offset: i64,
}

/// The bytes of a read request.
pub open spec fn read_req_bytes(fd: i32, size: usize, offset: i64) -> Seq<u8> {
    le_i32(fd) + le_usize(size) + le_i64(offset)
}

/// Reads a read request that fills `b` exactly.
pub open spec fn parse_read_req(b: Seq<u8>) -> Option<(i32, usize, i64)> {
    match read32(b, 0) {
        None => None,
        Some((fd_bits, p1)) => {
            match read64(b, p1) {
                None => None,
                Some((size_bits, p2)) => if size_bits > usize::MAX {
                    None
                } else {
                    match read64(b, p2) {
                        None => None,
                        Some((offset_bits, p3)) => {
                            if p3 == b.len() {
                                Some((fd_bits as i32, size_bits as usize, offset_bits as i64))
                            } else {
                                None
                            }
                        },
                    }
                },
            }
        },
    }
}

proof fn lemma_read_req_parse(fd: i32, size: usize, offset: i64)
    ensures
        parse_read_req(read_req_bytes(fd, size, offset)) == Some((fd, size, offset)),
{
    lemma_le32_len(fd as u32);
    lemma_le64_len(size as u64);
    lemma_le64_len(offset as u64);
    let b = read_req_bytes(fd, size, offset);
    let pre0 = Seq::<u8>::empty();
    let post0 = le_usize(size) + le_i64(offset);
    assert(b =~= pre0 + le_i32(fd) + post0);
    lemma_read32_at(pre0, fd as u32, post0);
    lemma_i32_bits(fd);
    let pre1 = le_i32(fd);
    let post1 = le_i64(offset);
    assert(b =~= pre1 + le_usize(size) + post1);
    lemma_read64_at(pre1, size as u64, post1);
    let pre2 = le_i32(fd) + le_usize(size);
    let post2 = Seq::<u8>::empty();
    assert(b =~= pre2 + le_i64(offset) + post2);
    lemma_read64_at(pre2, offset as u64, post2);
    lemma_i64_bits(offset);
}

proof fn lemma_read_req_parsed(b: Seq<u8>)
    requires
        parse_read_req(b) is Some,
    ensures
        b == read_req_bytes(parse_read_req(b).unwrap().0, parse_read_req(b).unwrap().1, parse_read_req(b).unwrap().2),
{
    let (fd, p1) = read32(b, 0).unwrap();
    lemma_read32_span(b, 0);
    lemma_u32_bits(fd);
    let (size, p2) = read64(b, p1).unwrap();
    lemma_read64_span(b, p1);
    let (offset, p3) = read64(b, p2).unwrap();
    lemma_read64_span(b, p2);
    lemma_u64_bits(offset);
    assert(b =~= b.subrange(0, p1) + b.subrange(p1, p2) + b.subrange(p2, p3));
}

/// Decoding the bytes of a read request gives back every field unchanged: no two
/// distinct read requests share an encoding.
pub proof fn lemma_read_req_round_trip(fd: i32, size: usize, offset: i64, fd2: i32, size2: usize, offset2: i64)
    requires
        read_req_bytes(fd, size, offset) == read_req_bytes(fd2, size2, offset2),
    ensures
        fd == fd2 && size == size2 && offset == offset2,
{
    lemma_le32_len(fd as u32);
    lemma_le64_len(size as u64);
    lemma_le64_len(offset as u64);
    lemma_le32_len(fd2 as u32);
    lemma_le64_len(size2 as u64);
    lemma_le64_len(offset2 as u64);
    lemma_read_req_parse(fd, size, offset);
    lemma_read_req_parse(fd2, size2, offset2);
}

impl ReadReq {
    /// The bytes of this value.
    pub fn encode(&self) -> (r: Vec<u8>)
        ensures
            r@ == read_req_bytes(self.fd, self.size, self.offset),
    {
        let mut out: Vec<u8> = Vec::new();
        put_u32(&mut out, self.fd as u32);
        put_u64(&mut out, self.size as u64);
        put_u64(&mut out, self.offset as u64);
        assert(out@ =~= read_req_bytes(self.fd, self.size, self.offset));
        out
    }

    fn parse(b: &[u8]) -> (r: Option<ReadReq>)
        ensures
            match r {
                Some(x) => parse_read_req(b@) == Some((x.fd, x.size, x.offset)),
                None => parse_read_req(b@) is None,
            },
    {
        match get_u32(b, 0) {
            None => None,
            Some((fd_bits, p1)) => {
                let fd = fd_bits as i32;
                match get_u64(b, p1) {
                    None => None,
                    Some((size_bits, p2)) => if size_bits > usize::MAX as u64 {
                        None
                    } else {
                        let size = size_bits as usize;
                        match get_u64(b, p2) {
                            None => None,
                            Some((offset_bits, p3)) => {
                                let offset = offset_bits as i64;
                                if p3 == b.len() {
                                    Some(ReadReq { fd, size, offset })
                                } else {
                                    None
                                }
                            },
                        }
                    },
                }
            },
        }
    }

    /// The value whose bytes are exactly `b`, if there is one.
    pub fn decode(b: &[u8]) -> (r: Option<ReadReq>)
        ensures
            match r {
                Some(x) => read_req_bytes(x.fd, x.size, x.offset) == b@,
                None => forall|fd: i32, size: usize, offset: i64| #[trigger] read_req_bytes(fd, size, offset) != b@,
            },
    {
        let r = Self::parse(b);
        proof {
            if r is Some {
                lemma_read_req_parsed(b@);
            } else {
                assert forall|fd: i32, size: usize, offset: i64| #[trigger] read_req_bytes(fd, size, offset) != b@ by {
                    if read_req_bytes(fd, size, offset) == b@ {
                        lemma_read_req_parse(fd, size, offset);
                    }
                }
            }
        }
        r
    }
}

/// Writes `size` bytes of `page` to `fd` (at `offset` for a positioned write).
pub struct WriteReq {
    pub fd: i32,
    pub page: Vec<u8>,
    pub size: usize,
    pub offset: i64,
}

/// The bytes of a write request.
pub open spec fn write_req_bytes(fd: i32, page: Seq<u8>, size: usize, offset: i64) -> Seq<u8> {
    le_i32(fd) + blob(page) + le_usize(size) + le_i64(offset)
}

/// Reads a write request that fills `b` exactly.
pub open spec fn parse_write_req(b: Seq<u8>) -> Option<(i32, Seq<u8>, usize, i64)> {
    match read32(b, 0) {
        None => None,
        Some((fd_bits, p1)) => {
            match read_blob(b, p1) {
                None => None,
                Some((page, p2)) => {
                    match read64(b, p2) {
                        None => None,
                        Some((size_bits, p3)) => if size_bits > usize::MAX {
                            None
                        } else {
                            match read64(b, p3) {
                                None => None,
                                Some((offset_bits, p4)) => {
                                    if p4 == b.len() {
                                        Some((fd_bits as i32, page, size_bits as usize, offset_bits as i64))
                                    } else {
                                        None
                                    }
                                },
                            }
                        },
                    }
                },
            }
        },
    }
}

proof fn lemma_write_req_parse(fd: i32, page: Seq<u8>, size: usize, offset: i64)
    requires
        page.len() <= u64::MAX,
    ensures
        parse_write_req(write_req_bytes(fd, page, size, offset)) == Some((fd, page, size, offset)),
{
    lemma_le32_len(fd as u32);
    lemma_le64_len(page.len() as u64);
    lemma_le64_len(size as u64);
    lemma_le64_len(offset as u64);
    let b = write_req_bytes(fd, page, size, offset);
    let pre0 = Seq::<u8>::empty();
    let post0 = blob(page) + le_usize(size) + le_i64(offset);
    assert(b =~= pre0 + le_i32(fd) + post0);
    lemma_read32_at(pre0, fd as u32, post0);
    lemma_i32_bits(fd);
    let pre1 = le_i32(fd);
    let post1 = le_usize(size) + le_i64(offset);
    assert(b =~= pre1 + blob(page) + post1);
    lemma_read_blob_at(pre1, page, post1);
    let pre2 = le_i32(fd) + blob(page);
    let post2 = le_i64(offset);
    assert(b =~= pre2 + le_usize(size) + post2);
    lemma_read64_at(pre2, size as u64, post2);
    let pre3 = le_i32(fd) + blob(page) + le_usize(size);
    let post3 = Seq::<u8>::empty();
    assert(b =~= pre3 + le_i64(offset) + post3);
    lemma_read64_at(pre3, offset as u64, post3);
    lemma_i64_bits(offset);
}

proof fn lemma_write_req_parsed(b: Seq<u8>)
    requires
        parse_write_req(b) is Some,
    ensures
        b == write_req_bytes(parse_write_req(b).unwrap().0, parse_write_req(b).unwrap().1, parse_write_req(b).unwrap().2, parse_write_req(b).unwrap().3),
{
    let (fd, p1) = read32(b, 0).unwrap();
    lemma_read32_span(b, 0);
    lemma_u32_bits(fd);
    let (page, p2) = read_blob(b, p1).unwrap();
    lemma_read_blob_span(b, p1);
    let (size, p3) = read64(b, p2).unwrap();
    lemma_read64_span(b, p2);
    let (offset, p4) = read64(b, p3).unwrap();
    lemma_read64_span(b, p3);
    lemma_u64_bits(offset);
    assert(b =~= b.subrange(0, p1) + b.subrange(p1, p2) + b.subrange(p2, p3) + b.subrange(p3, p4));
}

/// Decoding the bytes of a write request gives back every field unchanged: no two
/// distinct write requests share an encoding.
pub proof fn lemma_write_req_round_trip(fd: i32, page: Seq<u8>, size: usize, offset: i64, fd2: i32, page2: Seq<u8>, size2: usize, offset2: i64)
    requires
        page.len() <= u64::MAX,
        write_req_bytes(fd, page, size, offset) == write_req_bytes(fd2, page2, size2, offset2),
    ensures
        fd == fd2 && page == page2 && size == size2 && offset == offset2,
{
    lemma_le32_len(fd as u32);
    lemma_le64_len(page.len() as u64);
    lemma_le64_len(size as u64);
    lemma_le64_len(offset as u64);
    lemma_le32_len(fd2 as u32);
    lemma_le64_len(page2.len() as u64);
    lemma_le64_len(size2 as u64);
    lemma_le64_len(offset2 as u64);
    lemma_write_req_parse(fd, page, size, offset);
    lemma_write_req_parse(fd2, page2, size2, offset2);
}

impl WriteReq {
    /// The bytes of this value.
    pub fn encode(&self) -> (r: Vec<u8>)
        ensures
            r@ == write_req_bytes(self.fd, self.page@, self.size, self.offset),
    {
        let mut out: Vec<u8> = Vec::new();
        put_u32(&mut out, self.fd as u32);
        put_blob(&mut out, self.page.as_slice());
        put_u64(&mut out, self.size as u64);
        put_u64(&mut out, self.offset as u64);
        assert(out@ =~= write_req_bytes(self.fd, self.page@, self.size, self.offset));
        out
    }

    fn parse(b: &[u8]) -> (r: Option<WriteReq>)
        ensures
            match r {
                Some(x) => parse_write_req(b@) == Some((x.fd, x.page@, x.size, x.offset)),
                None => parse_write_req(b@) is None,
            },
    {
        match get_u32(b, 0) {
            None => None,
            Some((fd_bits, p1)) => {
                let fd = fd_bits as i32;
                match get_blob(b, p1) {
                    None => None,
                    Some((page, p2)) => {
                        match get_u64(b, p2) {
                            None => None,
                            Some((size_bits, p3)) => if size_bits > usize::MAX as u64 {
                                None
                            } else {
                                let size = size_bits as usize;
                                match get_u64(b, p3) {
                                    None => None,
                                    Some((offset_bits, p4)) => {
                                        let offset = offset_bits as i64;
                                        if p4 == b.len() {
                                            Some(WriteReq { fd, page, size, offset })
                                        } else {
                                            None
                                        }
                                    },
                                }
                            },
                        }
                    },
                }
            },
        }
    }

    /// The value whose bytes are exactly `b`, if there is one.
    pub fn decode(b: &[u8]) -> (r: Option<WriteReq>)
        ensures
            match r {
                Some(x) => write_req_bytes(x.fd, x.page@, x.size, x.offset) == b@,
                None => forall|fd: i32, page: Seq<u8>, size: usize, offset: i64| page.len() <= u64::MAX ==> #[trigger] write_req_bytes(fd, page, size, offset) != b@,
            },
    {
        let r = Self::parse(b);
        proof {
            if r is Some {
                lemma_write_req_parsed(b@);
            } else {
                assert forall|fd: i32, page: Seq<u8>, size: usize, offset: i64| page.len() <= u64::MAX implies #[trigger] write_req_bytes(fd, page, size, offset) != b@ by {
                    if write_req_bytes(fd, page, size, offset) == b@ {
                        lemma_write_req_parse(fd, page, size, offset);
                    }
                }
            }
        }
        r
    }
}

/// Closes `fd`.
pub struct CloseReq {
    pub fd: i32,
}

/// The bytes of a close request.
pub open spec fn close_req_bytes(fd: i32) -> Seq<u8> {
    le_i32(fd)
}

/// Reads a close request that fills `b` exactly.
pub open spec fn parse_close_req(b: Seq<u8>) -> Option<i32> {
    match read32(b, 0) {
        None => None,
        Some((fd_bits, p1)) => {
            if p1 == b.len() {
                Some(fd_bits as i32)
            } else {
                None
            }
        },
    }
}

proof fn lemma_close_req_parse(fd: i32)
    ensures
        parse_close_req(close_req_bytes(fd)) == Some(fd),
{
    lemma_le32_len(fd as u32);
    let b = close_req_bytes(fd);
    let pre0 = Seq::<u8>::empty();
    let post0 = Seq::<u8>::empty();
    assert(b =~= pre0 + le_i32(fd) + post0);
    lemma_read32_at(pre0, fd as u32, post0);
    lemma_i32_bits(fd);
}

proof fn lemma_close_req_parsed(b: Seq<u8>)
    requires
        parse_close_req(b) is Some,
    ensures
        b == close_req_bytes(parse_close_req(b).unwrap()),
{
    let (fd, p1) = read32(b, 0).unwrap();
    lemma_read32_span(b, 0);
    lemma_u32_bits(fd);
    assert(b =~= b.subrange(0, p1));
}

/// Decoding the bytes of a close request gives back every field unchanged: no two
/// distinct close requests share an encoding.
pub proof fn lemma_close_req_round_trip(fd: i32, fd2: i32)
    requires
        close_req_bytes(fd) == close_req_bytes(fd2),
    ensures
        fd == fd2,
{
    lemma_le32_len(fd as u32);
    lemma_le32_len(fd2 as u32);
    lemma_close_req_parse(fd);
    lemma_close_req_parse(fd2);
}

impl CloseReq {
    /// The bytes of this value.
    pub fn encode(&self) -> (r: Vec<u8>)
        ensures
            r@ == close_req_bytes(self.fd),
    {
        let mut out: Vec<u8> = Vec::new();
        put_u32(&mut out, self.fd as u32);
        assert(out@ =~= close_req_bytes(self.fd));
        out
    }

    fn parse(b: &[u8]) -> (r: Option<CloseReq>)
        ensures
            match r {
                Some(x) => parse_close_req(b@) == Some(x.fd),
                None => parse_close_req(b@) is None,
            },
    {
        match get_u32(b, 0) {
            None => None,
            Some((fd_bits, p1)) => {
                let fd = fd_bits as i32;
                if p1 == b.len() {
                    Some(CloseReq { fd })
                } else {
                    None
                }
            },
        }
    }

    /// The value whose bytes are exactly `b`, if there is one.
    pub fn decode(b: &[u8]) -> (r: Option<CloseReq>)
        ensures
            match r {
                Some(x) => close_req_bytes(x.fd) == b@,
                None => forall|fd: i32| #[trigger] close_req_bytes(fd) != b@,
            },
    {
        let r = Self::parse(b);
        proof {
            if r is Some {
                lemma_close_req_parsed(b@);
            } else {
                assert forall|fd: i32| #[trigger] close_req_bytes(fd) != b@ by {
                    if close_req_bytes(fd) == b@ {
                        lemma_close_req_parse(fd);
                    }
                }
            }
        }
        r
    }
}

/// Removes the file or directory at `path`.
pub struct RemoveReq {
    pub path: Vec<u8>,
}

/// The bytes of a remove request.
pub open spec fn remove_req_bytes(path: Seq<u8>) -> Seq<u8> {
    blob(path)
}

/// Reads a remove request that fills `b` exactly.
pub open spec fn parse_remove_req(b: Seq<u8>) -> Option<Seq<u8>> {
    match read_blob(b, 0) {
        None => None,
        Some((path, p1)) => {
            if p1 == b.len() {
                Some(path)
            } else {
                None
            }
        },
    }
}

proof fn lemma_remove_req_parse(path: Seq<u8>)
    requires
        path.len() <= u64::MAX,
    ensures
        parse_remove_req(remove_req_bytes(path)) == Some(path),
{
    lemma_le64_len(path.len() as u64);
    let b = remove_req_bytes(path);
    let pre0 = Seq::<u8>::empty();
    let post0 = Seq::<u8>::empty();
    assert(b =~= pre0 + blob(path) + post0);
    lemma_read_blob_at(pre0, path, post0);
}

proof fn lemma_remove_req_parsed(b: Seq<u8>)
    requires
        parse_remove_req(b) is Some,
    ensures
        b == remove_req_bytes(parse_remove_req(b).unwrap()),
{
    let (path, p1) = read_blob(b, 0).unwrap();
    lemma_read_blob_span(b, 0);
    assert(b =~= b.subrange(0, p1));
}

/// Decoding the bytes of a remove request gives back every field unchanged: no two
/// distinct remove requests share an encoding.
pub proof fn lemma_remove_req_round_trip(path: Seq<u8>, path2: Seq<u8>)
    requires
        path.len() <= u64::MAX,
        remove_req_bytes(path) == remove_req_bytes(path2),
    ensures
        path == path2,
{
    lemma_le64_len(path.len() as u64);
    lemma_le64_len(path2.len() as u64);
    lemma_remove_req_parse(path);
    lemma_remove_req_parse(path2);
}

impl RemoveReq {
    /// The bytes of this value.
    pub fn encode(&self) -> (r: Vec<u8>)
        ensures
            r@ == remove_req_bytes(self.path@),
    {
        let mut out: Vec<u8> = Vec::new();
        put_blob(&mut out, self.path.as_slice());
        assert(out@ =~= remove_req_bytes(self.path@));
        out
    }

    fn parse(b: &[u8]) -> (r: Option<RemoveReq>)
        ensures
            match r {
                Some(x) => parse_remove_req(b@) == Some(x.path@),
                None => parse_remove_req(b@) is None,
            },
    {
        match get_blob(b, 0) {
            None => None,
            Some((path, p1)) => {
                if p1 == b.len() {
                    Some(RemoveReq { path })
                } else {
                    None
                }
            },
        }
    }

    /// The value whose bytes are exactly `b`, if there is one.
    pub fn decode(b: &[u8]) -> (r: Option<RemoveReq>)
        ensures
            match r {
                Some(x) => remove_req_bytes(x.path@) == b@,
                None => forall|path: Seq<u8>| path.len() <= u64::MAX ==> #[trigger] remove_req_bytes(path) != b@,
            },
    {
        let r = Self::parse(b);
        proof {
            if r is Some {
                lemma_remove_req_parsed(b@);
            } else {
                assert forall|path: Seq<u8>| path.len() <= u64::MAX implies #[trigger] remove_req_bytes(path) != b@ by {
                    if remove_req_bytes(path) == b@ {
                        lemma_remove_req_parse(path);
                    }
                }
            }
        }
        r
    }
}

/// Creates the directory `path` with `mode`.
pub struct MkdirReq {
    pub path: Vec<u8>,
    pub mode: u32,
}

/// The bytes of a mkdir request.
pub open spec fn mkdir_req_bytes(path: Seq<u8>, mode: u32) -> Seq<u8> {
    blob(path) + le32(mode)
}

/// Reads a mkdir request that fills `b` exactly.
pub open spec fn parse_mkdir_req(b: Seq<u8>) -> Option<(Seq<u8>, u32)> {
    match read_blob(b, 0) {
        None => None,
        Some((path, p1)) => {
            match read32(b, p1) {
                None => None,
                Some((mode, p2)) => {
                    if p2 == b.len() {
                        Some((path, mode))
                    } else {
                        None
                    }
                },
            }
        },
    }
}

proof fn lemma_mkdir_req_parse(path: Seq<u8>, mode: u32)
    requires
        path.len() <= u64::MAX,
    ensures
        parse_mkdir_req(mkdir_req_bytes(path, mode)) == Some((path, mode)),
{
    lemma_le64_len(path.len() as u64);
    lemma_le32_len(mode);
    let b = mkdir_req_bytes(path, mode);
    let pre0 = Seq::<u8>::empty();
    let post0 = le32(mode);
    assert(b =~= pre0 + blob(path) + post0);
    lemma_read_blob_at(pre0, path, post0);
    let pre1 = blob(path);
    let post1 = Seq::<u8>::empty();
    assert(b =~= pre1 + le32(mode) + post1);
    lemma_read32_at(pre1, mode, post1);
}

proof fn lemma_mkdir_req_parsed(b: Seq<u8>)
    requires
        parse_mkdir_req(b) is Some,
    ensures
        b == mkdir_req_bytes(parse_mkdir_req(b).unwrap().0, parse_mkdir_req(b).unwrap().1),
{
    let (path, p1) = read_blob(b, 0).unwrap();
    lemma_read_blob_span(b, 0);
    let (mode, p2) = read32(b, p1).unwrap();
    lemma_read32_span(b, p1);
    assert(b =~= b.subrange(0, p1) + b.subrange(p1, p2));
}

/// Decoding the bytes of a mkdir request gives back every field unchanged: no two
/// distinct mkdir requests share an encoding.
pub proof fn lemma_mkdir_req_round_trip(path: Seq<u8>, mode: u32, path2: Seq<u8>, mode2: u32)
    requires
        path.len() <= u64::MAX,
        mkdir_req_bytes(path, mode) == mkdir_req_bytes(path2, mode2),
    ensures
        path == path2 && mode == mode2,
{
    lemma_le64_len(path.len() as u64);
    lemma_le32_len(mode);
    lemma_le64_len(path2.len() as u64);
    lemma_le32_len(mode2);
    lemma_mkdir_req_parse(path, mode);
    lemma_mkdir_req_parse(path2, mode2);
}

impl MkdirReq {
    /// The bytes of this value.
    pub fn encode(&self) -> (r: Vec<u8>)
        ensures
            r@ == mkdir_req_bytes(self.path@, self.mode),
    {
        let mut out: Vec<u8> = Vec::new();
        put_blob(&mut out, self.path.as_slice());
        put_u32(&mut out, self.mode);
        assert(out@ =~= mkdir_req_bytes(self.path@, self.mode));
        out
    }

    fn parse(b: &[u8]) -> (r: Option<MkdirReq>)
        ensures
            match r {
                Some(x) => parse_mkdir_req(b@) == Some((x.path@, x.mode)),
                None => parse_mkdir_req(b@) is None,
            },
    {
        match get_blob(b, 0) {
            None => None,
            Some((path, p1)) => {
                match get_u32(b, p1) {
                    None => None,
                    Some((mode, p2)) => {
                        if p2 == b.len() {
                            Some(MkdirReq { path, mode })
                        } else {
                            None
                        }
                    },
                }
            },
        }
    }

    /// The value whose bytes are exactly `b`, if there is one.
    pub fn decode(b: &[u8]) -> (r: Option<MkdirReq>)
        ensures
            match r {
                Some(x) => mkdir_req_bytes(x.path@, x.mode) == b@,
                None => forall|path: Seq<u8>, mode: u32| path.len() <= u64::MAX ==> #[trigger] mkdir_req_bytes(path, mode) != b@,
            },
    {
        let r = Self::parse(b);
        proof {
            if r is Some {
                lemma_mkdir_req_parsed(b@);
            } else {
                assert forall|path: Seq<u8>, mode: u32| path.len() <= u64::MAX implies #[trigger] mkdir_req_bytes(path, mode) != b@ by {
                    if mkdir_req_bytes(path, mode) == b@ {
                        lemma_mkdir_req_parse(path, mode);
                    }
                }
            }
        }
        r
    }
}

/// The answer to any request: `result` is negative on error, else a count or a
/// descriptor; `page` holds `size` valid bytes for reads and is empty otherwise.
pub struct Response {
    pub result: i32,
    pub size: usize,
    pub page: Vec<u8>,
}

/// The bytes of a response.
pub open spec fn response_bytes(result: i32, size: usize, page: Seq<u8>) -> Seq<u8> {
    le_i32(result) + le_usize(size) + blob(page)
}

/// Reads a response that fills `b` exactly.
pub open spec fn parse_response(b: Seq<u8>) -> Option<(i32, usize, Seq<u8>)> {
    match read32(b, 0) {
        None => None,
        Some((result_bits, p1)) => {
            match read64(b, p1) {
                None => None,
                Some((size_bits, p2)) => if size_bits > usize::MAX {
                    None
                } else {
                    match read_blob(b, p2) {
                        None => None,
                        Some((page, p3)) => {
                            if p3 == b.len() {
                                Some((result_bits as i32, size_bits as usize, page))
                            } else {
                                None
                            }
                        },
                    }
                },
            }
        },
    }
}

proof fn lemma_response_parse(result: i32, size: usize, page: Seq<u8>)
    requires
        page.len() <= u64::MAX,
    ensures
        parse_response(response_bytes(result, size, page)) == Some((result, size, page)),
{
    lemma_le32_len(result as u32);
    lemma_le64_len(size as u64);
    lemma_le64_len(page.len() as u64);
    let b = response_bytes(result, size, page);
    let pre0 = Seq::<u8>::empty();
    let post0 = le_usize(size) + blob(page);
    assert(b =~= pre0 + le_i32(result) + post0);
    lemma_read32_at(pre0, result as u32, post0);
    lemma_i32_bits(result);
    let pre1 = le_i32(result);
    let post1 = blob(page);
    assert(b =~= pre1 + le_usize(size) + post1);
    lemma_read64_at(pre1, size as u64, post1);
    let pre2 = le_i32(result) + le_usize(size);
    let post2 = Seq::<u8>::empty();
    assert(b =~= pre2 + blob(page) + post2);
    lemma_read_blob_at(pre2, page, post2);
}

proof fn lemma_response_parsed(b: Seq<u8>)
    requires
        parse_response(b) is Some,
    ensures
        b == response_bytes(parse_response(b).unwrap().0, parse_response(b).unwrap().1, parse_response(b).unwrap().2),
{
    let (result, p1) = read32(b, 0).unwrap();
    lemma_read32_span(b, 0);
    lemma_u32_bits(result);
    let (size, p2) = read64(b, p1).unwrap();
    lemma_read64_span(b, p1);
    let (page, p3) = read_blob(b, p2).unwrap();
    lemma_read_blob_span(b, p2);
    assert(b =~= b.subrange(0, p1) + b.subrange(p1, p2) + b.subrange(p2, p3));
}

/// Decoding the bytes of a response gives back every field unchanged: no two
/// distinct responses share an encoding.
pub proof fn lemma_response_round_trip(result: i32, size: usize, page: Seq<u8>, result2: i32, size2: usize, page2: Seq<u8>)
    requires
        page.len() <= u64::MAX,
        response_bytes(result, size, page) == response_bytes(result2, size2, page2),
    ensures
        result == result2 && size == size2 && page == page2,
{
    lemma_le32_len(result as u32);
    lemma_le64_len(size as u64);
    lemma_le64_len(page.len() as u64);
    lemma_le32_len(result2 as u32);
    lemma_le64_len(size2 as u64);
    lemma_le64_len(page2.len() as u64);
    lemma_response_parse(result, size, page);
    lemma_response_parse(result2, size2, page2);
}

impl Response {
    /// The bytes of this value.
    pub fn encode(&self) -> (r: Vec<u8>)
        ensures
            r@ == response_bytes(self.result, self.size, self.page@),
    {
        let mut out: Vec<u8> = Vec::new();
        put_u32(&mut out, self.result as u32);
        put_u64(&mut out, self.size as u64);
        put_blob(&mut out, self.page.as_slice());
        assert(out@ =~= response_bytes(self.result, self.size, self.page@));
        out
    }

    fn parse(b: &[u8]) -> (r: Option<Response>)
        ensures
            match r {
                Some(x) => parse_response(b@) == Some((x.result, x.size, x.page@)),
                None => parse_response(b@) is None,
            },
    {
        match get_u32(b, 0) {
            None => None,
            Some((result_bits, p1)) => {
                let result = result_bits as i32;
                match get_u64(b, p1) {
                    None => None,
                    Some((size_bits, p2)) => if size_bits > usize::MAX as u64 {
                        None
                    } else {
                        let size = size_bits as usize;
                        match get_blob(b, p2) {
                            None => None,
                            Some((page, p3)) => {
                                if p3 == b.len() {
                                    Some(Response { result, size, page })
                                } else {
                                    None
                                }
                            },
                        }
                    },
                }
            },
        }
    }

    /// The value whose bytes are exactly `b`, if there is one.
    pub fn decode(b: &[u8]) -> (r: Option<Response>)
        ensures
            match r {
                Some(x) => response_bytes(x.result, x.size, x.page@) == b@,
                None => forall|result: i32, size: usize, page: Seq<u8>| page.len() <= u64::MAX ==> #[trigger] response_bytes(result, size, page) != b@,
            },
    {
        let r = Self::parse(b);
        proof {
            if r is Some {
                lemma_response_parsed(b@);
            } else {
                assert forall|result: i32, size: usize, page: Seq<u8>| page.len() <= u64::MAX implies #[trigger] response_bytes(result, size, page) != b@ by {
                    if response_bytes(result, size, page) == b@ {
                        lemma_response_parse(result, size, page);
                    }
                }
            }
        }
        r
    }
}

} // verus!
