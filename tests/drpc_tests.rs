use fxmark::drpc::{
    frame, split_frame, CloseReq, MkdirReq, OpenReq, ReadReq, RemoveReq, Response, WriteReq, DRPC,
};

#[test]
fn opcodes_round_trip() {
    let ops = [
        DRPC::Open,
        DRPC::Read,
        DRPC::PRead,
        DRPC::Write,
        DRPC::PWrite,
        DRPC::Close,
        DRPC::Remove,
        DRPC::MkDir,
        DRPC::RmDir,
    ];
    for (i, op) in ops.iter().enumerate() {
        assert_eq!(op.code() as usize, i + 1);
        assert_eq!(DRPC::from_code(op.code()), Some(*op));
    }
    assert_eq!(DRPC::from_code(0), None);
    assert_eq!(DRPC::from_code(10), None);
}

#[test]
fn open_request_layout() {
    let r = OpenReq { path: b"ab".to_vec(), flags: -2, mode: 0x1c0 };
    let b = r.encode();
    assert_eq!(b, vec![2, 0, 0, 0, 0, 0, 0, 0, b'a', b'b', 0xfe, 0xff, 0xff, 0xff, 0xc0, 1, 0, 0]);
    let d = OpenReq::decode(&b).unwrap();
    assert_eq!(d.path, b"ab".to_vec());
    assert_eq!(d.flags, -2);
    assert_eq!(d.mode, 0x1c0);
}

#[test]
fn read_request_round_trip() {
    let r = ReadReq { fd: i32::MIN, size: usize::MAX, offset: i64::MIN };
    let d = ReadReq::decode(&r.encode()).unwrap();
    assert_eq!((d.fd, d.size, d.offset), (i32::MIN, usize::MAX, i64::MIN));
}

#[test]
fn write_request_round_trip() {
    let page = b"WriteReadTest".to_vec();
    let r = WriteReq { fd: 3, page: page.clone(), size: page.len(), offset: 0 };
    let d = WriteReq::decode(&r.encode()).unwrap();
    assert_eq!(d.fd, 3);
    assert_eq!(d.page, page);
    assert_eq!(d.size, 13);
    assert_eq!(d.offset, 0);
}

#[test]
fn large_page_round_trip() {
    let page: Vec<u8> = (0..4096u32).map(|i| (i % 251) as u8).collect();
    let r = WriteReq { fd: 7, page: page.clone(), size: page.len(), offset: -1 };
    let d = WriteReq::decode(&r.encode()).unwrap();
    assert_eq!(d.page, page);
    assert_eq!(d.offset, -1);
}

#[test]
fn close_remove_mkdir_round_trip() {
    assert_eq!(CloseReq::decode(&CloseReq { fd: 42 }.encode()).unwrap().fd, 42);
    let empty = RemoveReq { path: Vec::new() };
    assert_eq!(empty.encode().len(), 8);
    assert_eq!(RemoveReq::decode(&empty.encode()).unwrap().path, Vec::<u8>::new());
    let m = MkdirReq::decode(&MkdirReq { path: b"/mnt/d".to_vec(), mode: 0o755 }.encode()).unwrap();
    assert_eq!(m.path, b"/mnt/d".to_vec());
    assert_eq!(m.mode, 0o755);
}

#[test]
fn response_round_trip() {
    let empty = Response { result: -1, size: 0, page: Vec::new() };
    let d = Response::decode(&empty.encode()).unwrap();
    assert_eq!((d.result, d.size, d.page.len()), (-1, 0, 0));
    let full = Response { result: 13, size: 13, page: b"WriteReadTest".to_vec() };
    let d = Response::decode(&full.encode()).unwrap();
    assert_eq!(d.result, 13);
    assert_eq!(d.page, b"WriteReadTest".to_vec());
}

#[test]
fn truncated_or_padded_input_is_refused() {
    let b = OpenReq { path: b"file".to_vec(), flags: 0, mode: 0 }.encode();
    for n in 0..b.len() {
        assert!(OpenReq::decode(&b[..n]).is_none());
    }
    let mut longer = b.clone();
    longer.push(0);
    assert!(OpenReq::decode(&longer).is_none());
    // a byte field whose declared length runs past the buffer
    let bad = vec![100, 0, 0, 0, 0, 0, 0, 0, 1, 2];
    assert!(RemoveReq::decode(&bad).is_none());
}

#[test]
fn frames_carry_opcode_and_body() {
    let body = ReadReq { fd: 1, size: 1024, offset: 0 }.encode();
    let msg = frame(DRPC::PRead, &body);
    assert_eq!(msg[0], 3);
    let (op, rest) = split_frame(&msg).unwrap();
    assert_eq!(op, DRPC::PRead);
    assert_eq!(rest, &body[..]);
    assert!(split_frame(&[]).is_none());
    assert!(split_frame(&[42, 0]).is_none());
}
