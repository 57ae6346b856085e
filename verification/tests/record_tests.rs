use xdrgen::record::{XdrRecordReader, XdrRecordWriter};

#[test]
fn recread_full() {
    let inbuf = vec![128, 0, 0, 10, 0, 1, 2, 3, 4, 5, 6, 7, 8, 9];
    let mut recread = XdrRecordReader::new(inbuf);

    let out = recread.read(20);
    assert_eq!(out.len(), 10);
    assert_eq!(out, vec![0, 1, 2, 3, 4, 5, 6, 7, 8, 9]);
    assert!(recread.eor());
}

#[test]
fn recread_short() {
    let inbuf = vec![128, 0, 0, 10, 0, 1, 2, 3, 4, 5, 6, 7, 8, 9];
    let mut recread = XdrRecordReader::new(inbuf);

    let out = recread.read(5);
    assert_eq!(out.len(), 5);
    assert!(recread.eor());
    assert_eq!(out, vec![0, 1, 2, 3, 4]);

    let out = recread.read(5);
    assert_eq!(out.len(), 5);
    assert!(recread.eor());
    assert_eq!(out, vec![5, 6, 7, 8, 9]);
}

#[test]
fn recread_half() {
    let inbuf = vec![0, 0, 0, 5, 0, 1, 2, 3, 4, 128, 0, 0, 5, 5, 6, 7, 8, 9];
    let mut recread = XdrRecordReader::new(inbuf);

    let out = recread.read(10);
    assert_eq!(out.len(), 5);
    assert_eq!(out, vec![0, 1, 2, 3, 4]);
    assert!(!recread.eor());

    let out = recread.read(10);
    assert_eq!(out.len(), 5);
    assert_eq!(out, vec![5, 6, 7, 8, 9]);
    assert!(recread.eor());
}

#[test]
fn read_zerorec() {
    let inbuf = vec![0, 0, 0, 0, 0, 0, 0, 0, 128, 0, 0, 0];
    let mut recread = XdrRecordReader::new(inbuf);

    let out = recread.read(100);
    assert_eq!(out.len(), 0);
    assert!(recread.eor());
}

#[test]
fn zerofrag_pair_ends_record() {
    let inbuf = vec![0, 0, 0, 0, 128, 0, 0, 0];
    let mut recread = XdrRecordReader::new(inbuf);

    let out = recread.read(64);
    assert_eq!(out.len(), 0);
    assert!(recread.eor());
}

#[test]
fn smallrec() {
    let mut xw = XdrRecordWriter::new();
    assert_eq!(xw.write(b"hello"), 5);
    let buf = xw.finish();

    assert_eq!(buf, vec![128, 0, 0, 5, 104, 101, 108, 108, 111])
}

#[test]
fn largerec() {
    let mut xw = XdrRecordWriter::with_buffer(3);
    assert_eq!(xw.write(b"hello"), 5);
    let buf = xw.finish();

    assert_eq!(buf, vec![0, 0, 0, 3, 104, 101, 108, 128, 0, 0, 2, 108, 111])
}

#[test]
fn largerec_flush() {
    let mut xw = XdrRecordWriter::with_buffer(10);
    assert_eq!(xw.write(b"hel"), 3);
    xw.flush();
    assert_eq!(xw.write(b"lo"), 2);
    xw.flush();
    let buf = xw.finish();

    assert_eq!(
        buf,
        vec![0, 0, 0, 3, 104, 101, 108, 0, 0, 0, 2, 108, 111, 128, 0, 0, 0]
    )
}

#[test]
fn truncated_header_is_end_of_stream() {
    let inbuf = vec![128, 0, 0, 3, 9, 8, 7, 0, 0];
    let mut recread = XdrRecordReader::new(inbuf);

    let out = recread.read(10);
    assert_eq!(out, vec![9, 8, 7]);
    let out = recread.read(10);
    assert_eq!(out.len(), 0);
}
