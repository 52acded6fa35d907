use byte_order::stream::{read_exact, write_all};
use byte_order::{
    BoundedSink, ByteCursor, ByteOrder, ByteSink, ByteSource, Error, NumberReader, NumberWriter,
};

/// A source, without a model, that hands out its bytes and then reports a
/// failure of its own.
struct FailingSource {
    bytes: Vec<u8>,
    code: i32,
}

impl ByteSource for FailingSource {
    fn read(&mut self, buf: &mut [u8]) -> Result<usize, Error> {
        if self.bytes.is_empty() {
            return Err(Error::Io(std::io::Error::from_raw_os_error(self.code)));
        }
        let n = buf.len().min(self.bytes.len());
        buf[..n].copy_from_slice(&self.bytes[..n]);
        self.bytes.drain(..n);
        Ok(n)
    }
}

/// A sink, without a model, that takes one byte per call, then reports a
/// failure of its own.
struct FailingSink {
    taken: Vec<u8>,
    limit: usize,
}

impl ByteSink for FailingSink {
    fn write(&mut self, buf: &[u8]) -> Result<usize, Error> {
        if self.taken.len() >= self.limit {
            return Err(Error::Io(std::io::Error::from_raw_os_error(9)));
        }
        if buf.is_empty() {
            return Ok(0);
        }
        self.taken.push(buf[0]);
        Ok(1)
    }

    fn flush(&mut self) -> Result<(), Error> {
        Err(Error::Io(std::io::Error::from_raw_os_error(10)))
    }
}

#[test]
fn source_failure_is_passed_on() {
    let src = FailingSource { bytes: vec![1, 2], code: 5 };
    let mut r = NumberReader::with_order(ByteOrder::BE, src);
    assert!(matches!(r.read_u32(), Err(Error::Io(ref e)) if e.raw_os_error() == Some(5)));
    assert!(r.get_ref().bytes.is_empty());
}

#[test]
fn source_succeeds_before_it_fails() {
    let src = FailingSource { bytes: vec![0xAB, 0xCD], code: 7 };
    let mut r = NumberReader::with_order(ByteOrder::LE, src);
    assert_eq!(r.read_u16().ok(), Some(0xCDAB));
    assert!(matches!(r.read_u8(), Err(Error::Io(ref e)) if e.raw_os_error() == Some(7)));
}

#[test]
fn sink_failure_is_passed_on() {
    let sink = FailingSink { taken: vec![], limit: 2 };
    let mut w = NumberWriter::with_order(ByteOrder::BE, sink);
    assert!(matches!(w.write_u32(0x01020304), Err(Error::Io(ref e)) if e.raw_os_error() == Some(9)));
    assert_eq!(w.get_ref().taken, vec![1, 2]);
    assert!(matches!(w.flush(), Err(Error::Io(ref e)) if e.raw_os_error() == Some(10)));
}

#[test]
fn sink_taking_one_byte_at_a_time_gets_everything() {
    let sink = FailingSink { taken: vec![], limit: 100 };
    let mut w = NumberWriter::with_order(ByteOrder::LE, sink);
    assert_eq!(w.write_u64(0x0102030405060708).ok(), Some(()));
    assert_eq!(w.into_inner().taken, vec![8, 7, 6, 5, 4, 3, 2, 1]);
}

#[test]
fn read_exact_gathers_partial_reads() {
    let mut src = FailingSource { bytes: vec![1, 2, 3, 4], code: 3 };
    assert_eq!(read_exact(&mut src, 3).ok(), Some(vec![1, 2, 3]));
    assert_eq!(read_exact(&mut src, 0).ok(), Some(vec![]));
    assert!(matches!(read_exact(&mut src, 2), Err(Error::Io(ref e)) if e.raw_os_error() == Some(3)));
}

#[test]
fn read_exact_reports_early_end() {
    let mut src = ByteCursor::new(vec![1, 2]);
    assert!(matches!(read_exact(&mut src, 3), Err(Error::UnexpectedEof)));
    assert_eq!(src.position(), 2);
}

#[test]
fn write_all_keeps_going_until_done_or_full() {
    let mut sink = FailingSink { taken: vec![], limit: 10 };
    assert_eq!(write_all(&mut sink, &[4, 5, 6]).ok(), Some(()));
    assert_eq!(sink.taken, vec![4, 5, 6]);
    let mut bounded = BoundedSink::new(2);
    assert!(matches!(write_all(&mut bounded, &[7, 8, 9]), Err(Error::WriteZero)));
    assert_eq!(bounded.as_slice(), &[7, 8]);
}

/// A source, without a model, whose every read fails with a custom error.
struct ResetSource;

impl ByteSource for ResetSource {
    fn read(&mut self, _buf: &mut [u8]) -> Result<usize, Error> {
        Err(Error::Io(std::io::Error::new(std::io::ErrorKind::ConnectionReset, "peer gone")))
    }
}

#[test]
fn custom_error_comes_back_whole() {
    let mut r = NumberReader::with_order(ByteOrder::BE, ResetSource);
    match r.read_u64() {
        Err(Error::Io(e)) => {
            assert_eq!(e.kind(), std::io::ErrorKind::ConnectionReset);
            assert_eq!(e.to_string(), "peer gone");
        },
        other => panic!("expected the source's own error, got {:?}", other),
    }
}
