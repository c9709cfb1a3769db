use automotive_wire_codec::{
    write_u16_be, CountingSink, Encode, InsufficientBuffer, Sink, SliceSink, WriteError,
};

#[derive(Debug, Eq, PartialEq)]
enum TestErr {
    Write(WriteError),
    Value,
}
impl From<WriteError> for TestErr {
    fn from(e: WriteError) -> Self {
        TestErr::Write(e)
    }
}

struct Val(u16);
impl Encode for Val {
    type Error = TestErr;
    fn encoded_size(&self) -> Result<usize, TestErr> {
        Ok(2)
    }
    fn encode<S: Sink>(&self, sink: &mut S) -> Result<usize, TestErr> {
        Ok(write_u16_be(sink, self.0)?)
    }
}

// Uses the default encoded_size - no hand-written size at all.
struct TwoVals(u16, u16);
impl Encode for TwoVals {
    type Error = TestErr;
    fn encode<S: Sink>(&self, sink: &mut S) -> Result<usize, TestErr> {
        let mut n = write_u16_be(sink, self.0)?;
        n += write_u16_be(sink, self.1)?;
        Ok(n)
    }
}

// Fails for a VALUE reason: default encoded_size must surface it, not panic.
struct Rejecting;
impl Encode for Rejecting {
    type Error = TestErr;
    fn encode<S: Sink>(&self, _sink: &mut S) -> Result<usize, TestErr> {
        Err(TestErr::Value)
    }
}

#[test]
fn encode_writes_and_counts() {
    let mut buf = [0u8; 4];
    let mut sink = SliceSink::new(&mut buf);
    let n = Val(0xABCD).encode(&mut sink).unwrap();
    assert_eq!(n, 2);
    assert_eq!(&buf[..2], &[0xAB, 0xCD]);
}

#[test]
fn default_encoded_size_counts_actual_bytes() {
    assert_eq!(TwoVals(1, 2).encoded_size().unwrap(), 4);
}

#[test]
fn default_encoded_size_surfaces_value_errors() {
    assert_eq!(TwoVals(1, 2).encoded_size().unwrap(), 4);
    assert_eq!(Rejecting.encoded_size(), Err(TestErr::Value));
}

#[test]
fn override_still_supported() {
    assert_eq!(Val(0xABCD).encoded_size().unwrap(), 2);
}

#[test]
fn encode_to_slice_writes_and_counts() {
    let mut buf = [0u8; 4];
    assert_eq!(Val(0xABCD).encode_to_slice(&mut buf).unwrap(), 2);
    assert_eq!(&buf[..2], &[0xAB, 0xCD]);
}

#[test]
fn encode_to_slice_too_small_reports_counts_in_self_error() {
    let mut buf = [0u8; 1];
    assert_eq!(
        Val(0xABCD).encode_to_slice(&mut buf),
        Err(TestErr::Write(WriteError::Insufficient(InsufficientBuffer {
            needed: 2,
            available: 1
        })))
    );
}

#[test]
fn encode_to_slice_propagates_value_errors() {
    let mut buf = [0u8; 8];
    assert_eq!(Rejecting.encode_to_slice(&mut buf), Err(TestErr::Value));
}

// Counts encode() invocations; uses the default (counting) encoded_size.
struct CountsEncodes<'a>(&'a core::cell::Cell<u32>);
impl Encode for CountsEncodes<'_> {
    type Error = TestErr;
    fn encode<S: Sink>(&self, sink: &mut S) -> Result<usize, TestErr> {
        self.0.set(self.0.get() + 1);
        Ok(write_u16_be(sink, 0xABCD)?)
    }
}

#[test]
fn encode_to_slice_is_single_pass_on_success() {
    let calls = core::cell::Cell::new(0);
    let mut buf = [0u8; 4];
    assert_eq!(CountsEncodes(&calls).encode_to_slice(&mut buf).unwrap(), 2);
    assert_eq!(calls.get(), 1);
}

#[test]
fn encode_to_slice_is_single_pass_on_failure() {
    let calls = core::cell::Cell::new(0);
    let mut buf = [0u8; 1];
    assert!(CountsEncodes(&calls).encode_to_slice(&mut buf).is_err());
    assert_eq!(calls.get(), 1);
}

#[test]
fn counting_sink_backs_encode() {
    let mut sink = CountingSink::new();
    assert_eq!(Val(0xABCD).encode(&mut sink).unwrap(), 2);
    assert_eq!(sink.count(), 2);
    Val(0x0102).encode(&mut sink).unwrap();
    assert_eq!(sink.count(), 4);
}

#[test]
fn counting_sink_is_unbounded() {
    let mut sink = CountingSink::new();
    assert_eq!(sink.remaining(), usize::MAX);
    assert!(sink.write_all(&[1, 2, 3]).is_ok());
    assert_eq!(sink.count(), 3);
    assert_eq!(sink.remaining(), usize::MAX);
}

#[test]
fn two_vals_overflowing_a_slice_report_bytes_reached() {
    let mut buf = [0u8; 3];
    assert_eq!(
        TwoVals(0x0102, 0x0304).encode_to_slice(&mut buf),
        Err(TestErr::Write(WriteError::Insufficient(InsufficientBuffer {
            needed: 4,
            available: 3
        })))
    );
    // the first write landed; the failing one left the rest untouched
    assert_eq!(buf, [0x01, 0x02, 0x00]);
}

/// A sink that accepts everything and reports no bound.
struct NullSink;
impl Sink for NullSink {
    fn write_all(&mut self, _buf: &[u8]) -> Result<(), WriteError> {
        Ok(())
    }
    fn remaining(&self) -> usize {
        usize::MAX
    }
}

#[test]
fn unbounded_sink_reports_sentinel() {
    let mut s = NullSink;
    assert!(s.write_all(&[1, 2, 3]).is_ok());
    assert_eq!(s.remaining(), usize::MAX);
}

#[test]
fn encode_to_slice_leaves_bytes_past_the_encoding() {
    let mut buf = [7u8; 5];
    assert_eq!(TwoVals(0x0102, 0x0304).encode_to_slice(&mut buf).unwrap(), 4);
    assert_eq!(buf, [1, 2, 3, 4, 7]);
}

#[test]
fn encoded_size_matches_encode_to_slice() {
    let mut buf = [0u8; 8];
    let written = TwoVals(9, 10).encode_to_slice(&mut buf).unwrap();
    assert_eq!(Ok(written), TwoVals(9, 10).encoded_size());
}

#[test]
fn encode_to_slice_needed_counts_through_the_failing_write() {
    // The first write fits, the second does not: needed = 2 written + 2.
    let mut buf = [0u8; 3];
    assert_eq!(
        TwoVals(1, 2).encode_to_slice(&mut buf),
        Err(TestErr::Write(WriteError::Insufficient(InsufficientBuffer { needed: 4, available: 3 })))
    );
    let mut one = [0u8; 1];
    assert_eq!(
        TwoVals(1, 2).encode_to_slice(&mut one),
        Err(TestErr::Write(WriteError::Insufficient(InsufficientBuffer { needed: 2, available: 1 })))
    );
}
