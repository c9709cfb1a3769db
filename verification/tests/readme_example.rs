use automotive_wire_codec::{
    read_u16_be, write_u16_be, Decode, Encode, Incomplete, Sink, SliceSink, TrailingBytes,
    WriteError,
};

#[derive(Debug, PartialEq)]
struct Ping {
    session_id: u16,
}

#[derive(Debug, PartialEq)]
enum PingError {
    Incomplete(Incomplete),
    TrailingBytes(TrailingBytes),
    Write(WriteError),
}
impl From<Incomplete> for PingError {
    fn from(e: Incomplete) -> Self {
        PingError::Incomplete(e)
    }
}
impl From<TrailingBytes> for PingError {
    fn from(e: TrailingBytes) -> Self {
        PingError::TrailingBytes(e)
    }
}
impl From<WriteError> for PingError {
    fn from(e: WriteError) -> Self {
        PingError::Write(e)
    }
}

impl<'a> Decode<'a> for Ping {
    type Error = PingError;
    fn decode(buf: &'a [u8]) -> Result<(Self, &'a [u8]), Self::Error> {
        let (session_id, rest) = read_u16_be(buf)?;
        Ok((Ping { session_id }, rest))
    }
}

impl Encode for Ping {
    type Error = PingError;
    fn encoded_size(&self) -> Result<usize, Self::Error> {
        Ok(2)
    }
    fn encode<S: Sink>(&self, sink: &mut S) -> Result<usize, Self::Error> {
        Ok(write_u16_be(sink, self.session_id)?)
    }
}

#[test]
fn readme_ping_round_trips() {
    let ping = Ping { session_id: 0x1234 };
    let mut buf = [0u8; 2];
    let mut writer = SliceSink::new(&mut buf);
    ping.encode(&mut writer).unwrap();

    let decoded = Ping::decode_exact(&buf).unwrap();
    assert_eq!(decoded, ping);
}

#[test]
fn readme_ping_rejects_trailing_and_short_input() {
    assert_eq!(
        Ping::decode_exact(&[0x12, 0x34, 0x56]),
        Err(PingError::TrailingBytes(TrailingBytes(1)))
    );
    assert_eq!(
        Ping::decode_exact(&[0x12]),
        Err(PingError::Incomplete(Incomplete { needed: 2, available: 1 }))
    );
    let (p, rest) = Ping::decode(&[0xAB, 0xCD, 0xEF]).unwrap();
    assert_eq!(p, Ping { session_id: 0xABCD });
    assert_eq!(rest, &[0xEF]);
}
