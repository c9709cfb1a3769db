use automotive_wire_codec::{
    finish_exact, read_array, read_u8, Decode, DecodeIter, Incomplete, TrailingBytes,
};

#[derive(Debug, PartialEq)]
enum TestErr {
    Incomplete(Incomplete),
    Trailing(TrailingBytes),
}
impl From<Incomplete> for TestErr {
    fn from(e: Incomplete) -> Self {
        TestErr::Incomplete(e)
    }
}
impl From<TrailingBytes> for TestErr {
    fn from(e: TrailingBytes) -> Self {
        TestErr::Trailing(e)
    }
}

// A one-byte value for the Decode contract.
#[derive(Debug, PartialEq)]
struct One(u8);
impl<'a> Decode<'a> for One {
    type Error = TestErr;
    fn decode(buf: &'a [u8]) -> Result<(Self, &'a [u8]), TestErr> {
        let (b, rest) = read_u8(buf)?;
        Ok((One(b), rest))
    }
}

#[test]
fn decode_exact_consumes_whole_buffer() {
    assert_eq!(One::decode_exact(&[7]).unwrap(), One(7));
}

#[test]
fn decode_exact_reports_trailing_bytes() {
    let err = One::decode_exact(&[1, 2]).unwrap_err();
    assert_eq!(err, TestErr::Trailing(TrailingBytes(1)));
}

#[test]
fn decode_exact_passes_decode_errors_through() {
    assert_eq!(
        One::decode_exact(&[]),
        Err(TestErr::Incomplete(Incomplete { needed: 1, available: 0 }))
    );
}

#[test]
fn finish_exact_counts_what_remains() {
    let rest = [4u8, 5, 6];
    let r: Result<u8, TestErr> = finish_exact(Ok((9u8, &rest[..])));
    assert_eq!(r, Err(TestErr::Trailing(TrailingBytes(3))));
    let r: Result<u8, TestErr> = finish_exact(Ok((9u8, &rest[3..])));
    assert_eq!(r, Ok(9));
}

// A one-byte element for the DecodeIter contract; byte 0xFF simulates malformed.
#[derive(Debug, PartialEq)]
struct Elem(u8);
impl<'a> DecodeIter<'a> for Elem {
    type Error = TestErr;
    fn decode_next(buf: &'a [u8]) -> Result<Option<(Self, &'a [u8])>, TestErr> {
        match buf.first() {
            None => Ok(None),
            Some(&0xFF) => Err(Incomplete { needed: 2, available: 1 }.into()),
            Some(&b) => Ok(Some((Elem(b), &buf[1..]))),
        }
    }
}

#[test]
fn iter_yields_all_then_none() {
    let mut it = Elem::iter(&[1, 2, 3]);
    assert!(matches!(it.next(), Some(Ok(Elem(1)))));
    assert!(matches!(it.next(), Some(Ok(Elem(2)))));
    assert!(matches!(it.next(), Some(Ok(Elem(3)))));
    assert!(it.next().is_none());
}

#[test]
fn iter_stops_after_first_error() {
    let mut it = Elem::iter(&[1, 0xFF, 3]);
    assert!(matches!(it.next(), Some(Ok(Elem(1)))));
    assert!(matches!(it.next(), Some(Err(TestErr::Incomplete(_)))));
    assert!(it.next().is_none());
}

#[test]
fn iter_stays_done_after_clean_end() {
    let mut it = Elem::iter(&[]);
    assert!(it.next().is_none());
    assert!(it.next().is_none());
}

// A 3-byte fixed-stride element advertising WIRE_SIZE.
#[derive(Debug, PartialEq)]
struct Fixed3([u8; 3]);
impl<'a> DecodeIter<'a> for Fixed3 {
    type Error = TestErr;
    const WIRE_SIZE: Option<usize> = Some(3);
    fn decode_next(buf: &'a [u8]) -> Result<Option<(Self, &'a [u8])>, TestErr> {
        if buf.is_empty() {
            return Ok(None);
        }
        let (b, rest) = read_array::<3>(buf)?;
        Ok(Some((Fixed3(b), rest)))
    }
}

#[test]
fn remaining_len_reports_count_for_fixed_stride() {
    let buf = [0u8; 12];
    let mut it = Fixed3::iter(&buf);
    assert_eq!(it.remaining_len(), Some(4));
    it.next();
    assert_eq!(it.remaining_len(), Some(3));
}

#[test]
fn remaining_len_is_none_for_variable_width() {
    let it = Elem::iter(&[1, 2, 3]);
    assert_eq!(it.remaining_len(), None);
}

#[test]
fn remaining_len_is_zero_after_exhaustion_or_error() {
    let buf = [0u8; 3];
    let mut it = Fixed3::iter(&buf);
    it.next(); // consumes the only element
    it.next(); // Ok(None) -> done
    assert_eq!(it.remaining_len(), Some(0));
}

#[test]
fn partial_fixed_stride_tail_is_one_error_then_fused() {
    let buf = [1u8, 2, 3, 4];
    let mut it = Fixed3::iter(&buf);
    assert_eq!(it.remaining_len(), Some(2));
    assert!(matches!(it.next(), Some(Ok(Fixed3([1, 2, 3])))));
    assert!(matches!(
        it.next(),
        Some(Err(TestErr::Incomplete(Incomplete { needed: 3, available: 1 })))
    ));
    assert_eq!(it.remaining_len(), Some(0));
    assert!(it.next().is_none());
}

#[test]
fn remaining_len_counts_the_items_next_yields() {
    for len in 0usize..40 {
        let data: Vec<u8> = (0..len).map(|i| i as u8).collect();
        let mut it = Fixed3::iter(&data);
        let promised = it.remaining_len();
        assert_eq!(promised, Some(len.div_ceil(3)));
        let mut items = 0usize;
        let mut errors = 0usize;
        while let Some(item) = it.next() {
            items += 1;
            if item.is_err() {
                errors += 1;
            }
            assert_eq!(it.remaining_len(), Some(promised.unwrap() - items));
        }
        assert_eq!(Some(items), promised);
        assert_eq!(errors, usize::from(len % 3 != 0));
    }
}
