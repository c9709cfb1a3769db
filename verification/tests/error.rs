use automotive_wire_codec::{Incomplete, InsufficientBuffer, InvalidWidth, TrailingBytes};

#[test]
fn incomplete_display() {
    let e = Incomplete { needed: 4, available: 1 };
    assert_eq!(e.to_string(), "incomplete input: needed 4 bytes, 1 available");
}

#[test]
fn trailing_display() {
    assert_eq!(TrailingBytes(3).to_string(), "3 trailing bytes after decode");
}

#[test]
fn invalid_width_display() {
    let e = InvalidWidth { max: 16, got: 255 };
    assert_eq!(e.to_string(), "invalid width: got 255, max 16");
}

#[test]
fn insufficient_buffer_display() {
    let e = InsufficientBuffer { needed: 8, available: 4 };
    assert_eq!(e.to_string(), "insufficient buffer: needed 8 bytes, 4 available");
}

#[test]
fn messages_render_zero_and_large_counts() {
    let e = Incomplete { needed: 0, available: usize::MAX };
    assert_eq!(
        e.to_string(),
        format!("incomplete input: needed 0 bytes, {} available", usize::MAX)
    );
    assert_eq!(TrailingBytes(1_000_007).to_string(), "1000007 trailing bytes after decode");
    assert_eq!(TrailingBytes(10).to_string(), "10 trailing bytes after decode");
}
