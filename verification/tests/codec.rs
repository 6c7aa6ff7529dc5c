use bytes::BytesMut;
use pow_service::messages::codec::PoWMessageCodec;

fn decoded(codec: &mut PoWMessageCodec, buffer: &mut BytesMut) -> Option<Vec<u8>> {
    codec.decode(buffer).map(|frame| frame.to_vec())
}

#[test]
fn encode_appends_text_and_newline() {
    let mut codec = PoWMessageCodec::default();
    let mut buffer = BytesMut::new();
    assert_eq!(codec.encode("{\"Register\":{\"name\":\"a\"}}", &mut buffer), Ok(()));
    assert_eq!(&buffer[..], b"{\"Register\":{\"name\":\"a\"}}\n");
    assert_eq!(codec.encode("", &mut buffer), Ok(()));
    assert_eq!(&buffer[..], b"{\"Register\":{\"name\":\"a\"}}\n\n");
}

#[test]
fn decode_gives_back_what_was_encoded() {
    let mut codec = PoWMessageCodec::default();
    let mut buffer = BytesMut::new();
    let texts = ["one", "", "three \u{1f600}", "{\"a\":[1,2]}"];
    for text in texts {
        codec.encode(text, &mut buffer).unwrap();
    }
    for text in texts {
        assert_eq!(decoded(&mut codec, &mut buffer), Some(text.as_bytes().to_vec()));
    }
    assert_eq!(decoded(&mut codec, &mut buffer), None);
    assert!(buffer.is_empty());
}

#[test]
fn decode_waits_for_the_newline() {
    let mut codec = PoWMessageCodec::default();
    let mut buffer = BytesMut::from(&b"hal"[..]);
    assert_eq!(decoded(&mut codec, &mut buffer), None);
    assert_eq!(&buffer[..], b"hal");
    buffer.extend_from_slice(b"f");
    assert_eq!(decoded(&mut codec, &mut buffer), None);
    buffer.extend_from_slice(b"\nrest");
    assert_eq!(decoded(&mut codec, &mut buffer), Some(b"half".to_vec()));
    assert_eq!(&buffer[..], b"rest");
    assert_eq!(decoded(&mut codec, &mut buffer), None);
    buffer.extend_from_slice(b"\n");
    assert_eq!(decoded(&mut codec, &mut buffer), Some(b"rest".to_vec()));
}

#[test]
fn frames_are_the_same_however_the_bytes_arrive() {
    let stream = b"first\n\nthird\nfourth";
    for size in 1..stream.len() {
        let mut codec = PoWMessageCodec::default();
        let mut buffer = BytesMut::new();
        let mut frames = Vec::new();
        for chunk in stream.chunks(size) {
            buffer.extend_from_slice(chunk);
            while let Some(frame) = decoded(&mut codec, &mut buffer) {
                frames.push(frame);
            }
        }
        assert_eq!(frames, vec![b"first".to_vec(), b"".to_vec(), b"third".to_vec()]);
        assert_eq!(&buffer[..], b"fourth");
    }
}

#[test]
fn empty_buffer_holds_no_frame() {
    let mut codec = PoWMessageCodec::default();
    let mut buffer = BytesMut::new();
    assert_eq!(decoded(&mut codec, &mut buffer), None);
}

#[test]
fn search_goes_on_behind_the_cursor() {
    let mut codec = PoWMessageCodec::default();
    let mut buffer = BytesMut::from(&b"abcd"[..]);
    assert_eq!(decoded(&mut codec, &mut buffer), None);
    let mut other = BytesMut::from(&b"a\nb"[..]);
    assert_eq!(decoded(&mut codec, &mut other), None);
    assert_eq!(&other[..], b"a\nb");
    let mut longer = BytesMut::from(&b"a\nbcd\ne"[..]);
    assert_eq!(decoded(&mut codec, &mut longer), Some(b"a\nbcd".to_vec()));
    assert_eq!(&longer[..], b"e");
}

#[test]
fn json_values_come_through_in_order() {
    let values = [
        serde_json::Value::String("two\nlines\n".to_string()),
        serde_json::Value::Null,
        serde_json::Value::from(vec![1u64, 2, u64::MAX]),
        serde_json::Value::String("\u{1f600}".to_string()),
    ];
    let mut codec = PoWMessageCodec::default();
    let mut buffer = BytesMut::new();
    for value in &values {
        codec.encode(&value.to_string(), &mut buffer).unwrap();
    }
    for value in &values {
        let frame = decoded(&mut codec, &mut buffer).unwrap();
        let read: serde_json::Value = serde_json::from_slice(&frame).unwrap();
        assert_eq!(read, *value);
    }
    assert_eq!(decoded(&mut codec, &mut buffer), None);
    assert!(buffer.is_empty());
}
