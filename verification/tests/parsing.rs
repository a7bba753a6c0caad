use zhttpsocket::packet::{hash, packet_to_string, parse_ids};
use zhttpsocket::tnetstring::{parse_frame, parse_string, FrameType, MapIterator};

#[test]
fn parse_text_frame() {
    let data = b"5:hello,";
    let (f, used) = parse_frame(data).unwrap();
    assert_eq!(f.ftype, FrameType::Text);
    assert_eq!(f.data, b"hello");
    assert_eq!(used, 8);
}

#[test]
fn parse_frame_with_trailing_bytes() {
    let data = b"2:hi,garbage";
    let (f, used) = parse_frame(data).unwrap();
    assert_eq!(f.ftype, FrameType::Text);
    assert_eq!(f.data, b"hi");
    assert_eq!(used, 5);
}

#[test]
fn parse_map_frame() {
    let data = b"26:2:id,3:a-1,4:body,5:world,}";
    let (f, used) = parse_frame(data).unwrap();
    assert_eq!(f.ftype, FrameType::Dict);
    assert_eq!(f.data, b"2:id,3:a-1,4:body,5:world,");
    assert_eq!(used, 30);
}

#[test]
fn parse_frame_rejects_malformed() {
    assert!(parse_frame(b"").is_err());
    assert!(parse_frame(b"abc").is_err());
    assert!(parse_frame(b"5:hi,").is_err());
    assert!(parse_frame(b"2:hi?").is_err());
    assert!(parse_frame(b":hi,").is_err());
    assert!(parse_frame(b"99999999999999999999:a,").is_err());
}

#[test]
fn parse_string_requires_text() {
    assert_eq!(parse_string(b"3:abc,").unwrap(), b"abc");
    assert!(parse_string(b"3:123#").is_err());
}

#[test]
fn map_iterator_walks_pairs() {
    let payload = b"2:id,3:a-1,4:body,5:world,";
    let mut it = MapIterator::new(payload);
    let first = it.next().unwrap().unwrap();
    assert_eq!(first.key, b"id");
    assert_eq!(first.value.data, b"a-1");
    let second = it.next().unwrap().unwrap();
    assert_eq!(second.key, b"body");
    assert_eq!(second.value.data, b"world");
    assert!(it.next().is_none());
}

#[test]
fn map_iterator_reports_malformed_pairs() {
    let payload = b"2:id,3:a-1,xx";
    let mut it = MapIterator::new(payload);
    let first = it.next().unwrap();
    assert!(first.is_ok());
    let second = it.next().unwrap();
    assert!(second.is_err());
}

#[test]
fn parse_ids_single() {
    let ids = parse_ids(b"T26:2:id,3:a-1,4:body,5:world,}").unwrap();
    assert_eq!(ids, vec![b"a-1".to_vec()]);
}

#[test]
fn parse_ids_list() {
    let ids = parse_ids(b"T21:2:id,12:3:a-1,3:b-2,]}").unwrap();
    assert_eq!(ids, vec![b"a-1".to_vec(), b"b-2".to_vec()]);
}

#[test]
fn parse_ids_errors() {
    assert!(parse_ids(b"").is_err());
    assert!(parse_ids(b"26:2:id,3:a-1,4:body,5:world,}").is_err());
    assert!(parse_ids(b"T15:4:body,5:world,}").is_err());
    assert!(parse_ids(b"T5:hello,").is_err());
    assert!(parse_ids(b"Tjunk").is_err());
}

#[test]
fn packet_to_string_framed_map() {
    let s = packet_to_string(b"T26:2:id,3:a-1,4:body,5:world,}");
    assert_eq!(s, "{ \"id\": \"a-1\" } 5 \"world\"");
}

#[test]
fn packet_to_string_addr_prefixed() {
    let s = packet_to_string(b"test T26:2:id,3:a-1,4:body,5:world,}");
    assert_eq!(s, "test { \"id\": \"a-1\" } 5 \"world\"");
}

#[test]
fn packet_to_string_error_shapes() {
    assert_eq!(packet_to_string(b""), "<packet is 0 bytes>");
    assert_eq!(packet_to_string(b"hello"), "<unexpected format>");
    assert_eq!(packet_to_string(b"addr "), "<payload is 0 bytes>");
    assert_eq!(packet_to_string(b"addr xyz"), "<unexpected format>");
    assert_eq!(packet_to_string(b"Tjunk"), "<parse failed>");
    assert_eq!(packet_to_string(b"T5:hello,"), "<not a map>");
}

#[test]
fn packet_to_string_skips_content_of_error_packets() {
    // an error packet that is not a rejection logs no content
    let s = packet_to_string(b"T30:4:type,5:error,4:body,5:world,}");
    assert_eq!(s, "{ \"type\": \"error\" }");
}

#[test]
fn packet_to_string_stops_short_on_malformed_map() {
    // a malformed pair ends the metadata rendering without the closing brace
    let s = packet_to_string(b"T7:2:id,xx}");
    assert_eq!(s, "{ ");
}

#[test]
fn packet_to_string_logs_content_of_rejections() {
    let s = packet_to_string(b"T51:4:type,5:error,9:condition,8:rejected,4:body,3:bad,}");
    assert_eq!(s, "{ \"type\": \"error\", \"condition\": \"rejected\" } 3 \"bad\"");
}

#[test]
fn hash_is_deterministic() {
    assert_eq!(hash(b"abc"), hash(b"abc"));
    assert_eq!(hash(b""), hash(b""));
}
