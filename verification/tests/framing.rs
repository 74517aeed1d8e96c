use std::collections::HashMap;

use serde_json::Value;

use quelay::error::QueLayError;
use quelay::framing::{
    connect_header, deserialize_error, encode_chunk, read_chunk, read_chunk_header, read_preamble,
    read_stream_open, read_wormhole_msg, reconnect_header, serialize_error, write_chunk, write_connect_header,
    write_reconnect_header, write_wormhole_msg, OpenKind, ReconnectHeader, StreamHeader,
    CHUNK_HEADER_LEN, CHUNK_SIZE, MAGIC, MAX_JSON_PAYLOAD, OP_NEW_STREAM, OP_RECONNECT, VERSION,
};
use quelay::ids::{id_from_text, id_to_text, new_id};
use quelay::priority::Priority;
use quelay::session::{StreamInfo, StreamMeta};
use quelay::spool::SpoolBuffer;

fn header_json(h: &StreamHeader) -> Vec<u8> {
    let mut attrs = serde_json::Map::new();
    for (k, v) in &h.attrs {
        attrs.insert(k.clone(), Value::from(v.clone()));
    }
    let mut m = serde_json::Map::new();
    m.insert("uuid".to_string(), Value::from(id_to_text(h.uuid)));
    m.insert("priority".to_string(), Value::from(h.priority));
    m.insert(
        "size_bytes".to_string(),
        match h.size_bytes {
            Some(n) => Value::from(n),
            None => Value::Null,
        },
    );
    m.insert("attrs".to_string(), Value::Object(attrs));
    serde_json::to_vec(&Value::Object(m)).unwrap()
}

fn header_from_json(payload: &[u8]) -> Result<StreamHeader, QueLayError> {
    let v: Value = serde_json::from_slice(payload)
        .map_err(|e| deserialize_error("framing", &e.to_string()))?;
    let mut attrs = HashMap::new();
    for (k, a) in v["attrs"].as_object().unwrap() {
        attrs.insert(k.clone(), a.as_str().unwrap().to_string());
    }
    Ok(StreamHeader {
        uuid: id_from_text(v["uuid"].as_str().unwrap()).unwrap(),
        priority: v["priority"].as_u64().unwrap() as u8,
        size_bytes: v["size_bytes"].as_u64(),
        attrs,
    })
}

#[test]
fn round_trip_new_stream() {
    let mut attrs = HashMap::new();
    attrs.insert("filename".to_string(), "telemetry.bin".to_string());
    attrs.insert(
        "content_type".to_string(),
        "application/octet-stream".to_string(),
    );
    let original = StreamHeader {
        uuid: new_id(),
        priority: 64,
        size_bytes: Some(1_048_576),
        attrs,
    };

    let mut buf = write_connect_header(&header_json(&original)).unwrap();
    buf.extend_from_slice(b"raw-data");

    let open = read_stream_open(&buf).unwrap();
    assert_eq!(open.kind, OpenKind::New, "expected New, got {:?}", open.kind);
    let recovered = header_from_json(&open.payload).unwrap();

    assert_eq!(recovered.uuid, original.uuid);
    assert_eq!(recovered.priority, original.priority);
    assert_eq!(recovered.size_bytes, original.size_bytes);
    assert_eq!(recovered.attrs["filename"], "telemetry.bin");
    assert_eq!(recovered.attrs["content_type"], "application/octet-stream");

    assert_eq!(&buf[open.consumed..], b"raw-data");
}

#[test]
fn round_trip_reconnect() {
    let original = ReconnectHeader {
        uuid: new_id(),
        replay_from: 524_288,
    };
    let mut m = serde_json::Map::new();
    m.insert("uuid".to_string(), Value::from(id_to_text(original.uuid)));
    m.insert("replay_from".to_string(), Value::from(original.replay_from));
    let payload = serde_json::to_vec(&Value::Object(m)).unwrap();

    let buf = write_reconnect_header(&payload).unwrap();
    let open = read_stream_open(&buf).unwrap();
    assert_eq!(
        open.kind,
        OpenKind::Reconnect,
        "expected Reconnect, got {:?}",
        open.kind
    );
    let v: Value = serde_json::from_slice(&open.payload).unwrap();

    assert_eq!(id_from_text(v["uuid"].as_str().unwrap()), Ok(original.uuid));
    assert_eq!(v["replay_from"].as_u64(), Some(original.replay_from));
}

#[test]
fn payload_size_clamped() {
    let len = MAX_JSON_PAYLOAD as u32;
    let mut buf = vec![MAGIC, VERSION, OP_NEW_STREAM, 0x00];
    buf.extend_from_slice(&len.to_be_bytes());
    buf.extend(std::iter::repeat(b' ').take(MAX_JSON_PAYLOAD));

    let open = read_stream_open(&buf).unwrap();
    let err = header_from_json(&open.payload).unwrap_err().message();
    assert!(err.contains("deserialize"), "unexpected error: {err}");

    let over = MAX_JSON_PAYLOAD as u32 + 1;
    let mut buf2 = vec![MAGIC, VERSION, OP_NEW_STREAM, 0x00];
    buf2.extend_from_slice(&over.to_be_bytes());

    let err2 = read_stream_open(&buf2).unwrap_err().message();
    assert!(err2.contains("exceeds max"), "unexpected error: {err2}");
}

#[test]
fn bad_magic_rejected() {
    let buf = vec![0xFFu8, VERSION, OP_NEW_STREAM, 0x00, 0, 0, 0, 2, b'{', b'}'];
    let err = read_stream_open(&buf).unwrap_err().message();
    assert!(err.contains("bad magic"));
    assert_eq!(
        err,
        "transport error: framing bad magic: expected 0x51, got 0xFF"
    );
}

#[test]
fn unknown_opcode_rejected() {
    let buf = vec![MAGIC, VERSION, 0xFFu8, 0x00, 0, 0, 0, 2, b'{', b'}'];
    let err = read_stream_open(&buf).unwrap_err().message();
    assert!(err.contains("unknown opcode"));
    assert_eq!(err, "transport error: framing unknown opcode: 0xFF");
}

#[test]
fn round_trip_chunk() {
    let offset = 131_072u64;
    let data = b"hello quelay chunk";

    let buf = write_chunk(offset, data).unwrap();
    assert_eq!(buf.len(), CHUNK_HEADER_LEN + data.len());

    let (chunk, consumed) = read_chunk(&buf).unwrap().unwrap();
    assert_eq!(chunk.stream_offset, offset);
    assert_eq!(chunk.payload, data);
    assert_eq!(consumed, buf.len());
}

#[test]
fn chunk_eof_returns_none() {
    let result = read_chunk(&[]).unwrap();
    assert!(result.is_none());
}

#[test]
fn chunk_oversize_rejected() {
    let bad_len = (CHUNK_SIZE + 1) as u16;
    let mut buf = vec![0u8; CHUNK_HEADER_LEN];
    buf[8..10].copy_from_slice(&bad_len.to_be_bytes());

    let err = read_chunk(&buf).unwrap_err().message();
    assert!(err.contains("exceeds CHUNK_SIZE"));
    assert_eq!(
        read_chunk_header(&buf).unwrap_err().message(),
        "transport error: chunk payload_len 16385 exceeds CHUNK_SIZE 16384"
    );
}

#[test]
fn frame_layout() {
    let buf = write_reconnect_header(b"{}").unwrap();
    assert_eq!(
        buf,
        vec![0x51, 0x01, OP_RECONNECT, 0x00, 0, 0, 0, 2, b'{', b'}']
    );
    assert_eq!(read_preamble("framing", &buf[..8]).unwrap(), 2);
}

#[test]
fn pad_is_ignored_on_read() {
    let buf = vec![MAGIC, VERSION, OP_NEW_STREAM, 0xAB, 0, 0, 0, 1, b'x'];
    let open = read_stream_open(&buf).unwrap();
    assert_eq!(open.payload, b"x");
}

#[test]
fn feedback_round_trip_and_errors() {
    let buf = write_wormhole_msg(b"{\"type\":\"Done\"}").unwrap();
    let frame = read_wormhole_msg(&buf).unwrap();
    assert_eq!(frame.payload, b"{\"type\":\"Done\"}");
    assert_eq!(frame.consumed, buf.len());

    let mut bad = buf.clone();
    bad[1] = 9;
    assert_eq!(
        read_wormhole_msg(&bad).unwrap_err().message(),
        "transport error: wormhole unsupported version: expected 0x01, got 0x09"
    );
    let mut any_opcode = buf.clone();
    any_opcode[2] = 0x77;
    assert!(read_wormhole_msg(&any_opcode).is_ok());
    let too_long = vec![b' '; MAX_JSON_PAYLOAD + 1];
    assert_eq!(
        write_wormhole_msg(&too_long).unwrap_err().message(),
        "transport error: wormhole payload 65536 exceeds max 65535"
    );
    assert_eq!(
        write_connect_header(&too_long).unwrap_err().message(),
        "transport error: framing payload 65536 exceeds max 65535"
    );
}

#[test]
fn truncated_frames_are_errors() {
    let buf = write_connect_header(b"{\"a\":1}").unwrap();
    for n in 0..buf.len() {
        assert!(read_stream_open(&buf[..n]).is_err(), "{n} bytes");
    }
    let chunk = write_chunk(7, b"abc").unwrap();
    for n in 1..chunk.len() {
        assert!(read_chunk(&chunk[..n]).is_err(), "{n} bytes");
    }
}

#[test]
fn chunk_encodings_agree() {
    assert_eq!(encode_chunk(513, b"xy"), write_chunk(513, b"xy").unwrap());
    assert_eq!(
        encode_chunk(513, b"xy"),
        vec![0, 0, 0, 0, 0, 0, 2, 1, 0, 2, b'x', b'y']
    );
    let too_long = vec![0u8; 65_536];
    assert_eq!(
        write_chunk(0, &too_long).unwrap_err().message(),
        "transport error: chunk payload exceeds 65535 bytes"
    );
}

#[test]
fn json_errors_have_texts() {
    assert_eq!(
        deserialize_error("wormhole", "eof").message(),
        "transport error: wormhole deserialize error: eof"
    );
    assert_eq!(
        serialize_error("framing", "bad").message(),
        "transport error: framing serialize error: bad"
    );
}

#[test]
fn headers_of_streams() {
    let h = connect_header(StreamMeta {
        uuid: 5,
        priority: Priority::from_i8(64),
        info: StreamInfo {
            size_bytes: Some(9),
            attrs: HashMap::new(),
        },
    });
    assert_eq!((h.uuid, h.priority, h.size_bytes), (5, 64, Some(9)));
    let mut spool = SpoolBuffer::new();
    spool.push(b"abcdef");
    spool.ack(4);
    let r = reconnect_header(5, &spool);
    assert_eq!((r.uuid, r.replay_from), (5, 4));
}
