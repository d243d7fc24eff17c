use serde_json::Value;
use tideio::packet::{decode_packet, encode_packet, parse_buffers, replace_placeholders, Packet, PacketError, PlaceholderError};

fn object(entries: Vec<(&str, Value)>) -> Value {
    let mut m = serde_json::Map::new();
    for (k, v) in entries {
        m.insert(k.to_string(), v);
    }
    Value::Object(m)
}

fn text(s: &str) -> Value {
    Value::String(s.to_string())
}

fn placeholder(num: Value) -> Value {
    object(vec![("_placeholder", Value::Bool(true)), ("num", num)])
}

#[test]
fn decode_IO_CONNECT() {
    let encoded_connect = "0/admin,{\"sid\":\"oSO0OpakMV_3jnilAAAA\"}";
    let result = decode_packet(encoded_connect);
    assert!(result.is_ok());
    let packet = result.unwrap();
    match packet {
        Packet::CONNECT { namespace, data, id } => {
            println!("{} {}", data, id);
            assert_eq!(namespace, "/admin");
            assert_eq!(data, object(vec![("sid", text("oSO0OpakMV_3jnilAAAA"))]));
        }
        _ => panic!("Expected ACK packet but got a different variant: {:?}", packet),
    }
}

#[test]
fn decode_IO_EVENT() {
    let encoded_event = "2/admin,[\"bar\"]";
    let result = decode_packet(encoded_event);
    assert!(result.is_ok());
    let packet = result.unwrap();
    match packet {
        Packet::EVENT { namespace, data, .. } => {
            assert_eq!(namespace, "/admin");
            assert_eq!(data, vec![Value::String("bar".to_string())]);
        }
        _ => panic!("Expected ACK packet but got a different variant"),
    }
}

#[test]
fn decode_IO_EVENT_LONG() {
    let encoded_event = "2/admin,[\"bar\",\"bar1\",\"bar2\"]";
    let result = decode_packet(encoded_event);
    assert!(result.is_ok());
    let packet = result.unwrap();
    match packet {
        Packet::EVENT { namespace, data, .. } => {
            assert_eq!(namespace, "/admin");
            assert_eq!(
                data,
                vec![
                    Value::String("bar".to_string()),
                    Value::String("bar1".to_string()),
                    Value::String("bar2".to_string())
                ]
            );
        }
        _ => panic!("Expected ACK packet but got a different variant"),
    }
}

#[test]
fn decode_IO_EVENT_REAL() {
    let encoded_event = "2[\"bind\",{\"user_id\":\"1\"}]";
    let result = decode_packet(encoded_event);
    assert!(result.is_ok());
    let packet = result.unwrap();
    match packet {
        Packet::EVENT { namespace, data, .. } => {
            assert_eq!(namespace, "/");
            assert_eq!(
                data,
                vec![Value::String("bind".to_string()), object(vec![("user_id", text("1"))])]
            );
        }
        _ => panic!("Expected ACK packet but got a different variant"),
    }
}

#[test]
fn decode_IO_CONNECT_ERROR() {
    let encoded_connect_error = "4{\"message\":\"Not authorized\"}";
    let result = decode_packet(encoded_connect_error);
    assert!(result.is_ok());
    let packet = result.unwrap();
    match packet {
        Packet::CONNECT_ERROR { namespace, data, .. } => {
            println!("{}", data);
            assert_eq!(namespace, "/");
            assert_eq!(data, object(vec![("message", text("Not authorized"))]));
        }
        _ => panic!("Expected ACK packet but got a different variant: {:?}", packet),
    }
}

#[test]
fn decode_IO_CONNECT_DEFAULT() {
    let encoded_connect_error = "0{\"message\":\"Not authorized\"}";
    let result = decode_packet(encoded_connect_error);
    assert!(result.is_ok());
    let packet = result.unwrap();
    match packet {
        Packet::CONNECT { namespace, data, .. } => {
            println!("{}", data);
            assert_eq!(namespace, "/");
            assert_eq!(data, object(vec![("message", text("Not authorized"))]));
        }
        _ => panic!("Expected ACK packet but got a different variant: {:?}", packet),
    }
}

#[test]
fn decode_IO_ACK_PAYLOAD() {
    let encoded_ack = "3{\"message\":\"Not authorized\"}";
    let result = decode_packet(encoded_ack);
    assert!(result.is_ok());
    let packet = result.unwrap();
    match packet {
        Packet::ACK { namespace, data, .. } => {
            println!("{}", data);
            assert_eq!(namespace, "/");
            assert_eq!(data, object(vec![("message", text("Not authorized"))]));
        }
        _ => panic!("Expected ACK packet but got a different variant: {:?}", packet),
    }
}

#[test]
fn decode_IO_ACK() {
    let encoded_ack = "3";
    let result = decode_packet(encoded_ack);
    assert!(result.is_ok());
    let packet = result.unwrap();
    match packet {
        Packet::ACK { namespace, data, .. } => {
            println!("{}", data);
            assert_eq!(namespace, "/");
            assert_eq!(data, object(vec![]));
        }
        _ => panic!("Expected ACK packet but got a different variant: {:?}", packet),
    }
}

#[test]
fn decode_BINARY_EVENT_1() {
    let encoded_ack = "51-[\"baz\",{\"_placeholder\":true,\"num\":0}]
                            + <Buffer <01 02 03 04>>";
    let result = decode_packet(encoded_ack);
    assert!(result.is_ok());
    let packet = result.unwrap();
    match packet {
        Packet::BINARY_EVENT { namespace, data, .. } => {
            assert_eq!(namespace, "/");
            assert_eq!(data, vec![String::from("baz"), String::from("AQIDBA==")]);
        }
        _ => panic!("Expected ACK packet but got a different variant: {:?}", packet),
    }
}

#[test]
fn decode_BINARY_EVENT_2() {
    let encoded_ack = "52-/admin,[\"baz\",{\"_placeholder\":true,\"num\":0},{\"_placeholder\":true,\"num\":1}]
                        + <Buffer <01 02>>
                        + <Buffer <03 04>>";
    let result = decode_packet(encoded_ack);
    println!("{}", result.is_ok());
    assert!(result.is_ok());
    let packet = result.unwrap();
    match packet {
        Packet::BINARY_EVENT { namespace, data, .. } => {
            println!("{:?}", data);
            assert_eq!(namespace, "/admin");
            assert_eq!(
                data,
                vec![String::from("baz"), String::from("AQI="), String::from("AwQ=")]
            );
        }
        _ => panic!("Expected ACK packet but got a different variant: {:?}", packet),
    }
}

#[test]
fn decode_BINARY_EVENT_ID_2() {
    let encoded_ack = "52-/admin,12[\"baz\",{\"_placeholder\":true,\"num\":0},{\"_placeholder\":true,\"num\":1}]
                        + <Buffer <01 02>>
                        + <Buffer <03 04>>";
    let result = decode_packet(encoded_ack);
    println!("{}", result.is_ok());
    assert!(result.is_ok());
    let packet = result.unwrap();
    match packet {
        Packet::BINARY_EVENT { namespace, data, id } => {
            assert_eq!(namespace, "/admin");
            assert_eq!(
                data,
                vec![String::from("baz"), String::from("AQI="), String::from("AwQ=")]
            );
            assert_eq!(id, String::from("12"));
        }
        _ => panic!("Expected ACK packet but got a different variant: {:?}", packet),
    }
}

#[test]
fn encode_IO_EVENT() {
    let payload = vec![Value::String("bar".to_string())];
    let packet = Packet::EVENT {
        id: String::from(""),
        namespace: String::from("/admin"),
        data: payload.clone(),
    };
    let encoded_result = encode_packet(packet).unwrap();

    let encoded_event = String::from("42/admin,[\"bar\"]");
    assert_eq!(encoded_result, encoded_event);
}

#[test]
fn encode_IO_EVENT_LONG() {
    let payload = vec![
        Value::String("bar".to_string()),
        Value::String("bar1".to_string()),
        Value::String("bar2".to_string()),
    ];

    let packet = Packet::EVENT {
        id: String::from(""),
        namespace: String::from("/admin"),
        data: payload.clone(),
    };
    let encoded_result = encode_packet(packet).unwrap();

    let encoded_event = String::from("42/admin,[\"bar\",\"bar1\",\"bar2\"]");
    assert_eq!(encoded_result, encoded_event);
}

#[test]
fn encode_event_default_namespace_and_id() {
    let packet = Packet::EVENT {
        id: String::from("7"),
        namespace: String::from("/"),
        data: vec![text("a"), Value::from(1u64)],
    };
    assert_eq!(encode_packet(packet).unwrap(), "427[\"a\",1]");
}

#[test]
fn encode_other_kinds_not_implemented() {
    let packet = Packet::ACK { id: String::new(), namespace: String::from("/"), data: Value::Null };
    assert_eq!(encode_packet(packet).unwrap(), "Not Implemented Yet");
    let packet = Packet::BINARY_EVENT { id: String::new(), namespace: String::from("/"), data: vec![] };
    assert_eq!(encode_packet(packet).unwrap(), "Not Implemented Yet");
}

#[test]
fn encode_then_decode_event_round_trip() {
    let data = vec![text("chat"), object(vec![("n", Value::from(3u64))])];
    let packet = Packet::EVENT { id: String::from("5"), namespace: String::from("/room"), data: data.clone() };
    let encoded = encode_packet(packet).unwrap();
    assert_eq!(encoded, "42/room,5[\"chat\",{\"n\":3}]");
    match decode_packet(&encoded[1..]).unwrap() {
        Packet::EVENT { id, namespace, data: back } => {
            assert_eq!(id, "5");
            assert_eq!(namespace, "/room");
            assert_eq!(back, data);
        }
        other => panic!("unexpected {:?}", other),
    }
}

#[test]
fn decode_disconnect_with_namespace() {
    match decode_packet("1/admin,").unwrap() {
        Packet::DISCONNECT { namespace, data, id } => {
            assert_eq!(namespace, "/admin");
            assert_eq!(id, "");
            assert_eq!(data, object(vec![]));
        }
        other => panic!("unexpected {:?}", other),
    }
}

#[test]
fn decode_event_with_ack_id() {
    match decode_packet("2/chat,13[\"hi\"]").unwrap() {
        Packet::EVENT { namespace, data, id } => {
            assert_eq!(namespace, "/chat");
            assert_eq!(id, "13");
            assert_eq!(data, vec![text("hi")]);
        }
        other => panic!("unexpected {:?}", other),
    }
}

#[test]
fn decode_event_comma_inside_payload_keeps_default_namespace() {
    match decode_packet("2[\"a\",\"b\"]").unwrap() {
        Packet::EVENT { namespace, data, id } => {
            assert_eq!(namespace, "/");
            assert_eq!(id, "");
            assert_eq!(data, vec![text("a"), text("b")]);
        }
        other => panic!("unexpected {:?}", other),
    }
}

#[test]
fn decode_event_payload_not_array_is_empty_list() {
    match decode_packet("2{\"a\":1}").unwrap() {
        Packet::EVENT { data, .. } => assert!(data.is_empty()),
        other => panic!("unexpected {:?}", other),
    }
}

#[test]
fn decode_unknown_type_fails() {
    assert_eq!(decode_packet("9abc").unwrap_err(), PacketError::WronglyJsonized);
    assert_eq!(decode_packet("").unwrap_err(), PacketError::WronglyJsonized);
    assert_eq!(PacketError::WronglyJsonized.status(), 404);
}

#[test]
fn decode_binary_errors() {
    assert_eq!(decode_packet("51-[\"a\"]+<Buffer 01>").unwrap_err(), PacketError::InvalidBufferFormat);
    assert_eq!(decode_packet("51-[\"a\"]+<Buffer <0g>>").unwrap_err(), PacketError::InvalidBufferHexData);
    assert_eq!(decode_packet("51-[\"a\"+<Buffer <01>>").unwrap_err(), PacketError::InvalidJson);
    assert_eq!(decode_packet("50-{\"a\":1}").unwrap_err(), PacketError::NotAnArray);
    assert_eq!(PacketError::InvalidBufferFormat.status(), 400);
    assert_eq!(PacketError::InvalidBufferHexData.status(), 400);
    assert_eq!(PacketError::InvalidJson.status(), 500);
    assert_eq!(PacketError::NotAnArray.status(), 404);
}

#[test]
fn decode_binary_ack_decodes_as_binary_event() {
    match decode_packet("61-[{\"_placeholder\":true,\"num\":0}]+<Buffer <ff>>").unwrap() {
        Packet::BINARY_EVENT { data, .. } => assert_eq!(data, vec![text("/w==")]),
        other => panic!("unexpected {:?}", other),
    }
}

#[test]
fn decode_binary_out_of_range_placeholder_stays() {
    let expected = vec![text("AQ=="), placeholder(Value::from(5u64)), placeholder(Value::from(0u64))];
    match decode_packet("53-[{\"_placeholder\":true,\"num\":0},{\"_placeholder\":true,\"num\":5},{\"_placeholder\":true,\"num\":0}]+<Buffer <01>>").unwrap() {
        Packet::BINARY_EVENT { data, .. } => assert_eq!(data, expected),
        other => panic!("unexpected {:?}", other),
    }
}

#[test]
fn parse_buffers_cases() {
    assert_eq!(parse_buffers("<Buffer <01 02 03 04>>").unwrap(), vec![1, 2, 3, 4]);
    assert_eq!(parse_buffers("  <Buffer < ff  +0A 00ff >>  ").unwrap(), vec![255, 10, 255]);
    assert_eq!(parse_buffers("<Buffer <>>").unwrap(), Vec::<u8>::new());
    assert_eq!(parse_buffers("<Buffer <100>>").unwrap_err(), PacketError::InvalidBufferHexData);
    assert_eq!(parse_buffers("<Buffer <-1>>").unwrap_err(), PacketError::InvalidBufferHexData);
    assert_eq!(parse_buffers("<Buffer <+>>").unwrap_err(), PacketError::InvalidBufferHexData);
    assert_eq!(parse_buffers("Buffer <01>>").unwrap_err(), PacketError::InvalidBufferFormat);
    assert_eq!(parse_buffers("<Buffer <01>").unwrap_err(), PacketError::InvalidBufferFormat);
}

#[test]
fn replace_placeholders_cases() {
    let buffers = vec![vec![1u8, 2, 3], vec![0xfbu8, 0xff]];
    let value = Value::Array(vec![
        text("x"),
        Value::Array(vec![placeholder(Value::from(1u64))]),
        placeholder(Value::from(0u64)),
    ]);
    let (out, res) = replace_placeholders(value, &buffers);
    assert_eq!(res, Ok(()));
    assert_eq!(out, Value::Array(vec![text("x"), Value::Array(vec![text("+/8=")]), text("AQID")]));

    let value = Value::Array(vec![placeholder(Value::from(-1i64)), placeholder(Value::from(0u64))]);
    let (out, res) = replace_placeholders(value.clone(), &buffers);
    assert_eq!(res, Err(PlaceholderError::InvalidBufferIndex));
    assert_eq!(out, value);

    let value = Value::Array(vec![placeholder(Value::from(0u64)), placeholder(Value::from(9u64)), placeholder(Value::from(1u64))]);
    let (out, res) = replace_placeholders(value, &buffers);
    assert_eq!(res, Err(PlaceholderError::BufferIndexOutOfRange));
    assert_eq!(out, Value::Array(vec![text("AQID"), placeholder(Value::from(9u64)), placeholder(Value::from(1u64))]));

    // Not a placeholder: `_placeholder` is not `true`, or `num` is no number.
    let not_flag = object(vec![("_placeholder", Value::Bool(false)), ("num", Value::from(0u64))]);
    let (out, res) = replace_placeholders(not_flag.clone(), &buffers);
    assert_eq!((out, res), (not_flag, Ok(())));
    let no_num = object(vec![("_placeholder", Value::Bool(true)), ("num", text("0"))]);
    let (out, res) = replace_placeholders(no_num.clone(), &buffers);
    assert_eq!((out, res), (no_num, Ok(())));
}
