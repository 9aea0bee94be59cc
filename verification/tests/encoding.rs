//! Byte-exact checks of the value serializer: each scalar form, the string,
//! blob, list and map headers, and the buffer's two modes.

use cdt_codec::buffer::{Buffer, EncodeError};
use cdt_codec::msgpack::{pack_bool, pack_integer, pack_nil, pack_value};
use cdt_codec::value::Value;

fn packed_int(v: i64) -> Vec<u8> {
    let mut buf = Buffer::new();
    pack_integer(&mut buf, v).unwrap();
    buf.written_bytes().to_vec()
}

fn packed_value(v: &Value) -> Vec<u8> {
    let mut buf = Buffer::new();
    pack_value(&mut buf, v).unwrap();
    buf.written_bytes().to_vec()
}

#[test]
fn nil_and_bool_tags() {
    let mut buf = Buffer::new();
    pack_nil(&mut buf).unwrap();
    pack_bool(&mut buf, false).unwrap();
    pack_bool(&mut buf, true).unwrap();
    assert_eq!(buf.written_bytes(), &[0xc0, 0xc2, 0xc3]);
}

#[test]
fn integer_smallest_forms() {
    assert_eq!(packed_int(0), vec![0x00]);
    assert_eq!(packed_int(127), vec![0x7f]);
    assert_eq!(packed_int(128), vec![0xcc, 0x80]);
    assert_eq!(packed_int(255), vec![0xcc, 0xff]);
    assert_eq!(packed_int(256), vec![0xcd, 0x01, 0x00]);
    assert_eq!(packed_int(65535), vec![0xcd, 0xff, 0xff]);
    assert_eq!(packed_int(65536), vec![0xce, 0x00, 0x01, 0x00, 0x00]);
    assert_eq!(packed_int(0xffff_ffff), vec![0xce, 0xff, 0xff, 0xff, 0xff]);
    assert_eq!(
        packed_int(0x1_0000_0000),
        vec![0xcf, 0x00, 0x00, 0x00, 0x01, 0x00, 0x00, 0x00, 0x00]
    );
    assert_eq!(packed_int(-1), vec![0xff]);
    assert_eq!(packed_int(-32), vec![0xe0]);
    assert_eq!(packed_int(-33), vec![0xd0, 0xdf]);
    assert_eq!(packed_int(-128), vec![0xd0, 0x80]);
    assert_eq!(packed_int(-129), vec![0xd1, 0xff, 0x7f]);
    assert_eq!(packed_int(-12345), vec![0xd1, 0xcf, 0xc7]);
    assert_eq!(packed_int(-32768), vec![0xd1, 0x80, 0x00]);
    assert_eq!(packed_int(-32769), vec![0xd2, 0xff, 0xff, 0x7f, 0xff]);
    assert_eq!(
        packed_int(i64::MIN),
        vec![0xd3, 0x80, 0x00, 0x00, 0x00, 0x00, 0x00, 0x00, 0x00]
    );
    assert_eq!(
        packed_int(i64::MAX),
        vec![0xcf, 0x7f, 0xff, 0xff, 0xff, 0xff, 0xff, 0xff, 0xff]
    );
}

#[test]
fn float_is_tagged_double_bits() {
    let bits: u64 = (1.5f64).to_bits();
    let got = packed_value(&Value::Float(bits));
    assert_eq!(got, vec![0xcb, 0x3f, 0xf8, 0x00, 0x00, 0x00, 0x00, 0x00, 0x00]);
}

#[test]
fn string_header_and_bytes() {
    let got = packed_value(&Value::String(String::from("hello")));
    assert_eq!(got, vec![0xa5, b'h', b'e', b'l', b'l', b'o']);

    let empty = packed_value(&Value::String(String::new()));
    assert_eq!(empty, vec![0xa0]);

    // A 32-byte string no longer fits the short tag form.
    let long = "abcdefghijklmnopqrstuvwxyz012345";
    let got_long = packed_value(&Value::String(String::from(long)));
    let mut expect: Vec<u8> = vec![0xd9, 32];
    expect.extend_from_slice(long.as_bytes());
    assert_eq!(got_long, expect);
}

#[test]
fn geo_json_encodes_as_string() {
    let got = packed_value(&Value::GeoJSON(String::from("{}")));
    assert_eq!(got, vec![0xa2, b'{', b'}']);
}

#[test]
fn blob_header_and_bytes() {
    let got = packed_value(&Value::Blob(vec![1, 2, 3]));
    assert_eq!(got, vec![0xc4, 3, 1, 2, 3]);

    let empty = packed_value(&Value::Blob(Vec::new()));
    assert_eq!(empty, vec![0xc4, 0]);
}

#[test]
fn list_elements_in_order() {
    let v = Value::List(vec![Value::Int(1), Value::Nil, Value::Bool(true)]);
    assert_eq!(packed_value(&v), vec![0x93, 0x01, 0xc0, 0xc3]);
}

#[test]
fn map_pairs_in_order_no_dedup() {
    // Equal keys are both kept, in the order given.
    let v = Value::OrderedMap(vec![
        (Value::String(String::from("a")), Value::Int(1)),
        (Value::String(String::from("a")), Value::Int(2)),
    ]);
    assert_eq!(
        packed_value(&v),
        vec![0x82, 0xa1, b'a', 0x01, 0xa1, b'a', 0x02]
    );
}

#[test]
fn nested_containers_to_depth_five() {
    let v = Value::List(vec![Value::List(vec![Value::List(vec![Value::List(vec![
        Value::List(vec![Value::Int(7)]),
    ])])])]);
    assert_eq!(packed_value(&v), vec![0x91, 0x91, 0x91, 0x91, 0x91, 0x07]);
}

#[test]
fn buffer_reports_length_and_contents() {
    let mut buf = Buffer::new();
    assert_eq!(buf.len(), 0);
    buf.write_u8(0xab).unwrap();
    buf.write_bytes(&[1, 2, 3]).unwrap();
    assert_eq!(buf.len(), 4);
    assert_eq!(buf.written_bytes(), &[0xab, 1, 2, 3]);
}

#[test]
fn buffer_refuses_writes_past_its_limit() {
    let mut buf = Buffer::with_capacity_limit(2);
    buf.write_u8(1).unwrap();
    assert_eq!(buf.write_bytes(&[2, 3]), Err(EncodeError::CapacityExceeded));
    // The refused raw write leaves the buffer unchanged.
    assert_eq!(buf.len(), 1);
    buf.write_u8(2).unwrap();
    assert_eq!(buf.write_u8(3), Err(EncodeError::CapacityExceeded));
    assert_eq!(buf.written_bytes(), &[1, 2]);
}

#[test]
fn measuring_buffer_counts_without_storing() {
    let mut buf = Buffer::measuring();
    let n = pack_value(&mut buf, &Value::String(String::from("hello"))).unwrap();
    assert_eq!(n, 6);
    assert_eq!(buf.len(), 6);
}
