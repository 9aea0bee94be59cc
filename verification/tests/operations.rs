//! Operation-level properties: the measure pass agrees with the write pass,
//! context paths keep their order, argument round trips through a reference
//! reader, and the minimal opcode-only form.

use cdt_codec::buffer::{Buffer, EncodeError};
use cdt_codec::cdt::{CdtArgument, CdtContext, CdtOperation, ParticleType};
use cdt_codec::value::Value;

/// A decoded value, as a reference reader of the binary format sees it.
#[derive(Debug, PartialEq)]
enum Decoded {
    Nil,
    Bool(bool),
    Int(i64),
    Float(f64),
    Str(String),
    Bin(Vec<u8>),
    Arr(Vec<Decoded>),
    MapPairs(Vec<(Decoded, Decoded)>),
}

fn read_be(b: &[u8], pos: &mut usize, n: usize) -> u64 {
    let mut acc: u64 = 0;
    let mut i: usize = 0;
    while i < n {
        acc = (acc << 8) | u64::from(b[*pos]);
        *pos += 1;
        i += 1;
    }
    acc
}

fn read_str(b: &[u8], pos: &mut usize, n: usize) -> Decoded {
    let s = String::from_utf8(b[*pos..*pos + n].to_vec()).unwrap();
    *pos += n;
    Decoded::Str(s)
}

fn read_bin(b: &[u8], pos: &mut usize, n: usize) -> Decoded {
    let v = b[*pos..*pos + n].to_vec();
    *pos += n;
    Decoded::Bin(v)
}

fn read_arr(b: &[u8], pos: &mut usize, n: usize) -> Decoded {
    let mut items: Vec<Decoded> = Vec::new();
    let mut i: usize = 0;
    while i < n {
        items.push(read_value(b, pos));
        i += 1;
    }
    Decoded::Arr(items)
}

fn read_map(b: &[u8], pos: &mut usize, n: usize) -> Decoded {
    let mut pairs: Vec<(Decoded, Decoded)> = Vec::new();
    let mut i: usize = 0;
    while i < n {
        let k = read_value(b, pos);
        let v = read_value(b, pos);
        pairs.push((k, v));
        i += 1;
    }
    Decoded::MapPairs(pairs)
}

/// Read one value of the tagged, self-describing format.
fn read_value(b: &[u8], pos: &mut usize) -> Decoded {
    let tag: u8 = b[*pos];
    *pos += 1;
    match tag {
        0xc0 => Decoded::Nil,
        0xc2 => Decoded::Bool(false),
        0xc3 => Decoded::Bool(true),
        0x00..=0x7f => Decoded::Int(i64::from(tag)),
        0xe0..=0xff => Decoded::Int(i64::from(tag as i8)),
        0xcc => Decoded::Int(read_be(b, pos, 1) as i64),
        0xcd => Decoded::Int(read_be(b, pos, 2) as i64),
        0xce => Decoded::Int(read_be(b, pos, 4) as i64),
        0xcf => Decoded::Int(read_be(b, pos, 8) as i64),
        0xd0 => Decoded::Int(i64::from(read_be(b, pos, 1) as u8 as i8)),
        0xd1 => Decoded::Int(i64::from(read_be(b, pos, 2) as u16 as i16)),
        0xd2 => Decoded::Int(i64::from(read_be(b, pos, 4) as u32 as i32)),
        0xd3 => Decoded::Int(read_be(b, pos, 8) as i64),
        0xcb => Decoded::Float(f64::from_bits(read_be(b, pos, 8))),
        0xa0..=0xbf => {
            let n = usize::from(tag - 0xa0);
            read_str(b, pos, n)
        }
        0xd9 => {
            let n = read_be(b, pos, 1) as usize;
            read_str(b, pos, n)
        }
        0xda => {
            let n = read_be(b, pos, 2) as usize;
            read_str(b, pos, n)
        }
        0xdb => {
            let n = read_be(b, pos, 4) as usize;
            read_str(b, pos, n)
        }
        0xc4 => {
            let n = read_be(b, pos, 1) as usize;
            read_bin(b, pos, n)
        }
        0xc5 => {
            let n = read_be(b, pos, 2) as usize;
            read_bin(b, pos, n)
        }
        0xc6 => {
            let n = read_be(b, pos, 4) as usize;
            read_bin(b, pos, n)
        }
        0x90..=0x9f => {
            let n = usize::from(tag - 0x90);
            read_arr(b, pos, n)
        }
        0xdc => {
            let n = read_be(b, pos, 2) as usize;
            read_arr(b, pos, n)
        }
        0xdd => {
            let n = read_be(b, pos, 4) as usize;
            read_arr(b, pos, n)
        }
        0x80..=0x8f => {
            let n = usize::from(tag - 0x80);
            read_map(b, pos, n)
        }
        0xde => {
            let n = read_be(b, pos, 2) as usize;
            read_map(b, pos, n)
        }
        0xdf => {
            let n = read_be(b, pos, 4) as usize;
            read_map(b, pos, n)
        }
        _ => panic!("unexpected tag {tag:#x}"),
    }
}

fn encode(op: &CdtOperation, ctx: &[CdtContext]) -> Vec<u8> {
    let mut buf = Buffer::new();
    op.write_to(&mut buf, ctx).unwrap();
    buf.written_bytes().to_vec()
}

fn check_measure_matches_write(op: &CdtOperation, ctx: &[CdtContext]) {
    let measured = op.estimate_size(ctx).unwrap();
    let mut buf = Buffer::new();
    let written = op.write_to(&mut buf, ctx).unwrap();
    assert_eq!(measured, written);
    assert_eq!(measured, buf.len());
}

#[test]
fn measure_matches_write_across_tags_selectors_and_depths() {
    let hello = Value::String(String::from("hello"));
    let nums = vec![Value::Int(1), Value::Int(2), Value::Int(3)];
    let pairs = vec![(Value::String(String::from("a")), Value::Int(1))];
    let mut deep = Value::Int(42);
    for _ in 0..5 {
        deep = Value::List(vec![deep]);
    }

    let args: Vec<CdtArgument> = vec![
        CdtArgument::Byte(7),
        CdtArgument::Int(-12345),
        CdtArgument::Bool(true),
        CdtArgument::Value(&hello),
        CdtArgument::Value(&deep),
        CdtArgument::List(&nums),
        CdtArgument::OrderedMap(&pairs),
    ];
    let op = CdtOperation { op: 26, args };

    let by_index = CdtContext { id: 0x10, value: Value::Int(2) };
    let by_rank = CdtContext { id: 0x11, value: Value::Int(-1) };
    let by_list_value = CdtContext { id: 0x13, value: Value::Int(9) };
    let by_key = CdtContext { id: 0x22, value: Value::String(String::from("x")) };
    let by_map_value = CdtContext { id: 0x23, value: Value::Bool(true) };

    check_measure_matches_write(&op, &[]);
    check_measure_matches_write(&op, &[by_index]);
    let ctx2 = [
        CdtContext { id: 0x10, value: Value::Int(0) },
        by_rank,
        by_list_value,
        by_key,
        by_map_value,
    ];
    check_measure_matches_write(&op, &ctx2);
}

#[test]
fn measure_is_idempotent() {
    let nums = vec![Value::Int(5)];
    let op = CdtOperation {
        op: 4,
        args: vec![CdtArgument::Int(17), CdtArgument::List(&nums)],
    };
    let ctx = [CdtContext { id: 0x22, value: Value::String(String::from("k")) }];
    let first = op.estimate_size(&ctx).unwrap();
    let second = op.estimate_size(&ctx).unwrap();
    assert_eq!(first, second);
}

#[test]
fn empty_argument_operation_is_header_and_opcode_only() {
    let op = CdtOperation { op: 9, args: Vec::new() };
    assert_eq!(op.estimate_size(&[]).unwrap(), 2);
    assert_eq!(encode(&op, &[]), vec![0x00, 0x09]);
}

#[test]
fn context_descriptors_keep_path_order() {
    let op = CdtOperation { op: 4, args: Vec::new() };
    let ctx = [
        CdtContext { id: 0x10, value: Value::Int(2) },
        CdtContext { id: 0x22, value: Value::String(String::from("x")) },
    ];
    let got = encode(&op, &ctx);
    // Extension marker, four context slots, then by-index before by-key,
    // then the opcode in its own argument list.
    assert_eq!(
        got,
        vec![0x93, 0xcc, 0xff, 0x94, 0x10, 0x02, 0x22, 0xa1, b'x', 0x91, 0x04]
    );
}

#[test]
fn empty_context_path_omits_the_extension() {
    let args = vec![CdtArgument::Int(1)];
    let op = CdtOperation { op: 5, args };
    let with_empty_path = encode(&op, &[]);
    // Byte-for-byte the plain operation form: header, opcode, one argument.
    assert_eq!(with_empty_path, vec![0x00, 0x05, 0x91, 0x01]);
    assert!(!with_empty_path.contains(&0xff));
}

#[test]
fn argument_tags_round_trip_through_reference_reader() {
    let hello = Value::String(String::from("hello"));
    let nums = vec![Value::Int(1), Value::Int(2), Value::Int(3)];
    let pairs = vec![(Value::String(String::from("a")), Value::Int(1))];
    let args: Vec<CdtArgument> = vec![
        CdtArgument::Byte(7),
        CdtArgument::Int(-12345),
        CdtArgument::Bool(true),
        CdtArgument::Value(&hello),
        CdtArgument::List(&nums),
        CdtArgument::OrderedMap(&pairs),
    ];
    let op = CdtOperation { op: 3, args };
    let bytes = encode(&op, &[]);

    // Skip the two header bytes, then read the argument list back.
    let mut pos: usize = 2;
    let decoded = read_value(&bytes, &mut pos);
    assert_eq!(pos, bytes.len());
    assert_eq!(
        decoded,
        Decoded::Arr(vec![
            Decoded::Int(7),
            Decoded::Int(-12345),
            Decoded::Bool(true),
            Decoded::Str(String::from("hello")),
            Decoded::Arr(vec![Decoded::Int(1), Decoded::Int(2), Decoded::Int(3)]),
            Decoded::MapPairs(vec![(Decoded::Str(String::from("a")), Decoded::Int(1))]),
        ])
    );
}

#[test]
fn map_argument_keeps_insertion_order() {
    let pairs = vec![
        (Value::String(String::from("b")), Value::Int(2)),
        (Value::String(String::from("a")), Value::Int(1)),
        (Value::String(String::from("c")), Value::Int(3)),
    ];
    let op = CdtOperation { op: 64, args: vec![CdtArgument::OrderedMap(&pairs)] };
    let bytes = encode(&op, &[]);

    let mut pos: usize = 2;
    let decoded = read_value(&bytes, &mut pos);
    match decoded {
        Decoded::Arr(items) => match &items[0] {
            Decoded::MapPairs(got) => {
                let keys: Vec<&Decoded> = got.iter().map(|p| &p.0).collect();
                assert_eq!(
                    keys,
                    vec![
                        &Decoded::Str(String::from("b")),
                        &Decoded::Str(String::from("a")),
                        &Decoded::Str(String::from("c")),
                    ]
                );
            }
            other => panic!("expected a map argument, got {other:?}"),
        },
        other => panic!("expected an argument list, got {other:?}"),
    }
}

#[test]
fn nested_values_round_trip_through_context_path() {
    let op = CdtOperation { op: 2, args: vec![CdtArgument::Byte(200)] };
    let ctx = [
        CdtContext {
            id: 0x20,
            value: Value::List(vec![Value::Int(300), Value::Blob(vec![9, 8])]),
        },
    ];
    let bytes = encode(&op, &ctx);
    let mut pos: usize = 0;
    let decoded = read_value(&bytes, &mut pos);
    assert_eq!(pos, bytes.len());
    assert_eq!(
        decoded,
        Decoded::Arr(vec![
            Decoded::Int(0xff),
            Decoded::Arr(vec![
                Decoded::Int(0x20),
                Decoded::Arr(vec![Decoded::Int(300), Decoded::Bin(vec![9, 8])]),
            ]),
            Decoded::Arr(vec![Decoded::Int(2), Decoded::Int(200)]),
        ])
    );
}

#[test]
fn write_failure_propagates_from_the_buffer() {
    let op = CdtOperation { op: 9, args: vec![CdtArgument::Int(1000)] };
    let mut buf = Buffer::with_capacity_limit(3);
    assert_eq!(op.write_to(&mut buf, &[]), Err(EncodeError::CapacityExceeded));
}

#[test]
fn operation_reports_opaque_binary_particle_type() {
    let op = CdtOperation { op: 1, args: Vec::new() };
    assert_eq!(op.particle_type(), ParticleType::BLOB);
}
