use vlab_relay::model::{
    CommandResult, CommandSpec, Directory, FileEntry, Frame, Identity, TaskRequest, TaskResponse,
};
use vlab_relay::wire::fields::{
    put_bytes_field, put_varint_field, read_fields, Field, Payload, MAX_TAG,
};
use vlab_relay::wire::schema::{WireError, MAX_TREE_DEPTH};

fn alice() -> Identity {
    Identity { handle: "alice".to_string(), credential: "secret1".to_string() }
}

fn sample_tree() -> Directory {
    Directory {
        name: "project".to_string(),
        files: vec![
            FileEntry { name: "main.c".to_string(), bytes: b"int main() { return 0; }\n".to_vec() },
            FileEntry { name: "blob.bin".to_string(), bytes: vec![0, 255, 128, 10, 13, 0] },
            FileEntry { name: "empty".to_string(), bytes: vec![] },
        ],
        subdirectories: vec![
            Directory {
                name: "include".to_string(),
                files: vec![FileEntry { name: "a.h".to_string(), bytes: b"#pragma once\n".to_vec() }],
                subdirectories: vec![Directory {
                    name: "deep".to_string(),
                    files: vec![],
                    subdirectories: vec![],
                }],
            },
            Directory { name: "données".to_string(), files: vec![], subdirectories: vec![] },
        ],
    }
}

fn sample_command() -> CommandSpec {
    CommandSpec {
        executable: "make".to_string(),
        arguments: vec!["-j4".to_string(), "".to_string(), "all".to_string()],
        working_tree: Some(sample_tree()),
    }
}

fn nested(levels: u32) -> Directory {
    let mut tree = Directory { name: "leaf".to_string(), files: vec![], subdirectories: vec![] };
    for level in 1..levels {
        tree = Directory { name: format!("d{}", level), files: vec![], subdirectories: vec![tree] };
    }
    tree
}

#[test]
fn varint_field_has_the_documented_bytes() {
    let mut buf = Vec::new();
    put_varint_field(&mut buf, 1, 150);
    assert_eq!(buf, vec![0x08, 0x96, 0x01]);
}

#[test]
fn varint_field_appends_to_what_is_there() {
    let mut buf = vec![7u8, 7, 7];
    put_varint_field(&mut buf, 2, 0);
    assert_eq!(buf, vec![7, 7, 7, 0x10, 0x00]);
}

#[test]
fn varint_of_the_largest_number_takes_ten_bytes() {
    let mut buf = Vec::new();
    put_varint_field(&mut buf, 1, u64::MAX);
    assert_eq!(buf, vec![0x08, 0xff, 0xff, 0xff, 0xff, 0xff, 0xff, 0xff, 0xff, 0xff, 0x01]);
    assert_eq!(
        read_fields(&buf),
        Some(vec![Field { tag: 1, payload: Payload::Varint(u64::MAX) }])
    );
}

#[test]
fn varint_boundaries_read_back() {
    for value in [0u64, 1, 127, 128, 255, 300, 16383, 16384, 1 << 32, (1 << 63) - 1, 1 << 63] {
        let mut buf = Vec::new();
        put_varint_field(&mut buf, 5, value);
        assert_eq!(read_fields(&buf), Some(vec![Field { tag: 5, payload: Payload::Varint(value) }]));
    }
}

#[test]
fn bytes_field_has_the_documented_bytes() {
    let mut buf = Vec::new();
    put_bytes_field(&mut buf, 2, b"testing");
    assert_eq!(buf, vec![0x12, 0x07, b't', b'e', b's', b't', b'i', b'n', b'g']);
}

#[test]
fn largest_tag_reads_back() {
    let mut buf = Vec::new();
    put_varint_field(&mut buf, MAX_TAG, 9);
    assert_eq!(read_fields(&buf), Some(vec![Field { tag: MAX_TAG, payload: Payload::Varint(9) }]));
}

#[test]
fn fields_of_every_wire_type_are_read() {
    let bytes = vec![
        0x08, 0x2a, // tag 1, varint 42
        0x11, 1, 2, 3, 4, 5, 6, 7, 8, // tag 2, eight bytes
        0x1a, 0x02, b'h', b'i', // tag 3, two bytes
        0x25, 9, 8, 7, 6, // tag 4, four bytes
    ];
    assert_eq!(
        read_fields(&bytes),
        Some(vec![
            Field { tag: 1, payload: Payload::Varint(42) },
            Field { tag: 2, payload: Payload::Fixed64(vec![1, 2, 3, 4, 5, 6, 7, 8]) },
            Field { tag: 3, payload: Payload::Bytes(b"hi".to_vec()) },
            Field { tag: 4, payload: Payload::Fixed32(vec![9, 8, 7, 6]) },
        ])
    );
}

#[test]
fn empty_input_is_an_empty_run_of_fields() {
    assert_eq!(read_fields(&[]), Some(vec![]));
}

#[test]
fn what_is_no_run_of_fields_is_refused() {
    // tag 0
    assert_eq!(read_fields(&[0x00, 0x01]), None);
    // a key without payload
    assert_eq!(read_fields(&[0x08]), None);
    // a length beyond the input
    assert_eq!(read_fields(&[0x0a, 0x05, b'a']), None);
    // group wire types
    assert_eq!(read_fields(&[0x0b]), None);
    assert_eq!(read_fields(&[0x0c]), None);
    // wire types 6 and 7
    assert_eq!(read_fields(&[0x0e, 0x00]), None);
    assert_eq!(read_fields(&[0x0f, 0x00]), None);
    // a fixed payload cut short
    assert_eq!(read_fields(&[0x09, 1, 2, 3]), None);
    assert_eq!(read_fields(&[0x0d, 1, 2, 3]), None);
    // a varint that never ends
    assert_eq!(read_fields(&[0x08, 0x80, 0x80, 0x80, 0x80, 0x80, 0x80, 0x80, 0x80, 0x80, 0x80, 0x01]), None);
    // a tenth byte that overflows 64 bits
    assert_eq!(read_fields(&[0x08, 0xff, 0xff, 0xff, 0xff, 0xff, 0xff, 0xff, 0xff, 0xff, 0x02]), None);
    // a key beyond 32 bits
    assert_eq!(read_fields(&[0x80, 0x80, 0x80, 0x80, 0x10, 0x00]), None);
}

#[test]
fn a_varint_written_the_long_way_is_read() {
    assert_eq!(
        read_fields(&[0x08, 0x80, 0x00]),
        Some(vec![Field { tag: 1, payload: Payload::Varint(0) }])
    );
}

#[test]
fn init_frame_has_the_documented_bytes() {
    let bytes = Frame::Init(alice()).encode();
    let mut expected = vec![0x0a, 0x10, 0x0a, 0x05];
    expected.extend_from_slice(b"alice");
    expected.extend_from_slice(&[0x12, 0x07]);
    expected.extend_from_slice(b"secret1");
    assert_eq!(bytes, expected);
}

#[test]
fn response_frame_has_the_documented_bytes() {
    let frame = Frame::TaskResponse(TaskResponse {
        id: "t".to_string(),
        response: Some(CommandResult { combined_output: "hi\n".to_string(), exit_code: 2 }),
    });
    assert_eq!(
        frame.encode(),
        vec![0x1a, 0x0c, 0x0a, 0x01, b't', 0x12, 0x07, 0x0a, 0x03, b'h', b'i', b'\n', 0x10, 0x02]
    );
}

#[test]
fn init_frame_reads_back() {
    let bytes = Frame::Init(alice()).encode();
    assert_eq!(Frame::decode(&bytes), Ok(Frame::Init(alice())));
}

#[test]
fn request_frame_with_a_tree_reads_back() {
    let frame = Frame::TaskRequest(TaskRequest {
        id: "2f1c0a9e-0d3b-4c58-9a43-5f0f8a3f9f10".to_string(),
        command: Some(sample_command()),
    });
    let bytes = frame.encode();
    assert_eq!(Frame::decode(&bytes), Ok(frame));
}

#[test]
fn request_frame_without_command_or_tree_reads_back() {
    let bare = Frame::TaskRequest(TaskRequest { id: "x".to_string(), command: None });
    assert_eq!(Frame::decode(&bare.encode()), Ok(bare));
    let treeless = Frame::TaskRequest(TaskRequest {
        id: "y".to_string(),
        command: Some(CommandSpec {
            executable: "true".to_string(),
            arguments: vec![],
            working_tree: None,
        }),
    });
    assert_eq!(Frame::decode(&treeless.encode()), Ok(treeless));
}

#[test]
fn response_frames_read_back_with_any_exit_code() {
    for code in [0i64, 1, 2, -1, 255, i64::MAX, i64::MIN] {
        let frame = Frame::TaskResponse(TaskResponse {
            id: "task".to_string(),
            response: Some(CommandResult { combined_output: "out\u{fffd}err".to_string(), exit_code: code }),
        });
        assert_eq!(Frame::decode(&frame.encode()), Ok(frame));
    }
    let empty = Frame::TaskResponse(TaskResponse { id: "task".to_string(), response: None });
    assert_eq!(Frame::decode(&empty.encode()), Ok(empty));
}

#[test]
fn directory_reads_back_with_identical_files_and_structure() {
    let bytes = vlab_relay::wire::encode::encode_directory(&sample_tree());
    let back = Directory::decode(&bytes, MAX_TREE_DEPTH).unwrap();
    assert_eq!(back, sample_tree());
    assert_eq!(back.files[1].bytes, vec![0, 255, 128, 10, 13, 0]);
    assert_eq!(back.subdirectories[0].subdirectories[0].name, "deep");
}

#[test]
fn a_tree_at_the_depth_limit_reads_back() {
    let tree = nested(MAX_TREE_DEPTH);
    let bytes = vlab_relay::wire::encode::encode_directory(&tree);
    assert_eq!(Directory::decode(&bytes, MAX_TREE_DEPTH), Ok(tree));
}

#[test]
fn a_tree_beyond_the_depth_limit_is_too_deep() {
    let tree = nested(MAX_TREE_DEPTH + 1);
    let bytes = vlab_relay::wire::encode::encode_directory(&tree);
    assert_eq!(Directory::decode(&bytes, MAX_TREE_DEPTH), Err(WireError::TooDeep));
    let frame = Frame::TaskRequest(TaskRequest {
        id: "deep".to_string(),
        command: Some(CommandSpec {
            executable: "ls".to_string(),
            arguments: vec![],
            working_tree: Some(nested(MAX_TREE_DEPTH + 1)),
        }),
    });
    assert_eq!(Frame::decode(&frame.encode()), Err(WireError::TooDeep));
}

#[test]
fn no_budget_is_too_deep() {
    let bytes = vlab_relay::wire::encode::encode_directory(&nested(1));
    assert_eq!(Directory::decode(&bytes, 0), Err(WireError::TooDeep));
    assert_eq!(Directory::decode(&bytes, 1), Ok(nested(1)));
}

#[test]
fn a_frame_without_variant_is_refused() {
    assert_eq!(Frame::decode(&[]), Err(WireError::NoVariant));
    // only a field with a tag that is no variant
    assert_eq!(Frame::decode(&[0x20, 0x01]), Err(WireError::NoVariant));
}

#[test]
fn a_frame_that_is_no_run_of_fields_is_malformed() {
    assert_eq!(Frame::decode(&[0x0a, 0x10, 0x0a]), Err(WireError::Malformed));
    assert_eq!(Frame::decode(&[0xff]), Err(WireError::Malformed));
    // the frame is a run of fields, the identity inside is not
    assert_eq!(Frame::decode(&[0x0a, 0x01, 0x0a]), Err(WireError::Malformed));
}

#[test]
fn a_variant_of_the_wrong_wire_type_is_invalid() {
    assert_eq!(Frame::decode(&[0x08, 0x01]), Err(WireError::InvalidField));
}

#[test]
fn text_that_is_not_utf8_is_invalid() {
    // init { handle: [0xff] }
    assert_eq!(Frame::decode(&[0x0a, 0x03, 0x0a, 0x01, 0xff]), Err(WireError::InvalidField));
    // init { handle: varint }
    assert_eq!(Frame::decode(&[0x0a, 0x02, 0x08, 0x01]), Err(WireError::InvalidField));
    // an overlong encoding of '/'
    assert_eq!(Identity::decode(&[0x0a, 0x02, 0xc0, 0xaf]), Err(WireError::InvalidField));
}

#[test]
fn missing_fields_read_as_empty_or_zero() {
    assert_eq!(
        Identity::decode(&[]),
        Ok(Identity { handle: String::new(), credential: String::new() })
    );
    assert_eq!(
        CommandResult::decode(&[]),
        Ok(CommandResult { combined_output: String::new(), exit_code: 0 })
    );
    assert_eq!(FileEntry::decode(&[]), Ok(FileEntry { name: String::new(), bytes: vec![] }));
    assert_eq!(
        CommandSpec::decode(&[]),
        Ok(CommandSpec { executable: String::new(), arguments: vec![], working_tree: None })
    );
}

#[test]
fn the_last_of_a_singular_field_counts_and_unknown_tags_are_passed_over() {
    let bytes = vec![
        0x0a, 0x01, b'a', // handle "a"
        0x38, 0x05, // tag 7, unknown
        0x12, 0x01, b'x', // credential "x"
        0x0a, 0x02, b'b', b'c', // handle "bc"
    ];
    assert_eq!(
        Identity::decode(&bytes),
        Ok(Identity { handle: "bc".to_string(), credential: "x".to_string() })
    );
}

#[test]
fn the_last_variant_of_a_frame_counts() {
    let mut bytes = Frame::Init(alice()).encode();
    let response = Frame::TaskResponse(TaskResponse { id: "t".to_string(), response: None });
    bytes.extend_from_slice(&response.encode());
    assert_eq!(Frame::decode(&bytes), Ok(response));
}

#[test]
fn repeated_fields_keep_their_order_between_other_fields() {
    let bytes = vec![
        0x12, 0x01, b'1', // argument "1"
        0x0a, 0x02, b'l', b's', // executable "ls"
        0x12, 0x00, // argument ""
        0x12, 0x01, b'2', // argument "2"
    ];
    assert_eq!(
        CommandSpec::decode(&bytes),
        Ok(CommandSpec {
            executable: "ls".to_string(),
            arguments: vec!["1".to_string(), "".to_string(), "2".to_string()],
            working_tree: None,
        })
    );
}

#[test]
fn the_first_bad_file_of_a_directory_decides() {
    // a directory whose first file has a name that is not UTF-8 and whose
    // second file is cut short
    let bytes = vec![
        0x12, 0x03, 0x0a, 0x01, 0xff, // file { name: [0xff] }
        0x12, 0x01, 0x0a, // file: a key without payload
    ];
    assert_eq!(Directory::decode(&bytes, 4), Err(WireError::InvalidField));
}

#[test]
fn negative_exit_code_takes_ten_bytes() {
    let bytes = vlab_relay::wire::encode::encode_result(&CommandResult {
        combined_output: String::new(),
        exit_code: -1,
    });
    assert_eq!(
        bytes,
        vec![0x0a, 0x00, 0x10, 0xff, 0xff, 0xff, 0xff, 0xff, 0xff, 0xff, 0xff, 0xff, 0x01]
    );
    assert_eq!(
        CommandResult::decode(&bytes),
        Ok(CommandResult { combined_output: String::new(), exit_code: -1 })
    );
}

/// A small deterministic generator, for inputs without a pattern.
fn next_random(state: &mut u64) -> u64 {
    *state = state.wrapping_mul(6364136223846793005).wrapping_add(1442695040888963407);
    *state >> 11
}

/// One varint read by hand: the number and how many bytes it took.
fn varint_by_hand(bytes: &[u8]) -> Option<(u64, usize)> {
    let mut value: u128 = 0;
    for (at, byte) in bytes.iter().enumerate().take(10) {
        value += ((byte & 0x7f) as u128) << (7 * at);
        if *byte < 0x80 {
            if at == 9 && *byte >= 2 {
                return None;
            }
            return Some((value as u64, at + 1));
        }
    }
    None
}

#[test]
fn varints_are_read_as_by_hand() {
    let mut state = 7u64;
    for _ in 0..20000 {
        let len = (next_random(&mut state) % 13) as usize;
        let mut bytes = vec![0x08u8];
        for _ in 0..len {
            let byte = next_random(&mut state) as u8;
            // make continuation bytes frequent, so that long varints occur
            let byte = if next_random(&mut state) % 4 != 0 { byte | 0x80 } else { byte };
            bytes.push(byte);
        }
        let expected = match varint_by_hand(&bytes[1..]) {
            Some((value, taken)) if taken == len => {
                Some(vec![Field { tag: 1, payload: Payload::Varint(value) }])
            },
            _ => None,
        };
        // only inputs that are exactly one field or no field at all are compared
        if expected.is_some() || varint_by_hand(&bytes[1..]).is_none() {
            assert_eq!(read_fields(&bytes), expected, "{:?}", bytes);
        }
    }
}

#[test]
fn varints_are_written_as_by_hand() {
    let mut state = 99u64;
    for round in 0..20000 {
        let value = match round % 4 {
            0 => next_random(&mut state),
            1 => next_random(&mut state) >> 40,
            2 => next_random(&mut state) << 11 | 0x8000_0000_0000_0000,
            _ => next_random(&mut state) % 300,
        };
        let mut expected = vec![0x08u8];
        let mut rest = value;
        while rest >= 0x80 {
            expected.push((rest % 128) as u8 + 128);
            rest /= 128;
        }
        expected.push(rest as u8);
        let mut buf = Vec::new();
        put_varint_field(&mut buf, 1, value);
        assert_eq!(buf, expected);
        assert_eq!(read_fields(&buf), Some(vec![Field { tag: 1, payload: Payload::Varint(value) }]));
    }
}

#[test]
fn frames_are_laid_out_as_protocol_buffers() {
    // the identity, field by field
    let mut identity = Vec::new();
    prost::encoding::string::encode(1, &"alice".to_string(), &mut identity);
    prost::encoding::string::encode(2, &"secret1".to_string(), &mut identity);
    let mut frame = Vec::new();
    prost::encoding::bytes::encode(1, &identity, &mut frame);
    assert_eq!(Frame::Init(alice()).encode(), frame);

    // a response with a negative exit code
    let mut result = Vec::new();
    prost::encoding::string::encode(1, &"out".to_string(), &mut result);
    prost::encoding::int64::encode(2, &-1i64, &mut result);
    let mut response = Vec::new();
    prost::encoding::string::encode(1, &"task-1".to_string(), &mut response);
    prost::encoding::bytes::encode(2, &result, &mut response);
    let mut frame = Vec::new();
    prost::encoding::bytes::encode(3, &response, &mut frame);
    let ours = Frame::TaskResponse(TaskResponse {
        id: "task-1".to_string(),
        response: Some(CommandResult { combined_output: "out".to_string(), exit_code: -1 }),
    });
    assert_eq!(ours.encode(), frame);

    // a file and the directory around it
    let mut file = Vec::new();
    prost::encoding::string::encode(1, &"main.c".to_string(), &mut file);
    prost::encoding::bytes::encode(2, &vec![0u8, 1, 255], &mut file);
    let mut directory = Vec::new();
    prost::encoding::string::encode(1, &"src".to_string(), &mut directory);
    prost::encoding::bytes::encode(2, &file, &mut directory);
    let ours = Directory {
        name: "src".to_string(),
        files: vec![FileEntry { name: "main.c".to_string(), bytes: vec![0, 1, 255] }],
        subdirectories: vec![],
    };
    assert_eq!(vlab_relay::wire::encode::encode_directory(&ours), directory);
}

#[test]
fn random_trees_read_back() {
    fn grow(state: &mut u64, levels: u32) -> Directory {
        let files = (0..next_random(state) % 4)
            .map(|n| FileEntry {
                name: format!("f{}", n),
                bytes: (0..next_random(state) % 40).map(|_| next_random(state) as u8).collect(),
            })
            .collect();
        let subdirectories = if levels == 0 {
            vec![]
        } else {
            (0..next_random(state) % 3).map(|_| grow(state, levels - 1)).collect()
        };
        Directory { name: format!("d{}", next_random(state) % 1000), files, subdirectories }
    }
    let mut state = 2024u64;
    for round in 0..200 {
        let frame = Frame::TaskRequest(TaskRequest {
            id: format!("task-{}", round),
            command: Some(CommandSpec {
                executable: "run".to_string(),
                arguments: (0..next_random(&mut state) % 5).map(|n| format!("--arg{}", n)).collect(),
                working_tree: Some(grow(&mut state, 4)),
            }),
        });
        assert!(frame.depth_fits());
        let bytes = frame.encode();
        assert_eq!(Frame::decode(&bytes), Ok(frame));
    }
}

#[test]
fn depth_is_measured_in_directories() {
    assert!(nested(1).depth_within(1));
    assert!(!nested(1).depth_within(0));
    assert!(nested(5).depth_within(5));
    assert!(!nested(5).depth_within(4));
    assert!(nested(MAX_TREE_DEPTH).depth_within(MAX_TREE_DEPTH));
    assert!(!nested(MAX_TREE_DEPTH + 1).depth_within(MAX_TREE_DEPTH));
    let deep = Frame::TaskRequest(TaskRequest {
        id: "t".to_string(),
        command: Some(CommandSpec {
            executable: "ls".to_string(),
            arguments: vec![],
            working_tree: Some(nested(MAX_TREE_DEPTH + 1)),
        }),
    });
    assert!(!deep.depth_fits());
    assert!(Frame::Init(alice()).depth_fits());
}
