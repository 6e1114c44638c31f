use minecraft_server::utils::{read_varint, varint_size, write_varint, VarintError};

#[test]
fn varint_round_trip_of_listed_values() {
    let values: [u32; 7] = [0, 1, 127, 128, 16384, 2_097_151, 2_147_483_647];
    for value in values {
        let encoded = write_varint(value);
        let len = encoded.len();
        assert_eq!(read_varint(&encoded), Ok((value, len)));
        assert_eq!(len as u32, varint_size(value));
    }
}

#[test]
fn varint_exact_encodings() {
    assert_eq!(write_varint(0), vec![0x00]);
    assert_eq!(write_varint(1), vec![0x01]);
    assert_eq!(write_varint(127), vec![0x7f]);
    assert_eq!(write_varint(128), vec![0x80, 0x01]);
    assert_eq!(write_varint(255), vec![0xff, 0x01]);
    assert_eq!(write_varint(300), vec![0xac, 0x02]);
    assert_eq!(write_varint(16384), vec![0x80, 0x80, 0x01]);
    assert_eq!(write_varint(2_097_151), vec![0xff, 0xff, 0x7f]);
    assert_eq!(write_varint(25565), vec![0xdd, 0xc7, 0x01]);
    assert_eq!(write_varint(2_147_483_647), vec![0xff, 0xff, 0xff, 0xff, 0x07]);
    assert_eq!(write_varint(u32::MAX), vec![0xff, 0xff, 0xff, 0xff, 0x0f]);
}

#[test]
fn varint_sizes_at_the_boundaries() {
    assert_eq!(varint_size(0), 1);
    assert_eq!(varint_size(127), 1);
    assert_eq!(varint_size(128), 2);
    assert_eq!(varint_size(16383), 2);
    assert_eq!(varint_size(16384), 3);
    assert_eq!(varint_size(2_097_151), 3);
    assert_eq!(varint_size(2_097_152), 4);
    assert_eq!(varint_size(268_435_455), 4);
    assert_eq!(varint_size(268_435_456), 5);
    assert_eq!(varint_size(u32::MAX), 5);
}

#[test]
fn varint_read_stops_at_the_first_terminating_byte() {
    assert_eq!(read_varint(&[0xac, 0x02, 0xff, 0xff]), Ok((300, 2)));
    assert_eq!(read_varint(&[0x00, 0x80]), Ok((0, 1)));
}

#[test]
fn varint_read_accepts_padded_encodings() {
    assert_eq!(read_varint(&[0x80, 0x00]), Ok((0, 2)));
    assert_eq!(read_varint(&[0x81, 0x80, 0x80, 0x80, 0x00]), Ok((1, 5)));
}

#[test]
fn varint_read_of_short_input_is_incomplete() {
    assert_eq!(read_varint(&[]), Err(VarintError::IncompleteData));
    assert_eq!(read_varint(&[0x80]), Err(VarintError::IncompleteData));
    assert_eq!(read_varint(&[0xff, 0xff, 0xff, 0xff]), Err(VarintError::IncompleteData));
}

#[test]
fn varint_read_past_five_bytes_overflows() {
    assert_eq!(read_varint(&[0x80, 0x80, 0x80, 0x80, 0x80]), Err(VarintError::Overflow));
    assert_eq!(read_varint(&[0xff, 0xff, 0xff, 0xff, 0xff, 0x01]), Err(VarintError::Overflow));
}

#[test]
fn varint_fifth_group_is_cut_to_32_bits() {
    assert_eq!(read_varint(&[0xff, 0xff, 0xff, 0xff, 0x7f]), Ok((u32::MAX, 5)));
    assert_eq!(read_varint(&[0x00 | 0x80, 0x80, 0x80, 0x80, 0x10]), Ok((0, 5)));
}
