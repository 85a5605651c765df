use voxel_world::block::WorldUpdate;
use voxel_world::stream::{encode_update, StreamReadState, StreamReader};

#[test]
fn needs_size_of_each_state() {
    assert_eq!(StreamReadState::Unset.needs_size(), Some(1));
    assert_eq!(StreamReadState::BlockUpdate.needs_size(), Some(4));
    assert_eq!(StreamReadState::PreMessage.needs_size(), Some(1));
    assert_eq!(StreamReadState::Message.needs_size(), None);
    assert_eq!(StreamReadState::PlayerPos.needs_size(), Some(12));
}

#[test]
fn from_tag_names_the_four_kinds_of_data() {
    assert_eq!(StreamReadState::from_tag(0), StreamReadState::BlockUpdate);
    assert_eq!(StreamReadState::from_tag(1), StreamReadState::PreMessage);
    assert_eq!(StreamReadState::from_tag(2), StreamReadState::Message);
    assert_eq!(StreamReadState::from_tag(3), StreamReadState::PlayerPos);
}

#[test]
fn a_new_reader_waits_for_a_tag() {
    let reader = StreamReader::new();
    assert_eq!(reader.state(), StreamReadState::Unset);
}

#[test]
fn encode_update_writes_tag_and_four_bytes() {
    assert_eq!(encode_update(WorldUpdate::new(5, 10, 20, 7)), vec![0, 5, 10, 20, 7]);
    assert_eq!(encode_update(WorldUpdate::new(255, 0, 255, 0)), vec![0, 255, 0, 255, 0]);
}

#[test]
fn a_block_update_is_read_byte_by_byte() {
    let mut reader = StreamReader::new();
    assert_eq!(reader.read_byte(0), Ok(None));
    assert_eq!(reader.state(), StreamReadState::BlockUpdate);
    assert_eq!(reader.read_byte(5), Ok(None));
    assert_eq!(reader.read_byte(10), Ok(None));
    assert_eq!(reader.read_byte(20), Ok(None));
    assert_eq!(reader.state(), StreamReadState::BlockUpdate);
    assert_eq!(reader.read_byte(7), Ok(Some(WorldUpdate::new(5, 10, 20, 7))));
    assert_eq!(reader.state(), StreamReadState::Unset);
}

#[test]
fn what_was_encoded_is_read_back() {
    let updates = vec![
        WorldUpdate::new(5, 10, 20, 7),
        WorldUpdate::new(0, 0, 0, 0),
        WorldUpdate::new(255, 255, 255, 255),
        WorldUpdate::new(3, 2, 1, 0),
    ];
    let mut bytes = Vec::new();
    for update in updates.iter() {
        bytes.extend(encode_update(*update));
    }
    let mut reader = StreamReader::new();
    let outcome = reader.read_bytes(&bytes);
    assert_eq!(outcome.updates, updates);
    assert_eq!(outcome.bad_tag, None);
    assert_eq!(reader.state(), StreamReadState::Unset);
}

#[test]
fn it_does_not_matter_how_the_stream_is_cut() {
    let bytes: Vec<u8> = vec![
        0, 1, 2, 3, 4, // a block update
        1, 3, // a message of 3 bytes is announced
        2, 9, 9, 0, // the message; its bytes are no tags
        3, 0, 1, 2, 3, 4, 5, 6, 7, 8, 9, 10, 11, // a player position
        0, 8, 7, 6, 5, // a block update
    ];
    let whole = StreamReader::new().read_bytes(&bytes);
    assert_eq!(whole.updates, vec![WorldUpdate::new(1, 2, 3, 4), WorldUpdate::new(8, 7, 6, 5)]);
    assert_eq!(whole.bad_tag, None);
    for cut in 0..=bytes.len() {
        let mut reader = StreamReader::new();
        let first = reader.read_bytes(&bytes[..cut]);
        let second = reader.read_bytes(&bytes[cut..]);
        assert_eq!(first.bad_tag, None);
        assert_eq!(second.bad_tag, None);
        let mut updates = first.updates;
        updates.extend(second.updates);
        assert_eq!(updates, whole.updates);
        assert_eq!(reader.state(), StreamReadState::Unset);
    }
}

#[test]
fn a_message_is_as_long_as_was_announced() {
    let mut reader = StreamReader::new();
    // nothing was announced yet: a message has no bytes
    assert_eq!(reader.read_byte(2), Ok(None));
    assert_eq!(reader.state(), StreamReadState::Unset);
    // two bytes are announced
    assert_eq!(reader.read_byte(1), Ok(None));
    assert_eq!(reader.state(), StreamReadState::PreMessage);
    assert_eq!(reader.read_byte(2), Ok(None));
    assert_eq!(reader.state(), StreamReadState::Unset);
    assert_eq!(reader.read_byte(2), Ok(None));
    assert_eq!(reader.state(), StreamReadState::Message);
    assert_eq!(reader.read_byte(200), Ok(None));
    assert_eq!(reader.state(), StreamReadState::Message);
    assert_eq!(reader.read_byte(201), Ok(None));
    assert_eq!(reader.state(), StreamReadState::Unset);
    // the length holds until another is announced
    assert_eq!(reader.read_byte(2), Ok(None));
    assert_eq!(reader.read_byte(0), Ok(None));
    assert_eq!(reader.read_byte(0), Ok(None));
    assert_eq!(reader.state(), StreamReadState::Unset);
    // a length of 0 is announced
    let outcome = reader.read_bytes(&[1, 0, 2, 0, 4, 3, 2, 1]);
    assert_eq!(outcome.updates, vec![WorldUpdate::new(4, 3, 2, 1)]);
    assert_eq!(outcome.bad_tag, None);
}

#[test]
fn a_player_position_has_twelve_bytes() {
    let mut reader = StreamReader::new();
    assert_eq!(reader.read_byte(3), Ok(None));
    for byte in 0..11u8 {
        assert_eq!(reader.read_byte(byte), Ok(None));
        assert_eq!(reader.state(), StreamReadState::PlayerPos);
    }
    assert_eq!(reader.read_byte(99), Ok(None));
    assert_eq!(reader.state(), StreamReadState::Unset);
}

#[test]
fn a_bad_tag_ends_the_reading() {
    let mut reader = StreamReader::new();
    let outcome = reader.read_bytes(&[0, 1, 2, 3, 4, 4, 0, 5, 6, 7, 8]);
    assert_eq!(outcome.updates, vec![WorldUpdate::new(1, 2, 3, 4)]);
    assert_eq!(outcome.bad_tag, Some(4));
    assert_eq!(reader.state(), StreamReadState::Unset);

    let mut reader = StreamReader::new();
    assert_eq!(reader.read_byte(255), Err(255));
    assert_eq!(reader.state(), StreamReadState::Unset);
    assert_eq!(reader.read_byte(4), Err(4));
}

#[test]
fn an_empty_piece_changes_nothing() {
    let mut reader = StreamReader::new();
    reader.read_bytes(&[0, 1, 2]);
    let outcome = reader.read_bytes(&[]);
    assert!(outcome.updates.is_empty());
    assert_eq!(outcome.bad_tag, None);
    assert_eq!(reader.state(), StreamReadState::BlockUpdate);
    let outcome = reader.read_bytes(&[3, 4]);
    assert_eq!(outcome.updates, vec![WorldUpdate::new(1, 2, 3, 4)]);
}
