use graph_exec::rpc::{
    encode_command, encode_response, parse_command, parse_response, PendingTable,
    COMMAND_HEADER_LEN, RESPONSE_HEADER_LEN,
};
use graph_exec::vertex::RemoteVertex;

#[test]
fn command_bytes_are_fixed_width_little_endian() {
    let frame = encode_command(0x0102, 0x0A0B0C0D, &vec![0xEE, 0xFF]);
    let mut expected = vec![0x02, 0x01];
    expected.extend(vec![0u8; 14]);
    expected.extend(vec![0x0D, 0x0C, 0x0B, 0x0A]);
    expected.extend(vec![2, 0, 0, 0, 0, 0, 0, 0]);
    expected.extend(vec![0xEE, 0xFF]);
    assert_eq!(frame, expected);
    assert_eq!(frame.len(), COMMAND_HEADER_LEN + 2);
}

#[test]
fn response_bytes_are_fixed_width_little_endian() {
    let frame = encode_response(u128::MAX, &vec![7]);
    let mut expected = vec![0xFFu8; 16];
    expected.extend(vec![1, 0, 0, 0, 0, 0, 0, 0]);
    expected.push(7);
    assert_eq!(frame, expected);
    assert_eq!(frame.len(), RESPONSE_HEADER_LEN + 1);
}

#[test]
fn command_parses_back_with_trailing_bytes() {
    let id: u128 = 0x1234_5678_9abc_def0_0fed_cba9_8765_4321;
    let mut bytes = encode_command(id, 77, &vec![1, 2, 3]);
    let used = bytes.len();
    bytes.extend(vec![9, 9]);
    let (pid, vid, aux, n) = parse_command(&bytes).unwrap();
    assert_eq!(pid, id);
    assert_eq!(vid, 77);
    assert_eq!(aux, vec![1, 2, 3]);
    assert_eq!(n, used);
}

#[test]
fn incomplete_frames_do_not_parse() {
    let bytes = encode_command(5, 6, &vec![1, 2, 3]);
    assert!(parse_command(&bytes[..bytes.len() - 1].to_vec()).is_none());
    assert!(parse_command(&bytes[..10].to_vec()).is_none());
    let resp = encode_response(5, &vec![4, 4]);
    assert!(parse_response(&resp[..resp.len() - 1].to_vec()).is_none());
    assert!(parse_response(&vec![]).is_none());
}

#[test]
fn pending_table_register_take() {
    let mut t: PendingTable<&str> = PendingTable::new();
    assert!(t.is_empty());
    assert!(t.register(1, "a").is_ok());
    assert_eq!(t.register(1, "b"), Err("b"));
    assert!(t.contains(1));
    assert_eq!(t.len(), 1);
    assert_eq!(t.take(2), None);
    assert_eq!(t.take(1), Some("a"));
    assert_eq!(t.take(1), None);
    assert!(t.is_empty());
}

#[test]
fn remote_round_trip_leaves_no_pending_entry() {
    let remote = RemoteVertex::new(3);
    let mut pending: PendingTable<Vec<u8>> = PendingTable::new();
    let aux = vec![1, 42, 0, 0, 0, 0, 0, 0, 0];
    let call = remote.start_execute(11, &mut pending, Vec::new(), &aux).ok().unwrap();
    assert_eq!(call.machine, 3);
    assert!(pending.contains(call.request_id));
    // the peer reads the request and echoes a fixed value under its identifier
    let (rid, vid, got_aux, _) = parse_command(&call.frame).unwrap();
    assert_eq!(vid, 11);
    assert_eq!(got_aux, aux);
    let answer = encode_response(rid, &vec![0x2A, 0, 0, 0, 0, 0, 0, 0]);
    // the inbound path routes the answer to the waiting call
    let (id, payload, _) = parse_response(&answer).unwrap();
    assert_eq!(id, call.request_id);
    assert!(pending.take(id).is_some());
    assert_eq!(payload, vec![0x2A, 0, 0, 0, 0, 0, 0, 0]);
    assert!(pending.is_empty());
}

#[test]
fn start_execute_with_id_refuses_an_identifier_in_use() {
    let remote = RemoteVertex::new(1);
    let mut pending: PendingTable<u8> = PendingTable::new();
    let call = remote.start_execute_with_id(5, 2, &mut pending, 10, &vec![]).ok().unwrap();
    assert_eq!(call.request_id, 5);
    assert_eq!(call.frame, encode_command(5, 2, &vec![]));
    assert_eq!(remote.start_execute_with_id(5, 3, &mut pending, 20, &vec![]).err(), Some(20));
    assert_eq!(pending.len(), 1);
    assert_eq!(pending.take(5), Some(10));
}

#[test]
fn concurrent_calls_stay_whole_and_get_their_own_results() {
    let remote = RemoteVertex::new(2);
    let mut pending: PendingTable<usize> = PendingTable::new();
    let k: usize = 8;
    let mut stream: Vec<u8> = Vec::new();
    let mut ids = Vec::new();
    for i in 0..k {
        let aux = vec![i as u8; i];
        let call = remote.start_execute(100 + i as u32, &mut pending, i, &aux).ok().unwrap();
        ids.push(call.request_id);
        stream.extend(call.frame);
    }
    for i in 0..k {
        for j in 0..i {
            assert_ne!(ids[i], ids[j]);
        }
    }
    // a peer reads the requests off the stream one by one
    let mut offset = 0;
    let mut answers: Vec<Vec<u8>> = Vec::new();
    for i in 0..k {
        let (rid, vid, aux, used) = parse_command(&stream[offset..].to_vec()).unwrap();
        assert_eq!(rid, ids[i]);
        assert_eq!(vid, 100 + i as u32);
        assert_eq!(aux, vec![i as u8; i]);
        offset += used;
        answers.push(encode_response(rid, &vec![i as u8]));
    }
    assert_eq!(offset, stream.len());
    // answers come back in reverse order; each reaches its own slot
    for answer in answers.iter().rev() {
        let (id, payload, _) = parse_response(answer).unwrap();
        let slot = pending.take(id).unwrap();
        assert_eq!(payload, vec![slot as u8]);
    }
    assert!(pending.is_empty());
}

#[test]
fn fresh_identifiers_differ() {
    let remote = RemoteVertex::new(0);
    let mut pending: PendingTable<()> = PendingTable::new();
    let a = remote.start_execute(1, &mut pending, (), &vec![]).ok().unwrap();
    let b = remote.start_execute(1, &mut pending, (), &vec![]).ok().unwrap();
    assert_ne!(a.request_id, b.request_id);
    assert_ne!(a.request_id, 0);
    assert_eq!(pending.len(), 2);
}
