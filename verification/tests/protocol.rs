use cds_core::{CdsError, Client, Server, UserId};

fn uid(byte: u8) -> UserId {
    UserId::new(vec![byte; 16]).expect("16 bytes")
}

fn lookup(server: &Server, client: &Client, p: u64) -> Option<UserId> {
    let (prefix, c_p) = client.request_phone_number(p).unwrap();
    let bucket = server.find_bucket(prefix);
    let sc_p = server.blind_phone_number(&c_p).unwrap();
    match client.find_user_id(&sc_p, &bucket, p).unwrap() {
        Some(blinded) => Some(server.unblind_user_id(&blinded).unwrap()),
        None => None,
    }
}

#[test]
fn scenario_two_numbers() {
    // Enrollment {"123-456-7890": U1, "123-8675309": U2}.
    let users = vec![(1234567890u64, uid(0x11)), (1238675309u64, uid(0x22))];
    let server = Server::new(&users).unwrap();
    let client = Client::new().unwrap();

    assert_eq!(lookup(&server, &client, 1234567890), Some(uid(0x11)));
    // "555-000-0000" is not enrolled: no identifier, never a wrong one.
    assert_eq!(lookup(&server, &client, 5550000000), None);
    // The second number is unaffected by the first query.
    assert_eq!(lookup(&server, &client, 1238675309), Some(uid(0x22)));
}

#[test]
fn negative_match_empty_enrollment() {
    let server = Server::new(&Vec::new()).unwrap();
    let client = Client::new().unwrap();
    assert_eq!(lookup(&server, &client, 1234567890), None);
}

#[test]
fn unknown_prefix_gives_empty_bucket() {
    let server = Server::new(&vec![(1234567890u64, uid(0x33))]).unwrap();
    // SHA-256 of the big-endian bytes of 5550000000 starts with these bytes.
    let bucket = server.find_bucket([215, 245, 195, 26, 120, 244, 130, 189]);
    assert_eq!(bucket.rows.len(), 0);
}

#[test]
fn prefix_is_sha256_of_big_endian_number() {
    let client = Client::new().unwrap();
    let (prefix, _) = client.request_phone_number(1234567890).unwrap();
    // SHA-256 of 00 00 00 00 49 96 02 d2, truncated to 8 bytes.
    assert_eq!(prefix, [218, 98, 153, 44, 171, 155, 186, 161]);
    let (prefix2, _) = client.request_phone_number(1238675309).unwrap();
    assert_eq!(prefix2, [210, 15, 200, 81, 243, 194, 222, 120]);
}

#[test]
fn requests_are_deterministic() {
    let client = Client::new().unwrap();
    let (prefix_a, point_a) = client.request_phone_number(1234567890).unwrap();
    let (prefix_b, point_b) = client.request_phone_number(1234567890).unwrap();
    assert_eq!(prefix_a, prefix_b);
    assert_eq!(point_a, point_b);
    // A different client blinds differently but cuts the same prefix.
    let other = Client::new().unwrap();
    let (prefix_c, point_c) = other.request_phone_number(1234567890).unwrap();
    assert_eq!(prefix_a, prefix_c);
    assert_ne!(point_a, point_c);
    // Distinct numbers hash to distinct points, so one client blinds
    // them to distinct queries.
    let (_, point_d) = client.request_phone_number(1238675309).unwrap();
    assert_ne!(point_a, point_d);
}

#[test]
fn encode_decode_identifier() {
    let id = UserId::new((0u8..16).collect()).unwrap();
    let pt = cds_core::encode_user_id(&id).unwrap();
    assert_eq!(pt.len(), 33);
    // The result is a compressed encoding, not the compact candidate.
    assert!(pt[0] == 2 || pt[0] == 3);
    // The identifier sits in bytes 1..17.
    assert_eq!(&pt[1..17], id.as_bytes().as_slice());
    let back = cds_core::decode_user_id(&pt).unwrap();
    assert_eq!(back, id);
    // Encoding is deterministic: the least working counter is unique.
    let pt2 = cds_core::encode_user_id(&id).unwrap();
    assert_eq!(pt, pt2);
}

#[test]
fn blind_then_unblind_recovers_point() {
    let id = uid(0x5a);
    let pt = cds_core::encode_user_id(&id).unwrap();
    let server = Server::new(&Vec::new()).unwrap();
    let blinded = server.blind_phone_number(&pt).unwrap();
    // Blinding moves the point.
    assert_ne!(blinded, pt);
    // Unblinding inverts it exactly, so the identifier bytes reappear.
    let back = server.unblind_user_id(&blinded).unwrap();
    assert_eq!(back, id);
}

#[test]
fn malformed_points_are_rejected() {
    let server = Server::new(&vec![(1234567890u64, uid(0x44))]).unwrap();
    let client = Client::new().unwrap();
    let garbage = vec![0xffu8; 33];

    assert_eq!(server.blind_phone_number(&garbage).unwrap_err(), CdsError::MalformedPoint);
    assert_eq!(server.unblind_user_id(&garbage).unwrap_err(), CdsError::MalformedPoint);

    let (prefix, _) = client.request_phone_number(1234567890).unwrap();
    let bucket = server.find_bucket(prefix);
    assert_eq!(
        client.find_user_id(&garbage, &bucket, 1234567890).unwrap_err(),
        CdsError::MalformedPoint
    );

    // A short byte string is rejected too, not decoded.
    let short = vec![2u8; 5];
    assert_eq!(server.blind_phone_number(&short).unwrap_err(), CdsError::MalformedPoint);
}

#[test]
fn user_id_needs_sixteen_bytes() {
    assert!(UserId::new(vec![1u8; 15]).is_none());
    assert!(UserId::new(vec![1u8; 17]).is_none());
    assert!(UserId::new(vec![1u8; 16]).is_some());
}
