use cds_core::{Client, Server, UserId};
use uuid::Uuid;

fn user_id_of(u: &Uuid) -> UserId {
    UserId::new(u.as_bytes().to_vec()).expect("a uuid is 16 bytes")
}

#[test]
fn round_trip() {
    // Start with a map of phone numbers to user IDs.
    let u1 = Uuid::new_v4();
    let u2 = Uuid::new_v4();
    let users = vec![(1234567890u64, user_id_of(&u1)), (1238675309u64, user_id_of(&u2))];

    // Initialize a server.
    let server = Server::new(&users).unwrap();

    // Initialize a client.
    let client = Client::new().unwrap();

    // Generate a blinded client request.
    let (prefix, c_p) = client.request_phone_number(1234567890).unwrap();

    // Get the bucket of blinded points where the phone number might be.
    let bucket = server.find_bucket(prefix);

    // Send the blinded phone number point to the server to be double-blinded.
    let sc_p = server.blind_phone_number(&c_p).unwrap();

    // Look through the bucket for the phone number and get the blinded user ID.
    let blinded_user_id = client
        .find_user_id(&sc_p, &bucket, 1234567890)
        .unwrap()
        .expect("should be a valid phone number");

    // Send the blinded user ID to the server, which unblinds it.
    let user_id = server.unblind_user_id(&blinded_user_id).unwrap();

    assert_eq!(user_id, user_id_of(&u1));
}
