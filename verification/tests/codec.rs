//! Wire codec and framing behaviour, on concrete packets and buffers.

use esprit2::character::{Action, Alliance};
use esprit2::protocol::{
    decode_client, decode_server, encode_client, encode_server, ClientAuthentication, ClientPacket,
    PieceSnapshot, ServerPacket, WorldSnapshot,
};
use esprit2::transport::{PacketReceiver, PacketSender};
use esprit2::world::Tile;
use esprit2::Error;

fn sample_snapshot() -> WorldSnapshot {
    WorldSnapshot {
        pieces: vec![
            PieceSnapshot {
                id: 0,
                x: 1,
                y: -2,
                hp: 30,
                sp: 10,
                action_delay: 7,
                player_controlled: true,
                alliance: Alliance::Friendly,
            },
            PieceSnapshot {
                id: 1,
                x: -4,
                y: 5,
                hp: 12,
                sp: 0,
                action_delay: 0,
                player_controlled: false,
                alliance: Alliance::Enemy,
            },
        ],
        width: 3,
        height: 2,
        tiles: vec![
            Tile::Floor,
            Tile::Wall,
            Tile::Exit,
            Tile::Floor,
            Tile::Floor,
            Tile::Wall,
        ],
    }
}

#[test]
fn client_packets_round_trip() {
    let packets = vec![
        ClientPacket::Ping,
        ClientPacket::Action { actor: 7, action: Action::Wait(12) },
        ClientPacket::Action { actor: 0, action: Action::Move(3, 4) },
        ClientPacket::Action { actor: 1, action: Action::Move(-3, -4) },
        ClientPacket::Action { actor: 2, action: Action::Attack(0, 2, 2) },
        ClientPacket::Action { actor: u64::MAX, action: Action::Cast(5, -1, 0) },
        ClientPacket::Authenticate(ClientAuthentication { username: b"a".to_vec() }),
        ClientPacket::Authenticate(ClientAuthentication { username: Vec::new() }),
        ClientPacket::Route(b"token".to_vec()),
    ];
    for p in packets {
        let bytes = encode_client(&p);
        assert_eq!(decode_client(&bytes), Ok(p));
    }
}

#[test]
fn server_packets_round_trip() {
    let packets = vec![
        ServerPacket::Ping,
        ServerPacket::Message(b"hello".to_vec()),
        ServerPacket::World(sample_snapshot()),
        ServerPacket::World(WorldSnapshot { pieces: Vec::new(), width: 0, height: 0, tiles: Vec::new() }),
    ];
    for p in packets {
        let bytes = encode_server(&p);
        assert_eq!(decode_server(&bytes), Ok(p));
    }
}

#[test]
fn ping_encoding_is_one_tag_byte() {
    assert_eq!(encode_client(&ClientPacket::Ping), vec![0u8]);
    assert_eq!(encode_server(&ServerPacket::Ping), vec![0u8]);
}

#[test]
fn move_action_encoding_is_exact() {
    // Tag 1 (action packet), actor little-endian, tag 1 (move), then the
    // two coordinates shifted by 2^31 into unsigned words.
    let bytes = encode_client(&ClientPacket::Action { actor: 2, action: Action::Move(3, 4) });
    assert_eq!(
        bytes,
        vec![
            1, // packet tag
            2, 0, 0, 0, 0, 0, 0, 0, // actor
            1, // move tag
            3, 0, 0, 0x80, // x = 3 + 2^31
            4, 0, 0, 0x80, // y = 4 + 2^31
        ]
    );
}

#[test]
fn decoding_rejects_what_encoding_cannot_produce() {
    // An unknown tag.
    assert_eq!(decode_client(&vec![9u8]), Err(Error::Malformed));
    // An empty buffer.
    assert_eq!(decode_client(&Vec::new()), Err(Error::Malformed));
    // A trailing byte after a complete packet.
    assert_eq!(decode_client(&vec![0u8, 0u8]), Err(Error::Malformed));
    // A length prefix pointing past the buffer.
    assert_eq!(decode_client(&vec![2u8, 255, 255, 255, 255]), Err(Error::Malformed));
    // A truncated action.
    assert_eq!(decode_client(&vec![1u8, 7, 0, 0]), Err(Error::Malformed));
    // A corrupted flag byte inside a snapshot is rejected too.
    let mut bytes = encode_server(&ServerPacket::World(sample_snapshot()));
    // The player_controlled byte of the first piece: tag + 12 header + 32.
    bytes[1 + 12 + 32] = 7;
    assert_eq!(decode_server(&bytes), Err(Error::Malformed));
}

#[test]
fn truncated_frame_reports_need_more_data() {
    let mut sender = PacketSender::default();
    sender
        .queue_client(&ClientPacket::Authenticate(ClientAuthentication {
            username: b"somebody".to_vec(),
        }))
        .unwrap();
    let framed = sender.buf.clone();
    assert!(framed.len() > 5);

    // Length prefix present, payload short by one byte: no frame yet, the
    // buffer is kept intact, nothing is corrupted.
    let mut receiver = PacketReceiver::default();
    receiver.push_bytes(&framed[..framed.len() - 1]);
    assert_eq!(receiver.next_frame(), None);
    assert_eq!(receiver.buf.len(), framed.len() - 1);

    // The last byte arrives: exactly one frame comes out and the buffer
    // drains.
    receiver.push_bytes(&framed[framed.len() - 1..]);
    let payload = receiver.next_frame().expect("complete frame");
    assert_eq!(
        decode_client(&payload),
        Ok(ClientPacket::Authenticate(ClientAuthentication { username: b"somebody".to_vec() }))
    );
    assert!(receiver.buf.is_empty());
    assert_eq!(receiver.next_frame(), None);
}

#[test]
fn two_frames_in_one_chunk_come_out_in_order() {
    let mut sender = PacketSender::default();
    sender.queue_client(&ClientPacket::Ping).unwrap();
    sender
        .queue_client(&ClientPacket::Route(b"r".to_vec()))
        .unwrap();
    let mut receiver = PacketReceiver::default();
    receiver.push_bytes(&sender.buf);
    let first = receiver.next_frame().unwrap();
    assert_eq!(decode_client(&first), Ok(ClientPacket::Ping));
    let second = receiver.next_frame().unwrap();
    assert_eq!(decode_client(&second), Ok(ClientPacket::Route(b"r".to_vec())));
    assert_eq!(receiver.next_frame(), None);
}

#[test]
fn partial_writes_keep_the_rest_queued() {
    let mut sender = PacketSender::default();
    sender.queue_server(&ServerPacket::Message(b"abcdef".to_vec())).unwrap();
    let total = sender.buf.clone();
    sender.written(3);
    assert_eq!(sender.buf, total[3..].to_vec());
    sender.written(sender.buf.len());
    assert!(sender.buf.is_empty());
}
