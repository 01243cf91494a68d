use flow::codec::{decode_gossip, decode_i128, decode_u32, encode_gossip, encode_i128, encode_u32};
use flow::gossip::GossipMessage;

#[test]
fn u32_round_trip() {
    for x in [0u32, 1, 258, 65_536, u32::MAX] {
        let b = encode_u32(x);
        assert_eq!(b.len(), 4);
        assert_eq!(decode_u32(&b), Some(x));
    }
}

#[test]
fn u32_little_endian_layout() {
    assert_eq!(encode_u32(258), vec![2, 1, 0, 0]);
}

#[test]
fn u32_wrong_length_is_refused() {
    assert_eq!(decode_u32(&vec![1, 2, 3]), None);
    assert_eq!(decode_u32(&vec![1, 2, 3, 4, 5]), None);
}

#[test]
fn i128_round_trip() {
    for x in [0i128, 1, -1, 499_999_500_000, i128::MAX, i128::MIN] {
        let b = encode_i128(x);
        assert_eq!(b.len(), 16);
        assert_eq!(decode_i128(&b), Some(x));
    }
}

#[test]
fn i128_little_endian_layout() {
    let mut one = vec![0u8; 16];
    one[0] = 1;
    assert_eq!(encode_i128(1), one);
    assert_eq!(encode_i128(-1), vec![0xFF; 16]);
}

#[test]
fn i128_wrong_length_is_refused() {
    assert_eq!(decode_i128(&vec![0; 15]), None);
    assert_eq!(decode_i128(&vec![0; 17]), None);
}

#[test]
fn gossip_round_trip() {
    for m in [
        GossipMessage::Real(42i128),
        GossipMessage::Gossip(-7i128),
        GossipMessage::Real(i128::MIN),
        GossipMessage::Gossip(i128::MAX),
    ] {
        let b = encode_gossip(&m);
        assert_eq!(b.len(), 17);
        assert_eq!(decode_gossip(&b), Some(m));
    }
}

#[test]
fn gossip_bad_tag_is_refused() {
    let mut b = encode_gossip(&GossipMessage::Real(5i128));
    b[0] = 2;
    assert_eq!(decode_gossip(&b), None);
}

#[test]
fn gossip_wrong_length_is_refused() {
    assert_eq!(decode_gossip(&vec![0u8; 16]), None);
    assert_eq!(decode_gossip(&vec![0u8; 18]), None);
}
