use dylint::hex::{hash_u64, short_hash, to_hex};
use dylint::revs::Oid;
use dylint::short_id::ShortId;

#[test]
fn to_hex_zero_is_sixteen_zeros() {
    assert_eq!(to_hex(0), "0000000000000000");
}

#[test]
fn to_hex_writes_little_endian_bytes() {
    assert_eq!(to_hex(0x0123_4567_89ab_cdef), "efcdab8967452301");
    assert_eq!(to_hex(1), "0100000000000000");
    assert_eq!(to_hex(u64::MAX), "ffffffffffffffff");
}

#[test]
fn to_hex_is_always_sixteen_characters() {
    for n in [0u64, 1, 255, 256, 65_535, 1 << 40, u64::MAX - 1] {
        assert_eq!(to_hex(n).len(), 16);
    }
}

#[test]
fn short_hash_is_hex_of_hash() {
    for s in ["", "a", "https://github.com/trailofbits/dylint"] {
        let h = short_hash(s);
        assert_eq!(h, to_hex(hash_u64(s)));
        assert_eq!(h.len(), 16);
        assert!(h.chars().all(|c| c.is_ascii_hexdigit() && !c.is_ascii_uppercase()));
    }
}

#[test]
fn hash_u64_is_deterministic_and_discriminating() {
    assert_eq!(hash_u64("dylint"), hash_u64("dylint"));
    assert_ne!(hash_u64("dylint"), hash_u64("dylint2"));
}

#[test]
fn short_id_is_first_seven_hex_digits() {
    let mut bytes = [0u8; 20];
    bytes[0] = 0x12;
    bytes[1] = 0x34;
    bytes[2] = 0xab;
    bytes[3] = 0xcd;
    let oid = Oid { bytes };
    assert_eq!(oid.short_id(), "1234abc");
}

#[test]
fn hashing_bytes() {
    let empty = dylint::hex::hash_u64_bytes(b"");
    let abc = dylint::hex::hash_u64_bytes(b"abc");
    assert_ne!(empty, abc);
    assert_eq!(abc, dylint::hex::hash_u64_bytes(b"abc"));
    // A string is hashed as its bytes followed by 0xff.
    assert_eq!(dylint::hex::hash_u64_bytes(b"abc\xff"), dylint::hex::hash_u64("abc"));
}
