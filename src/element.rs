//! Element types that an `AnyList` can hold, with their byte encoding.
use vstd::prelude::*;

verus! {

/// A type whose values can be stored as a fixed number of bytes.
///
/// The tag identifies the type; two element types with the same size are
/// told apart by it.
pub trait Element: Sized {
    /// Identity of the type.
    spec fn type_tag() -> u64;

    /// Number of bytes of one encoded value.
    spec fn byte_size() -> nat;

    /// The bytes that represent `self`.
    spec fn to_bytes(self) -> Seq<u8>;

    /// The value that `bytes` represent.
    spec fn from_bytes(bytes: Seq<u8>) -> Self;

    fn tag() -> (r: u64)
        ensures
            r == Self::type_tag(),
    ;

    fn size() -> (r: usize)
        ensures
            r as nat == Self::byte_size(),
            r > 0,
    ;

    /// The encoding of `self` as a vector.
    fn encode(&self) -> (r: Vec<u8>)
        ensures
            r@ == self.to_bytes(),
    ;

    /// Reads the value whose encoding starts at `buf[at]`.
    fn decode(buf: &Vec<u8>, at: usize) -> (r: Self)
        requires
            at + Self::byte_size() <= buf@.len(),
        ensures
            r == Self::from_bytes(buf@.subrange(at as int, at + Self::byte_size())),
    ;

    /// Decoding an encoding gives the value back.
    proof fn lemma_round_trip(v: Self)
        ensures
            v.to_bytes().len() == Self::byte_size(),
            Self::from_bytes(v.to_bytes()) == v,
    ;
}

impl Element for u32 {
    open spec fn type_tag() -> u64 {
        4
    }

    open spec fn byte_size() -> nat {
        4
    }

    open spec fn to_bytes(self) -> Seq<u8> {
        seq![self as u8, (self >> 8u32) as u8, (self >> 16u32) as u8, (self >> 24u32) as u8]
    }

    open spec fn from_bytes(bytes: Seq<u8>) -> u32 {
        (bytes[0] as u32) | ((bytes[1] as u32) << 8u32) | ((bytes[2] as u32) << 16u32) | ((
        bytes[3] as u32) << 24u32)
    }

    fn tag() -> (r: u64) {
        4
    }

    fn size() -> (r: usize) {
        4
    }

    fn encode(&self) -> (r: Vec<u8>) {
        let v = *self;
        vec![v as u8, (v >> 8u32) as u8, (v >> 16u32) as u8, (v >> 24u32) as u8]
    }

    fn decode(buf: &Vec<u8>, at: usize) -> (r: u32) {
        assert(at + 4 <= buf.len());
        let r = (buf[at] as u32) | ((buf[at + 1] as u32) << 8u32) | ((buf[at + 2] as u32) << 16u32)
            | ((buf[at + 3] as u32) << 24u32);
        proof {
            let s = buf@.subrange(at as int, at + 4);
            assert(s[0] == buf@[at as int] && s[1] == buf@[at + 1] && s[2] == buf@[at + 2] && s[3]
                == buf@[at + 3]);
        }
        r
    }

    proof fn lemma_round_trip(v: u32) {
        let b = v.to_bytes();
        let (b0, b1, b2, b3) = (b[0], b[1], b[2], b[3]);
        assert(b0 == v as u8 && b1 == (v >> 8u32) as u8 && b2 == (v >> 16u32) as u8 && b3 == (v
            >> 24u32) as u8);
        assert((b0 as u32) | ((b1 as u32) << 8u32) | ((b2 as u32) << 16u32) | ((b3 as u32) << 24u32)
            == v) by (bit_vector)
            requires
                b0 == v as u8,
                b1 == (v >> 8u32) as u8,
                b2 == (v >> 16u32) as u8,
                b3 == (v >> 24u32) as u8,
        ;
    }
}

impl Element for u8 {
    open spec fn type_tag() -> u64 {
        1
    }

    open spec fn byte_size() -> nat {
        1
    }

    open spec fn to_bytes(self) -> Seq<u8> {
        seq![self]
    }

    open spec fn from_bytes(bytes: Seq<u8>) -> u8 {
        bytes[0]
    }

    fn tag() -> (r: u64) {
        1
    }

    fn size() -> (r: usize) {
        1
    }

    fn encode(&self) -> (r: Vec<u8>) {
        vec![*self]
    }

    fn decode(buf: &Vec<u8>, at: usize) -> (r: u8) {
        let r = buf[at];
        proof {
            assert(buf@.subrange(at as int, at + 1)[0] == buf@[at as int]);
        }
        r
    }

    proof fn lemma_round_trip(v: u8) {
    }
}

impl Element for u16 {
    open spec fn type_tag() -> u64 {
        2
    }

    open spec fn byte_size() -> nat {
        2
    }

    open spec fn to_bytes(self) -> Seq<u8> {
        seq![self as u8, (self >> 8u16) as u8]
    }

    open spec fn from_bytes(bytes: Seq<u8>) -> u16 {
        (bytes[0] as u16) | ((bytes[1] as u16) << 8u16)
    }

    fn tag() -> (r: u64) {
        2
    }

    fn size() -> (r: usize) {
        2
    }

    fn encode(&self) -> (r: Vec<u8>) {
        let v = *self;
        vec![v as u8, (v >> 8u16) as u8]
    }

    fn decode(buf: &Vec<u8>, at: usize) -> (r: u16) {
        assert(at + 2 <= buf.len());
        let r = (buf[at] as u16) | ((buf[at + 1] as u16) << 8u16);
        proof {
            let s = buf@.subrange(at as int, at + 2);
            assert(s[0] == buf@[at as int] && s[1] == buf@[at + 1]);
        }
        r
    }

    proof fn lemma_round_trip(v: u16) {
        let b = v.to_bytes();
        let (b0, b1) = (b[0], b[1]);
        assert(b0 == v as u8 && b1 == (v >> 8u16) as u8);
        assert((b0 as u16) | ((b1 as u16) << 8u16) == v) by (bit_vector)
            requires
                b0 == v as u8,
                b1 == (v >> 8u16) as u8,
        ;
    }
}

impl Element for u64 {
    open spec fn type_tag() -> u64 {
        8
    }

    open spec fn byte_size() -> nat {
        8
    }

    open spec fn to_bytes(self) -> Seq<u8> {
        seq![
            self as u8,
            (self >> 8u64) as u8,
            (self >> 16u64) as u8,
            (self >> 24u64) as u8,
            (self >> 32u64) as u8,
            (self >> 40u64) as u8,
            (self >> 48u64) as u8,
            (self >> 56u64) as u8,
        ]
    }

    open spec fn from_bytes(bytes: Seq<u8>) -> u64 {
        (bytes[0] as u64) | ((bytes[1] as u64) << 8u64) | ((bytes[2] as u64) << 16u64) | ((
        bytes[3] as u64) << 24u64) | ((bytes[4] as u64) << 32u64) | ((bytes[5] as u64) << 40u64)
            | ((bytes[6] as u64) << 48u64) | ((bytes[7] as u64) << 56u64)
    }

    fn tag() -> (r: u64) {
        8
    }

    fn size() -> (r: usize) {
        8
    }

    fn encode(&self) -> (r: Vec<u8>) {
        let v = *self;
        vec![
            v as u8,
            (v >> 8u64) as u8,
            (v >> 16u64) as u8,
            (v >> 24u64) as u8,
            (v >> 32u64) as u8,
            (v >> 40u64) as u8,
            (v >> 48u64) as u8,
            (v >> 56u64) as u8,
        ]
    }

    fn decode(buf: &Vec<u8>, at: usize) -> (r: u64) {
        assert(at + 8 <= buf.len());
        let r = (buf[at] as u64) | ((buf[at + 1] as u64) << 8u64) | ((buf[at + 2] as u64) << 16u64)
            | ((buf[at + 3] as u64) << 24u64) | ((buf[at + 4] as u64) << 32u64) | ((buf[at
            + 5] as u64) << 40u64) | ((buf[at + 6] as u64) << 48u64) | ((buf[at + 7] as u64)
            << 56u64);
        proof {
            let s = buf@.subrange(at as int, at + 8);
            assert(s[0] == buf@[at as int] && s[1] == buf@[at + 1] && s[2] == buf@[at + 2] && s[3]
                == buf@[at + 3] && s[4] == buf@[at + 4] && s[5] == buf@[at + 5] && s[6] == buf@[at
                + 6] && s[7] == buf@[at + 7]);
        }
        r
    }

    proof fn lemma_round_trip(v: u64) {
        let b = v.to_bytes();
        let (b0, b1, b2, b3, b4, b5, b6, b7) = (b[0], b[1], b[2], b[3], b[4], b[5], b[6], b[7]);
        assert(b0 == v as u8 && b1 == (v >> 8u64) as u8 && b2 == (v >> 16u64) as u8 && b3 == (v
            >> 24u64) as u8 && b4 == (v >> 32u64) as u8 && b5 == (v >> 40u64) as u8 && b6 == (v
            >> 48u64) as u8 && b7 == (v >> 56u64) as u8);
        assert((b0 as u64) | ((b1 as u64) << 8u64) | ((b2 as u64) << 16u64) | ((b3 as u64) << 24u64)
            | ((b4 as u64) << 32u64) | ((b5 as u64) << 40u64) | ((b6 as u64) << 48u64) | ((
        b7 as u64) << 56u64) == v) by (bit_vector)
            requires
                b0 == v as u8,
                b1 == (v >> 8u64) as u8,
                b2 == (v >> 16u64) as u8,
                b3 == (v >> 24u64) as u8,
                b4 == (v >> 32u64) as u8,
                b5 == (v >> 40u64) as u8,
                b6 == (v >> 48u64) as u8,
                b7 == (v >> 56u64) as u8,
        ;
    }
}

/// Stored as eight bytes on every platform.
impl Element for usize {
    open spec fn type_tag() -> u64 {
        16
    }

    open spec fn byte_size() -> nat {
        8
    }

    open spec fn to_bytes(self) -> Seq<u8> {
        (self as u64).to_bytes()
    }

    open spec fn from_bytes(bytes: Seq<u8>) -> usize {
        u64::from_bytes(bytes) as usize
    }

    fn tag() -> (r: u64) {
        16
    }

    fn size() -> (r: usize) {
        8
    }

    fn encode(&self) -> (r: Vec<u8>) {
        (*self as u64).encode()
    }

    fn decode(buf: &Vec<u8>, at: usize) -> (r: usize) {
        u64::decode(buf, at) as usize
    }

    proof fn lemma_round_trip(v: usize) {
        u64::lemma_round_trip(v as u64);
    }
}

impl Element for i32 {
    open spec fn type_tag() -> u64 {
        36
    }

    open spec fn byte_size() -> nat {
        4
    }

    open spec fn to_bytes(self) -> Seq<u8> {
        (self as u32).to_bytes()
    }

    open spec fn from_bytes(bytes: Seq<u8>) -> i32 {
        u32::from_bytes(bytes) as i32
    }

    fn tag() -> (r: u64) {
        36
    }

    fn size() -> (r: usize) {
        4
    }

    fn encode(&self) -> (r: Vec<u8>) {
        (*self as u32).encode()
    }

    fn decode(buf: &Vec<u8>, at: usize) -> (r: i32) {
        u32::decode(buf, at) as i32
    }

    proof fn lemma_round_trip(v: i32) {
        u32::lemma_round_trip(v as u32);
        assert((v as u32) as i32 == v) by (bit_vector);
    }
}

impl Element for i64 {
    open spec fn type_tag() -> u64 {
        72
    }

    open spec fn byte_size() -> nat {
        8
    }

    open spec fn to_bytes(self) -> Seq<u8> {
        (self as u64).to_bytes()
    }

    open spec fn from_bytes(bytes: Seq<u8>) -> i64 {
        u64::from_bytes(bytes) as i64
    }

    fn tag() -> (r: u64) {
        72
    }

    fn size() -> (r: usize) {
        8
    }

    fn encode(&self) -> (r: Vec<u8>) {
        (*self as u64).encode()
    }

    fn decode(buf: &Vec<u8>, at: usize) -> (r: i64) {
        u64::decode(buf, at) as i64
    }

    proof fn lemma_round_trip(v: i64) {
        u64::lemma_round_trip(v as u64);
        assert((v as u64) as i64 == v) by (bit_vector);
    }
}

} // verus!
