//! The integers and strings that can be keys and values.

use crate::codec::{
    cbor_decode_i64, cbor_decode_text, cbor_decode_u64, cbor_encode_i64, cbor_encode_text,
    cbor_encode_u64, cbor_i64, cbor_text, cbor_u64, lemma_read_i64, lemma_read_text,
    lemma_read_u64, read_i64, read_text, read_u64,
};
use crate::error::Error;
use crate::model::{KeyType, ValueType};
use vstd::prelude::*;
use vstd::utf8::encode_utf8;

verus! {

impl ValueType for u8 {
    open spec fn encode(v: u8) -> Seq<u8> {
        cbor_u64(v as u64)
    }

    open spec fn decode(bytes: Seq<u8>) -> Option<u8> {
        match read_u64(bytes) {
            Some(x) => if x <= 0xff {
                Some(x as u8)
            } else {
                None
            },
            None => None,
        }
    }

    open spec fn valid(v: u8) -> bool {
        true
    }

    proof fn lemma_faithful(v: u8) {
        lemma_read_u64(v as u64);
    }

    fn to_bytes(&self) -> (r: Result<Vec<u8>, Error>) {
        cbor_encode_u64(*self as u64)
    }

    fn from_bytes(bytes: &[u8]) -> (r: Result<Self, Error>) {
        let wide = cbor_decode_u64(bytes)?;
        if wide <= 0xff {
            Ok(wide as u8)
        } else {
            Err(Error::CborDeIoError)
        }
    }

    fn duplicate(&self) -> (r: Self) {
        *self
    }
}

impl KeyType for u8 {
}

impl ValueType for u16 {
    open spec fn encode(v: u16) -> Seq<u8> {
        cbor_u64(v as u64)
    }

    open spec fn decode(bytes: Seq<u8>) -> Option<u16> {
        match read_u64(bytes) {
            Some(x) => if x <= 0xffff {
                Some(x as u16)
            } else {
                None
            },
            None => None,
        }
    }

    open spec fn valid(v: u16) -> bool {
        true
    }

    proof fn lemma_faithful(v: u16) {
        lemma_read_u64(v as u64);
    }

    fn to_bytes(&self) -> (r: Result<Vec<u8>, Error>) {
        cbor_encode_u64(*self as u64)
    }

    fn from_bytes(bytes: &[u8]) -> (r: Result<Self, Error>) {
        let wide = cbor_decode_u64(bytes)?;
        if wide <= 0xffff {
            Ok(wide as u16)
        } else {
            Err(Error::CborDeIoError)
        }
    }

    fn duplicate(&self) -> (r: Self) {
        *self
    }
}

impl KeyType for u16 {
}

impl ValueType for u32 {
    open spec fn encode(v: u32) -> Seq<u8> {
        cbor_u64(v as u64)
    }

    open spec fn decode(bytes: Seq<u8>) -> Option<u32> {
        match read_u64(bytes) {
            Some(x) => if x <= 0xffff_ffff {
                Some(x as u32)
            } else {
                None
            },
            None => None,
        }
    }

    open spec fn valid(v: u32) -> bool {
        true
    }

    proof fn lemma_faithful(v: u32) {
        lemma_read_u64(v as u64);
    }

    fn to_bytes(&self) -> (r: Result<Vec<u8>, Error>) {
        cbor_encode_u64(*self as u64)
    }

    fn from_bytes(bytes: &[u8]) -> (r: Result<Self, Error>) {
        let wide = cbor_decode_u64(bytes)?;
        if wide <= 0xffff_ffff {
            Ok(wide as u32)
        } else {
            Err(Error::CborDeIoError)
        }
    }

    fn duplicate(&self) -> (r: Self) {
        *self
    }
}

impl KeyType for u32 {
}

impl ValueType for u64 {
    open spec fn encode(v: u64) -> Seq<u8> {
        cbor_u64(v)
    }

    open spec fn decode(bytes: Seq<u8>) -> Option<u64> {
        read_u64(bytes)
    }

    open spec fn valid(v: u64) -> bool {
        true
    }

    proof fn lemma_faithful(v: u64) {
        lemma_read_u64(v);
    }

    fn to_bytes(&self) -> (r: Result<Vec<u8>, Error>) {
        cbor_encode_u64(*self)
    }

    fn from_bytes(bytes: &[u8]) -> (r: Result<Self, Error>) {
        cbor_decode_u64(bytes)
    }

    fn duplicate(&self) -> (r: Self) {
        *self
    }
}

impl KeyType for u64 {
}

impl ValueType for i8 {
    open spec fn encode(v: i8) -> Seq<u8> {
        cbor_i64(v as i64)
    }

    open spec fn decode(bytes: Seq<u8>) -> Option<i8> {
        match read_i64(bytes) {
            Some(x) => if -0x80 <= x <= 0x7f {
                Some(x as i8)
            } else {
                None
            },
            None => None,
        }
    }

    open spec fn valid(v: i8) -> bool {
        true
    }

    proof fn lemma_faithful(v: i8) {
        lemma_read_i64(v as i64);
    }

    fn to_bytes(&self) -> (r: Result<Vec<u8>, Error>) {
        cbor_encode_i64(*self as i64)
    }

    fn from_bytes(bytes: &[u8]) -> (r: Result<Self, Error>) {
        let wide = cbor_decode_i64(bytes)?;
        if -0x80 <= wide && wide <= 0x7f {
            Ok(wide as i8)
        } else {
            Err(Error::CborDeIoError)
        }
    }

    fn duplicate(&self) -> (r: Self) {
        *self
    }
}

impl KeyType for i8 {
}

impl ValueType for i16 {
    open spec fn encode(v: i16) -> Seq<u8> {
        cbor_i64(v as i64)
    }

    open spec fn decode(bytes: Seq<u8>) -> Option<i16> {
        match read_i64(bytes) {
            Some(x) => if -0x8000 <= x <= 0x7fff {
                Some(x as i16)
            } else {
                None
            },
            None => None,
        }
    }

    open spec fn valid(v: i16) -> bool {
        true
    }

    proof fn lemma_faithful(v: i16) {
        lemma_read_i64(v as i64);
    }

    fn to_bytes(&self) -> (r: Result<Vec<u8>, Error>) {
        cbor_encode_i64(*self as i64)
    }

    fn from_bytes(bytes: &[u8]) -> (r: Result<Self, Error>) {
        let wide = cbor_decode_i64(bytes)?;
        if -0x8000 <= wide && wide <= 0x7fff {
            Ok(wide as i16)
        } else {
            Err(Error::CborDeIoError)
        }
    }

    fn duplicate(&self) -> (r: Self) {
        *self
    }
}

impl KeyType for i16 {
}

impl ValueType for i32 {
    open spec fn encode(v: i32) -> Seq<u8> {
        cbor_i64(v as i64)
    }

    open spec fn decode(bytes: Seq<u8>) -> Option<i32> {
        match read_i64(bytes) {
            Some(x) => if -0x8000_0000 <= x <= 0x7fff_ffff {
                Some(x as i32)
            } else {
                None
            },
            None => None,
        }
    }

    open spec fn valid(v: i32) -> bool {
        true
    }

    proof fn lemma_faithful(v: i32) {
        lemma_read_i64(v as i64);
    }

    fn to_bytes(&self) -> (r: Result<Vec<u8>, Error>) {
        cbor_encode_i64(*self as i64)
    }

    fn from_bytes(bytes: &[u8]) -> (r: Result<Self, Error>) {
        let wide = cbor_decode_i64(bytes)?;
        if -0x8000_0000 <= wide && wide <= 0x7fff_ffff {
            Ok(wide as i32)
        } else {
            Err(Error::CborDeIoError)
        }
    }

    fn duplicate(&self) -> (r: Self) {
        *self
    }
}

impl KeyType for i32 {
}

impl ValueType for i64 {
    open spec fn encode(v: i64) -> Seq<u8> {
        cbor_i64(v)
    }

    open spec fn decode(bytes: Seq<u8>) -> Option<i64> {
        read_i64(bytes)
    }

    open spec fn valid(v: i64) -> bool {
        true
    }

    proof fn lemma_faithful(v: i64) {
        lemma_read_i64(v);
    }

    fn to_bytes(&self) -> (r: Result<Vec<u8>, Error>) {
        cbor_encode_i64(*self)
    }

    fn from_bytes(bytes: &[u8]) -> (r: Result<Self, Error>) {
        cbor_decode_i64(bytes)
    }

    fn duplicate(&self) -> (r: Self) {
        *self
    }
}

impl KeyType for i64 {
}

impl ValueType for String {
    open spec fn encode(v: Seq<char>) -> Seq<u8> {
        cbor_text(v)
    }

    open spec fn decode(bytes: Seq<u8>) -> Option<Seq<char>> {
        read_text(bytes)
    }

    /// The UTF-8 form of a string is not longer than a `u64` can tell.
    open spec fn valid(v: Seq<char>) -> bool {
        encode_utf8(v).len() <= u64::MAX
    }

    proof fn lemma_faithful(v: Seq<char>) {
        lemma_read_text(v);
    }

    fn to_bytes(&self) -> (r: Result<Vec<u8>, Error>) {
        cbor_encode_text(self.as_str())
    }

    fn from_bytes(bytes: &[u8]) -> (r: Result<Self, Error>) {
        cbor_decode_text(bytes)
    }

    fn duplicate(&self) -> (r: Self) {
        self.clone()
    }
}

impl KeyType for String {
}

} // verus!
