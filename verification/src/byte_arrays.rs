//! Typed binary arrays of specific sizes, encoded as base64 text.

use vstd::prelude::*;
use vstd::string::StringSliceAdditionalSpecFns;

use crate::table::SameValue;
use crate::encoding::{base64_encode, base64_encode_nopad_len, base64_decode_nopad_into, base64_nopad_decoding, base64_encoding};

verus! {

/// Eight bytes.
#[derive(Clone, Copy, Debug, PartialEq, Eq)]
pub struct B8(pub [u8; 8]);

/// Thirty-two bytes.
#[derive(Clone, Copy, Debug, PartialEq, Eq)]
pub struct B32(pub [u8; 32]);

/// Sixty-four bytes.
#[derive(Clone, Copy, Debug, PartialEq, Eq)]
pub struct B64(pub [u8; 64]);

/// What `from_base64` gives for an array of `n` bytes from `text`: the
/// unpadded decoding of the first symbols of the text, as many as the
/// unpadded encoding of `n` bytes takes.
pub open spec fn fixed_base64_decoding(text: Seq<u8>, n: nat) -> Result<Seq<u8>, Seq<char>> {
    base64_nopad_decoding(text.subrange(0, ((8 * n + 5) / 6) as int))
}

impl B8 {
    pub fn to_base64(&self) -> (text: String)
        ensures
            text@ == base64_encoding(self.0@),
    {
        base64_encode(&self.0)
    }

    pub fn from_base64(s: &str) -> (res: Result<B8, String>)
        requires
            s.spec_bytes().len() >= 11,
        ensures
            match fixed_base64_decoding(s.spec_bytes(), 8) {
                Ok(data) => res matches Ok(b) && b.0@ == data,
                Err(msg) => res matches Err(e) && e@ == msg,
            },
    {
        let mut data = [0u8; 8];
        let n = base64_encode_nopad_len(8);
        let decode = vstd::slice::slice_subrange(s.as_bytes(), 0, n);
        match base64_decode_nopad_into(decode, &mut data) {
            Ok(()) => Ok(B8(data)),
            Err(e) => Err(e),
        }
    }
}

impl Default for B8 {
    fn default() -> (b: B8)
        ensures
            b.0@ == Seq::new(8, |i: int| 0u8),
    {
        let b = B8([0u8; 8]);
        assert(b.0@ =~= Seq::new(8, |i: int| 0u8));
        b
    }
}

impl B32 {
    pub fn to_base64(&self) -> (text: String)
        ensures
            text@ == base64_encoding(self.0@),
    {
        base64_encode(&self.0)
    }

    pub fn from_base64(s: &str) -> (res: Result<B32, String>)
        requires
            s.spec_bytes().len() >= 43,
        ensures
            match fixed_base64_decoding(s.spec_bytes(), 32) {
                Ok(data) => res matches Ok(b) && b.0@ == data,
                Err(msg) => res matches Err(e) && e@ == msg,
            },
    {
        let mut data = [0u8; 32];
        let n = base64_encode_nopad_len(32);
        let decode = vstd::slice::slice_subrange(s.as_bytes(), 0, n);
        match base64_decode_nopad_into(decode, &mut data) {
            Ok(()) => Ok(B32(data)),
            Err(e) => Err(e),
        }
    }
}

impl Default for B32 {
    fn default() -> (b: B32)
        ensures
            b.0@ == Seq::new(32, |i: int| 0u8),
    {
        let b = B32([0u8; 32]);
        assert(b.0@ =~= Seq::new(32, |i: int| 0u8));
        b
    }
}

impl B64 {
    pub fn to_base64(&self) -> (text: String)
        ensures
            text@ == base64_encoding(self.0@),
    {
        base64_encode(&self.0)
    }

    pub fn from_base64(s: &str) -> (res: Result<B64, String>)
        requires
            s.spec_bytes().len() >= 86,
        ensures
            match fixed_base64_decoding(s.spec_bytes(), 64) {
                Ok(data) => res matches Ok(b) && b.0@ == data,
                Err(msg) => res matches Err(e) && e@ == msg,
            },
    {
        let mut data = [0u8; 64];
        let n = base64_encode_nopad_len(64);
        let decode = vstd::slice::slice_subrange(s.as_bytes(), 0, n);
        match base64_decode_nopad_into(decode, &mut data) {
            Ok(()) => Ok(B64(data)),
            Err(e) => Err(e),
        }
    }
}

impl Default for B64 {
    fn default() -> (b: B64)
        ensures
            b.0@ == Seq::new(64, |i: int| 0u8),
    {
        let b = B64([0u8; 64]);
        assert(b.0@ =~= Seq::new(64, |i: int| 0u8));
        b
    }
}


impl SameValue for B8 {
    fn same_value(&self, other: &B8) -> (b: bool) {
        let mut i: usize = 0;
        while i < 8
            invariant
                i <= 8,
                forall|j: int| 0 <= j < i ==> self.0@[j] == other.0@[j],
            decreases 8 - i,
        {
            if self.0[i] != other.0[i] {
                assert(self.0@[i as int] != other.0@[i as int]);
                assert(self.0 != other.0);
                return false;
            }
            i = i + 1;
        }
        proof {
            broadcast use vstd::array::group_array_axioms;

            assert(self.0 =~= other.0);
        }
        true
    }
}

impl SameValue for B32 {
    fn same_value(&self, other: &B32) -> (b: bool) {
        let mut i: usize = 0;
        while i < 32
            invariant
                i <= 32,
                forall|j: int| 0 <= j < i ==> self.0@[j] == other.0@[j],
            decreases 32 - i,
        {
            if self.0[i] != other.0[i] {
                assert(self.0@[i as int] != other.0@[i as int]);
                assert(self.0 != other.0);
                return false;
            }
            i = i + 1;
        }
        proof {
            broadcast use vstd::array::group_array_axioms;

            assert(self.0 =~= other.0);
        }
        true
    }
}

impl SameValue for B64 {
    fn same_value(&self, other: &B64) -> (b: bool) {
        let mut i: usize = 0;
        while i < 64
            invariant
                i <= 64,
                forall|j: int| 0 <= j < i ==> self.0@[j] == other.0@[j],
            decreases 64 - i,
        {
            if self.0[i] != other.0[i] {
                assert(self.0@[i as int] != other.0@[i as int]);
                assert(self.0 != other.0);
                return false;
            }
            i = i + 1;
        }
        proof {
            broadcast use vstd::array::group_array_axioms;

            assert(self.0 =~= other.0);
        }
        true
    }
}

} // verus!
