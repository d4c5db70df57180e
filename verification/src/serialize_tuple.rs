//! `Serialize` for tuples of two and three values: the elements one after
//! the other, in order.
use vstd::prelude::*;
use taped::Tape;
use crate::error::{DecodeError, DecodeFault, EncodeError};
use crate::serialize::Serialize;

verus! {

impl<A: Serialize, B: Serialize> Serialize for (A, B) {
    /// The first element's bytes, then the second's (unless the first fails).
    open spec fn spec_encode(v: (A::V, B::V)) -> Seq<u8> {
        if A::spec_encode_error(v.0) is Some {
            A::spec_encode(v.0)
        } else {
            A::spec_encode(v.0) + B::spec_encode(v.1)
        }
    }

    /// The first element's error, or else the second's.
    open spec fn spec_encode_error(v: (A::V, B::V)) -> Option<EncodeError> {
        match A::spec_encode_error(v.0) {
            Some(e) => Some(e),
            None => B::spec_encode_error(v.1),
        }
    }

    /// The first element, then the second from where the first ended.
    open spec fn spec_decode(data: Seq<u8>, pos: int) -> (Result<(A::V, B::V), DecodeFault>, int) {
        let (ra, p) = A::spec_decode(data, pos);
        match ra {
            Err(f) => (Err(f), p),
            Ok(a) => {
                let (rb, q) = B::spec_decode(data, p);
                match rb {
                    Err(f) => (Err(f), q),
                    Ok(b) => (Ok((a, b)), q),
                }
            },
        }
    }

    proof fn lemma_roundtrip(v: (A::V, B::V), pre: Seq<u8>, post: Seq<u8>) {
        let ea = A::spec_encode(v.0);
        let eb = B::spec_encode(v.1);
        let data = pre + Self::spec_encode(v) + post;
        A::lemma_roundtrip(v.0, pre, eb + post);
        assert(pre + ea + (eb + post) =~= data);
        B::lemma_roundtrip(v.1, pre + ea, post);
        assert(pre + ea + eb + post =~= data);
    }

    fn encode(&self, dest: &mut Vec<u8>) -> (r: Result<(), EncodeError>) {
        let ghost start = dest@;
        match self.0.encode(dest) {
            Ok(()) => {},
            Err(e) => return Err(e),
        }
        let ghost mid = dest@;
        let r = self.1.encode(dest);
        assert(dest@ =~= start + Self::spec_encode(self.deep_view()));
        r
    }

    fn decode(src: &mut Tape<'_, u8>) -> (r: Result<(A, B), DecodeError>) {
        let a = match A::decode(src) {
            Ok(a) => a,
            Err(e) => return Err(e),
        };
        let b = match B::decode(src) {
            Ok(b) => b,
            Err(e) => return Err(e),
        };
        Ok((a, b))
    }
}

impl<A: Serialize, B: Serialize, C: Serialize> Serialize for (A, B, C) {
    /// The elements' bytes in order, up to and including the first that fails.
    open spec fn spec_encode(v: (A::V, B::V, C::V)) -> Seq<u8> {
        if A::spec_encode_error(v.0) is Some {
            A::spec_encode(v.0)
        } else if B::spec_encode_error(v.1) is Some {
            A::spec_encode(v.0) + B::spec_encode(v.1)
        } else {
            A::spec_encode(v.0) + B::spec_encode(v.1) + C::spec_encode(v.2)
        }
    }

    /// The first element's error, or else the second's, or else the third's.
    open spec fn spec_encode_error(v: (A::V, B::V, C::V)) -> Option<EncodeError> {
        match A::spec_encode_error(v.0) {
            Some(e) => Some(e),
            None => match B::spec_encode_error(v.1) {
                Some(e) => Some(e),
                None => C::spec_encode_error(v.2),
            },
        }
    }

    /// The elements in order, each from where the one before ended.
    open spec fn spec_decode(data: Seq<u8>, pos: int) -> (Result<(A::V, B::V, C::V), DecodeFault>, int) {
        let (ra, p) = A::spec_decode(data, pos);
        match ra {
            Err(f) => (Err(f), p),
            Ok(a) => {
                let (rb, q) = B::spec_decode(data, p);
                match rb {
                    Err(f) => (Err(f), q),
                    Ok(b) => {
                        let (rc, t) = C::spec_decode(data, q);
                        match rc {
                            Err(f) => (Err(f), t),
                            Ok(c) => (Ok((a, b, c)), t),
                        }
                    },
                }
            },
        }
    }

    proof fn lemma_roundtrip(v: (A::V, B::V, C::V), pre: Seq<u8>, post: Seq<u8>) {
        let ea = A::spec_encode(v.0);
        let eb = B::spec_encode(v.1);
        let ec = C::spec_encode(v.2);
        let data = pre + Self::spec_encode(v) + post;
        A::lemma_roundtrip(v.0, pre, eb + ec + post);
        assert(pre + ea + (eb + ec + post) =~= data);
        B::lemma_roundtrip(v.1, pre + ea, ec + post);
        assert(pre + ea + eb + (ec + post) =~= data);
        C::lemma_roundtrip(v.2, pre + ea + eb, post);
        assert(pre + ea + eb + ec + post =~= data);
    }

    fn encode(&self, dest: &mut Vec<u8>) -> (r: Result<(), EncodeError>) {
        let ghost start = dest@;
        match self.0.encode(dest) {
            Ok(()) => {},
            Err(e) => return Err(e),
        }
        match self.1.encode(dest) {
            Ok(()) => {},
            Err(e) => {
                assert(dest@ =~= start + Self::spec_encode(self.deep_view()));
                return Err(e);
            },
        }
        let r = self.2.encode(dest);
        assert(dest@ =~= start + Self::spec_encode(self.deep_view()));
        r
    }

    fn decode(src: &mut Tape<'_, u8>) -> (r: Result<(A, B, C), DecodeError>) {
        let a = match A::decode(src) {
            Ok(a) => a,
            Err(e) => return Err(e),
        };
        let b = match B::decode(src) {
            Ok(b) => b,
            Err(e) => return Err(e),
        };
        let c = match C::decode(src) {
            Ok(c) => c,
            Err(e) => return Err(e),
        };
        Ok((a, b, c))
    }
}

} // verus!
