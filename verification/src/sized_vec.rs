//! Vectors whose element count is written in a length prefix of a fixed
//! width (`Vec8` .. `Vec128`), and the element-wise encoding they share.
use vstd::prelude::*;
use taped::Tape;
use crate::error::{count_overflow, decode_matches, encode_matches, DecodeError, DecodeFault, EncodeError};
use crate::le::{
    fixed_decode, is_width, le_bytes, lemma_fixed_roundtrip, lemma_le_bytes_len, lemma_pow256_monotonic,
    lemma_pow256_values, modulus, pow256, read_le, write_le,
};
use crate::serialize::Serialize;
use crate::tape::{tape_bytes, tape_pos, tape_position};

verus! {

/// The bytes of the elements, in order, up to and including the first
/// element that fails to encode.
pub open spec fn items_encode<T: Serialize>(items: Seq<T::V>) -> Seq<u8>
    decreases items.len(),
{
    if items.len() == 0 {
        Seq::empty()
    } else if items_encode_error::<T>(items.drop_last()) is Some {
        items_encode::<T>(items.drop_last())
    } else {
        items_encode::<T>(items.drop_last()) + T::spec_encode(items.last())
    }
}

/// The error of the first element that fails to encode, if any.
pub open spec fn items_encode_error<T: Serialize>(items: Seq<T::V>) -> Option<EncodeError>
    decreases items.len(),
{
    if items.len() == 0 {
        None
    } else {
        match items_encode_error::<T>(items.drop_last()) {
            Some(e) => Some(e),
            None => T::spec_encode_error(items.last()),
        }
    }
}

/// Decoding `count` elements one after the other from `pos`, stopping at
/// the first fault.
pub open spec fn items_decode<T: Serialize>(data: Seq<u8>, pos: int, count: nat) -> (
    Result<Seq<T::V>, DecodeFault>,
    int,
)
    decreases count,
{
    if count == 0 {
        (Ok(Seq::empty()), pos)
    } else {
        let (prev, p) = items_decode::<T>(data, pos, (count - 1) as nat);
        match prev {
            Ok(xs) => {
                let (out, q) = T::spec_decode(data, p);
                match out {
                    Ok(x) => (Ok(xs.push(x)), q),
                    Err(f) => (Err(f), q),
                }
            },
            Err(f) => (Err(f), p),
        }
    }
}

/// A count of `len` elements can be written in a prefix of `width` bytes
/// (and is the length of a vector).
pub open spec fn prefix_fits(len: nat, width: nat) -> bool {
    len < pow256(width) && len <= usize::MAX
}

/// The element count in a little-endian prefix of `width` bytes, then the
/// elements; nothing when the count does not fit in the prefix.
pub open spec fn prefixed_encode<T: Serialize>(items: Seq<T::V>, width: nat) -> Seq<u8> {
    if prefix_fits(items.len(), width) {
        le_bytes(items.len(), width) + items_encode::<T>(items)
    } else {
        Seq::empty()
    }
}

/// A count that does not fit in the prefix is refused with the prefix's
/// width in bytes; otherwise the first element's error, if any.
pub open spec fn prefixed_encode_error<T: Serialize>(items: Seq<T::V>, width: nat) -> Option<EncodeError> {
    if prefix_fits(items.len(), width) {
        items_encode_error::<T>(items)
    } else {
        Some(EncodeError::LengthExceedsPrefix { prefix_size: width as u8, len: items.len() as usize })
    }
}

/// The prefix read as a number of `width` bytes, then that many elements;
/// a count above `usize::MAX` is refused at `pos`, with the tape after the
/// prefix.
pub open spec fn prefixed_decode<T: Serialize>(data: Seq<u8>, pos: int, width: nat) -> (
    Result<Seq<T::V>, DecodeFault>,
    int,
) {
    let (out, p) = fixed_decode(data, pos, width);
    match out {
        Ok(n) => if n <= usize::MAX {
            items_decode::<T>(data, p, n)
        } else {
            (Err(DecodeFault::CountOverflow(pos as usize)), p)
        },
        Err(f) => (Err(f), p),
    }
}

/// When every element encodes without error, so do the elements together,
/// and their bytes are the elements' encodings, in index order.
pub proof fn lemma_items_encode_concat<T: Serialize>(items: Seq<T::V>)
    requires
        forall|i: int| 0 <= i < items.len() ==> (#[trigger] T::spec_encode_error(items[i])) is None,
    ensures
        items_encode_error::<T>(items) is None,
        items_encode::<T>(items) == Seq::new(items.len(), |i: int| T::spec_encode(items[i])).flatten(),
    decreases items.len(),
{
    let encs = Seq::new(items.len(), |i: int| T::spec_encode(items[i]));
    encs.lemma_flatten_and_flatten_alt_are_equivalent();
    if items.len() > 0 {
        let prev = items.drop_last();
        assert forall|i: int| 0 <= i < prev.len() implies (#[trigger] T::spec_encode_error(prev[i])) is None by {
            assert(prev[i] == items[i]);
        }
        lemma_items_encode_concat::<T>(prev);
        let pencs = Seq::new(prev.len(), |i: int| T::spec_encode(prev[i]));
        assert(encs.drop_last() =~= pencs);
        pencs.lemma_flatten_and_flatten_alt_are_equivalent();
        assert(T::spec_encode_error(items[items.len() - 1]) is None);
    } else {
        assert(encs.flatten_alt() =~= Seq::<u8>::empty());
    }
}

/// When the elements together encode without error, each element does.
pub proof fn lemma_items_encode_each<T: Serialize>(items: Seq<T::V>)
    requires
        items_encode_error::<T>(items) is None,
    ensures
        forall|i: int| 0 <= i < items.len() ==> (#[trigger] T::spec_encode_error(items[i])) is None,
    decreases items.len(),
{
    if items.len() > 0 {
        let prev = items.drop_last();
        lemma_items_encode_each::<T>(prev);
        assert forall|i: int| 0 <= i < items.len() implies (#[trigger] T::spec_encode_error(items[i])) is None by {
            if i < prev.len() {
                assert(prev[i] == items[i]);
                assert(T::spec_encode_error(prev[i]) is None);
            }
        }
    }
}

/// When element `k` is the first that fails to encode, its error is the
/// error of the elements together, and their bytes are the encodings of the
/// elements before it, then the bytes it wrote before failing.
pub proof fn lemma_items_encode_first_error<T: Serialize>(items: Seq<T::V>, k: int)
    requires
        0 <= k < items.len(),
        forall|j: int| 0 <= j < k ==> (#[trigger] T::spec_encode_error(items[j])) is None,
        T::spec_encode_error(items[k]) is Some,
    ensures
        items_encode_error::<T>(items) == T::spec_encode_error(items[k]),
        items_encode::<T>(items) == Seq::new(k as nat, |i: int| T::spec_encode(items[i])).flatten()
            + T::spec_encode(items[k]),
{
    let head = items.take(k);
    assert forall|j: int| 0 <= j < head.len() implies (#[trigger] T::spec_encode_error(head[j])) is None by {
        assert(head[j] == items[j]);
    }
    lemma_items_encode_concat::<T>(head);
    assert(Seq::new(head.len(), |i: int| T::spec_encode(head[i])) =~= Seq::new(
        k as nat,
        |i: int| T::spec_encode(items[i]),
    ));
    let t = items.take(k + 1);
    assert(t.drop_last() =~= head);
    assert(t.last() == items[k]);
    lemma_items_encode_stop::<T>(items, k + 1);
}

/// When the elements before the `k`-th are read back from their encodings
/// and reading the next element fails, reading `count > k` elements fails
/// the same way.
pub proof fn lemma_items_decode_fault<T: Serialize>(
    v: Seq<T::V>,
    count: nat,
    pre: Seq<u8>,
    rest: Seq<u8>,
)
    requires
        v.len() < count,
        forall|i: int| 0 <= i < v.len() ==> (#[trigger] T::spec_encode_error(v[i])) is None,
        T::spec_decode(pre + items_encode::<T>(v) + rest, (pre.len() + items_encode::<T>(v).len()) as int).0 is Err,
    ensures
        ({
            let (r, e) = T::spec_decode(
                pre + items_encode::<T>(v) + rest,
                (pre.len() + items_encode::<T>(v).len()) as int,
            );
            items_decode::<T>(pre + items_encode::<T>(v) + rest, pre.len() as int, count) == (
                Err::<Seq<T::V>, DecodeFault>(r->Err_0),
                e,
            )
        }),
{
    lemma_items_encode_concat::<T>(v);
    lemma_items_roundtrip::<T>(v, pre, rest);
    let data = pre + items_encode::<T>(v) + rest;
    lemma_items_decode_stop::<T>(data, pre.len() as int, v.len() + 1, count);
}

/// Once an element fails to encode, the rest are not written.
pub proof fn lemma_items_encode_stop<T: Serialize>(items: Seq<T::V>, k: int)
    requires
        0 <= k <= items.len(),
        items_encode_error::<T>(items.take(k)) is Some,
    ensures
        items_encode::<T>(items) == items_encode::<T>(items.take(k)),
        items_encode_error::<T>(items) == items_encode_error::<T>(items.take(k)),
    decreases items.len(),
{
    if k < items.len() {
        assert(items.drop_last().take(k) =~= items.take(k));
        lemma_items_encode_stop::<T>(items.drop_last(), k);
    } else {
        assert(items.take(k) =~= items);
    }
}

/// Once an element fails to decode, the rest are not read.
pub proof fn lemma_items_decode_stop<T: Serialize>(data: Seq<u8>, pos: int, k: nat, count: nat)
    requires
        k <= count,
        items_decode::<T>(data, pos, k).0 is Err,
    ensures
        items_decode::<T>(data, pos, count) == items_decode::<T>(data, pos, k),
    decreases count,
{
    if k < count {
        lemma_items_decode_stop::<T>(data, pos, k, (count - 1) as nat);
    }
}

/// Elements written one after the other are read back in order.
pub proof fn lemma_items_roundtrip<T: Serialize>(items: Seq<T::V>, pre: Seq<u8>, post: Seq<u8>)
    requires
        items_encode_error::<T>(items) is None,
    ensures
        items_decode::<T>(pre + items_encode::<T>(items) + post, pre.len() as int, items.len())
            == (Ok::<Seq<T::V>, DecodeFault>(items), (pre.len() + items_encode::<T>(items).len()) as int),
    decreases items.len(),
{
    if items.len() == 0 {
        assert(items =~= Seq::<T::V>::empty());
    } else {
        let prev = items.drop_last();
        let x = items.last();
        let e_prev = items_encode::<T>(prev);
        let e_x = T::spec_encode(x);
        let data = pre + items_encode::<T>(items) + post;
        lemma_items_roundtrip::<T>(prev, pre, e_x + post);
        assert(pre + e_prev + (e_x + post) =~= data);
        T::lemma_roundtrip(x, pre + e_prev, post);
        assert(pre + e_prev + e_x + post =~= data);
        assert(prev.push(x) =~= items);
    }
}

/// A vector whose count fits in its prefix, with elements that encode
/// without error, is read back as itself.
pub proof fn lemma_prefixed_roundtrip<T: Serialize>(items: Seq<T::V>, width: nat, pre: Seq<u8>, post: Seq<u8>)
    requires
        prefixed_encode_error::<T>(items, width) is None,
    ensures
        prefixed_decode::<T>(pre + prefixed_encode::<T>(items, width) + post, pre.len() as int, width) == (
            Ok::<Seq<T::V>, DecodeFault>(items),
            (pre.len() + prefixed_encode::<T>(items, width).len()) as int,
        ),
{
    let len = items.len();
    let head = le_bytes(len, width);
    let body = items_encode::<T>(items);
    let data = pre + prefixed_encode::<T>(items, width) + post;
    lemma_le_bytes_len(len, width);
    assert(data =~= pre + head + (body + post));
    lemma_fixed_roundtrip(len, width, pre, body + post);
    assert(data =~= (pre + head) + body + post);
    lemma_items_roundtrip::<T>(items, pre + head, post);
}

/// Whether `len` elements fit in a prefix of `width` bytes.
fn prefix_fits_exec(len: usize, width: usize) -> (b: bool)
    requires
        is_width(width as nat),
    ensures
        b == prefix_fits(len as nat, width as nat),
{
    proof {
        lemma_pow256_values();
    }
    if width >= 8 {
        proof {
            lemma_pow256_monotonic(8, width as nat);
        }
        true
    } else {
        (len as u128) < modulus(width)
    }
}

/// Writes the element count of `items` in a prefix of `width` bytes, then
/// each element in order, stopping at the first element that fails.
pub fn encode_prefixed<T: Serialize>(items: &Vec<T>, width: usize, dest: &mut Vec<u8>) -> (r: Result<(), EncodeError>)
    requires
        is_width(width as nat),
    ensures
        final(dest)@ == old(dest)@ + prefixed_encode::<T>(items.deep_view(), width as nat),
        encode_matches(r, prefixed_encode_error::<T>(items.deep_view(), width as nat)),
{
    let ghost view = items.deep_view();
    let len = items.len();
    if !prefix_fits_exec(len, width) {
        return Err(EncodeError::LengthExceedsPrefix { prefix_size: width as u8, len });
    }
    write_le(dest, len as u128, width);
    let ghost start = dest@;
    let mut i: usize = 0;
    assert(view.take(0) =~= Seq::<T::V>::empty());
    assert(start =~= start + items_encode::<T>(view.take(0)));
    while i < len
        invariant
            i <= len,
            len == items@.len(),
            prefix_fits(len as nat, width as nat),
            view == items.deep_view(),
            start == old(dest)@ + le_bytes(len as nat, width as nat),
            dest@ == start + items_encode::<T>(view.take(i as int)),
            items_encode_error::<T>(view.take(i as int)) is None,
        decreases len - i,
    {
        let ghost before = dest@;
        let r = items[i].encode(dest);
        proof {
            let s = view.take(i + 1);
            assert(s.drop_last() =~= view.take(i as int));
            assert(s.last() == items@[i as int].deep_view());
            assert(dest@ =~= start + items_encode::<T>(s));
        }
        match r {
            Ok(()) => {},
            Err(e) => {
                proof {
                    lemma_items_encode_stop::<T>(view, i + 1);
                }
                return Err(e);
            },
        }
        i = i + 1;
    }
    assert(view.take(len as int) =~= view);
    Ok(())
}

/// Reads an element count in a prefix of `width` bytes, then that many
/// elements, stopping at the first fault.
pub fn decode_prefixed<T: Serialize>(src: &mut Tape<'_, u8>, width: usize) -> (r: Result<Vec<T>, DecodeError>)
    requires
        is_width(width as nat),
        tape_pos(*old(src)) < usize::MAX,
        tape_bytes(*old(src)).len() < usize::MAX,
    ensures
        tape_bytes(*final(src)) == tape_bytes(*old(src)),
        ({
            let (out, end) = prefixed_decode::<T>(tape_bytes(*old(src)), tape_pos(*old(src)) as int, width as nat);
            &&& tape_pos(*final(src)) == end
            &&& decode_matches(r, out)
        }),
        r is Ok ==> tape_pos(*old(src)) <= tape_pos(*final(src)) <= tape_bytes(*old(src)).len(),
{
    let ghost data = tape_bytes(*src);
    let ghost pos0 = tape_pos(*src) as int;
    let start = tape_position(src);
    let n = match read_le(src, width) {
        Ok(n) => n,
        Err(e) => return Err(e),
    };
    proof {
        lemma_pow256_values();
        lemma_pow256_monotonic(width as nat, 16);
    }
    if n > usize::MAX as u128 {
        return Err(count_overflow(start));
    }
    let count = n as usize;
    let ghost p1 = tape_pos(*src) as int;
    let mut out: Vec<T> = Vec::new();
    let mut i: usize = 0;
    assert(out.deep_view() =~= Seq::<T::V>::empty());
    while i < count
        invariant
            i <= count,
            count == n,
            data == tape_bytes(*old(src)),
            pos0 == tape_pos(*old(src)),
            fixed_decode(data, pos0, width as nat) == (Ok::<nat, DecodeFault>(n as nat), p1),
            tape_bytes(*src) == data,
            data.len() < usize::MAX,
            items_decode::<T>(data, p1, i as nat) == (
                Ok::<Seq<T::V>, DecodeFault>(out.deep_view()),
                tape_pos(*src) as int,
            ),
            pos0 <= p1 <= tape_pos(*src) <= data.len(),
        decreases count - i,
    {
        let ghost before = out.deep_view();
        match T::decode(src) {
            Ok(x) => {
                let ghost xv = x.deep_view();
                out.push(x);
                assert(out.deep_view() =~= before.push(xv));
            },
            Err(e) => {
                proof {
                    lemma_items_decode_stop::<T>(data, p1, (i + 1) as nat, count as nat);
                }
                return Err(e);
            },
        }
        i = i + 1;
    }
    Ok(out)
}

/// A vector whose element count is written in a 8-bit prefix.
#[derive(Debug, Clone, PartialEq, Eq)]
pub struct Vec8<T>(Vec<T>);

impl<T> View for Vec8<T> {
    type V = Seq<T>;

    closed spec fn view(&self) -> Seq<T> {
        self.0@
    }
}

impl<T: DeepView> DeepView for Vec8<T> {
    type V = Seq<T::V>;

    closed spec fn deep_view(&self) -> Seq<T::V> {
        self.0.deep_view()
    }
}

impl<T> Vec8<T> {
    /// Creates a new `Vec8` from a `Vec`.
    pub fn new(vec: Vec<T>) -> (r: Self)
        ensures
            r@ == vec@,
    {
        Vec8(vec)
    }

    /// Consumes self and returns the inner `Vec`.
    pub fn into_inner(self) -> (vec: Vec<T>)
        ensures
            vec@ == self@,
    {
        self.0
    }

    /// The number of elements.
    pub fn len(&self) -> (n: usize)
        ensures
            n == self@.len(),
    {
        self.0.len()
    }

    /// The elements, as a `Vec`.
    pub fn as_vec(&self) -> (vec: &Vec<T>)
        ensures
            vec@ == self@,
    {
        &self.0
    }

    /// The elements, as a mutable `Vec`: what is done to it is done to
    /// this vector.
    pub fn as_mut_vec(&mut self) -> (vec: &mut Vec<T>)
        ensures
            vec@ == old(self)@,
            final(self)@ == final(vec)@,
    {
        &mut self.0
    }

    /// Appends an element.
    pub fn push(&mut self, value: T)
        ensures
            final(self)@ == old(self)@.push(value),
    {
        self.0.push(value);
    }
}

impl<T: DeepView> Vec8<T> {
    /// The deep view of a `Vec8` is the deep view of its elements.
    pub proof fn lemma_deep_view(&self)
        ensures
            self.deep_view() == Seq::new(self@.len(), |i: int| self@[i].deep_view()),
    {
    }
}

impl<T> From<Vec<T>> for Vec8<T> {
    fn from(v: Vec<T>) -> (r: Self)
        ensures
            r@ == v@,
    {
        Vec8(v)
    }
}

impl<T> vstd::std_specs::convert::FromSpecImpl<Vec<T>> for Vec8<T> {
    open spec fn obeys_from_spec() -> bool {
        true
    }

    closed spec fn from_spec(v: Vec<T>) -> Self {
        Vec8(v)
    }
}

impl<T> From<Vec8<T>> for Vec<T> {
    fn from(v: Vec8<T>) -> (r: Self)
        ensures
            r@ == v@,
    {
        v.0
    }
}

impl<T> vstd::std_specs::convert::FromSpecImpl<Vec8<T>> for Vec<T> {
    open spec fn obeys_from_spec() -> bool {
        true
    }

    closed spec fn from_spec(v: Vec8<T>) -> Self {
        v.0
    }
}

impl<T> std::ops::Deref for Vec8<T> {
    type Target = Vec<T>;

    fn deref(&self) -> (r: &Vec<T>)
        ensures
            r@ == self@,
    {
        &self.0
    }
}

impl<T: Serialize> Serialize for Vec8<T> {
    /// The element count in 1 little-endian bytes, then the elements.
    open spec fn spec_encode(v: Seq<T::V>) -> Seq<u8> {
        prefixed_encode::<T>(v, 1)
    }

    /// A count that does not fit in 1 bytes is refused; otherwise the
    /// first element's error, if any.
    open spec fn spec_encode_error(v: Seq<T::V>) -> Option<EncodeError> {
        prefixed_encode_error::<T>(v, 1)
    }

    open spec fn spec_decode(data: Seq<u8>, pos: int) -> (Result<Seq<T::V>, DecodeFault>, int) {
        prefixed_decode::<T>(data, pos, 1)
    }

    proof fn lemma_roundtrip(v: Seq<T::V>, pre: Seq<u8>, post: Seq<u8>) {
        lemma_prefixed_roundtrip::<T>(v, 1, pre, post);
    }

    fn encode(&self, dest: &mut Vec<u8>) -> (r: Result<(), EncodeError>) {
        encode_prefixed(&self.0, 1, dest)
    }

    fn decode(src: &mut Tape<'_, u8>) -> (r: Result<Self, DecodeError>) {
        match decode_prefixed::<T>(src, 1) {
            Ok(v) => Ok(Vec8(v)),
            Err(e) => Err(e),
        }
    }
}

/// A vector whose element count is written in a 16-bit prefix.
#[derive(Debug, Clone, PartialEq, Eq)]
pub struct Vec16<T>(Vec<T>);

impl<T> View for Vec16<T> {
    type V = Seq<T>;

    closed spec fn view(&self) -> Seq<T> {
        self.0@
    }
}

impl<T: DeepView> DeepView for Vec16<T> {
    type V = Seq<T::V>;

    closed spec fn deep_view(&self) -> Seq<T::V> {
        self.0.deep_view()
    }
}

impl<T> Vec16<T> {
    /// Creates a new `Vec16` from a `Vec`.
    pub fn new(vec: Vec<T>) -> (r: Self)
        ensures
            r@ == vec@,
    {
        Vec16(vec)
    }

    /// Consumes self and returns the inner `Vec`.
    pub fn into_inner(self) -> (vec: Vec<T>)
        ensures
            vec@ == self@,
    {
        self.0
    }

    /// The number of elements.
    pub fn len(&self) -> (n: usize)
        ensures
            n == self@.len(),
    {
        self.0.len()
    }

    /// The elements, as a `Vec`.
    pub fn as_vec(&self) -> (vec: &Vec<T>)
        ensures
            vec@ == self@,
    {
        &self.0
    }

    /// The elements, as a mutable `Vec`: what is done to it is done to
    /// this vector.
    pub fn as_mut_vec(&mut self) -> (vec: &mut Vec<T>)
        ensures
            vec@ == old(self)@,
            final(self)@ == final(vec)@,
    {
        &mut self.0
    }

    /// Appends an element.
    pub fn push(&mut self, value: T)
        ensures
            final(self)@ == old(self)@.push(value),
    {
        self.0.push(value);
    }
}

impl<T: DeepView> Vec16<T> {
    /// The deep view of a `Vec16` is the deep view of its elements.
    pub proof fn lemma_deep_view(&self)
        ensures
            self.deep_view() == Seq::new(self@.len(), |i: int| self@[i].deep_view()),
    {
    }
}

impl<T> From<Vec<T>> for Vec16<T> {
    fn from(v: Vec<T>) -> (r: Self)
        ensures
            r@ == v@,
    {
        Vec16(v)
    }
}

impl<T> vstd::std_specs::convert::FromSpecImpl<Vec<T>> for Vec16<T> {
    open spec fn obeys_from_spec() -> bool {
        true
    }

    closed spec fn from_spec(v: Vec<T>) -> Self {
        Vec16(v)
    }
}

impl<T> From<Vec16<T>> for Vec<T> {
    fn from(v: Vec16<T>) -> (r: Self)
        ensures
            r@ == v@,
    {
        v.0
    }
}

impl<T> vstd::std_specs::convert::FromSpecImpl<Vec16<T>> for Vec<T> {
    open spec fn obeys_from_spec() -> bool {
        true
    }

    closed spec fn from_spec(v: Vec16<T>) -> Self {
        v.0
    }
}

impl<T> std::ops::Deref for Vec16<T> {
    type Target = Vec<T>;

    fn deref(&self) -> (r: &Vec<T>)
        ensures
            r@ == self@,
    {
        &self.0
    }
}

impl<T: Serialize> Serialize for Vec16<T> {
    /// The element count in 2 little-endian bytes, then the elements.
    open spec fn spec_encode(v: Seq<T::V>) -> Seq<u8> {
        prefixed_encode::<T>(v, 2)
    }

    /// A count that does not fit in 2 bytes is refused; otherwise the
    /// first element's error, if any.
    open spec fn spec_encode_error(v: Seq<T::V>) -> Option<EncodeError> {
        prefixed_encode_error::<T>(v, 2)
    }

    open spec fn spec_decode(data: Seq<u8>, pos: int) -> (Result<Seq<T::V>, DecodeFault>, int) {
        prefixed_decode::<T>(data, pos, 2)
    }

    proof fn lemma_roundtrip(v: Seq<T::V>, pre: Seq<u8>, post: Seq<u8>) {
        lemma_prefixed_roundtrip::<T>(v, 2, pre, post);
    }

    fn encode(&self, dest: &mut Vec<u8>) -> (r: Result<(), EncodeError>) {
        encode_prefixed(&self.0, 2, dest)
    }

    fn decode(src: &mut Tape<'_, u8>) -> (r: Result<Self, DecodeError>) {
        match decode_prefixed::<T>(src, 2) {
            Ok(v) => Ok(Vec16(v)),
            Err(e) => Err(e),
        }
    }
}

/// A vector whose element count is written in a 32-bit prefix.
#[derive(Debug, Clone, PartialEq, Eq)]
pub struct Vec32<T>(Vec<T>);

impl<T> View for Vec32<T> {
    type V = Seq<T>;

    closed spec fn view(&self) -> Seq<T> {
        self.0@
    }
}

impl<T: DeepView> DeepView for Vec32<T> {
    type V = Seq<T::V>;

    closed spec fn deep_view(&self) -> Seq<T::V> {
        self.0.deep_view()
    }
}

impl<T> Vec32<T> {
    /// Creates a new `Vec32` from a `Vec`.
    pub fn new(vec: Vec<T>) -> (r: Self)
        ensures
            r@ == vec@,
    {
        Vec32(vec)
    }

    /// Consumes self and returns the inner `Vec`.
    pub fn into_inner(self) -> (vec: Vec<T>)
        ensures
            vec@ == self@,
    {
        self.0
    }

    /// The number of elements.
    pub fn len(&self) -> (n: usize)
        ensures
            n == self@.len(),
    {
        self.0.len()
    }

    /// The elements, as a `Vec`.
    pub fn as_vec(&self) -> (vec: &Vec<T>)
        ensures
            vec@ == self@,
    {
        &self.0
    }

    /// The elements, as a mutable `Vec`: what is done to it is done to
    /// this vector.
    pub fn as_mut_vec(&mut self) -> (vec: &mut Vec<T>)
        ensures
            vec@ == old(self)@,
            final(self)@ == final(vec)@,
    {
        &mut self.0
    }

    /// Appends an element.
    pub fn push(&mut self, value: T)
        ensures
            final(self)@ == old(self)@.push(value),
    {
        self.0.push(value);
    }
}

impl<T: DeepView> Vec32<T> {
    /// The deep view of a `Vec32` is the deep view of its elements.
    pub proof fn lemma_deep_view(&self)
        ensures
            self.deep_view() == Seq::new(self@.len(), |i: int| self@[i].deep_view()),
    {
    }
}

impl<T> From<Vec<T>> for Vec32<T> {
    fn from(v: Vec<T>) -> (r: Self)
        ensures
            r@ == v@,
    {
        Vec32(v)
    }
}

impl<T> vstd::std_specs::convert::FromSpecImpl<Vec<T>> for Vec32<T> {
    open spec fn obeys_from_spec() -> bool {
        true
    }

    closed spec fn from_spec(v: Vec<T>) -> Self {
        Vec32(v)
    }
}

impl<T> From<Vec32<T>> for Vec<T> {
    fn from(v: Vec32<T>) -> (r: Self)
        ensures
            r@ == v@,
    {
        v.0
    }
}

impl<T> vstd::std_specs::convert::FromSpecImpl<Vec32<T>> for Vec<T> {
    open spec fn obeys_from_spec() -> bool {
        true
    }

    closed spec fn from_spec(v: Vec32<T>) -> Self {
        v.0
    }
}

impl<T> std::ops::Deref for Vec32<T> {
    type Target = Vec<T>;

    fn deref(&self) -> (r: &Vec<T>)
        ensures
            r@ == self@,
    {
        &self.0
    }
}

impl<T: Serialize> Serialize for Vec32<T> {
    /// The element count in 4 little-endian bytes, then the elements.
    open spec fn spec_encode(v: Seq<T::V>) -> Seq<u8> {
        prefixed_encode::<T>(v, 4)
    }

    /// A count that does not fit in 4 bytes is refused; otherwise the
    /// first element's error, if any.
    open spec fn spec_encode_error(v: Seq<T::V>) -> Option<EncodeError> {
        prefixed_encode_error::<T>(v, 4)
    }

    open spec fn spec_decode(data: Seq<u8>, pos: int) -> (Result<Seq<T::V>, DecodeFault>, int) {
        prefixed_decode::<T>(data, pos, 4)
    }

    proof fn lemma_roundtrip(v: Seq<T::V>, pre: Seq<u8>, post: Seq<u8>) {
        lemma_prefixed_roundtrip::<T>(v, 4, pre, post);
    }

    fn encode(&self, dest: &mut Vec<u8>) -> (r: Result<(), EncodeError>) {
        encode_prefixed(&self.0, 4, dest)
    }

    fn decode(src: &mut Tape<'_, u8>) -> (r: Result<Self, DecodeError>) {
        match decode_prefixed::<T>(src, 4) {
            Ok(v) => Ok(Vec32(v)),
            Err(e) => Err(e),
        }
    }
}

/// A vector whose element count is written in a 64-bit prefix.
#[derive(Debug, Clone, PartialEq, Eq)]
pub struct Vec64<T>(Vec<T>);

impl<T> View for Vec64<T> {
    type V = Seq<T>;

    closed spec fn view(&self) -> Seq<T> {
        self.0@
    }
}

impl<T: DeepView> DeepView for Vec64<T> {
    type V = Seq<T::V>;

    closed spec fn deep_view(&self) -> Seq<T::V> {
        self.0.deep_view()
    }
}

impl<T> Vec64<T> {
    /// Creates a new `Vec64` from a `Vec`.
    pub fn new(vec: Vec<T>) -> (r: Self)
        ensures
            r@ == vec@,
    {
        Vec64(vec)
    }

    /// Consumes self and returns the inner `Vec`.
    pub fn into_inner(self) -> (vec: Vec<T>)
        ensures
            vec@ == self@,
    {
        self.0
    }

    /// The number of elements.
    pub fn len(&self) -> (n: usize)
        ensures
            n == self@.len(),
    {
        self.0.len()
    }

    /// The elements, as a `Vec`.
    pub fn as_vec(&self) -> (vec: &Vec<T>)
        ensures
            vec@ == self@,
    {
        &self.0
    }

    /// The elements, as a mutable `Vec`: what is done to it is done to
    /// this vector.
    pub fn as_mut_vec(&mut self) -> (vec: &mut Vec<T>)
        ensures
            vec@ == old(self)@,
            final(self)@ == final(vec)@,
    {
        &mut self.0
    }

    /// Appends an element.
    pub fn push(&mut self, value: T)
        ensures
            final(self)@ == old(self)@.push(value),
    {
        self.0.push(value);
    }
}

impl<T: DeepView> Vec64<T> {
    /// The deep view of a `Vec64` is the deep view of its elements.
    pub proof fn lemma_deep_view(&self)
        ensures
            self.deep_view() == Seq::new(self@.len(), |i: int| self@[i].deep_view()),
    {
    }
}

impl<T> From<Vec<T>> for Vec64<T> {
    fn from(v: Vec<T>) -> (r: Self)
        ensures
            r@ == v@,
    {
        Vec64(v)
    }
}

impl<T> vstd::std_specs::convert::FromSpecImpl<Vec<T>> for Vec64<T> {
    open spec fn obeys_from_spec() -> bool {
        true
    }

    closed spec fn from_spec(v: Vec<T>) -> Self {
        Vec64(v)
    }
}

impl<T> From<Vec64<T>> for Vec<T> {
    fn from(v: Vec64<T>) -> (r: Self)
        ensures
            r@ == v@,
    {
        v.0
    }
}

impl<T> vstd::std_specs::convert::FromSpecImpl<Vec64<T>> for Vec<T> {
    open spec fn obeys_from_spec() -> bool {
        true
    }

    closed spec fn from_spec(v: Vec64<T>) -> Self {
        v.0
    }
}

impl<T> std::ops::Deref for Vec64<T> {
    type Target = Vec<T>;

    fn deref(&self) -> (r: &Vec<T>)
        ensures
            r@ == self@,
    {
        &self.0
    }
}

impl<T: Serialize> Serialize for Vec64<T> {
    /// The element count in 8 little-endian bytes, then the elements.
    open spec fn spec_encode(v: Seq<T::V>) -> Seq<u8> {
        prefixed_encode::<T>(v, 8)
    }

    /// A count that does not fit in 8 bytes is refused; otherwise the
    /// first element's error, if any.
    open spec fn spec_encode_error(v: Seq<T::V>) -> Option<EncodeError> {
        prefixed_encode_error::<T>(v, 8)
    }

    open spec fn spec_decode(data: Seq<u8>, pos: int) -> (Result<Seq<T::V>, DecodeFault>, int) {
        prefixed_decode::<T>(data, pos, 8)
    }

    proof fn lemma_roundtrip(v: Seq<T::V>, pre: Seq<u8>, post: Seq<u8>) {
        lemma_prefixed_roundtrip::<T>(v, 8, pre, post);
    }

    fn encode(&self, dest: &mut Vec<u8>) -> (r: Result<(), EncodeError>) {
        encode_prefixed(&self.0, 8, dest)
    }

    fn decode(src: &mut Tape<'_, u8>) -> (r: Result<Self, DecodeError>) {
        match decode_prefixed::<T>(src, 8) {
            Ok(v) => Ok(Vec64(v)),
            Err(e) => Err(e),
        }
    }
}

/// A vector whose element count is written in a 128-bit prefix.
#[derive(Debug, Clone, PartialEq, Eq)]
pub struct Vec128<T>(Vec<T>);

impl<T> View for Vec128<T> {
    type V = Seq<T>;

    closed spec fn view(&self) -> Seq<T> {
        self.0@
    }
}

impl<T: DeepView> DeepView for Vec128<T> {
    type V = Seq<T::V>;

    closed spec fn deep_view(&self) -> Seq<T::V> {
        self.0.deep_view()
    }
}

impl<T> Vec128<T> {
    /// Creates a new `Vec128` from a `Vec`.
    pub fn new(vec: Vec<T>) -> (r: Self)
        ensures
            r@ == vec@,
    {
        Vec128(vec)
    }

    /// Consumes self and returns the inner `Vec`.
    pub fn into_inner(self) -> (vec: Vec<T>)
        ensures
            vec@ == self@,
    {
        self.0
    }

    /// The number of elements.
    pub fn len(&self) -> (n: usize)
        ensures
            n == self@.len(),
    {
        self.0.len()
    }

    /// The elements, as a `Vec`.
    pub fn as_vec(&self) -> (vec: &Vec<T>)
        ensures
            vec@ == self@,
    {
        &self.0
    }

    /// The elements, as a mutable `Vec`: what is done to it is done to
    /// this vector.
    pub fn as_mut_vec(&mut self) -> (vec: &mut Vec<T>)
        ensures
            vec@ == old(self)@,
            final(self)@ == final(vec)@,
    {
        &mut self.0
    }

    /// Appends an element.
    pub fn push(&mut self, value: T)
        ensures
            final(self)@ == old(self)@.push(value),
    {
        self.0.push(value);
    }
}

impl<T: DeepView> Vec128<T> {
    /// The deep view of a `Vec128` is the deep view of its elements.
    pub proof fn lemma_deep_view(&self)
        ensures
            self.deep_view() == Seq::new(self@.len(), |i: int| self@[i].deep_view()),
    {
    }
}

impl<T> From<Vec<T>> for Vec128<T> {
    fn from(v: Vec<T>) -> (r: Self)
        ensures
            r@ == v@,
    {
        Vec128(v)
    }
}

impl<T> vstd::std_specs::convert::FromSpecImpl<Vec<T>> for Vec128<T> {
    open spec fn obeys_from_spec() -> bool {
        true
    }

    closed spec fn from_spec(v: Vec<T>) -> Self {
        Vec128(v)
    }
}

impl<T> From<Vec128<T>> for Vec<T> {
    fn from(v: Vec128<T>) -> (r: Self)
        ensures
            r@ == v@,
    {
        v.0
    }
}

impl<T> vstd::std_specs::convert::FromSpecImpl<Vec128<T>> for Vec<T> {
    open spec fn obeys_from_spec() -> bool {
        true
    }

    closed spec fn from_spec(v: Vec128<T>) -> Self {
        v.0
    }
}

impl<T> std::ops::Deref for Vec128<T> {
    type Target = Vec<T>;

    fn deref(&self) -> (r: &Vec<T>)
        ensures
            r@ == self@,
    {
        &self.0
    }
}

impl<T: Serialize> Serialize for Vec128<T> {
    /// The element count in 16 little-endian bytes, then the elements.
    open spec fn spec_encode(v: Seq<T::V>) -> Seq<u8> {
        prefixed_encode::<T>(v, 16)
    }

    /// A count that does not fit in 16 bytes is refused; otherwise the
    /// first element's error, if any.
    open spec fn spec_encode_error(v: Seq<T::V>) -> Option<EncodeError> {
        prefixed_encode_error::<T>(v, 16)
    }

    open spec fn spec_decode(data: Seq<u8>, pos: int) -> (Result<Seq<T::V>, DecodeFault>, int) {
        prefixed_decode::<T>(data, pos, 16)
    }

    proof fn lemma_roundtrip(v: Seq<T::V>, pre: Seq<u8>, post: Seq<u8>) {
        lemma_prefixed_roundtrip::<T>(v, 16, pre, post);
    }

    fn encode(&self, dest: &mut Vec<u8>) -> (r: Result<(), EncodeError>) {
        encode_prefixed(&self.0, 16, dest)
    }

    fn decode(src: &mut Tape<'_, u8>) -> (r: Result<Self, DecodeError>) {
        match decode_prefixed::<T>(src, 16) {
            Ok(v) => Ok(Vec128(v)),
            Err(e) => Err(e),
        }
    }
}

} // verus!
