//! Output handles of the first interpreter version.

use crate::text::decode_utf8;
use vstd::utf8::{encode_utf8, valid_utf8};
use vstd::prelude::*;

verus! {

/// Where a program's output goes: a regular stream, or a buffer that keeps
/// the bytes written so that they can be read back.
pub enum WriteHandle<T> {
    /// A stream such as the standard output.
    Regular(T),
    /// The bytes written so far.
    Buffer(Vec<u8>),
}

impl<T> WriteHandle<T> {
    /// Appends bytes to a buffer handle.
    pub fn write_to_buffer(&mut self, buf: &[u8])
        requires
            *old(self) is Buffer,
        ensures
            *final(self) is Buffer,
            (*final(self))->Buffer_0@ == (*old(self))->Buffer_0@ + buf@,
    {
        match self {
            WriteHandle::Buffer(v) => {
                let mut i: usize = 0;
                let ghost start = v@;
                while i < buf.len()
                    invariant
                        0 <= i <= buf@.len(),
                        v@ == start + buf@.take(i as int),
                    decreases buf@.len() - i,
                {
                    v.push(buf[i]);
                    i = i + 1;
                    assert(v@ =~= start + buf@.take(i as int));
                }
                assert(buf@.take(buf@.len() as int) =~= buf@);
            },
            WriteHandle::Regular(_) => {},
        }
    }

    /// The text of a buffer handle, which must hold valid UTF-8.
    pub fn read_buffer(&self) -> (r: String)
        requires
            *self is Buffer,
            valid_utf8((*self)->Buffer_0@),
        ensures
            encode_utf8(r@) == (*self)->Buffer_0@,
    {
        match self {
            WriteHandle::Buffer(v) => {
                let mut copy: Vec<u8> = Vec::new();
                let mut i: usize = 0;
                while i < v.len()
                    invariant
                        0 <= i <= v@.len(),
                        copy@ == v@.take(i as int),
                    decreases v@.len() - i,
                {
                    copy.push(v[i]);
                    i = i + 1;
                    assert(copy@ =~= v@.take(i as int));
                }
                assert(v@.take(v@.len() as int) =~= v@);
                match decode_utf8(copy) {
                    Some(s) => s,
                    None => {
                        assert(false);
                        String::new()
                    },
                }
            },
            WriteHandle::Regular(_) => {
                assert(false);
                String::new()
            },
        }
    }
}

/// The UTF-8 encoding of two texts one after the other is the encoding of
/// the first followed by that of the second.
pub proof fn lemma_encode_concat(a: Seq<char>, b: Seq<char>)
    ensures
        encode_utf8(a + b) == encode_utf8(a) + encode_utf8(b),
    decreases a.len(),
{
    if a.len() == 0 {
        assert(a + b =~= b);
        assert(encode_utf8(a) + encode_utf8(b) =~= encode_utf8(b));
    } else {
        lemma_encode_concat(a.drop_first(), b);
        assert((a + b).drop_first() =~= a.drop_first() + b);
        assert((a + b)[0] == a[0]);
        assert(encode_utf8(a + b) =~= encode_utf8(a) + encode_utf8(b));
    }
}

/// Reading a buffer back after writing the UTF-8 encoding of a text `t` to
/// it gives the text read before the write followed by `t`: for `t0` read
/// from the bytes `before` and `t1` read from `before` followed by the
/// encoding of `t`, `t1` is `t0` followed by `t`.
pub proof fn law_buffer_read_back(before: Seq<u8>, t0: Seq<char>, t: Seq<char>, t1: Seq<char>)
    requires
        encode_utf8(t0) == before,
        encode_utf8(t1) == before + encode_utf8(t),
    ensures
        t1 == t0 + t,
{
    lemma_encode_concat(t0, t);
    vstd::utf8::encode_utf8_decode_utf8(t1);
    vstd::utf8::encode_utf8_decode_utf8(t0 + t);
}

} // verus!
