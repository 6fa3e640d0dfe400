//! Mutable views: in-place, same-size overwriting of encoded values.
//!
//! A mutable view locates a value the same way a read-only view does; in
//! addition it can overwrite the value's bytes in place.  Replacement is
//! constrained to equal encoded size — the engine checks the sizes and
//! fails with `SizeMismatch` rather than shift subsequent bytes.  Exclusive
//! access to the buffer is demanded by the borrow checker at the call.

use vstd::prelude::*;
use vstd::bytes::u32_from_le_bytes;
use vstd::slice::slice_subrange;
use crate::error::LayoutError;
use crate::layout::Layout;
use crate::value::{Value, spec_encodable, spec_size, spec_encode, actual_size_of, encode,
    lemma_encode_len};
use crate::scan::{spec_scan, spec_scan_many, scan_size, scan_many_elems, lemma_scan_in_bounds,
    lemma_scan_many_in_bounds};
use crate::view::{Zc, spec_list_count};

verus! {

/// The buffer `b` with the bytes at `pos` replaced in place by `repl`:
/// everything before and after the replaced range is kept.  When the range
/// would not fit, `b` is unchanged.
pub open spec fn spec_splice(b: Seq<u8>, pos: nat, repl: Seq<u8>) -> Seq<u8> {
    if pos + repl.len() <= b.len() {
        b.take(pos as int) + repl + b.skip((pos + repl.len()) as int)
    } else {
        b
    }
}

/// A mutable view: a byte offset into an exclusively borrowed buffer
/// together with the shape of the value expected there.
pub struct ZcMut<'a> {
    pub layout: &'a Layout,
    pub offset: usize,
}

impl<'a> ZcMut<'a> {
    /// Creates a mutable view of shape `layout` at `offset`.  Never fails
    /// and never reads the buffer.
    pub fn new(layout: &'a Layout, offset: usize) -> (r: ZcMut<'a>)
        ensures
            r.layout == layout,
            r.offset == offset,
    {
        ZcMut { layout, offset }
    }

    /// The read-only view of the same bytes.
    pub fn to_ref(&self) -> (r: Zc<'a>)
        ensures
            r.layout == self.layout,
            r.offset == self.offset,
    {
        Zc { layout: self.layout, offset: self.offset }
    }

    /// A mutable view of the element at `index` of the viewed array or
    /// sequence, or `None` when `index` is at or past the element count.
    ///
    /// The element's offset is found by the same linear scan as for the
    /// read-only lookup.
    pub fn get_mut_zc_index(&mut self, bytes: &[u8], index: usize) -> (r: Result<
        Option<ZcMut<'a>>,
        LayoutError,
    >)
        requires
            (*old(self).layout) matches Layout::Array(_, _) || (*old(self).layout) matches Layout
                ::List(_),
        ensures
            final(self).layout == old(self).layout,
            final(self).offset == old(self).offset,
            match *old(self).layout {
                Layout::Array(e, n) => if index >= n {
                    r matches Ok(o) && o is None
                } else {
                    match spec_scan_many(*e, bytes@, old(self).offset as nat, index as nat) {
                        Ok(s) => r matches Ok(o) && o matches Some(z) && *z.layout == *e
                            && z.offset == old(self).offset + s,
                        Err(err) => r matches Err(e2) && e2 == err,
                    }
                },
                Layout::List(e) => if old(self).offset + 4 > bytes@.len() {
                    r matches Err(e2) && e2 == LayoutError::TruncatedInput
                } else if index >= spec_list_count(bytes@, old(self).offset as nat) {
                    r matches Ok(o) && o is None
                } else {
                    match spec_scan_many(*e, bytes@, old(self).offset as nat + 4, index as nat) {
                        Ok(s) => r matches Ok(o) && o matches Some(z) && *z.layout == *e
                            && z.offset == old(self).offset + 4 + s,
                        Err(err) => r matches Err(e2) && e2 == err,
                    }
                },
                _ => true,
            },
    {
        match self.layout {
            Layout::Array(e, n) => {
                if index >= *n {
                    Ok(None)
                } else {
                    match scan_many_elems(&**e, bytes, self.offset, index) {
                        Ok(s) => {
                            proof {
                                lemma_scan_many_in_bounds(
                                    **e,
                                    bytes@,
                                    self.offset as nat,
                                    index as nat,
                                );
                                assert(bytes@.len() == vstd::slice::spec_slice_len(bytes));
                            }
                            Ok(Some(ZcMut { layout: &**e, offset: self.offset + s }))
                        },
                        Err(err) => Err(err),
                    }
                }
            },
            Layout::List(e) => {
                if bytes.len() >= 4 && self.offset <= bytes.len() - 4 {
                    let count = u32_from_le_bytes(
                        slice_subrange(bytes, self.offset, self.offset + 4),
                    );
                    if index >= count as usize {
                        Ok(None)
                    } else {
                        match scan_many_elems(&**e, bytes, self.offset + 4, index) {
                            Ok(s) => {
                                proof {
                                    lemma_scan_many_in_bounds(
                                        **e,
                                        bytes@,
                                        (self.offset + 4) as nat,
                                        index as nat,
                                    );
                                    assert(bytes@.len() == vstd::slice::spec_slice_len(bytes));
                                }
                                Ok(Some(ZcMut { layout: &**e, offset: self.offset + 4 + s }))
                            },
                            Err(err) => Err(err),
                        }
                    }
                } else {
                    Err(LayoutError::TruncatedInput)
                }
            },
            _ => Err(LayoutError::TruncatedInput),
        }
    }

    /// A forward cursor yielding mutable views over the elements of the
    /// viewed array or sequence.  The count is read once, at creation.
    pub fn iter_mut(&mut self, bytes: &[u8]) -> (r: Result<IterMut<'a>, LayoutError>)
        requires
            (*old(self).layout) matches Layout::Array(_, _) || (*old(self).layout) matches Layout
                ::List(_),
        ensures
            final(self).layout == old(self).layout,
            final(self).offset == old(self).offset,
            match *old(self).layout {
                Layout::Array(e, n) => r matches Ok(it) && *it.layout == *e && it.len == n
                    && it.index == 0 && it.offset == old(self).offset,
                Layout::List(e) => if old(self).offset + 4 <= bytes@.len() {
                    r matches Ok(it) && *it.layout == *e && it.len == spec_list_count(
                        bytes@,
                        old(self).offset as nat,
                    ) && it.index == 0 && it.offset == old(self).offset + 4
                } else {
                    r matches Err(e2) && e2 == LayoutError::TruncatedInput
                },
                _ => true,
            },
    {
        match self.layout {
            Layout::Array(e, n) => Ok(
                IterMut { layout: &**e, len: *n, index: 0, offset: self.offset },
            ),
            Layout::List(e) => {
                if bytes.len() >= 4 && self.offset <= bytes.len() - 4 {
                    let count = u32_from_le_bytes(
                        slice_subrange(bytes, self.offset, self.offset + 4),
                    );
                    Ok(
                        IterMut {
                            layout: &**e,
                            len: count as usize,
                            index: 0,
                            offset: self.offset + 4,
                        },
                    )
                } else {
                    Err(LayoutError::TruncatedInput)
                }
            },
            _ => Err(LayoutError::TruncatedInput),
        }
    }

    /// Overwrites the viewed value in place with `v`, which must occupy
    /// exactly as many bytes as the value currently encoded there.
    ///
    /// Fails with the scanning error when the existing bytes are malformed,
    /// and with `SizeMismatch` — leaving the buffer untouched — when the
    /// replacement's encoded size differs from the existing value's.
    pub fn overwrite(&self, bytes: &mut Vec<u8>, v: &Value) -> (r: Result<(), LayoutError>)
        requires
            spec_encodable(*v),
            spec_size(*v) <= usize::MAX,
        ensures
            match spec_scan(*self.layout, old(bytes)@, self.offset as nat) {
                Ok(s) => if s == spec_size(*v) {
                    r is Ok && final(bytes)@ == spec_splice(
                        old(bytes)@,
                        self.offset as nat,
                        spec_encode(*v),
                    )
                } else {
                    (r matches Err(e) && e == LayoutError::SizeMismatch) && final(bytes)@ == old(
                        bytes,
                    )@
                },
                Err(err) => (r matches Err(e) && e == err) && final(bytes)@ == old(bytes)@,
            },
    {
        let existing = match scan_size(self.layout, bytes.as_slice(), self.offset) {
            Ok(s) => s,
            Err(err) => {
                return Err(err);
            },
        };
        let new_size = actual_size_of(v);
        if new_size != existing {
            return Err(LayoutError::SizeMismatch);
        }
        proof {
            lemma_scan_in_bounds(*self.layout, old(bytes)@, self.offset as nat);
            lemma_encode_len(*v);
        }
        let enc = encode(v);
        let ghost start = bytes@;
        let blen = bytes.len();
        let mut i: usize = 0;
        while i < enc.len()
            invariant
                enc@ == spec_encode(*v),
                enc@.len() == existing,
                i <= enc@.len(),
                self.offset + existing <= start.len() || existing == 0,
                blen == start.len(),
                bytes@.len() == start.len(),
                forall|k: int| 0 <= k < self.offset ==> bytes@[k] == start[k],
                forall|k: int| self.offset + i <= k < start.len() ==> bytes@[k] == start[k],
                forall|k: int| 0 <= k < i ==> bytes@[self.offset + k] == enc@[k],
            decreases enc@.len() - i,
        {
            let b = enc[i];
            bytes[self.offset + i] = b;
            i = i + 1;
        }
        proof {
            let off = self.offset as int;
            let sz = spec_size(*v) as int;
            if sz == 0 {
                assert(bytes@ =~= start);
                if self.offset + spec_encode(*v).len() <= start.len() {
                    assert(start.take(off) + spec_encode(*v) + start.skip(off) =~= start);
                }
            } else {
                let spliced = start.take(off) + spec_encode(*v) + start.skip(off + sz);
                assert(bytes@ =~= spliced) by {
                    assert(start.take(off).len() == off);
                    assert(spec_encode(*v).len() == sz);
                    assert forall|j: int| 0 <= j < bytes@.len() implies bytes@[j] == spliced[j] by {
                        if j < off {
                            assert(spliced[j] == start.take(off)[j]);
                        } else if j < off + sz {
                            assert(bytes@[self.offset + (j - off)] == enc@[j - off]);
                            assert(spliced[j] == spec_encode(*v)[j - off]);
                        } else {
                            assert(spliced[j] == start.skip(off + sz)[j - off - sz]);
                            assert(bytes@[j] == start[j]);
                        }
                    }
                }
            }
        }
        Ok(())
    }
}

/// A forward iteration cursor yielding mutable views: the element shape, a
/// running offset, the element count snapshotted at creation, and the
/// current index.
pub struct IterMut<'a> {
    pub layout: &'a Layout,
    pub len: usize,
    pub index: usize,
    pub offset: usize,
}

impl<'a> IterMut<'a> {
    /// Yields a mutable view of the current element and advances past it,
    /// or `None` when the count is exhausted.
    pub fn next(&mut self, bytes: &[u8]) -> (r: Option<ZcMut<'a>>)
        requires
            old(self).index < old(self).len ==> spec_scan(
                *old(self).layout,
                bytes@,
                old(self).offset as nat,
            ) is Ok,
        ensures
            final(self).layout == old(self).layout,
            final(self).len == old(self).len,
            old(self).index >= old(self).len ==> (r is None && final(self).index == old(
                self,
            ).index && final(self).offset == old(self).offset),
            old(self).index < old(self).len ==> (r matches Some(z) && z.layout == old(self).layout
                && z.offset == old(self).offset && final(self).index == old(self).index + 1
                && final(self).offset == old(self).offset + spec_scan(
                *old(self).layout,
                bytes@,
                old(self).offset as nat,
            )->Ok_0),
    {
        if self.index >= self.len {
            return None;
        }
        let result = ZcMut { layout: self.layout, offset: self.offset };
        match scan_size(self.layout, bytes, self.offset) {
            Ok(s) => {
                proof {
                    lemma_scan_in_bounds(*self.layout, bytes@, self.offset as nat);
                    assert(bytes@.len() == vstd::slice::spec_slice_len(bytes));
                }
                self.offset = self.offset + s;
                self.index = self.index + 1;
                Some(result)
            },
            Err(_) => {
                proof {
                    assert(false);
                }
                None
            },
        }
    }

    /// The number of elements the cursor has yet to yield, as a lower and
    /// upper bound.
    pub fn size_hint(&self) -> (r: (usize, Option<usize>))
        requires
            self.index <= self.len,
        ensures
            r.0 == self.len - self.index,
            r.1 matches Some(u) && u == self.len - self.index,
    {
        let size = self.len - self.index;
        (size, Some(size))
    }
}

} // verus!
