//! Read-only views: typed, lazily-evaluating handles into a shared buffer.
//!
//! A view is a byte offset paired with the shape of the value expected
//! there.  Constructing one never touches the buffer; every accessor method
//! re-reads the relevant bytes at call time and surfaces malformed input as
//! a typed error.  The borrow checker enforces the aliasing discipline: any
//! number of views may read a buffer, while writing requires exclusive
//! access.

use vstd::prelude::*;
use vstd::bytes::spec_u32_from_le_bytes;
use vstd::bytes::u32_from_le_bytes;
use vstd::slice::slice_subrange;
use crate::error::LayoutError;
use crate::layout::Layout;
use crate::value::Value;
use crate::scan::{spec_scan, spec_scan_many, scan_agrees, scan_size, scan_many_elems,
    lemma_scan_in_bounds, lemma_scan_many_in_bounds};
use crate::decode::{decoded_ok, read_value};
use crate::laws::lemma_scan_many_split;

verus! {

/// The element count encoded in a sequence's 4-byte little-endian prefix
/// at `pos`.
pub open spec fn spec_list_count(b: Seq<u8>, pos: nat) -> nat {
    spec_u32_from_le_bytes(b.subrange(pos as int, pos as int + 4)) as nat
}

/// A read-only view: a byte offset into a shared buffer together with the
/// shape of the value expected there.
///
/// The view holds no bytes and never pre-reads; the buffer is handed to
/// each accessor, so the borrow discipline of the host language decides who
/// may read or write it at any moment.
pub struct Zc<'a> {
    pub layout: &'a Layout,
    pub offset: usize,
}

impl<'a> Zc<'a> {
    /// Creates a view of shape `layout` at `offset`.  Never fails and never
    /// reads the buffer.
    pub fn new(layout: &'a Layout, offset: usize) -> (r: Zc<'a>)
        ensures
            r.layout == layout,
            r.offset == offset,
    {
        Zc { layout, offset }
    }

    /// The element count of the viewed array or sequence.
    ///
    /// A fixed-size array answers from its shape alone; a length-prefixed
    /// sequence re-reads its 4-byte count prefix on every call.
    pub fn len(&self, bytes: &[u8]) -> (r: Result<usize, LayoutError>)
        requires
            (*self.layout) matches Layout::Array(_, _) || (*self.layout) matches Layout::List(_),
        ensures
            match *self.layout {
                Layout::Array(_, n) => r matches Ok(c) && c == n,
                Layout::List(_) => if self.offset + 4 <= bytes@.len() {
                    r matches Ok(c) && c == spec_list_count(bytes@, self.offset as nat)
                } else {
                    r matches Err(e) && e == LayoutError::TruncatedInput
                },
                _ => true,
            },
    {
        match self.layout {
            Layout::Array(_, n) => Ok(*n),
            Layout::List(_) => {
                if bytes.len() >= 4 && self.offset <= bytes.len() - 4 {
                    let count = u32_from_le_bytes(
                        slice_subrange(bytes, self.offset, self.offset + 4),
                    );
                    Ok(count as usize)
                } else {
                    Err(LayoutError::TruncatedInput)
                }
            },
            _ => Err(LayoutError::TruncatedInput),
        }
    }

    /// Whether the viewed length-prefixed sequence holds no elements.
    pub fn is_empty(&self, bytes: &[u8]) -> (r: Result<bool, LayoutError>)
        requires
            (*self.layout) matches Layout::List(_),
        ensures
            if self.offset + 4 <= bytes@.len() {
                r matches Ok(e) && (e <==> spec_list_count(bytes@, self.offset as nat) == 0)
            } else {
                r matches Err(e) && e == LayoutError::TruncatedInput
            },
    {
        match self.len(bytes) {
            Ok(c) => Ok(c == 0),
            Err(err) => Err(err),
        }
    }

    /// The encoded size of the viewed value, computed by scanning only the
    /// encoded prefix at the view's offset.
    pub fn byte_size(&self, bytes: &[u8]) -> (r: Result<usize, LayoutError>)
        ensures
            scan_agrees(spec_scan(*self.layout, bytes@, self.offset as nat), r),
    {
        scan_size(self.layout, bytes, self.offset)
    }

    /// Materializes the viewed value, copying its bytes into an owned
    /// [`Value`].
    pub fn try_value(&self, bytes: &[u8]) -> (r: Result<Value, LayoutError>)
        ensures
            r matches Ok(v) ==> decoded_ok(*self.layout, bytes@, self.offset as nat, v),
            r matches Err(e) ==> spec_scan(*self.layout, bytes@, self.offset as nat) == Err::<
                nat,
                LayoutError,
            >(e),
    {
        read_value(self.layout, bytes, self.offset)
    }

    /// A view of the element at `index` of the viewed array or sequence,
    /// or `None` when `index` is at or past the element count.
    ///
    /// The element's offset is found by a linear scan over the preceding
    /// elements — with variable-size elements no random-access shortcut
    /// exists — and a scanning failure among those elements is surfaced.
    pub fn get_zc_index(&self, bytes: &[u8], index: usize) -> (r: Result<
        Option<Zc<'a>>,
        LayoutError,
    >)
        requires
            (*self.layout) matches Layout::Array(_, _) || (*self.layout) matches Layout::List(_),
        ensures
            match *self.layout {
                Layout::Array(e, n) => if index >= n {
                    r matches Ok(o) && o is None
                } else {
                    match spec_scan_many(*e, bytes@, self.offset as nat, index as nat) {
                        Ok(s) => r matches Ok(o) && o matches Some(z) && *z.layout == *e
                            && z.offset == self.offset + s,
                        Err(err) => r matches Err(e2) && e2 == err,
                    }
                },
                Layout::List(e) => if self.offset + 4 > bytes@.len() {
                    r matches Err(e2) && e2 == LayoutError::TruncatedInput
                } else if index >= spec_list_count(bytes@, self.offset as nat) {
                    r matches Ok(o) && o is None
                } else {
                    match spec_scan_many(*e, bytes@, self.offset as nat + 4, index as nat) {
                        Ok(s) => r matches Ok(o) && o matches Some(z) && *z.layout == *e
                            && z.offset == self.offset + 4 + s,
                        Err(err) => r matches Err(e2) && e2 == err,
                    }
                },
                _ => true,
            },
    {
        match self.layout {
            Layout::Array(e, n) => {
                if index >= *n {
                    Ok(None)
                } else {
                    match scan_many_elems(&**e, bytes, self.offset, index) {
                        Ok(s) => {
                            proof {
                                lemma_scan_many_in_bounds(
                                    **e,
                                    bytes@,
                                    self.offset as nat,
                                    index as nat,
                                );
                                assert(bytes@.len() == vstd::slice::spec_slice_len(bytes));
                            }
                            Ok(Some(Zc { layout: &**e, offset: self.offset + s }))
                        },
                        Err(err) => Err(err),
                    }
                }
            },
            Layout::List(e) => {
                if bytes.len() >= 4 && self.offset <= bytes.len() - 4 {
                    let count = u32_from_le_bytes(
                        slice_subrange(bytes, self.offset, self.offset + 4),
                    );
                    if index >= count as usize {
                        Ok(None)
                    } else {
                        match scan_many_elems(&**e, bytes, self.offset + 4, index) {
                            Ok(s) => {
                                proof {
                                    lemma_scan_many_in_bounds(
                                        **e,
                                        bytes@,
                                        (self.offset + 4) as nat,
                                        index as nat,
                                    );
                                }
                                Ok(Some(Zc { layout: &**e, offset: self.offset + 4 + s }))
                            },
                            Err(err) => Err(err),
                        }
                    }
                } else {
                    Err(LayoutError::TruncatedInput)
                }
            },
            _ => Err(LayoutError::TruncatedInput),
        }
    }

    /// A forward cursor over the elements of the viewed array or sequence.
    ///
    /// The element count is read once, at creation; the caller must not
    /// structurally mutate the buffer (change the count) while the cursor
    /// is in flight.
    pub fn iter(&self, bytes: &[u8]) -> (r: Result<Iter<'a>, LayoutError>)
        requires
            (*self.layout) matches Layout::Array(_, _) || (*self.layout) matches Layout::List(_),
        ensures
            match *self.layout {
                Layout::Array(e, n) => r matches Ok(it) && *it.layout == *e && it.len == n
                    && it.index == 0 && it.offset == self.offset,
                Layout::List(e) => if self.offset + 4 <= bytes@.len() {
                    r matches Ok(it) && *it.layout == *e && it.len == spec_list_count(
                        bytes@,
                        self.offset as nat,
                    ) && it.index == 0 && it.offset == self.offset + 4
                } else {
                    r matches Err(e2) && e2 == LayoutError::TruncatedInput
                },
                _ => true,
            },
    {
        match self.layout {
            Layout::Array(e, n) => Ok(
                Iter { layout: &**e, len: *n, index: 0, offset: self.offset },
            ),
            Layout::List(e) => {
                if bytes.len() >= 4 && self.offset <= bytes.len() - 4 {
                    let count = u32_from_le_bytes(
                        slice_subrange(bytes, self.offset, self.offset + 4),
                    );
                    Ok(Iter { layout: &**e, len: count as usize, index: 0, offset: self.offset + 4 })
                } else {
                    Err(LayoutError::TruncatedInput)
                }
            },
            _ => Err(LayoutError::TruncatedInput),
        }
    }
}

/// A forward iteration cursor: the element shape, a running offset, the
/// element count snapshotted at creation, and the current index.
///
/// Mutated only by its own advance step; terminates when the index reaches
/// the count.
pub struct Iter<'a> {
    pub layout: &'a Layout,
    pub len: usize,
    pub index: usize,
    pub offset: usize,
}

impl<'a> Iter<'a> {
    /// The cursor stands at an element boundary of a run that scans
    /// successfully to its end: what a cursor freshly made by `iter` on a
    /// well-formed buffer satisfies, and what each advance preserves.
    pub open spec fn remaining_ok(&self, b: Seq<u8>) -> bool {
        &&& self.index <= self.len
        &&& spec_scan_many(
            *self.layout,
            b,
            self.offset as nat,
            (self.len - self.index) as nat,
        ) is Ok
    }

    /// Yields a view of the current element and advances past it, or
    /// `None` when the count is exhausted.
    pub fn next(&mut self, bytes: &[u8]) -> (r: Option<Zc<'a>>)
        requires
            old(self).index < old(self).len ==> spec_scan(
                *old(self).layout,
                bytes@,
                old(self).offset as nat,
            ) is Ok,
        ensures
            final(self).layout == old(self).layout,
            final(self).len == old(self).len,
            old(self).index >= old(self).len ==> (r is None && final(self).index == old(
                self,
            ).index && final(self).offset == old(self).offset),
            old(self).index < old(self).len ==> (r matches Some(z) && z.layout == old(self).layout
                && z.offset == old(self).offset && final(self).index == old(self).index + 1
                && final(self).offset == old(self).offset + spec_scan(
                *old(self).layout,
                bytes@,
                old(self).offset as nat,
            )->Ok_0),
    {
        if self.index >= self.len {
            return None;
        }
        let result = Zc { layout: self.layout, offset: self.offset };
        match scan_size(self.layout, bytes, self.offset) {
            Ok(s) => {
                proof {
                    lemma_scan_in_bounds(*self.layout, bytes@, self.offset as nat);
                    assert(bytes@.len() == vstd::slice::spec_slice_len(bytes));
                }
                self.offset = self.offset + s;
                self.index = self.index + 1;
                Some(result)
            },
            Err(_) => {
                proof {
                    assert(false);
                }
                None
            },
        }
    }

    /// The number of elements the cursor has yet to yield, as a lower and
    /// upper bound.
    pub fn size_hint(&self) -> (r: (usize, Option<usize>))
        requires
            self.index <= self.len,
        ensures
            r.0 == self.len - self.index,
            r.1 matches Some(u) && u == self.len - self.index,
    {
        let size = self.len - self.index;
        (size, Some(size))
    }

    /// A cursor that still stands before an element of a well-formed run
    /// may advance: the current element scans, the advance yields exactly
    /// the view that indexed lookup gives for its position, and the cursor
    /// stays on an element boundary.  Iterating a run of `len` elements
    /// therefore yields exactly `len` views, in order.
    pub proof fn lemma_step(self, b: Seq<u8>)
        requires
            self.remaining_ok(b),
            self.index < self.len,
        ensures
            spec_scan(*self.layout, b, self.offset as nat) is Ok,
            spec_scan_many(
                *self.layout,
                b,
                (self.offset + spec_scan(*self.layout, b, self.offset as nat)->Ok_0) as nat,
                (self.len - self.index - 1) as nat,
            ) is Ok,
    {
        assert(spec_scan_many(
            *self.layout,
            b,
            self.offset as nat,
            (self.len - self.index) as nat,
        ) is Ok);
    }
}

/// Indexed element lookup agrees with the count: when the whole run of
/// `count` elements at `pos` scans successfully, the scan over the first
/// `i` elements succeeds for every `i <= count`.  For a sequence view this
/// means `get_zc_index` answers `Ok(Some(_))` for every index below the
/// count and `Ok(None)` at or above it, and a fresh cursor yields exactly
/// `count` elements.
pub proof fn lemma_get_within_count(e: Layout, b: Seq<u8>, pos: nat, count: nat, i: nat)
    requires
        i <= count,
        spec_scan_many(e, b, pos, count) is Ok,
    ensures
        spec_scan_many(e, b, pos, i) is Ok,
{
    lemma_scan_many_split(e, b, pos, count, i);
}

} // verus!
