//! A cursor over a byte slice with big-endian reads.
use vstd::prelude::*;

verus! {

/// The unsigned 16-bit number at `p`, most significant byte first.
pub open spec fn be_u16(d: Seq<u8>, p: int) -> u16 {
    (d[p] * 0x100 + d[p + 1]) as u16
}

/// The unsigned 32-bit number at `p`, most significant byte first.
pub open spec fn be_u32(d: Seq<u8>, p: int) -> u32 {
    (d[p] * 0x100_0000 + d[p + 1] * 0x1_0000 + d[p + 2] * 0x100 + d[p + 3]) as u32
}

/// The unsigned 64-bit number at `p`, most significant byte first.
pub open spec fn be_u64(d: Seq<u8>, p: int) -> u64 {
    (be_u32(d, p) * 0x1_0000_0000 + be_u32(d, p + 4)) as u64
}

/// Where a read of `n` bytes at `p` leaves the position: behind the bytes, or at
/// the end of the data when fewer than `n` are left.
pub open spec fn after(d: Seq<u8>, p: nat, n: nat) -> nat {
    if p + n <= d.len() {
        p + n
    } else {
        d.len()
    }
}

/// Are there `n` bytes at `p`?
pub open spec fn fits(d: Seq<u8>, p: nat, n: nat) -> bool {
    p + n <= d.len()
}

pub fn u16_at(data: &[u8], p: usize) -> (r: u16)
    requires
        p + 2 <= data@.len(),
    ensures
        r == be_u16(data@, p as int),
{
    data[p] as u16 * 0x100 + data[p + 1] as u16
}

pub fn u32_at(data: &[u8], p: usize) -> (r: u32)
    requires
        p + 4 <= data@.len(),
    ensures
        r == be_u32(data@, p as int),
{
    data[p] as u32 * 0x100_0000 + data[p + 1] as u32 * 0x1_0000 + data[p + 2] as u32 * 0x100
        + data[p + 3] as u32
}

/// Are the two slices equal byte for byte?
pub fn same_bytes(a: &[u8], b: &[u8]) -> (r: bool)
    ensures
        r == (a@ == b@),
{
    if a.len() != b.len() {
        return false;
    }
    let mut i: usize = 0;
    while i < a.len()
        invariant
            i <= a@.len(),
            a@.len() == b@.len(),
            forall|j: int| 0 <= j < i ==> a@[j] == b@[j],
        decreases a@.len() - i,
    {
        if a[i] != b[i] {
            return false;
        }
        i += 1;
    }
    assert(a@ =~= b@);
    true
}

/// A copy of a slice.
pub fn copy_bytes(bytes: &[u8]) -> (r: Vec<u8>)
    ensures
        r@ == bytes@,
{
    let mut r: Vec<u8> = Vec::with_capacity(bytes.len());
    r.extend_from_slice(bytes);
    assert(r@ =~= bytes@);
    r
}

/// A position in a byte slice.
///
/// A read that finds too few bytes gives `None` and leaves the position at the
/// end of the data.
pub struct ByteReader<'a> {
    pub data: &'a [u8],
    pub pos: usize,
}

impl<'a> ByteReader<'a> {
    /// The position lies inside the data or at its end.
    pub open spec fn wf(self) -> bool {
        self.pos <= self.data@.len()
    }

    pub fn new(data: &'a [u8]) -> (r: ByteReader<'a>)
        ensures
            r.wf(),
            r.data == data,
            r.pos == 0,
    {
        ByteReader { data, pos: 0 }
    }

    /// The next `n` bytes.
    pub fn take(&mut self, n: usize) -> (r: Option<&'a [u8]>)
        requires
            old(self).wf(),
        ensures
            final(self).wf(),
            final(self).data == old(self).data,
            final(self).pos as nat == after(old(self).data@, old(self).pos as nat, n as nat),
            match r {
                Some(s) => {
                    &&& fits(old(self).data@, old(self).pos as nat, n as nat)
                    &&& s@ == old(self).data@.subrange(old(self).pos as int, old(self).pos + n)
                },
                None => !fits(old(self).data@, old(self).pos as nat, n as nat),
            },
    {
        if n <= self.data.len() - self.pos {
            let start: usize = self.pos;
            self.pos = start + n;
            Some(&self.data[start..start + n])
        } else {
            self.pos = self.data.len();
            None
        }
    }

    pub fn read_u8(&mut self) -> (r: Option<u8>)
        requires
            old(self).wf(),
        ensures
            final(self).wf(),
            final(self).data == old(self).data,
            final(self).pos as nat == after(old(self).data@, old(self).pos as nat, 1),
            r == (if fits(old(self).data@, old(self).pos as nat, 1) {
                Some(old(self).data@[old(self).pos as int])
            } else {
                None
            }),
    {
        if self.pos < self.data.len() {
            let v: u8 = self.data[self.pos];
            self.pos = self.pos + 1;
            Some(v)
        } else {
            None
        }
    }

    pub fn read_u16(&mut self) -> (r: Option<u16>)
        requires
            old(self).wf(),
        ensures
            final(self).wf(),
            final(self).data == old(self).data,
            final(self).pos as nat == after(old(self).data@, old(self).pos as nat, 2),
            r == (if fits(old(self).data@, old(self).pos as nat, 2) {
                Some(be_u16(old(self).data@, old(self).pos as int))
            } else {
                None
            }),
    {
        let p: usize = self.pos;
        match self.take(2) {
            Some(_) => Some(u16_at(self.data, p)),
            None => None,
        }
    }

    pub fn read_u32(&mut self) -> (r: Option<u32>)
        requires
            old(self).wf(),
        ensures
            final(self).wf(),
            final(self).data == old(self).data,
            final(self).pos as nat == after(old(self).data@, old(self).pos as nat, 4),
            r == (if fits(old(self).data@, old(self).pos as nat, 4) {
                Some(be_u32(old(self).data@, old(self).pos as int))
            } else {
                None
            }),
    {
        let p: usize = self.pos;
        match self.take(4) {
            Some(_) => Some(u32_at(self.data, p)),
            None => None,
        }
    }

    pub fn read_u64(&mut self) -> (r: Option<u64>)
        requires
            old(self).wf(),
        ensures
            final(self).wf(),
            final(self).data == old(self).data,
            final(self).pos as nat == after(old(self).data@, old(self).pos as nat, 8),
            r == (if fits(old(self).data@, old(self).pos as nat, 8) {
                Some(be_u64(old(self).data@, old(self).pos as int))
            } else {
                None
            }),
    {
        let p: usize = self.pos;
        match self.take(8) {
            Some(_) => {
                let high: u64 = u32_at(self.data, p) as u64;
                let low: u64 = u32_at(self.data, p + 4) as u64;
                Some(high * 0x1_0000_0000 + low)
            },
            None => None,
        }
    }
}

} // verus!
