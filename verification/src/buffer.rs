use vstd::prelude::*;

use crate::error::{ServerError, ServerResult};

verus! {

/// Mathematical model of a `Buffer`: the backing bytes and the two cursors.
pub struct BufferModel {
    pub bytes: Seq<u8>,
    pub rpos: int,
    pub wpos: int,
}

impl BufferModel {
    /// The live bytes: written but not yet read.
    pub open spec fn live(self) -> Seq<u8> {
        self.bytes.subrange(self.rpos, self.wpos)
    }

    pub open spec fn cap(self) -> int {
        self.bytes.len() as int
    }

    pub open spec fn available(self) -> int {
        self.wpos - self.rpos
    }

    pub open spec fn remaining(self) -> int {
        self.cap() - self.wpos
    }

    pub open spec fn wf(self) -> bool {
        0 <= self.rpos <= self.wpos <= self.bytes.len()
    }
}

/// Compaction: shift the live bytes to offset 0. The bytes past the live
/// region keep whatever the array held at those positions.
pub open spec fn spec_compact(m: BufferModel) -> BufferModel {
    if m.rpos > 0 {
        BufferModel {
            bytes: m.bytes.subrange(m.rpos, m.wpos) + m.bytes.subrange(
                m.wpos - m.rpos,
                m.bytes.len() as int,
            ),
            rpos: 0,
            wpos: m.wpos - m.rpos,
        }
    } else {
        m
    }
}

/// What `ensure_capacity` does: return early when there is room, otherwise
/// compact, and grow geometrically when compaction is not enough.
pub open spec fn spec_ensure_capacity(m: BufferModel, additional: int) -> BufferModel {
    if m.remaining() >= additional {
        m
    } else {
        let m2 = spec_compact(m);
        if m2.remaining() < additional {
            let new_capacity = if m2.cap() + additional > 2 * m2.cap() {
                m2.cap() + additional
            } else {
                2 * m2.cap()
            };
            BufferModel {
                bytes: m2.bytes + Seq::new((new_capacity - m2.cap()) as nat, |i: int| 0u8),
                rpos: m2.rpos,
                wpos: m2.wpos,
            }
        } else {
            m2
        }
    }
}

/// What `write` does: ensure capacity for the slice, then append it at the
/// write cursor.
pub open spec fn spec_write(m: BufferModel, d: Seq<u8>) -> BufferModel {
    let m1 = spec_ensure_capacity(m, d.len() as int);
    BufferModel {
        bytes: m1.bytes.subrange(0, m1.wpos) + d + m1.bytes.subrange(
            m1.wpos + d.len(),
            m1.bytes.len() as int,
        ),
        rpos: m1.rpos,
        wpos: m1.wpos + d.len(),
    }
}

/// Overflow guard for the geometric growth in `ensure_capacity`: only needed
/// when compaction alone cannot make room.
pub open spec fn growth_fits(m: BufferModel, additional: int) -> bool {
    m.cap() - m.available() < additional ==> {
        &&& 2 * m.cap() <= usize::MAX
        &&& m.cap() + additional <= usize::MAX
    }
}

/// Relies on std::io::Read::read: it reads at most `data.len() - at` bytes
/// into `data[at..]` and reports how many; no byte before `at` is touched,
/// and the length of `data` does not change.
#[verifier::external_body]
fn read_into<R: std::io::Read>(reader: &mut R, data: &mut Vec<u8>, at: usize) -> (r: Result<
    usize,
    String,
>)
    requires
        at <= old(data)@.len(),
    ensures
        final(data)@.len() == old(data)@.len(),
        forall|j: int| 0 <= j < at ==> final(data)@[j] == old(data)@[j],
        r matches Ok(n) ==> at + n <= final(data)@.len(),
{
    match reader.read(&mut data[at..]) {
        Ok(n) => Ok(n),
        Err(e) => Err(format!("{}", e)),
    }
}

/// Relies on std::io::Write::write: it writes some prefix of `data[from..to]`
/// and reports how many bytes it accepted; `data` itself is not touched.
#[verifier::external_body]
fn write_from<W: std::io::Write>(writer: &mut W, data: &Vec<u8>, from: usize, to: usize) -> (r:
    Result<usize, String>)
    requires
        from <= to <= data@.len(),
    ensures
        r matches Ok(n) ==> n <= to - from,
{
    match writer.write(&data[from..to]) {
        Ok(n) => Ok(n),
        Err(e) => Err(format!("{}", e)),
    }
}

/// A resizable byte buffer with read/write cursors and in-place compaction.
pub struct Buffer {
    data: Vec<u8>,
    read_pos: usize,
    write_pos: usize,
}

impl View for Buffer {
    type V = BufferModel;

    closed spec fn view(&self) -> BufferModel {
        BufferModel {
            bytes: self.data@,
            rpos: self.read_pos as int,
            wpos: self.write_pos as int,
        }
    }
}

impl Buffer {
    pub open spec fn inv(&self) -> bool {
        self@.wf()
    }

    pub open spec fn live(&self) -> Seq<u8> {
        self@.live()
    }

    /// Create a new buffer with the specified capacity, zero-filled and empty.
    pub fn new(capacity: usize) -> (r: Buffer)
        ensures
            r.inv(),
            r@.bytes == Seq::new(capacity as nat, |i: int| 0u8),
            r@.rpos == 0,
            r@.wpos == 0,
    {
        let r = Buffer { data: vec![0u8; capacity], read_pos: 0, write_pos: 0 };
        proof {
            assert(r@.bytes =~= Seq::new(capacity as nat, |i: int| 0u8));
        }
        r
    }

    /// Reset the buffer: both cursors return to 0, so no byte is live.
    pub fn reset(&mut self)
        ensures
            final(self)@ == (BufferModel { bytes: old(self)@.bytes, rpos: 0, wpos: 0 }),
    {
        self.read_pos = 0;
        self.write_pos = 0;
    }

    /// The number of live bytes waiting to be read.
    pub fn available_data(&self) -> (r: usize)
        requires
            self.inv(),
        ensures
            r == self@.available(),
    {
        self.write_pos - self.read_pos
    }

    /// The free space past the write cursor.
    pub fn remaining_capacity(&self) -> (r: usize)
        requires
            self.inv(),
        ensures
            r == self@.remaining(),
    {
        self.data.len() - self.write_pos
    }

    /// The total capacity of the backing array.
    pub fn capacity(&self) -> (r: usize)
        ensures
            r == self@.cap(),
    {
        self.data.len()
    }

    /// Borrow the live bytes.
    pub fn slice(&self) -> (r: &[u8])
        requires
            self.inv(),
        ensures
            r@ == self.live(),
    {
        vstd::slice::slice_subrange(self.data.as_slice(), self.read_pos, self.write_pos)
    }

    /// Make room for at least `additional` more bytes past the write cursor:
    /// return early when there is room, otherwise compact the live bytes to
    /// offset 0, and grow to `max(len + additional, len * 2)` when compaction
    /// is not enough. The live bytes are preserved exactly.
    pub fn ensure_capacity(&mut self, additional: usize)
        requires
            old(self).inv(),
            growth_fits(old(self)@, additional as int),
        ensures
            final(self).inv(),
            final(self)@ == spec_ensure_capacity(old(self)@, additional as int),
            final(self).live() == old(self).live(),
    {
        let ghost m0 = self@;
        let available_capacity = self.data.len() - self.write_pos;
        if available_capacity >= additional {
            assert(self@.live() =~= m0.live());
            return ;
        }
        if self.read_pos > 0 {
            let len = self.write_pos - self.read_pos;
            let rp = self.read_pos;
            let mut i: usize = 0;
            while i < len
                invariant
                    i <= len,
                    len == m0.wpos - m0.rpos,
                    rp == m0.rpos,
                    0 < rp,
                    m0.wf(),
                    self.data@.len() == m0.bytes.len(),
                    self.read_pos == m0.rpos,
                    self.write_pos == m0.wpos,
                    forall|j: int| 0 <= j < i ==> self.data@[j] == m0.bytes[m0.rpos + j],
                    forall|j: int|
                        i <= j < self.data@.len() ==> self.data@[j] == m0.bytes[j],
                decreases len - i,
            {
                let b = self.data[rp + i];
                self.data[i] = b;
                i += 1;
            }
            self.write_pos = len;
            self.read_pos = 0;
            proof {
                assert(self@.bytes =~= spec_compact(m0).bytes);
            }
        }
        let ghost m2 = spec_compact(m0);
        assert(self@ == m2);
        let available_after_compact = self.data.len() - self.write_pos;
        if available_after_compact < additional {
            let doubled = self.data.len() * 2;
            let needed = self.data.len() + additional;
            let new_capacity = if needed > doubled {
                needed
            } else {
                doubled
            };
            self.data.resize(new_capacity, 0);
            proof {
                assert(self@.bytes =~= spec_ensure_capacity(m0, additional as int).bytes);
            }
        }
        proof {
            assert(self@.live() =~= m0.live());
        }
    }

    /// Write the whole slice into the buffer, growing as needed; the number
    /// of bytes written is always the full length of the slice.
    pub fn write(&mut self, data: &[u8]) -> (r: ServerResult<usize>)
        requires
            old(self).inv(),
            growth_fits(old(self)@, data@.len() as int),
        ensures
            final(self).inv(),
            final(self)@ == spec_write(old(self)@, data@),
            final(self).live() == old(self).live() + data@,
            r matches Ok(n) && n == data@.len(),
    {
        let ghost m0 = self@;
        self.ensure_capacity(data.len());
        let ghost m1 = self@;
        let to_copy = data.len();
        assert(m1.remaining() >= to_copy as int);
        proof {
            vstd::std_specs::vec::axiom_spec_len(&self.data);
        }
        let wp = self.write_pos;
        let mut i: usize = 0;
        while i < to_copy
            invariant
                i <= to_copy,
                to_copy == data@.len(),
                m1.wf(),
                m1.remaining() >= to_copy,
                self.data@.len() == m1.bytes.len(),
                self.read_pos == m1.rpos,
                self.write_pos == m1.wpos,
                wp == m1.wpos,
                wp + to_copy <= self.data@.len(),
                self.data@.len() <= usize::MAX,
                forall|j: int| 0 <= j < wp ==> self.data@[j] == m1.bytes[j],
                forall|j: int| 0 <= j < i ==> self.data@[wp + j] == data@[j],
                forall|j: int|
                    wp + i <= j < self.data@.len() ==> self.data@[j] == m1.bytes[j],
            decreases to_copy - i,
        {
            let b = data[i];
            self.data[wp + i] = b;
            i += 1;
        }
        self.write_pos = self.write_pos + to_copy;
        proof {
            assert(self@.bytes =~= spec_write(m0, data@).bytes);
            assert(self.live() =~= old(self).live() + data@);
        }
        Ok(to_copy)
    }

    /// Read up to `out.len()` bytes into the front of `out`; the cursors
    /// advance, and reset to 0 when every live byte has been consumed.
    pub fn read(&mut self, out: &mut Vec<u8>) -> (r: ServerResult<usize>)
        requires
            old(self).inv(),
        ensures
            final(self).inv(),
            final(out)@.len() == old(out)@.len(),
            ({
                let k = if old(out)@.len() as int <= old(self)@.available() {
                    old(out)@.len() as int
                } else {
                    old(self)@.available()
                };
                &&& r matches Ok(n) && n == k
                &&& final(out)@ == old(self).live().take(k) + old(out)@.skip(k)
                &&& final(self).live() == old(self).live().skip(k)
                &&& final(self)@.bytes == old(self)@.bytes
                &&& (old(self)@.available() == 0 ==> final(self)@ == old(self)@)
                &&& (old(self)@.available() > 0 && old(self)@.rpos + k == old(self)@.wpos
                    ==> final(self)@.rpos == 0 && final(self)@.wpos == 0)
                &&& (old(self)@.rpos + k < old(self)@.wpos ==> final(self)@.rpos == old(self)@.rpos
                    + k && final(self)@.wpos == old(self)@.wpos)
            }),
    {
        let ghost m0 = self@;
        let available = self.write_pos - self.read_pos;
        if available == 0 {
            proof {
                assert(out@ =~= old(self).live().take(0) + old(out)@.skip(0));
                assert(self.live() =~= old(self).live().skip(0));
            }
            return Ok(0);
        }
        let to_copy = if out.len() < available {
            out.len()
        } else {
            available
        };
        let rp = self.read_pos;
        let mut i: usize = 0;
        while i < to_copy
            invariant
                i <= to_copy,
                m0.wf(),
                to_copy <= m0.available(),
                rp == m0.rpos,
                self@ == m0,
                out@.len() == old(out)@.len(),
                to_copy <= out@.len(),
                forall|j: int| 0 <= j < i ==> out@[j] == m0.bytes[m0.rpos + j],
                forall|j: int| i <= j < out@.len() ==> out@[j] == old(out)@[j],
            decreases to_copy - i,
        {
            let b = self.data[rp + i];
            out[i] = b;
            i += 1;
        }
        self.read_pos = self.read_pos + to_copy;
        if self.read_pos == self.write_pos {
            self.reset();
        }
        proof {
            let k = to_copy as int;
            assert(out@ =~= old(self).live().take(k) + old(out)@.skip(k));
            assert(self.live() =~= old(self).live().skip(k));
        }
        Ok(to_copy)
    }

    /// Read bytes from a reader into the free space of the buffer, making
    /// room for at least 1024 bytes first. Whatever the reader does, the
    /// previously live bytes are preserved; on success the live region is
    /// extended by exactly the bytes the reader produced.
    pub fn read_from<R: std::io::Read>(&mut self, reader: &mut R) -> (r: ServerResult<usize>)
        requires
            old(self).inv(),
            growth_fits(old(self)@, 1024),
        ensures
            final(self).inv(),
            ({
                let m1 = spec_ensure_capacity(old(self)@, 1024);
                &&& (r matches Ok(n) ==> {
                    &&& n <= m1.remaining()
                    &&& final(self)@.rpos == m1.rpos
                    &&& final(self)@.wpos == m1.wpos + n
                    &&& final(self)@.bytes.len() == m1.bytes.len()
                    &&& final(self).live() == old(self).live() + final(self)@.bytes.subrange(
                        m1.wpos,
                        m1.wpos + n,
                    )
                })
                &&& (r matches Err(e) ==> e is Io && final(self).live() == old(self).live())
            }),
    {
        let ghost m0 = self@;
        self.ensure_capacity(1024);
        let ghost m1 = self@;
        let wp = self.write_pos;
        match read_into(reader, &mut self.data, wp) {
            Ok(n) => {
                proof {
                    vstd::std_specs::vec::axiom_spec_len(&self.data);
                }
                self.write_pos = self.write_pos + n;
                proof {
                    assert(self.live() =~= old(self).live() + self@.bytes.subrange(
                        m1.wpos,
                        m1.wpos + n,
                    ));
                }
                Ok(n)
            },
            Err(m) => {
                proof {
                    assert(self.live() =~= old(self).live());
                }
                Err(ServerError::Io(m))
            },
        }
    }

    /// Write the live bytes to a writer; the read cursor advances by however
    /// many bytes the writer accepted, resetting both cursors when the buffer
    /// drains. An empty buffer writes nothing and reports 0.
    pub fn write_to<W: std::io::Write>(&mut self, writer: &mut W) -> (r: ServerResult<usize>)
        requires
            old(self).inv(),
        ensures
            final(self).inv(),
            final(self)@.bytes == old(self)@.bytes,
            r matches Err(e) ==> e is Io && final(self)@ == old(self)@,
            old(self)@.available() == 0 ==> (r matches Ok(n) && n == 0) && final(self)@ == old(self)@,
            r matches Ok(n) ==> {
                &&& n <= old(self)@.available()
                &&& final(self).live() == old(self).live().skip(n as int)
                &&& (old(self)@.available() > 0 && old(self)@.rpos + n == old(self)@.wpos
                    ==> final(self)@.rpos == 0 && final(self)@.wpos == 0)
                &&& (old(self)@.rpos + n < old(self)@.wpos ==> final(self)@.rpos == old(self)@.rpos + n && final(self)@.wpos == old(self)@.wpos)
            },
    {
        let available = self.write_pos - self.read_pos;
        if available == 0 {
            proof {
                assert(self.live() =~= old(self).live().skip(0));
            }
            return Ok(0);
        }
        match write_from(writer, &self.data, self.read_pos, self.write_pos) {
            Ok(n) => {
                self.read_pos = self.read_pos + n;
                if self.read_pos == self.write_pos {
                    self.reset();
                }
                proof {
                    assert(self.live() =~= old(self).live().skip(n as int));
                }
                Ok(n)
            },
            Err(m) => Err(ServerError::Io(m)),
        }
    }

    /// Advance the read cursor by `amount`; fails with a `Buffer` error when
    /// `amount` exceeds the live byte count, and resets the cursors when the
    /// buffer drains completely.
    pub fn advance_read(&mut self, amount: usize) -> (r: ServerResult<()>)
        requires
            old(self).inv(),
        ensures
            final(self).inv(),
            amount > old(self)@.available() ==> (r matches Err(e) && e is Buffer) && final(self)@
                == old(self)@,
            amount <= old(self)@.available() ==> {
                &&& r matches Ok(u)
                &&& final(self).live() == old(self).live().skip(amount as int)
                &&& final(self)@.bytes == old(self)@.bytes
                &&& (old(self)@.rpos + amount == old(self)@.wpos ==> final(self)@.rpos == 0
                    && final(self)@.wpos == 0)
                &&& (old(self)@.rpos + amount < old(self)@.wpos ==> final(self)@.rpos == old(self)@.rpos + amount && final(self)@.wpos == old(self)@.wpos)
            },
    {
        let available = self.write_pos - self.read_pos;
        if amount > available {
            return Err(
                ServerError::Buffer(
                    "Cannot advance read position beyond write position".to_owned(),
                ),
            );
        }
        self.read_pos = self.read_pos + amount;
        if self.read_pos == self.write_pos {
            self.reset();
        }
        proof {
            assert(self.live() =~= old(self).live().skip(amount as int));
        }
        Ok(())
    }
}

/// Buffer round-trip law: writing a byte sequence `s` into a buffer with no
/// live bytes and then reading back `s.len()` bytes yields exactly `s`, and
/// afterwards no byte is live. `write` leaves `live0 + s` live, and `read`
/// of `n` bytes returns the first `n` live bytes and leaves the rest, so the
/// law is stated over those live-byte sequences.
pub proof fn lemma_buffer_round_trip(live0: Seq<u8>, s: Seq<u8>)
    requires
        live0.len() == 0,
    ensures
        (live0 + s).take(s.len() as int) == s,
        (live0 + s).skip(s.len() as int).len() == 0,
{
    assert((live0 + s).take(s.len() as int) =~= s);
}

/// Compaction preserves content: the model after `spec_compact` carries
/// exactly the bytes that were live before, so `slice()` is unaffected by
/// compaction.
pub proof fn lemma_compact_preserves_live(m: BufferModel)
    requires
        m.wf(),
    ensures
        spec_compact(m).wf(),
        spec_compact(m).live() == m.live(),
{
    assert(spec_compact(m).live() =~= m.live());
}

/// Growing via `spec_ensure_capacity` never loses live bytes and always ends
/// with at least `n` free bytes past the write cursor.
pub proof fn lemma_ensure_capacity_preserves_live(m: BufferModel, n: int)
    requires
        m.wf(),
        n >= 0,
    ensures
        spec_ensure_capacity(m, n).wf(),
        spec_ensure_capacity(m, n).live() == m.live(),
        spec_ensure_capacity(m, n).remaining() >= n,
{
    lemma_compact_preserves_live(m);
    assert(spec_ensure_capacity(m, n).live() =~= m.live());
}

} // verus!
