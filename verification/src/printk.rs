//! Kernel printing: bytes are gathered in a 1 KiB buffer and handed to the
//! screen when the buffer is full or a line ends.
use vstd::prelude::*;

verus! {

/// Size of the print buffer.
pub const BUFFER_SIZE: usize = 1024;

/// Where the last line of `t` starts: just after its last newline, or 0.
pub open spec fn line_start(t: Seq<u8>) -> int
    decreases t.len(),
{
    if t.len() == 0 {
        0
    } else if t.last() == 0x0Au8 {
        t.len() as int
    } else {
        line_start(t.drop_last())
    }
}

/// `line_start` lies in the sequence, and no newline follows it.
pub proof fn lemma_line_start(t: Seq<u8>)
    ensures
        0 <= line_start(t) <= t.len(),
        !t.subrange(line_start(t), t.len() as int).contains(0x0Au8),
        line_start(t) > 0 ==> t[line_start(t) - 1] == 0x0Au8,
        !t.contains(0x0Au8) ==> line_start(t) == 0,
    decreases t.len(),
{
    if t.len() > 0 && t.last() != 0x0Au8 {
        let u = t.drop_last();
        lemma_line_start(u);
        let k = line_start(u);
        assert(t.subrange(k, t.len() as int) =~= u.subrange(k, u.len() as int).push(t.last()));
        if !t.contains(0x0Au8) {
            assert forall|j: int| 0 <= j < u.len() implies u[j] != 0x0Au8 by {
                assert(t[j] == u[j]);
            }
        }
    }
    if t.len() > 0 && t.last() == 0x0Au8 {
        assert(t.subrange(t.len() as int, t.len() as int) =~= Seq::<u8>::empty());
    }
}

/// The print buffer: the bytes not yet handed to the screen.
pub struct PrintkWriter {
    buffer: Vec<u8>,
    position: usize,
}

impl PrintkWriter {
    /// The bytes waiting in the buffer.
    pub closed spec fn pending(&self) -> Seq<u8> {
        self.buffer@.subrange(0, self.position as int)
    }

    /// The buffer has 1024 slots and at most that many bytes waiting.
    pub closed spec fn wf(&self) -> bool {
        self.buffer@.len() == 1024 && self.position <= 1024
    }

    /// An empty buffer.
    pub fn new() -> (r: Self)
        ensures
            r.wf(),
            r.pending() == Seq::<u8>::empty(),
    {
        let mut buffer: Vec<u8> = Vec::new();
        while buffer.len() < BUFFER_SIZE
            invariant
                buffer@.len() <= 1024,
            decreases 1024 - buffer@.len(),
        {
            buffer.push(0);
        }
        let r = Self { buffer, position: 0 };
        assert(r.pending() =~= Seq::<u8>::empty());
        r
    }

    /// Hands the waiting bytes out (to be written to the screen) and empties the buffer.
    pub fn flush(&mut self) -> (r: Vec<u8>)
        requires
            old(self).wf(),
        ensures
            final(self).wf(),
            r@ == old(self).pending(),
            final(self).pending() == Seq::<u8>::empty(),
    {
        let mut out: Vec<u8> = Vec::new();
        let mut i: usize = 0;
        while i < self.position
            invariant
                self.wf(),
                *self == *old(self),
                i <= self.position,
                out@ == self.buffer@.subrange(0, i as int),
            decreases self.position - i,
        {
            out.push(self.buffer[i]);
            i = i + 1;
        }
        self.position = 0;
        assert(self.pending() =~= Seq::<u8>::empty());
        out
    }

    /// Adds `byte`; returns the bytes handed to the screen on the way: the
    /// full buffer before the byte, and the line when the byte ends one.
    pub fn write_byte(&mut self, byte: u8) -> (r: Vec<u8>)
        requires
            old(self).wf(),
        ensures
            final(self).wf(),
            r@ + final(self).pending() == old(self).pending().push(byte),
            byte == 0x0Au8 ==> final(self).pending() == Seq::<u8>::empty(),
            byte != 0x0Au8 && old(self).pending().len() < 1024 ==> r@ == Seq::<u8>::empty(),
            byte != 0x0Au8 && old(self).pending().len() >= 1024 ==> r@ == old(self).pending(),
    {
        let mut out: Vec<u8> = Vec::new();
        if self.position >= BUFFER_SIZE {
            out = self.flush();
        }
        let ghost before = self.pending();
        self.buffer.set(self.position, byte);
        self.position = self.position + 1;
        assert(self.pending() =~= before.push(byte));
        if byte == 0x0A {
            let mut line = self.flush();
            out.append(&mut line);
        }
        assert(out@ + self.pending() =~= old(self).pending().push(byte));
        out
    }

    /// Adds every byte of `s`; returns the bytes handed to the screen: every
    /// line as it ends, and the full buffer whenever a byte finds it full.
    /// Afterwards no finished line is left waiting: the waiting bytes hold no
    /// newline, and they are the whole last, unfinished line when it fits
    /// the buffer.
    pub fn write_str(&mut self, s: &[u8]) -> (r: Vec<u8>)
        requires
            old(self).wf(),
        ensures
            final(self).wf(),
            r@ + final(self).pending() == old(self).pending() + s@,
            final(self).pending().len() <= BUFFER_SIZE,
            s@.contains(0x0Au8) || !old(self).pending().contains(0x0Au8) ==> !final(self).pending().contains(0x0Au8),
            ({
                let t = old(self).pending() + s@;
                (s@.contains(0x0Au8) || !old(self).pending().contains(0x0Au8)) && t.len() - line_start(t) <= BUFFER_SIZE
                    ==> final(self).pending() == t.subrange(line_start(t), t.len() as int)
            }),
    {
        let mut out: Vec<u8> = Vec::new();
        let mut i: usize = 0;
        proof {
            let p = old(self).pending();
            assert(p + s@.subrange(0, 0) =~= p);
            assert(!s@.subrange(0, 0).contains(0x0Au8));
            lemma_line_start(p);
            assert(p.subrange(0, p.len() as int) =~= p);
        }
        while i < s.len()
            invariant
                self.wf(),
                i <= s@.len(),
                out@ + self.pending() == old(self).pending() + s@.subrange(0, i as int),
                ({
                    let t = old(self).pending() + s@.subrange(0, i as int);
                    let good = s@.subrange(0, i as int).contains(0x0Au8) || !old(self).pending().contains(0x0Au8);
                    &&& good ==> !self.pending().contains(0x0Au8)
                    &&& good && t.len() - line_start(t) <= 1024 ==> self.pending() == t.subrange(line_start(t), t.len() as int)
                }),
            decreases s@.len() - i,
        {
            let ghost p0 = self.pending();
            let ghost t0 = old(self).pending() + s@.subrange(0, i as int);
            let ghost b = s@[i as int];
            let mut got = self.write_byte(s[i]);
            proof {
                assert(s@.subrange(0, i + 1int) =~= s@.subrange(0, i as int).push(b));
                assert(got@ + self.pending() == p0.push(b));
                assert(out@ + (got@ + self.pending()) =~= (out@ + p0).push(b));
                assert(out@ + got@ + self.pending() =~= out@ + (got@ + self.pending()));
                assert(out@ + got@ + self.pending() =~= old(self).pending() + s@.subrange(0, i + 1int));
                let t1 = old(self).pending() + s@.subrange(0, i + 1int);
                assert(t1 =~= t0.push(b));
                assert(t1.drop_last() =~= t0);
                lemma_line_start(t0);
                lemma_line_start(t1);
                assert(p0.len() <= 1024);
                if b == 0x0Au8 {
                    assert(s@.subrange(0, i + 1int)[i as int] == b);
                    assert(self.pending() =~= Seq::<u8>::empty());
                    assert(line_start(t1) == t1.len());
                    assert(t1.subrange(t1.len() as int, t1.len() as int) =~= Seq::<u8>::empty());
                } else {
                    assert(line_start(t1) == line_start(t0));
                    let g1 = s@.subrange(0, i + 1int).contains(0x0Au8) || !old(self).pending().contains(0x0Au8);
                    let g0 = s@.subrange(0, i as int).contains(0x0Au8) || !old(self).pending().contains(0x0Au8);
                    if s@.subrange(0, i + 1int).contains(0x0Au8) {
                        let j = choose|j: int| 0 <= j < i + 1 && #[trigger] s@.subrange(0, i + 1int)[j] == 0x0Au8;
                        assert(j != i);
                        assert(s@.subrange(0, i as int)[j] == 0x0Au8);
                    }
                    assert(g1 == g0);
                    if g0 {
                        if p0.len() < 1024 {
                            assert(self.pending() =~= p0.push(b));
                            assert forall|j: int| 0 <= j < self.pending().len() implies self.pending()[j] != 0x0Au8 by {
                                if j < p0.len() {
                                    assert(self.pending()[j] == p0[j]);
                                }
                            }
                            if t1.len() - line_start(t1) <= 1024 {
                                assert(self.pending() =~= t1.subrange(line_start(t1), t1.len() as int));
                            }
                        } else {
                            assert(self.pending() =~= seq![b]);
                            assert(!self.pending().contains(0x0Au8)) by {
                                assert(forall|j: int| 0 <= j < self.pending().len() ==> #[trigger] self.pending()[j] == b);
                            }
                        }
                    }
                }
            }
            out.append(&mut got);
            i = i + 1;
        }
        assert(s@.subrange(0, s@.len() as int) =~= s@);
        out
    }
}


/// A write hands out exactly the finished lines: when the waiting bytes `p`
/// held no newline and the last, unfinished line of `p + s` fits the
/// buffer, what `write_str(s)` returns (`r`, with `q` left waiting) is the
/// text up to and including its last newline, and `q` is the rest.
pub proof fn law_write_str_lines(p: Seq<u8>, s: Seq<u8>, r: Seq<u8>, q: Seq<u8>)
    requires
        !p.contains(0x0Au8),
        (p + s).len() - line_start(p + s) <= BUFFER_SIZE,
        r + q == p + s,
        q == (p + s).subrange(line_start(p + s), (p + s).len() as int),
    ensures
        r == (p + s).subrange(0, line_start(p + s)),
        r.len() > 0 ==> r.last() == 0x0Au8,
        !q.contains(0x0Au8),
{
    let t = p + s;
    lemma_line_start(t);
    assert(r =~= (r + q).subrange(0, r.len() as int));
    assert(r.len() == line_start(t));
    assert(r =~= t.subrange(0, line_start(t)));
}

} // verus!
