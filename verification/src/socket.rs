//! Byte-stream sockets shared between processes, with reference counting.
use vstd::prelude::*;
use crate::binary::Permissions;
use crate::arch::x86::vmm::process::VMA;

verus! {

/// Index of a socket in the socket table.
pub type SocketId = usize;

/// Why a socket operation failed.
#[derive(Clone, Copy, Debug, PartialEq, Eq, Structural)]
pub enum SocketError {
    /// The user buffer is not inside the process's memory.
    BadAddress,
    /// No open socket has this id.
    BadSocket,
}

/// A FIFO byte buffer with the number of file descriptors that refer to it.
pub struct Socket {
    pub references: usize,
    buffer: Vec<u8>,
}

impl Socket {
    /// The bytes written and not yet read, oldest first.
    pub closed spec fn contents(&self) -> Seq<u8> {
        self.buffer@
    }

    /// Number of file descriptors that refer to this socket.
    pub closed spec fn ref_count(&self) -> usize {
        self.references
    }

    /// An empty socket with one reference.
    pub fn new() -> (r: Self)
        ensures
            r.contents() == Seq::<u8>::empty(),
            r.ref_count() == 1,
    {
        Self { buffer: Vec::new(), references: 1 }
    }

    /// Appends `data` and returns how many bytes were written (all of them).
    pub fn write(&mut self, data: &[u8]) -> (r: usize)
        ensures
            final(self).contents() == old(self).contents() + data@,
            final(self).ref_count() == old(self).ref_count(),
            r == data@.len(),
    {
        let mut i: usize = 0;
        while i < data.len()
            invariant
                i <= data@.len(),
                self.buffer@ == old(self).buffer@ + data@.subrange(0, i as int),
                self.ref_count() == old(self).ref_count(),
            decreases data@.len() - i,
        {
            self.buffer.push(data[i]);
            i = i + 1;
            assert(data@.subrange(0, i as int) == data@.subrange(0, i - 1 as int).push(data@[i - 1]));
        }
        assert(data@.subrange(0, data@.len() as int) == data@);
        data.len()
    }

    /// Moves the oldest bytes into `buf`, as many as fit, and returns how
    /// many were moved.
    pub fn read(&mut self, buf: &mut [u8]) -> (r: usize)
        ensures
            r == if old(buf)@.len() < old(self).contents().len() { old(buf)@.len() } else { old(self).contents().len() },
            final(buf)@ == old(self).contents().subrange(0, r as int) + old(buf)@.subrange(r as int, old(buf)@.len() as int),
            final(self).contents() == old(self).contents().subrange(r as int, old(self).contents().len() as int),
            final(self).ref_count() == old(self).ref_count(),
    {
        let n = if buf.len() < self.buffer.len() { buf.len() } else { self.buffer.len() };
        let mut i: usize = 0;
        while i < n
            invariant
                i <= n,
                n <= buf@.len(),
                n <= self.buffer@.len(),
                self.buffer@ == old(self).buffer@,
                buf@.len() == old(buf)@.len(),
                forall|k: int| 0 <= k < i ==> buf@[k] == self.buffer@[k],
                forall|k: int| i <= k < buf@.len() ==> buf@[k] == old(buf)@[k],
            decreases n - i,
        {
            buf[i] = self.buffer[i];
            i = i + 1;
        }
        let rest = self.buffer.split_off(n);
        self.buffer = rest;
        assert(buf@ =~= old(self).buffer@.subrange(0, n as int) + old(buf)@.subrange(n as int, old(buf)@.len() as int));
        n
    }

    /// Number of bytes waiting to be read.
    pub fn len(&self) -> (r: usize)
        ensures
            r == self.contents().len(),
    {
        self.buffer.len()
    }

    /// Whether no bytes are waiting.
    pub fn is_empty(&self) -> (r: bool)
        ensures
            r == (self.contents().len() == 0),
    {
        self.buffer.len() == 0
    }
}

/// Bytes come out of a socket in the order they went in: when `data` is
/// written to socket `s0` (giving `s1`) and `s1` is then read into a buffer
/// (giving `s2`), the bytes read followed by the bytes left are the old
/// contents followed by `data`; from an empty socket, a buffer large enough
/// receives exactly `data` and nothing is left.
pub proof fn law_fifo(
    s0: Socket,
    s1: Socket,
    s2: Socket,
    data: Seq<u8>,
    buf_before: Seq<u8>,
    buf_after: Seq<u8>,
    n: int,
)
    requires
        s1.contents() == s0.contents() + data,
        n == (if buf_before.len() < s1.contents().len() { buf_before.len() as int } else { s1.contents().len() as int }),
        buf_after == s1.contents().subrange(0, n) + buf_before.subrange(n, buf_before.len() as int),
        s2.contents() == s1.contents().subrange(n, s1.contents().len() as int),
    ensures
        buf_after.subrange(0, n) + s2.contents() == s0.contents() + data,
        s0.contents().len() == 0 && buf_before.len() >= data.len() ==> buf_after.subrange(0, n) == data
            && s2.contents().len() == 0,
{
    assert(buf_after.subrange(0, n) =~= s1.contents().subrange(0, n));
    assert(s1.contents().subrange(0, n) + s1.contents().subrange(n, s1.contents().len() as int) =~= s1.contents());
    if s0.contents().len() == 0 && buf_before.len() >= data.len() {
        assert(s1.contents() =~= data);
    }
}

/// The open sockets, addressed by id; ids of closed sockets are reused, most
/// recently freed first.
pub struct SocketTable {
    sockets: Vec<Option<Socket>>,
    free_slots: Vec<SocketId>,
}

impl SocketTable {
    /// The slot of every id ever handed out.
    pub closed spec fn slots(&self) -> Seq<Option<Socket>> {
        self.sockets@
    }

    /// The freed ids, the next one to reuse last.
    pub closed spec fn free_ids(&self) -> Seq<SocketId> {
        self.free_slots@
    }

    /// Whether `id` names an open socket.
    pub open spec fn is_open(&self, id: SocketId) -> bool {
        (id as int) < self.slots().len() && self.slots()[id as int].is_some()
    }

    /// The free ids are exactly the closed slots, each once, and every open
    /// socket has at least one reference.
    pub closed spec fn wf(&self) -> bool {
        &&& self.free_slots@.no_duplicates()
        &&& forall|k: int| 0 <= k < self.free_slots@.len() ==> (#[trigger] self.free_slots@[k] as int) < self.sockets@.len()
        &&& forall|i: int|
            0 <= i < self.sockets@.len() ==> ((#[trigger] self.sockets@[i]).is_none() <==> self.free_slots@.contains(i as usize))
        &&& forall|i: int|
            0 <= i < self.sockets@.len() && (#[trigger] self.sockets@[i]).is_some() ==> self.sockets@[i].unwrap().references >= 1
    }

    /// The id `create` hands out next.
    pub open spec fn next_id(&self) -> SocketId {
        if self.free_ids().len() > 0 { self.free_ids().last() } else { self.slots().len() as usize }
    }

    /// An empty table.
    pub fn new() -> (r: Self)
        ensures
            r.wf(),
            r.slots() == Seq::<Option<Socket>>::empty(),
            r.free_ids() == Seq::<SocketId>::empty(),
    {
        Self { sockets: Vec::new(), free_slots: Vec::new() }
    }

    /// Opens a new empty socket with one reference, reusing the most recently
    /// freed id if there is one.
    pub fn create(&mut self) -> (r: SocketId)
        requires
            old(self).wf(),
            old(self).slots().len() < usize::MAX,
        ensures
            final(self).wf(),
            r == old(self).next_id(),
            !old(self).is_open(r),
            (r as int) <= old(self).slots().len(),
            created(*old(self), *final(self)),
    {
        if let Some(id) = self.free_slots.pop() {
            assert(old(self).free_slots@.last() == id);
            self.sockets.set(id, Some(Socket::new()));
            proof {
                let fs = old(self).free_slots@;
                assert(fs.contains(id));
                assert(old(self).sockets@[id as int].is_none());
                assert forall|i: int| 0 <= i < self.sockets@.len() implies ((#[trigger] self.sockets@[i]).is_none() <==> self.free_slots@.contains(i as usize)) by {
                    if i == id as int {
                        if self.free_slots@.contains(i as usize) {
                            let k = choose|k: int| 0 <= k < self.free_slots@.len() && self.free_slots@[k] == i as usize;
                            assert(fs[k] == fs[fs.len() - 1]);
                        }
                    } else {
                        if fs.contains(i as usize) {
                            let k = choose|k: int| 0 <= k < fs.len() && fs[k] == i as usize;
                            assert(k != fs.len() - 1);
                            assert(self.free_slots@[k] == i as usize);
                        }
                        if self.free_slots@.contains(i as usize) {
                            let k = choose|k: int| 0 <= k < self.free_slots@.len() && self.free_slots@[k] == i as usize;
                            assert(fs[k] == i as usize);
                        }
                    }
                }
            }
            id
        } else {
            let id = self.sockets.len();
            self.sockets.push(Some(Socket::new()));
            proof {
                assert forall|i: int| 0 <= i < self.sockets@.len() implies ((#[trigger] self.sockets@[i]).is_none() <==> self.free_slots@.contains(i as usize)) by {
                    if i < id {
                        assert(self.sockets@[i] == old(self).sockets@[i]);
                    }
                }
            }
            id
        }
    }

    /// Drops one reference to socket `id`; the socket closes and its id is
    /// freed when no reference is left.
    pub fn close(&mut self, id: SocketId) -> (r: Result<(), SocketError>)
        requires
            old(self).wf(),
        ensures
            final(self).wf(),
            r.is_ok() == old(self).is_open(id),
            r.is_err() ==> r == Err::<(), SocketError>(SocketError::BadSocket) && *final(self) == *old(self),
            r.is_ok() ==> closed_once(*old(self), *final(self), id),
    {
        if id >= self.sockets.len() || self.sockets[id].is_none() {
            return Err(SocketError::BadSocket);
        }
        match &mut self.sockets[id] {
            None => Err(SocketError::BadSocket),
            Some(sock) => {
                sock.references = sock.references - 1;
                if sock.references == 0 {
                    self.sockets.set(id, None);
                    self.free_slots.push(id);
                    proof {
                        assert(!old(self).free_slots@.contains(id));
                        assert forall|i: int| 0 <= i < self.sockets@.len() implies ((#[trigger] self.sockets@[i]).is_none() <==> self.free_slots@.contains(i as usize)) by {
                            if i != id as int {
                                if old(self).free_slots@.contains(i as usize) {
                                    let k = choose|k: int| 0 <= k < old(self).free_slots@.len() && old(self).free_slots@[k] == i as usize;
                                    assert(self.free_slots@[k] == i as usize);
                                }
                            } else {
                                assert(self.free_slots@[self.free_slots@.len() - 1] == id);
                            }
                        }
                        assert(self.sockets@ =~= old(self).sockets@.update(id as int, None));
                        assert(self.free_slots@ =~= old(self).free_slots@.push(id));
                    }
                }
                Ok(())
            },
        }
    }

    /// Adds a reference to socket `id`.
    pub fn add_ref(&mut self, id: SocketId) -> (r: Result<(), SocketError>)
        requires
            old(self).wf(),
            old(self).is_open(id) ==> old(self).slots()[id as int].unwrap().ref_count() < usize::MAX,
        ensures
            final(self).wf(),
            r.is_ok() == old(self).is_open(id),
            r.is_err() ==> r == Err::<(), SocketError>(SocketError::BadSocket) && *final(self) == *old(self),
            r.is_ok() ==> {
                let s = old(self).slots()[id as int].unwrap();
                &&& final(self).free_ids() == old(self).free_ids()
                &&& final(self).slots().len() == old(self).slots().len()
                &&& final(self).slots()[id as int].unwrap().ref_count() == s.ref_count() + 1
                &&& final(self).slots()[id as int].unwrap().contents() == s.contents()
                &&& forall|i: int| 0 <= i < old(self).slots().len() && i != id ==> #[trigger] final(self).slots()[i] == old(self).slots()[i]
            },
    {
        if id >= self.sockets.len() || self.sockets[id].is_none() {
            return Err(SocketError::BadSocket);
        }
        match &mut self.sockets[id] {
            None => Err(SocketError::BadSocket),
            Some(socket) => {
                socket.references = socket.references + 1;
                Ok(())
            },
        }
    }

    /// The open socket `id`.
    pub fn get_mut(&mut self, id: SocketId) -> (r: Result<&mut Socket, SocketError>)
        requires
            old(self).wf(),
        ensures
            r.is_ok() == old(self).is_open(id),
            r.is_err() ==> r == Err::<&mut Socket, SocketError>(SocketError::BadSocket) && *final(self) == *old(self),
            r.is_ok() ==> *r.unwrap() == old(self).slots()[id as int].unwrap(),
            r.is_ok() ==> final(self).slots() == old(self).slots().update(id as int, Some(*final(r.unwrap()))),
            r.is_ok() ==> final(self).free_ids() == old(self).free_ids(),
    {
        if id >= self.sockets.len() || self.sockets[id].is_none() {
            return Err(SocketError::BadSocket);
        }
        match &mut self.sockets[id] {
            None => Err(SocketError::BadSocket),
            Some(socket) => Ok(socket),
        }
    }
}

/// `b` is `a` after one close of its open socket `id`: the socket loses a
/// reference, and when none is left its slot empties and `id` goes last on
/// the free ids; every other slot stays.
pub open spec fn closed_once(a: SocketTable, b: SocketTable, id: SocketId) -> bool {
    let s = a.slots()[id as int].unwrap();
    if s.ref_count() == 1 {
        &&& b.slots() == a.slots().update(id as int, None)
        &&& b.free_ids() == a.free_ids().push(id)
    } else {
        &&& b.free_ids() == a.free_ids()
        &&& b.slots().len() == a.slots().len()
        &&& b.is_open(id)
        &&& b.slots()[id as int].unwrap().ref_count() == s.ref_count() - 1
        &&& b.slots()[id as int].unwrap().contents() == s.contents()
        &&& forall|i: int| 0 <= i < a.slots().len() && i != id ==> #[trigger] b.slots()[i] == a.slots()[i]
    }
}

/// `b` is `a` after `create` opened `a.next_id()`: an empty socket with one
/// reference there, the free id it reused taken off, every other slot kept.
pub open spec fn created(a: SocketTable, b: SocketTable) -> bool {
    let r = a.next_id();
    &&& b.is_open(r)
    &&& b.slots()[r as int].unwrap().ref_count() == 1
    &&& b.slots()[r as int].unwrap().contents() == Seq::<u8>::empty()
    &&& forall|i: int| 0 <= i < a.slots().len() && i != r ==> #[trigger] b.slots()[i] == a.slots()[i]
    &&& b.slots().len() == (if a.free_ids().len() > 0 { a.slots().len() } else { a.slots().len() + 1 })
    &&& b.free_ids() == (if a.free_ids().len() > 0 { a.free_ids().drop_last() } else { a.free_ids() })
}

/// References held on socket `id`: its count while open, zero once closed.
pub open spec fn refs_of(t: SocketTable, id: SocketId) -> int {
    if t.is_open(id) {
        t.slots()[id as int].unwrap().ref_count() as int
    } else {
        0
    }
}

/// How many descriptors in `fds` refer to socket `id`.
pub open spec fn fd_count(fds: Seq<Option<SocketId>>, id: SocketId) -> nat
    decreases fds.len(),
{
    if fds.len() == 0 {
        0
    } else {
        fd_count(fds.drop_last(), id) + if fds.last() == Some(id) { 1nat } else { 0nat }
    }
}

/// The larger of `x` and zero.
pub open spec fn clamp0(x: int) -> int {
    if x < 0 { 0 } else { x }
}

/// Drops one reference per descriptor in `fds` (descriptors of sockets that
/// are already closed are skipped).
pub fn close_all(table: &mut SocketTable, fds: &[Option<SocketId>])
    requires
        old(table).wf(),
    ensures
        final(table).wf(),
        forall|id: SocketId| #[trigger] refs_of(*final(table), id) == clamp0(refs_of(*old(table), id) - fd_count(fds@, id)),
        forall|id: SocketId| #[trigger] final(table).is_open(id) ==> old(table).is_open(id)
            && final(table).slots()[id as int].unwrap().contents() == old(table).slots()[id as int].unwrap().contents(),
{
    let mut i: usize = 0;
    while i < fds.len()
        invariant
            i <= fds@.len(),
            table.wf(),
            forall|id: SocketId| #[trigger] refs_of(*table, id) == clamp0(refs_of(*old(table), id) - fd_count(fds@.subrange(0, i as int), id)),
            forall|id: SocketId| #[trigger] table.is_open(id) ==> old(table).is_open(id)
                && table.slots()[id as int].unwrap().contents() == old(table).slots()[id as int].unwrap().contents(),
        decreases fds@.len() - i,
    {
        let ghost before = *table;
        proof {
            assert(fds@.subrange(0, i + 1int).drop_last() =~= fds@.subrange(0, i as int));
        }
        match fds[i] {
            Some(sid) => {
                let _ = table.close(sid);
                proof {
                    assert forall|id: SocketId| #[trigger] refs_of(*table, id) == clamp0(refs_of(*old(table), id) - fd_count(fds@.subrange(0, i + 1int), id)) by {
                        assert(refs_of(before, id) == clamp0(refs_of(*old(table), id) - fd_count(fds@.subrange(0, i as int), id)));
                        if id != sid && before.is_open(id) {
                            assert(table.slots()[id as int] == before.slots()[id as int]);
                        }
                    }
                    assert forall|id: SocketId| #[trigger] table.is_open(id) implies old(table).is_open(id)
                        && table.slots()[id as int].unwrap().contents() == old(table).slots()[id as int].unwrap().contents() by {
                        assert(before.is_open(id));
                        if id != sid {
                            assert(table.slots()[id as int] == before.slots()[id as int]);
                        }
                    }
                }
            },
            None => {},
        }
        i = i + 1;
    }
    assert(fds@.subrange(0, fds@.len() as int) =~= fds@);
}

/// Adds one reference per descriptor in `fds` whose socket is open.
pub fn add_refs(table: &mut SocketTable, fds: &[Option<SocketId>])
    requires
        old(table).wf(),
        forall|id: SocketId| #[trigger] old(table).is_open(id) ==> refs_of(*old(table), id) + fd_count(fds@, id) <= usize::MAX,
    ensures
        final(table).wf(),
        forall|id: SocketId| #[trigger] final(table).is_open(id) == old(table).is_open(id),
        forall|id: SocketId| #[trigger] refs_of(*final(table), id) == if old(table).is_open(id) {
            refs_of(*old(table), id) + fd_count(fds@, id)
        } else {
            0
        },
        forall|id: SocketId| #[trigger] final(table).is_open(id) ==>
            final(table).slots()[id as int].unwrap().contents() == old(table).slots()[id as int].unwrap().contents(),
        final(table).free_ids() == old(table).free_ids(),
        final(table).slots().len() == old(table).slots().len(),
{
    let mut i: usize = 0;
    while i < fds.len()
        invariant
            i <= fds@.len(),
            table.wf(),
            table.free_ids() == old(table).free_ids(),
            table.slots().len() == old(table).slots().len(),
            forall|id: SocketId| #[trigger] old(table).is_open(id) ==> refs_of(*old(table), id) + fd_count(fds@, id) <= usize::MAX,
            forall|id: SocketId| #[trigger] table.is_open(id) == old(table).is_open(id),
            forall|id: SocketId| #[trigger] refs_of(*table, id) == if old(table).is_open(id) {
                refs_of(*old(table), id) + fd_count(fds@.subrange(0, i as int), id)
            } else {
                0
            },
            forall|id: SocketId| #[trigger] table.is_open(id) ==>
                table.slots()[id as int].unwrap().contents() == old(table).slots()[id as int].unwrap().contents(),
        decreases fds@.len() - i,
    {
        let ghost before = *table;
        proof {
            assert(fds@.subrange(0, i + 1int).drop_last() =~= fds@.subrange(0, i as int));
        }
        match fds[i] {
            Some(sid) => {
                proof {
                    if before.is_open(sid) {
                        lemma_fd_count_prefix(fds@, i as int + 1, sid);
                        assert(refs_of(before, sid) == refs_of(*old(table), sid) + fd_count(fds@.subrange(0, i as int), sid));
                    }
                }
                let _ = table.add_ref(sid);
                proof {
                    assert forall|id: SocketId| #[trigger] table.is_open(id) == old(table).is_open(id) by {
                        assert(before.is_open(id) == old(table).is_open(id));
                        if id != sid && (id as int) < before.slots().len() {
                            assert(table.slots()[id as int] == before.slots()[id as int]);
                        }
                    }
                    assert forall|id: SocketId| #[trigger] refs_of(*table, id) == if old(table).is_open(id) {
                        refs_of(*old(table), id) + fd_count(fds@.subrange(0, i + 1int), id)
                    } else {
                        0
                    } by {
                        assert(refs_of(before, id) == if old(table).is_open(id) {
                            refs_of(*old(table), id) + fd_count(fds@.subrange(0, i as int), id)
                        } else {
                            0
                        });
                        assert(table.is_open(id) == old(table).is_open(id));
                        if id != sid && before.is_open(id) {
                            assert(table.slots()[id as int] == before.slots()[id as int]);
                        }
                    }
                    assert forall|id: SocketId| #[trigger] table.is_open(id) implies
                        table.slots()[id as int].unwrap().contents() == old(table).slots()[id as int].unwrap().contents() by {
                        assert(before.is_open(id));
                        if id != sid {
                            assert(table.slots()[id as int] == before.slots()[id as int]);
                        }
                    }
                }
            },
            None => {},
        }
        i = i + 1;
    }
    assert(fds@.subrange(0, fds@.len() as int) =~= fds@);
}

/// A prefix holds no more references to `id` than the whole sequence.
proof fn lemma_fd_count_prefix(fds: Seq<Option<SocketId>>, k: int, id: SocketId)
    requires
        0 <= k <= fds.len(),
    ensures
        fd_count(fds.subrange(0, k), id) <= fd_count(fds, id),
    decreases fds.len() - k,
{
    if k < fds.len() {
        lemma_fd_count_prefix(fds, k + 1, id);
        assert(fds.subrange(0, k + 1).drop_last() =~= fds.subrange(0, k));
    } else {
        assert(fds.subrange(0, k) =~= fds);
    }
}

/// Whether `addr .. addr + len` lies inside one VMA, one that is writable when
/// `need_write` is set; the first VMA holding the range decides.
pub open spec fn range_ok_from(vmas: Seq<VMA>, k: int, addr: int, len: int, need_write: bool) -> bool
    decreases vmas.len() - k,
{
    if k >= vmas.len() || k < 0 {
        false
    } else {
        let v = vmas[k];
        let vma_end = v.start as int + v.size as int;
        if vma_end > usize::MAX || vma_end == 0 || v.start > addr || addr + len - 1 > vma_end - 1 {
            range_ok_from(vmas, k + 1, addr, len, need_write)
        } else {
            !need_write || v.permissions == Permissions::ReadWrite
        }
    }
}

/// Whether the scan of `vmas` from `k` on meets an empty VMA at address 0
/// before it meets one holding the range.
pub open spec fn meets_empty_vma_from(vmas: Seq<VMA>, k: int, addr: int, len: int) -> bool
    decreases vmas.len() - k,
{
    if k >= vmas.len() || k < 0 {
        false
    } else {
        let v = vmas[k];
        let vma_end = v.start as int + v.size as int;
        if vma_end == 0 {
            true
        } else if vma_end > usize::MAX || v.start > addr || addr + len - 1 > vma_end - 1 {
            meets_empty_vma_from(vmas, k + 1, addr, len)
        } else {
            false
        }
    }
}

/// Whether a process with these VMAs may access `len` bytes at `addr`.
pub open spec fn user_range_ok(vmas: Seq<VMA>, addr: int, len: int, need_write: bool) -> bool {
    if len == 0 {
        true
    } else if addr + len - 1 > usize::MAX {
        false
    } else {
        range_ok_from(vmas, 0, addr, len, need_write)
    }
}

/// Checks that `addr .. addr + len` lies inside one of `vmas` (a writable one
/// if `need_write`).
pub fn validate_user_range(vmas: &[VMA], addr: usize, len: usize, need_write: bool) -> (r: bool)
    requires
        len > 0 && addr + len - 1 <= usize::MAX ==> !meets_empty_vma_from(vmas@, 0, addr as int, len as int),
    ensures
        r == user_range_ok(vmas@, addr as int, len as int, need_write),
{
    if len == 0 {
        return true;
    }
    let end_inclusive = match addr.checked_add(len - 1) {
        Some(e) => e,
        None => return false,
    };
    let mut k: usize = 0;
    while k < vmas.len()
        invariant
            k <= vmas@.len(),
            len > 0,
            end_inclusive == addr + len - 1,
            range_ok_from(vmas@, 0, addr as int, len as int, need_write) == range_ok_from(vmas@, k as int, addr as int, len as int, need_write),
            !meets_empty_vma_from(vmas@, k as int, addr as int, len as int),
        decreases vmas@.len() - k,
    {
        let vma = vmas[k];
        match vma.start.checked_add(vma.size) {
            Some(e) => {
                let vma_end_inclusive = e - 1;
                if !(vma.start > addr || end_inclusive > vma_end_inclusive) {
                    if need_write && !(match vma.permissions {
                        Permissions::ReadWrite => true,
                        _ => false,
                    }) {
                        return false;
                    }
                    return true;
                }
            },
            None => {},
        }
        k = k + 1;
    }
    false
}

/// Appends `data` to socket `id`; returns how many bytes were written.
pub fn socket_write(table: &mut SocketTable, id: SocketId, data: &[u8]) -> (r: Result<usize, SocketError>)
    requires
        old(table).wf(),
    ensures
        final(table).wf(),
        r is Ok <==> old(table).is_open(id),
        r is Err ==> r == Err::<usize, SocketError>(SocketError::BadSocket) && *final(table) == *old(table),
        r is Ok ==> {
            let s = old(table).slots()[id as int].unwrap();
            let t = final(table).slots()[id as int].unwrap();
            &&& r == Ok::<usize, SocketError>(data@.len() as usize)
            &&& final(table).is_open(id)
            &&& t.contents() == s.contents() + data@
            &&& t.ref_count() == s.ref_count()
            &&& final(table).slots().len() == old(table).slots().len()
            &&& final(table).free_ids() == old(table).free_ids()
            &&& forall|i: int| 0 <= i < old(table).slots().len() && i != id ==> #[trigger] final(table).slots()[i] == old(table).slots()[i]
        },
{
    let socket = match table.get_mut(id) {
        Ok(s) => s,
        Err(e) => return Err(e),
    };
    let n = socket.write(data);
    proof {
        lemma_update_keeps_wf(*old(table), *table, id);
    }
    Ok(n)
}

/// Moves the oldest bytes of socket `id` into `out`, as many as fit; returns
/// how many were moved.
pub fn socket_read(table: &mut SocketTable, id: SocketId, out: &mut [u8]) -> (r: Result<usize, SocketError>)
    requires
        old(table).wf(),
    ensures
        final(table).wf(),
        r is Ok <==> old(table).is_open(id),
        r is Err ==> r == Err::<usize, SocketError>(SocketError::BadSocket) && *final(table) == *old(table)
            && final(out)@ == old(out)@,
        r is Ok ==> {
            let s = old(table).slots()[id as int].unwrap();
            let t = final(table).slots()[id as int].unwrap();
            let n = if old(out)@.len() < s.contents().len() { old(out)@.len() } else { s.contents().len() };
            &&& r == Ok::<usize, SocketError>(n as usize)
            &&& final(out)@ == s.contents().subrange(0, n as int) + old(out)@.subrange(n as int, old(out)@.len() as int)
            &&& final(table).is_open(id)
            &&& t.contents() == s.contents().subrange(n as int, s.contents().len() as int)
            &&& t.ref_count() == s.ref_count()
            &&& final(table).slots().len() == old(table).slots().len()
            &&& final(table).free_ids() == old(table).free_ids()
            &&& forall|i: int| 0 <= i < old(table).slots().len() && i != id ==> #[trigger] final(table).slots()[i] == old(table).slots()[i]
        },
{
    let socket = match table.get_mut(id) {
        Ok(s) => s,
        Err(e) => return Err(e),
    };
    let n = socket.read(out);
    proof {
        lemma_update_keeps_wf(*old(table), *table, id);
    }
    Ok(n)
}

/// Replacing an open socket by one that still has a reference keeps the table consistent.
proof fn lemma_update_keeps_wf(t1: SocketTable, t2: SocketTable, id: SocketId)
    requires
        t1.wf(),
        t1.is_open(id),
        t2.slots() == t1.slots().update(id as int, t2.slots()[id as int]),
        t2.slots()[id as int] is Some,
        t2.slots()[id as int].unwrap().ref_count() == t1.slots()[id as int].unwrap().ref_count(),
        t2.free_ids() == t1.free_ids(),
    ensures
        t2.wf(),
{
    assert forall|i: int| 0 <= i < t2.sockets@.len() implies ((#[trigger] t2.sockets@[i]).is_none() <==> t2.free_slots@.contains(i as usize)) by {
        if i != id as int {
            assert(t2.sockets@[i] == t1.sockets@[i]);
        }
    }
    assert forall|i: int| 0 <= i < t2.sockets@.len() && (#[trigger] t2.sockets@[i]).is_some() implies t2.sockets@[i].unwrap().references >= 1 by {
        if i != id as int {
            assert(t2.sockets@[i] == t1.sockets@[i]);
        }
    }
}

/// Opens a socket in `table` and returns its id.
pub fn socket_create(table: &mut SocketTable) -> (r: SocketId)
    requires
        old(table).wf(),
        old(table).slots().len() < usize::MAX,
    ensures
        final(table).wf(),
        r == old(table).next_id(),
        !old(table).is_open(r),
        created(*old(table), *final(table)),
{
    table.create()
}

/// Drops one reference to socket `id` in `table`.
pub fn socket_close(table: &mut SocketTable, id: SocketId) -> (r: Result<(), SocketError>)
    requires
        old(table).wf(),
    ensures
        final(table).wf(),
        r.is_ok() == old(table).is_open(id),
        r.is_err() ==> r == Err::<(), SocketError>(SocketError::BadSocket) && *final(table) == *old(table),
        r.is_ok() ==> closed_once(*old(table), *final(table), id),
{
    table.close(id)
}

} // verus!
