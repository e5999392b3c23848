//! The boot file server's state: the files built into it, opened by name,
//! and its clients, found by the identifier of their connection. A client
//! may share a buffer with the server; the server maps it in a window of
//! its own, one page in a row of pages starting at `SHARED_BUFFER_BASE`,
//! the page picked by an offset allocator.

use vstd::prelude::*;
use crate::dma::{
    PageAllocation, PageAllocator, allocation_offset, allocator_allocate, allocator_free,
    allocator_with_max_allocs, page_allocation_node, page_allocation_offset, page_allocator_live,
    page_allocator_max_allocs, page_allocator_size,
};
use crate::error::InvocationError;

verus! {

/// Slots of the file table.
pub const NUM_FILES: usize = 10;

/// Slots of the client table.
pub const MAX_CLIENTS: usize = 16;

/// Where the windows of the clients' shared buffers start.
pub const SHARED_BUFFER_BASE: usize = 0xC0000;

/// The only size of shared buffer the server takes.
pub const SHARED_BUFFER_SIZE: usize = 4096;

/// A file built into the server: its name and its size in bytes.
pub struct BootFile {
    pub name: Vec<u8>,
    pub size: usize,
}

/// The index of the last file named `name`.
pub open spec fn last_file_named(fs: Seq<Option<(Seq<u8>, usize)>>, name: Seq<u8>) -> Option<int>
    decreases fs.len(),
{
    if fs.len() == 0 {
        None
    } else if fs.last() matches Some(f) && f.0 == name {
        Some(fs.len() - 1)
    } else {
        last_file_named(fs.drop_last(), name)
    }
}

/// The files built into the server.
pub struct FileTable {
    files: Vec<Option<BootFile>>,
}

impl View for FileTable {
    type V = Seq<Option<(Seq<u8>, usize)>>;

    closed spec fn view(&self) -> Seq<Option<(Seq<u8>, usize)>> {
        self.files@.map_values(
            |f: Option<BootFile>| match f {
                Some(b) => Some((b.name@, b.size)),
                None => None,
            },
        )
    }
}

proof fn lemma_last_file_named(fs: Seq<Option<(Seq<u8>, usize)>>, name: Seq<u8>)
    ensures
        last_file_named(fs, name) matches Some(i) ==> 0 <= i < fs.len() && (fs[i] matches Some(f) && f.0 == name),
    decreases fs.len(),
{
    if fs.len() > 0 {
        lemma_last_file_named(fs.drop_last(), name);
    }
}

impl FileTable {
    /// A table with every slot empty.
    pub fn new() -> (t: Self)
        ensures
            t@ == Seq::new(NUM_FILES as nat, |i: int| None::<(Seq<u8>, usize)>),
    {
        let mut files: Vec<Option<BootFile>> = Vec::new();
        let mut i: usize = 0;
        while i < NUM_FILES
            invariant
                i <= NUM_FILES,
                files@.len() == i,
                forall|j: int| 0 <= j < i ==> (#[trigger] files@[j]) is None,
            decreases NUM_FILES - i,
        {
            files.push(None);
            i += 1;
        }
        let t = FileTable { files: files };
        assert(t@ =~= Seq::new(NUM_FILES as nat, |i: int| None::<(Seq<u8>, usize)>));
        t
    }

    /// Puts the file `name` of `size` bytes in slot `i`.
    pub fn set_file(&mut self, i: usize, name: Vec<u8>, size: usize)
        requires
            i < old(self)@.len(),
        ensures
            final(self)@ == old(self)@.update(i as int, Some((name@, size))),
    {
        let ghost n = name@;
        self.files.set(i, Some(BootFile { name: name, size: size }));
        proof {
            assert(self@ =~= old(self)@.update(i as int, Some((n, size))));
        }
    }

    /// Opens the file named `name`: the last slot holding that name. Fails
    /// with `InvalidArguments` when no file has it.
    pub fn obj_open(&self, name: &[u8]) -> (r: Result<usize, InvocationError>)
        ensures
            r == (match last_file_named(self@, name@) {
                Some(i) => Ok::<usize, InvocationError>(i as usize),
                None => Err(InvocationError::InvalidArguments),
            }),
    {
        let mut matched: Option<usize> = None;
        let mut i: usize = 0;
        proof {
            assert(self@.subrange(0, 0) =~= Seq::<Option<(Seq<u8>, usize)>>::empty());
        }
        while i < self.files.len()
            invariant
                i <= self@.len(),
                self@.len() == self.files@.len(),
                matched matches Some(m) ==> last_file_named(self@.subrange(0, i as int), name@) == Some(m as int),
                matched is None ==> last_file_named(self@.subrange(0, i as int), name@) is None,
            decreases self@.len() - i,
        {
            proof {
                let t = self@.subrange(0, i + 1);
                assert(t.drop_last() =~= self@.subrange(0, i as int));
                assert(t.last() == self@[i as int]);
            }
            match &self.files[i] {
                Some(f) => {
                    if crate::server::bytes_eq(f.name.as_slice(), name) {
                        matched = Some(i);
                    }
                },
                None => {},
            }
            i += 1;
        }
        proof {
            assert(self@.subrange(0, self@.len() as int) =~= self@);
        }
        match matched {
            Some(m) => Ok(m),
            None => Err(InvocationError::InvalidArguments),
        }
    }

    /// The size in bytes of the file in slot `i`.
    pub fn obj_stat(&self, i: usize) -> (size: usize)
        requires
            i < self@.len(),
            self@[i as int] is Some,
        ensures
            size == self@[i as int]->Some_0.1,
    {
        match &self.files[i] {
            Some(f) => f.size,
            None => 0,
        }
    }
}

/// A buffer a client shares with the server: where the server maps it and
/// its size in bytes.
#[derive(Clone, Copy, Debug, PartialEq, Eq, Structural)]
pub struct SharedBuffer {
    pub vaddr: usize,
    pub size: usize,
}

/// A client of the server: the identifier of its connection, and the
/// buffer it shares, if any.
#[derive(Clone, Copy, Debug, PartialEq, Eq, Structural)]
pub struct ClientRecord {
    pub id: usize,
    pub shared_buffer: Option<SharedBuffer>,
}

/// The address of the window of page `page` of the shared-buffer row.
pub open spec fn window_vaddr(page: nat) -> int {
    SHARED_BUFFER_BASE + page * 4096
}

/// The clients of the server, each slot with the window it holds, if any.
pub struct ClientTable {
    clients: Vec<Option<ClientRecord>>,
    windows: Vec<Option<PageAllocation>>,
    window_allocator: PageAllocator,
}

/// Whether slot content `o` is a client with identifier `id`.
pub open spec fn is_client(o: Option<ClientRecord>, id: usize) -> bool {
    o matches Some(c) && c.id == id
}

/// The first slot holding a client with identifier `id`.
pub open spec fn first_client(s: Seq<Option<ClientRecord>>, id: usize) -> Option<int>
    decreases s.len(),
{
    if s.len() == 0 {
        None
    } else if is_client(s[0], id) {
        Some(0)
    } else {
        match first_client(s.drop_first(), id) {
            Some(i) => Some(i + 1),
            None => None,
        }
    }
}

/// The first empty slot.
pub open spec fn first_empty(s: Seq<Option<ClientRecord>>) -> Option<int>
    decreases s.len(),
{
    if s.len() == 0 {
        None
    } else if s[0] is None {
        Some(0)
    } else {
        match first_empty(s.drop_first()) {
            Some(i) => Some(i + 1),
            None => None,
        }
    }
}

proof fn lemma_first_client_step(s: Seq<Option<ClientRecord>>, id: usize, i: int)
    requires
        0 <= i < s.len(),
        forall|j: int| 0 <= j < i ==> !is_client(#[trigger] s[j], id),
    ensures
        is_client(s[i], id) ==> first_client(s, id) == Some(i),
    decreases i,
{
    if i > 0 {
        assert forall|j: int| 0 <= j < i - 1 implies !is_client(#[trigger] s.drop_first()[j], id) by {
            assert(s.drop_first()[j] == s[j + 1]);
        }
        lemma_first_client_step(s.drop_first(), id, i - 1);
    }
}

proof fn lemma_first_client_none(s: Seq<Option<ClientRecord>>, id: usize)
    requires
        forall|j: int| 0 <= j < s.len() ==> !is_client(#[trigger] s[j], id),
    ensures
        first_client(s, id) is None,
    decreases s.len(),
{
    if s.len() > 0 {
        assert forall|j: int| 0 <= j < s.len() - 1 implies !is_client(#[trigger] s.drop_first()[j], id) by {
            assert(s.drop_first()[j] == s[j + 1]);
        }
        lemma_first_client_none(s.drop_first(), id);
    }
}

proof fn lemma_first_empty_step(s: Seq<Option<ClientRecord>>, i: int)
    requires
        0 <= i < s.len(),
        forall|j: int| 0 <= j < i ==> (#[trigger] s[j]) is Some,
    ensures
        s[i] is None ==> first_empty(s) == Some(i),
    decreases i,
{
    if i > 0 {
        assert forall|j: int| 0 <= j < i - 1 implies (#[trigger] s.drop_first()[j]) is Some by {
            assert(s.drop_first()[j] == s[j + 1]);
        }
        lemma_first_empty_step(s.drop_first(), i - 1);
    }
}

proof fn lemma_first_empty_none(s: Seq<Option<ClientRecord>>)
    requires
        forall|j: int| 0 <= j < s.len() ==> (#[trigger] s[j]) is Some,
    ensures
        first_empty(s) is None,
    decreases s.len(),
{
    if s.len() > 0 {
        assert forall|j: int| 0 <= j < s.len() - 1 implies (#[trigger] s.drop_first()[j]) is Some by {
            assert(s.drop_first()[j] == s[j + 1]);
        }
        lemma_first_empty_none(s.drop_first());
    }
}

/// Some slot of `windows` holds the allocation with node `n`.
pub open spec fn held_node(windows: Seq<Option<PageAllocation>>, n: nat) -> bool {
    exists|i: int| 0 <= i < MAX_CLIENTS && #[trigger] windows[i] is Some && page_allocation_node(windows[i]->Some_0) == n
}

impl ClientTable {
    /// The clients, by slot.
    pub closed spec fn slots(&self) -> Seq<Option<ClientRecord>> {
        self.clients@
    }

    /// The page of the shared-buffer row the window of slot `i` takes, if it holds one.
    pub closed spec fn window_of(&self, i: int) -> Option<nat> {
        match self.windows@[i] {
            Some(a) => Some(page_allocation_offset(a)),
            None => None,
        }
    }

    /// The live allocations of the row are exactly the windows held, no two
    /// slots hold the same one, and a client's shared buffer lies in its
    /// slot's window.
    pub closed spec fn wf(&self) -> bool {
        &&& self.clients@.len() == MAX_CLIENTS
        &&& self.windows@.len() == MAX_CLIENTS
        &&& page_allocator_size(self.window_allocator) == MAX_CLIENTS
        &&& page_allocator_max_allocs(self.window_allocator) == MAX_CLIENTS
        &&& forall|n: nat| #[trigger] page_allocator_live(self.window_allocator).contains(n) ==> held_node(self.windows@, n)
        &&& forall|i: int|
            0 <= i < MAX_CLIENTS ==> (#[trigger] self.windows@[i] matches Some(a) ==> page_allocator_live(
                self.window_allocator,
            ).contains(page_allocation_node(a)) && page_allocation_offset(a) < MAX_CLIENTS)
        &&& forall|i: int, j: int|
            0 <= i < MAX_CLIENTS && 0 <= j < MAX_CLIENTS && i != j && #[trigger] self.windows@[i] is Some
                && #[trigger] self.windows@[j] is Some ==> page_allocation_node(self.windows@[i]->Some_0)
                != page_allocation_node(self.windows@[j]->Some_0)
        &&& forall|i: int|
            0 <= i < MAX_CLIENTS ==> (#[trigger] self.clients@[i] matches Some(c) ==> (c.shared_buffer matches Some(
                b,
            ) ==> (self.window_of(i) matches Some(p) && b.vaddr == window_vaddr(p))))
    }

    /// A table with no client and no window.
    pub fn new() -> (t: Self)
        ensures
            t.wf(),
            t.slots() == Seq::new(MAX_CLIENTS as nat, |i: int| None::<ClientRecord>),
            forall|i: int| 0 <= i < MAX_CLIENTS ==> #[trigger] t.window_of(i) is None,
    {
        let mut clients: Vec<Option<ClientRecord>> = Vec::new();
        let mut windows: Vec<Option<PageAllocation>> = Vec::new();
        let mut i: usize = 0;
        while i < MAX_CLIENTS
            invariant
                i <= MAX_CLIENTS,
                clients@.len() == i,
                windows@.len() == i,
                forall|j: int| 0 <= j < i ==> (#[trigger] clients@[j]) is None,
                forall|j: int| 0 <= j < i ==> (#[trigger] windows@[j]) is None,
            decreases MAX_CLIENTS - i,
        {
            clients.push(None);
            windows.push(None);
            i += 1;
        }
        let t = ClientTable {
            clients: clients,
            windows: windows,
            window_allocator: allocator_with_max_allocs(MAX_CLIENTS as u32, MAX_CLIENTS as u32),
        };
        assert(t.slots() =~= Seq::new(MAX_CLIENTS as nat, |i: int| None::<ClientRecord>));
        t
    }

    /// The slot of the client whose connection is `id`, the first if several.
    pub fn find_client_from_id(&self, id: usize) -> (r: Option<usize>)
        ensures
            r matches Some(i) ==> first_client(self.slots(), id) == Some(i as int),
            r is None ==> first_client(self.slots(), id) is None,
    {
        let mut i: usize = 0;
        while i < self.clients.len()
            invariant
                i <= self.clients@.len(),
                forall|j: int| 0 <= j < i ==> !is_client(#[trigger] self.clients@[j], id),
            decreases self.clients@.len() - i,
        {
            proof {
                lemma_first_client_step(self.clients@, id, i as int);
            }
            match self.clients[i] {
                Some(c) => {
                    if c.id == id {
                        return Some(i);
                    }
                },
                None => {},
            }
            i += 1;
        }
        proof {
            lemma_first_client_none(self.clients@, id);
        }
        None
    }

    /// The first slot without a client.
    pub fn find_client_slot(&self) -> (r: Option<usize>)
        ensures
            r matches Some(i) ==> first_empty(self.slots()) == Some(i as int),
            r is None ==> first_empty(self.slots()) is None,
    {
        let mut i: usize = 0;
        while i < self.clients.len()
            invariant
                i <= self.clients@.len(),
                forall|j: int| 0 <= j < i ==> (#[trigger] self.clients@[j]) is Some,
            decreases self.clients@.len() - i,
        {
            proof {
                lemma_first_empty_step(self.clients@, i as int);
            }
            if self.clients[i].is_none() {
                return Some(i);
            }
            i += 1;
        }
        proof {
            lemma_first_empty_none(self.clients@);
        }
        None
    }

    /// The client slot a connection being opened takes: the first empty one.
    /// With every slot taken the opening fails with `InsufficientResources`
    /// before anything is registered.
    pub fn conn_open_slot(&self) -> (r: Result<usize, InvocationError>)
        ensures
            r is Err <==> first_empty(self.slots()) is None,
            r is Err ==> r == Err::<usize, InvocationError>(InvocationError::InsufficientResources),
            r matches Ok(i) ==> first_empty(self.slots()) == Some(i as int),
    {
        match self.find_client_slot() {
            Some(i) => Ok(i),
            None => Err(InvocationError::InsufficientResources),
        }
    }

    /// Takes a page of the shared-buffer row for the window of slot `slot`;
    /// returns the window's address. Fails with `InsufficientResources`,
    /// changing nothing, when the row has no page left.
    pub fn reserve_window(&mut self, slot: usize) -> (r: Result<usize, InvocationError>)
        requires
            old(self).wf(),
            slot < MAX_CLIENTS,
            old(self).window_of(slot as int) is None,
        ensures
            final(self).wf(),
            final(self).slots() == old(self).slots(),
            forall|i: int| 0 <= i < MAX_CLIENTS && i != slot ==> #[trigger] final(self).window_of(i) == old(self).window_of(i),
            r is Err ==> r == Err::<usize, InvocationError>(InvocationError::InsufficientResources)
                && final(self).window_of(slot as int) is None,
            r matches Ok(v) ==> (final(self).window_of(slot as int) matches Some(p) && p < MAX_CLIENTS
                && v == window_vaddr(p)),
            (forall|i: int| 0 <= i < MAX_CLIENTS ==> #[trigger] old(self).window_of(i) is None) ==> r
                == Ok::<usize, InvocationError>(SHARED_BUFFER_BASE),
    {
        proof {
            if forall|i: int| 0 <= i < MAX_CLIENTS ==> #[trigger] self.window_of(i) is None {
                assert forall|n: nat| !page_allocator_live(self.window_allocator).contains(n) by {
                    if page_allocator_live(self.window_allocator).contains(n) {
                        let i = choose|i: int| 0 <= i < MAX_CLIENTS && #[trigger] self.windows@[i] is Some
                            && page_allocation_node(self.windows@[i]->Some_0) == n;
                        assert(self.window_of(i) is None);
                    }
                }
                assert(page_allocator_live(self.window_allocator) =~= Set::<nat>::empty());
            }
        }
        let ghost old_windows = self.windows@;
        let ghost live_before = page_allocator_live(self.window_allocator);
        match allocator_allocate(&mut self.window_allocator, 1) {
            None => {
                proof {
                    assert forall|i: int| 0 <= i < MAX_CLIENTS implies (#[trigger] self.windows@[i] matches Some(a)
                        ==> page_allocator_live(self.window_allocator).contains(page_allocation_node(a))
                        && page_allocation_offset(a) < MAX_CLIENTS) by {}
                }
                Err(InvocationError::InsufficientResources)
            },
            Some((offset, al)) => {
                let ghost n = page_allocation_node(al);
                let ghost live0 = page_allocator_live(self.window_allocator);
                self.windows.set(slot, Some(al));
                proof {
                    assert forall|m: nat| #[trigger] page_allocator_live(self.window_allocator).contains(m) implies held_node(
                        self.windows@,
                        m,
                    ) by {
                        if m == n {
                            assert(self.windows@[slot as int] is Some);
                        } else {
                            assert(live_before.contains(m));
                            assert(held_node(old_windows, m));
                            let i = choose|i: int| 0 <= i < MAX_CLIENTS && #[trigger] old_windows[i] is Some
                                && page_allocation_node(old_windows[i]->Some_0) == m;
                            assert(i != slot);
                            assert(self.windows@[i] == old_windows[i]);
                        }
                    }
                    assert forall|i: int| 0 <= i < MAX_CLIENTS implies (#[trigger] self.windows@[i] matches Some(a)
                        ==> page_allocator_live(self.window_allocator).contains(page_allocation_node(a))
                        && page_allocation_offset(a) < MAX_CLIENTS) by {
                        if i != slot {
                            assert(self.windows@[i] == old_windows[i]);
                        }
                    }
                    assert forall|i: int, j: int|
                        0 <= i < MAX_CLIENTS && 0 <= j < MAX_CLIENTS && i != j && #[trigger] self.windows@[i] is Some
                            && #[trigger] self.windows@[j] is Some implies page_allocation_node(
                        self.windows@[i]->Some_0,
                    ) != page_allocation_node(self.windows@[j]->Some_0) by {
                        if i == slot {
                            assert(old_windows[j] is Some);
                        } else if j == slot {
                            assert(old_windows[i] is Some);
                        } else {
                            assert(old_windows[i] is Some && old_windows[j] is Some);
                        }
                    }
                    assert forall|i: int| 0 <= i < MAX_CLIENTS implies #[trigger] self.clients@[i] matches Some(c)
                        ==> (c.shared_buffer matches Some(b) ==> (self.window_of(i) matches Some(p) && b.vaddr
                        == window_vaddr(p))) by {
                        if i != slot {
                            assert(self.windows@[i] == old_windows[i]);
                        }
                    }
                }
                Ok(SHARED_BUFFER_BASE + offset as usize * 4096)
            },
        }
    }

    /// Gives back the window slot `slot` holds, if any. A slot whose client
    /// shares a buffer keeps its window.
    pub fn release_window(&mut self, slot: usize)
        requires
            old(self).wf(),
            slot < MAX_CLIENTS,
            !(old(self).slots()[slot as int] matches Some(c) && c.shared_buffer is Some),
        ensures
            final(self).wf(),
            final(self).slots() == old(self).slots(),
            final(self).window_of(slot as int) is None,
            forall|i: int| 0 <= i < MAX_CLIENTS && i != slot ==> #[trigger] final(self).window_of(i) == old(self).window_of(i),
    {
        let ghost old_windows = self.windows@;
        let ghost old_live = page_allocator_live(self.window_allocator);
        let w = self.windows.remove(slot);
        self.windows.insert(slot, None);
        match w {
            None => {
                proof {
                    assert(self.windows@ =~= old_windows);
                }
            },
            Some(al) => {
                proof {
                    assert(old_windows[slot as int] is Some);
                }
                allocator_free(&mut self.window_allocator, al);
                proof {
                    assert forall|m: nat| #[trigger] page_allocator_live(self.window_allocator).contains(m) implies held_node(
                        self.windows@,
                        m,
                    ) by {
                        assert(old_live.contains(m));
                        assert(m != page_allocation_node(al));
                        assert(held_node(old_windows, m));
                        let i = choose|i: int| 0 <= i < MAX_CLIENTS && #[trigger] old_windows[i] is Some
                            && page_allocation_node(old_windows[i]->Some_0) == m;
                        assert(i != slot);
                        assert(self.windows@[i] == old_windows[i]);
                    }
                    let n = page_allocation_node(al);
                    assert(self.windows@ =~= old_windows.update(slot as int, None));
                    assert forall|i: int| 0 <= i < MAX_CLIENTS implies (#[trigger] self.windows@[i] matches Some(a)
                        ==> page_allocator_live(self.window_allocator).contains(page_allocation_node(a))
                        && page_allocation_offset(a) < MAX_CLIENTS) by {
                        if i != slot && self.windows@[i] is Some {
                            assert(old_windows[i] is Some);
                            assert(old_windows[slot as int] is Some);
                            assert(page_allocation_node(old_windows[i]->Some_0) != n);
                        }
                    }
                }
            },
        }
        proof {
            assert forall|i: int| 0 <= i < MAX_CLIENTS implies #[trigger] self.clients@[i] matches Some(c) ==> (
            c.shared_buffer matches Some(b) ==> (self.window_of(i) matches Some(p) && b.vaddr == window_vaddr(p))) by {
                if i != slot {
                    assert(self.windows@[i] == old_windows[i]);
                }
            }
        }
    }

    /// Records client `id` in slot `slot`, sharing a buffer of
    /// `shared_size` bytes in the slot's window when it shares one.
    pub fn add_client(&mut self, slot: usize, id: usize, shared_size: Option<usize>)
        requires
            old(self).wf(),
            slot < MAX_CLIENTS,
            shared_size is Some ==> old(self).window_of(slot as int) is Some,
        ensures
            final(self).wf(),
            final(self).slots() == old(self).slots().update(
                slot as int,
                Some(
                    ClientRecord {
                        id: id,
                        shared_buffer: match shared_size {
                            Some(sz) => Some(SharedBuffer { vaddr: window_vaddr(old(self).window_of(slot as int)->Some_0) as usize, size: sz }),
                            None => None,
                        },
                    },
                ),
            ),
            forall|i: int| 0 <= i < MAX_CLIENTS ==> #[trigger] final(self).window_of(i) == old(self).window_of(i),
    {
        let shared = match shared_size {
            Some(sz) => {
                let off = match &self.windows[slot] {
                    Some(a) => allocation_offset(a),
                    None => 0,
                };
                Some(SharedBuffer { vaddr: SHARED_BUFFER_BASE + off as usize * 4096, size: sz })
            },
            None => None,
        };
        let ghost old_clients = self.clients@;
        self.clients.set(slot, Some(ClientRecord { id: id, shared_buffer: shared }));
        proof {
            assert forall|i: int| 0 <= i < MAX_CLIENTS implies #[trigger] self.clients@[i] matches Some(c) ==> (
            c.shared_buffer matches Some(b) ==> (self.window_of(i) matches Some(p) && b.vaddr == window_vaddr(p))) by {
                if i != slot {
                    assert(self.clients@[i] == old_clients[i]);
                }
            }
        }
    }

    /// Removes the client of slot `slot`, giving back its window.
    pub fn delete_client(&mut self, slot: usize)
        requires
            old(self).wf(),
            slot < MAX_CLIENTS,
        ensures
            final(self).wf(),
            final(self).slots() == old(self).slots().update(slot as int, None),
            final(self).window_of(slot as int) is None,
            forall|i: int| 0 <= i < MAX_CLIENTS && i != slot ==> #[trigger] final(self).window_of(i) == old(self).window_of(i),
    {
        let ghost old_clients = self.clients@;
        self.clients.set(slot, None);
        proof {
            assert forall|i: int| 0 <= i < MAX_CLIENTS implies #[trigger] self.clients@[i] matches Some(c) ==> (
            c.shared_buffer matches Some(b) ==> (self.window_of(i) matches Some(p) && b.vaddr == window_vaddr(p))) by {
                if i != slot {
                    assert(self.clients@[i] == old_clients[i]);
                }
            }
        }
        self.release_window(slot);
    }
}

/// A step of opening a client's connection, in order, after a free client
/// slot has been found (`conn_open_slot`).
#[derive(Clone, Copy, Debug, PartialEq, Eq, Structural)]
pub enum ConnOpenStep {
    /// Register the connection with the root server.
    Register,
    /// Check the shared buffer's size (`shared_buffer_check`).
    CheckBuffer,
    /// Reserve a page of the shared-buffer row (`reserve_window`).
    ReserveWindow,
    /// Create the window at that page with the root server.
    CreateWindow,
    /// View the client's buffer object in the window.
    ViewBuffer,
}

/// What undoes a step of opening a connection already taken.
#[derive(Clone, Copy, Debug, PartialEq, Eq, Structural)]
pub enum ConnOpenUndo {
    /// Destroy the window created with the root server.
    DestroyWindow,
    /// Give back the page of the row (`release_window`).
    ReleaseWindow,
    /// Deregister the connection from the root server.
    Deregister,
}

/// The steps of opening a connection: with a shared buffer all five,
/// without one only the registration.
pub open spec fn conn_open_steps(shares_buffer: bool) -> Seq<ConnOpenStep> {
    if shares_buffer {
        seq![
            ConnOpenStep::Register,
            ConnOpenStep::CheckBuffer,
            ConnOpenStep::ReserveWindow,
            ConnOpenStep::CreateWindow,
            ConnOpenStep::ViewBuffer,
        ]
    } else {
        seq![ConnOpenStep::Register]
    }
}

/// What undoes the steps taken before step `failed` (by its number) of
/// opening a connection failed, latest first. Once every step is done, the
/// client is recorded (`add_client`).
pub open spec fn conn_open_undo_for(failed: int) -> Seq<ConnOpenUndo> {
    if failed <= 0 {
        Seq::empty()
    } else if failed <= 2 {
        seq![ConnOpenUndo::Deregister]
    } else if failed == 3 {
        seq![ConnOpenUndo::ReleaseWindow, ConnOpenUndo::Deregister]
    } else {
        seq![ConnOpenUndo::DestroyWindow, ConnOpenUndo::ReleaseWindow, ConnOpenUndo::Deregister]
    }
}

/// The steps of opening a connection (see `conn_open_steps`).
pub fn conn_open_plan(shares_buffer: bool) -> (r: Vec<ConnOpenStep>)
    ensures
        r@ == conn_open_steps(shares_buffer),
{
    let mut v: Vec<ConnOpenStep> = Vec::new();
    v.push(ConnOpenStep::Register);
    if shares_buffer {
        v.push(ConnOpenStep::CheckBuffer);
        v.push(ConnOpenStep::ReserveWindow);
        v.push(ConnOpenStep::CreateWindow);
        v.push(ConnOpenStep::ViewBuffer);
    }
    assert(v@ =~= conn_open_steps(shares_buffer));
    v
}

/// What undoes an opening whose step `failed` failed (see
/// `conn_open_undo_for`).
pub fn conn_open_undo(failed: usize) -> (r: Vec<ConnOpenUndo>)
    ensures
        r@ == conn_open_undo_for(failed as int),
{
    let mut v: Vec<ConnOpenUndo> = Vec::new();
    if failed >= 4 {
        v.push(ConnOpenUndo::DestroyWindow);
    }
    if failed >= 3 {
        v.push(ConnOpenUndo::ReleaseWindow);
    }
    if failed >= 1 {
        v.push(ConnOpenUndo::Deregister);
    }
    assert(v@ =~= conn_open_undo_for(failed as int));
    v
}

/// Checks the buffer a client offers to share: it must be one page (else
/// `AlignmentError` on the first argument).
pub fn shared_buffer_check(size: usize) -> (r: Result<(), InvocationError>)
    ensures
        r is Ok <==> size == SHARED_BUFFER_SIZE,
        r is Err ==> r == Err::<(), InvocationError>(InvocationError::AlignmentError { which_arg: 0 }),
{
    if size != SHARED_BUFFER_SIZE {
        Err(InvocationError::AlignmentError { which_arg: 0 })
    } else {
        Ok(())
    }
}

/// Where in its object the page of a fault at `fault_offset` into a window
/// lies, for a view of `size` bytes from `win_offset` in the window onto
/// the object from `obj_offset`.
pub fn fault_object_offset(fault_offset: usize, win_offset: usize, size: usize, obj_offset: usize) -> (r: usize)
    requires
        win_offset <= fault_offset <= win_offset + size,
        fault_offset - win_offset + obj_offset <= usize::MAX,
    ensures
        r == fault_offset - win_offset + obj_offset,
{
    fault_offset - win_offset + obj_offset
}

/// A client found by its identifier right after being added, to a table
/// holding no other client with that identifier, is found in its slot.
pub proof fn law_add_then_find_client(s: Seq<Option<ClientRecord>>, slot: int, c: ClientRecord)
    requires
        0 <= slot < s.len(),
        first_client(s, c.id) is None,
    ensures
        first_client(s.update(slot, Some(c)), c.id) == Some(slot),
{
    let t = s.update(slot, Some(c));
    assert forall|j: int| 0 <= j < slot implies !is_client(#[trigger] t[j], c.id) by {
        assert(t[j] == s[j]);
        lemma_first_client_none_inv(s, c.id, j);
    }
    lemma_first_client_step(t, c.id, slot);
}

proof fn lemma_first_client_none_inv(s: Seq<Option<ClientRecord>>, id: usize, j: int)
    requires
        first_client(s, id) is None,
        0 <= j < s.len(),
    ensures
        !is_client(s[j], id),
    decreases s.len(),
{
    if j > 0 {
        assert(s.drop_first()[j - 1] == s[j]);
        lemma_first_client_none_inv(s.drop_first(), id, j - 1);
    }
}

/// A deleted client is no longer found by its identifier, when no other
/// slot holds a client with that identifier.
pub proof fn law_delete_then_not_found(s: Seq<Option<ClientRecord>>, slot: int, id: usize)
    requires
        0 <= slot < s.len(),
        forall|j: int| 0 <= j < s.len() && j != slot ==> !is_client(#[trigger] s[j], id),
    ensures
        first_client(s.update(slot, None), id) is None,
{
    let t = s.update(slot, None);
    assert forall|j: int| 0 <= j < t.len() implies !is_client(#[trigger] t[j], id) by {
        if j != slot {
            assert(t[j] == s[j]);
        }
    }
    lemma_first_client_none(t, id);
}

/// What undoes step `s` of opening a connection once taken: the
/// registration is deregistered, the reserved page released, the window
/// destroyed. Checking the buffer and viewing it leave nothing to undo.
pub open spec fn undo_of_conn_step(s: ConnOpenStep) -> Option<ConnOpenUndo> {
    match s {
        ConnOpenStep::Register => Some(ConnOpenUndo::Deregister),
        ConnOpenStep::CheckBuffer => None,
        ConnOpenStep::ReserveWindow => Some(ConnOpenUndo::ReleaseWindow),
        ConnOpenStep::CreateWindow => Some(ConnOpenUndo::DestroyWindow),
        ConnOpenStep::ViewBuffer => None,
    }
}

/// Law: when step `failed` of opening a connection that shares a buffer
/// fails, what is undone is exactly what the steps taken before it did, each
/// once, the latest first.
pub proof fn law_conn_open_undo_matches_steps_taken(failed: int)
    requires
        0 <= failed < 5,
    ensures
        ({
            let steps = conn_open_steps(true);
            let undo = conn_open_undo_for(failed);
            &&& forall|k: int| 0 <= k < 5 && (#[trigger] undo_of_conn_step(steps[k])) is Some ==> (
                undo.contains(undo_of_conn_step(steps[k])->Some_0) <==> k < failed)
            &&& forall|x: int| 0 <= x < undo.len() ==> exists|k: int| 0 <= k < failed && #[trigger] undo_of_conn_step(steps[k])
                == Some(#[trigger] undo[x])
            &&& forall|a: int, b: int|
                0 <= a < b < failed && undo_of_conn_step(steps[a]) is Some && undo_of_conn_step(steps[b]) is Some
                    ==> exists|x: int, y: int|
                    0 <= y < x < undo.len() && #[trigger] undo[x] == undo_of_conn_step(steps[a])->Some_0 && #[trigger] undo[y]
                        == undo_of_conn_step(steps[b])->Some_0
            &&& undo.no_duplicates()
        }),
{
    let steps = conn_open_steps(true);
    let undo = conn_open_undo_for(failed);
    assert(steps[0] == ConnOpenStep::Register);
    assert(steps[1] == ConnOpenStep::CheckBuffer);
    assert(steps[2] == ConnOpenStep::ReserveWindow);
    assert(steps[3] == ConnOpenStep::CreateWindow);
    assert(steps[4] == ConnOpenStep::ViewBuffer);
    let d = ConnOpenUndo::Deregister;
    let r = ConnOpenUndo::ReleaseWindow;
    let w = ConnOpenUndo::DestroyWindow;
    if failed == 0 {
        assert(undo =~= Seq::<ConnOpenUndo>::empty());
    } else if failed <= 2 {
        assert(undo =~= seq![d]);
        assert(undo[0] == d);
        assert(undo_of_conn_step(steps[0]) == Some(undo[0]));
    } else if failed == 3 {
        assert(undo =~= seq![r, d]);
        assert(undo[0] == r && undo[1] == d);
        assert(undo_of_conn_step(steps[2]) == Some(undo[0]));
        assert(undo_of_conn_step(steps[0]) == Some(undo[1]));
    } else {
        assert(undo =~= seq![w, r, d]);
        assert(undo[0] == w && undo[1] == r && undo[2] == d);
        assert(undo_of_conn_step(steps[3]) == Some(undo[0]));
        assert(undo_of_conn_step(steps[2]) == Some(undo[1]));
        assert(undo_of_conn_step(steps[0]) == Some(undo[2]));
    }
    assert forall|k: int| 0 <= k < 5 && (#[trigger] undo_of_conn_step(steps[k])) is Some implies (undo.contains(
        undo_of_conn_step(steps[k])->Some_0,
    ) <==> k < failed) by {
        let u = undo_of_conn_step(steps[k])->Some_0;
        if undo.contains(u) {
            let i = choose|i: int| 0 <= i < undo.len() && undo[i] == u;
            assert(undo[i] == u);
        }
    }
}

} // verus!
