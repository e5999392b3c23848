//! Servers and the connections of clients to them. A process publishes a
//! server under a name; other processes connect by that name, and the
//! server registers the connections it accepts, by the client's process
//! identifier. Endpoints and notifications are capabilities the caller
//! creates; they are known here by their slots.

use vstd::prelude::*;
use crate::error::InvocationError;
use crate::proc::{UserProcess, WindowSpan, first_overlapping};
use crate::util::INVOCATION_EP_BITS;

verus! {

/// A client's connection to a server.
#[derive(Clone, Copy, Debug, PartialEq, Eq, Structural)]
pub struct ConnectionInfo {
    /// The client's process identifier.
    pub id: usize,
    /// The endpoint the client calls the server on, badged for the client.
    pub badged_ep: u64,
    /// Whether the server has registered the connection.
    pub registered: bool,
}

/// A published server.
pub struct ServerInfo {
    pub name: Vec<u8>,
    pub pid: usize,
    pub unbadged_ep: u64,
    pub connections: Vec<ConnectionInfo>,
}

/// A published server as the registry's contracts see it.
pub struct ServerView {
    pub name: Seq<u8>,
    pub pid: usize,
    pub unbadged_ep: u64,
    pub connections: Seq<ConnectionInfo>,
}

/// The index of the server named `name`, if one is published.
pub open spec fn server_named(s: Seq<ServerView>, name: Seq<u8>) -> Option<int>
    decreases s.len(),
{
    if s.len() == 0 {
        None
    } else if s.last().name == name {
        Some(s.len() - 1)
    } else {
        server_named(s.drop_last(), name)
    }
}

/// The index of the first connection of client `id`, if any.
pub open spec fn first_connection(c: Seq<ConnectionInfo>, id: usize) -> Option<int>
    decreases c.len(),
{
    if c.len() == 0 {
        None
    } else if c[0].id == id {
        Some(0)
    } else {
        match first_connection(c.drop_first(), id) {
            Some(i) => Some(i + 1),
            None => None,
        }
    }
}

/// The badge of the endpoint a client calls a server on: the client's
/// process identifier marked as an invocation.
pub fn connection_badge(client: usize) -> (r: u64)
    ensures
        r == (client as u64) | INVOCATION_EP_BITS,
{
    client as u64 | INVOCATION_EP_BITS
}

/// The published servers.
pub struct ServerRegistry {
    servers: Vec<ServerInfo>,
}

impl View for ServerRegistry {
    type V = Seq<ServerView>;

    closed spec fn view(&self) -> Seq<ServerView> {
        self.servers@.map_values(
            |s: ServerInfo| ServerView { name: s.name@, pid: s.pid, unbadged_ep: s.unbadged_ep, connections: s.connections@ },
        )
    }
}

/// Whether `a` and `b` hold the same bytes.
pub(crate) fn bytes_eq(a: &[u8], b: &[u8]) -> (r: bool)
    ensures
        r == (a@ == b@),
{
    if a.len() != b.len() {
        return false;
    }
    let mut i: usize = 0;
    while i < a.len()
        invariant
            a@.len() == b@.len(),
            i <= a@.len(),
            forall|j: int| 0 <= j < i ==> a@[j] == b@[j],
        decreases a@.len() - i,
    {
        if a[i] != b[i] {
            return false;
        }
        i += 1;
    }
    assert(a@ =~= b@);
    true
}

proof fn lemma_server_named_some(s: Seq<ServerView>, name: Seq<u8>)
    ensures
        server_named(s, name) matches Some(i) ==> 0 <= i < s.len() && s[i].name == name,
        server_named(s, name) is None ==> forall|i: int| 0 <= i < s.len() ==> (#[trigger] s[i]).name != name,
    decreases s.len(),
{
    if s.len() > 0 {
        lemma_server_named_some(s.drop_last(), name);
        assert forall|i: int| 0 <= i < s.len() - 1 implies s.drop_last()[i] == #[trigger] s[i] by {}
    }
}

proof fn lemma_first_connection(c: Seq<ConnectionInfo>, id: usize)
    ensures
        first_connection(c, id) matches Some(i) ==> 0 <= i < c.len() && c[i].id == id && forall|j: int|
            0 <= j < i ==> (#[trigger] c[j]).id != id,
        first_connection(c, id) is None ==> forall|j: int| 0 <= j < c.len() ==> (#[trigger] c[j]).id != id,
    decreases c.len(),
{
    if c.len() > 0 {
        lemma_first_connection(c.drop_first(), id);
        assert forall|j: int| 1 <= j < c.len() implies c.drop_first()[j - 1] == #[trigger] c[j] by {}
    }
}

proof fn lemma_first_connection_intro(c: Seq<ConnectionInfo>, id: usize, i: int)
    requires
        0 <= i < c.len(),
        c[i].id == id,
        forall|j: int| 0 <= j < i ==> (#[trigger] c[j]).id != id,
    ensures
        first_connection(c, id) == Some(i),
    decreases c.len(),
{
    if i > 0 {
        assert forall|j: int| 0 <= j < i - 1 implies (#[trigger] c.drop_first()[j]).id != id by {
            assert(c.drop_first()[j] == c[j + 1]);
        }
        lemma_first_connection_intro(c.drop_first(), id, i - 1);
    }
}

impl ServerRegistry {
    /// No two published servers share a name.
    pub closed spec fn wf(&self) -> bool {
        forall|i: int, j: int|
            0 <= i < j < self@.len() ==> (#[trigger] self@[i]).name != (#[trigger] self@[j]).name
    }

    /// A registry with no server published.
    pub fn new() -> (r: Self)
        ensures
            r.wf(),
            r@ == Seq::<ServerView>::empty(),
    {
        let r = ServerRegistry { servers: Vec::new() };
        assert(r@ =~= Seq::<ServerView>::empty());
        r
    }

    /// The server published under `name`, if any.
    pub fn find_server(&self, name: &[u8]) -> (r: Option<usize>)
        ensures
            r matches Some(i) ==> server_named(self@, name@) == Some(i as int),
            r is None ==> server_named(self@, name@) is None,
    {
        let mut i: usize = self.servers.len();
        proof {
            assert(self@.subrange(0, self@.len() as int) =~= self@);
        }
        while i > 0
            invariant
                i <= self@.len(),
                self@.len() == self.servers@.len(),
                server_named(self@, name@) == server_named(self@.subrange(0, i as int), name@),
            decreases i,
        {
            let k = i - 1;
            proof {
                let t = self@.subrange(0, i as int);
                assert(t.drop_last() =~= self@.subrange(0, k as int));
                assert(t.last() == self@[k as int]);
                assert(self@[k as int].name == self.servers@[k as int].name@);
            }
            if bytes_eq(self.servers[k].name.as_slice(), name) {
                return Some(k);
            }
            i = k;
        }
        None
    }

    /// Checks a request of process `p` to publish a server named `name`
    /// with its notification buffer at `ntfn_buffer`, in an address space
    /// whose user part ends at `user_top`: the name must be free (else
    /// `InvalidArguments`), the buffer page aligned (else `AlignmentError`
    /// on the first argument), below `user_top` and clear of every created
    /// window of `p` (else `InvalidArguments`).
    pub fn publish_check(&self, p: &UserProcess, name: &[u8], ntfn_buffer: usize, user_top: usize) -> (r: Result<(), InvocationError>)
        requires
            p.wf(),
            ntfn_buffer % 4096 == 0 && ntfn_buffer < user_top ==> ntfn_buffer + 4096 <= usize::MAX,
        ensures
            r == self.publish_check_result(*p, name@, ntfn_buffer, user_top),
    {
        if self.find_server(name).is_some() {
            return Err(InvocationError::InvalidArguments);
        }
        if ntfn_buffer % 4096 != 0 {
            return Err(InvocationError::AlignmentError { which_arg: 0 });
        }
        if ntfn_buffer >= user_top {
            return Err(InvocationError::InvalidArguments);
        }
        if p.overlapping_window(ntfn_buffer, 4096).is_some() {
            return Err(InvocationError::InvalidArguments);
        }
        Ok(())
    }

    /// Publishes a server of process `pid` under `name`, listening on
    /// `unbadged_ep`; returns its index.
    pub fn publish(&mut self, name: Vec<u8>, pid: usize, unbadged_ep: u64) -> (r: usize)
        requires
            old(self).wf(),
            server_named(old(self)@, name@) is None,
        ensures
            final(self).wf(),
            r == old(self)@.len(),
            final(self)@ == old(self)@.push(
                ServerView { name: name@, pid: pid, unbadged_ep: unbadged_ep, connections: Seq::empty() },
            ),
    {
        let ghost v0 = self@;
        let ghost n = name@;
        proof {
            lemma_server_named_some(v0, n);
        }
        let r = self.servers.len();
        self.servers.push(ServerInfo { name: name, pid: pid, unbadged_ep: unbadged_ep, connections: Vec::new() });
        proof {
            let sv = ServerView { name: n, pid: pid, unbadged_ep: unbadged_ep, connections: Seq::empty() };
            assert(self.servers@.last().connections@ =~= Seq::<ConnectionInfo>::empty());
            assert(self@ =~= v0.push(sv));
        }
        r
    }

    /// Publishes a server of process `p` under `name`, listening on
    /// `unbadged_ep`, with its notification buffer at `ntfn_buffer` in a new
    /// one-page window `window_id` of `p`, when `publish_check` passes;
    /// otherwise fails with its error and changes nothing. Returns the
    /// server's index.
    pub fn publish_server(
        &mut self,
        p: &mut UserProcess,
        name: Vec<u8>,
        ntfn_buffer: usize,
        user_top: usize,
        unbadged_ep: u64,
        window_id: usize,
    ) -> (r: Result<usize, InvocationError>)
        requires
            old(self).wf(),
            old(p).wf(),
            ntfn_buffer % 4096 == 0 && ntfn_buffer < user_top ==> ntfn_buffer + 4096 <= usize::MAX,
        ensures
            final(self).wf(),
            final(p).wf(),
            r is Err ==> r == Err::<usize, InvocationError>(match old(self).publish_check_result(
                *old(p),
                name@,
                ntfn_buffer,
                user_top,
            ) {
                Err(e) => e,
                Ok(_) => InvocationError::InvalidArguments,
            }) && final(self)@ == old(self)@ && *final(p) == *old(p),
            (r is Ok) == (old(self).publish_check_result(*old(p), name@, ntfn_buffer, user_top) is Ok),
            r is Ok ==> {
                &&& r == Ok::<usize, InvocationError>(old(self)@.len() as usize)
                &&& final(self)@ == old(self)@.push(
                    ServerView { name: name@, pid: old(p).spec_pid(), unbadged_ep: unbadged_ep, connections: Seq::empty() },
                )
                &&& final(p).spec_windows() == old(p).spec_windows().push(
                    WindowSpan { id: window_id, start: ntfn_buffer, size: 4096 },
                )
                &&& final(p).spec_initial_windows() == old(p).spec_initial_windows()
                &&& final(p).spec_pid() == old(p).spec_pid()
            },
    {
        match self.publish_check(p, name.as_slice(), ntfn_buffer, user_top) {
            Err(e) => Err(e),
            Ok(()) => {
                let pid = p.pid();
                let i = self.publish(name, pid, unbadged_ep);
                p.add_window_unchecked(WindowSpan { id: window_id, start: ntfn_buffer, size: 4096 });
                Ok(i)
            },
        }
    }

    /// What `publish_check` answers.
    pub open spec fn publish_check_result(&self, p: UserProcess, name: Seq<u8>, ntfn_buffer: usize, user_top: usize) -> Result<(), InvocationError> {
        if server_named(self@, name) is Some {
            Err(InvocationError::InvalidArguments)
        } else if ntfn_buffer % 4096 != 0 {
            Err(InvocationError::AlignmentError { which_arg: 0 })
        } else if ntfn_buffer >= user_top {
            Err(InvocationError::InvalidArguments)
        } else if first_overlapping(p.spec_windows(), ntfn_buffer as int, 4096) is Some {
            Err(InvocationError::InvalidArguments)
        } else {
            Ok(())
        }
    }

    /// Checks a request of process `client` to connect to the server named
    /// `name`: there must be one (else `InvalidArguments`), and a process
    /// cannot connect to its own server (`InvalidArguments`). Returns the
    /// server's index.
    pub fn conn_create_check(&self, name: &[u8], client: usize) -> (r: Result<usize, InvocationError>)
        ensures
            r == (match server_named(self@, name@) {
                None => Err(InvocationError::InvalidArguments),
                Some(i) => if self@[i].pid == client {
                    Err(InvocationError::InvalidArguments)
                } else {
                    Ok(i as usize)
                },
            }),
    {
        match self.find_server(name) {
            None => Err(InvocationError::InvalidArguments),
            Some(i) => {
                proof {
                    lemma_server_named_some(self@, name@);
                    assert(self@[i as int].pid == self.servers@[i as int].pid);
                }
                if self.servers[i].pid == client {
                    Err(InvocationError::InvalidArguments)
                } else {
                    Ok(i)
                }
            },
        }
    }

    /// Adds a connection of client `client`, calling on `badged_ep`, to
    /// server `server`, not yet registered; returns its index.
    pub fn add_connection(&mut self, server: usize, client: usize, badged_ep: u64) -> (r: usize)
        requires
            old(self).wf(),
            server < old(self)@.len(),
        ensures
            final(self).wf(),
            final(self)@ == old(self)@.update(
                server as int,
                ServerView {
                    connections: old(self)@[server as int].connections.push(
                        ConnectionInfo { id: client, badged_ep: badged_ep, registered: false },
                    ),
                    ..old(self)@[server as int]
                },
            ),
            r == old(self)@[server as int].connections.len(),
    {
        let ghost v0 = self@;
        let c = ConnectionInfo { id: client, badged_ep: badged_ep, registered: false };
        let mut s = self.servers.remove(server);
        let r = s.connections.len();
        s.connections.push(c);
        self.servers.insert(server, s);
        proof {
            let want = v0.update(
                server as int,
                ServerView { connections: v0[server as int].connections.push(c), ..v0[server as int] },
            );
            assert(self@ =~= want) by {
                assert forall|i: int| 0 <= i < want.len() implies #[trigger] self@[i] == want[i] by {
                    if i == server {
                        assert(self@[i].connections =~= want[i].connections);
                    }
                }
            }
            assert forall|i: int, j: int| 0 <= i < j < self@.len() implies (#[trigger] self@[i]).name
                != (#[trigger] self@[j]).name by {
                assert(self@[i].name == v0[i].name);
                assert(self@[j].name == v0[j].name);
                assert(v0[i].name != v0[j].name);
            }
        }
        r
    }

    /// Server `server` registers the connection of client `client_id`: the
    /// first connection of that client is marked registered and its index
    /// returned. Fails with `InvalidArguments` when the client has none.
    pub fn conn_register(&mut self, server: usize, client_id: usize) -> (r: Result<usize, InvocationError>)
        requires
            old(self).wf(),
            server < old(self)@.len(),
        ensures
            final(self).wf(),
            r == (match first_connection(old(self)@[server as int].connections, client_id) {
                Some(i) => Ok::<usize, InvocationError>(i as usize),
                None => Err(InvocationError::InvalidArguments),
            }),
            r is Err ==> final(self)@ == old(self)@,
            r matches Ok(i) ==> final(self)@ == set_registered(old(self)@, server as int, i as int, true),
    {
        let ghost v0 = self@;
        proof {
            lemma_first_connection(v0[server as int].connections, client_id);
        }
        let n = self.servers[server].connections.len();
        let mut i: usize = 0;
        while i < n
            invariant
                n == self.servers@[server as int].connections@.len(),
                server < self.servers@.len(),
                self@ == v0,
                v0 == old(self)@,
                self.wf(),
                i <= n,
                forall|j: int| 0 <= j < i ==> (#[trigger] v0[server as int].connections[j]).id != client_id,
            decreases n - i,
        {
            proof {
                assert(v0[server as int].connections == self.servers@[server as int].connections@);
            }
            if self.servers[server].connections[i].id == client_id {
                proof {
                    lemma_first_connection_intro(v0[server as int].connections, client_id, i as int);
                }
                self.set_conn_registered(server, i, true);
                return Ok(i);
            }
            i += 1;
        }
        Err(InvocationError::InvalidArguments)
    }

    /// Connection `conn` of server `server` is deregistered.
    pub fn conn_deregister(&mut self, server: usize, conn: usize)
        requires
            old(self).wf(),
            server < old(self)@.len(),
            conn < old(self)@[server as int].connections.len(),
        ensures
            final(self).wf(),
            final(self)@ == set_registered(old(self)@, server as int, conn as int, false),
    {
        self.set_conn_registered(server, conn, false);
    }

    /// The endpoint server `server` listens on.
    pub fn server_endpoint(&self, server: usize) -> (r: u64)
        requires
            server < self@.len(),
        ensures
            r == self@[server as int].unbadged_ep,
    {
        self.servers[server].unbadged_ep
    }

    /// Whether destroying connection `conn` of server `server` notifies the
    /// server: it does when the server registered the connection.
    pub fn conn_destroy_notifies(&self, server: usize, conn: usize) -> (r: bool)
        requires
            server < self@.len(),
            conn < self@[server as int].connections.len(),
        ensures
            r == self@[server as int].connections[conn as int].registered,
    {
        self.servers[server].connections[conn].registered
    }

    /// The endpoint the client of connection `conn` of server `server` calls on.
    pub fn conn_badged_ep(&self, server: usize, conn: usize) -> (r: u64)
        requires
            server < self@.len(),
            conn < self@[server as int].connections.len(),
        ensures
            r == self@[server as int].connections[conn as int].badged_ep,
    {
        self.servers[server].connections[conn].badged_ep
    }

    fn set_conn_registered(&mut self, server: usize, conn: usize, registered: bool)
        requires
            old(self).wf(),
            server < old(self)@.len(),
            conn < old(self)@[server as int].connections.len(),
        ensures
            final(self).wf(),
            final(self)@ == set_registered(old(self)@, server as int, conn as int, registered),
    {
        let ghost v0 = self@;
        let mut s = self.servers.remove(server);
        let mut c = s.connections[conn];
        c.registered = registered;
        s.connections.set(conn, c);
        self.servers.insert(server, s);
        proof {
            let want = set_registered(v0, server as int, conn as int, registered);
            assert(self@ =~= want) by {
                assert forall|i: int| 0 <= i < want.len() implies #[trigger] self@[i] == want[i] by {
                    if i == server {
                        assert(self@[i].connections =~= want[i].connections);
                    }
                }
            }
            assert forall|i: int, j: int| 0 <= i < j < self@.len() implies (#[trigger] self@[i]).name
                != (#[trigger] self@[j]).name by {
                assert(self@[i].name == v0[i].name);
                assert(self@[j].name == v0[j].name);
                assert(v0[i].name != v0[j].name);
            }
        }
    }
}

/// The servers with connection `conn` of server `server` marked registered
/// or not.
pub open spec fn set_registered(s: Seq<ServerView>, server: int, conn: int, registered: bool) -> Seq<ServerView> {
    s.update(
        server,
        ServerView {
            connections: s[server].connections.update(
                conn,
                ConnectionInfo { registered: registered, ..s[server].connections[conn] },
            ),
            ..s[server]
        },
    )
}

/// Once a server is published under a name, looking that name up finds it.
pub proof fn law_publish_then_find(s: Seq<ServerView>, v: ServerView)
    requires
        server_named(s, v.name) is None,
    ensures
        server_named(s.push(v), v.name) == Some(s.len() as int),
{
    assert(s.push(v).drop_last() =~= s);
}

/// A connection just added for a client that had none is the one the
/// server registers by the client's identifier.
pub proof fn law_add_then_register(c: Seq<ConnectionInfo>, n: ConnectionInfo)
    requires
        first_connection(c, n.id) is None,
    ensures
        first_connection(c.push(n), n.id) == Some(c.len() as int),
{
    lemma_first_connection(c, n.id);
    let t = c.push(n);
    assert forall|j: int| 0 <= j < c.len() implies (#[trigger] t[j]).id != n.id by {
        assert(t[j] == c[j]);
    }
    lemma_first_connection_intro(t, n.id, c.len() as int);
}

/// Registering and then deregistering a connection leaves the servers as
/// they were, but for the connection being unregistered.
pub proof fn law_register_then_deregister(s: Seq<ServerView>, server: int, conn: int)
    requires
        0 <= server < s.len(),
        0 <= conn < s[server].connections.len(),
    ensures
        set_registered(set_registered(s, server, conn, true), server, conn, false) == set_registered(
            s,
            server,
            conn,
            false,
        ),
        !set_registered(s, server, conn, false)[server].connections[conn].registered,
{
    let a = set_registered(set_registered(s, server, conn, true), server, conn, false);
    let b = set_registered(s, server, conn, false);
    assert(a[server].connections =~= b[server].connections);
    assert(a =~= b);
}

/// A kernel step of publishing a server, in order, once `publish_check`
/// has passed. A failed step fails the request with `InsufficientResources`.
#[derive(Clone, Copy, Debug, PartialEq, Eq, Structural)]
pub enum PublishStep {
    /// Retype the endpoint the server listens on.
    RetypeEp,
    /// Retype the notification bound to the server's TCB.
    RetypeNtfn,
    /// Bind the notification to the TCB.
    BindNtfn,
    /// Register the root server's badged notification with the server's
    /// notification dispatcher.
    RegisterNtfn,
    /// Allocate the frame of the notification buffer.
    AllocFrame,
}

/// What undoes a publishing step already taken.
#[derive(Clone, Copy, Debug, PartialEq, Eq, Structural)]
pub enum PublishUndo {
    DeallocEp,
    DeallocNtfn,
    UnbindNtfn,
    /// Destroy the notification dispatcher and what it registered.
    DestroyDispatch,
}

/// What undoes the steps taken before step `failed` of publishing a
/// server failed, in order.
pub open spec fn publish_undo_for(failed: PublishStep) -> Seq<PublishUndo> {
    match failed {
        PublishStep::RetypeEp => Seq::empty(),
        PublishStep::RetypeNtfn => seq![PublishUndo::DeallocEp],
        PublishStep::BindNtfn => seq![PublishUndo::DeallocNtfn, PublishUndo::DeallocEp],
        PublishStep::RegisterNtfn => seq![PublishUndo::UnbindNtfn, PublishUndo::DeallocNtfn, PublishUndo::DeallocEp],
        PublishStep::AllocFrame => seq![
            PublishUndo::DestroyDispatch,
            PublishUndo::UnbindNtfn,
            PublishUndo::DeallocEp,
            PublishUndo::DeallocNtfn,
        ],
    }
}

/// The steps of publishing a server, in order.
pub fn publish_steps() -> (r: Vec<PublishStep>)
    ensures
        r@ == seq![
            PublishStep::RetypeEp,
            PublishStep::RetypeNtfn,
            PublishStep::BindNtfn,
            PublishStep::RegisterNtfn,
            PublishStep::AllocFrame,
        ],
{
    let mut v: Vec<PublishStep> = Vec::new();
    v.push(PublishStep::RetypeEp);
    v.push(PublishStep::RetypeNtfn);
    v.push(PublishStep::BindNtfn);
    v.push(PublishStep::RegisterNtfn);
    v.push(PublishStep::AllocFrame);
    assert(v@ =~= seq![
        PublishStep::RetypeEp,
        PublishStep::RetypeNtfn,
        PublishStep::BindNtfn,
        PublishStep::RegisterNtfn,
        PublishStep::AllocFrame,
    ]);
    v
}

/// What undoes a publishing whose step `failed` failed (see
/// `publish_undo_for`).
pub fn publish_undo(failed: PublishStep) -> (r: Vec<PublishUndo>)
    ensures
        r@ == publish_undo_for(failed),
{
    let mut v: Vec<PublishUndo> = Vec::new();
    match failed {
        PublishStep::RetypeEp => {},
        PublishStep::RetypeNtfn => {
            v.push(PublishUndo::DeallocEp);
        },
        PublishStep::BindNtfn => {
            v.push(PublishUndo::DeallocNtfn);
            v.push(PublishUndo::DeallocEp);
        },
        PublishStep::RegisterNtfn => {
            v.push(PublishUndo::UnbindNtfn);
            v.push(PublishUndo::DeallocNtfn);
            v.push(PublishUndo::DeallocEp);
        },
        PublishStep::AllocFrame => {
            v.push(PublishUndo::DestroyDispatch);
            v.push(PublishUndo::UnbindNtfn);
            v.push(PublishUndo::DeallocEp);
            v.push(PublishUndo::DeallocNtfn);
        },
    }
    assert(v@ =~= publish_undo_for(failed));
    v
}

/// What undoes step `s` of publishing a server once taken.
pub open spec fn undo_of_publish_step(s: PublishStep) -> PublishUndo {
    match s {
        PublishStep::RetypeEp => PublishUndo::DeallocEp,
        PublishStep::RetypeNtfn => PublishUndo::DeallocNtfn,
        PublishStep::BindNtfn => PublishUndo::UnbindNtfn,
        PublishStep::RegisterNtfn => PublishUndo::DestroyDispatch,
        PublishStep::AllocFrame => PublishUndo::DestroyDispatch,
    }
}

/// The number of a publishing step in the order `publish_steps` takes them.
pub open spec fn publish_step_number(s: PublishStep) -> int {
    match s {
        PublishStep::RetypeEp => 0,
        PublishStep::RetypeNtfn => 1,
        PublishStep::BindNtfn => 2,
        PublishStep::RegisterNtfn => 3,
        PublishStep::AllocFrame => 4,
    }
}

/// Law: when a step of publishing a server fails, what is undone is exactly
/// what the steps taken before it did, each once: every object retyped is
/// freed, a bound notification unbound, a registered dispatcher destroyed,
/// and nothing not yet made is touched. The dispatcher, made last, is
/// destroyed first.
pub proof fn law_publish_undo_matches_steps_taken(failed: PublishStep)
    ensures
        ({
            let undo = publish_undo_for(failed);
            &&& forall|s: PublishStep| #[trigger] publish_step_number(s) < 4 ==> (undo.contains(undo_of_publish_step(s))
                <==> publish_step_number(s) < publish_step_number(failed))
            &&& undo.len() == publish_step_number(failed)
            &&& undo.no_duplicates()
            &&& undo.contains(PublishUndo::DestroyDispatch) ==> undo[0] == PublishUndo::DestroyDispatch
        }),
{
    let undo = publish_undo_for(failed);
    let e = PublishUndo::DeallocEp;
    let n = PublishUndo::DeallocNtfn;
    let b = PublishUndo::UnbindNtfn;
    let dd = PublishUndo::DestroyDispatch;
    match failed {
        PublishStep::RetypeEp => {
            assert(undo =~= Seq::<PublishUndo>::empty());
        },
        PublishStep::RetypeNtfn => {
            assert(undo =~= seq![e]);
            assert(undo[0] == e);
        },
        PublishStep::BindNtfn => {
            assert(undo =~= seq![n, e]);
            assert(undo[0] == n && undo[1] == e);
        },
        PublishStep::RegisterNtfn => {
            assert(undo =~= seq![b, n, e]);
            assert(undo[0] == b && undo[1] == n && undo[2] == e);
        },
        PublishStep::AllocFrame => {
            assert(undo =~= seq![dd, b, e, n]);
            assert(undo[0] == dd && undo[1] == b && undo[2] == e && undo[3] == n);
        },
    }
    assert forall|s: PublishStep| #[trigger] publish_step_number(s) < 4 implies (undo.contains(undo_of_publish_step(s))
        <==> publish_step_number(s) < publish_step_number(failed)) by {
        let u = undo_of_publish_step(s);
        if undo.contains(u) {
            let i = choose|i: int| 0 <= i < undo.len() && undo[i] == u;
            assert(undo[i] == u);
        }
    }
}

} // verus!
