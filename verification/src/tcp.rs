//! Decisions on what the calls into the TCP stack return: which of them failed,
//! and what a connection needs next.

use vstd::prelude::*;
use crate::text::dotted_quad_text;

verus! {

/// A call into the TCP stack that failed.
#[derive(Clone, Copy, Debug, PartialEq, Eq, Structural)]
pub enum TcpError {
    Init,
    ConnectTo,
    /// With the number that the call returned.
    ListenOn(i32),
    SockInfoGet,
    EventCtrl,
}

impl TcpError {
    /// What the error says.
    pub open spec fn text(self) -> Seq<char> {
        match self {
            TcpError::Init => "tpa_init failed"@,
            TcpError::ConnectTo => "tpa_connect_to failed"@,
            TcpError::ListenOn(_) => "tpa_listen_on failed"@,
            TcpError::SockInfoGet => "tpa_sock_info_get failed"@,
            TcpError::EventCtrl => "tpa_event_ctrl failed"@,
        }
    }

    /// What the error says.
    pub fn message(&self) -> (text: &'static str)
        ensures
            text@ == self.text(),
    {
        match self {
            TcpError::Init => "tpa_init failed",
            TcpError::ConnectTo => "tpa_connect_to failed",
            TcpError::ListenOn(_) => "tpa_listen_on failed",
            TcpError::SockInfoGet => "tpa_sock_info_get failed",
            TcpError::EventCtrl => "tpa_event_ctrl failed",
        }
    }
}

/// Judges the start of the stack by what it returned.
pub fn tcp_init(ret: i32) -> (r: Result<(), TcpError>)
    ensures
        r == if ret == 0 {
            Ok::<(), TcpError>(())
        } else {
            Err(TcpError::Init)
        },
{
    if ret == 0 {
        Ok(())
    } else {
        Err(TcpError::Init)
    }
}

/// Judges an attempt to connect by what it returned: a socket, or a negative
/// number.
pub fn tcp_connect_to(ret: i32) -> (r: Result<i32, TcpError>)
    ensures
        r == if ret < 0 {
            Err::<i32, TcpError>(TcpError::ConnectTo)
        } else {
            Ok(ret)
        },
{
    if ret < 0 {
        Err(TcpError::ConnectTo)
    } else {
        Ok(ret)
    }
}

/// The local address to listen on; every address of the machine if none is
/// named.
pub fn listen_address(local_ip: &str) -> (r: Option<&str>)
    ensures
        match r {
            Some(ip) => local_ip@.len() > 0 && ip@ == local_ip@,
            None => local_ip@.len() == 0,
        },
{
    if local_ip.is_empty() {
        None
    } else {
        Some(local_ip)
    }
}

/// Judges an attempt to listen by what it returned.
pub fn tcp_listen_on(ret: i32) -> (r: Result<(), TcpError>)
    ensures
        r == if ret < 0 {
            Err::<(), TcpError>(TcpError::ListenOn(ret))
        } else {
            Ok(())
        },
{
    if ret < 0 {
        Err(TcpError::ListenOn(ret))
    } else {
        Ok(())
    }
}

/// Judges an inquiry about a socket by what it returned.
pub fn tcp_socket_info_get(ret: i32) -> (r: Result<(), TcpError>)
    ensures
        r == if ret == 0 {
            Ok::<(), TcpError>(())
        } else {
            Err(TcpError::SockInfoGet)
        },
{
    if ret == 0 {
        Ok(())
    } else {
        Err(TcpError::SockInfoGet)
    }
}

/// Judges a registration for events by what it returned.
pub fn tcp_event_register(ret: i32) -> (r: Result<(), TcpError>)
    ensures
        r == if ret == 0 {
            Ok::<(), TcpError>(())
        } else {
            Err(TcpError::EventCtrl)
        },
{
    if ret == 0 {
        Ok(())
    } else {
        Err(TcpError::EventCtrl)
    }
}

/// The octets of a 32-bit address, the most significant one first.
pub open spec fn octets_of(word: u32) -> Seq<u8> {
    seq![
        (word / 0x100_0000) as u8,
        (word / 0x1_0000 % 256) as u8,
        (word / 0x100 % 256) as u8,
        (word % 256) as u8,
    ]
}

/// The text of an address of the stack, which keeps an IPv4 address in the last
/// of four words.
pub fn tpa_ip_to_str(words: [u32; 4]) -> (text: String)
    ensures
        text@ == crate::text::dotted_quad(octets_of(words@[3])),
{
    let word: u32 = words[3];
    let octets: [u8; 4] = [
        (word / 0x100_0000) as u8,
        (word / 0x1_0000 % 256) as u8,
        (word / 0x100 % 256) as u8,
        (word % 256) as u8,
    ];
    assert(octets@ =~= octets_of(word));
    dotted_quad_text(octets)
}

/// The events of a socket to be told of.
#[derive(Clone, Copy, Debug, PartialEq, Eq, Structural)]
pub struct EventInterest {
    pub input: bool,
    pub output: bool,
    pub error: bool,
    pub hangup: bool,
}

/// How far an acceptance has come. Each state says what to do next.
#[derive(Clone, Copy, Debug, PartialEq, Eq, Structural)]
pub enum AcceptState {
    /// Run the worker, then ask for one incoming connection.
    Accepting,
    /// Register for events of the socket.
    Registering(i32, EventInterest),
    /// Ask about the socket.
    Inspecting(i32),
    /// Nothing; the socket is accepted.
    Accepted(i32),
    /// Nothing; a call failed.
    Failed(TcpError),
}

impl AcceptState {
    /// The next state, from what the call that the state asked for returned.
    pub open spec fn next(self, ret: i32, sid: i32) -> AcceptState {
        match self {
            AcceptState::Accepting => if ret == 1 {
                AcceptState::Registering(
                    sid,
                    EventInterest { input: true, output: false, error: false, hangup: false },
                )
            } else {
                AcceptState::Accepting
            },
            AcceptState::Registering(s, _) => if ret == 0 {
                AcceptState::Inspecting(s)
            } else {
                AcceptState::Failed(TcpError::EventCtrl)
            },
            AcceptState::Inspecting(s) => if ret == 0 {
                AcceptState::Accepted(s)
            } else {
                AcceptState::Failed(TcpError::SockInfoGet)
            },
            AcceptState::Accepted(_) => self,
            AcceptState::Failed(_) => self,
        }
    }

    /// The state after several calls; each returned a number, and a socket where
    /// there was an incoming connection.
    pub open spec fn after(replies: Seq<(i32, i32)>) -> AcceptState
        decreases replies.len(),
    {
        if replies.len() == 0 {
            AcceptState::Accepting
        } else {
            AcceptState::after(replies.drop_last()).next(replies.last().0, replies.last().1)
        }
    }
}

/// The next state of an acceptance, from what the call that the state asked for
/// returned; `sid` is the socket that came with an incoming connection.
pub fn tcp_accept(state: AcceptState, ret: i32, sid: i32) -> (next: AcceptState)
    ensures
        next == state.next(ret, sid),
{
    match state {
        AcceptState::Accepting => {
            if ret == 1 {
                AcceptState::Registering(
                    sid,
                    EventInterest { input: true, output: false, error: false, hangup: false },
                )
            } else {
                AcceptState::Accepting
            }
        },
        AcceptState::Registering(s, _) => match tcp_event_register(ret) {
            Ok(()) => AcceptState::Inspecting(s),
            Err(e) => AcceptState::Failed(e),
        },
        AcceptState::Inspecting(s) => match tcp_socket_info_get(ret) {
            Ok(()) => AcceptState::Accepted(s),
            Err(e) => AcceptState::Failed(e),
        },
        AcceptState::Accepted(s) => AcceptState::Accepted(s),
        AcceptState::Failed(e) => AcceptState::Failed(e),
    }
}

/// How far a connection has come. Each state says what to do next.
#[derive(Clone, Copy, Debug, PartialEq, Eq, Structural)]
pub enum ConnectState {
    /// Ask for a connection.
    Connecting,
    /// Register for events of the socket.
    Registering(i32, EventInterest),
    /// Run the worker, then poll for one event.
    Polling(i32),
    /// Nothing; the socket is connected.
    Connected(i32),
    /// Nothing; a call failed.
    Failed(TcpError),
}

impl ConnectState {
    /// The next state, from what the call that the state asked for returned.
    pub open spec fn next(self, ret: i32) -> ConnectState {
        match self {
            ConnectState::Connecting => if ret < 0 {
                ConnectState::Failed(TcpError::ConnectTo)
            } else {
                ConnectState::Registering(
                    ret,
                    EventInterest { input: true, output: true, error: true, hangup: true },
                )
            },
            ConnectState::Registering(s, _) => if ret == 0 {
                ConnectState::Polling(s)
            } else {
                ConnectState::Failed(TcpError::EventCtrl)
            },
            ConnectState::Polling(s) => if ret == 0 {
                ConnectState::Polling(s)
            } else {
                ConnectState::Connected(s)
            },
            ConnectState::Connected(_) => self,
            ConnectState::Failed(_) => self,
        }
    }

    /// The state after several calls, each of which returned a number.
    pub open spec fn after(replies: Seq<i32>) -> ConnectState
        decreases replies.len(),
    {
        if replies.len() == 0 {
            ConnectState::Connecting
        } else {
            ConnectState::after(replies.drop_last()).next(replies.last())
        }
    }
}

/// The next state of a connection, from what the call that the state asked for
/// returned.
pub fn tcp_connect(state: ConnectState, ret: i32) -> (next: ConnectState)
    ensures
        next == state.next(ret),
{
    match state {
        ConnectState::Connecting => match tcp_connect_to(ret) {
            Ok(s) => ConnectState::Registering(
                s,
                EventInterest { input: true, output: true, error: true, hangup: true },
            ),
            Err(e) => ConnectState::Failed(e),
        },
        ConnectState::Registering(s, _) => match tcp_event_register(ret) {
            Ok(()) => ConnectState::Polling(s),
            Err(e) => ConnectState::Failed(e),
        },
        ConnectState::Polling(s) => {
            if ret == 0 {
                ConnectState::Polling(s)
            } else {
                ConnectState::Connected(s)
            }
        },
        ConnectState::Connected(s) => ConnectState::Connected(s),
        ConnectState::Failed(e) => ConnectState::Failed(e),
    }
}

/// The number of the first reply that brought an incoming connection, or the
/// number of replies if none did.
pub open spec fn first_incoming(replies: Seq<(i32, i32)>) -> int
    decreases replies.len(),
{
    if replies.len() == 0 {
        0
    } else {
        let i = first_incoming(replies.drop_last());
        if i == replies.len() - 1 && replies.last().0 != 1 {
            replies.len() as int
        } else {
            i
        }
    }
}

/// An acceptance waits for the first incoming connection, and takes the socket
/// that came with it. It is accepted exactly if the two calls after that, for its
/// events and about the socket, both returned zero, and failed exactly if one of
/// them did not, with the error of that call.
pub proof fn an_accepted_socket_came_in(replies: Seq<(i32, i32)>)
    ensures
        ({
            let i = first_incoming(replies);
            &&& 0 <= i <= replies.len()
            &&& forall|j: int| 0 <= j < i ==> (#[trigger] replies[j]).0 != 1
            &&& i < replies.len() ==> replies[i].0 == 1
            &&& AcceptState::after(replies) == if i == replies.len() {
                AcceptState::Accepting
            } else if replies.len() == i + 1 {
                AcceptState::Registering(
                    replies[i].1,
                    EventInterest { input: true, output: false, error: false, hangup: false },
                )
            } else if replies[i + 1].0 != 0 {
                AcceptState::Failed(TcpError::EventCtrl)
            } else if replies.len() == i + 2 {
                AcceptState::Inspecting(replies[i].1)
            } else if replies[i + 2].0 != 0 {
                AcceptState::Failed(TcpError::SockInfoGet)
            } else {
                AcceptState::Accepted(replies[i].1)
            }
        }),
    decreases replies.len(),
{
    if replies.len() > 0 {
        let init = replies.drop_last();
        an_accepted_socket_came_in(init);
        assert(forall|j: int| 0 <= j < init.len() ==> init[j] == #[trigger] replies[j]);
        assert(replies[replies.len() - 1] == replies.last());
    }
}

/// Whether an event came after a connection was asked for and registered.
pub open spec fn an_event_came(replies: Seq<i32>) -> bool {
    exists|i: int| 2 <= i < replies.len() && #[trigger] replies[i] != 0
}

/// The socket of a connection is the one that asking for it returned. It is
/// connected exactly if it was registered for events and an event came, and failed
/// exactly if one of the first two calls did, with the error of that call.
pub proof fn a_connected_socket_was_asked_for(replies: Seq<i32>)
    ensures
        ConnectState::after(replies) == if replies.len() == 0 {
            ConnectState::Connecting
        } else if replies[0] < 0 {
            ConnectState::Failed(TcpError::ConnectTo)
        } else if replies.len() == 1 {
            ConnectState::Registering(
                replies[0],
                EventInterest { input: true, output: true, error: true, hangup: true },
            )
        } else if replies[1] != 0 {
            ConnectState::Failed(TcpError::EventCtrl)
        } else if an_event_came(replies) {
            ConnectState::Connected(replies[0])
        } else {
            ConnectState::Polling(replies[0])
        },
    decreases replies.len(),
{
    if replies.len() > 0 {
        let init = replies.drop_last();
        a_connected_socket_was_asked_for(init);
        assert(forall|i: int| 0 <= i < init.len() ==> #[trigger] init[i] == replies[i]);
        let last = replies.len() - 1;
        assert(replies[last] == replies.last());
        if an_event_came(init) {
            let i = choose|i: int| 2 <= i < init.len() && #[trigger] init[i] != 0;
            assert(replies[i] != 0);
        }
        if an_event_came(replies) && !an_event_came(init) {
            let i = choose|i: int| 2 <= i < replies.len() && #[trigger] replies[i] != 0;
            assert(i < last ==> init[i] != 0);
        }
    }
}

/// Which calls succeed: those that start the stack, ask about a socket or register
/// it, if they return zero; those that connect or listen, if they return no negative
/// number. A connection is then the number itself.
pub proof fn which_calls_succeed(
    ret: i32,
    init: Result<(), TcpError>,
    connect: Result<i32, TcpError>,
    listen: Result<(), TcpError>,
    info: Result<(), TcpError>,
    event: Result<(), TcpError>,
)
    requires
        call_ensures(tcp_init, (ret,), init),
        call_ensures(tcp_connect_to, (ret,), connect),
        call_ensures(tcp_listen_on, (ret,), listen),
        call_ensures(tcp_socket_info_get, (ret,), info),
        call_ensures(tcp_event_register, (ret,), event),
    ensures
        init is Ok <==> ret == 0,
        info is Ok <==> ret == 0,
        event is Ok <==> ret == 0,
        connect is Ok <==> ret >= 0,
        listen is Ok <==> ret >= 0,
        connect is Ok ==> connect->Ok_0 == ret,
        init is Err ==> init->Err_0 == TcpError::Init,
        connect is Err ==> connect->Err_0 == TcpError::ConnectTo,
        listen is Err ==> listen->Err_0 == TcpError::ListenOn(ret),
        info is Err ==> info->Err_0 == TcpError::SockInfoGet,
        event is Err ==> event->Err_0 == TcpError::EventCtrl,
{
}

/// The text of an address of the stack is read as the octets of its last word, the
/// most significant one first.
pub proof fn an_address_of_the_stack_is_its_last_word(
    words: [u32; 4],
    text: String,
    s: &str,
    r: Option<[u8; 4]>,
)
    requires
        call_ensures(tpa_ip_to_str, (words,), text),
        s@ == text@,
        call_ensures(crate::text::parse_ipv4, (s,), r),
    ensures
        r matches Some(q) && q@[0] * 0x100_0000 + q@[1] * 0x1_0000 + q@[2] * 0x100 + q@[3]
            == words@[3],
{
    let octets = octets_of(words@[3]);
    assert(octets.len() == 4);
    assert(s@ == crate::text::dotted_quad(octets));
    assert(r is Some);
    crate::text::dotted_quad_is_injective(r->0@, octets);
}

/// The local address is handed on unless it is empty.
pub proof fn an_empty_address_is_none(local_ip: &str, r: Option<&str>)
    requires
        call_ensures(listen_address, (local_ip,), r),
    ensures
        r is None <==> local_ip@ == Seq::<char>::empty(),
        r is Some ==> r->0@ == local_ip@,
{
    if local_ip@.len() == 0 {
        assert(local_ip@ =~= Seq::<char>::empty());
    }
}

/// How an acceptance goes, call by call: an incoming connection is registered for
/// input, then asked about, and then accepted under the socket that came with it.
pub proof fn an_acceptance_goes_call_by_call(
    idle: i32,
    sid: i32,
    other: i32,
    waiting: AcceptState,
    came: AcceptState,
    registered: AcceptState,
    accepted: AcceptState,
)
    requires
        idle != 1,
        call_ensures(tcp_accept, (AcceptState::Accepting, idle, other), waiting),
        call_ensures(tcp_accept, (waiting, 1i32, sid), came),
        call_ensures(tcp_accept, (came, 0i32, other), registered),
        call_ensures(tcp_accept, (registered, 0i32, other), accepted),
    ensures
        waiting == AcceptState::Accepting,
        came matches AcceptState::Registering(s, interest) && s == sid && interest.input
            && !interest.output && !interest.error && !interest.hangup,
        registered == AcceptState::Inspecting(sid),
        accepted == AcceptState::Accepted(sid),
{
}

/// How a connection goes, call by call: the socket that was asked for is registered
/// for every event, then polled while nothing comes, and then connected.
pub proof fn a_connection_goes_call_by_call(
    sid: i32,
    event: i32,
    asked: ConnectState,
    registered: ConnectState,
    waiting: ConnectState,
    connected: ConnectState,
)
    requires
        sid >= 0,
        event != 0,
        call_ensures(tcp_connect, (ConnectState::Connecting, sid), asked),
        call_ensures(tcp_connect, (asked, 0i32), registered),
        call_ensures(tcp_connect, (registered, 0i32), waiting),
        call_ensures(tcp_connect, (waiting, event), connected),
    ensures
        asked matches ConnectState::Registering(s, interest) && s == sid && interest.input
            && interest.output && interest.error && interest.hangup,
        registered == ConnectState::Polling(sid),
        waiting == ConnectState::Polling(sid),
        connected == ConnectState::Connected(sid),
{
}

} // verus!
