use bagua_net::tcp::{
    listen_address, tcp_accept, tcp_connect, tcp_connect_to, tcp_event_register, tcp_init,
    tcp_listen_on, tcp_socket_info_get, tpa_ip_to_str, AcceptState, ConnectState, EventInterest,
    TcpError,
};

#[test]
fn calls_are_judged_by_what_they_return() {
    assert_eq!(tcp_init(0), Ok(()));
    assert_eq!(tcp_init(1), Err(TcpError::Init));
    assert_eq!(tcp_init(-1), Err(TcpError::Init));
    assert_eq!(tcp_connect_to(0), Ok(0));
    assert_eq!(tcp_connect_to(12), Ok(12));
    assert_eq!(tcp_connect_to(-1), Err(TcpError::ConnectTo));
    assert_eq!(tcp_listen_on(0), Ok(()));
    assert_eq!(tcp_listen_on(3), Ok(()));
    assert_eq!(tcp_listen_on(-98), Err(TcpError::ListenOn(-98)));
    assert_eq!(tcp_socket_info_get(0), Ok(()));
    assert_eq!(tcp_socket_info_get(-1), Err(TcpError::SockInfoGet));
    assert_eq!(tcp_event_register(0), Ok(()));
    assert_eq!(tcp_event_register(-1), Err(TcpError::EventCtrl));
}

#[test]
fn errors_name_the_call_that_failed() {
    assert_eq!(TcpError::Init.message(), "tpa_init failed");
    assert_eq!(TcpError::ConnectTo.message(), "tpa_connect_to failed");
    assert_eq!(TcpError::ListenOn(-1).message(), "tpa_listen_on failed");
    assert_eq!(TcpError::SockInfoGet.message(), "tpa_sock_info_get failed");
    assert_eq!(TcpError::EventCtrl.message(), "tpa_event_ctrl failed");
}

#[test]
fn no_local_address_means_every_address() {
    assert_eq!(listen_address(""), None);
    assert_eq!(listen_address("10.0.0.1"), Some("10.0.0.1"));
}

#[test]
fn an_address_of_the_stack_is_in_its_last_word() {
    assert_eq!(tpa_ip_to_str([1, 2, 3, 0x0a28_0168]), "10.40.1.104");
    assert_eq!(tpa_ip_to_str([0, 0, 0xffff_0000, 0xffff_ffff]), "255.255.255.255");
}

#[test]
fn an_acceptance_registers_and_inspects_the_socket_that_came_in() {
    let input = EventInterest { input: true, output: false, error: false, hangup: false };
    let s = tcp_accept(AcceptState::Accepting, 0, -1);
    assert_eq!(s, AcceptState::Accepting);
    let s = tcp_accept(s, 1, 9);
    assert_eq!(s, AcceptState::Registering(9, input));
    assert_eq!(tcp_accept(s, -1, 0), AcceptState::Failed(TcpError::EventCtrl));
    let s = tcp_accept(s, 0, 0);
    assert_eq!(s, AcceptState::Inspecting(9));
    assert_eq!(tcp_accept(s, -1, 0), AcceptState::Failed(TcpError::SockInfoGet));
    let s = tcp_accept(s, 0, 0);
    assert_eq!(s, AcceptState::Accepted(9));
    assert_eq!(tcp_accept(s, 1, 5), s);
}

#[test]
fn a_connection_registers_for_everything_and_waits_for_an_event() {
    let all = EventInterest { input: true, output: true, error: true, hangup: true };
    assert_eq!(
        tcp_connect(ConnectState::Connecting, -1),
        ConnectState::Failed(TcpError::ConnectTo)
    );
    let s = tcp_connect(ConnectState::Connecting, 4);
    assert_eq!(s, ConnectState::Registering(4, all));
    assert_eq!(tcp_connect(s, -1), ConnectState::Failed(TcpError::EventCtrl));
    let s = tcp_connect(s, 0);
    assert_eq!(s, ConnectState::Polling(4));
    let s = tcp_connect(s, 0);
    assert_eq!(s, ConnectState::Polling(4));
    assert_eq!(tcp_connect(s, -1), ConnectState::Connected(4));
    let s = tcp_connect(s, 1);
    assert_eq!(s, ConnectState::Connected(4));
    assert_eq!(tcp_connect(s, 0), s);
}
