use mozaic::bot_driver::{Bot, BotLink, BotMsgKind, BotReactor, ForeignLink as BotForeignLink};
use mozaic::cmd_reactor::{handle_command, CmdLink, CmdMsgKind, CmdReactor, CommandOutcome, ForeignLink as CmdForeignLink};
use mozaic::connection_handler::{forward_messages, ChannelTable, FrameRoute, HandlerCore, MsgHandler, Received};
use mozaic::connection_manager::{
    CCReactor, ClientControllerLink, ClientLink as CmClientLink, ConnectionManager as CmManager, HostLink,
};
use mozaic::endpoints::{
    accept_step, session_step, ws_payload, AcceptAction, AcceptEvent, ClientMsg, DatagramRoute, SessionAction, SessionEvent, UdpAddr,
    UdpClients, WsFrame,
};
use mozaic::game::manager::GameJoin;
use mozaic::ids::{Identifier, PlayerId as IdPlayer};
use mozaic::logger::Logger;
use mozaic::net::controller::{CloseLinks, ClientController as PollController, ControllerEvent};
use mozaic::reactor::{ReactorId, TargetReactor};
use mozaic::server::{ConnectOutcome, ServerHandler};
use mozaic::server_reactor::{drain_queue, ClientController as QueueController, ClientLink, ConnectionManager};
use mozaic::translator::{inner_of, Helper, HelperTable, InnerMsg, Route, Translator};
use mozaic::types::Data;
use std::collections::VecDeque;

fn rid(n: u64) -> ReactorId {
    ReactorId::from_u64(n)
}

fn key(n: u64) -> Identifier {
    Identifier::from_u64(n)
}

#[test]
fn queue_is_drained_in_order() {
    let mut q: VecDeque<String> = VecDeque::new();
    q.push_back(String::from("a"));
    q.push_back(String::from("b"));
    assert_eq!(drain_queue(&mut q), vec![String::from("a"), String::from("b")]);
    assert!(q.is_empty());
}

#[test]
fn queue_controller_keeps_messages_while_away() {
    let mut c = QueueController::new(IdPlayer::from_u64(4), key(40));
    assert_eq!(c.player_id(), IdPlayer::from_u64(4));
    assert!(c.handle_message(String::from("one")).is_empty());
    assert!(c.handle_message(String::from("two")).is_empty());
    assert_eq!(c.client_connected(), vec![String::from("one"), String::from("two")]);
    assert_eq!(c.handle_message(String::from("three")), vec![String::from("three")]);
    c.client_disconnected();
    assert!(c.handle_message(String::from("four")).is_empty());
    assert_eq!(c.client_connected(), vec![String::from("four")]);
}

#[test]
fn server_reactor_manager_broadcasts_to_every_key() {
    let mut m = ConnectionManager::params(rid(1), vec![(key(10), IdPlayer::from_u64(1)), (key(20), IdPlayer::from_u64(2))], rid(2));
    let out = m.handle_host_msg(&String::from("hello"));
    assert_eq!(out.len(), 2);
    assert!(out.iter().all(|(_, v)| v.is_empty()));
    assert_eq!(m.handle_connect(key(10)), vec![String::from("hello")]);
    assert!(m.handle_connect(key(30)).is_empty());
    let out = m.handle_host_msg(&String::from("again"));
    let ten = out.iter().find(|(k, _)| *k == 10).unwrap();
    assert_eq!(ten.1, vec![String::from("again")]);
    let twenty = out.iter().find(|(k, _)| *k == 20).unwrap();
    assert!(twenty.1.is_empty());
    m.handle_disconnect(key(10));
    let out = m.handle_host_msg(&String::from("late"));
    assert!(out.iter().all(|(_, v)| v.is_empty()));
    assert_eq!(m.handle_connect(key(20)), vec![String::from("hello"), String::from("again"), String::from("late")]);
}

#[test]
fn server_reactor_client_link_filters_by_key() {
    let mut l = ClientLink::params();
    assert!(l.e_handle_message(String::from("x")).is_none());
    assert!(l.e_handle_disconnect().is_none());
    assert!(l.i_handle_msg(5, String::from("y")).is_none());
    assert_eq!(l.e_handle_identify(5), key(5));
    assert_eq!(l.e_handle_message(String::from("x")), Some((5, String::from("x"))));
    assert_eq!(l.i_handle_msg(5, String::from("y")), Some(String::from("y")));
    assert!(l.i_handle_msg(6, String::from("y")).is_none());
    assert_eq!(l.e_handle_disconnect(), Some(5));
}

#[test]
fn connection_manager_controllers_keep_messages() {
    let mut cc = CCReactor::params(IdPlayer::from_u64(1), rid(2), rid(3));
    assert!(cc.handle_host_msg(String::from("a")).is_empty());
    let (to, queued) = cc.handle_connect(rid(9));
    assert_eq!(to, rid(9));
    assert_eq!(queued, vec![String::from("a")]);
    assert_eq!(cc.handle_host_msg(String::from("b")), vec![String::from("b")]);
    cc.handle_disconnect();
    assert!(cc.handle_host_msg(String::from("c")).is_empty());
}

#[test]
fn connection_manager_links_route_by_key() {
    let host = HostLink::params(IdPlayer::from_u64(3));
    assert_eq!(host.e_handle_to_client(3, String::from("m")), Some(String::from("m")));
    assert!(host.e_handle_to_client(4, String::from("m")).is_none());
    assert_eq!(host.i_handle_message(String::from("t")), (3, String::from("t")));
    let ccl = ClientControllerLink::params(key(7));
    assert_eq!(ccl.i_handle_connected(7, rid(1), rid(2)), Some((rid(1), (7, rid(2)))));
    assert!(ccl.i_handle_connected(8, rid(1), rid(2)).is_none());
    assert!(ccl.i_handle_disconnected(7));
    assert!(!ccl.i_handle_disconnected(8));
    let mut cl = CmClientLink::params();
    assert!(cl.e_handle_disconnect().is_none());
    assert_eq!(cl.e_handle_identify(7, rid(5)), (7, rid(5)));
    assert_eq!(cl.e_handle_disconnect(), Some(7));
    assert_eq!(cl.i_handle_host_connected(7, rid(6)), Some(rid(6)));
    assert!(cl.i_handle_host_connected(8, rid(6)).is_none());
}

#[test]
fn connection_manager_spawns_a_controller_per_key() {
    let mut m = CmManager::params(vec![(key(1), IdPlayer::from_u64(10)), (key(2), IdPlayer::from_u64(20))], rid(5));
    let made = m.handle_initialize(rid(6));
    assert_eq!(made.len(), 2);
    assert!(made[0].0.i_handle_disconnected(1));
    assert!(made[1].0.i_handle_disconnected(2));
    assert!(m.handle_initialize(rid(6)).is_empty());
}

#[test]
fn translator_routes_by_kind() {
    let mut t: HelperTable<u8> = HelperTable::new();
    t.insert(1, 10);
    t.insert(1, 11);
    match t.route(InnerMsg::Msg(1, "m")) {
        Route::Translate(h, m) => {
            assert_eq!(*h, 11);
            assert_eq!(m, "m");
        },
        other => panic!("unexpected {:?}", other),
    }
    assert!(matches!(t.route(InnerMsg::Msg(2, "m")), Route::Ignore));
    assert!(matches!(t.route(InnerMsg::<&str>::Close), Route::Close));
    let h = Helper::new(5u8);
    assert_eq!(*h.function(), 5);
}

#[test]
fn translator_hands_over_its_tables() {
    let mut tr: Translator<u8, u16> = Translator::new();
    tr.add_to(1, 10);
    tr.add_from(2, 20);
    let from = tr.attach_to();
    assert!(matches!(from.route(InnerMsg::Msg(2, ())), Route::Translate(h, ()) if *h == 20));
    let to = tr.attach_from();
    assert!(matches!(to.route(InnerMsg::Msg(1, ())), Route::Translate(h, ()) if *h == 10));
}

#[test]
fn connection_handlers_by_type() {
    let mut core: HandlerCore<u8, &str> = HandlerCore::new(3);
    assert_eq!(*core.state(), 3);
    assert!(core.handle(1).is_none());
    core.on(1, "one");
    core.on(1, "uno");
    assert_eq!(core.handle(1), Some(&"uno"));
    let h = MsgHandler::<u8, u16>::new(4);
    assert_eq!(*h.function(), 4);
}

#[test]
fn channel_table_opens_and_closes() {
    let mut t: ChannelTable<u8> = ChannelTable::new();
    assert!(matches!(t.route(3), FrameRoute::New));
    t.open(3, 30);
    assert!(matches!(t.route(3), FrameRoute::Existing(x) if *x == 30));
    t.close(3);
    assert!(matches!(t.route(3), FrameRoute::New));
}

#[test]
fn bot_reactor_spawns_once_and_feeds_lines() {
    let mut b = BotReactor::new(rid(1), vec![String::from("python"), String::from("bot.py")]);
    assert!(b.handle_return(&b"x".to_vec()).is_none());
    assert_eq!(b.handle_initialize(), Some(vec![String::from("python"), String::from("bot.py")]));
    assert!(b.handle_initialize().is_none());
    assert_eq!(b.handle_return(&b"move".to_vec()), Some(b"move\n".to_vec()));
    let l = BotForeignLink::params(rid(2));
    assert_eq!(l.internal, vec![BotMsgKind::BotReturn]);
    let l = BotLink::params(rid(3));
    assert_eq!(l.remote, rid(3));
    assert_eq!(l.external, vec![(BotMsgKind::BotReturn, TargetReactor::Reactor)]);
    let _ = Bot::Spawned;
}

#[test]
fn command_line_reactor() {
    let c = CmdReactor::new(rid(4));
    let (a, b, p) = c.handle_initialize(rid(5));
    assert_eq!(a.remote, rid(5));
    assert_eq!(b.remote, rid(4));
    assert_eq!(b.internal, vec![CmdMsgKind::CmdInput]);
    assert_eq!(p, "> ");
    assert_eq!(c.handle_return(&String::from("ok")), (String::from("< ok"), String::from("> ")));
    assert_eq!(CmdLink::params(rid(1)).external, vec![(CmdMsgKind::CmdInput, TargetReactor::Reactor)]);
    assert_eq!(CmdForeignLink::params(rid(1)).external, vec![(CmdMsgKind::CmdReturn, TargetReactor::Reactor)]);
    assert!(matches!(handle_command::<u8>(Ok(3)), CommandOutcome::Command(3)));
    assert!(matches!(handle_command::<u8>(Err(String::from("bad"))), CommandOutcome::Return(m) if m == "bad"));
}

#[test]
fn logger_listens_to_games() {
    let l = Logger::params(rid(1));
    assert_eq!(l.init(), rid(1));
    assert_eq!(l.handle_game_join(&GameJoin(rid(8))), rid(8));
}

#[test]
fn endpoint_decisions() {
    assert_eq!(accept_step(AcceptEvent::Socket), AcceptAction::Spawn);
    assert_eq!(accept_step(AcceptEvent::SocketError), AcceptAction::Stop { clean: false });
    assert_eq!(accept_step(AcceptEvent::ListenerEnded), AcceptAction::Stop { clean: false });
    assert_eq!(accept_step(AcceptEvent::ControlClosed), AcceptAction::Stop { clean: true });
    assert_eq!(accept_step(AcceptEvent::ControlMessage), AcceptAction::Continue);
    assert!(matches!(session_step(SessionEvent::ControlData(Data { value: b"hi".to_vec() })), SessionAction::Write(b) if b == b"hi\n".to_vec()));
    assert!(matches!(session_step(SessionEvent::Line(vec![1])), SessionAction::Forward(d) if d.value == vec![1]));
    assert!(matches!(session_step(SessionEvent::ControlClosed), SessionAction::Stop { clean: true }));
    assert!(matches!(session_step(SessionEvent::ControlEnded), SessionAction::Stop { clean: false }));
    assert!(matches!(session_step(SessionEvent::ControlOther), SessionAction::Stop { clean: false }));
    assert!(matches!(session_step(SessionEvent::LineError), SessionAction::Stop { clean: true }));
    assert!(matches!(session_step(SessionEvent::LinesEnded), SessionAction::Stop { clean: false }));
    assert_eq!(ws_payload(&WsFrame::Text(b"t".to_vec())), Some(b"t".to_vec()));
    assert_eq!(ws_payload(&WsFrame::Binary(vec![0, 1])), Some(vec![0, 1]));
    assert_eq!(ws_payload(&WsFrame::Other), None);
}

#[test]
fn server_registers_the_connecting_reactor() {
    let mut s = ServerHandler::new(rid(1));
    assert_eq!(s.handle_disconnected(), None);
    assert_eq!(s.handle_connect(rid(7)), ConnectOutcome { register: rid(7), joined: rid(7), connected: rid(1) });
    assert_eq!(s.handle_disconnected(), Some(rid(7)));
}

#[test]
fn polling_controller_buffers_and_closes() {
    let mut c = PollController::new(rid(1), rid(2), rid(3), 4);
    assert!(c.handle_event(ControllerEvent::HostData(Data { value: vec![1] })).is_none());
    let out = c.finish_poll();
    assert!(out.flushed.is_empty());
    assert!(out.close.is_none());
    c.handle_event(ControllerEvent::Accepted(rid(9)));
    c.handle_event(ControllerEvent::HostData(Data { value: vec![2] }));
    let msg = c.handle_event(ControllerEvent::ClientData(Some(Data { value: vec![7] }))).expect("client data");
    assert_eq!(msg.id, 4);
    assert_eq!(msg.data.unwrap().value, vec![7]);
    assert!(c.handle_event(ControllerEvent::ClientData(None)).is_none());
    let out = c.finish_poll();
    let flushed: Vec<Vec<u8>> = out.flushed.iter().map(|d| d.value.clone()).collect();
    assert_eq!(flushed, vec![vec![1], vec![2]]);
    c.handle_event(ControllerEvent::HostKick);
    let out = c.finish_poll();
    assert_eq!(out.close, Some(CloseLinks { host: rid(2), conn_man: rid(3), client: Some(rid(9)) }));
}

#[test]
fn translator_items_become_inner_messages() {
    assert!(matches!(inner_of(Some((rid(1), 4, "m"))), InnerMsg::Msg(4, "m")));
    assert!(matches!(inner_of::<&str>(None), InnerMsg::Close));
    let mut t: HelperTable<u8> = HelperTable::new();
    t.insert(4, 40);
    assert!(matches!(t.route(inner_of(Some((rid(1), 4, "m")))), Route::Translate(h, "m") if *h == 40));
    assert!(matches!(t.route(inner_of(Some((rid(1), 5, "m")))), Route::Ignore));
}

#[test]
fn polling_controller_stalls_on_an_ended_channel() {
    let mut c = PollController::new(rid(1), rid(2), rid(3), 4);
    c.handle_event(ControllerEvent::Accepted(rid(9)));
    c.handle_event(ControllerEvent::HostData(Data { value: vec![1] }));
    assert!(c.handle_event(ControllerEvent::ClientChannelEnded).is_none());
    // Nothing after the ended channel is handled, sent or closed.
    assert!(c.handle_event(ControllerEvent::ClientData(Some(Data { value: vec![7] }))).is_none());
    let out = c.finish_poll();
    assert!(out.flushed.is_empty());
    assert!(out.close.is_none());

    let mut h = PollController::new(rid(1), rid(2), rid(3), 4);
    h.handle_event(ControllerEvent::HostChannelEnded);
    let out = h.finish_poll();
    assert!(out.close.is_none());

    let mut k = PollController::new(rid(1), rid(2), rid(3), 4);
    k.handle_event(ControllerEvent::HostClosed);
    let out = k.finish_poll();
    assert_eq!(out.close, Some(CloseLinks { host: rid(2), conn_man: rid(3), client: None }));
}

#[test]
fn connection_forwards_messages_until_the_channel_waits_or_closes() {
    let reads = vec![Received::Message(vec![1]), Received::Message(vec![2, 3]), Received::Empty, Received::Message(vec![4])];
    assert_eq!(forward_messages(&reads), (vec![vec![1], vec![2, 3]], Some(false)));
    let reads = vec![Received::Message(vec![5]), Received::Closed];
    assert_eq!(forward_messages(&reads), (vec![vec![5]], Some(true)));
    let reads = vec![Received::Message(vec![6])];
    assert_eq!(forward_messages(&reads), (vec![vec![6]], None));
    assert_eq!(forward_messages(&Vec::new()), (Vec::<Vec<u8>>::new(), None));
}

fn addr(port: u16) -> UdpAddr {
    UdpAddr { v6: false, ip: 0x7f00_0001, port, flowinfo: 0, scope_id: 0 }
}

#[test]
fn udp_endpoint_registers_unknown_addresses() {
    let clients: UdpClients<u8> = UdpClients::new();
    match clients.route_datagram(addr(9000), vec![1, 2]) {
        DatagramRoute::Register(b) => assert_eq!(b, vec![1, 2]),
        other => panic!("unexpected {:?}", other),
    }
}

#[test]
fn udp_endpoint_forwards_to_known_clients_until_they_stop() {
    let mut clients: UdpClients<u8> = UdpClients::new();
    assert!(clients.handle_client_msg(ClientMsg::Start(addr(9000), 3, rid(30))).is_none());
    match clients.route_datagram(addr(9000), vec![5]) {
        DatagramRoute::Forward { chan, session, data } => {
            assert_eq!(*chan, 3);
            assert_eq!(session, rid(30));
            assert_eq!(data.value, vec![5]);
        },
        other => panic!("unexpected {:?}", other),
    }
    assert!(matches!(clients.route_datagram(addr(9001), vec![5]), DatagramRoute::Register(_)));
    let (d, a) = clients.handle_client_msg(ClientMsg::Data(Data { value: vec![8] }, addr(9000))).expect("data to send");
    assert_eq!(d.value, vec![8]);
    assert_eq!(a, addr(9000));
    assert!(clients.handle_client_msg(ClientMsg::Stop(addr(9000))).is_none());
    assert!(matches!(clients.route_datagram(addr(9000), vec![5]), DatagramRoute::Register(_)));
    clients.handle_client_msg(ClientMsg::Start(addr(9002), 4, rid(40)));
    clients.send_failed(addr(9002));
    assert!(matches!(clients.route_datagram(addr(9002), vec![5]), DatagramRoute::Register(_)));
}

#[test]
fn translator_helper_applies_its_function() {
    let h = Helper::new(|k: &u64, m: &&str| if *k == 1 { Some(m.len()) } else { None });
    assert_eq!(h.handle(&1u64, &"abc"), Some(3));
    assert_eq!(h.handle(&2u64, &"abc"), None);
}

#[test]
fn translator_helper_sends_what_its_function_gives() {
    let h = Helper::new(|k: &u64, m: &&str| if *k == 1 { Some(m.len()) } else { None });
    let mut sent = Vec::new();
    assert_eq!(h.handle_and_send(&1u64, &"abc", |t| {
        sent.push(t);
        Some(())
    }), Some(()));
    assert_eq!(sent, vec![3]);
    assert_eq!(h.handle_and_send(&1u64, &"ab", |_t| None), None);
    let mut called = false;
    assert_eq!(h.handle_and_send(&2u64, &"abc", |_t| {
        called = true;
        None
    }), Some(()));
    assert!(!called);
}
