use mozaic::aggregator::{client_link, Aggregator, InitConnect};
use mozaic::net::client_controller::{ClientClosed, ClientController, HostMsgOutcome, SpawnerBuilder};
use mozaic::net::client_manager::{controller_link, endpoint_link, CcCloseOutcome, ClientManager, RegisterEndpoint, RegisterGame};
use mozaic::net::types::{Accepted, Register};
use mozaic::reactor::{MsgKind, ReactorId, TargetReactor};
use mozaic::request::{Connect, Req, RequestID, Res, State};
use mozaic::types::{ClientControllerDisconnect, ClientState, ClientStateUpdate, Data, HostMsg, NewClientController};

fn rid(n: u64) -> ReactorId {
    ReactorId::from_u64(n)
}

fn aggregator() -> Aggregator {
    Aggregator::params(rid(100), rid(200), vec![(1, rid(11)), (2, rid(12))])
}

#[test]
fn aggregator_starts_the_game_once_everyone_connected() {
    let mut agg = aggregator();
    assert!(agg.handle_init_connect(&InitConnect(1, String::from("ann"))).is_none());
    let start = agg.handle_init_connect(&InitConnect(2, String::from("bob"))).expect("all connected");
    let mut players = start.players.clone();
    players.sort();
    assert_eq!(players, vec![(1, String::from("ann")), (2, String::from("bob"))]);
}

#[test]
fn aggregator_ignores_unknown_players() {
    let mut agg = aggregator();
    assert!(agg.handle_init_connect(&InitConnect(9, String::from("eve"))).is_none());
    assert!(agg.handle_init_connect(&InitConnect(1, String::from("ann"))).is_none());
}

#[test]
fn aggregator_routes_the_games_messages() {
    let agg = aggregator();
    let (m, t) = agg.handle_host_msg(&HostMsg::new(vec![1], Some(2))).expect("known player");
    assert_eq!(t, TargetReactor::Link(rid(12)));
    assert!(matches!(m, HostMsg::Data(_, Some(2))));
    let (_, t) = agg.handle_host_msg(&HostMsg::new(vec![1], None)).expect("broadcast");
    assert_eq!(t, TargetReactor::Links);
    let (_, t) = agg.handle_host_msg(&HostMsg::kick(1)).expect("known player");
    assert_eq!(t, TargetReactor::Link(rid(11)));
    assert!(agg.handle_host_msg(&HostMsg::new(vec![1], Some(7))).is_none());
}

#[test]
fn aggregator_tracks_client_controllers() {
    let mut agg = aggregator();
    let (to, closer) = agg.handle_register_client_controller(&NewClientController(3, rid(13)));
    assert_eq!(to, rid(13));
    assert_eq!(closer, ClientControllerDisconnect(3));
    assert!(agg.handle_host_msg(&HostMsg::kick(3)).is_some());
    agg.handle_disconnect_client_controller(&ClientControllerDisconnect(3));
    assert!(agg.handle_host_msg(&HostMsg::kick(3)).is_none());
}

#[test]
fn aggregator_answers_a_state_request_once_everyone_reported() {
    let mut agg = aggregator();
    let out = agg.handle_state_req(&Req(RequestID(5), State::Request));
    assert_eq!(out.len(), 2);
    let mut targets: Vec<u64> = out.iter().map(|(_, t)| t.id).collect();
    targets.sort();
    assert_eq!(targets, vec![11, 12]);
    assert!(out.iter().all(|(r, _)| r.0 == RequestID(5) && matches!(r.1, Connect::Request)));
    assert!(agg.handle_conn(&Res(RequestID(5), Connect::Connected(1, String::from("ann")))).is_none());
    let res = agg.handle_conn(&Res(RequestID(5), Connect::Waiting(2, 77))).expect("complete");
    assert_eq!(res.0, RequestID(5));
    let list = res.1.res();
    assert_eq!(list.len(), 2);
    let mut texts: Vec<String> = list.iter().map(|c| c.describe()).collect();
    texts.sort();
    assert_eq!(texts, vec![String::from("Connected ann"), String::from("Key to connect 77")]);
    assert!(agg.handle_conn(&Res(RequestID(5), Connect::Waiting(2, 77))).is_none());
}

#[test]
fn aggregator_links() {
    let agg = aggregator();
    let links = agg.init();
    assert_eq!(links.len(), 4);
    let mut ccs: Vec<u64> = links[0..2].iter().map(|l| l.0.remote.id).collect();
    ccs.sort();
    assert_eq!(ccs, vec![11, 12]);
    assert_eq!(links[2].0.remote, rid(100));
    assert!(links[2].1);
    assert_eq!(links[3].0.remote, rid(200));
    let l = client_link(rid(11), rid(100));
    assert_eq!(l.remote, rid(11));
    assert_eq!(l.internal, vec![MsgKind::HostMsg, MsgKind::ConnectReq]);
}

#[test]
fn client_manager_hands_clients_to_their_controllers() {
    let mut cm = ClientManager::new(rid(1), vec![rid(2)]);
    let links = cm.handle_spawn_game(&RegisterGame { game: 4, players: vec![(50, (1, rid(21))), (51, (2, rid(22)))] });
    let mut l: Vec<u64> = links.iter().map(|r| r.id).collect();
    l.sort();
    assert_eq!(l, vec![21, 22]);
    let a = cm.handle_player_register(&Register { id: 51, name: String::from("bob") }, rid(99)).expect("known key");
    assert_eq!(a.player, 2);
    assert_eq!(a.name, "bob");
    assert_eq!(a.client_id, rid(99));
    assert_eq!(a.contr_id, rid(22));
    assert!(cm.handle_player_register(&Register { id: 52, name: String::from("eve") }, rid(98)).is_none());
    assert_eq!(cm.handle_register_endpoint(&RegisterEndpoint(rid(3))), rid(3));
}

#[test]
fn client_manager_forgets_a_closed_controller() {
    let mut cm = ClientManager::new(rid(1), vec![]);
    assert_eq!(cm.handle_cc_close(&rid(21)), CcCloseOutcome::NoControllers);
    cm.handle_spawn_game(&RegisterGame { game: 4, players: vec![(50, (1, rid(21))), (51, (2, rid(22))), (52, (3, rid(22)))] });
    assert_eq!(cm.handle_cc_close(&rid(23)), CcCloseOutcome::NotFound);
    assert_eq!(cm.handle_cc_close(&rid(21)), CcCloseOutcome::Removed);
    assert!(cm.handle_player_register(&Register { id: 50, name: String::from("a") }, rid(9)).is_none());
    assert_eq!(cm.handle_cc_close(&rid(22)), CcCloseOutcome::RemovedMany);
    assert!(cm.handle_player_register(&Register { id: 52, name: String::from("c") }, rid(9)).is_none());
}

#[test]
fn client_manager_links() {
    let cm = ClientManager::new(rid(1), vec![rid(2), rid(3)]);
    let links = cm.init();
    assert_eq!(links.len(), 3);
    assert_eq!(links[0].0.remote, rid(2));
    assert_eq!(links[1].0.remote, rid(3));
    assert_eq!(links[2].0.remote, rid(1));
    assert_eq!(links[2].0.internal, vec![MsgKind::PlayerUUIDs]);
    let (e, keep) = endpoint_link(rid(4));
    assert_eq!(e.external, vec![(MsgKind::SpawnPlayer, TargetReactor::Reactor)]);
    assert!(!keep);
    let (c, _) = controller_link(rid(5));
    assert_eq!(c.internal, vec![MsgKind::Accepted]);
}

fn accepted(name: &str) -> Accepted {
    Accepted { player: 7, name: String::from(name), client_id: rid(70), contr_id: rid(71) }
}

#[test]
fn client_controller_buffers_data_until_the_client_connects() {
    let mut cc = ClientController::params(rid(1), rid(2), 7, 1234, true);
    assert!(matches!(cc.handle_host_msg(&HostMsg::new(vec![1], None)), HostMsgOutcome::Buffered));
    assert!(matches!(cc.handle_host_msg(&HostMsg::new(vec![2], Some(7))), HostMsgOutcome::Buffered));
    let out = cc.handle_conn(&accepted("ann"));
    let flushed: Vec<Vec<u8>> = out.flushed.iter().map(|d| d.value.clone()).collect();
    assert_eq!(flushed, vec![vec![1], vec![2]]);
    let init = out.init.expect("first connection");
    assert_eq!(init.0, 7);
    assert_eq!(init.1, "ann");
    assert_eq!(out.update, ClientStateUpdate { id: 7, state: ClientState::Connected });
    assert_eq!(out.link, rid(70));
    assert_eq!(out.closer, ClientClosed(7));
    match cc.handle_host_msg(&HostMsg::new(vec![3], None)) {
        HostMsgOutcome::Forward(d, to) => {
            assert_eq!(d.value, vec![3]);
            assert_eq!(to, rid(70));
        },
        other => panic!("expected forwarding, got {:?}", other),
    }
    assert!(matches!(cc.handle_host_msg(&HostMsg::kick(7)), HostMsgOutcome::Close));
}

#[test]
fn client_controller_reports_its_status() {
    let mut cc = ClientController::params(rid(1), rid(2), 7, 1234, true);
    let res = cc.handle_conn_req(&Req(RequestID(3), Connect::Request));
    assert_eq!(res.0, RequestID(3));
    assert_eq!(res.1.describe(), "Key to connect 1234");
    cc.handle_conn(&accepted("ann"));
    assert_eq!(cc.handle_conn_req(&Req(RequestID(3), Connect::Request)).1.describe(), "Connected ann");
    let d = cc.handle_disc(&ClientClosed(7));
    assert_eq!(d.update, ClientStateUpdate { id: 7, state: ClientState::Disconnected });
    assert!(!d.close);
    assert_eq!(cc.handle_conn_req(&Req(RequestID(3), Connect::Request)).1.describe(), "Reconnecting ann");
    let again = cc.handle_conn(&accepted("ann2"));
    assert!(again.init.is_none());
}

#[test]
fn client_controller_closes_without_reconnect() {
    let mut cc = ClientController::params(rid(1), rid(2), 7, 1, false);
    cc.handle_conn(&accepted("ann"));
    assert!(cc.handle_disc(&ClientClosed(7)).close);
}

#[test]
fn client_controller_passes_client_data_to_the_game() {
    let cc = ClientController::params(rid(1), rid(2), 7, 1, false);
    let m = cc.handle_client_msg(&Data { value: vec![4, 5] });
    assert_eq!(m.id, 7);
    assert_eq!(m.data.unwrap().value, vec![4, 5]);
    let links = cc.init();
    assert_eq!(links.len(), 2);
    assert_eq!(links[0].0.remote, rid(2));
    assert_eq!(links[1].0.remote, rid(1));
    let (l, keep) = ClientController::client_link(rid(70));
    assert_eq!(l.remote, rid(70));
    assert!(!keep);
}

#[test]
fn spawner_builds_fresh_controllers() {
    let spawner = SpawnerBuilder::new(true).into_spawner(rid(40));
    let (key, player, cc, agg) = spawner.build(rid(41));
    assert_eq!(agg, rid(40));
    let res = cc.handle_conn_req(&Req(RequestID(1), Connect::Request));
    assert_eq!(res.1.describe(), format!("Key to connect {}", key));
    assert!(matches!(res.1, Connect::Waiting(p, _) if p == player));
}
