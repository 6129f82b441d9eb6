use mozaic::game::builder::Builder;
use mozaic::game::manager::{GameEntry, GameJoin, GameOpRes, GameStep, ManagerCore};
use mozaic::game::reactor::{action_turn, updates_to_messages, GameController, GameOut, GameReactor, PlayerTurn, Turn, Update};
use mozaic::game::runner::{finished_of, turn_of, turns_of, Runner};
use mozaic::game::Controller;
use mozaic::ids::PlayerId as GamePlayer;
use mozaic::net::client_controller::SpawnerBuilder;
use mozaic::reactor::ReactorId;
use mozaic::request::{Connect, Kill, Req, RequestID, Res, State};
use mozaic::steplock::StepLock;
use mozaic::types::{HostMsg, PlayerId, PlayerMsg, Start};
use serde_json::Value;

fn rid(n: u64) -> ReactorId {
    ReactorId::from_u64(n)
}

/// A game that echoes every turn to everybody and ends after `rounds` steps.
struct Echo {
    rounds: u64,
    seen: Vec<PlayerId>,
}

impl Controller for Echo {
    fn on_start(&mut self) -> Vec<HostMsg> {
        vec![HostMsg::new(b"start".to_vec(), None)]
    }

    fn on_step(&mut self, turns: Vec<PlayerMsg>) -> Vec<HostMsg> {
        self.rounds -= 1;
        let mut out = Vec::new();
        for t in turns {
            self.seen.push(t.id);
            if let Some(d) = t.data {
                out.push(HostMsg::new(d.value, None));
            }
        }
        out
    }

    fn is_done(&mut self) -> Option<Value> {
        if self.rounds == 0 {
            Some(Value::from(self.seen.len() as u64))
        } else {
            None
        }
    }
}

fn turn(id: PlayerId, bytes: &[u8]) -> PlayerMsg {
    PlayerMsg { id, data: Some(mozaic::types::Data { value: bytes.to_vec() }) }
}

#[test]
fn manager_answers_each_request_once() {
    let mut m = ManagerCore::new(rid(1), rid(2), rid(3));
    let uuid = m.open_request();
    match m.send_msg(uuid, GameOpRes::Kill(None)) {
        Some((u, GameOpRes::Kill(None))) => assert_eq!(u, uuid),
        other => panic!("unexpected {:?}", other),
    }
    assert!(m.send_msg(uuid, GameOpRes::Kill(None)).is_none());
}

#[test]
fn manager_records_a_built_game() {
    let mut m = ManagerCore::new(rid(1), rid(2), rid(3));
    let uuid = m.open_request();
    let out = m.handle_gamebuilder(uuid, 77, rid(40), vec![(5, (1, rid(41)))]);
    assert_eq!(out.register.game, 77);
    assert_eq!(out.register.players, vec![(5, (1, rid(41)))]);
    assert_eq!(out.join, GameJoin(rid(40)));
    match out.reply {
        Some((u, GameOpRes::Built(Some(g)))) => {
            assert_eq!(u, uuid);
            assert_eq!(g, 77);
        },
        other => panic!("unexpected {:?}", other),
    }
    let ask = m.open_request();
    match m.handle_state(ask, 77) {
        GameStep::Ask(to, req) => {
            assert_eq!(to, rid(40));
            assert_eq!(req.0, RequestID(ask));
            assert!(matches!(req.1, State::Request));
        },
        other => panic!("unexpected {:?}", other),
    }
    let answer = m.handle_state_res(Res(RequestID(ask), (Value::from(3u64), State::Response(vec![Connect::Waiting(1, 9)]))));
    match answer {
        Some((u, GameOpRes::State(Some(Ok((v, list)))))) => {
            assert_eq!(u, ask);
            assert_eq!(v, Value::from(3u64));
            assert_eq!(list.len(), 1);
        },
        other => panic!("unexpected {:?}", other),
    }
}

#[test]
fn manager_answers_for_unknown_and_finished_games() {
    let mut m = ManagerCore::new(rid(1), rid(2), rid(3));
    let a = m.open_request();
    match m.handle_state(a, 5) {
        GameStep::Reply(Some((u, GameOpRes::State(None)))) => assert_eq!(u, a),
        other => panic!("unexpected {:?}", other),
    }
    m.handle_finished((5, Value::from("done")));
    let b = m.open_request();
    match m.handle_state(b, 5) {
        GameStep::Reply(Some((u, GameOpRes::State(Some(Err(v)))))) => {
            assert_eq!(u, b);
            assert_eq!(v, Value::from("done"));
        },
        other => panic!("unexpected {:?}", other),
    }
    let c = m.open_request();
    match m.handle_kill(c, 5) {
        GameStep::Reply(Some((u, GameOpRes::Kill(None)))) => assert_eq!(u, c),
        other => panic!("unexpected {:?}", other),
    }
    assert!(matches!(m.handle_kill(c, 5), GameStep::Reply(None)));
}

#[test]
fn manager_kills_a_running_game() {
    let mut m = ManagerCore::new(rid(1), rid(2), rid(3));
    let u = m.open_request();
    m.handle_gamebuilder(u, 8, rid(80), vec![]);
    let k = m.open_request();
    match m.handle_kill(k, 8) {
        GameStep::Ask(to, req) => {
            assert_eq!(to, rid(80));
            assert_eq!(req.0, RequestID(k));
        },
        other => panic!("unexpected {:?}", other),
    }
    match m.handle_kill_res(&Res(RequestID(k), Kill)) {
        Some((u2, GameOpRes::Kill(Some(())))) => assert_eq!(u2, k),
        other => panic!("unexpected {:?}", other),
    }
    let s = m.open_request();
    match m.handle_state_unreachable(s) {
        Some((u2, GameOpRes::State(None))) => assert_eq!(u2, s),
        other => panic!("unexpected {:?}", other),
    }
    let t = m.open_request();
    match m.handle_kill_unreachable(t) {
        Some((u2, GameOpRes::Kill(None))) => assert_eq!(u2, t),
        other => panic!("unexpected {:?}", other),
    }
    assert!(m.handle_kill_unreachable(t).is_none());
    let _ = ManagerCore::new_game_number();
    let _ = GameEntry::Running(rid(1));
}

#[test]
fn runner_drives_the_game_until_it_is_done() {
    let mut r = Runner::params(rid(1), rid(2), rid(3), Echo { rounds: 2, seen: Vec::new() }, 12);
    let out = r.handle_start(&Start { players: vec![(1, String::from("a"))] });
    assert_eq!(out.to_clients.len(), 1);
    assert!(out.finished.is_none());
    let out = r.handle_client_msg(&turn(1, b"x"));
    assert_eq!(out.to_clients.len(), 1);
    assert!(out.finished.is_none());
    let out = r.handle_client_msgs(&vec![turn(1, b"y"), turn(2, b"z")]);
    assert_eq!(out.to_clients.len(), 2);
    let f = out.finished.expect("game over");
    assert_eq!(f.to_manager.0, 12);
    assert_eq!(f.to_manager.1, Value::from(3u64));
    assert_eq!(f.to_logger, Value::from(3u64));
    let (res, to) = r.handle_kill(&Req(RequestID(4), Kill));
    assert_eq!(res.0, RequestID(4));
    assert_eq!(to, rid(2));
    let links = r.init();
    assert_eq!(links.len(), 3);
    assert_eq!(links[0].0.remote, rid(1));
    assert_eq!(links[1].0.remote, rid(2));
    assert_eq!(links[2].0.remote, rid(3));
}

#[test]
fn builder_wires_a_game_without_step_lock() {
    let plan = Builder::new(vec![1, 2], Echo { rounds: 1, seen: Vec::new() }).build(rid(1), rid(2), rid(3), 9);
    assert_eq!(plan.controllers.len(), 2);
    assert!(plan.steplock.is_none());
    assert!(plan.free_client.is_none());
    assert_eq!(plan.players.len(), 2);
    for (i, (cid, cc)) in plan.controllers.iter().enumerate() {
        let key = plan.players.iter().find(|p| p.1 .1 == *cid).expect("registered").0;
        let res = cc.handle_conn_req(&Req(RequestID(1), Connect::Request));
        assert_eq!(res.1.describe(), format!("Key to connect {}", key));
        assert!(matches!(res.1, Connect::Waiting(p, _) if p == (i as u64) + 1));
    }
}

#[test]
fn builder_wires_a_game_with_step_lock_and_free_client() {
    let plan = Builder::new(vec![1], Echo { rounds: 1, seen: Vec::new() })
        .with_step_lock(StepLock::new(vec![1]))
        .with_free_client(55, SpawnerBuilder::new(false))
        .build(rid(1), rid(2), rid(3), 9);
    let lock = plan.steplock.expect("step lock");
    let links = lock.init_links(rid(100));
    assert_eq!(links[0].0.remote, plan.game_id);
    assert_eq!(links[1].0.remote, plan.agg_id);
    let (key, spawner) = plan.free_client.expect("free client");
    assert_eq!(key, 55);
    let (_, _, _, agg) = spawner.build(rid(2));
    assert_eq!(agg, plan.agg_id);
}

/// A game that answers every step with one global and one private update.
struct Split;

impl GameController for Split {
    fn step(&mut self, turns: Vec<PlayerTurn>) -> Vec<Update> {
        let mut out = vec![Update::Global(vec![turns.len() as u8])];
        for (p, t) in turns {
            if let Turn::Action(d) = t {
                out.push(Update::Player(p, d));
            }
        }
        out
    }
}

#[test]
fn game_reactor_sends_updates_then_the_timer() {
    let mut g = GameReactor::params(rid(1), Split);
    let out = g.handle_turn(GamePlayer::from_u64(3), &vec![9]);
    assert_eq!(out.len(), 3);
    assert!(matches!(&out[0], GameOut::HostMessage(d) if *d == vec![1]));
    assert!(matches!(&out[1], GameOut::ToClient(d, 3) if *d == vec![9]));
    assert!(matches!(out[2], GameOut::SetTimeout));
    let out = g.handle_turns(vec![(GamePlayer::from_u64(1), Turn::Timeout)]);
    assert_eq!(out.len(), 2);
    assert!(matches!(out[1], GameOut::SetTimeout));
}

#[test]
fn updates_become_messages_in_order() {
    let out = updates_to_messages(&vec![Update::Player(GamePlayer::from_u64(2), vec![1]), Update::Global(vec![2])]);
    assert_eq!(out.len(), 3);
    assert!(matches!(&out[0], GameOut::ToClient(d, 2) if *d == vec![1]));
    assert!(matches!(&out[1], GameOut::HostMessage(d) if *d == vec![2]));
    assert!(matches!(out[2], GameOut::SetTimeout));
    let out = updates_to_messages(&vec![]);
    assert_eq!(out.len(), 1);
}

#[test]
fn runner_reports_the_final_state() {
    assert!(finished_of(4, None).is_none());
    let f = finished_of(4, Some(Value::from("end"))).expect("done");
    assert_eq!(f.to_manager, (4, Value::from("end")));
    assert_eq!(f.to_logger, Value::from("end"));
}

#[test]
fn runner_hands_the_batch_over_in_order() {
    let t = turns_of(&vec![turn(2, b"a"), PlayerMsg { id: 1, data: None }]);
    assert_eq!(t.len(), 2);
    assert_eq!(t[0].id, 2);
    assert_eq!(t[0].data.as_ref().unwrap().value, b"a".to_vec());
    assert_eq!(t[1].id, 1);
    assert!(t[1].data.is_none());
}

#[test]
fn controller_defaults_send_nothing() {
    let mut g = Echo { rounds: 1, seen: Vec::new() };
    assert!(g.on_connect(1).is_empty());
    assert!(g.on_disconnect(1).is_empty());
    assert_eq!(g.get_state(), Value::Null);
}

#[test]
fn single_turns_are_handed_over_as_sent() {
    let t = turn_of(&turn(3, b"go"));
    assert_eq!(t.len(), 1);
    assert_eq!(t[0].id, 3);
    assert_eq!(t[0].data.as_ref().unwrap().value, b"go".to_vec());
    let a = action_turn(GamePlayer::from_u64(4), &vec![9, 8]);
    assert_eq!(a.len(), 1);
    assert_eq!(a[0].0, GamePlayer::from_u64(4));
    assert!(matches!(&a[0].1, Turn::Action(d) if *d == vec![9, 8]));
}
