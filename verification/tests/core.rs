use mozaic::formats::{bot_input_line, log_line, log_record_line, named_line, prompt, return_line, socket_line};
use mozaic::ids::{Identifier, PlayerId as IdPlayer};
use mozaic::message_resolver::{
    ForeignMessageId, MessageContent, MessageId, MessageResolver, Payload, ResponseError,
};
use mozaic::planetwars::{
    lobby_seats, rotation_offset, Board, Command, CommandError, PlanetInfo, PlayerId as PwPlayer, TurnCollector,
};
use mozaic::reactor::{link_params, ReactorId, TargetReactor};
use mozaic::request::{gen_identification_key, Connect, Kill, Req, RequestID, Res, State};
use mozaic::runtime::{Broker, DriverStep, InternalHandler, InternalOp, LinkTable, ReactorDriver};
use mozaic::steplock::{timer_step, StepLock, TimerEvent, TimerPhase};
use mozaic::text::{append_decimal, append_str, append_string};
use mozaic::types::{Data, HostMsg, PlayerMsg};
use std::time::Duration;

fn data(bytes: &[u8]) -> Data {
    Data { value: bytes.to_vec() }
}

fn turn(id: u64, bytes: &[u8]) -> PlayerMsg {
    PlayerMsg { id, data: Some(data(bytes)) }
}

#[test]
fn decimal_numbers_are_written_in_full() {
    let mut s = String::from("n=");
    append_decimal(&mut s, 0);
    assert_eq!(s, "n=0");
    let mut s = String::new();
    append_decimal(&mut s, 1203);
    assert_eq!(s, "1203");
    let mut s = String::new();
    append_decimal(&mut s, u64::MAX);
    assert_eq!(s, "18446744073709551615");
}

#[test]
fn strings_are_appended() {
    let mut s = String::from("ab");
    append_str(&mut s, "cé");
    append_string(&mut s, &String::from("!"));
    assert_eq!(s, "abcé!");
}

#[test]
fn lines_end_with_a_newline() {
    assert_eq!(socket_line(&data(b"hi")), b"hi\n".to_vec());
    assert_eq!(socket_line(&data(b"")), b"\n".to_vec());
    assert_eq!(bot_input_line(&b"move 1".to_vec()), b"move 1\n".to_vec());
    assert_eq!(log_record_line(b"{}".to_vec()), b"{}\n".to_vec());
}

#[test]
fn text_lines_are_formatted() {
    assert_eq!(log_line(&String::from("bot"), &String::from("ready")), "bot: ready\n");
    assert_eq!(return_line(&String::from("ok")), "< ok");
    assert_eq!(prompt(), "> ");
    assert_eq!(named_line("Player 1", &String::from("go")), "Player 1: go");
}

#[test]
fn connection_statuses_are_described() {
    assert_eq!(Connect::Connected(1, String::from("ann")).describe(), "Connected ann");
    assert_eq!(Connect::Reconnecting(1, String::from("ann")).describe(), "Reconnecting ann");
    assert_eq!(Connect::Waiting(3, 42).describe(), "Key to connect 42");
    assert_eq!(Connect::Request.describe(), "Request");
}

#[test]
fn responses_carry_the_request_identity() {
    let req = Req(RequestID(7), State::Request);
    let res = req.res(5u8);
    assert_eq!(res.0, RequestID(7));
    assert_eq!(res.1, 5u8);
    let res = Res::new(RequestID(9), Kill);
    assert_eq!(res.0.into_u64(), 9);
    let kill = Res::<Kill>::default(RequestID(4));
    assert_eq!(kill.0, RequestID(4));
    let state = State::Response(vec![Connect::Waiting(1, 2)]);
    assert_eq!(state.res().len(), 1);
}

#[test]
fn identification_keys_differ() {
    let a = gen_identification_key();
    let b = gen_identification_key();
    let c = gen_identification_key();
    assert!(a != b || b != c);
}

#[test]
fn identifiers_keep_their_number() {
    assert_eq!(Identifier::from_u64(12).into_u64(), 12);
    assert_eq!(Identifier::from_u64(12).value(), 12);
    assert_eq!(IdPlayer::from_u64(3).into_u64(), 3);
    assert_eq!(IdPlayer::from_u64(3).value(), 3);
    assert_eq!(ReactorId::from_u64(8).id, 8);
}

#[test]
fn link_params_keep_their_parts() {
    let p = link_params(ReactorId::from_u64(2), vec![1u8, 2], vec![(3u8, TargetReactor::Links)]);
    assert_eq!(p.remote, ReactorId::from_u64(2));
    assert_eq!(p.internal, vec![1u8, 2]);
    assert_eq!(p.external, vec![(3u8, TargetReactor::Links)]);
}

#[test]
fn host_messages_are_built() {
    match HostMsg::new(vec![1, 2], Some(4)) {
        HostMsg::Data(d, p) => {
            assert_eq!(d.value, vec![1, 2]);
            assert_eq!(p, Some(4));
        },
        HostMsg::Kick(_) => panic!("expected data"),
    }
    assert!(matches!(HostMsg::kick(5), HostMsg::Kick(5)));
}

#[test]
fn step_lock_waits_for_every_player() {
    let mut lock = StepLock::new(vec![1, 2]);
    assert!(lock.player_msg(&turn(1, b"a")).is_none());
    let flush = lock.player_msg(&turn(2, b"b")).expect("step complete");
    assert_eq!(flush.reset_to, TargetReactor::Links);
    assert_eq!(flush.batch_to, TargetReactor::Link(ReactorId::from_u64(0)));
    let batch = flush.batch;
    assert_eq!(batch.len(), 2);
    for m in &batch {
        let expected: &[u8] = if m.id == 1 { b"a" } else { b"b" };
        assert_eq!(m.data.as_ref().unwrap().value, expected.to_vec());
    }
    let mut ids: Vec<u64> = batch.iter().map(|m| m.id).collect();
    ids.sort();
    assert_eq!(ids, vec![1, 2]);
}

#[test]
fn step_lock_starts_a_new_step_after_a_batch() {
    let mut lock = StepLock::new(vec![1, 2]);
    assert!(lock.player_msg(&turn(1, b"a")).is_none());
    assert!(lock.player_msg(&turn(2, b"b")).is_some());
    assert!(lock.player_msg(&turn(2, b"c")).is_none());
    let batch = lock.timeout().batch;
    assert_eq!(batch.len(), 2);
    for m in &batch {
        if m.id == 2 {
            assert_eq!(m.data.as_ref().unwrap().value, b"c".to_vec());
        } else {
            assert!(m.data.is_none());
        }
    }
}

#[test]
fn step_lock_timeout_of_an_empty_step_carries_no_turn() {
    let mut lock = StepLock::new(vec![4, 5, 6]);
    let batch = lock.timeout().batch;
    assert_eq!(batch.len(), 3);
    assert!(batch.iter().all(|m| m.data.is_none()));
}

#[test]
fn step_lock_keeps_the_last_turn_of_a_player() {
    let mut lock = StepLock::new(vec![1, 2]);
    assert!(lock.player_msg(&turn(1, b"x")).is_none());
    assert!(lock.player_msg(&turn(1, b"y")).is_none());
    let batch = lock.player_msg(&turn(2, b"z")).unwrap().batch;
    let one = batch.iter().find(|m| m.id == 1).unwrap();
    assert_eq!(one.data.as_ref().unwrap().value, b"y".to_vec());
}

#[test]
fn step_lock_stops_waiting_for_a_kicked_player() {
    let mut lock = StepLock::new(vec![1, 2]);
    assert!(lock.player_msg(&turn(1, b"a")).is_none());
    lock.host_msg(&HostMsg::kick(2));
    let batch = lock.timeout().batch;
    assert_eq!(batch.len(), 1);
    assert_eq!(batch[0].id, 1);
    lock.host_msg(&HostMsg::new(vec![9], None));
    let batch = lock.player_msg(&turn(1, b"b")).expect("only player left").batch;
    assert_eq!(batch.len(), 1);
}

#[test]
fn step_lock_links_follow_the_settings() {
    let lock = StepLock::new(vec![1])
        .with_timeout(Duration::from_millis(100))
        .with_init_timeout(Duration::from_millis(500))
        .params(ReactorId::from_u64(10), ReactorId::from_u64(20));
    let links = lock.init_links(ReactorId::from_u64(30));
    assert_eq!(links.len(), 3);
    assert_eq!(links[0].0.remote, ReactorId::from_u64(10));
    assert_eq!(links[1].0.remote, ReactorId::from_u64(20));
    assert_eq!(links[2].0.remote, ReactorId::from_u64(30));
    assert!(links.iter().all(|l| l.1));
}

#[test]
fn step_timer_moves_between_phases() {
    let (p, fire) = timer_step(TimerPhase::First, true, true, TimerEvent::Reset);
    assert_eq!(p, TimerPhase::Steps);
    assert!(!fire);
    assert_eq!(timer_step(TimerPhase::Steps, false, false, TimerEvent::Reset), (TimerPhase::Steps, true));
    assert_eq!(timer_step(TimerPhase::Steps, false, true, TimerEvent::Reset), (TimerPhase::Steps, false));
    assert_eq!(timer_step(TimerPhase::First, true, false, TimerEvent::Elapsed), (TimerPhase::Steps, true));
    let (p, _) = timer_step(TimerPhase::Steps, true, true, TimerEvent::LinkClosed);
    assert_eq!(p, TimerPhase::Stopped);
}

#[test]
fn resolver_numbers_messages_in_turn() {
    let mut r = MessageResolver::new(100);
    let (a, out) = r.send(1, vec![5]);
    assert_eq!(a.as_u64(), 1);
    assert_eq!(out.player_id, 1);
    match out.payload {
        Payload::Message { message_id, data } => {
            assert_eq!(message_id, 1);
            assert_eq!(data, vec![5]);
        },
        Payload::Response { .. } => panic!("expected a message"),
    }
    let (b, _) = r.request(2, vec![6], 50);
    assert_eq!(b, MessageId(2));
    assert!(r.is_expected_response(2, b));
    assert!(!r.is_expected_response(1, b));
    assert!(!r.is_expected_response(1, a));
}

#[test]
fn resolver_closes_an_answered_request() {
    let mut r = MessageResolver::new(100);
    let (id, _) = r.request(3, vec![1], 50);
    assert!(r.is_expected_response(3, id));
    let content = r.get_message_content(3, Payload::Response { message_id: id.as_u64(), data: vec![9] });
    match content {
        MessageContent::Response { message_id, value } => {
            assert_eq!(message_id, id);
            assert_eq!(value, Ok(vec![9]));
        },
        MessageContent::Message { .. } => panic!("expected a response"),
    }
    assert!(!r.is_expected_response(3, id));
    assert!(r.poll_timeout(1000).is_none());
}

#[test]
fn resolver_reads_a_message_of_a_player() {
    let mut r = MessageResolver::new(0);
    let content = r.get_message_content(4, Payload::Message { message_id: 17, data: vec![2, 3] });
    match content {
        MessageContent::Message { message_id, data } => {
            assert_eq!(message_id, ForeignMessageId { player_id: 4, message_id: 17 });
            assert_eq!(data, vec![2, 3]);
        },
        MessageContent::Response { .. } => panic!("expected a message"),
    }
    let out = r.respond(ForeignMessageId { player_id: 4, message_id: 17 }, vec![1]);
    assert_eq!(out.player_id, 4);
    assert!(matches!(out.payload, Payload::Response { message_id: 17, .. }));
}

#[test]
fn resolver_times_out_an_unanswered_request() {
    let mut r = MessageResolver::new(1000);
    let (id, _) = r.request(6, vec![], 10);
    assert!(r.poll_timeout(5).is_none());
    let m = r.poll_timeout(20).expect("deadline passed");
    assert_eq!(m.player_id, 6);
    match m.content {
        MessageContent::Response { message_id, value } => {
            assert_eq!(message_id, id);
            assert_eq!(value, Err(ResponseError::Timeout));
        },
        MessageContent::Message { .. } => panic!("expected a time-out"),
    }
    assert!(!r.is_expected_response(6, id));
    assert!(r.poll_timeout(30).is_none());
}

#[test]
fn broker_registers_and_forgets_reactors() {
    let mut b: Broker<u8> = Broker::new();
    let id = ReactorId::from_u64(3);
    assert!(!b.reactor_exists(&id));
    assert!(!b.can_send_to(&b.get_runtime_id()));
    b.register(id, 7);
    assert!(b.reactor_exists(&id));
    assert_eq!(*b.dispatch_target(&id), 7);
    b.register(id, 8);
    assert_eq!(*b.dispatch_target(&id), 8);
    b.unregister(&id);
    assert!(!b.reactor_exists(&id));
    let rid = b.get_runtime_id();
    assert_eq!(rid, b.get_runtime_id());
}

#[test]
fn link_table_opens_and_closes_links() {
    let mut t: LinkTable<u8> = LinkTable::new();
    assert!(t.is_empty());
    assert_eq!(t.apply_op(InternalOp::<&str, u8>::OpenLink(ReactorId::from_u64(2), 20)), None);
    assert!(!t.is_empty());
    assert_eq!(t.get(&ReactorId::from_u64(2)), Some(&20));
    assert_eq!(t.get(&ReactorId::from_u64(3)), None);
    assert_eq!(t.apply_op(InternalOp::<&str, u8>::CloseLink(ReactorId::from_u64(2))), None);
    assert!(t.is_empty());
    assert_eq!(t.apply_op(InternalOp::<&str, u8>::Message("c")), Some("c"));
}

#[test]
fn driver_handles_each_message_at_its_place() {
    let mut b: Broker<u8> = Broker::new();
    let mut d: ReactorDriver<&str, u8> = b.spawn(ReactorId::from_u64(5), 1, "init");
    assert!(b.reactor_exists(&ReactorId::from_u64(5)));
    assert!(matches!(d.next(), DriverStep::Internal("init")));
    d.push(InternalOp::OpenLink(ReactorId::from_u64(1), 10));
    d.push(InternalOp::Message("a"));
    d.push(InternalOp::CloseLink(ReactorId::from_u64(1)));
    d.push(InternalOp::OpenLink(ReactorId::from_u64(2), 20));
    assert!(matches!(d.next(), DriverStep::Internal("a")));
    assert_eq!(d.link_of(&ReactorId::from_u64(1)), Some(&10));
    d.push(InternalOp::Message("b"));
    assert!(matches!(d.next(), DriverStep::Internal("b")));
    assert_eq!(d.link_of(&ReactorId::from_u64(1)), None);
    assert_eq!(d.link_of(&ReactorId::from_u64(2)), Some(&20));
    assert!(matches!(d.next(), DriverStep::ReadExternal));
    d.push(InternalOp::CloseLink(ReactorId::from_u64(2)));
    assert!(matches!(d.next(), DriverStep::Stop));
}

#[test]
fn driver_without_links_stops_after_initializing() {
    let mut d: ReactorDriver<u8, u8> = ReactorDriver::new(0);
    assert!(matches!(d.next(), DriverStep::Internal(0)));
    assert!(matches!(d.next(), DriverStep::Stop));
}

fn board() -> Board {
    let names = vec![(String::from("earth"), 0), (String::from("mars"), 1)];
    let planets = vec![
        PlanetInfo { owner: Some(PwPlayer::new(1)), ship_count: 10 },
        PlanetInfo { owner: None, ship_count: 3 },
    ];
    Board::new(names, planets).expect("valid board")
}

fn command(origin: &str, destination: &str, ship_count: u64) -> Command {
    Command { origin: String::from(origin), destination: String::from(destination), ship_count }
}

#[test]
fn planet_wars_accepts_a_valid_move() {
    let d = board().parse_command(PwPlayer::new(1), &command("earth", "mars", 4)).unwrap();
    assert_eq!(d.origin, 0);
    assert_eq!(d.target, 1);
    assert_eq!(d.ship_count, 4);
}

#[test]
fn planet_wars_refuses_invalid_moves() {
    let b = board();
    let p = PwPlayer::new(1);
    assert_eq!(b.parse_command(p, &command("venus", "mars", 1)), Err(CommandError::OriginDoesNotExist));
    assert_eq!(b.parse_command(p, &command("earth", "venus", 1)), Err(CommandError::DestinationDoesNotExist));
    assert_eq!(b.parse_command(p, &command("mars", "earth", 1)), Err(CommandError::OriginNotOwned));
    assert_eq!(b.parse_command(PwPlayer::new(2), &command("earth", "mars", 1)), Err(CommandError::OriginNotOwned));
    assert_eq!(b.parse_command(p, &command("earth", "mars", 11)), Err(CommandError::NotEnoughShips));
    assert_eq!(b.parse_command(p, &command("earth", "mars", 0)), Err(CommandError::ZeroShipMove));
}

#[test]
fn planet_wars_board_needs_known_planets() {
    let names = vec![(String::from("earth"), 2)];
    let planets = vec![PlanetInfo { owner: None, ship_count: 0 }];
    assert!(Board::new(names, planets).is_none());
}

#[test]
fn planet_wars_turn_completes_when_everyone_answered() {
    let mut c = TurnCollector::new();
    c.prompt(1);
    c.prompt(2);
    assert!(c.handle_response(1, Ok(vec![1])).is_none());
    let answers = c.handle_response(2, Err(ResponseError::Timeout)).expect("turn complete");
    assert_eq!(answers.len(), 2);
    let one = answers.iter().find(|a| a.0 == 1).unwrap();
    assert_eq!(one.1, Ok(vec![1]));
    let two = answers.iter().find(|a| a.0 == 2).unwrap();
    assert_eq!(two.1, Err(ResponseError::Timeout));
}

#[test]
fn planet_wars_seats_and_rotation() {
    assert_eq!(rotation_offset(4, 1), 3);
    assert_eq!(rotation_offset(4, 4), 0);
    let seats = lobby_seats(3);
    assert_eq!(seats.len(), 3);
    assert_eq!(seats[2].0, 2);
    assert_eq!(seats[2].1.as_usize(), 2);
}

#[test]
fn planet_wars_later_planet_of_a_name_counts() {
    let names = vec![(String::from("earth"), 0), (String::from("earth"), 1)];
    let planets = vec![
        PlanetInfo { owner: None, ship_count: 1 },
        PlanetInfo { owner: Some(PwPlayer::new(1)), ship_count: 5 },
    ];
    let b = Board::new(names, planets).unwrap();
    let d = b.parse_command(PwPlayer::new(1), &command("earth", "earth", 2)).unwrap();
    assert_eq!(d.origin, 1);
    assert_eq!(d.target, 1);
}

#[test]
fn planet_wars_prompts_the_living_players() {
    let mut c = TurnCollector::new();
    let players = vec![(PwPlayer::new(0), true), (PwPlayer::new(1), false), (PwPlayer::new(2), true)];
    let prompts = c.prompt_players(&players);
    assert_eq!(prompts, vec![(PwPlayer::new(0), 3), (PwPlayer::new(2), 1)]);
    assert!(c.handle_response(0, Ok(vec![])).is_none());
    let answers = c.handle_response(2, Ok(vec![1])).expect("both living players answered");
    assert_eq!(answers.len(), 2);
}

#[test]
fn resolver_times_out_the_earliest_deadline_first() {
    let mut r = MessageResolver::new(0);
    let (late, _) = r.request(1, vec![], 100);
    let (early, _) = r.request(2, vec![], 10);
    let m = r.poll_timeout(50).expect("the early deadline passed");
    assert_eq!(m.player_id, 2);
    assert!(matches!(m.content, MessageContent::Response { message_id, .. } if message_id == early));
    assert!(r.poll_timeout(50).is_none());
    assert!(r.is_expected_response(1, late));
    let m = r.poll_timeout(100).expect("the late deadline passed");
    assert_eq!(m.player_id, 1);
    assert!(r.poll_timeout(1000).is_none());
}

#[test]
fn resolver_skips_answered_requests_when_timing_out() {
    let mut r = MessageResolver::new(0);
    let (a, _) = r.request(1, vec![], 10);
    let (b, _) = r.request(2, vec![], 20);
    r.get_message_content(1, Payload::Response { message_id: a.as_u64(), data: vec![] });
    let m = r.poll_timeout(30).expect("b timed out");
    assert!(matches!(m.content, MessageContent::Response { message_id, value: Err(ResponseError::Timeout) } if message_id == b));
    assert!(r.poll_timeout(30).is_none());
}

#[test]
fn resolver_receives_messages_and_expected_answers() {
    let mut r = MessageResolver::new(100);
    let (id, _) = r.request(3, vec![1], 50);
    match r.receive(3, Payload::Message { message_id: 8, data: vec![4] }) {
        Some(MessageContent::Message { message_id, data }) => {
            assert_eq!(message_id, ForeignMessageId { player_id: 3, message_id: 8 });
            assert_eq!(data, vec![4]);
        },
        other => panic!("unexpected {:?}", other),
    }
    // An answer from another player is skipped and the request stays open.
    assert!(r.receive(5, Payload::Response { message_id: id.as_u64(), data: vec![9] }).is_none());
    assert!(r.is_expected_response(3, id));
    match r.receive(3, Payload::Response { message_id: id.as_u64(), data: vec![9] }) {
        Some(MessageContent::Response { message_id, value }) => {
            assert_eq!(message_id, id);
            assert_eq!(value, Ok(vec![9]));
        },
        other => panic!("unexpected {:?}", other),
    }
    // A second answer is skipped: the request was resolved once.
    assert!(r.receive(3, Payload::Response { message_id: id.as_u64(), data: vec![9] }).is_none());
    assert!(r.poll_timeout(1000).is_none());
}

#[test]
fn internal_messages_go_to_the_reactor_first_then_each_link() {
    let mut d: ReactorDriver<&str, u8> = ReactorDriver::new("init");
    assert_eq!(d.internal_handlers(), vec![InternalHandler::Own]);
    d.push(InternalOp::OpenLink(ReactorId::from_u64(3), 30));
    d.push(InternalOp::OpenLink(ReactorId::from_u64(4), 40));
    d.push(InternalOp::OpenLink(ReactorId::from_u64(3), 31));
    assert!(matches!(d.next(), DriverStep::Internal("init")));
    assert!(matches!(d.next(), DriverStep::ReadExternal));
    let hs = d.internal_handlers();
    assert_eq!(hs.len(), 3);
    assert_eq!(hs[0], InternalHandler::Own);
    assert!(hs.contains(&InternalHandler::Link(ReactorId::from_u64(3))));
    assert!(hs.contains(&InternalHandler::Link(ReactorId::from_u64(4))));
}
