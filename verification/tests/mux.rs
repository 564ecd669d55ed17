use sosistab::mux::actor::{on_frame, on_open};
use sosistab::mux::text::{additional_info, read_info, write_info};
use sosistab::mux::{multiplex, Action, ConnTable, Event, Message, RelKind};

fn rel(kind: RelKind, stream_id: u16, seqno: u64, payload: &[u8]) -> Message {
    Message::Rel { kind, stream_id, seqno, payload: payload.to_vec() }
}

fn bare(kind: RelKind, stream_id: u16) -> Message {
    rel(kind, stream_id, 0, &[])
}

#[test]
fn local_open_emits_a_syn_with_a_fresh_id() {
    let mut table = ConnTable::new();
    for id in 0..1000u16 {
        table.set_stream(id);
    }
    let action = multiplex(&mut table, Event::Open(Some("edge".to_string())));
    match action {
        Action::Open { stream_id, additional_info, syn } => {
            assert!(stream_id >= 1000);
            assert_eq!(additional_info, Some("edge".to_string()));
            assert_eq!(syn, rel(RelKind::Syn, stream_id, 0, b"edge"));
            assert!(table.get_stream(stream_id));
            assert_eq!(table.len(), 1001);
        }
        other => panic!("unexpected action {:?}", other),
    }
}

#[test]
fn local_open_without_info_sends_an_empty_payload() {
    let mut table = ConnTable::new();
    match multiplex(&mut table, Event::Open(None)) {
        Action::Open { stream_id, additional_info, syn } => {
            assert_eq!(additional_info, None);
            assert_eq!(syn, bare(RelKind::Syn, stream_id));
            assert!(table.get_stream(stream_id));
        }
        other => panic!("unexpected action {:?}", other),
    }
}

#[test]
fn open_with_a_given_id() {
    let mut table = ConnTable::new();
    assert_eq!(
        on_open(&mut table, Some("héllo".to_string()), Some(77)),
        Action::Open {
            stream_id: 77,
            additional_info: Some("héllo".to_string()),
            syn: rel(RelKind::Syn, 77, 0, "héllo".as_bytes()),
        }
    );
    assert!(table.get_stream(77));
    assert_eq!(on_open(&mut table, Some("x".to_string()), None), Action::Nothing);
    assert_eq!(table.len(), 1);
}

#[test]
fn remote_syn_creates_a_stream_once() {
    let mut table = ConnTable::new();
    assert_eq!(
        multiplex(&mut table, Event::Inbound(rel(RelKind::Syn, 42, 0, b"edge"))),
        Action::Accept { stream_id: 42, additional_info: Some("edge".to_string()) }
    );
    assert!(table.get_stream(42));
    assert_eq!(table.len(), 1);
    assert_eq!(
        multiplex(&mut table, Event::Inbound(rel(RelKind::Syn, 42, 0, b"edge"))),
        Action::Send(bare(RelKind::SynAck, 42))
    );
    assert_eq!(table.len(), 1);
}

#[test]
fn every_duplicate_syn_is_acknowledged() {
    let mut table = ConnTable::new();
    let mut accepted = 0;
    let mut acknowledged = 0;
    for round in 0..5u64 {
        match on_frame(&mut table, rel(RelKind::Syn, 9, round, &[round as u8])) {
            Action::Accept { stream_id: 9, .. } => accepted += 1,
            Action::Send(frame) => {
                assert_eq!(frame, bare(RelKind::SynAck, 9));
                acknowledged += 1;
            }
            other => panic!("unexpected action {:?}", other),
        }
    }
    assert_eq!(accepted, 1);
    assert_eq!(acknowledged, 4);
    assert_eq!(table.len(), 1);
}

#[test]
fn syn_without_payload_says_nothing_of_the_stream() {
    let mut table = ConnTable::new();
    assert_eq!(
        on_frame(&mut table, bare(RelKind::Syn, 3)),
        Action::Accept { stream_id: 3, additional_info: None }
    );
}

#[test]
fn syn_payload_is_read_lossily() {
    let mut table = ConnTable::new();
    assert_eq!(
        on_frame(&mut table, rel(RelKind::Syn, 3, 0, &[b'a', 0xFF, b'b'])),
        Action::Accept { stream_id: 3, additional_info: Some("a\u{FFFD}b".to_string()) }
    );
    assert_eq!(read_info(&[0xC3, 0xA9]), Some("é".to_string()));
    assert_eq!(read_info(&[0xC3]), Some("\u{FFFD}".to_string()));
    assert_eq!(read_info(&[]), None);
}

#[test]
fn additional_info_is_none_for_empty_text() {
    assert_eq!(additional_info(String::new()), None);
    assert_eq!(additional_info(" ".to_string()), Some(" ".to_string()));
    assert_eq!(additional_info("edge".to_string()), Some("edge".to_string()));
}

#[test]
fn info_is_written_as_utf8() {
    assert_eq!(write_info(&None), Vec::<u8>::new());
    assert_eq!(write_info(&Some(String::new())), Vec::<u8>::new());
    assert_eq!(write_info(&Some("edge".to_string())), b"edge".to_vec());
    assert_eq!(write_info(&Some("é".to_string())), vec![0xC3, 0xA9]);
}

#[test]
fn frame_for_unknown_stream_is_reset() {
    let mut table = ConnTable::new();
    assert_eq!(
        multiplex(&mut table, Event::Inbound(rel(RelKind::Data, 7, 12, b"abc"))),
        Action::Send(Message::Rel { kind: RelKind::Rst, stream_id: 7, seqno: 0, payload: vec![] })
    );
    assert_eq!(table.len(), 0);
    for kind in [RelKind::SynAck, RelKind::Data, RelKind::DataAck, RelKind::Fin, RelKind::FinAck] {
        assert_eq!(
            on_frame(&mut table, rel(kind, 7, 1, b"x")),
            Action::Send(bare(RelKind::Rst, 7))
        );
    }
    assert_eq!(table.len(), 0);
}

#[test]
fn reset_for_unknown_stream_is_dropped() {
    let mut table = ConnTable::new();
    table.set_stream(8);
    assert_eq!(
        multiplex(&mut table, Event::Inbound(rel(RelKind::Rst, 7, 3, b"abc"))),
        Action::Nothing
    );
    assert_eq!(table.len(), 1);
}

#[test]
fn frame_for_live_stream_is_forwarded() {
    let mut table = ConnTable::new();
    table.set_stream(7);
    for kind in [
        RelKind::SynAck,
        RelKind::Data,
        RelKind::DataAck,
        RelKind::Fin,
        RelKind::FinAck,
        RelKind::Rst,
    ] {
        let frame = rel(kind, 7, 99, b"payload");
        assert_eq!(
            multiplex(&mut table, Event::Inbound(frame.clone())),
            Action::Forward { stream_id: 7, frame }
        );
    }
    assert_eq!(table.len(), 1);
    assert!(table.get_stream(7));
}

#[test]
fn unreliable_payload_is_delivered() {
    let mut table = ConnTable::new();
    assert_eq!(
        multiplex(&mut table, Event::Inbound(Message::Urel(vec![1, 2, 3]))),
        Action::Deliver(vec![1, 2, 3])
    );
    assert_eq!(table.len(), 0);
}

#[test]
fn outbound_frame_is_sent() {
    let mut table = ConnTable::new();
    let frame = rel(RelKind::Data, 5, 17, b"out");
    assert_eq!(multiplex(&mut table, Event::Outbound(frame.clone())), Action::Send(frame));
    let datagram = Message::Urel(vec![4, 5]);
    assert_eq!(multiplex(&mut table, Event::Outbound(datagram.clone())), Action::Send(datagram));
    assert_eq!(table.len(), 0);
}

#[test]
fn death_removes_exactly_that_stream() {
    let mut table = ConnTable::new();
    table.set_stream(1);
    table.set_stream(2);
    table.set_stream(3);
    assert_eq!(multiplex(&mut table, Event::Dead(2)), Action::Nothing);
    assert!(table.get_stream(1));
    assert!(!table.get_stream(2));
    assert!(table.get_stream(3));
    assert_eq!(table.len(), 2);
    assert_eq!(multiplex(&mut table, Event::Dead(2)), Action::Nothing);
    assert_eq!(table.len(), 2);
    // A frame for the dead stream is now reset, and a new opening frame
    // creates it again.
    assert_eq!(
        on_frame(&mut table, rel(RelKind::Data, 2, 0, b"")),
        Action::Send(bare(RelKind::Rst, 2))
    );
    assert_eq!(
        on_frame(&mut table, bare(RelKind::Syn, 2)),
        Action::Accept { stream_id: 2, additional_info: None }
    );
}

#[test]
fn table_follows_the_streams() {
    let mut table = ConnTable::new();
    let mut live: Vec<u16> = Vec::new();
    let events = [
        Event::Inbound(bare(RelKind::Syn, 10)),
        Event::Open(None),
        Event::Inbound(bare(RelKind::Syn, 10)),
        Event::Inbound(bare(RelKind::Data, 11)),
        Event::Open(Some("a".to_string())),
        Event::Dead(10),
        Event::Outbound(bare(RelKind::Fin, 10)),
        Event::Inbound(bare(RelKind::Syn, 12)),
        Event::Dead(500),
    ];
    for event in events {
        let dead = match &event {
            Event::Dead(stream_id) => Some(*stream_id),
            _ => None,
        };
        match multiplex(&mut table, event) {
            Action::Accept { stream_id, .. } | Action::Open { stream_id, .. } => {
                assert!(!live.contains(&stream_id));
                live.push(stream_id);
            }
            _ => {}
        }
        if let Some(stream_id) = dead {
            live.retain(|id| *id != stream_id);
        }
        assert_eq!(table.len(), live.len());
        for id in &live {
            assert!(table.get_stream(*id));
        }
    }
    assert_eq!(live.len(), 3);
}

#[test]
fn table_basics() {
    let mut table = ConnTable::new();
    assert_eq!(table.len(), 0);
    assert!(!table.get_stream(0));
    table.set_stream(0);
    table.set_stream(65535);
    table.set_stream(0);
    assert_eq!(table.len(), 2);
    assert!(table.get_stream(0));
    assert!(table.get_stream(65535));
    assert_eq!(table.pick_id(0), None);
    assert_eq!(table.pick_id(1), Some(1));
    table.del_stream(0);
    table.del_stream(4);
    assert_eq!(table.len(), 1);
    assert_eq!(table.pick_id(0), Some(0));
}

#[test]
fn find_id_finds_the_free_ids() {
    let mut table = ConnTable::new();
    for id in 0..=65535u16 {
        if id != 1234 && id != 40000 {
            table.set_stream(id);
        }
    }
    assert_eq!(table.len(), 65534);
    let id = table.find_id().unwrap();
    assert!(id == 1234 || id == 40000);
}

#[test]
fn an_exhausted_table_opens_nothing() {
    let mut table = ConnTable::new();
    for id in 0..65535u16 {
        table.set_stream(id);
    }
    assert_eq!(table.len(), 65535);
    assert_eq!(table.find_id(), None);
    assert_eq!(multiplex(&mut table, Event::Open(Some("late".to_string()))), Action::Nothing);
    assert_eq!(table.len(), 65535);
    assert!(!table.get_stream(65535));
}

#[test]
fn opening_frame_is_accepted_by_the_peer() {
    for info in [None, Some("edge".to_string()), Some("grüße, 世界".to_string())] {
        let mut table = ConnTable::new();
        let mut peer = ConnTable::default();
        peer.set_stream(1);
        let syn = match on_open(&mut table, info.clone(), Some(2)) {
            Action::Open { stream_id: 2, additional_info, syn } => {
                assert_eq!(additional_info, info);
                syn
            }
            other => panic!("unexpected action {:?}", other),
        };
        assert_eq!(
            multiplex(&mut peer, Event::Inbound(syn)),
            Action::Accept { stream_id: 2, additional_info: info }
        );
        assert!(peer.get_stream(2));
    }
    // Empty text says nothing.
    let mut table = ConnTable::new();
    let mut peer = ConnTable::new();
    match on_open(&mut table, Some(String::new()), Some(2)) {
        Action::Open { syn, .. } => assert_eq!(
            on_frame(&mut peer, syn),
            Action::Accept { stream_id: 2, additional_info: None }
        ),
        other => panic!("unexpected action {:?}", other),
    }
}

#[test]
fn find_id_on_an_empty_table_finds_an_id() {
    let table = ConnTable::new();
    for _ in 0..100 {
        assert!(table.find_id().is_some());
    }
    assert_eq!(table.len(), 0);
}
