//! What the multiplexer does on each event.
//!
//! The multiplexer is one task that waits for the first of four events,
//! acts on it, and waits again. Here stands what it decides: which streams
//! the event adds to or takes from the table, and what is to be done
//! outside. Receiving the event and carrying out the action are the
//! caller's part.

use super::message::{bare, Frame, Message, RelKind};
use super::table::{ConnTable, EXHAUSTED};
use super::text::{
    chars_of, info_of, lemma_info_round_trip, payload_of, read_info, text_of, write_info,
};
use vstd::prelude::*;

verus! {

/// What the multiplexer waits for.
#[derive(Clone, Debug, PartialEq, Eq)]
pub enum Event {
    /// A frame arrived from the session.
    Inbound(Message),
    /// A stream has a frame to send.
    Outbound(Message),
    /// A stream is to be opened, with what is to be said of it.
    Open(Option<String>),
    /// The stream with this id has ended.
    Dead(u16),
}

/// What is to be done outside the table.
#[derive(Clone, Debug, PartialEq, Eq)]
pub enum Action {
    /// Hand the payload to the reader of unreliable datagrams, and drop it
    /// where the reader is not ready.
    Deliver(Vec<u8>),
    /// Put the frame on the session.
    Send(Message),
    /// Create the stream as one whose opening frame was received, and hand
    /// it to whoever accepts streams.
    Accept { stream_id: u16, additional_info: Option<String> },
    /// Hand the frame to the stream.
    Forward { stream_id: u16, frame: Message },
    /// Create the stream as one whose opening frame is sent, and send
    /// that frame.
    Open { stream_id: u16, additional_info: Option<String>, syn: Message },
    /// Nothing is to be done.
    Nothing,
}

/// An event as a mathematical value.
#[verifier::ext_equal]
pub enum Occurrence {
    Inbound(Frame),
    Outbound(Frame),
    Open(Option<Seq<char>>),
    Dead(u16),
}

/// An action as a mathematical value.
#[verifier::ext_equal]
pub enum Decision {
    Deliver(Seq<u8>),
    Send(Frame),
    Accept { stream_id: u16, additional_info: Option<Seq<char>> },
    Forward { stream_id: u16, frame: Frame },
    Open { stream_id: u16, additional_info: Option<Seq<char>>, syn: Frame },
    Nothing,
}

impl View for Event {
    type V = Occurrence;

    open spec fn view(&self) -> Occurrence {
        match *self {
            Event::Inbound(frame) => Occurrence::Inbound(frame@),
            Event::Outbound(frame) => Occurrence::Outbound(frame@),
            Event::Open(info) => Occurrence::Open(chars_of(info)),
            Event::Dead(stream_id) => Occurrence::Dead(stream_id),
        }
    }
}

impl View for Action {
    type V = Decision;

    open spec fn view(&self) -> Decision {
        match *self {
            Action::Deliver(payload) => Decision::Deliver(payload@),
            Action::Send(frame) => Decision::Send(frame@),
            Action::Accept { stream_id, additional_info } => Decision::Accept {
                stream_id,
                additional_info: chars_of(additional_info),
            },
            Action::Forward { stream_id, frame } => Decision::Forward { stream_id, frame: frame@ },
            Action::Open { stream_id, additional_info, syn } => Decision::Open {
                stream_id,
                additional_info: chars_of(additional_info),
                syn: syn@,
            },
            Action::Nothing => Decision::Nothing,
        }
    }
}

/// The table and the decision after a frame arrived.
///
/// An unreliable datagram is delivered. An opening frame for a live stream
/// is answered again; for any other id it creates the stream. Any other
/// frame goes to its stream where that is live; else it is answered with a
/// reset, but for a reset, which is dropped.
pub open spec fn on_frame_spec(ids: Set<u16>, frame: Frame) -> (Set<u16>, Decision) {
    match frame {
        Frame::Urel(payload) => (ids, Decision::Deliver(payload)),
        Frame::Rel { kind, stream_id, seqno, payload } => {
            if kind == RelKind::Syn {
                if ids.contains(stream_id) {
                    (ids, Decision::Send(bare(RelKind::SynAck, stream_id)))
                } else {
                    (
                        ids.insert(stream_id),
                        Decision::Accept {
                            stream_id,
                            additional_info: info_of(text_of(payload)),
                        },
                    )
                }
            } else if ids.contains(stream_id) {
                (ids, Decision::Forward { stream_id, frame })
            } else if kind == RelKind::Rst {
                (ids, Decision::Nothing)
            } else {
                (ids, Decision::Send(bare(RelKind::Rst, stream_id)))
            }
        },
    }
}

/// The frame that opens the stream `stream_id` with `info`.
pub open spec fn syn_frame(stream_id: u16, info: Option<Seq<char>>) -> Frame {
    Frame::Rel { kind: RelKind::Syn, stream_id, seqno: 0, payload: payload_of(info) }
}

/// The table and the decision after a request to open a stream, for which
/// the id `id` was found, or none.
pub open spec fn on_open_spec(ids: Set<u16>, info: Option<Seq<char>>, id: Option<u16>) -> (
    Set<u16>,
    Decision,
) {
    match id {
        Some(stream_id) => (
            ids.insert(stream_id),
            Decision::Open { stream_id, additional_info: info, syn: syn_frame(stream_id, info) },
        ),
        None => (ids, Decision::Nothing),
    }
}

/// The table and the decision after the event `event`. `id` is the id
/// found for the stream that the event asks to open, if it asks for one.
pub open spec fn step(ids: Set<u16>, event: Occurrence, id: Option<u16>) -> (Set<u16>, Decision) {
    match event {
        Occurrence::Inbound(frame) => on_frame_spec(ids, frame),
        Occurrence::Outbound(frame) => (ids, Decision::Send(frame)),
        Occurrence::Open(info) => on_open_spec(ids, info, id),
        Occurrence::Dead(stream_id) => (ids.remove(stream_id), Decision::Nothing),
    }
}

/// Whether `id` can be the outcome of a search for a free id in `ids`: an
/// id that no live stream has, and none once the table is exhausted.
pub open spec fn found_in(ids: Set<u16>, id: Option<u16>) -> bool {
    &&& id matches Some(stream_id) ==> !ids.contains(stream_id)
    &&& ids.len() >= EXHAUSTED ==> id is None
}

/// The stream that a decision creates, if it creates one.
pub open spec fn created(decision: Decision) -> Option<u16> {
    match decision {
        Decision::Accept { stream_id, .. } => Some(stream_id),
        Decision::Open { stream_id, .. } => Some(stream_id),
        _ => None,
    }
}

/// The table follows the streams: an entry is added exactly when the
/// decision creates a stream, which then has an id that no live stream
/// had; an entry is removed exactly when a stream is reported dead, and it
/// is the entry of that stream; nothing else changes the table.
pub proof fn lemma_table_follows_streams(ids: Set<u16>, event: Occurrence, id: Option<u16>)
    requires
        found_in(ids, id),
    ensures
        created(step(ids, event, id).1) matches Some(stream_id) ==> !ids.contains(stream_id)
            && step(ids, event, id).0 == ids.insert(stream_id),
        event matches Occurrence::Dead(stream_id) ==> step(ids, event, id).0 == ids.remove(
            stream_id,
        ),
        created(step(ids, event, id).1) is None && !(event is Dead) ==> step(ids, event, id).0
            == ids,
{
}

/// The table after the events `events`, each with the id found for the
/// stream that it asks to open, if it asks for one.
pub open spec fn table_after(ids: Set<u16>, events: Seq<(Occurrence, Option<u16>)>) -> Set<u16>
    decreases events.len(),
{
    if events.len() == 0 {
        ids
    } else {
        step(table_after(ids, events.drop_last()), events.last().0, events.last().1).0
    }
}

/// The streams that are live after the events `events`, where `live` were
/// live before: a stream is live from the decision that creates it until
/// it is reported dead.
pub open spec fn live_after(live: Set<u16>, events: Seq<(Occurrence, Option<u16>)>) -> Set<u16>
    decreases events.len(),
{
    if events.len() == 0 {
        live
    } else {
        let before = live_after(live, events.drop_last());
        let decision = step(
            table_after(live, events.drop_last()),
            events.last().0,
            events.last().1,
        ).1;
        let with_created = match created(decision) {
            Some(stream_id) => before.insert(stream_id),
            None => before,
        };
        match events.last().0 {
            Occurrence::Dead(stream_id) => with_created.remove(stream_id),
            _ => with_created,
        }
    }
}

/// After any events, the table holds exactly the streams that are live,
/// where it held them before.
pub proof fn lemma_table_is_live(live: Set<u16>, events: Seq<(Occurrence, Option<u16>)>)
    requires
        forall|j: int|
            0 <= j < events.len() ==> found_in(
                table_after(live, events.take(j)),
                (#[trigger] events[j]).1,
            ),
    ensures
        table_after(live, events) == live_after(live, events),
    decreases events.len(),
{
    if events.len() > 0 {
        let earlier = events.drop_last();
        assert forall|j: int| 0 <= j < earlier.len() implies found_in(
            table_after(live, earlier.take(j)),
            (#[trigger] earlier[j]).1,
        ) by {
            assert(earlier.take(j) =~= events.take(j));
        }
        lemma_table_is_live(live, earlier);
        lemma_table_follows_streams(table_after(live, earlier), events.last().0, events.last().1);
    }
}

/// The table and the decisions after opening frames for the stream
/// `stream_id` arrived, one for each sequence number and payload of
/// `frames`.
pub open spec fn after_syns(ids: Set<u16>, stream_id: u16, frames: Seq<(u64, Seq<u8>)>) -> (
    Set<u16>,
    Seq<Decision>,
)
    decreases frames.len(),
{
    if frames.len() == 0 {
        (ids, Seq::empty())
    } else {
        let before = after_syns(ids, stream_id, frames.drop_last());
        let last = on_frame_spec(
            before.0,
            Frame::Rel {
                kind: RelKind::Syn,
                stream_id,
                seqno: frames.last().0,
                payload: frames.last().1,
            },
        );
        (last.0, before.1.push(last.1))
    }
}

/// Opening frames are idempotent: of any number of opening frames for one
/// stream, the first creates the stream, unless it is live already, and
/// every further one is answered with a bare acknowledgement and creates
/// nothing.
pub proof fn lemma_syn_idempotent(ids: Set<u16>, stream_id: u16, frames: Seq<(u64, Seq<u8>)>)
    requires
        frames.len() > 0,
    ensures
        ({
            let after = after_syns(ids, stream_id, frames);
            &&& after.0 == ids.insert(stream_id)
            &&& after.1.len() == frames.len()
            &&& after.1[0] == if ids.contains(stream_id) {
                Decision::Send(bare(RelKind::SynAck, stream_id))
            } else {
                Decision::Accept { stream_id, additional_info: info_of(text_of(frames[0].1)) }
            }
            &&& forall|j: int|
                0 < j < frames.len() ==> #[trigger] after.1[j] == Decision::Send(
                    bare(RelKind::SynAck, stream_id),
                )
        }),
    decreases frames.len(),
{
    if ids.contains(stream_id) {
        assert(ids.insert(stream_id) =~= ids);
    }
    if frames.len() > 1 {
        let earlier = frames.drop_last();
        lemma_syn_idempotent(ids, stream_id, earlier);
        assert(earlier[0] == frames[0]);
        assert(after_syns(ids, stream_id, earlier).0.contains(stream_id));
    } else {
        assert(frames.drop_last().len() == 0);
    }
}

/// The frame that opens a stream on one side creates it on the other,
/// where no stream with its id is live, with the same said of it; only
/// empty text says nothing.
pub proof fn lemma_open_is_accepted(
    ids: Set<u16>,
    peer_ids: Set<u16>,
    info: Option<Seq<char>>,
    stream_id: u16,
)
    requires
        !peer_ids.contains(stream_id),
    ensures
        on_open_spec(ids, info, Some(stream_id)).1 == (Decision::Open {
            stream_id,
            additional_info: info,
            syn: syn_frame(stream_id, info),
        }),
        on_frame_spec(peer_ids, syn_frame(stream_id, info)) == (
            peer_ids.insert(stream_id),
            Decision::Accept {
                stream_id,
                additional_info: if info == Some(Seq::<char>::empty()) {
                    None
                } else {
                    info
                },
            },
        ),
{
    lemma_info_round_trip(info);
}

/// A frame for a stream that is not live, other than an opening frame,
/// changes nothing in the table; it is answered with one bare reset,
/// unless it is a reset itself, which is answered with nothing.
pub proof fn lemma_rst_suppression(
    ids: Set<u16>,
    kind: RelKind,
    stream_id: u16,
    seqno: u64,
    payload: Seq<u8>,
)
    requires
        kind != RelKind::Syn,
        !ids.contains(stream_id),
    ensures
        on_frame_spec(ids, Frame::Rel { kind, stream_id, seqno, payload }) == (
            ids,
            if kind == RelKind::Rst {
                Decision::Nothing
            } else {
                Decision::Send(bare(RelKind::Rst, stream_id))
            },
        ),
{
}

/// Decides on a frame that arrived from the session.
pub fn on_frame(table: &mut ConnTable, frame: Message) -> (action: Action)
    ensures
        (final(table)@, action@) == on_frame_spec(old(table)@, frame@),
{
    match frame {
        Message::Urel(payload) => Action::Deliver(payload),
        Message::Rel { kind, stream_id, seqno, payload } => {
            let live = table.get_stream(stream_id);
            match kind {
                RelKind::Syn => {
                    if live {
                        Action::Send(Message::bare(RelKind::SynAck, stream_id))
                    } else {
                        let additional_info = read_info(payload.as_slice());
                        table.set_stream(stream_id);
                        Action::Accept { stream_id, additional_info }
                    }
                },
                _ => {
                    if live {
                        Action::Forward {
                            stream_id,
                            frame: Message::Rel { kind, stream_id, seqno, payload },
                        }
                    } else {
                        match kind {
                            RelKind::Rst => Action::Nothing,
                            _ => Action::Send(Message::bare(RelKind::Rst, stream_id)),
                        }
                    }
                },
            }
        },
    }
}

/// Decides on a request to open a stream with `additional_info`, for which
/// the search for a free id gave `id`.
pub fn on_open(table: &mut ConnTable, additional_info: Option<String>, id: Option<u16>) -> (action:
    Action)
    ensures
        (final(table)@, action@) == on_open_spec(old(table)@, chars_of(additional_info), id),
{
    match id {
        Some(stream_id) => {
            let payload = write_info(&additional_info);
            table.set_stream(stream_id);
            Action::Open {
                stream_id,
                additional_info,
                syn: Message::Rel { kind: RelKind::Syn, stream_id, seqno: 0, payload },
            }
        },
        None => Action::Nothing,
    }
}

/// Decides on the event `event`: brings the table up to date and says
/// what is to be done outside. For a request to open a stream it searches
/// a free id first, and the decision is that for the outcome of the
/// search.
pub fn multiplex(table: &mut ConnTable, event: Event) -> (action: Action)
    ensures
        exists|id: Option<u16>|
            found_in(old(table)@, id) && #[trigger] step(old(table)@, event@, id) == (
                final(table)@,
                action@,
            ),
{
    match event {
        Event::Inbound(frame) => on_frame(table, frame),
        Event::Outbound(frame) => Action::Send(frame),
        Event::Open(additional_info) => {
            let id = table.find_id();
            let action = on_open(table, additional_info, id);
            assert(step(old(table)@, event@, id) == (table@, action@));
            action
        },
        Event::Dead(stream_id) => {
            table.del_stream(stream_id);
            let action = Action::Nothing;
            assert(step(old(table)@, event@, None) == (table@, action@));
            action
        },
    }
}

} // verus!
