//! One connection to a PLC: which step follows which, and what comes out in the end.
//!
//! The client decides; its owner performs. Opening a connection and running a request are
//! conversations: the owner reports an event, the client answers with the next action, until the
//! action is to finish.
use vstd::prelude::*;

use crate::address::SocketAddr;
use crate::error::{self, SlmpError, SlmpResult};
use crate::frame;
use crate::props::{self, SLMP4EConnectionProps};

verus! {

/// The size of the buffer that a response is received into.
pub const BUFSIZE: usize = 2048;

/// How long an attempt to connect may take, in nanoseconds.
pub const CONNECT_TIMEOUT: u128 = 1_000_000_000;

/// How long sending a request may take unless set otherwise, in nanoseconds.
pub const DEFAULT_SEND_TIMEOUT: u128 = 1_000_000_000;

/// How long waiting for a response may take unless set otherwise, in nanoseconds.
pub const DEFAULT_RECV_TIMEOUT: u128 = 1_000_000_000;

/// How a piece of I/O under a deadline ended.
#[derive(Debug)]
pub enum IoStep<T> {
    /// The deadline elapsed first.
    Elapsed,
    /// The operation failed.
    Failed(std::io::Error),
    /// The operation gave a value.
    Done(T),
}

/// What has happened in a request.
#[derive(Debug)]
pub enum RequestEvent {
    /// The request is wanted; a stream is there or not.
    Start { connected: bool },
    /// Sending has ended.
    Sent(IoStep<()>),
    /// Receiving has ended, with the bytes of one read; none are the end of the stream.
    Received(IoStep<Vec<u8>>),
}

/// What to do next in a request.
#[derive(Debug)]
pub enum RequestAction {
    /// Send this frame, within so many nanoseconds.
    Send { frame: Vec<u8>, within: u128 },
    /// Receive the response, within so many nanoseconds.
    Receive { within: u128 },
    /// The request is over; on success this is the payload of the response.
    Finish(SlmpResult<Vec<u8>>),
}

/// What has happened while connecting.
#[derive(Debug)]
pub enum ConnectEvent {
    /// A connection is wanted.
    Start,
    /// The stream of an earlier connection, if there was one, is closed.
    Closed,
    /// The name of the host has been looked up.
    Resolved(core::result::Result<Vec<SocketAddr>, std::io::Error>),
    /// The attempt to connect has ended.
    Dialed(IoStep<()>),
}

/// What to do next while connecting.
#[derive(Debug)]
pub enum ConnectAction {
    /// Close the stream of an earlier connection.
    Close,
    /// Look up the name of the host.
    Resolve,
    /// Connect to this address, within so many nanoseconds.
    Dial { addr: SocketAddr, within: u128 },
    /// Connecting is over; on success the new stream is in use.
    Finish(SlmpResult<()>),
}

/// What a piece of I/O under a deadline means to the caller.
pub open spec fn step_result<T>(step: IoStep<T>) -> SlmpResult<T> {
    match step {
        IoStep::Elapsed => Err(SlmpError::Timeout),
        IoStep::Failed(e) => Err(error::from_io(e)),
        IoStep::Done(value) => Ok(value),
    }
}

/// What a received frame gives the caller: the payload behind the end code, or the reason why
/// there is none.
pub open spec fn reply(props: SLMP4EConnectionProps, data: Seq<u8>) -> SlmpResult<Seq<u8>> {
    match frame::response_verdict(props, data) {
        Ok(_) => Ok(data.skip(frame::MIN_FRAME_LEN as int)),
        Err(e) => Err(e),
    }
}

/// The result of a request in terms of the bytes that it holds.
pub open spec fn payload_of(result: SlmpResult<Vec<u8>>) -> SlmpResult<Seq<u8>> {
    match result {
        Ok(payload) => Ok(payload@),
        Err(e) => Err(e),
    }
}

/// Whether `action` is the answer of `client` to `event` in a request that carries `command`.
///
/// A read without bytes is the end of the stream, which is a failure of the transport and not a
/// corrupt frame.
pub open spec fn request_step(
    client: SLMPClient,
    command: Seq<u8>,
    event: RequestEvent,
    action: RequestAction,
) -> bool {
    match event {
        RequestEvent::Start { connected } => if connected {
            action matches RequestAction::Send { frame, within } && frame@ == props::request_frame(
                client.props(),
                command,
            ) && within == client.send_limit()
        } else {
            action == RequestAction::Finish(Err(SlmpError::NotConnected))
        },
        RequestEvent::Sent(step) => match step_result(step) {
            Ok(_) => action == (RequestAction::Receive { within: client.recv_limit() }),
            Err(e) => action == RequestAction::Finish(Err(e)),
        },
        RequestEvent::Received(step) => match step_result(step) {
            Ok(data) => if data@.len() == 0 {
                action matches RequestAction::Finish(Err(SlmpError::Io(e)))
                    && error::is_end_of_stream(e)
            } else {
                action matches RequestAction::Finish(result) && payload_of(result) == reply(
                    client.props(),
                    data@,
                )
            },
            Err(e) => action == RequestAction::Finish(Err(e)),
        },
    }
}

/// Whether `action` is the answer to `event` while connecting.
pub open spec fn connect_step(event: ConnectEvent, action: ConnectAction) -> bool {
    match event {
        ConnectEvent::Start => action is Close,
        ConnectEvent::Closed => action is Resolve,
        ConnectEvent::Resolved(Ok(addresses)) => if addresses@.len() > 0 {
            action == (ConnectAction::Dial { addr: addresses@[0], within: CONNECT_TIMEOUT })
        } else {
            action matches ConnectAction::Finish(Err(SlmpError::Io(e))) && error::is_resolve_failed(
                e,
            )
        },
        ConnectEvent::Resolved(Err(e)) => action == ConnectAction::Finish(Err(error::from_io(e))),
        ConnectEvent::Dialed(step) => action == ConnectAction::Finish(step_result(step)),
    }
}

/// Translates the end of a piece of I/O into the outcome of the operation.
pub fn settle<T>(step: IoStep<T>) -> (result: SlmpResult<T>)
    ensures
        result == step_result(step),
{
    match step {
        IoStep::Elapsed => Err(SlmpError::Timeout),
        IoStep::Failed(e) => Err(SlmpError::from(e)),
        IoStep::Done(value) => Ok(value),
    }
}

/// A client of one PLC.
#[derive(Clone, Debug)]
pub struct SLMPClient {
    connection_props: SLMP4EConnectionProps,
    send_timeout: u128,
    recv_timeout: u128,
}

impl SLMPClient {
    /// How the PLC is reached.
    pub closed spec fn props(&self) -> SLMP4EConnectionProps {
        self.connection_props
    }

    /// How long sending may take, in nanoseconds.
    pub closed spec fn send_limit(&self) -> u128 {
        self.send_timeout
    }

    /// How long receiving may take, in nanoseconds.
    pub closed spec fn recv_limit(&self) -> u128 {
        self.recv_timeout
    }

    /// A client with the default timeouts.
    pub fn new(connection_props: SLMP4EConnectionProps) -> (client: Self)
        ensures
            client.props() == connection_props,
            client.send_limit() == DEFAULT_SEND_TIMEOUT,
            client.recv_limit() == DEFAULT_RECV_TIMEOUT,
    {
        SLMPClient {
            connection_props,
            send_timeout: DEFAULT_SEND_TIMEOUT,
            recv_timeout: DEFAULT_RECV_TIMEOUT,
        }
    }

    /// How the PLC is reached.
    pub fn connection_props(&self) -> (props: &SLMP4EConnectionProps)
        ensures
            *props == self.props(),
    {
        &self.connection_props
    }

    /// How long sending may take, in nanoseconds.
    pub fn send_timeout(&self) -> (nanos: u128)
        ensures
            nanos == self.send_limit(),
    {
        self.send_timeout
    }

    /// How long receiving may take, in nanoseconds.
    pub fn recv_timeout(&self) -> (nanos: u128)
        ensures
            nanos == self.recv_limit(),
    {
        self.recv_timeout
    }

    /// Sets how long sending may take, in nanoseconds.
    pub fn set_send_timeout(&mut self, nanos: u128)
        ensures
            final(self).send_limit() == nanos,
            final(self).recv_limit() == old(self).recv_limit(),
            final(self).props() == old(self).props(),
    {
        self.send_timeout = nanos;
    }

    /// Sets how long receiving may take, in nanoseconds.
    pub fn set_recv_timeout(&mut self, nanos: u128)
        ensures
            final(self).recv_limit() == nanos,
            final(self).send_limit() == old(self).send_limit(),
            final(self).props() == old(self).props(),
    {
        self.recv_timeout = nanos;
    }

    /// Checks a response frame: first its length, then its end code, then its fixed header.
    pub fn validate_response(&self, data: &[u8]) -> (verdict: SlmpResult<()>)
        ensures
            verdict == frame::response_verdict(self.props(), data@),
    {
        frame::check_response(&self.connection_props, data)
    }

    /// The next step of opening a connection.
    ///
    /// An earlier stream is closed first, so that a failed attempt leaves the client unconnected; see
    /// [`law_request_after_attempt`].
    pub fn connect(&self, event: ConnectEvent) -> (action: ConnectAction)
        ensures
            connect_step(event, action),
    {
        match event {
            ConnectEvent::Start => ConnectAction::Close,
            ConnectEvent::Closed => ConnectAction::Resolve,
            ConnectEvent::Resolved(Ok(addresses)) => {
                if addresses.len() > 0 {
                    ConnectAction::Dial { addr: addresses[0], within: CONNECT_TIMEOUT }
                } else {
                    ConnectAction::Finish(Err(SlmpError::Io(error::resolve_failed())))
                }
            },
            ConnectEvent::Resolved(Err(e)) => ConnectAction::Finish(Err(SlmpError::from(e))),
            ConnectEvent::Dialed(step) => ConnectAction::Finish(settle(step)),
        }
    }

    /// The next step of a request that carries the command `msg`.
    pub fn request_response(&self, msg: &[u8], event: RequestEvent) -> (action: RequestAction)
        requires
            msg@.len() + props::SUBHEADER_LEN <= usize::MAX,
        ensures
            request_step(*self, msg@, event, action),
    {
        match event {
            RequestEvent::Start { connected } => {
                if connected {
                    RequestAction::Send {
                        frame: self.request_frame(msg),
                        within: self.send_timeout,
                    }
                } else {
                    RequestAction::Finish(Err(SlmpError::NotConnected))
                }
            },
            RequestEvent::Sent(step) => match settle(step) {
                Ok(_) => RequestAction::Receive { within: self.recv_timeout },
                Err(e) => RequestAction::Finish(Err(e)),
            },
            RequestEvent::Received(step) => match settle(step) {
                Ok(data) => {
                    if data.len() == 0 {
                        RequestAction::Finish(Err(SlmpError::Io(error::end_of_stream())))
                    } else {
                        RequestAction::Finish(self.read_reply(data))
                    }
                },
                Err(e) => RequestAction::Finish(Err(e)),
            },
        }
    }

    /// The request frame that carries a command.
    fn request_frame(&self, msg: &[u8]) -> (bytes: Vec<u8>)
        requires
            msg@.len() + props::SUBHEADER_LEN <= usize::MAX,
        ensures
            bytes@ == props::request_frame(self.props(), msg@),
    {
        let header: [u8; props::SUBHEADER_LEN] = props::create_subheader(
            &self.connection_props,
            msg.len(),
        );
        let mut bytes: Vec<u8> = Vec::with_capacity(props::SUBHEADER_LEN + msg.len());
        bytes.extend_from_slice(&header);
        bytes.extend_from_slice(msg);
        assert(bytes@ =~= props::request_frame(self.props(), msg@));
        bytes
    }

    /// The payload of a received frame.
    fn read_reply(&self, data: Vec<u8>) -> (result: SlmpResult<Vec<u8>>)
        ensures
            payload_of(result) == reply(self.props(), data@),
    {
        match self.validate_response(data.as_slice()) {
            Ok(_) => {
                let payload: Vec<u8> = vstd::slice::slice_to_vec(
                    vstd::slice::slice_subrange(
                        data.as_slice(),
                        frame::MIN_FRAME_LEN,
                        data.len(),
                    ),
                );
                assert(payload@ =~= data@.skip(frame::MIN_FRAME_LEN as int));
                Ok(payload)
            },
            Err(e) => Err(e),
        }
    }
}

/// Whether `event` reports that `action` has been performed.
pub open spec fn reports(action: ConnectAction, event: ConnectEvent) -> bool {
    match action {
        ConnectAction::Close => event is Closed,
        ConnectAction::Resolve => event is Resolved,
        ConnectAction::Dial { .. } => event is Dialed,
        ConnectAction::Finish(_) => false,
    }
}

/// Whether `events` and the answers `actions` are one whole attempt to connect.
pub open spec fn is_attempt(events: Seq<ConnectEvent>, actions: Seq<ConnectAction>) -> bool {
    &&& events.len() == actions.len() > 0
    &&& events[0] is Start
    &&& forall|i: int| 0 <= i < events.len() ==> connect_step(#[trigger] events[i], actions[i])
    &&& forall|i: int| 0 < i < events.len() ==> reports(actions[i - 1], #[trigger] events[i])
    &&& actions.last() is Finish
}

/// Whether there is a stream once `action` has been performed, where `held` says whether there was
/// one before.
///
/// Closing gives the stream up, and a success puts the new stream in its place.
pub open spec fn holds_stream(held: bool, action: ConnectAction) -> bool {
    match action {
        ConnectAction::Close => false,
        ConnectAction::Finish(Ok(_)) => true,
        _ => held,
    }
}

/// Whether there is a stream once `actions` have been performed one after the other.
pub open spec fn holds_stream_after(held: bool, actions: Seq<ConnectAction>) -> bool
    decreases actions.len(),
{
    if actions.len() == 0 {
        held
    } else {
        holds_stream(holds_stream_after(held, actions.drop_last()), actions.last())
    }
}

/// What an attempt to connect consists of: the earlier stream is closed, the name is looked up, and
/// the first address is dialed, if there is one. The attempt succeeds exactly when the dialing does.
pub proof fn law_course_of_an_attempt(events: Seq<ConnectEvent>, actions: Seq<ConnectAction>)
    requires
        is_attempt(events, actions),
    ensures
        3 <= actions.len() <= 4,
        actions[0] is Close,
        actions[1] is Resolve,
        events[2] matches ConnectEvent::Resolved(Ok(found)) ==> found@.len() > 0 ==> {
            &&& actions.len() == 4
            &&& actions[2] == (ConnectAction::Dial { addr: found@[0], within: 1_000_000_000 })
            &&& events[3] is Dialed
            &&& actions[3] == ConnectAction::Finish(step_result(events[3]->Dialed_0))
        },
        actions.last()->Finish_0 is Ok <==> actions.len() == 4 && events[3]->Dialed_0 is Done,
{
    assert(connect_step(events[0], actions[0]));
    assert(reports(actions[0], events[1]));
    assert(connect_step(events[1], actions[1]));
    assert(reports(actions[1], events[2]));
    assert(connect_step(events[2], actions[2]));
    if actions.len() > 3 {
        assert(reports(actions[2], events[3]));
        assert(connect_step(events[3], actions[3]));
        if actions.len() > 4 {
            assert(reports(actions[3], events[4]));
        }
    }
}

/// After an attempt to connect there is a stream exactly when the attempt succeeded, whether there
/// was one before or not. So the next request is sent after a success, and after a failure it ends
/// at once: the client is not connected.
pub proof fn law_request_after_attempt(
    held: bool,
    events: Seq<ConnectEvent>,
    actions: Seq<ConnectAction>,
    client: SLMPClient,
    command: Seq<u8>,
    next: RequestAction,
)
    requires
        is_attempt(events, actions),
        request_step(
            client,
            command,
            RequestEvent::Start { connected: holds_stream_after(held, actions) },
            next,
        ),
    ensures
        holds_stream_after(held, actions) <==> actions.last()->Finish_0 is Ok,
        actions.last()->Finish_0 is Ok ==> next is Send && next->frame@ == props::request_frame(
            client.props(),
            command,
        ),
        actions.last()->Finish_0 is Err ==> next == RequestAction::Finish(
            Err(SlmpError::NotConnected),
        ),
{
    law_course_of_an_attempt(events, actions);
    reveal_with_fuel(holds_stream_after, 5);
    assert(connect_step(events[2], actions[2]));
    let all = actions;
    assert(all.drop_last().last() == all[all.len() - 2]);
    assert(all.drop_last().drop_last().last() == all[all.len() - 3]);
    if all.len() == 4 {
        assert(reports(actions[2], events[3]));
        assert(all.drop_last().drop_last().drop_last().last() == all[0]);
    }
}

/// How an attempt to connect fails: a deadline that elapses is a timeout, and a failed look-up or a
/// refused connection is carried along, unless the system itself reports a timeout or a missing
/// connection, which is then reported as that.
pub proof fn law_connect_failures(
    e: std::io::Error,
    unresolved: ConnectAction,
    refused: ConnectAction,
    elapsed: ConnectAction,
)
    requires
        connect_step(ConnectEvent::Resolved(Err(e)), unresolved),
        connect_step(ConnectEvent::Dialed(IoStep::Failed(e)), refused),
        connect_step(ConnectEvent::Dialed(IoStep::Elapsed), elapsed),
    ensures
        elapsed == ConnectAction::Finish(Err(SlmpError::Timeout)),
        !(error::io_error_kind(e) is TimedOut || error::io_error_kind(e) is NotConnected) ==> {
            &&& unresolved == ConnectAction::Finish(Err(SlmpError::Io(e)))
            &&& refused == ConnectAction::Finish(Err(SlmpError::Io(e)))
        },
        error::io_error_kind(e) is TimedOut ==> unresolved == elapsed && refused == elapsed,
        error::io_error_kind(e) is NotConnected ==> {
            &&& unresolved == ConnectAction::Finish(Err(SlmpError::NotConnected))
            &&& refused == ConnectAction::Finish(Err(SlmpError::NotConnected))
        },
{
}

/// The end of the stream in place of a response is a failure of the transport: neither a rejection
/// by the device nor a corrupt frame.
pub proof fn law_end_of_stream_is_io(
    client: SLMPClient,
    command: Seq<u8>,
    data: Vec<u8>,
    action: RequestAction,
)
    requires
        data@.len() == 0,
        request_step(client, command, RequestEvent::Received(IoStep::Done(data)), action),
    ensures
        action is Finish,
        action->Finish_0 is Err,
        action->Finish_0->Err_0 is Io,
        error::io_error_kind(action->Finish_0->Err_0->Io_0) is UnexpectedEof,
{
}

/// A request that the device refuses is answered with the end code of the refusal, and one that
/// it accepts with the payload as the device sent it.
pub proof fn law_reply_to_request(
    client: SLMPClient,
    command: Seq<u8>,
    data: Vec<u8>,
    code: u16,
    payload: Seq<u8>,
    action: RequestAction,
)
    requires
        payload.len() + 2 < 65536,
        data@ == frame::response_frame(client.props(), code, payload),
        request_step(client, command, RequestEvent::Received(IoStep::Done(data)), action),
    ensures
        action is Finish,
        payload_of(action->Finish_0) == if code == 0 {
            Ok::<Seq<u8>, SlmpError>(payload)
        } else {
            Err(SlmpError::Device { end_code: code })
        },
{
    frame::law_response_round_trip(client.props(), code, payload);
}

/// A deadline that elapses reads as a timeout, wherever it elapses.
pub proof fn law_elapsed_is_timeout(
    client: SLMPClient,
    command: Seq<u8>,
    sent: RequestAction,
    received: RequestAction,
    dialed: ConnectAction,
)
    requires
        request_step(client, command, RequestEvent::Sent(IoStep::Elapsed), sent),
        request_step(client, command, RequestEvent::Received(IoStep::Elapsed), received),
        connect_step(ConnectEvent::Dialed(IoStep::Elapsed), dialed),
    ensures
        sent == RequestAction::Finish(Err(SlmpError::Timeout)),
        received == RequestAction::Finish(Err(SlmpError::Timeout)),
        dialed == ConnectAction::Finish(Err(SlmpError::Timeout)),
{
}

/// Only the end of receiving can make a request succeed, and only a frame that the check of
/// responses accepts: whatever came before, the outcome of a request is that of its response.
pub proof fn law_success_needs_accepted_frame(
    client: SLMPClient,
    command: Seq<u8>,
    event: RequestEvent,
    action: RequestAction,
)
    requires
        request_step(client, command, event, action),
        action is Finish,
        action->Finish_0 is Ok,
    ensures
        event matches RequestEvent::Received(IoStep::Done(data)) && frame::response_verdict(
            client.props(),
            data@,
        ) is Ok && action->Finish_0->Ok_0@ == data@.skip(15),
{
}


/// What goes out for a command: a frame that names the station of the settings, says how long it is,
/// and carries the command unchanged, under the deadline for sending.
pub proof fn law_what_is_sent(client: SLMPClient, command: Seq<u8>, action: RequestAction)
    requires
        request_step(client, command, RequestEvent::Start { connected: true }, action),
    ensures
        action is Send,
        action->Send_within == client.send_limit(),
        ({
            let sent = action->frame@;
            let props = client.props();
            &&& sent.len() == 15 + command.len()
            &&& sent[0] == 0x54 && sent[1] == 0x00
            &&& sent[2] + 256 * sent[3] == props.serial_id
            &&& sent[4] == 0x00 && sent[5] == 0x00
            &&& sent[6] == props.network_id
            &&& sent[7] == props.pc_id
            &&& sent[8] + 256 * sent[9] == props.io_id
            &&& sent[10] == props.area_id
            &&& sent[11] + 256 * sent[12] == (sent.len() - 13) % 65536
            &&& sent[13] + 256 * sent[14] == props.cpu_timer
            &&& sent.skip(15) == command
        }),
{
    props::law_fields_of_a_request(client.props(), command);
    props::law_request_carries_command(client.props(), command);
}

/// What comes of a response: a frame from the station that the request went to, with the length that
/// it declares and no error, gives everything behind its end code; a rejection gives its end code; and
/// no other response gives anything but an error.
pub proof fn law_what_is_received(
    client: SLMPClient,
    command: Seq<u8>,
    sent: RequestAction,
    data: Vec<u8>,
    action: RequestAction,
)
    requires
        request_step(client, command, RequestEvent::Start { connected: true }, sent),
        request_step(client, command, RequestEvent::Received(IoStep::Done(data)), action),
    ensures
        action is Finish,
        ({
            let d = data@;
            let result = action->Finish_0;
            let whole = d.len() >= 15 && d[11] + 256 * d[12] == d.len() - 13;
            let code = d[13] + 256 * d[14];
            &&& result is Ok <==> {
                &&& whole && code == 0
                &&& d[0] == 0xD4 && d[1] == 0x00
                &&& forall|i: int| 2 <= i < 11 ==> #[trigger] d[i] == sent->frame@[i]
            }
            &&& result is Ok ==> result->Ok_0@.len() == d.len() - 15
            &&& result is Ok ==> forall|i: int|
                0 <= i < d.len() - 15 ==> #[trigger] result->Ok_0@[i] == d[15 + i]
            &&& (result is Err && result->Err_0 is Device) <==> whole && code != 0
            &&& whole && code != 0 ==> result->Err_0->end_code == code
            &&& d.len() == 0 <==> (result is Err && result->Err_0 is Io)
            &&& d.len() > 0 && result is Err ==> frame::response_verdict(client.props(), d)
                == Err::<(), SlmpError>(result->Err_0)
            &&& (result is Err && result->Err_0 is Framing) <==> d.len() > 0 && !(result is Ok)
                && !(whole && code != 0)
        }),
{
    let d = data@;
    let frame = sent->frame@;
    law_what_is_sent(client, command, sent);
    if d.len() > 0 {
        frame::law_fields_of_an_accepted_response(client.props(), d);
        assert(data.len() == d.len());
        frame::law_reason_of_a_refusal(client.props(), d);
        if frame::response_verdict(client.props(), d) is Ok {
            assert(d[2] + 256 * d[3] == frame[2] + 256 * frame[3]);
            assert(d[8] + 256 * d[9] == frame[8] + 256 * frame[9]);
        } else if forall|i: int| 2 <= i < 11 ==> #[trigger] d[i] == frame[i] {
            assert(d[2] == frame[2] && d[3] == frame[3] && d[4] == frame[4] && d[5] == frame[5]
                && d[6] == frame[6] && d[7] == frame[7] && d[8] == frame[8] && d[9] == frame[9]
                && d[10] == frame[10]);
        }
    }
}

/// What comes of a failure on the way: without a stream nothing is sent; an elapsed deadline is a
/// timeout; an I/O error is told apart by its kind; and after sending the response is waited for,
/// under the deadline for receiving.
pub proof fn law_steps_of_a_request(
    client: SLMPClient,
    command: Seq<u8>,
    e: std::io::Error,
    start: RequestAction,
    sent: RequestAction,
    not_sent: RequestAction,
    not_received: RequestAction,
)
    requires
        request_step(client, command, RequestEvent::Start { connected: false }, start),
        request_step(client, command, RequestEvent::Sent(IoStep::Done(())), sent),
        request_step(client, command, RequestEvent::Sent(IoStep::Failed(e)), not_sent),
        request_step(client, command, RequestEvent::Received(IoStep::Failed(e)), not_received),
    ensures
        start == RequestAction::Finish(Err(SlmpError::NotConnected)),
        sent == (RequestAction::Receive { within: client.recv_limit() }),
        not_sent == not_received,
        error::io_error_kind(e) is TimedOut ==> not_sent == RequestAction::Finish(
            Err(SlmpError::Timeout),
        ),
        error::io_error_kind(e) is NotConnected ==> not_sent == RequestAction::Finish(
            Err(SlmpError::NotConnected),
        ),
        !(error::io_error_kind(e) is TimedOut) && !(error::io_error_kind(e) is NotConnected)
            ==> not_sent == RequestAction::Finish(Err(SlmpError::Io(e))),
{
}

/// What an I/O step under a deadline comes to, whatever it was for.
pub proof fn law_outcome_of_a_step<T>(value: T, e: std::io::Error)
    ensures
        step_result(IoStep::Done(value)) == Ok::<T, SlmpError>(value),
        step_result(IoStep::<T>::Elapsed) == Err::<T, SlmpError>(SlmpError::Timeout),
        step_result(IoStep::<T>::Failed(e)) == Err::<T, SlmpError>(error::from_io(e)),
{
}

/// The steps of connecting: close, look up, dial the first address within a second, and report how
/// that ended. A look-up that finds nothing is an error of its own.
pub proof fn law_steps_of_connecting(
    found: Vec<SocketAddr>,
    start: ConnectAction,
    closed: ConnectAction,
    resolved: ConnectAction,
    dialed: ConnectAction,
)
    requires
        connect_step(ConnectEvent::Start, start),
        connect_step(ConnectEvent::Closed, closed),
        connect_step(ConnectEvent::Resolved(Ok(found)), resolved),
        connect_step(ConnectEvent::Dialed(IoStep::Done(())), dialed),
    ensures
        start is Close,
        closed is Resolve,
        found@.len() > 0 ==> resolved == (ConnectAction::Dial {
            addr: found@[0],
            within: 1_000_000_000,
        }),
        found@.len() == 0 ==> resolved == ConnectAction::Finish(
            Err(
                SlmpError::Io(
                    error::made_io_error(error::IoErrorKind::InvalidInput, "resolve failed"@),
                ),
            ),
        ),
        dialed == ConnectAction::Finish(Ok(())),
{
}

} // verus!
