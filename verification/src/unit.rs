//! Controlling the unit: what its answers mean.
use vstd::prelude::*;

use crate::client::{self, IoStep, RequestAction, RequestEvent, SLMPClient};
use crate::error::{FramingError, SlmpError, SlmpResult};
use crate::frame;

verus! {

/// The byte that fills up the name of a CPU.
pub const NAME_END: u8 = 0x20;

/// The length of the message that an echo carries.
pub const ECHO_LEN: usize = 4;

/// Where the name of a CPU ends that has not ended before `from`.
pub open spec fn name_end(recv: Seq<u8>, from: int) -> int
    decreases recv.len() - from,
{
    if from >= recv.len() {
        recv.len() as int
    } else if recv[from] == NAME_END {
        from
    } else {
        name_end(recv, from + 1)
    }
}

/// The bytes of the name of a CPU: everything before the first fill byte.
pub open spec fn name_bytes(recv: Seq<u8>) -> Seq<u8> {
    recv.take(name_end(recv, 0))
}

/// Whether the answer to an echo repeats the message, behind two bytes that give its length.
pub open spec fn repeats(recv: Seq<u8>, message: Seq<u8>) -> bool {
    recv.len() >= 6 && recv.subrange(2, 6) == message
}

/// What the outcome of the request means for an echo.
///
/// A failure of the request is handed on as it is.
pub open spec fn echo_result(result: SlmpResult<Vec<u8>>, message: Seq<u8>) -> SlmpResult<()> {
    match result {
        Ok(recv) => if repeats(recv@, message) {
            Ok(())
        } else {
            Err(SlmpError::Framing(FramingError::EchoMismatch))
        },
        Err(e) => Err(e),
    }
}

/// The text that bytes spell, with replacement characters where they spell none.
pub uninterp spec fn utf8_lossy(bytes: Seq<u8>) -> Seq<char>;

/// Decodes bytes with `String::from_utf8_lossy`.
///
/// The contract names the text, which the bytes alone determine, and claims that bytes in valid
/// UTF-8 are decoded as they stand. It leaves unsaid how many replacement characters stand for
/// bytes that are not valid.
#[verifier::external_body]
fn decode_lossy(bytes: &[u8]) -> (text: String)
    ensures
        text@ == utf8_lossy(bytes@),
        vstd::utf8::valid_utf8(bytes@) ==> text@ == vstd::utf8::decode_utf8(bytes@),
{
    String::from_utf8_lossy(bytes).into_owned()
}

/// Whether `name` is the name of the CPU that the outcome of the request holds.
pub open spec fn is_cpu_type(result: SlmpResult<Vec<u8>>, name: SlmpResult<String>) -> bool {
    match (result, name) {
        (Ok(recv), Ok(name)) => {
            &&& name@ == utf8_lossy(name_bytes(recv@))
            &&& vstd::utf8::valid_utf8(name_bytes(recv@)) ==> name@ == vstd::utf8::decode_utf8(
                name_bytes(recv@),
            )
        },
        (Err(e), Err(same)) => same == e,
        _ => false,
    }
}

impl SLMPClient {
    /// The bytes of the name of a CPU.
    pub fn cpu_type_bytes(recv: &[u8]) -> (name: &[u8])
        ensures
            name@ == name_bytes(recv@),
    {
        let mut end: usize = 0;
        while end < recv.len() && recv[end] != NAME_END
            invariant
                end <= recv@.len(),
                name_end(recv@, 0) == name_end(recv@, end as int),
            decreases recv@.len() - end,
        {
            end = end + 1;
        }
        let name: &[u8] = vstd::slice::slice_subrange(recv, 0, end);
        assert(name@ =~= name_bytes(recv@));
        name
    }

    /// The name of a CPU, out of the answer to the request for it.
    pub fn get_cpu_type(result: SlmpResult<Vec<u8>>) -> (name: SlmpResult<String>)
        ensures
            is_cpu_type(result, name),
    {
        match result {
            Ok(recv) => Ok(decode_lossy(Self::cpu_type_bytes(recv.as_slice()))),
            Err(e) => Err(e),
        }
    }

    /// The outcome of an echo, from the outcome of the request and the message that was sent.
    pub fn echo(result: SlmpResult<Vec<u8>>, message: &[u8; ECHO_LEN]) -> (echo: SlmpResult<()>)
        ensures
            echo == echo_result(result, message@),
    {
        match result {
            Ok(recv) => {
                if recv.len() >= 6 && recv[2] == message[0] && recv[3] == message[1] && recv[4]
                    == message[2] && recv[5] == message[3] {
                    assert(recv@.subrange(2, 6) =~= message@);
                    Ok(())
                } else {
                    proof {
                        if repeats(recv@, message@) {
                            assert(recv@.subrange(2, 6)[0] == recv@[2]);
                            assert(recv@.subrange(2, 6)[1] == recv@[3]);
                            assert(recv@.subrange(2, 6)[2] == recv@[4]);
                            assert(recv@.subrange(2, 6)[3] == recv@[5]);
                        }
                    }
                    Err(SlmpError::Framing(FramingError::EchoMismatch))
                }
            },
            Err(e) => Err(e),
        }
    }
}

proof fn lemma_name_end(recv: Seq<u8>, from: int)
    requires
        0 <= from <= recv.len(),
    ensures
        from <= name_end(recv, from) <= recv.len(),
        forall|i: int| from <= i < name_end(recv, from) ==> recv[i] != NAME_END,
        name_end(recv, from) < recv.len() ==> recv[name_end(recv, from)] == NAME_END,
    decreases recv.len() - from,
{
    if from < recv.len() && recv[from] != NAME_END {
        lemma_name_end(recv, from + 1);
    }
}

/// The name of a CPU is the longest beginning of the answer that holds no fill byte.
pub proof fn law_name_is_longest_beginning(recv: Seq<u8>)
    ensures
        name_bytes(recv).is_prefix_of(recv),
        !name_bytes(recv).contains(0x20),
        name_bytes(recv) == recv || recv[name_bytes(recv).len() as int] == 0x20,
{
    lemma_name_end(recv, 0);
    if name_end(recv, 0) == recv.len() {
        assert(name_bytes(recv) =~= recv);
    }
}

/// An echo succeeds on the answer that gives back the message behind its length.
pub proof fn law_echo_of_message(recv: Vec<u8>, message: Seq<u8>, len: Seq<u8>)
    requires
        message.len() == ECHO_LEN,
        len.len() == 2,
        recv@ == len + message,
    ensures
        echo_result(Ok(recv), message) == Ok::<(), SlmpError>(()),
{
    assert(recv@.subrange(2, 6) =~= message);
}

/// An echo that the device refuses ends with the end code of the refusal, as any other request does.
pub proof fn law_refused_echo_is_device_error(
    client: SLMPClient,
    command: Seq<u8>,
    data: Vec<u8>,
    code: u16,
    payload: Seq<u8>,
    action: RequestAction,
    message: Seq<u8>,
)
    requires
        code != 0,
        payload.len() + 2 < 65536,
        data@ == frame::response_frame(client.props(), code, payload),
        client::request_step(client, command, RequestEvent::Received(IoStep::Done(data)), action),
    ensures
        action is Finish,
        echo_result(action->Finish_0, message) == Err::<(), SlmpError>(
            SlmpError::Device { end_code: code },
        ),
{
    client::law_reply_to_request(client, command, data, code, payload, action);
}


/// A name in ASCII comes out as it went in: what stands before the first fill byte, character by
/// character, whatever follows the fill byte. A failed request names no CPU.
pub proof fn law_ascii_name_is_kept(
    recv: Vec<u8>,
    name: SlmpResult<String>,
    given: Seq<u8>,
    rest: Seq<u8>,
    e: SlmpError,
    none: SlmpResult<String>,
)
    requires
        is_cpu_type(Ok(recv), name),
        is_cpu_type(Err(e), none),
        recv@ == given || recv@ == given.push(0x20) + rest,
        forall|i: int| 0 <= i < given.len() ==> #[trigger] given[i] < 0x80 && given[i] != 0x20,
    ensures
        name is Ok,
        name->Ok_0@.len() == given.len(),
        forall|i: int|
            0 <= i < given.len() ==> (#[trigger] name->Ok_0@[i]) as int == given[i] as int,
        none is Err && none->Err_0 == e,
{
    let bytes = name_bytes(recv@);
    lemma_name_end(recv@, 0);
    assert(name_end(recv@, 0) == given.len()) by {
        let end = name_end(recv@, 0);
        if end < given.len() {
            assert(recv@[end] == given[end]);
        }
        if end > given.len() {
            assert(recv@[given.len() as int] == 0x20);
        }
    }
    assert(bytes =~= given);
    let chars = Seq::new(given.len(), |i: int| given[i] as char);
    assert forall|i: int| 0 <= i < chars.len() implies '\0' <= #[trigger] chars[i] <= '\u{7f}' by {
        assert(given[i] < 0x80);
    }
    vstd::utf8::is_ascii_chars_encode_utf8(chars);
    assert(vstd::utf8::encode_utf8(chars) =~= given);
    vstd::utf8::encode_utf8_valid_utf8(chars);
    vstd::utf8::encode_utf8_decode_utf8(chars);
    assert(name->Ok_0@ == chars);
}

/// An echo succeeds exactly when the four bytes behind the first two are the four bytes that were
/// sent; any other answer is a mismatch, and a failed request is handed on.
pub proof fn law_echo_compares_the_message(recv: Vec<u8>, message: Seq<u8>, e: SlmpError)
    requires
        message.len() == 4,
    ensures
        echo_result(Ok(recv), message) is Ok <==> {
            &&& recv@.len() >= 6
            &&& recv@[2] == message[0] && recv@[3] == message[1]
            &&& recv@[4] == message[2] && recv@[5] == message[3]
        },
        echo_result(Ok(recv), message) is Err ==> echo_result(Ok(recv), message)->Err_0
            == SlmpError::Framing(FramingError::EchoMismatch),
        echo_result(Err(e), message) == Err::<(), SlmpError>(e),
{
    if recv@.len() >= 6 {
        let part = recv@.subrange(2, 6);
        assert(part[0] == recv@[2] && part[1] == recv@[3] && part[2] == recv@[4] && part[3]
            == recv@[5]);
        if recv@[2] == message[0] && recv@[3] == message[1] && recv@[4] == message[2] && recv@[5]
            == message[3] {
            assert(part =~= message);
        }
    }
}

} // verus!
