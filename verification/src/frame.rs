//! Response frames: what a sound one looks like, and what is wrong with any other.
use vstd::prelude::*;

use crate::bytes;
use crate::error::{FramingError, SlmpError, SlmpResult};
use crate::props::{self, SLMP4EConnectionProps};

verus! {

/// The bytes of a response before its data block: the fixed header and the length field.
pub const FIXED_FRAME_LEN: usize = 13;

/// The shortest response: the fixed header, the length field and the end code.
pub const MIN_FRAME_LEN: usize = 15;

/// The fixed header of a response to a request made with `props`.
pub open spec fn response_header(props: SLMP4EConnectionProps) -> Seq<u8> {
    seq![0xD4u8, 0x00u8] + bytes::le_bytes(props.serial_id) + seq![0x00u8, 0x00u8] + seq![
        props.network_id,
        props.pc_id,
    ] + bytes::le_bytes(props.io_id) + seq![props.area_id]
}

/// The length of the data block that a frame declares.
pub open spec fn declared_len(data: Seq<u8>) -> int {
    bytes::word(data[11], data[12]) as int
}

/// The end code of a frame.
pub open spec fn end_code(data: Seq<u8>) -> u16 {
    bytes::word(data[13], data[14])
}

/// Whether a whole frame is there: long enough for the end code, and as long as it declares.
pub open spec fn is_complete(data: Seq<u8>) -> bool {
    data.len() >= MIN_FRAME_LEN && declared_len(data) == data.len() - FIXED_FRAME_LEN
}

/// The first field of the fixed header that does not answer a request made with `props`.
pub open spec fn wrong_field(props: SLMP4EConnectionProps, data: Seq<u8>) -> Option<&'static str> {
    if data[0] != 0xD4 || data[1] != 0x00 {
        Some("response_code")
    } else if bytes::word(data[2], data[3]) != props.serial_id {
        Some("serial_id")
    } else if data[4] != 0x00 || data[5] != 0x00 {
        Some("blank")
    } else if data[6] != props.network_id {
        Some("network_id")
    } else if data[7] != props.pc_id {
        Some("pc_id")
    } else if bytes::word(data[8], data[9]) != props.io_id {
        Some("io_id")
    } else if data[10] != props.area_id {
        Some("area_id")
    } else {
        None
    }
}

/// What a response frame means.
///
/// The length comes first, then the end code, then the fixed header.
pub open spec fn response_verdict(props: SLMP4EConnectionProps, data: Seq<u8>) -> SlmpResult<()> {
    if data.len() < MIN_FRAME_LEN {
        Err(
            SlmpError::Framing(
                FramingError::ShortFrame { len: data.len() as usize, min: MIN_FRAME_LEN },
            ),
        )
    } else if !is_complete(data) {
        Err(
            SlmpError::Framing(
                FramingError::LengthMismatch {
                    declared: declared_len(data) as usize,
                    actual: (data.len() - FIXED_FRAME_LEN) as usize,
                },
            ),
        )
    } else if end_code(data) != 0 {
        Err(SlmpError::Device { end_code: end_code(data) })
    } else {
        match wrong_field(props, data) {
            Some(field) => Err(SlmpError::Framing(FramingError::UnexpectedField { field })),
            None => Ok(()),
        }
    }
}

/// A frame as a device answers a request made with `props`.
pub open spec fn response_frame(
    props: SLMP4EConnectionProps,
    code: u16,
    payload: Seq<u8>,
) -> Seq<u8> {
    response_header(props) + bytes::le_bytes((payload.len() + 2) as u16) + bytes::le_bytes(code)
        + payload
}

/// Looks for the first field of the fixed header that is not as expected.
fn find_wrong_field(props: &SLMP4EConnectionProps, data: &[u8]) -> (field: Option<&'static str>)
    requires
        data@.len() >= MIN_FRAME_LEN,
    ensures
        field == wrong_field(*props, data@),
{
    if data[0] != 0xD4 || data[1] != 0x00 {
        Some("response_code")
    } else if bytes::from_le_bytes(data[2], data[3]) != props.serial_id {
        Some("serial_id")
    } else if data[4] != 0x00 || data[5] != 0x00 {
        Some("blank")
    } else if data[6] != props.network_id {
        Some("network_id")
    } else if data[7] != props.pc_id {
        Some("pc_id")
    } else if bytes::from_le_bytes(data[8], data[9]) != props.io_id {
        Some("io_id")
    } else if data[10] != props.area_id {
        Some("area_id")
    } else {
        None
    }
}

/// Checks a response frame.
pub fn check_response(props: &SLMP4EConnectionProps, data: &[u8]) -> (verdict: SlmpResult<()>)
    ensures
        verdict == response_verdict(*props, data@),
{
    let data_len: usize = data.len();
    if data_len < MIN_FRAME_LEN {
        return Err(
            SlmpError::Framing(FramingError::ShortFrame { len: data_len, min: MIN_FRAME_LEN }),
        );
    }
    let declared: usize = bytes::from_le_bytes(data[11], data[12]) as usize;
    let actual: usize = data_len - FIXED_FRAME_LEN;
    if declared != actual {
        return Err(SlmpError::Framing(FramingError::LengthMismatch { declared, actual }));
    }
    let code: u16 = bytes::from_le_bytes(data[13], data[14]);
    if code != 0 {
        return Err(SlmpError::Device { end_code: code });
    }
    match find_wrong_field(props, data) {
        Some(field) => Err(SlmpError::Framing(FramingError::UnexpectedField { field })),
        None => Ok(()),
    }
}

/// A rejection by the device is only reported once a whole frame has arrived, whatever else the
/// frame holds: the bytes that follow are those of the next response.
pub proof fn law_device_error_means_complete_frame(props: SLMP4EConnectionProps, data: Seq<u8>)
    ensures
        response_verdict(props, data) is Err && response_verdict(props, data)->Err_0 is Device
            ==> is_complete(data),
{
}

/// A whole frame with a non-zero end code is a rejection by the device that names this code; it is
/// never a framing error, and nothing else is a rejection.
pub proof fn law_rejection_is_device_error(props: SLMP4EConnectionProps, data: Seq<u8>, code: u16)
    ensures
        response_verdict(props, data) == Err::<(), _>(SlmpError::Device { end_code: code })
            <==> is_complete(data) && end_code(data) == code && code != 0,
{
}

/// The length is checked before the end code: a frame that is not whole is a framing error of the
/// length, whatever its end code and header.
pub proof fn law_length_checked_first(props: SLMP4EConnectionProps, data: Seq<u8>)
    requires
        !is_complete(data),
    ensures
        response_verdict(props, data) is Err,
        response_verdict(props, data)->Err_0 is Framing,
        data.len() < MIN_FRAME_LEN <==> response_verdict(props, data)->Err_0->Framing_0 is ShortFrame,
        data.len() >= MIN_FRAME_LEN <==> response_verdict(
            props,
            data,
        )->Err_0->Framing_0 is LengthMismatch,
{
}

/// A frame is accepted exactly when it is whole, reports no error and carries the header that
/// answers the request.
pub proof fn law_accepted_frames(props: SLMP4EConnectionProps, data: Seq<u8>)
    ensures
        response_verdict(props, data) is Ok <==> {
            &&& is_complete(data)
            &&& end_code(data) == 0
            &&& data.take(11) == response_header(props)
        },
{
    let header = response_header(props);
    if is_complete(data) {
        bytes::law_word_round_trip(data[2], data[3]);
        bytes::law_word_round_trip(data[8], data[9]);
        if wrong_field(props, data) is None {
            assert(data.take(11) =~= header);
        }
        if data.take(11) == header {
            assert forall|i: int| 0 <= i < 11 implies data[i] == header[i] by {
                assert(data.take(11)[i] == data[i]);
            }
        }
    }
}

/// What a device sends back is what the client reads: a well-formed response is accepted with its
/// payload unchanged where its end code is zero, and otherwise reported as a rejection.
pub proof fn law_response_round_trip(props: SLMP4EConnectionProps, code: u16, payload: Seq<u8>)
    requires
        payload.len() + 2 < 65536,
    ensures
        response_frame(props, code, payload).skip(MIN_FRAME_LEN as int) == payload,
        response_verdict(props, response_frame(props, code, payload)) == if code == 0 {
            Ok::<(), SlmpError>(())
        } else {
            Err(SlmpError::Device { end_code: code })
        },
{
    let data = response_frame(props, code, payload);
    let len = (payload.len() + 2) as u16;
    assert(data.skip(MIN_FRAME_LEN as int) =~= payload);
    assert(data[11] == bytes::low_byte(len) && data[12] == bytes::high_byte(len));
    assert(data[13] == bytes::low_byte(code) && data[14] == bytes::high_byte(code));
    assert(data.take(11) =~= response_header(props));
    law_accepted_frames(props, data);
}


/// What is accepted, field by field: a frame as long as it says, with the response code, the end code
/// zero, and the serial number and the station that the settings name.
pub proof fn law_fields_of_an_accepted_response(props: SLMP4EConnectionProps, data: Seq<u8>)
    ensures
        response_verdict(props, data) is Ok <==> {
            &&& data.len() >= 15
            &&& data[11] + 256 * data[12] == data.len() - 13
            &&& data[13] == 0 && data[14] == 0
            &&& data[0] == 0xD4 && data[1] == 0x00
            &&& data[2] + 256 * data[3] == props.serial_id
            &&& data[4] == 0x00 && data[5] == 0x00
            &&& data[6] == props.network_id
            &&& data[7] == props.pc_id
            &&& data[8] + 256 * data[9] == props.io_id
            &&& data[10] == props.area_id
        },
{
}

/// A response is only accepted from the station that the request went to: between the two codes and
/// the length fields, the header of an accepted response repeats that of the request.
pub proof fn law_response_repeats_the_station(
    props: SLMP4EConnectionProps,
    command: Seq<u8>,
    data: Seq<u8>,
    i: int,
)
    requires
        response_verdict(props, data) is Ok,
        2 <= i < 11,
    ensures
        data[i] == props::request_frame(props, command)[i],
{
    law_fields_of_an_accepted_response(props, data);
    props::law_fields_of_a_request(props, command);
    let sent = props::request_frame(props, command);
    assert(data[2] + 256 * data[3] == sent[2] + 256 * sent[3]);
    assert(data[8] + 256 * data[9] == sent[8] + 256 * sent[9]);
}

/// What is refused, and for what: too few bytes with their number, a wrong length with both numbers,
/// an end code with its value, and otherwise the first field that is not as it should be.
pub proof fn law_reason_of_a_refusal(props: SLMP4EConnectionProps, data: Seq<u8>)
    requires
        data.len() <= usize::MAX,
    ensures
        ({
            let verdict = response_verdict(props, data);
            let declared = data[11] + 256 * data[12];
            let code = data[13] + 256 * data[14];
            let whole = data.len() >= 15 && declared == data.len() - 13;
            let sound = whole && code == 0;
            let code_ok = data[0] == 0xD4 && data[1] == 0x00;
            let serial_ok = code_ok && data[2] + 256 * data[3] == props.serial_id;
            let blank_ok = serial_ok && data[4] == 0x00 && data[5] == 0x00;
            let network_ok = blank_ok && data[6] == props.network_id;
            let pc_ok = network_ok && data[7] == props.pc_id;
            let io_ok = pc_ok && data[8] + 256 * data[9] == props.io_id;
            &&& data.len() < 15 ==> (verdict matches Err(SlmpError::Framing(
                FramingError::ShortFrame { len, min },
            )) && len == data.len() && min == 15)
            &&& data.len() >= 15 && !whole ==> (verdict matches Err(SlmpError::Framing(
                FramingError::LengthMismatch { declared: d, actual },
            )) && d == declared && actual == data.len() - 13)
            &&& whole && code != 0 ==> (verdict matches Err(SlmpError::Device { end_code: c }) && c
                == code)
            &&& sound && !code_ok ==> is_wrong_field(verdict, "response_code"@)
            &&& sound && code_ok && !serial_ok ==> is_wrong_field(verdict, "serial_id"@)
            &&& sound && serial_ok && !blank_ok ==> is_wrong_field(verdict, "blank"@)
            &&& sound && blank_ok && !network_ok ==> is_wrong_field(verdict, "network_id"@)
            &&& sound && network_ok && !pc_ok ==> is_wrong_field(verdict, "pc_id"@)
            &&& sound && pc_ok && !io_ok ==> is_wrong_field(verdict, "io_id"@)
            &&& sound && io_ok && data[10] != props.area_id ==> is_wrong_field(
                verdict,
                "area_id"@,
            )
        }),
{
}

/// Whether a verdict blames the field of this name.
pub open spec fn is_wrong_field(verdict: SlmpResult<()>, name: Seq<char>) -> bool {
    verdict matches Err(SlmpError::Framing(FramingError::UnexpectedField { field })) && field@
        == name
}

/// The verdict does not depend on the payload: two frames of one length that agree on the first
/// fifteen bytes are judged alike.
pub proof fn law_payload_is_not_judged(props: SLMP4EConnectionProps, a: Seq<u8>, b: Seq<u8>)
    requires
        a.len() == b.len() >= 15,
        forall|i: int| 0 <= i < 15 ==> a[i] == b[i],
    ensures
        response_verdict(props, a) == response_verdict(props, b),
{
}

/// A frame as a device answers is laid out as this: the header that answers the request, the number
/// of bytes behind the length field, the end code, and the payload.
pub proof fn law_fields_of_a_response(props: SLMP4EConnectionProps, code: u16, payload: Seq<u8>)
    requires
        payload.len() + 2 < 65536,
    ensures
        ({
            let data = response_frame(props, code, payload);
            &&& data.len() == 15 + payload.len()
            &&& data[0] == 0xD4 && data[1] == 0x00
            &&& data[2] + 256 * data[3] == props.serial_id
            &&& data[4] == 0x00 && data[5] == 0x00
            &&& data[6] == props.network_id && data[7] == props.pc_id
            &&& data[8] + 256 * data[9] == props.io_id
            &&& data[10] == props.area_id
            &&& data[11] + 256 * data[12] == data.len() - 13
            &&& data[13] + 256 * data[14] == code
            &&& forall|i: int| 0 <= i < payload.len() ==> data[15 + i] == #[trigger] payload[i]
        }),
{
    let data = response_frame(props, code, payload);
    let len = (payload.len() + 2) as u16;
    assert(data[2] == bytes::low_byte(props.serial_id) && data[3] == bytes::high_byte(
        props.serial_id,
    ));
    assert(data[8] == bytes::low_byte(props.io_id) && data[9] == bytes::high_byte(props.io_id));
    assert(data[11] == bytes::low_byte(len) && data[12] == bytes::high_byte(len));
    assert(data[13] == bytes::low_byte(code) && data[14] == bytes::high_byte(code));
}

} // verus!
