//! How a PLC is reached, and the header that every request starts with.
use vstd::prelude::*;

use crate::bytes;

verus! {

/// The PLC families that differ in how a request is written.
#[derive(Copy, Clone, Debug, PartialEq, Eq, PartialOrd, Ord, Structural)]
pub enum CPU {
    Q,
    R,
    L,
}

/// Where a PLC listens and which station on its network is meant.
#[derive(Clone, Debug, PartialEq, Eq, PartialOrd, Ord)]
pub struct SLMP4EConnectionProps {
    pub ip: String,
    pub port: u16,
    pub cpu: CPU,
    pub serial_id: u16,
    pub network_id: u8,
    pub pc_id: u8,
    pub io_id: u16,
    pub area_id: u8,
    pub cpu_timer: u16,
}

/// The length of the header of a request.
pub const SUBHEADER_LEN: usize = 15;

/// The length field of a request: the bytes of the monitoring timer and of the command.
///
/// The field is two bytes wide and keeps the low sixteen bits.
pub open spec fn request_length_field(command_len: nat) -> u16 {
    ((command_len + 2) % 65536) as u16
}

/// The header of a request whose command is `command_len` bytes long.
pub open spec fn subheader(props: SLMP4EConnectionProps, command_len: nat) -> Seq<u8> {
    seq![0x54u8, 0x00u8] + bytes::le_bytes(props.serial_id) + seq![0x00u8, 0x00u8] + seq![
        props.network_id,
        props.pc_id,
    ] + bytes::le_bytes(props.io_id) + seq![props.area_id] + bytes::le_bytes(
        request_length_field(command_len),
    ) + bytes::le_bytes(props.cpu_timer)
}

/// The request frame that carries a command: the header, then the command.
pub open spec fn request_frame(props: SLMP4EConnectionProps, command: Seq<u8>) -> Seq<u8> {
    subheader(props, command.len()) + command
}

/// Writes the header of a request.
pub fn create_subheader(connection_props: &SLMP4EConnectionProps, command_len: usize) -> (header: [u8;
    SUBHEADER_LEN])
    requires
        command_len + 2 <= usize::MAX,
    ensures
        header@ == subheader(*connection_props, command_len as nat),
{
    let serial_id: [u8; 2] = bytes::to_le_bytes(connection_props.serial_id);
    let io_id: [u8; 2] = bytes::to_le_bytes(connection_props.io_id);
    let cpu_timer: [u8; 2] = bytes::to_le_bytes(connection_props.cpu_timer);

    // The length field counts the frame from the monitoring timer on.
    let length: [u8; 2] = bytes::to_le_bytes(((command_len + 2) % 65536) as u16);

    let header: [u8; SUBHEADER_LEN] = [
        0x54,
        0x00,
        serial_id[0],
        serial_id[1],
        0x00,
        0x00,
        connection_props.network_id,
        connection_props.pc_id,
        io_id[0],
        io_id[1],
        connection_props.area_id,
        length[0],
        length[1],
        cpu_timer[0],
        cpu_timer[1],
    ];
    assert(header@ =~= subheader(*connection_props, command_len as nat));
    header
}

/// The length field of a request counts the bytes that follow it, as long as sixteen bits can
/// hold that number.
pub proof fn law_request_length_counts_rest(props: SLMP4EConnectionProps, command: Seq<u8>)
    requires
        command.len() + 2 < 65536,
    ensures
        request_frame(props, command).len() >= 13,
        bytes::word(request_frame(props, command)[11], request_frame(props, command)[12])
            == request_frame(props, command).len() - 13,
{
    let n = request_length_field(command.len());
    assert(request_frame(props, command)[11] == bytes::low_byte(n));
    assert(request_frame(props, command)[12] == bytes::high_byte(n));
}

/// The command stands in the request frame unchanged, behind the header.
pub proof fn law_request_carries_command(props: SLMP4EConnectionProps, command: Seq<u8>)
    ensures
        subheader(props, command.len()).len() == SUBHEADER_LEN,
        request_frame(props, command).skip(SUBHEADER_LEN as int) == command,
{
    assert(request_frame(props, command).skip(SUBHEADER_LEN as int) =~= command);
}


/// What a request frame says, field by field: the request code, the serial number and the station
/// that the settings name, the number of bytes behind the length field in its low sixteen bits, the
/// monitoring timer of the settings, and the command as it was given.
pub proof fn law_fields_of_a_request(props: SLMP4EConnectionProps, command: Seq<u8>)
    ensures
        ({
            let sent = request_frame(props, command);
            &&& sent.len() == 15 + command.len()
            &&& sent[0] == 0x54 && sent[1] == 0x00
            &&& sent[2] + 256 * sent[3] == props.serial_id
            &&& sent[4] == 0x00 && sent[5] == 0x00
            &&& sent[6] == props.network_id
            &&& sent[7] == props.pc_id
            &&& sent[8] + 256 * sent[9] == props.io_id
            &&& sent[10] == props.area_id
            &&& sent[11] + 256 * sent[12] == (sent.len() - 13) % 65536
            &&& sent[13] + 256 * sent[14] == props.cpu_timer
            &&& forall|i: int| 0 <= i < command.len() ==> sent[15 + i] == #[trigger] command[i]
            &&& subheader(props, command.len()) == sent.take(15)
        }),
{
    let sent = request_frame(props, command);
    let n = request_length_field(command.len());
    bytes::law_le_bytes_round_trip(props.serial_id);
    bytes::law_le_bytes_round_trip(props.io_id);
    bytes::law_le_bytes_round_trip(props.cpu_timer);
    assert(sent[2] == bytes::low_byte(props.serial_id) && sent[3] == bytes::high_byte(
        props.serial_id,
    ));
    assert(sent[8] == bytes::low_byte(props.io_id) && sent[9] == bytes::high_byte(props.io_id));
    assert(sent[11] == bytes::low_byte(n) && sent[12] == bytes::high_byte(n));
    assert(sent[13] == bytes::low_byte(props.cpu_timer) && sent[14] == bytes::high_byte(
        props.cpu_timer,
    ));
    assert(subheader(props, command.len()) =~= sent.take(15));
}

/// Requests with different settings of serial number, station or timer differ in their headers, so
/// that no setting is lost on the way; the IP address, the port and the CPU are not part of it.
pub proof fn law_headers_tell_settings_apart(
    a: SLMP4EConnectionProps,
    b: SLMP4EConnectionProps,
    len: nat,
)
    ensures
        subheader(a, len) == subheader(b, len) <==> {
            &&& a.serial_id == b.serial_id
            &&& a.network_id == b.network_id
            &&& a.pc_id == b.pc_id
            &&& a.io_id == b.io_id
            &&& a.area_id == b.area_id
            &&& a.cpu_timer == b.cpu_timer
        },
{
    let command = Seq::new(len, |i: int| 0u8);
    law_fields_of_a_request(a, command);
    law_fields_of_a_request(b, command);
    let x = request_frame(a, command);
    let y = request_frame(b, command);
    if subheader(a, len) == subheader(b, len) {
        assert forall|i: int| 0 <= i < 15 implies x[i] == y[i] by {
            assert(x.take(15)[i] == x[i] && y.take(15)[i] == y[i]);
        }
        assert(x[2] == y[2] && x[3] == y[3] && x[6] == y[6] && x[7] == y[7] && x[8] == y[8] && x[9]
            == y[9] && x[10] == y[10] && x[13] == y[13] && x[14] == y[14]);
    }
}

} // verus!
