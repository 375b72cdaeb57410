//! Reading devices: what is asked for, and what the bytes of a response mean.
use vstd::prelude::*;

use crate::bytes;
use crate::client::SLMPClient;
use crate::device::{
    self, AccessType, DataType, Device, DeviceBlock, DeviceData, DeviceDataView, TypedData,
    TypedDataView,
};
use crate::order;
use crate::props::CPU;

verus! {

/// A request to read a run of devices.
#[derive(Debug)]
pub struct SLMPBulkReadQuery {
    pub cpu: CPU,
    pub start_device: Device,
    pub device_num: usize,
    pub data_type: DataType,
}

/// A request to read several runs of devices.
#[derive(Debug)]
pub struct SLMPBlockReadQuery {
    pub cpu: CPU,
    pub sorted_block: Vec<DeviceBlock>,
    pub word_access_points: u8,
    pub bit_access_points: u8,
}

/// The device that stands `offset` places behind `start`.
pub open spec fn device_at(start: Device, offset: int) -> Device {
    Device { device_type: start.device_type, address: (start.address + offset) as usize }
}

/// Bit `i` of a response that holds two bits per byte, one in each half, the upper half first.
pub open spec fn half_byte_bit(recv: Seq<u8>, i: int) -> bool {
    if i % 2 == 0 {
        (recv[i / 2] / 16) % 2 == 1
    } else {
        recv[i / 2] % 2 == 1
    }
}

/// How many bits a response of `len` bytes gives where `num` were asked for.
pub open spec fn bit_count(num: int, len: int) -> int {
    if num <= 2 * len {
        num
    } else {
        2 * len
    }
}

/// The values in the response to the request for a run of devices.
///
/// Bits stand in the halves of the bytes; of more bits than were asked for, the rest is left out.
/// Values of another type stand side by side, and the bytes that do not make up a whole value are
/// left out.
pub open spec fn bulk_values(start: Device, num: int, data_type: DataType, recv: Seq<u8>) -> Seq<
    DeviceDataView,
> {
    if data_type is Bool {
        Seq::new(
            bit_count(num, recv.len() as int) as nat,
            |i: int|
                DeviceDataView {
                    device: device_at(start, i),
                    data: TypedDataView::Bool(half_byte_bit(recv, i)),
                },
        )
    } else {
        let size = data_type.byte_size_spec() as int;
        Seq::new(
            (recv.len() as int / size) as nat,
            |i: int|
                DeviceDataView {
                    device: device_at(start, (size / 2) * i),
                    data: TypedDataView::Words {
                        data_type,
                        bytes: recv.subrange(size * i, size * i + size),
                    },
                },
        )
    }
}

/// Whether a response of `len` bytes can be taken apart: values have a size, and no address
/// exceeds the machine word.
pub open spec fn bulk_read_ok(start: Device, num: int, data_type: DataType, len: int) -> bool {
    if data_type is Bool {
        start.address + bit_count(num, len) - 1 <= usize::MAX
    } else {
        let size = data_type.byte_size_spec() as int;
        size > 0 && start.address + (size / 2) * (len / size - 1) <= usize::MAX
    }
}

/// The bytes that a response holds for a block: two per word, or one for eight bits.
pub open spec fn block_bytes(block: DeviceBlock) -> int {
    match block.access_type {
        AccessType::Word => 2 * block.size as int,
        AccessType::Bit => (block.size + 7) / 8,
    }
}

/// The bytes that a response holds for several blocks.
pub open spec fn total_bytes(blocks: Seq<DeviceBlock>) -> int
    decreases blocks.len(),
{
    if blocks.len() == 0 {
        0
    } else {
        total_bytes(blocks.drop_last()) + block_bytes(blocks.last())
    }
}

/// The values of one block in the bytes that belong to it.
pub open spec fn one_block(block: DeviceBlock, recv: Seq<u8>) -> Seq<DeviceDataView> {
    Seq::new(
        block.size as nat,
        |i: int|
            DeviceDataView {
                device: device_at(block.start_device, i),
                data: match block.access_type {
                    AccessType::Word => TypedDataView::Words {
                        data_type: DataType::U16,
                        bytes: recv.subrange(2 * i, 2 * i + 2),
                    },
                    AccessType::Bit => TypedDataView::Bool(bytes::bit_of(recv[i / 8], i % 8)),
                },
            },
    )
}

/// The values in the response to the request for several blocks: those of each block, one block
/// after the other.
pub open spec fn block_values(blocks: Seq<DeviceBlock>, recv: Seq<u8>) -> Seq<DeviceDataView>
    decreases blocks.len(),
{
    if blocks.len() == 0 {
        Seq::empty()
    } else {
        let before = blocks.drop_last();
        let start = total_bytes(before);
        block_values(before, recv) + one_block(
            blocks.last(),
            recv.subrange(start, start + block_bytes(blocks.last())),
        )
    }
}

/// Whether the addresses of a block stay within the machine word.
pub open spec fn block_ok(block: DeviceBlock) -> bool {
    &&& block.start_device.address + block.size - 1 <= usize::MAX
    &&& block.access_type is Bit ==> block.size + 7 <= usize::MAX
}

/// Whether a response of `len` bytes can be taken apart: there are enough bytes for every block,
/// and no address exceeds the machine word.
pub open spec fn block_read_ok(blocks: Seq<DeviceBlock>, len: int) -> bool {
    &&& total_bytes(blocks) <= len
    &&& forall|i: int| 0 <= i < blocks.len() ==> block_ok(#[trigger] blocks[i])
}

/// The condition that a block has a certain access type.
pub open spec fn block_has_access(access_type: AccessType) -> spec_fn(DeviceBlock) -> bool {
    |b: DeviceBlock| b.access_type == access_type
}

/// How many of the blocks have this access type.
pub open spec fn count_blocks(blocks: Seq<DeviceBlock>, access_type: AccessType) -> nat {
    blocks.filter(block_has_access(access_type)).len()
}

/// Whether `query` asks for a run of devices.
pub open spec fn is_bulk_read(
    cpu: CPU,
    start_device: Device,
    device_num: usize,
    data_type: DataType,
    query: SLMPBulkReadQuery,
) -> bool {
    query == (SLMPBulkReadQuery { cpu, start_device, device_num, data_type })
}

/// Whether `query` asks for several runs of devices.
pub open spec fn is_block_read(
    cpu: CPU,
    blocks: Seq<DeviceBlock>,
    query: SLMPBlockReadQuery,
) -> bool {
    &&& query.cpu == cpu
    &&& order::is_stable_sort(blocks, query.sorted_block@, device::by_access_and_address())
    &&& query.word_access_points == count_blocks(blocks, AccessType::Word) % 256
    &&& query.bit_access_points == count_blocks(blocks, AccessType::Bit) % 256
}

/// A value from the bytes that represent it.
fn value_of(data_type: DataType, recv: &[u8], from: usize, to: usize) -> (data: TypedData)
    requires
        from <= to <= recv@.len(),
    ensures
        data@ == (TypedDataView::Words { data_type, bytes: recv@.subrange(from as int, to as int) }),
{
    TypedData::Words {
        data_type,
        bytes: vstd::slice::slice_to_vec(vstd::slice::slice_subrange(recv, from, to)),
    }
}

/// The bits of a response that holds two bits per byte.
fn bulk_bits(start: Device, device_num: usize, recv: &[u8]) -> (values: Vec<DeviceData>)
    requires
        bulk_read_ok(start, device_num as int, DataType::Bool, recv@.len() as int),
    ensures
        device::views(values@) == bulk_values(
            start,
            device_num as int,
            DataType::Bool,
            recv@,
        ),
{
    let count: usize = if recv.len() <= device_num / 2 {
        2 * recv.len()
    } else {
        device_num
    };
    let mut values: Vec<DeviceData> = Vec::new();
    let mut i: usize = 0;
    while i < count
        invariant
            i <= count,
            count == bit_count(device_num as int, recv@.len() as int),
            start.address + count - 1 <= usize::MAX,
            values@.len() == i,
            forall|j: int|
                0 <= j < i ==> (#[trigger] values@[j])@ == (DeviceDataView {
                    device: device_at(start, j),
                    data: TypedDataView::Bool(half_byte_bit(recv@, j)),
                }),
        decreases count - i,
    {
        let byte: u8 = recv[i / 2];
        let half: u8 = if i % 2 == 0 {
            byte / 16
        } else {
            byte
        };
        values.push(
            DeviceData {
                device: Device { device_type: start.device_type, address: start.address + i },
                data: TypedData::Bool(half % 2 == 1),
            },
        );
        i = i + 1;
    }
    assert(device::views(values@) =~= bulk_values(
        start,
        device_num as int,
        DataType::Bool,
        recv@,
    ));
    values
}

/// The values of a response that holds them side by side.
fn bulk_words(start: Device, data_type: DataType, recv: &[u8]) -> (values: Vec<DeviceData>)
    requires
        !(data_type is Bool),
        bulk_read_ok(start, 0, data_type, recv@.len() as int),
    ensures
        forall|num: int|
            device::views(values@) == #[trigger] bulk_values(start, num, data_type, recv@),
{
    let size: usize = data_type.byte_size();
    let skip: usize = size / 2;
    let len: usize = recv.len();
    let count: usize = len / size;
    proof {
        vstd::arithmetic::div_mod::lemma_fundamental_div_mod(recv@.len() as int, size as int);
        vstd::arithmetic::div_mod::lemma_mod_bound(recv@.len() as int, size as int);
    }
    let mut values: Vec<DeviceData> = Vec::new();
    let mut i: usize = 0;
    while i < count
        invariant
            i <= count,
            size == data_type.byte_size_spec(),
            size > 0,
            skip == size / 2,
            count == recv@.len() as int / size as int,
            size * count <= recv@.len() == len,
            start.address + skip * (count - 1) <= usize::MAX,
            values@.len() == i,
            forall|j: int|
                0 <= j < i ==> (#[trigger] values@[j])@ == (DeviceDataView {
                    device: device_at(start, skip * j),
                    data: TypedDataView::Words {
                        data_type,
                        bytes: recv@.subrange(size * j, size * j + size),
                    },
                }),
        decreases count - i,
    {
        proof {
            assert(0 <= size * i && size * i + size <= size * count) by (nonlinear_arith)
                requires
                    i + 1 <= count,
            ;
            assert(0 <= skip * i <= skip * (count - 1)) by (nonlinear_arith)
                requires
                    0 <= i <= count - 1,
                    0 <= skip,
            ;
        }
        let from: usize = size * i;
        values.push(
            DeviceData {
                device: Device {
                    device_type: start.device_type,
                    address: start.address + skip * i,
                },
                data: value_of(data_type, recv, from, from + size),
            },
        );
        i = i + 1;
    }
    assert forall|num: int|
        device::views(values@) == #[trigger] bulk_values(start, num, data_type, recv@) by {
        assert(device::views(values@) =~= bulk_values(start, num, data_type, recv@));
    }
    values
}

impl SLMPClient {
    /// The request that reads a run of devices.
    pub fn bulk_read(
        &self,
        start_device: Device,
        device_num: usize,
        data_type: DataType,
    ) -> (query: SLMPBulkReadQuery)
        ensures
            is_bulk_read(self.props().cpu, start_device, device_num, data_type, query),
    {
        SLMPBulkReadQuery {
            cpu: self.connection_props().cpu,
            start_device,
            device_num,
            data_type,
        }
    }

    /// Whether [`SLMPClient::bulk_read_values`] can take a response of `len` bytes apart.
    pub fn bulk_read_fits(
        start_device: Device,
        device_num: usize,
        data_type: DataType,
        len: usize,
    ) -> (fits: bool)
        ensures
            fits == bulk_read_ok(start_device, device_num as int, data_type, len as int),
    {
        let address: u128 = start_device.address as u128;
        let limit: u128 = usize::MAX as u128;
        match data_type {
            DataType::Bool => {
                let given: u128 = 2 * (len as u128);
                let asked: u128 = device_num as u128;
                let count: u128 = if asked <= given {
                    asked
                } else {
                    given
                };
                address + count <= limit + 1
            },
            _ => {
                let size: usize = data_type.byte_size();
                if size == 0 {
                    false
                } else {
                    let skip: u128 = (size / 2) as u128;
                    let count: u128 = (len / size) as u128;
                    proof {
                        assert(skip * count <= 255 * count) by (nonlinear_arith)
                            requires
                                skip <= 255,
                                0 <= count,
                        ;
                        assert(skip * (count - 1) == skip * count - skip) by (nonlinear_arith);
                    }
                    address + skip * count <= limit + skip
                }
            },
        }
    }

    /// The values in the response to the request of [`SLMPClient::bulk_read`].
    pub fn bulk_read_values(
        start_device: Device,
        device_num: usize,
        data_type: DataType,
        recv: &[u8],
    ) -> (values: Vec<DeviceData>)
        requires
            bulk_read_ok(start_device, device_num as int, data_type, recv@.len() as int),
        ensures
            device::views(values@) == bulk_values(
                start_device,
                device_num as int,
                data_type,
                recv@,
            ),
    {
        match data_type {
            DataType::Bool => bulk_bits(start_device, device_num, recv),
            _ => bulk_words(start_device, data_type, recv),
        }
    }
}

/// The bytes of a response that belong to a block.
fn bytes_of_block(block: DeviceBlock) -> (len: usize)
    requires
        block_ok(block),
        block_bytes(block) <= usize::MAX,
    ensures
        len == block_bytes(block),
{
    match block.access_type {
        AccessType::Word => 2 * block.size,
        AccessType::Bit => bytes::div_ceil(block.size, 8),
    }
}

/// Appends the values of a block of words whose bytes start at `from`.
fn push_words(block: DeviceBlock, recv: &[u8], from: usize, values: &mut Vec<DeviceData>)
    requires
        block_ok(block),
        block.access_type is Word,
        from + block_bytes(block) <= recv@.len(),
    ensures
        device::views(final(values)@) == device::views(old(values)@) + one_block(
            block,
            recv@.subrange(from as int, from + block_bytes(block)),
        ),
{
    let len: usize = recv.len();
    let ghost part = recv@.subrange(from as int, from + block_bytes(block));
    let ghost before = values@;
    let mut i: usize = 0;
    while i < block.size
        invariant
            i <= block.size,
            block_ok(block),
            block.access_type is Word,
            from + block_bytes(block) <= recv@.len() == len,
            part == recv@.subrange(from as int, from + block_bytes(block)),
            values@.len() == before.len() + i,
            forall|j: int| 0 <= j < before.len() ==> #[trigger] values@[j] == before[j],
            forall|j: int|
                0 <= j < i ==> (#[trigger] values@[before.len() + j])@ == one_block(block, part)[j],
        decreases block.size - i,
    {
        let at: usize = from + 2 * i;
        let data: TypedData = value_of(DataType::U16, recv, at, at + 2);
        proof {
            assert(recv@.subrange(at as int, at + 2) =~= part.subrange(2 * i, 2 * i + 2));
        }
        values.push(
            DeviceData {
                device: Device {
                    device_type: block.start_device.device_type,
                    address: block.start_device.address + i,
                },
                data,
            },
        );
        i = i + 1;
    }
    proof {
        lemma_views_append(before, values@, one_block(block, part));
    }
}

/// Appends the values of a block of bits whose bytes start at `from`.
fn push_bits(block: DeviceBlock, recv: &[u8], from: usize, values: &mut Vec<DeviceData>)
    requires
        block_ok(block),
        block.access_type is Bit,
        from + block_bytes(block) <= recv@.len(),
    ensures
        device::views(final(values)@) == device::views(old(values)@) + one_block(
            block,
            recv@.subrange(from as int, from + block_bytes(block)),
        ),
{
    let len: usize = recv.len();
    let ghost part = recv@.subrange(from as int, from + block_bytes(block));
    let ghost before = values@;
    let mut i: usize = 0;
    while i < block.size
        invariant
            i <= block.size,
            block_ok(block),
            block.access_type is Bit,
            from + block_bytes(block) <= recv@.len() == len,
            part == recv@.subrange(from as int, from + block_bytes(block)),
            values@.len() == before.len() + i,
            forall|j: int| 0 <= j < before.len() ==> #[trigger] values@[j] == before[j],
            forall|j: int|
                0 <= j < i ==> (#[trigger] values@[before.len() + j])@ == one_block(block, part)[j],
        decreases block.size - i,
    {
        let bits: [bool; 8] = bytes::u8_to_bits(recv[from + i / 8]);
        proof {
            assert(part[i as int / 8] == recv@[from + i as int / 8]);
        }
        values.push(
            DeviceData {
                device: Device {
                    device_type: block.start_device.device_type,
                    address: block.start_device.address + i,
                },
                data: TypedData::Bool(bits[i % 8]),
            },
        );
        i = i + 1;
    }
    proof {
        lemma_views_append(before, values@, one_block(block, part));
    }
}

proof fn lemma_views_append(
    before: Seq<DeviceData>,
    after: Seq<DeviceData>,
    added: Seq<DeviceDataView>,
)
    requires
        after.len() == before.len() + added.len(),
        forall|j: int| 0 <= j < before.len() ==> #[trigger] after[j] == before[j],
        forall|j: int| 0 <= j < added.len() ==> (#[trigger] after[before.len() + j])@ == added[j],
    ensures
        device::views(after) == device::views(before) + added,
{
    assert forall|j: int| 0 <= j < after.len() implies device::views(after)[j] == (device::views(
        before,
    ) + added)[j] by {
        if j >= before.len() {
            assert(after[before.len() + (j - before.len())]@ == added[j - before.len()]);
        }
    }
    assert(device::views(after) =~= device::views(before) + added);
}

proof fn lemma_total_bytes_step(blocks: Seq<DeviceBlock>, i: int)
    requires
        0 <= i < blocks.len(),
    ensures
        total_bytes(blocks.take(i + 1)) == total_bytes(blocks.take(i)) + block_bytes(blocks[i]),
{
    assert(blocks.take(i + 1).drop_last() =~= blocks.take(i));
}

proof fn lemma_total_bytes_monotone(blocks: Seq<DeviceBlock>, i: int)
    requires
        0 <= i <= blocks.len(),
    ensures
        0 <= total_bytes(blocks.take(i)) <= total_bytes(blocks),
    decreases blocks.len() - i,
{
    lemma_total_bytes_nonneg(blocks.take(i));
    if i < blocks.len() {
        lemma_total_bytes_monotone(blocks, i + 1);
        lemma_total_bytes_step(blocks, i);
    } else {
        assert(blocks.take(i) =~= blocks);
    }
}

proof fn lemma_total_bytes_nonneg(blocks: Seq<DeviceBlock>)
    ensures
        0 <= total_bytes(blocks),
    decreases blocks.len(),
{
    if blocks.len() > 0 {
        lemma_total_bytes_nonneg(blocks.drop_last());
    }
}

impl SLMPClient {
    /// The request that reads several runs of devices: those of words, then those of bits, each by
    /// address.
    pub fn block_read(&self, device_blocks: Vec<DeviceBlock>) -> (query: SLMPBlockReadQuery)
        ensures
            is_block_read(self.props().cpu, device_blocks@, query),
    {
        let mut words: usize = 0;
        let mut bits: usize = 0;
        let mut i: usize = 0;
        proof {
            reveal_with_fuel(Seq::filter, 1);
            assert(device_blocks@.take(0) =~= Seq::empty());
        }
        while i < device_blocks.len()
            invariant
                i <= device_blocks@.len(),
                words == count_blocks(device_blocks@.take(i as int), AccessType::Word),
                bits == count_blocks(device_blocks@.take(i as int), AccessType::Bit),
                words <= i,
                bits <= i,
            decreases device_blocks@.len() - i,
        {
            proof {
                order::lemma_filter_push(
                    device_blocks@,
                    block_has_access(AccessType::Word),
                    i as int,
                );
                order::lemma_filter_push(
                    device_blocks@,
                    block_has_access(AccessType::Bit),
                    i as int,
                );
            }
            match device_blocks[i].access_type {
                AccessType::Word => {
                    words = words + 1;
                },
                AccessType::Bit => {
                    bits = bits + 1;
                },
            }
            i = i + 1;
        }
        assert(device_blocks@.take(i as int) =~= device_blocks@);
        SLMPBlockReadQuery {
            cpu: self.connection_props().cpu,
            sorted_block: order::stable_sort(device_blocks),
            word_access_points: (words % 256) as u8,
            bit_access_points: (bits % 256) as u8,
        }
    }

    /// Whether [`SLMPClient::block_read_values`] can take a response of `len` bytes apart.
    pub fn block_read_fits(sorted_block: &Vec<DeviceBlock>, len: usize) -> (fits: bool)
        ensures
            fits == block_read_ok(sorted_block@, len as int),
    {
        let mut used: usize = 0;
        let mut i: usize = 0;
        assert(sorted_block@.take(0) =~= Seq::empty());
        while i < sorted_block.len()
            invariant
                i <= sorted_block@.len(),
                used == total_bytes(sorted_block@.take(i as int)),
                used <= len,
                forall|j: int| 0 <= j < i ==> block_ok(#[trigger] sorted_block@[j]),
            decreases sorted_block@.len() - i,
        {
            let block: DeviceBlock = sorted_block[i];
            proof {
                lemma_total_bytes_step(sorted_block@, i as int);
                lemma_total_bytes_monotone(sorted_block@, i + 1);
            }
            let size: u128 = block.size as u128;
            let limit: u128 = usize::MAX as u128;
            if block.start_device.address as u128 + size > limit + 1 {
                assert(!block_ok(sorted_block@[i as int]));
                return false;
            }
            let need: u128 = match block.access_type {
                AccessType::Word => 2 * size,
                AccessType::Bit => {
                    if size + 7 > limit {
                        assert(!block_ok(sorted_block@[i as int]));
                        return false;
                    }
                    (size + 7) / 8
                },
            };
            if used as u128 + need > len as u128 {
                return false;
            }
            used = used + need as usize;
            i = i + 1;
        }
        assert(sorted_block@.take(i as int) =~= sorted_block@);
        true
    }

    /// The values in the response to the request of [`SLMPClient::block_read`], whose blocks these
    /// are.
    pub fn block_read_values(sorted_block: &Vec<DeviceBlock>, recv: &[u8]) -> (values: Vec<DeviceData>)
        requires
            block_read_ok(sorted_block@, recv@.len() as int),
        ensures
            device::views(values@) == block_values(sorted_block@, recv@),
    {
        let len: usize = recv.len();
        let mut values: Vec<DeviceData> = Vec::new();
        let mut at: usize = 0;
        let mut i: usize = 0;
        assert(sorted_block@.take(0) =~= Seq::empty());
        assert(device::views(values@) =~= Seq::empty());
        while i < sorted_block.len()
            invariant
                i <= sorted_block@.len(),
                block_read_ok(sorted_block@, recv@.len() as int),
                recv@.len() == len,
                at == total_bytes(sorted_block@.take(i as int)),
                device::views(values@) == block_values(sorted_block@.take(i as int), recv@),
            decreases sorted_block@.len() - i,
        {
            let block: DeviceBlock = sorted_block[i];
            proof {
                assert(block_ok(sorted_block@[i as int]));
                lemma_total_bytes_step(sorted_block@, i as int);
                lemma_total_bytes_monotone(sorted_block@, i as int);
                lemma_total_bytes_monotone(sorted_block@, i + 1);
                assert(sorted_block@.take(i + 1).drop_last() =~= sorted_block@.take(i as int));
            }
            match block.access_type {
                AccessType::Word => push_words(block, recv, at, &mut values),
                AccessType::Bit => push_bits(block, recv, at, &mut values),
            }
            at = at + bytes_of_block(block);
            i = i + 1;
        }
        assert(sorted_block@.take(i as int) =~= sorted_block@);
        values
    }
}

/// The devices of a block, in order.
pub open spec fn devices_of(block: DeviceBlock) -> Seq<Device> {
    Seq::new(block.size as nat, |i: int| device_at(block.start_device, i))
}

/// The devices of several blocks, one block after the other.
pub open spec fn devices_of_all(blocks: Seq<DeviceBlock>) -> Seq<Device>
    decreases blocks.len(),
{
    if blocks.len() == 0 {
        Seq::empty()
    } else {
        devices_of_all(blocks.drop_last()) + devices_of(blocks.last())
    }
}

/// The devices that values belong to.
pub open spec fn devices_in(values: Seq<DeviceDataView>) -> Seq<Device> {
    values.map_values(|v: DeviceDataView| v.device)
}

/// Reading blocks gives one value for every device of every block, and nothing else.
pub proof fn law_block_read_answers_every_device(blocks: Seq<DeviceBlock>, recv: Seq<u8>)
    ensures
        devices_in(block_values(blocks, recv)) == devices_of_all(blocks),
    decreases blocks.len(),
{
    if blocks.len() > 0 {
        law_block_read_answers_every_device(blocks.drop_last(), recv);
        let before = block_values(blocks.drop_last(), recv);
        let start = total_bytes(blocks.drop_last());
        let one = one_block(
            blocks.last(),
            recv.subrange(start, start + block_bytes(blocks.last())),
        );
        assert(devices_in(before + one) =~= devices_in(before) + devices_in(one));
        assert(devices_in(one) =~= devices_of(blocks.last()));
    }
    assert(devices_in(block_values(blocks, recv)) =~= devices_of_all(blocks));
}

/// Where a response holds what was asked for, reading a run of bits gives exactly the devices that
/// were asked for.
pub proof fn law_bulk_read_answers_bits(start: Device, num: int, recv: Seq<u8>)
    requires
        0 <= num <= 2 * recv.len(),
    ensures
        devices_in(bulk_values(start, num, DataType::Bool, recv)) == Seq::new(
            num as nat,
            |i: int| device_at(start, i),
        ),
{
    assert(devices_in(bulk_values(start, num, DataType::Bool, recv)) =~= Seq::new(
        num as nat,
        |i: int| device_at(start, i),
    ));
}

/// Where a response holds what was asked for, reading a run of values gives one value for each that
/// was asked for, with as many devices between two values as a value has words.
pub proof fn law_bulk_read_answers_words(
    start: Device,
    num: int,
    data_type: DataType,
    recv: Seq<u8>,
)
    requires
        !(data_type is Bool),
        data_type.byte_size_spec() > 0,
        num >= 0,
        recv.len() == num * data_type.byte_size_spec(),
    ensures
        devices_in(bulk_values(start, num, data_type, recv)) == Seq::new(
            num as nat,
            |i: int| device_at(start, (data_type.byte_size_spec() as int / 2) * i),
        ),
{
    let size = data_type.byte_size_spec() as int;
    vstd::arithmetic::div_mod::lemma_div_multiples_vanish(num, size);
    vstd::arithmetic::mul::lemma_mul_is_commutative(num, size);
    assert(devices_in(bulk_values(start, num, data_type, recv)) =~= Seq::new(
        num as nat,
        |i: int| device_at(start, (data_type.byte_size_spec() as int / 2) * i),
    ));
}

/// Every value of a run of devices has the form that its type asks for.
pub proof fn law_bulk_values_well_formed(
    start: Device,
    num: int,
    data_type: DataType,
    recv: Seq<u8>,
    i: int,
)
    requires
        num >= 0,
        data_type.byte_size_spec() > 0,
        0 <= i < bulk_values(start, num, data_type, recv).len(),
    ensures
        bulk_values(start, num, data_type, recv)[i].data.well_formed(),
{
    if !(data_type is Bool) {
        let size = data_type.byte_size_spec() as int;
        let count = recv.len() as int / size;
        vstd::arithmetic::div_mod::lemma_fundamental_div_mod(recv.len() as int, size);
        vstd::arithmetic::div_mod::lemma_mod_bound(recv.len() as int, size);
        assert(0 <= size * i && size * i + size <= size * count) by (nonlinear_arith)
            requires
                0 <= i,
                i + 1 <= count,
                size > 0,
        ;
    }
}

/// Every value of a block has the form that its type asks for.
pub proof fn law_block_values_well_formed(blocks: Seq<DeviceBlock>, recv: Seq<u8>, i: int)
    requires
        total_bytes(blocks) <= recv.len(),
        0 <= i < block_values(blocks, recv).len(),
    ensures
        block_values(blocks, recv)[i].data.well_formed(),
    decreases blocks.len(),
{
    if blocks.len() > 0 {
        let before = blocks.drop_last();
        let start = total_bytes(before);
        lemma_total_bytes_nonneg(before);
        if i < block_values(before, recv).len() {
            law_block_values_well_formed(before, recv, i);
        } else {
            let part = recv.subrange(start, start + block_bytes(blocks.last()));
            let one = one_block(blocks.last(), part);
            assert(block_values(blocks, recv)[i] == one[i - block_values(before, recv).len()]);
        }
    }
}


/// Several pieces, one behind the other.
pub open spec fn joined(parts: Seq<Seq<u8>>) -> Seq<u8>
    decreases parts.len(),
{
    if parts.len() == 0 {
        Seq::empty()
    } else {
        joined(parts.drop_last()) + parts.last()
    }
}

/// The bytes of values, those of each value by themselves.
pub open spec fn pieces(values: Seq<DeviceDataView>) -> Seq<Seq<u8>> {
    values.map_values(
        |v: DeviceDataView|
            match v.data {
                TypedDataView::Words { bytes, .. } => bytes,
                TypedDataView::Bool(_) => Seq::empty(),
            },
    )
}

/// Pieces of one length are together that many times as long.
proof fn lemma_joined(parts: Seq<Seq<u8>>, size: int)
    requires
        size > 0,
        forall|i: int| 0 <= i < parts.len() ==> (#[trigger] parts[i]).len() == size,
    ensures
        joined(parts).len() == size * parts.len(),
    decreases parts.len(),
{
    if parts.len() > 0 {
        let before = parts.drop_last();
        assert forall|i: int| 0 <= i < before.len() implies (#[trigger] before[i]).len() == size by {
            assert(before[i] == parts[i]);
        }
        lemma_joined(before, size);
        assert(parts[parts.len() - 1].len() == size);
        assert(size * parts.len() == size * before.len() + size) by (nonlinear_arith)
            requires
                parts.len() == before.len() + 1,
        ;
    } else {
        assert(size * parts.len() == 0) by (nonlinear_arith)
            requires
                parts.len() == 0,
        ;
    }
}

/// Where all pieces have one length, the place of a byte follows from the number of its piece and its
/// place there.
proof fn lemma_joined_at(parts: Seq<Seq<u8>>, size: int, i: int, j: int)
    requires
        size > 0,
        forall|k: int| 0 <= k < parts.len() ==> (#[trigger] parts[k]).len() == size,
        0 <= i < parts.len(),
        0 <= j < size,
    ensures
        0 <= size * i + j < joined(parts).len(),
        joined(parts)[size * i + j] == parts[i][j],
    decreases parts.len(),
{
    let before = parts.drop_last();
    assert forall|k: int| 0 <= k < before.len() implies (#[trigger] before[k]).len() == size by {
        assert(before[k] == parts[k]);
    }
    lemma_joined(before, size);
    assert(parts[parts.len() - 1].len() == size);
    if i < before.len() {
        lemma_joined_at(before, size, i, j);
        assert(before[i] == parts[i]);
    } else {
        assert(size * i == joined(before).len());
        assert(0 <= size * i) by (nonlinear_arith)
            requires
                0 <= i,
                size > 0,
        ;
    }
}

/// The bits of a run: as many as were asked for, as far as the response holds them, at one address
/// after the other. Bit `i` is the lowest bit of a half of a byte, the upper half of each byte first.
pub proof fn law_bits_of_a_run(start: Device, num: int, recv: Seq<u8>, i: int)
    requires
        num >= 0,
        0 <= i,
        start.address + i <= usize::MAX,
    ensures
        ({
            let values = bulk_values(start, num, DataType::Bool, recv);
            let byte = recv[i / 2];
            &&& values.len() <= num && values.len() <= 2 * recv.len()
            &&& values.len() == num || values.len() == 2 * recv.len()
            &&& i < values.len() ==> {
                &&& values[i].device.device_type == start.device_type
                &&& values[i].device.address == start.address + i
                &&& i % 2 == 0 ==> values[i].data == TypedDataView::Bool((byte >> 4) & 1 == 1)
                &&& i % 2 == 1 ==> values[i].data == TypedDataView::Bool(byte & 1 == 1)
            }
        }),
{
    let byte = recv[i / 2];
    assert((byte >> 4) & 1 == 1 <==> (byte / 16) % 2 == 1) by (bit_vector);
    assert(byte & 1 == 1 <==> byte % 2 == 1) by (bit_vector);
}

/// The values of a run, byte by byte: each has the type that was asked for and its size, byte `j` of
/// value `i` is the byte of the response that many whole values and bytes from its beginning, and the
/// addresses are as far apart as a value has words.
pub proof fn law_values_of_a_run(
    start: Device,
    num: int,
    t: DataType,
    recv: Seq<u8>,
    size: int,
    i: int,
    j: int,
)
    requires
        !(t is Bool),
        size == match t {
            DataType::U32 | DataType::I32 | DataType::F32 => 4int,
            DataType::F64 => 8int,
            DataType::String(words) => 2 * words,
            _ => 2int,
        },
        size > 0,
        0 <= i < recv.len() as int / size,
        0 <= j < size,
        start.address + (size / 2) * i <= usize::MAX,
    ensures
        ({
            let values = bulk_values(start, num, t, recv);
            &&& values.len() == recv.len() as int / size
            &&& values[i].device.device_type == start.device_type
            &&& values[i].device.address == start.address + (size / 2) * i
            &&& values[i].data is Words
            &&& values[i].data->data_type == t
            &&& values[i].data->bytes.len() == size
            &&& 0 <= size * i + j < recv.len()
            &&& values[i].data->bytes[j] == recv[size * i + j]
        }),
{
    lemma_piece_inside(recv.len() as int, size, i);
    assert(0 <= (size / 2) * i) by (nonlinear_arith)
        requires
            0 <= i,
            size > 0,
    ;
}

/// A piece lies inside of what holds that many whole pieces.
proof fn lemma_piece_inside(len: int, size: int, i: int)
    requires
        size > 0,
        0 <= i < len / size,
    ensures
        0 <= size * i,
        size * i + size <= len,
{
    vstd::arithmetic::div_mod::lemma_fundamental_div_mod(len, size);
    vstd::arithmetic::div_mod::lemma_mod_bound(len, size);
    assert(0 <= size * i && size * i + size <= size * (len / size)) by (nonlinear_arith)
        requires
            0 <= i,
            i + 1 <= len / size,
            size > 0,
    ;
}

/// The bytes of the values of a run, one behind the other, are the response up to its last whole
/// value: none is left out, repeated or moved.
pub proof fn law_run_uses_the_whole_response(start: Device, num: int, t: DataType, recv: Seq<u8>)
    requires
        !(t is Bool),
        t != DataType::String(0),
    ensures
        joined(pieces(bulk_values(start, num, t, recv))).is_prefix_of(recv),
        recv.len() - joined(pieces(bulk_values(start, num, t, recv))).len() < match t {
            DataType::U32 | DataType::I32 | DataType::F32 => 4int,
            DataType::F64 => 8int,
            DataType::String(words) => 2 * words,
            _ => 2int,
        },
{
    let size = t.byte_size_spec() as int;
    let values = bulk_values(start, num, t, recv);
    let parts = pieces(values);
    let count = recv.len() as int / size;
    vstd::arithmetic::div_mod::lemma_fundamental_div_mod(recv.len() as int, size);
    vstd::arithmetic::div_mod::lemma_mod_bound(recv.len() as int, size);
    assert forall|i: int| 0 <= i < parts.len() implies (#[trigger] parts[i]).len() == size by {
        lemma_piece_inside(recv.len() as int, size, i);
    }
    lemma_joined(parts, size);
    let all = joined(parts);
    assert forall|k: int| 0 <= k < all.len() implies #[trigger] all[k] == recv[k] by {
        let i = k / size;
        let j = k % size;
        vstd::arithmetic::div_mod::lemma_fundamental_div_mod(k, size);
        vstd::arithmetic::div_mod::lemma_mod_bound(k, size);
        assert(0 <= i < count) by (nonlinear_arith)
            requires
                k == size * i + j,
                0 <= j < size,
                0 <= k < size * count,
                size > 0,
        ;
        lemma_piece_inside(recv.len() as int, size, i);
        lemma_joined_at(parts, size, i, j);
        assert(parts[i][j] == recv[size * i + j]);
    }
    assert(all =~= recv.take(all.len() as int));
}

/// Reading a response that holds values side by side gives exactly those values back, one for each,
/// in their order.
pub proof fn law_run_reads_back(start: Device, num: int, t: DataType, given: Seq<Seq<u8>>)
    requires
        !(t is Bool),
        t != DataType::String(0),
        forall|i: int|
            0 <= i < given.len() ==> (#[trigger] given[i]).len() == match t {
                DataType::U32 | DataType::I32 | DataType::F32 => 4int,
                DataType::F64 => 8int,
                DataType::String(words) => 2 * words,
                _ => 2int,
            },
    ensures
        pieces(bulk_values(start, num, t, joined(given))) == given,
{
    let size = t.byte_size_spec() as int;
    let recv = joined(given);
    let n = given.len() as int;
    assert forall|i: int| 0 <= i < given.len() implies (#[trigger] given[i]).len() == size by {}
    lemma_joined(given, size);
    assert(recv.len() as int / size == n) by {
        vstd::arithmetic::mul::lemma_mul_is_commutative(n, size);
        vstd::arithmetic::div_mod::lemma_div_multiples_vanish(n, size);
    }
    let parts = pieces(bulk_values(start, num, t, recv));
    assert forall|i: int| 0 <= i < given.len() implies #[trigger] parts[i] == given[i] by {
        lemma_piece_inside(recv.len() as int, size, i);
        assert(parts[i].len() == size);
        assert forall|j: int| 0 <= j < size implies parts[i][j] == given[i][j] by {
            lemma_joined_at(given, size, i, j);
        }
        assert(parts[i] =~= given[i]);
    }
    assert(parts =~= given);
}

/// What one block more adds. Its bytes start where those of the blocks before it end: two for every
/// word, and as few as hold a bit for every bit. Its values follow those of the blocks before it, which
/// stay as they are, at one address after the other: word `i` is bytes `2 * i` and `2 * i + 1` of its
/// part, and bit `i` is bit `i % 8`, from the lowest, of byte `i / 8`.
pub proof fn law_one_block_more(blocks: Seq<DeviceBlock>, block: DeviceBlock, recv: Seq<u8>, i: int)
    requires
        total_bytes(blocks.push(block)) <= recv.len(),
        0 <= i < block.size,
        block.start_device.address + i <= usize::MAX,
    ensures
        ({
            let at = total_bytes(blocks);
            let len = total_bytes(blocks.push(block)) - at;
            let before = block_values(blocks, recv);
            let values = block_values(blocks.push(block), recv);
            let value = values[before.len() + i];
            &&& 0 <= at
            &&& total_bytes(Seq::<DeviceBlock>::empty()) == 0
            &&& block_values(Seq::<DeviceBlock>::empty(), recv).len() == 0
            &&& block.access_type is Word ==> len == 2 * block.size
            &&& block.access_type is Bit ==> block.size <= 8 * len < block.size + 8
            &&& values.len() == before.len() + block.size
            &&& before == values.take(before.len() as int)
            &&& value.device.device_type == block.start_device.device_type
            &&& value.device.address == block.start_device.address + i
            &&& block.access_type is Word ==> value.data == (TypedDataView::Words {
                data_type: DataType::U16,
                bytes: seq![recv[at + 2 * i], recv[at + 2 * i + 1]],
            })
            &&& block.access_type is Bit ==> value.data == TypedDataView::Bool(
                (recv[at + i / 8] >> ((i % 8) as u8)) & 1 == 1,
            )
        }),
{
    let all = blocks.push(block);
    assert(all.drop_last() =~= blocks);
    lemma_total_bytes_nonneg(blocks);
    let at = total_bytes(blocks);
    let part = recv.subrange(at, at + block_bytes(block));
    let one = one_block(block, part);
    let before = block_values(blocks, recv);
    let values = block_values(all, recv);
    assert(values == before + one);
    assert(values.take(before.len() as int) =~= before);
    assert(values[before.len() + i] == one[i]);
    match block.access_type {
        AccessType::Word => {
            assert(part.subrange(2 * i, 2 * i + 2) =~= seq![recv[at + 2 * i], recv[at + 2 * i + 1]]);
        },
        AccessType::Bit => {
            assert(part[i / 8] == recv[at + i / 8]);
            bytes::law_bits_are_places(recv[at + i / 8], (i % 8) as u8);
        },
    }
}

/// The bytes of the words of several blocks, one behind the other, are the beginning of the response:
/// no byte is left out, read twice or moved.
pub proof fn law_word_blocks_use_the_response_in_order(blocks: Seq<DeviceBlock>, recv: Seq<u8>)
    requires
        total_bytes(blocks) <= recv.len(),
        forall|i: int| 0 <= i < blocks.len() ==> (#[trigger] blocks[i]).access_type is Word,
    ensures
        total_bytes(blocks) == 2 * block_values(blocks, recv).len(),
        joined(pieces(block_values(blocks, recv))) == recv.take(
            2 * block_values(blocks, recv).len() as int,
        ),
    decreases blocks.len(),
{
    let values = block_values(blocks, recv);
    if blocks.len() == 0 {
        assert(pieces(values) =~= Seq::empty());
        assert(recv.take(0) =~= Seq::empty());
    } else {
        let before = blocks.drop_last();
        let block = blocks.last();
        assert(block.access_type is Word) by {
            assert(blocks[blocks.len() - 1].access_type is Word);
        }
        assert forall|i: int| 0 <= i < before.len() implies (
        #[trigger] before[i]).access_type is Word by {
            assert(before[i] == blocks[i]);
        }
        law_word_blocks_use_the_response_in_order(before, recv);
        let at = total_bytes(before);
        let part = recv.subrange(at, at + block_bytes(block));
        let one = one_block(block, part);
        let earlier = pieces(block_values(before, recv));
        let parts = pieces(one);
        assert(pieces(values) =~= earlier + parts);
        lemma_joined_append(earlier, parts);
        assert forall|i: int| 0 <= i < parts.len() implies (#[trigger] parts[i]).len() == 2 by {}
        lemma_joined(parts, 2);
        assert forall|k: int| 0 <= k < part.len() implies #[trigger] joined(parts)[k] == part[k] by {
            let i = k / 2;
            assert(parts[i][k % 2] == part[2 * i + k % 2]);
            lemma_joined_at(parts, 2, i, k % 2);
        }
        assert(joined(parts) =~= part);
        assert(recv.take(at) + part =~= recv.take(at + block_bytes(block)));
    }
}

proof fn lemma_joined_append(a: Seq<Seq<u8>>, b: Seq<Seq<u8>>)
    ensures
        joined(a + b) == joined(a) + joined(b),
    decreases b.len(),
{
    if b.len() == 0 {
        assert(a + b =~= a);
        assert(joined(a) + joined(b) =~= joined(a));
    } else {
        lemma_joined_append(a, b.drop_last());
        assert((a + b).drop_last() =~= a + b.drop_last());
        assert((a + b).last() == b.last());
        assert(joined(a + b) =~= joined(a) + joined(b));
    }
}

/// What is read does not depend on what follows the blocks in the response.
pub proof fn law_rest_of_the_response_is_not_read(
    blocks: Seq<DeviceBlock>,
    recv: Seq<u8>,
    rest: Seq<u8>,
)
    requires
        total_bytes(blocks) <= recv.len(),
    ensures
        block_values(blocks, recv + rest) == block_values(blocks, recv),
    decreases blocks.len(),
{
    if blocks.len() > 0 {
        let before = blocks.drop_last();
        lemma_total_bytes_nonneg(before);
        law_rest_of_the_response_is_not_read(before, recv, rest);
        let at = total_bytes(before);
        let end = at + block_bytes(blocks.last());
        assert((recv + rest).subrange(at, end) =~= recv.subrange(at, end));
    }
}

/// What is asked for: a run as it was given, and several runs all of them, those of words first and
/// within each kind by address, equal ones in the order given, with the number of each kind in one
/// byte.
pub proof fn law_what_is_asked_for(
    cpu: CPU,
    start: Device,
    num: usize,
    t: DataType,
    run: SLMPBulkReadQuery,
    blocks: Seq<DeviceBlock>,
    query: SLMPBlockReadQuery,
    i: int,
    j: int,
    access: AccessType,
    address: usize,
)
    requires
        is_bulk_read(cpu, start, num, t, run),
        is_block_read(cpu, blocks, query),
    ensures
        run.cpu == cpu && run.start_device == start && run.device_num == num && run.data_type == t,
        ({
            let s = query.sorted_block@;
            &&& query.cpu == cpu
            &&& query.word_access_points == blocks.filter(
                |b: DeviceBlock| b.access_type is Word,
            ).len() % 256
            &&& query.bit_access_points == blocks.filter(
                |b: DeviceBlock| b.access_type is Bit,
            ).len() % 256
            &&& s.to_multiset() == blocks.to_multiset()
            &&& 0 <= i < j < s.len() ==> {
                ||| s[i].access_type is Word && s[j].access_type is Bit
                ||| s[i].access_type == s[j].access_type && s[i].start_device.address
                    <= s[j].start_device.address
            }
            &&& s.filter(
                |b: DeviceBlock| b.access_type == access && b.start_device.address == address,
            ) == blocks.filter(
                |b: DeviceBlock| b.access_type == access && b.start_device.address == address,
            )
        }),
{
    let s = query.sorted_block@;
    let key = device::by_access_and_address();
    let k = (access.rank(), address as int);
    assert(block_has_access(AccessType::Word) =~= (|b: DeviceBlock| b.access_type is Word));
    assert(block_has_access(AccessType::Bit) =~= (|b: DeviceBlock| b.access_type is Bit));
    order::law_stable_sort_keeps_items(blocks, s, key);
    if 0 <= i < j < s.len() {
        order::law_sorted_left_to_right(blocks, s, key, i, j, k);
    }
    let same = |b: DeviceBlock| b.access_type == access && b.start_device.address == address;
    assert(order::has_key(key, k) =~= same);
    assert(order::with_key(s, key, k) == order::with_key(blocks, key, k));
}

/// What can be taken apart: a run whose values have a size and whose addresses all fit the machine
/// word, and blocks whose bytes the response holds and whose addresses all fit.
pub proof fn law_what_can_be_read(
    start: Device,
    num: int,
    t: DataType,
    len: int,
    block: DeviceBlock,
    blocks: Seq<DeviceBlock>,
)
    requires
        num >= 0,
        len >= 0,
    ensures
        bulk_read_ok(start, num, DataType::Bool, len) <==> forall|i: int|
            0 <= i < num && i < 2 * len ==> #[trigger] (start.address + i) <= usize::MAX,
        !(t is Bool) ==> (bulk_read_ok(start, num, t, len) <==> t != DataType::String(0) && forall|
            i: int,
        |
            0 <= i < len / t.byte_size_spec() as int ==> #[trigger] (start.address + (
            t.byte_size_spec() as int / 2) * i) <= usize::MAX),
        block.access_type is Word || block.size + 7 <= usize::MAX ==> (block_ok(block) <==> forall|
            i: int,
        |
            0 <= i < block.size ==> #[trigger] (block.start_device.address + i) <= usize::MAX),
        block.access_type is Bit && block.size + 7 > usize::MAX ==> !block_ok(block),
        block_read_ok(blocks.push(block), len) <==> {
            &&& total_bytes(blocks.push(block)) <= len
            &&& block_ok(block)
            &&& block_read_ok(blocks, len)
        },
        block_read_ok(Seq::<DeviceBlock>::empty(), len),
{
    let all = blocks.push(block);
    assert(all.drop_last() =~= blocks);
    lemma_total_bytes_nonneg(seq![block]);
    assert(seq![block].drop_last() =~= Seq::empty());
    assert(all[blocks.len() as int] == block);
    if block_read_ok(all, len) {
        assert forall|i: int| 0 <= i < blocks.len() implies block_ok(#[trigger] blocks[i]) by {
            assert(block_ok(all[i]));
        }
    }
    let count = bit_count(num, len);
    if count > 0 {
        assert(start.address + (count - 1) == start.address + count - 1);
    }
    if !(t is Bool) {
        let size = t.byte_size_spec() as int;
        let skip = size / 2;
        if size > 0 {
            vstd::arithmetic::div_mod::lemma_div_pos_is_pos(len, size);
            let n = len / size;
            if start.address + skip * (n - 1) <= usize::MAX {
                assert forall|i: int| 0 <= i < n implies #[trigger] (start.address + skip * i)
                    <= usize::MAX by {
                    assert(skip * i <= skip * (n - 1)) by (nonlinear_arith)
                        requires
                            i <= n - 1,
                            0 <= skip,
                    ;
                }
            }
            if n > 0 {
                assert(start.address + skip * (n - 1) == start.address + skip * (n - 1));
            } else {
                assert(skip * (n - 1) <= 0) by (nonlinear_arith)
                    requires
                        n == 0,
                        0 <= skip,
                ;
            }
        }
    }
    if block.size > 0 {
        assert(block.start_device.address + (block.size - 1) == block.start_device.address
            + block.size - 1);
    }
}


/// What a block takes of a response and gives of values, whatever its size: two bytes for every word,
/// as few bytes as hold a bit for every bit, and one value for every word or bit.
pub proof fn law_share_of_a_block(blocks: Seq<DeviceBlock>, block: DeviceBlock, recv: Seq<u8>)
    ensures
        ({
            let len = total_bytes(blocks.push(block)) - total_bytes(blocks);
            let before = block_values(blocks, recv);
            let after = block_values(blocks.push(block), recv);
            &&& total_bytes(Seq::<DeviceBlock>::empty()) == 0
            &&& block.access_type is Word ==> len == 2 * block.size
            &&& block.access_type is Bit ==> block.size <= 8 * len < block.size + 8
            &&& after.len() == before.len() + block.size
            &&& after.take(before.len() as int) == before
        }),
{
    assert(blocks.push(block).drop_last() =~= blocks);
    let before = block_values(blocks, recv);
    assert(block_values(blocks.push(block), recv).take(before.len() as int) =~= before);
}

} // verus!
