//! Writing devices: which requests are made, and what each of them holds.
use vstd::prelude::*;

use crate::client::SLMPClient;
use crate::device::{
    self, AccessType, BlockedDeviceData, DataType, Device, DeviceData, DeviceSize, TypedData,
};
use crate::error::{SlmpError, SlmpResult};
use crate::order;
use crate::props::CPU;

verus! {

/// A request to write a run of devices.
#[derive(Debug)]
pub struct SLMPBulkWriteQuery {
    pub cpu: CPU,
    pub start_device: Device,
    pub data: Vec<TypedData>,
}

/// A request to write single devices.
#[derive(Debug)]
pub struct SLMPRandomWriteQuery {
    pub cpu: CPU,
    pub sorted_data: Vec<DeviceData>,
    pub access_type: AccessType,
    pub bit_access_points: u8,
    pub single_word_access_points: u8,
    pub double_word_access_points: u8,
}

/// The requests that write single devices, in the order in which they are made.
#[derive(Debug)]
pub struct RandomWrite {
    /// The request for everything but bits.
    pub words: Option<SLMPRandomWriteQuery>,
    /// The request for bits.
    pub bits: Option<SLMPRandomWriteQuery>,
}

/// What to do next while single devices are written.
#[derive(Debug)]
pub enum RandomWriteAction {
    /// Make this request.
    Send(SLMPRandomWriteQuery),
    /// Writing is over.
    Finish(SlmpResult<()>),
}

/// A request to write several runs of devices.
#[derive(Debug)]
pub struct SLMPBlockWriteQuery {
    pub cpu: CPU,
    pub sorted_data: Vec<BlockedDeviceData>,
    pub word_access_points: u8,
    pub bit_access_points: u8,
}

/// The request that writes a run of devices, if there is anything to write.
pub open spec fn bulk_write_query(
    cpu: CPU,
    start_device: Device,
    data: Vec<TypedData>,
) -> Option<SLMPBulkWriteQuery> {
    if data@.len() > 0 {
        Some(SLMPBulkWriteQuery { cpu, start_device, data })
    } else {
        None
    }
}

/// The condition that a value is one bit.
pub open spec fn is_bit() -> spec_fn(DeviceData) -> bool {
    |d: DeviceData| d.data is Bool
}

/// The condition that a value is anything but one bit.
pub open spec fn is_word() -> spec_fn(DeviceData) -> bool {
    |d: DeviceData| !(d.data is Bool)
}

/// The condition that a value takes a certain room.
pub open spec fn has_size(size: DeviceSize) -> spec_fn(DeviceData) -> bool {
    |d: DeviceData| d.data.type_spec().device_size_spec() == size
}

/// The condition that a block has a certain access type.
pub open spec fn has_access(access_type: AccessType) -> spec_fn(BlockedDeviceData) -> bool {
    |b: BlockedDeviceData| b.access_type == access_type
}

/// How many of the values take exactly this room.
pub open spec fn count_size(data: Seq<DeviceData>, size: DeviceSize) -> nat {
    data.filter(has_size(size)).len()
}

/// How many of the blocks have this access type.
pub open spec fn count_access(data: Seq<BlockedDeviceData>, access_type: AccessType) -> nat {
    data.filter(has_access(access_type)).len()
}

/// The words that the values of more than two words take together.
pub open spec fn multi_words(data: Seq<DeviceData>) -> nat
    decreases data.len(),
{
    if data.len() == 0 {
        0
    } else {
        let before = multi_words(data.drop_last());
        match data.last().data.type_spec().device_size_spec() {
            DeviceSize::MultiWord(words) => before + words as nat,
            _ => before,
        }
    }
}

/// A count as the one byte of a request holds it: its low eight bits.
pub open spec fn count_byte(count: nat) -> int {
    (count % 256) as int
}

/// The number of single words that a request announces.
pub open spec fn single_points(data: Seq<DeviceData>) -> int {
    count_byte(count_size(data, DeviceSize::SingleWord)) + multi_words(data)
}

/// The number of double words that a request announces.
pub open spec fn double_points(data: Seq<DeviceData>) -> int {
    count_byte(count_size(data, DeviceSize::DoubleWord))
}

/// The number of bits that a request announces.
pub open spec fn bit_points(data: Seq<DeviceData>) -> int {
    count_byte(data.filter(is_bit()).len())
}

/// Whether the announced numbers of words fit into one byte.
pub open spec fn random_write_ok(data: Seq<DeviceData>) -> bool {
    single_points(data) + double_points(data) <= 255
}

/// Whether the announced numbers of blocks fit into one byte.
pub open spec fn block_write_ok(data: Seq<BlockedDeviceData>) -> bool {
    count_byte(count_access(data, AccessType::Word)) + count_byte(
        count_access(data, AccessType::Bit),
    ) <= 255
}

/// Whether `query` writes the words among `data`.
pub open spec fn is_word_query(cpu: CPU, data: Seq<DeviceData>, query: SLMPRandomWriteQuery) -> bool {
    &&& query.cpu == cpu
    &&& query.access_type is Word
    &&& order::is_stable_sort(
        data.filter(is_word()),
        query.sorted_data@,
        device::by_type_and_address(),
    )
    &&& query.bit_access_points == 0
    &&& query.single_word_access_points == single_points(data)
    &&& query.double_word_access_points == double_points(data)
}

/// Whether `query` writes the bits among `data`.
pub open spec fn is_bit_query(cpu: CPU, data: Seq<DeviceData>, query: SLMPRandomWriteQuery) -> bool {
    &&& query.cpu == cpu
    &&& query.access_type is Bit
    &&& order::is_stable_sort(
        data.filter(is_bit()),
        query.sorted_data@,
        device::by_type_and_address(),
    )
    &&& query.bit_access_points == bit_points(data)
    &&& query.single_word_access_points == 0
    &&& query.double_word_access_points == 0
}

/// Whether `write` holds the requests that write `data`: each is made exactly where it announces at
/// least one device.
pub open spec fn is_random_write(cpu: CPU, data: Seq<DeviceData>, write: RandomWrite) -> bool {
    &&& match write.words {
        Some(query) => single_points(data) + double_points(data) > 0 && is_word_query(
            cpu,
            data,
            query,
        ),
        None => single_points(data) + double_points(data) == 0,
    }
    &&& match write.bits {
        Some(query) => bit_points(data) > 0 && is_bit_query(cpu, data, query),
        None => bit_points(data) == 0,
    }
}

/// Whether `query` is the request that writes `data`, or there is none because it would announce
/// nothing.
pub open spec fn is_block_write(
    cpu: CPU,
    data: Seq<BlockedDeviceData>,
    query: Option<SLMPBlockWriteQuery>,
) -> bool {
    let words = count_byte(count_access(data, AccessType::Word));
    let bits = count_byte(count_access(data, AccessType::Bit));
    match query {
        Some(query) => {
            &&& query.cpu == cpu
            &&& order::is_stable_sort(data, query.sorted_data@, device::by_access())
            &&& query.word_access_points == words
            &&& query.bit_access_points == bits
            &&& words + bits > 0
        },
        None => words + bits == 0,
    }
}

/// What is done next while `write` holds the requests that are still to be made and `last` is the
/// outcome of the request before: a failure ends the writing as it is.
pub open spec fn random_write_action(write: RandomWrite, last: SlmpResult<()>) -> RandomWriteAction {
    match (last, write.words, write.bits) {
        (Err(e), _, _) => RandomWriteAction::Finish(Err(e)),
        (Ok(_), Some(words), _) => RandomWriteAction::Send(words),
        (Ok(_), None, Some(bits)) => RandomWriteAction::Send(bits),
        (Ok(_), None, None) => RandomWriteAction::Finish(Ok(())),
    }
}

/// The requests that are still to be made after that.
pub open spec fn random_write_rest(write: RandomWrite, last: SlmpResult<()>) -> RandomWrite {
    RandomWrite {
        words: None,
        bits: if last is Ok && write.words is Some {
            write.bits
        } else {
            None
        },
    }
}

impl RandomWrite {
    /// The next step of writing single devices. `last` is the outcome of the request before; where
    /// there was none, it is a success.
    ///
    /// The request for bits is only made once the request for words, if there is one, has
    /// succeeded.
    pub fn step(&mut self, last: SlmpResult<()>) -> (action: RandomWriteAction)
        ensures
            action == random_write_action(*old(self), last),
            *final(self) == random_write_rest(*old(self), last),
    {
        match last {
            Ok(_) => {
                if let Some(words) = self.words.take() {
                    return RandomWriteAction::Send(words);
                }
                match self.bits.take() {
                    Some(bits) => RandomWriteAction::Send(bits),
                    None => RandomWriteAction::Finish(Ok(())),
                }
            },
            Err(e) => {
                self.words = None;
                self.bits = None;
                RandomWriteAction::Finish(Err(e))
            },
        }
    }
}

/// Values by the room that they take.
struct Points {
    single: usize,
    double: usize,
    multi: u128,
}

/// Counts values by the room that they take.
fn count_points(data: &Vec<DeviceData>) -> (points: Points)
    ensures
        points.single == count_size(data@, DeviceSize::SingleWord),
        points.double == count_size(data@, DeviceSize::DoubleWord),
        points.multi == multi_words(data@),
{
    let mut points: Points = Points { single: 0, double: 0, multi: 0 };
    let mut i: usize = 0;
    proof {
        reveal_with_fuel(Seq::filter, 1);
        assert(data@.take(0) =~= Seq::empty());
    }
    while i < data.len()
        invariant
            i <= data@.len(),
            points.single == count_size(data@.take(i as int), DeviceSize::SingleWord),
            points.double == count_size(data@.take(i as int), DeviceSize::DoubleWord),
            points.multi == multi_words(data@.take(i as int)),
            points.single <= i,
            points.double <= i,
            points.multi <= 255 * i,
        decreases data@.len() - i,
    {
        proof {
            order::lemma_filter_push(data@, has_size(DeviceSize::SingleWord), i as int);
            order::lemma_filter_push(data@, has_size(DeviceSize::DoubleWord), i as int);
            assert(data@.take(i + 1).drop_last() =~= data@.take(i as int));
        }
        match data[i].data.get_type().device_size() {
            DeviceSize::Bit => {},
            DeviceSize::SingleWord => {
                points.single = points.single + 1;
            },
            DeviceSize::DoubleWord => {
                points.double = points.double + 1;
            },
            DeviceSize::MultiWord(words) => {
                points.multi = points.multi + words as u128;
            },
        }
        i = i + 1;
    }
    assert(data@.take(i as int) =~= data@);
    points
}

impl SLMPClient {
    /// The request that writes a run of devices; nothing is sent where there is nothing to write.
    pub fn bulk_write(&self, start_device: Device, data: Vec<TypedData>) -> (query: Option<
        SLMPBulkWriteQuery,
    >)
        ensures
            query == bulk_write_query(self.props().cpu, start_device, data),
    {
        if data.len() > 0 {
            Some(SLMPBulkWriteQuery { cpu: self.connection_props().cpu, start_device, data })
        } else {
            None
        }
    }

    /// Whether the numbers of words that [`SLMPClient::random_write`] announces fit into one byte.
    pub fn random_write_fits(data: &Vec<DeviceData>) -> (fits: bool)
        ensures
            fits == random_write_ok(data@),
    {
        let points: Points = count_points(data);
        points.multi <= 255 && (points.single % 256) as u128 + points.multi + (points.double
            % 256) as u128 <= 255
    }

    /// The requests that write single devices: first everything but bits, sorted by type and
    /// within one type by address, then the bits, sorted by address.
    ///
    /// A request is made where it announces at least one device.
    pub fn random_write(&self, data: Vec<DeviceData>) -> (write: RandomWrite)
        requires
            random_write_ok(data@),
        ensures
            is_random_write(self.props().cpu, data@, write),
    {
        let points: Points = count_points(&data);
        let single: u8 = ((points.single % 256) as u128 + points.multi) as u8;
        let double: u8 = (points.double % 256) as u8;
        let cpu: CPU = self.connection_props().cpu;

        let ghost all = data@;
        let mut words: Vec<DeviceData> = Vec::new();
        let mut bits: Vec<DeviceData> = Vec::new();
        proof {
            reveal_with_fuel(Seq::filter, 1);
            assert(all.take(0) =~= Seq::empty());
        }
        for d in it: data
            invariant
                it.seq() == all,
                words@ == all.take(it.index()).filter(is_word()),
                bits@ == all.take(it.index()).filter(is_bit()),
        {
            proof {
                order::lemma_filter_push(all, is_word(), it.index());
                order::lemma_filter_push(all, is_bit(), it.index());
            }
            match d.data {
                TypedData::Bool(_) => bits.push(d),
                _ => words.push(d),
            }
        }
        assert(all.take(all.len() as int) =~= all);

        let bit_count: u8 = (bits.len() % 256) as u8;
        RandomWrite {
            words: if single + double > 0 {
                Some(
                    SLMPRandomWriteQuery {
                        cpu,
                        sorted_data: order::stable_sort(words),
                        access_type: AccessType::Word,
                        bit_access_points: 0,
                        single_word_access_points: single,
                        double_word_access_points: double,
                    },
                )
            } else {
                None
            },
            bits: if bit_count > 0 {
                Some(
                    SLMPRandomWriteQuery {
                        cpu,
                        sorted_data: order::stable_sort(bits),
                        access_type: AccessType::Bit,
                        bit_access_points: bit_count,
                        single_word_access_points: 0,
                        double_word_access_points: 0,
                    },
                )
            } else {
                None
            },
        }
    }

    /// Whether the numbers of blocks that [`SLMPClient::block_write`] announces fit into one byte.
    pub fn block_write_fits(data: &Vec<BlockedDeviceData>) -> (fits: bool)
        ensures
            fits == block_write_ok(data@),
    {
        let (words, bits) = count_blocks(data);
        (words % 256) + (bits % 256) <= 255
    }

    /// The request that writes several runs of devices: those of words, then those of bits, each
    /// in the order given; nothing is sent where there is nothing to announce.
    pub fn block_write(&self, data: Vec<BlockedDeviceData>) -> (query: Option<SLMPBlockWriteQuery>)
        requires
            block_write_ok(data@),
        ensures
            is_block_write(self.props().cpu, data@, query),
    {
        let (words, bits) = count_blocks(&data);
        let word_access_points: u8 = (words % 256) as u8;
        let bit_access_points: u8 = (bits % 256) as u8;
        if word_access_points + bit_access_points > 0 {
            Some(
                SLMPBlockWriteQuery {
                    cpu: self.connection_props().cpu,
                    sorted_data: order::stable_sort(data),
                    word_access_points,
                    bit_access_points,
                },
            )
        } else {
            None
        }
    }
}

/// Counts blocks of words and blocks of bits.
fn count_blocks(data: &Vec<BlockedDeviceData>) -> (counts: (usize, usize))
    ensures
        counts.0 == count_access(data@, AccessType::Word),
        counts.1 == count_access(data@, AccessType::Bit),
{
    let mut words: usize = 0;
    let mut bits: usize = 0;
    let mut i: usize = 0;
    proof {
        reveal_with_fuel(Seq::filter, 1);
        assert(data@.take(0) =~= Seq::empty());
    }
    while i < data.len()
        invariant
            i <= data@.len(),
            words == count_access(data@.take(i as int), AccessType::Word),
            bits == count_access(data@.take(i as int), AccessType::Bit),
            words <= i,
            bits <= i,
        decreases data@.len() - i,
    {
        proof {
            order::lemma_filter_push(data@, has_access(AccessType::Word), i as int);
            order::lemma_filter_push(data@, has_access(AccessType::Bit), i as int);
        }
        match data[i].access_type {
            AccessType::Word => {
                words = words + 1;
            },
            AccessType::Bit => {
                bits = bits + 1;
            },
        }
        i = i + 1;
    }
    assert(data@.take(i as int) =~= data@);
    (words, bits)
}

/// Keeping what meets a condition and keeping what does not splits a sequence.
proof fn lemma_filter_split<T>(s: Seq<T>, p: spec_fn(T) -> bool, q: spec_fn(T) -> bool)
    requires
        forall|x: T| #[trigger] q(x) == !p(x),
    ensures
        s.filter(p).to_multiset().add(s.filter(q).to_multiset()) == s.to_multiset(),
    decreases s.len(),
{
    broadcast use vstd::seq_lib::group_to_multiset_ensures;

    reveal_with_fuel(Seq::filter, 1);
    if s.len() > 0 {
        let s0 = s.drop_last();
        lemma_filter_split(s0, p, q);
        assert(q(s.last()) == !p(s.last()));
        assert(s =~= s0.push(s.last()));
    }
    assert(s.filter(p).to_multiset().add(s.filter(q).to_multiset()) =~= s.to_multiset());
}

/// A filter only looks at what is there.
proof fn lemma_filter_agree<T>(s: Seq<T>, p: spec_fn(T) -> bool, q: spec_fn(T) -> bool)
    requires
        forall|i: int| 0 <= i < s.len() ==> p(#[trigger] s[i]) == q(s[i]),
    ensures
        s.filter(p) == s.filter(q),
    decreases s.len(),
{
    reveal_with_fuel(Seq::filter, 1);
    if s.len() > 0 {
        let s0 = s.drop_last();
        assert forall|i: int| 0 <= i < s0.len() implies p(#[trigger] s0[i]) == q(s0[i]) by {
            assert(s0[i] == s[i]);
        }
        lemma_filter_agree(s0, p, q);
        assert(p(s[s.len() - 1]) == q(s[s.len() - 1]));
    }
}

/// The list of words and the list of bits together hold exactly the values that were given.
proof fn lemma_lists_cover(data: Seq<DeviceData>, words: Seq<DeviceData>, bits: Seq<DeviceData>)
    requires
        order::is_stable_sort(data.filter(is_word()), words, device::by_type_and_address()),
        order::is_stable_sort(data.filter(is_bit()), bits, device::by_type_and_address()),
    ensures
        words.to_multiset().add(bits.to_multiset()) == data.to_multiset(),
{
    lemma_filter_split(data, is_word(), is_bit());
    order::law_stable_sort_keeps_items(
        data.filter(is_word()),
        words,
        device::by_type_and_address(),
    );
    order::law_stable_sort_keeps_items(data.filter(is_bit()), bits, device::by_type_and_address());
}

/// Whether a value has the form that its type asks for, and takes any room at all: text of no words
/// does not.
pub open spec fn takes_room(d: DeviceData) -> bool {
    d.data@.well_formed() && d.data.type_spec() != DataType::String(0)
}

/// The true number of words and double words that values take, with a value of more than two words
/// counted by its words.
pub open spec fn true_points(data: Seq<DeviceData>) -> nat {
    count_size(data, DeviceSize::SingleWord) + count_size(data, DeviceSize::DoubleWord)
        + multi_words(data)
}

/// Every value but a bit is counted at least once.
proof fn lemma_words_are_counted(data: Seq<DeviceData>)
    requires
        forall|i: int| 0 <= i < data.len() ==> takes_room(#[trigger] data[i]),
    ensures
        data.filter(is_word()).len() <= true_points(data),
    decreases data.len(),
{
    reveal_with_fuel(Seq::filter, 1);
    if data.len() > 0 {
        let before = data.drop_last();
        assert forall|i: int| 0 <= i < before.len() implies takes_room(#[trigger] before[i]) by {
            assert(before[i] == data[i]);
        }
        lemma_words_are_counted(before);
        assert(takes_room(data[data.len() - 1]));
    }
}

/// The values that a request writes; where no request is made, it writes none.
pub open spec fn written(query: Option<SLMPRandomWriteQuery>) -> Seq<DeviceData> {
    match query {
        Some(query) => query.sorted_data@,
        None => Seq::empty(),
    }
}

/// Writing single devices loses no value and repeats none: the requests together write exactly the
/// values that were given, as long as one byte can count the words and one byte the bits.
pub proof fn law_random_write_covers(cpu: CPU, data: Seq<DeviceData>, write: RandomWrite)
    requires
        is_random_write(cpu, data, write),
        forall|i: int| 0 <= i < data.len() ==> takes_room(#[trigger] data[i]),
        true_points(data) <= 255,
        data.filter(is_bit()).len() <= 255,
    ensures
        written(write.words).to_multiset().add(written(write.bits).to_multiset())
            == data.to_multiset(),
{
    let words = data.filter(is_word());
    let bits = data.filter(is_bit());
    lemma_words_are_counted(data);
    if write.words is None {
        assert(words =~= Seq::empty());
    }
    if write.bits is None {
        assert(bits =~= Seq::empty());
    }
    lemma_lists_cover(data, written(write.words), written(write.bits));
}

/// Writing runs of devices loses no run and repeats none: where runs are given, and no more than one
/// byte can count, one request is made that writes them all and announces their true numbers.
pub proof fn law_block_write_covers(
    cpu: CPU,
    data: Seq<BlockedDeviceData>,
    query: Option<SLMPBlockWriteQuery>,
)
    requires
        is_block_write(cpu, data, query),
        0 < data.len() <= 255,
    ensures
        query is Some,
        query->Some_0.sorted_data@.to_multiset() == data.to_multiset(),
        query->Some_0.word_access_points == count_access(data, AccessType::Word),
        query->Some_0.bit_access_points == count_access(data, AccessType::Bit),
{
    data.lemma_filter_len(has_access(AccessType::Word));
    data.lemma_filter_len(has_access(AccessType::Bit));
    let last = data.len() - 1;
    match data[last].access_type {
        AccessType::Word => {
            data.lemma_filter_contains(has_access(AccessType::Word), last);
        },
        AccessType::Bit => {
            data.lemma_filter_contains(has_access(AccessType::Bit), last);
        },
    }
    if let Some(query) = query {
        order::law_stable_sort_keeps_items(data, query.sorted_data@, device::by_access());
    }
}

/// Where the request for words fails, its error is the outcome, and the request for bits is not made,
/// neither then nor later.
pub proof fn law_failed_words_end_the_write(write: RandomWrite, error: SlmpError, later: SlmpResult<()>)
    requires
        write.words is Some,
    ensures
        ({
            let rest = random_write_rest(write, Ok(()));
            let end = random_write_rest(rest, Err(error));
            &&& random_write_action(write, Ok(())) == RandomWriteAction::Send(write.words->Some_0)
            &&& random_write_action(rest, Err(error)) == RandomWriteAction::Finish(Err(error))
            &&& !(random_write_action(end, later) is Send)
        }),
{
}

/// Where every request succeeds, the requests are made in their order, each once, and writing
/// succeeds.
pub proof fn law_every_request_is_made(write: RandomWrite)
    ensures
        ({
            let first = random_write_action(write, Ok(()));
            let rest = random_write_rest(write, Ok(()));
            let second = random_write_action(rest, Ok(()));
            let end = random_write_rest(rest, Ok(()));
            &&& write.words matches Some(words) ==> first == RandomWriteAction::Send(words)
            &&& (write.words is None && write.bits is Some) ==> first == RandomWriteAction::Send(
                write.bits->Some_0,
            )
            &&& (write.words is None && write.bits is None) ==> first == RandomWriteAction::Finish(
                Ok(()),
            )
            &&& (write.words is Some && write.bits is Some) ==> second == RandomWriteAction::Send(
                write.bits->Some_0,
            )
            &&& !(write.words is Some && write.bits is Some) ==> second
                == RandomWriteAction::Finish(Ok(()))
            &&& random_write_action(end, Ok(())) == RandomWriteAction::Finish(Ok(()))
        }),
{
}

/// The order of bits in a request: by address.
pub open spec fn by_address() -> spec_fn(DeviceData) -> order::Key {
    |d: DeviceData| (d.device.address as int, 0int)
}

/// Bits are listed by address, and bits of one address in the order given.
pub proof fn law_bits_sorted_by_address(data: Seq<DeviceData>, bits: Seq<DeviceData>)
    requires
        order::is_stable_sort(data.filter(is_bit()), bits, device::by_type_and_address()),
    ensures
        order::is_stable_sort(data.filter(is_bit()), bits, by_address()),
{
    broadcast use vstd::seq_lib::group_to_multiset_ensures;

    let given = data.filter(is_bit());
    let full = device::by_type_and_address();
    order::law_stable_sort_keeps_items(given, bits, full);
    assert forall|i: int| 0 <= i < given.len() implies (#[trigger] given[i]).data is Bool by {
        data.lemma_filter_pred(is_bit(), i);
    }
    assert forall|i: int| 0 <= i < bits.len() implies (#[trigger] bits[i]).data is Bool by {
        assert(bits.contains(bits[i]));
        assert(bits.to_multiset().count(bits[i]) > 0);
        assert(given.contains(bits[i]));
    }
    assert forall|i: int, j: int| 0 <= i < j < bits.len() implies !order::key_before(
        (by_address())(#[trigger] bits[j]),
        (by_address())(#[trigger] bits[i]),
    ) by {
        assert(!order::key_before(full(bits[j]), full(bits[i])));
    }
    assert forall|k: order::Key| #[trigger]
        order::with_key(bits, by_address(), k) == order::with_key(given, by_address(), k) by {
        if k.1 == 0 {
            let whole = (0int, k.0);
            lemma_filter_agree(
                bits,
                order::has_key(by_address(), k),
                order::has_key(full, whole),
            );
            lemma_filter_agree(
                given,
                order::has_key(by_address(), k),
                order::has_key(full, whole),
            );
            assert(order::with_key(bits, full, whole) == order::with_key(given, full, whole));
        } else {
            bits.lemma_all_neg_filter_empty(order::has_key(by_address(), k));
            given.lemma_all_neg_filter_empty(order::has_key(by_address(), k));
            assert(order::with_key(bits, by_address(), k) =~= order::with_key(
                given,
                by_address(),
                k,
            ));
        }
    }
}

/// As long as no more values are given than one byte can count, the announced numbers are the true
/// ones.
pub proof fn law_random_write_counts(data: Seq<DeviceData>)
    requires
        data.len() < 256,
    ensures
        single_points(data) == count_size(data, DeviceSize::SingleWord) + multi_words(data),
        double_points(data) == count_size(data, DeviceSize::DoubleWord),
        bit_points(data) == data.filter(is_bit()).len(),
{
    data.lemma_filter_len(has_size(DeviceSize::SingleWord));
    data.lemma_filter_len(has_size(DeviceSize::DoubleWord));
    data.lemma_filter_len(is_bit());
}


/// A run of devices is written with one request, from the device given and with the values given, in
/// their order; an empty run with none.
pub proof fn law_bulk_write_is_complete(cpu: CPU, start_device: Device, data: Vec<TypedData>)
    ensures
        data@.len() == 0 <==> bulk_write_query(cpu, start_device, data) is None,
        bulk_write_query(cpu, start_device, data) matches Some(query) ==> query.cpu == cpu
            && query.start_device == start_device && query.data@ == data@,
{
}

/// A failed request ends the writing with its error, whatever was still to be done, and nothing is
/// sent afterwards.
pub proof fn law_failure_ends_the_write(write: RandomWrite, error: SlmpError, later: SlmpResult<()>)
    ensures
        random_write_action(write, Err(error)) == RandomWriteAction::Finish(Err(error)),
        random_write_rest(write, Err(error)).words is None,
        random_write_rest(write, Err(error)).bits is None,
        !(random_write_action(random_write_rest(write, Err(error)), later) is Send),
{
}

/// The words of values of more than two words are counted one value after the other: four for a
/// number of sixty-four bits, and for text as many as it has.
pub proof fn law_multi_words_add_up(data: Seq<DeviceData>, d: DeviceData)
    ensures
        multi_words(Seq::<DeviceData>::empty()) == 0,
        multi_words(data.push(d)) == multi_words(data) + match d.data {
            TypedData::Words { data_type: DataType::F64, .. } => 4int,
            TypedData::Words { data_type: DataType::String(words), .. } => words as int,
            _ => 0int,
        },
{
    assert(data.push(d).drop_last() =~= data);
}

/// What the request for words announces and holds. It announces the values of sixteen bits and the
/// words of longer values as single words, and the values of thirty-two bits as double words, each
/// number in one byte; it holds everything but the bits, by type and within one type by address, equal
/// ones in the order given.
pub proof fn law_request_for_words(
    cpu: CPU,
    data: Seq<DeviceData>,
    write: RandomWrite,
    i: int,
    j: int,
    t: DataType,
    address: usize,
)
    requires
        is_random_write(cpu, data, write),
    ensures
        ({
            let short = data.filter(
                |d: DeviceData|
                    match d.data {
                        TypedData::Words { data_type, .. } => data_type is Bits || data_type is U16
                            || data_type is I16,
                        _ => false,
                    },
            ).len();
            let long = data.filter(
                |d: DeviceData|
                    match d.data {
                        TypedData::Words { data_type, .. } => data_type is U32 || data_type is I32
                            || data_type is F32,
                        _ => false,
                    },
            ).len();
            &&& write.words is Some <==> short % 256 + multi_words(data) + long % 256 > 0
            &&& write.words matches Some(query) ==> {
                let s = query.sorted_data@;
                &&& query.cpu == cpu
                &&& query.access_type == AccessType::Word
                &&& query.single_word_access_points == short % 256 + multi_words(data)
                &&& query.double_word_access_points == long % 256
                &&& query.bit_access_points == 0
                &&& s.to_multiset() == data.filter(
                    |d: DeviceData| !(d.data is Bool),
                ).to_multiset()
                &&& 0 <= i < j < s.len() ==> {
                    ||| s[i].data.type_spec().rank() < s[j].data.type_spec().rank()
                    ||| s[i].data.type_spec() == s[j].data.type_spec() && s[i].device.address
                        <= s[j].device.address
                }
                &&& s.filter(
                    |d: DeviceData| d.data.type_spec() == t && d.device.address == address,
                ) == data.filter(
                    |d: DeviceData|
                        !(d.data is Bool) && d.data.type_spec() == t && d.device.address == address,
                )
            }
        }),
{
    let is_short = |d: DeviceData|
        match d.data {
            TypedData::Words { data_type, .. } => data_type is Bits || data_type is U16
                || data_type is I16,
            _ => false,
        };
    let is_long = |d: DeviceData|
        match d.data {
            TypedData::Words { data_type, .. } => data_type is U32 || data_type is I32 || data_type
                is F32,
            _ => false,
        };
    assert(has_size(DeviceSize::SingleWord) =~= is_short);
    assert(has_size(DeviceSize::DoubleWord) =~= is_long);
    assert(is_word() =~= (|d: DeviceData| !(d.data is Bool)));
    if let Some(query) = write.words {
        let s = query.sorted_data@;
        let key = device::by_type_and_address();
        let words = data.filter(is_word());
        order::law_stable_sort_keeps_items(words, s, key);
        let k = (t.rank(), address as int);
        if 0 <= i < j < s.len() {
            order::law_sorted_left_to_right(words, s, key, i, j, k);
        }
        let same = |d: DeviceData| d.data.type_spec() == t && d.device.address == address;
        let both = |d: DeviceData|
            !(d.data is Bool) && d.data.type_spec() == t && d.device.address == address;
        assert(order::has_key(key, k) =~= same);
        assert(order::with_key(s, key, k) == order::with_key(words, key, k));
        order::lemma_filter_twice(data, is_word(), same, both);
    }
}

/// What the request for bits announces and holds: the number of bits, in one byte, and the bits by
/// address, those of one address in the order given.
pub proof fn law_request_for_bits(
    cpu: CPU,
    data: Seq<DeviceData>,
    write: RandomWrite,
    i: int,
    j: int,
    address: usize,
)
    requires
        is_random_write(cpu, data, write),
    ensures
        ({
            let given = data.filter(|d: DeviceData| d.data is Bool);
            &&& write.bits is Some <==> given.len() % 256 > 0
            &&& write.bits matches Some(query) ==> {
                let s = query.sorted_data@;
                &&& query.cpu == cpu
                &&& query.access_type == AccessType::Bit
                &&& query.bit_access_points == given.len() % 256
                &&& query.single_word_access_points == 0
                &&& query.double_word_access_points == 0
                &&& s.to_multiset() == given.to_multiset()
                &&& 0 <= i < j < s.len() ==> s[i].device.address <= s[j].device.address
                &&& s.filter(|d: DeviceData| d.device.address == address) == given.filter(
                    |d: DeviceData| d.device.address == address,
                )
            }
        }),
{
    assert(is_bit() =~= (|d: DeviceData| d.data is Bool));
    if let Some(query) = write.bits {
        let s = query.sorted_data@;
        let given = data.filter(is_bit());
        order::law_stable_sort_keeps_items(given, s, device::by_type_and_address());
        law_bits_sorted_by_address(data, s);
        let k = (address as int, 0int);
        if 0 <= i < j < s.len() {
            order::law_sorted_left_to_right(given, s, by_address(), i, j, k);
        }
        assert(order::has_key(by_address(), k) =~= (|d: DeviceData| d.device.address == address));
        assert(order::with_key(s, by_address(), k) == order::with_key(given, by_address(), k));
    }
}

/// What the request for runs announces and holds: the runs of words and the runs of bits, each number
/// in one byte, and all runs, those of words first, each kind in the order given.
pub proof fn law_request_for_runs(
    cpu: CPU,
    data: Seq<BlockedDeviceData>,
    query: Option<SLMPBlockWriteQuery>,
    i: int,
    j: int,
    t: AccessType,
)
    requires
        is_block_write(cpu, data, query),
    ensures
        ({
            let words = data.filter(|b: BlockedDeviceData| b.access_type is Word).len() % 256;
            let bits = data.filter(|b: BlockedDeviceData| b.access_type is Bit).len() % 256;
            &&& query is Some <==> words + bits > 0
            &&& query matches Some(query) ==> {
                let s = query.sorted_data@;
                &&& query.cpu == cpu
                &&& query.word_access_points == words
                &&& query.bit_access_points == bits
                &&& s.to_multiset() == data.to_multiset()
                &&& 0 <= i < j < s.len() ==> !(s[i].access_type is Bit && s[j].access_type is Word)
                &&& s.filter(|b: BlockedDeviceData| b.access_type == t) == data.filter(
                    |b: BlockedDeviceData| b.access_type == t,
                )
            }
        }),
{
    assert(has_access(AccessType::Word) =~= (|b: BlockedDeviceData| b.access_type is Word));
    assert(has_access(AccessType::Bit) =~= (|b: BlockedDeviceData| b.access_type is Bit));
    if let Some(query) = query {
        let s = query.sorted_data@;
        let key = device::by_access();
        let k = (t.rank(), 0int);
        order::law_stable_sort_keeps_items(data, s, key);
        if 0 <= i < j < s.len() {
            order::law_sorted_left_to_right(data, s, key, i, j, k);
        }
        assert(order::has_key(key, k) =~= (|b: BlockedDeviceData| b.access_type == t));
        assert(order::with_key(s, key, k) == order::with_key(data, key, k));
    }
}

/// What can be written: the numbers that are announced have to fit into one byte together.
pub proof fn law_what_can_be_written(data: Seq<DeviceData>, runs: Seq<BlockedDeviceData>)
    ensures
        random_write_ok(data) <==> data.filter(
            |d: DeviceData|
                match d.data {
                    TypedData::Words { data_type, .. } => data_type is Bits || data_type is U16
                        || data_type is I16,
                    _ => false,
                },
        ).len() % 256 + multi_words(data) + data.filter(
            |d: DeviceData|
                match d.data {
                    TypedData::Words { data_type, .. } => data_type is U32 || data_type is I32
                        || data_type is F32,
                    _ => false,
                },
        ).len() % 256 <= 255,
        block_write_ok(runs) <==> runs.filter(
            |b: BlockedDeviceData| b.access_type is Word,
        ).len() % 256 + runs.filter(|b: BlockedDeviceData| b.access_type is Bit).len() % 256 <= 255,
{
    let is_short = |d: DeviceData|
        match d.data {
            TypedData::Words { data_type, .. } => data_type is Bits || data_type is U16
                || data_type is I16,
            _ => false,
        };
    let is_long = |d: DeviceData|
        match d.data {
            TypedData::Words { data_type, .. } => data_type is U32 || data_type is I32 || data_type
                is F32,
            _ => false,
        };
    assert(has_size(DeviceSize::SingleWord) =~= is_short);
    assert(has_size(DeviceSize::DoubleWord) =~= is_long);
    assert(has_access(AccessType::Word) =~= (|b: BlockedDeviceData| b.access_type is Word));
    assert(has_access(AccessType::Bit) =~= (|b: BlockedDeviceData| b.access_type is Bit));
}

/// The order in which values are given only matters among equals: where no two values share type and
/// address, any two ways to give the same values make the same request.
pub proof fn law_order_given_does_not_matter(
    a: Seq<DeviceData>,
    b: Seq<DeviceData>,
    x: Seq<DeviceData>,
    y: Seq<DeviceData>,
)
    requires
        a.to_multiset() == b.to_multiset(),
        forall|i: int, j: int|
            0 <= i < j < a.len() ==> (#[trigger] a[i]).data.type_spec() != (
            #[trigger] a[j]).data.type_spec() || a[i].device.address != a[j].device.address,
        order::is_stable_sort(a, x, device::by_type_and_address()),
        order::is_stable_sort(b, y, device::by_type_and_address()),
    ensures
        x == y,
{
    let key = device::by_type_and_address();
    order::law_stable_sort_keeps_items(a, x, key);
    order::law_stable_sort_keeps_items(b, y, key);
    assert(x.to_multiset() == y.to_multiset());
    assert forall|i: int, j: int| 0 <= i < a.len() && 0 <= j < a.len() && key(#[trigger] a[i])
        == key(#[trigger] a[j]) implies a[i] == a[j] by {
        device::law_order_of_types(a[i].data.type_spec(), a[j].data.type_spec(), 0, 0);
        if i < j {
        } else if j < i {
        }
    }
    order::lemma_same_order(a, x, y, key);
}

} // verus!
