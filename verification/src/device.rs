//! Devices of a PLC, and the values that they hold.
use vstd::prelude::*;

use crate::order::{self, Keyed};

verus! {

/// The family that a device belongs to, by the code that the protocol gives it.
#[derive(Copy, Clone, Debug, PartialEq, Eq, PartialOrd, Ord, Hash, Structural)]
pub struct DeviceType {
    pub code: u16,
}

/// One device: its family, and its number there.
#[derive(Copy, Clone, Debug, PartialEq, Eq, PartialOrd, Ord, Hash, Structural)]
pub struct Device {
    pub device_type: DeviceType,
    pub address: usize,
}

/// Whether devices are addressed as words or as bits.
#[derive(Copy, Clone, Debug, PartialEq, Eq, PartialOrd, Ord, Structural)]
pub enum AccessType {
    Word,
    Bit,
}

/// How much room a value takes.
#[derive(Copy, Clone, Debug, PartialEq, Eq, Structural)]
pub enum DeviceSize {
    Bit,
    SingleWord,
    DoubleWord,
    /// So many words.
    MultiWord(u8),
}

/// The types of values, in the order in which a request lists them.
#[derive(Copy, Clone, Debug, PartialEq, Eq, PartialOrd, Ord, Structural)]
pub enum DataType {
    Bool,
    /// Sixteen bits that are accessed as one word.
    Bits,
    U16,
    I16,
    U32,
    I32,
    F32,
    F64,
    /// Text that fills so many words.
    String(u8),
}

/// A value: one bit, or a value of another type with the bytes that represent it.
#[derive(Clone, Debug, PartialEq, Eq)]
pub enum TypedData {
    Bool(bool),
    Words { data_type: DataType, bytes: Vec<u8> },
}

/// A value in terms of the bytes that it holds.
pub enum TypedDataView {
    Bool(bool),
    Words { data_type: DataType, bytes: Seq<u8> },
}

/// A device with its value.
#[derive(Clone, Debug, PartialEq, Eq)]
pub struct DeviceData {
    pub device: Device,
    pub data: TypedData,
}

/// A device with its value, in terms of the bytes that the value holds.
pub struct DeviceDataView {
    pub device: Device,
    pub data: TypedDataView,
}

/// A device with the type of its value.
#[derive(Copy, Clone, Debug, PartialEq, Eq, Structural)]
pub struct TypedDevice {
    pub device: Device,
    pub data_type: DataType,
}

/// A run of devices, to be read: `size` words or bits.
#[derive(Copy, Clone, Debug, PartialEq, Eq, Structural)]
pub struct DeviceBlock {
    pub access_type: AccessType,
    pub start_device: Device,
    pub size: usize,
}

/// A run of devices, to be written.
#[derive(Clone, Debug, PartialEq, Eq)]
pub struct BlockedDeviceData {
    pub access_type: AccessType,
    pub start_device: Device,
    pub data: Vec<TypedData>,
}

impl View for TypedData {
    type V = TypedDataView;

    open spec fn view(&self) -> TypedDataView {
        match *self {
            TypedData::Bool(b) => TypedDataView::Bool(b),
            TypedData::Words { data_type, bytes } => TypedDataView::Words {
                data_type,
                bytes: bytes@,
            },
        }
    }
}

impl View for DeviceData {
    type V = DeviceDataView;

    open spec fn view(&self) -> DeviceDataView {
        DeviceDataView { device: self.device, data: self.data@ }
    }
}

impl TypedDataView {
    /// Whether a value has the form that its type asks for: one bit stands by itself, and any other
    /// value has as many bytes as its type takes.
    pub open spec fn well_formed(self) -> bool {
        match self {
            TypedDataView::Bool(_) => true,
            TypedDataView::Words { data_type, bytes } => !(data_type is Bool) && bytes.len()
                == data_type.byte_size_spec(),
        }
    }
}

/// The views of a sequence of devices with their values.
pub open spec fn views(s: Seq<DeviceData>) -> Seq<DeviceDataView> {
    s.map_values(|d: DeviceData| d@)
}

impl AccessType {
    /// The place of an access type in a request: words come first.
    pub open spec fn rank(self) -> int {
        match self {
            AccessType::Word => 0,
            AccessType::Bit => 1,
        }
    }
}

impl DataType {
    /// The place of a type in a request.
    pub open spec fn rank(self) -> int {
        match self {
            DataType::Bool => 0,
            DataType::Bits => 1,
            DataType::U16 => 2,
            DataType::I16 => 3,
            DataType::U32 => 4,
            DataType::I32 => 5,
            DataType::F32 => 6,
            DataType::F64 => 7,
            DataType::String(words) => 8 + words,
        }
    }

    /// The room that a value of this type takes.
    pub open spec fn device_size_spec(self) -> DeviceSize {
        match self {
            DataType::Bool => DeviceSize::Bit,
            DataType::Bits | DataType::U16 | DataType::I16 => DeviceSize::SingleWord,
            DataType::U32 | DataType::I32 | DataType::F32 => DeviceSize::DoubleWord,
            DataType::F64 => DeviceSize::MultiWord(4),
            DataType::String(words) => DeviceSize::MultiWord(words),
        }
    }

    /// The number of bytes that represent a value of this type.
    pub open spec fn byte_size_spec(self) -> usize {
        match self.device_size_spec() {
            DeviceSize::Bit => 1,
            DeviceSize::SingleWord => 2,
            DeviceSize::DoubleWord => 4,
            DeviceSize::MultiWord(words) => (2 * words) as usize,
        }
    }

    /// The place of a type in a request.
    fn place(self) -> (place: u16)
        ensures
            place == self.rank(),
    {
        match self {
            DataType::Bool => 0,
            DataType::Bits => 1,
            DataType::U16 => 2,
            DataType::I16 => 3,
            DataType::U32 => 4,
            DataType::I32 => 5,
            DataType::F32 => 6,
            DataType::F64 => 7,
            DataType::String(words) => 8 + words as u16,
        }
    }

    /// The room that a value of this type takes.
    pub fn device_size(self) -> (size: DeviceSize)
        ensures
            size == self.device_size_spec(),
    {
        match self {
            DataType::Bool => DeviceSize::Bit,
            DataType::Bits | DataType::U16 | DataType::I16 => DeviceSize::SingleWord,
            DataType::U32 | DataType::I32 | DataType::F32 => DeviceSize::DoubleWord,
            DataType::F64 => DeviceSize::MultiWord(4),
            DataType::String(words) => DeviceSize::MultiWord(words),
        }
    }

    /// The number of bytes that represent a value of this type.
    pub fn byte_size(self) -> (size: usize)
        ensures
            size == self.byte_size_spec(),
    {
        match self.device_size() {
            DeviceSize::Bit => 1,
            DeviceSize::SingleWord => 2,
            DeviceSize::DoubleWord => 4,
            DeviceSize::MultiWord(words) => 2 * words as usize,
        }
    }
}

impl TypedData {
    /// The type of a value.
    pub open spec fn type_spec(self) -> DataType {
        match self {
            TypedData::Bool(_) => DataType::Bool,
            TypedData::Words { data_type, .. } => data_type,
        }
    }

    /// The type of a value.
    pub fn get_type(&self) -> (data_type: DataType)
        ensures
            data_type == self.type_spec(),
    {
        match self {
            TypedData::Bool(_) => DataType::Bool,
            TypedData::Words { data_type, .. } => *data_type,
        }
    }
}

/// The order of values in a request: by type, and within one type by address.
pub open spec fn by_type_and_address() -> spec_fn(DeviceData) -> order::Key {
    |d: DeviceData| (d.data.type_spec().rank(), d.device.address as int)
}

/// The order of blocks to be read: words before bits, and within each by address.
pub open spec fn by_access_and_address() -> spec_fn(DeviceBlock) -> order::Key {
    |b: DeviceBlock| (b.access_type.rank(), b.start_device.address as int)
}

/// The order of blocks to be written: words before bits.
pub open spec fn by_access() -> spec_fn(BlockedDeviceData) -> order::Key {
    |b: BlockedDeviceData| (b.access_type.rank(), 0int)
}

impl Keyed for DeviceData {
    open spec fn sort_key() -> spec_fn(Self) -> order::Key {
        by_type_and_address()
    }

    fn comes_before(&self, other: &Self) -> (before: bool) {
        let mine: u16 = self.data.get_type().place();
        let theirs: u16 = other.data.get_type().place();
        mine < theirs || (mine == theirs && self.device.address < other.device.address)
    }
}

impl Keyed for DeviceBlock {
    open spec fn sort_key() -> spec_fn(Self) -> order::Key {
        by_access_and_address()
    }

    fn comes_before(&self, other: &Self) -> (before: bool) {
        match (self.access_type, other.access_type) {
            (AccessType::Word, AccessType::Bit) => true,
            (AccessType::Bit, AccessType::Word) => false,
            _ => self.start_device.address < other.start_device.address,
        }
    }
}

impl Keyed for BlockedDeviceData {
    open spec fn sort_key() -> spec_fn(Self) -> order::Key {
        by_access()
    }

    fn comes_before(&self, other: &Self) -> (before: bool) {
        self.access_type == AccessType::Word && other.access_type == AccessType::Bit
    }
}


/// The room of every type: types of sixteen bits take one word, types of thirty-two bits a double word
/// of four bytes, a number of sixty-four bits four words, and text as many words as it says.
pub proof fn law_room_of_each_type(t: DataType)
    ensures
        t.device_size_spec() is Bit <==> t is Bool,
        t.device_size_spec() is SingleWord <==> t is Bits || t is U16 || t is I16,
        t.device_size_spec() is DoubleWord <==> t is U32 || t is I32 || t is F32,
        t.device_size_spec() is MultiWord <==> t is F64 || t is String,
        t is F64 ==> t.device_size_spec() == DeviceSize::MultiWord(4),
        t matches DataType::String(words) ==> t.device_size_spec() == DeviceSize::MultiWord(words),
        t is Bool ==> t.byte_size_spec() == 1,
        t is Bits || t is U16 || t is I16 ==> t.byte_size_spec() == 2,
        t is U32 || t is I32 || t is F32 ==> t.byte_size_spec() == 4,
        t is F64 ==> t.byte_size_spec() == 8,
        t matches DataType::String(words) ==> t.byte_size_spec() == 2 * words,
{
}

/// A type takes a double word exactly when its values have four bytes and it is not text.
pub proof fn law_double_words_have_four_bytes(t: DataType)
    ensures
        t.device_size_spec() is DoubleWord <==> t.byte_size_spec() == 4 && !(t is String),
        t.device_size_spec() is SingleWord <==> t.byte_size_spec() == 2 && !(t is String),
{
}

/// The types follow each other in this order, shorter text before longer; and no two types share a
/// place. Words come before bits.
pub proof fn law_order_of_types(t: DataType, u: DataType, v: u8, w: u8)
    ensures
        DataType::Bool.rank() < DataType::Bits.rank() < DataType::U16.rank(),
        DataType::U16.rank() < DataType::I16.rank() < DataType::U32.rank(),
        DataType::U32.rank() < DataType::I32.rank() < DataType::F32.rank(),
        DataType::F32.rank() < DataType::F64.rank() < DataType::String(w).rank(),
        DataType::String(v).rank() < DataType::String(w).rank() <==> v < w,
        t.rank() == u.rank() <==> t == u,
        AccessType::Word.rank() < AccessType::Bit.rank(),
{
}

/// A value is seen as it is: its type, its bit and its bytes, and the device that holds it.
pub proof fn law_values_are_seen_as_they_are(
    on: bool,
    data_type: DataType,
    bytes: Vec<u8>,
    d: DeviceData,
    s: Seq<DeviceData>,
)
    ensures
        TypedData::Bool(on)@ == TypedDataView::Bool(on),
        (TypedData::Words { data_type, bytes })@ == (TypedDataView::Words { data_type, bytes: bytes@ }),
        TypedData::Bool(on).type_spec() == DataType::Bool,
        (TypedData::Words { data_type, bytes }).type_spec() == data_type,
        d@.device == d.device,
        d@.data == d.data@,
        views(s).len() == s.len(),
        forall|i: int| 0 <= i < s.len() ==> #[trigger] views(s)[i] == s[i]@,
{
}

/// By what values and blocks are ordered: values by type and then by address, blocks to be read by
/// access and then by address, blocks to be written by access alone.
pub proof fn law_order_of_items(
    d: DeviceData,
    e: DeviceData,
    b: DeviceBlock,
    c: DeviceBlock,
    x: BlockedDeviceData,
    y: BlockedDeviceData,
)
    ensures
        order::key_before((by_type_and_address())(d), (by_type_and_address())(e))
            == (d.data.type_spec().rank() < e.data.type_spec().rank() || (d.data.type_spec()
            == e.data.type_spec() && d.device.address < e.device.address)),
        order::key_before((by_access_and_address())(b), (by_access_and_address())(c)) == ((
        b.access_type is Word && c.access_type is Bit) || (b.access_type == c.access_type
            && b.start_device.address < c.start_device.address)),
        order::key_before((by_access())(x), (by_access())(y)) == (x.access_type is Word
            && y.access_type is Bit),
{
}

} // verus!
