//! The data item tree and its mathematical model.

use vstd::prelude::*;

verus! {

/// Which fixed-size encoding an integer, a length or a tag number is destined for.
#[derive(Clone, Copy, Debug, PartialEq, Eq, Structural)]
pub enum IntegerWidth {
    /// Packed into the initial byte.
    Zero,
    Eight,
    Sixteen,
    ThirtyTwo,
    SixtyFour,
    /// Left to the encoder, which picks the shortest form.
    Unknown,
}

/// Which fixed-size encoding a float is destined for.
#[derive(Clone, Copy, Debug, PartialEq, Eq, Structural)]
pub enum FloatWidth {
    Sixteen,
    ThirtyTwo,
    SixtyFour,
    /// Left to the encoder.
    Unknown,
}

/// A tag number.
#[derive(Clone, Copy, Debug, PartialEq, Eq, Structural)]
pub struct Tag(pub u64);

/// The code of a simple value.
#[derive(Clone, Copy, Debug, PartialEq, Eq, Structural)]
pub struct Simple(pub u8);

/// The code of `false`.
pub const SIMPLE_FALSE: u8 = 20;

/// The code of `true`.
pub const SIMPLE_TRUE: u8 = 21;

/// The code of `null`.
pub const SIMPLE_NULL: u8 = 22;

/// The code of `undefined`.
pub const SIMPLE_UNDEFINED: u8 = 23;

/// A definite-length byte string.
#[derive(Clone, Debug, PartialEq, Eq)]
pub struct ByteString {
    pub data: Vec<u8>,
    pub bitwidth: IntegerWidth,
}

/// A definite-length text string.
#[derive(Clone, Debug, PartialEq, Eq)]
pub struct TextString {
    pub data: String,
    pub bitwidth: IntegerWidth,
}

/// The value of a float, kept as it was written.
#[derive(Clone, Debug, PartialEq, Eq)]
pub enum FloatValue {
    /// A decimal literal: optional sign, digits, `.`, digits, optional exponent.
    Decimal(String),
    Infinity,
    NegInfinity,
    NaN,
}

/// One data item.
#[derive(Debug, PartialEq, Eq)]
pub enum DataItem {
    Integer { value: u64, bitwidth: IntegerWidth },
    /// The integer `-(value + 1)`.
    Negative { value: u64, bitwidth: IntegerWidth },
    ByteString(ByteString),
    TextString(TextString),
    IndefiniteByteString(Vec<ByteString>),
    IndefiniteTextString(Vec<TextString>),
    /// `bitwidth` is `None` exactly for an indefinite-length array.
    Array { data: Vec<DataItem>, bitwidth: Option<IntegerWidth> },
    /// `bitwidth` is `None` exactly for an indefinite-length map.
    Mapping { data: Vec<(DataItem, DataItem)>, bitwidth: Option<IntegerWidth> },
    Tag { tag: Tag, bitwidth: IntegerWidth, value: Box<DataItem> },
    Float { value: FloatValue, bitwidth: FloatWidth },
    Simple(Simple),
}

/// The model of a byte string.
pub struct Bytes {
    pub data: Seq<u8>,
    pub bitwidth: IntegerWidth,
}

/// The model of a text string.
pub struct Text {
    pub data: Seq<char>,
    pub bitwidth: IntegerWidth,
}

/// The model of a float's value.
pub enum Real {
    Decimal(Seq<char>),
    Infinity,
    NegInfinity,
    NaN,
}

/// The model of a data item.
pub enum Item {
    Integer { value: u64, bitwidth: IntegerWidth },
    Negative { value: u64, bitwidth: IntegerWidth },
    ByteString(Bytes),
    TextString(Text),
    IndefiniteByteString(Seq<Bytes>),
    IndefiniteTextString(Seq<Text>),
    Array { data: Seq<Item>, bitwidth: Option<IntegerWidth> },
    Mapping { data: Seq<(Item, Item)>, bitwidth: Option<IntegerWidth> },
    Tag { tag: u64, bitwidth: IntegerWidth, value: Box<Item> },
    Float { value: Real, bitwidth: FloatWidth },
    Simple(u8),
}

impl View for ByteString {
    type V = Bytes;

    open spec fn view(&self) -> Bytes {
        Bytes { data: self.data@, bitwidth: self.bitwidth }
    }
}

impl View for TextString {
    type V = Text;

    open spec fn view(&self) -> Text {
        Text { data: self.data@, bitwidth: self.bitwidth }
    }
}

impl View for FloatValue {
    type V = Real;

    open spec fn view(&self) -> Real {
        match self {
            FloatValue::Decimal(text) => Real::Decimal(text@),
            FloatValue::Infinity => Real::Infinity,
            FloatValue::NegInfinity => Real::NegInfinity,
            FloatValue::NaN => Real::NaN,
        }
    }
}

impl DataItem {
    /// The tree with every vector read as a sequence and every string as its characters.
    pub open spec fn model(&self) -> Item
        decreases self,
    {
        match self {
            DataItem::Integer { value, bitwidth } => Item::Integer {
                value: *value,
                bitwidth: *bitwidth,
            },
            DataItem::Negative { value, bitwidth } => Item::Negative {
                value: *value,
                bitwidth: *bitwidth,
            },
            DataItem::ByteString(b) => Item::ByteString(b@),
            DataItem::TextString(t) => Item::TextString(t@),
            DataItem::IndefiniteByteString(chunks) => Item::IndefiniteByteString(
                chunks@.map_values(|chunk: ByteString| chunk@),
            ),
            DataItem::IndefiniteTextString(chunks) => Item::IndefiniteTextString(
                chunks@.map_values(|chunk: TextString| chunk@),
            ),
            DataItem::Array { data, bitwidth } => Item::Array {
                data: Seq::new(
                    data@.len(),
                    |i: int|
                        if 0 <= i < data@.len() {
                            data@[i].model()
                        } else {
                            arbitrary()
                        },
                ),
                bitwidth: *bitwidth,
            },
            DataItem::Mapping { data, bitwidth } => Item::Mapping {
                data: Seq::new(
                    data@.len(),
                    |i: int|
                        if 0 <= i < data@.len() {
                            (data@[i].0.model(), data@[i].1.model())
                        } else {
                            arbitrary()
                        },
                ),
                bitwidth: *bitwidth,
            },
            DataItem::Tag { tag, bitwidth, value } => Item::Tag {
                tag: tag.0,
                bitwidth: *bitwidth,
                value: Box::new(value.model()),
            },
            DataItem::Float { value, bitwidth } => Item::Float {
                value: value@,
                bitwidth: *bitwidth,
            },
            DataItem::Simple(s) => Item::Simple(s.0),
        }
    }
}

/// The models of data items.
pub open spec fn models(items: Seq<DataItem>) -> Seq<Item> {
    Seq::new(items.len(), |k: int| items[k].model())
}

/// The models of pairs of data items.
pub open spec fn pair_models(pairs: Seq<(DataItem, DataItem)>) -> Seq<(Item, Item)> {
    Seq::new(pairs.len(), |k: int| (pairs[k].0.model(), pairs[k].1.model()))
}

/// The model of an array holds the models of its items.
pub proof fn lemma_array_model(item: DataItem)
    requires
        item is Array,
    ensures
        item.model() == (Item::Array {
            data: models(item->Array_data@),
            bitwidth: item->Array_bitwidth,
        }),
{
    assert(item.model()->Array_data =~= models(item->Array_data@));
}

/// The model of a map holds the models of its pairs.
pub proof fn lemma_mapping_model(item: DataItem)
    requires
        item is Mapping,
    ensures
        item.model() == (Item::Mapping {
            data: pair_models(item->Mapping_data@),
            bitwidth: item->Mapping_bitwidth,
        }),
{
    assert(item.model()->Mapping_data =~= pair_models(item->Mapping_data@));
}

impl View for DataItem {
    type V = Item;

    open spec fn view(&self) -> Item {
        self.model()
    }
}

} // verus!
