//! Cursor types of the two index spaces and their encoding as text.

use vstd::prelude::*;

verus! {

/// Fixed-size identifier of a transaction.
#[derive(Clone, Copy, Debug, PartialEq, Eq)]
pub struct TransactionId(pub [u8; 32]);

impl TransactionId {
    /// The 32 bytes of the identifier.
    pub open spec fn view(&self) -> Seq<u8> {
        self.0@
    }

    /// Byte-wise comparison of two identifiers.
    pub fn same(&self, other: &TransactionId) -> (r: bool)
        ensures
            r == (*self == *other),
            r == (self@ == other@),
    {
        let mut i: usize = 0;
        while i < 32
            invariant
                i <= 32,
                forall|j: int| 0 <= j < i ==> self.0@[j] == other.0@[j],
            decreases 32 - i,
        {
            if self.0[i] != other.0[i] {
                return false;
            }
            i += 1;
        }
        assert(self.0@ =~= other.0@);
        assert(self.0 =~= other.0);
        true
    }
}

/// Position in the global transaction list: the block, then the transaction
/// inside the block.
#[derive(Clone, Copy, Debug, PartialEq, Eq)]
pub struct SortedTxCursor {
    pub block_height: u32,
    pub tx_id: TransactionId,
}

/// Position in an owner's transaction list: the block and the index of the
/// transaction inside it.
#[derive(Clone, Copy, Debug, PartialEq, Eq)]
pub struct TxPointer {
    pub block_height: u32,
    pub tx_index: u16,
}

/// The four bytes of `h`, most significant first.
pub open spec fn be32(h: u32) -> Seq<u8> {
    seq![
        (h / 0x100_0000) as u8,
        ((h / 0x1_0000) % 0x100) as u8,
        ((h / 0x100) % 0x100) as u8,
        (h % 0x100) as u8,
    ]
}

/// The number whose four bytes, most significant first, are `b[0..4]`.
pub open spec fn from_be32(b: Seq<u8>) -> u32
    recommends
        b.len() >= 4,
{
    (b[0] as int * 0x100_0000 + b[1] as int * 0x1_0000 + b[2] as int * 0x100 + b[3] as int) as u32
}

/// The two bytes of `h`, most significant first.
pub open spec fn be16(h: u16) -> Seq<u8> {
    seq![(h / 0x100) as u8, (h % 0x100) as u8]
}

/// The number whose two bytes, most significant first, are `b[0..2]`.
pub open spec fn from_be16(b: Seq<u8>) -> u16
    recommends
        b.len() >= 2,
{
    (b[0] as int * 0x100 + b[1] as int) as u16
}

/// A number is read back from its four bytes, whatever follows them, and
/// what follows them is found behind them.
pub proof fn lemma_be32_round_trip(h: u32, rest: Seq<u8>)
    ensures
        from_be32(be32(h) + rest) == h,
        (be32(h) + rest).len() == 4 + rest.len(),
        (be32(h) + rest).subrange(4, 4 + rest.len() as int) == rest,
{
    let b = be32(h) + rest;
    assert(b[0] == (h / 0x100_0000) as u8);
    assert(b[1] == ((h / 0x1_0000) % 0x100) as u8);
    assert(b[2] == ((h / 0x100) % 0x100) as u8);
    assert(b[3] == (h % 0x100) as u8);
    assert(b.subrange(4, 4 + rest.len() as int) =~= rest);
}

/// A number is read back from its two bytes.
pub proof fn lemma_be16_round_trip(x: u16)
    ensures
        from_be16(be16(x)) == x,
{
}

/// The lower-case hexadecimal digit that stands for `n`.
pub open spec fn hex_digit(n: int) -> u8
    recommends
        0 <= n < 16,
{
    if n < 10 {
        (48 + n) as u8
    } else {
        (87 + n) as u8
    }
}

/// The number that a lower-case hexadecimal digit stands for.
pub open spec fn digit_value(ch: u8) -> Option<int> {
    if 48 <= ch <= 57 {
        Some(ch - 48)
    } else if 97 <= ch <= 102 {
        Some(ch - 87)
    } else {
        None
    }
}

/// The text of `raw`: two lower-case hexadecimal digits for each byte, the
/// upper half first.
#[verifier::opaque]
pub open spec fn hex_of(raw: Seq<u8>) -> Seq<u8> {
    Seq::new(
        2 * raw.len(),
        |i: int|
            hex_digit(
                if i % 2 == 0 {
                    raw[i / 2] as int / 16
                } else {
                    raw[i / 2] as int % 16
                },
            ),
    )
}

/// The text is an even number of lower-case hexadecimal digits.
pub open spec fn is_hex(text: Seq<u8>) -> bool {
    &&& text.len() % 2 == 0
    &&& forall|i: int| 0 <= i < text.len() ==> digit_value(#[trigger] text[i]) is Some
}

/// The bytes that the text stands for, if it is well formed.
#[verifier::opaque]
pub open spec fn unhex(text: Seq<u8>) -> Option<Seq<u8>> {
    if is_hex(text) {
        Some(
            Seq::new(
                text.len() / 2,
                |i: int| (digit_value(text[2 * i])->0 * 16 + digit_value(text[2 * i + 1])->0) as u8,
            ),
        )
    } else {
        None
    }
}

/// Reading the text of some bytes gives the bytes again.
pub proof fn lemma_hex_round_trip(raw: Seq<u8>)
    ensures
        unhex(hex_of(raw)) == Some(raw),
{
    reveal(hex_of);
    reveal(unhex);
    let text = hex_of(raw);
    assert forall|i: int| 0 <= i < text.len() implies digit_value(#[trigger] text[i]) is Some by {
        let b = raw[i / 2];
        assert(0 <= b as int / 16 < 16 && 0 <= b as int % 16 < 16);
    }
    assert(is_hex(text));
    let back = unhex(text)->0;
    assert forall|i: int| 0 <= i < raw.len() implies back[i] == raw[i] by {
        let b = raw[i];
        assert((2 * i) / 2 == i && (2 * i + 1) / 2 == i);
        assert(text[2 * i] == hex_digit(b as int / 16));
        assert(text[2 * i + 1] == hex_digit(b as int % 16));
        assert(digit_value(hex_digit(b as int / 16)) == Some(b as int / 16));
        assert(digit_value(hex_digit(b as int % 16)) == Some(b as int % 16));
    }
    assert(back =~= raw);
}

/// Writes bytes as text.
pub fn to_hex(raw: &Vec<u8>) -> (text: Vec<u8>)
    ensures
        text@ == hex_of(raw@),
{
    reveal(hex_of);
    let mut text: Vec<u8> = Vec::new();
    let mut i: usize = 0;
    while i < raw.len()
        invariant
            i <= raw.len(),
            text@ == hex_of(raw@.take(i as int)),
        decreases raw.len() - i,
    {
        let b: u8 = raw[i];
        let hi: u8 = b / 16;
        let lo: u8 = b % 16;
        let ghost before = text@;
        text.push(if hi < 10 { 48 + hi } else { 87 + hi });
        text.push(if lo < 10 { 48 + lo } else { 87 + lo });
        i += 1;
        assert(text@ =~= hex_of(raw@.take(i as int))) by {
            reveal(hex_of);
            let longer = hex_of(raw@.take(i as int));
            assert(longer.len() == text@.len());
            assert forall|j: int| 0 <= j < text@.len() implies text@[j] == longer[j] by {
                if j < before.len() {
                    assert(raw@.take(i - 1)[j / 2] == raw@.take(i as int)[j / 2]);
                    assert(before[j] == hex_of(raw@.take(i - 1))[j]);
                } else {
                    assert(j / 2 == i - 1);
                    assert(raw@.take(i as int)[j / 2] == b);
                }
            }
        }
    }
    assert(raw@.take(raw@.len() as int) =~= raw@);
    text
}

fn hex_value(ch: u8) -> (r: Option<u8>)
    ensures
        match digit_value(ch) {
            Some(v) => r == Some(v as u8) && v < 16,
            None => r is None,
        },
{
    if 48 <= ch && ch <= 57 {
        Some(ch - 48)
    } else if 97 <= ch && ch <= 102 {
        Some(ch - 87)
    } else {
        None
    }
}

/// Reads text back into bytes; `None` unless the text is an even number of
/// lower-case hexadecimal digits.
pub fn from_hex(text: &Vec<u8>) -> (r: Option<Vec<u8>>)
    ensures
        match unhex(text@) {
            Some(raw) => r is Some && r->0@ == raw,
            None => r is None,
        },
{
    reveal(unhex);
    if text.len() % 2 != 0 {
        return None;
    }
    let mut raw: Vec<u8> = Vec::new();
    let mut i: usize = 0;
    while i < text.len()
        invariant
            i <= text.len(),
            i % 2 == 0,
            text@.len() % 2 == 0,
            raw@.len() == i / 2,
            forall|j: int| 0 <= j < i ==> digit_value(#[trigger] text@[j]) is Some,
            forall|k: int|
                0 <= k < raw@.len() ==> (#[trigger] raw@[k]) == (digit_value(text@[2 * k])->0 * 16
                    + digit_value(text@[2 * k + 1])->0) as u8,
        decreases text.len() - i,
    {
        let hi = match hex_value(text[i]) {
            Some(v) => v,
            None => {
                proof {
                    reveal(unhex);
                    assert(digit_value(text@[i as int]) is None);
                }
                return None;
            },
        };
        let lo = match hex_value(text[i + 1]) {
            Some(v) => v,
            None => {
                proof {
                    reveal(unhex);
                    assert(digit_value(text@[i + 1]) is None);
                }
                return None;
            },
        };
        raw.push(hi * 16 + lo);
        i += 2;
    }
    assert(is_hex(text@));
    assert(raw@ =~= unhex(text@)->0);
    Some(raw)
}

/// An ordered position that can be compared, written as text and read back.
pub trait CursorKey: Sized {
    /// The text that stands for the cursor, as ASCII bytes.
    spec fn encoding(c: Self) -> Seq<u8>;

    /// The cursor that the text stands for, if it stands for one.
    spec fn decoding(b: Seq<u8>) -> Option<Self>;

    /// Reading back what was written gives the cursor again.
    proof fn encoding_round_trip(c: Self)
        ensures
            Self::decoding(Self::encoding(c)) == Some(c),
    ;

    /// Whether two cursors mark the same position.
    fn same(&self, other: &Self) -> (r: bool)
        ensures
            r == (*self == *other),
    ;

    fn encode(&self) -> (bytes: Vec<u8>)
        ensures
            bytes@ == Self::encoding(*self),
    ;

    fn decode(bytes: &Vec<u8>) -> (r: Option<Self>)
        ensures
            r == Self::decoding(bytes@),
    ;
}

fn push_be32(out: &mut Vec<u8>, h: u32)
    ensures
        final(out)@ == old(out)@ + be32(h),
{
    out.push((h / 0x100_0000) as u8);
    out.push(((h / 0x1_0000) % 0x100) as u8);
    out.push(((h / 0x100) % 0x100) as u8);
    out.push((h % 0x100) as u8);
    assert(out@ =~= old(out)@ + be32(h));
}

fn read_be32(bytes: &Vec<u8>) -> (h: u32)
    requires
        bytes@.len() >= 4,
    ensures
        h == from_be32(bytes@),
{
    let b0: u32 = bytes[0] as u32;
    let b1: u32 = bytes[1] as u32;
    let b2: u32 = bytes[2] as u32;
    let b3: u32 = bytes[3] as u32;
    b0 * 0x100_0000 + b1 * 0x1_0000 + b2 * 0x100 + b3
}

impl CursorKey for SortedTxCursor {
    /// The text of four bytes of block height and the 32 bytes of the
    /// identifier.
    open spec fn encoding(c: Self) -> Seq<u8> {
        hex_of(be32(c.block_height) + c.tx_id@)
    }

    open spec fn decoding(b: Seq<u8>) -> Option<Self> {
        match unhex(b) {
            Some(raw) => if raw.len() == 36 {
                Some(
                    SortedTxCursor {
                        block_height: from_be32(raw),
                        tx_id: TransactionId(array_of(raw.subrange(4, 36))),
                    },
                )
            } else {
                None
            },
            None => None,
        }
    }

    proof fn encoding_round_trip(c: Self) {
        let raw = be32(c.block_height) + c.tx_id@;
        lemma_hex_round_trip(raw);
        lemma_be32_round_trip(c.block_height, c.tx_id@);
        lemma_array_of_view(c.tx_id.0);
    }

    fn same(&self, other: &Self) -> (r: bool) {
        self.block_height == other.block_height && self.tx_id.same(&other.tx_id)
    }

    fn encode(&self) -> (bytes: Vec<u8>) {
        let mut out: Vec<u8> = Vec::new();
        push_be32(&mut out, self.block_height);
        let mut i: usize = 0;
        while i < 32
            invariant
                i <= 32,
                out@ == be32(self.block_height) + self.tx_id@.take(i as int),
            decreases 32 - i,
        {
            out.push(self.tx_id.0[i]);
            i += 1;
            assert(out@ =~= be32(self.block_height) + self.tx_id@.take(i as int));
        }
        assert(self.tx_id@.take(32) =~= self.tx_id@);
        to_hex(&out)
    }

    fn decode(bytes: &Vec<u8>) -> (r: Option<Self>) {
        let raw = match from_hex(bytes) {
            Some(raw) => raw,
            None => {
                return None;
            },
        };
        let bytes = &raw;
        if bytes.len() != 36 {
            return None;
        }
        let block_height = read_be32(bytes);
        let mut id: [u8; 32] = [0u8; 32];
        let mut i: usize = 0;
        while i < 32
            invariant
                i <= 32,
                bytes@.len() == 36,
                forall|j: int| 0 <= j < i ==> id@[j] == bytes@[j + 4],
            decreases 32 - i,
        {
            id[i] = bytes[i + 4];
            i += 1;
        }
        proof {
            assert(id@ =~= bytes@.subrange(4, 36));
            lemma_array_of_view(id);
        }
        Some(SortedTxCursor { block_height, tx_id: TransactionId(id) })
    }
}

/// The array whose elements are those of `s`.
pub open spec fn array_of(s: Seq<u8>) -> [u8; 32]
    recommends
        s.len() == 32,
{
    choose|a: [u8; 32]| a@ == s
}

/// An array is the one array with its elements.
pub proof fn lemma_array_of_view(a: [u8; 32])
    ensures
        array_of(a@) == a,
{
    let b = array_of(a@);
    assert(b@ == a@);
    assert(b =~= a);
}

impl CursorKey for TxPointer {
    /// The text of four bytes of block height and two bytes of index.
    open spec fn encoding(c: Self) -> Seq<u8> {
        hex_of(be32(c.block_height) + be16(c.tx_index))
    }

    open spec fn decoding(b: Seq<u8>) -> Option<Self> {
        match unhex(b) {
            Some(raw) => if raw.len() == 6 {
                Some(
                    TxPointer {
                        block_height: from_be32(raw),
                        tx_index: from_be16(raw.subrange(4, 6)),
                    },
                )
            } else {
                None
            },
            None => None,
        }
    }

    proof fn encoding_round_trip(c: Self) {
        let raw = be32(c.block_height) + be16(c.tx_index);
        lemma_hex_round_trip(raw);
        lemma_be32_round_trip(c.block_height, be16(c.tx_index));
        lemma_be16_round_trip(c.tx_index);
    }

    fn same(&self, other: &Self) -> (r: bool) {
        self.block_height == other.block_height && self.tx_index == other.tx_index
    }

    fn encode(&self) -> (bytes: Vec<u8>) {
        let mut out: Vec<u8> = Vec::new();
        push_be32(&mut out, self.block_height);
        out.push((self.tx_index / 0x100) as u8);
        out.push((self.tx_index % 0x100) as u8);
        assert(out@ =~= be32(self.block_height) + be16(self.tx_index));
        to_hex(&out)
    }

    fn decode(bytes: &Vec<u8>) -> (r: Option<Self>) {
        let raw = match from_hex(bytes) {
            Some(raw) => raw,
            None => {
                return None;
            },
        };
        let bytes = &raw;
        if bytes.len() != 6 {
            return None;
        }
        let block_height = read_be32(bytes);
        let hi: u16 = bytes[4] as u16;
        let lo: u16 = bytes[5] as u16;
        Some(TxPointer { block_height, tx_index: hi * 0x100 + lo })
    }
}

} // verus!
