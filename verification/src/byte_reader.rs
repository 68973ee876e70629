//! A forward-only reader over a byte source held in memory.
//!
//! The reader models a sequential stream: a read of `n` bytes succeeds when
//! `n` bytes are left and fails otherwise, and a failed read uses up whatever
//! was left. Its view is the sequence of bytes not yet consumed.

use vstd::prelude::*;

verus! {

/// The number that `s` spells when its first byte is the most significant.
pub open spec fn be_value(s: Seq<u8>) -> nat
    decreases s.len(),
{
    if s.len() == 0 {
        0
    } else {
        be_value(s.drop_last()) * 256 + s.last() as nat
    }
}

/// The number that `s` spells when its first byte is the least significant.
pub open spec fn le_value(s: Seq<u8>) -> nat
    decreases s.len(),
{
    if s.len() == 0 {
        0
    } else {
        s.first() as nat + 256 * le_value(s.drop_first())
    }
}

/// How many numbers `n` bytes can spell: 256 to the power `n`.
pub open spec fn byte_range(n: nat) -> nat
    decreases n,
{
    if n == 0 {
        1
    } else {
        256 * byte_range((n - 1) as nat)
    }
}

/// What a stream that held `s` holds after an attempt to read `n` bytes: the
/// rest behind them, or nothing where fewer than `n` were left.
pub open spec fn after_read(s: Seq<u8>, n: nat) -> Seq<u8> {
    if n <= s.len() {
        s.skip(n as int)
    } else {
        Seq::empty()
    }
}

/// `byte_range` grows with the number of bytes.
pub proof fn lemma_byte_range_monotonic(a: nat, b: nat)
    requires
        a <= b,
    ensures
        0 < byte_range(a) <= byte_range(b),
    decreases b,
{
    if b == 0 {
    } else if a == b {
        lemma_byte_range_monotonic(0, (b - 1) as nat);
    } else {
        lemma_byte_range_monotonic(a, (b - 1) as nat);
    }
}

/// Eight bytes spell exactly the numbers of a `u64`, four those of a `u32`
/// and two those of a `u16`.
pub proof fn lemma_byte_range_of_widths()
    ensures
        byte_range(1) == 0x100,
        byte_range(2) == 0x1_0000,
        byte_range(4) == 0x1_0000_0000,
        byte_range(8) == 0x1_0000_0000_0000_0000,
{
    reveal_with_fuel(byte_range, 9);
}

/// A big-endian number of `n` bytes is below 256 to the power `n`.
pub proof fn lemma_be_value_bound(s: Seq<u8>)
    ensures
        be_value(s) < byte_range(s.len()),
    decreases s.len(),
{
    if s.len() > 0 {
        lemma_be_value_bound(s.drop_last());
    }
}

/// A little-endian number of `n` bytes is below 256 to the power `n`.
pub proof fn lemma_le_value_bound(s: Seq<u8>)
    ensures
        le_value(s) < byte_range(s.len()),
    decreases s.len(),
{
    if s.len() > 0 {
        lemma_le_value_bound(s.drop_first());
    }
}

/// A cursor over a borrowed byte slice.
pub struct ByteReader<'a> {
    data: &'a [u8],
    pos: usize,
}

impl<'a> View for ByteReader<'a> {
    type V = Seq<u8>;

    /// The bytes that have not been consumed yet.
    closed spec fn view(&self) -> Seq<u8> {
        self.data@.skip(self.pos as int)
    }
}

impl<'a> ByteReader<'a> {
    #[verifier::type_invariant]
    spec fn in_bounds(self) -> bool {
        self.pos <= self.data@.len()
    }

    /// A reader at the start of `data`.
    pub fn new(data: &'a [u8]) -> (reader: Self)
        ensures
            reader@ == data@,
    {
        ByteReader { data, pos: 0 }
    }

    /// Moves past the next `n` bytes and says where they start, or uses up
    /// the source where fewer than `n` are left.
    fn claim(&mut self, n: usize) -> (start: Option<usize>)
        ensures
            final(self).data == old(self).data,
            final(self)@ == after_read(old(self)@, n as nat),
            n <= old(self)@.len() ==> start == Some(old(self).pos) && old(self).pos + n
                <= old(self).data@.len() <= usize::MAX,
            n > old(self)@.len() ==> start is None,
    {
        proof {
            use_type_invariant(&*self);
        }
        let start = self.pos;
        let len = self.data.len();
        if n <= len - start {
            self.pos = start + n;
            assert(self.data@.skip(start + n) =~= self.data@.skip(start as int).skip(n as int));
            Some(start)
        } else {
            self.pos = len;
            assert(self.data@.skip(len as int) =~= Seq::<u8>::empty());
            None
        }
    }

    /// Reads `n` bytes as one number, most significant byte first.
    fn read_be(&mut self, n: usize) -> (value: Option<u64>)
        requires
            n <= 8,
        ensures
            final(self)@ == after_read(old(self)@, n as nat),
            value == (if n <= old(self)@.len() {
                Some(be_value(old(self)@.take(n as int)) as u64)
            } else {
                None
            }),
            n <= old(self)@.len() ==> be_value(old(self)@.take(n as int)) < byte_range(n as nat),
    {
        let ghost before = self@;
        let data = self.data;
        match self.claim(n) {
            None => None,
            Some(start) => {
                let mut acc: u64 = 0;
                let mut i: usize = 0;
                while i < n
                    invariant
                        i <= n <= 8,
                        start + n <= data@.len() <= usize::MAX,
                        acc == be_value(data@.subrange(start as int, start + i)),
                        acc < byte_range(i as nat),
                    decreases n - i,
                {
                    let b = data[start + i];
                    proof {
                        let grown = data@.subrange(start as int, start + i + 1);
                        assert(grown.drop_last() =~= data@.subrange(start as int, start + i));
                        assert(grown.last() == b);
                        lemma_byte_range_monotonic((i + 1) as nat, 8);
                        lemma_byte_range_of_widths();
                    }
                    acc = acc * 256 + b as u64;
                    i = i + 1;
                }
                assert(data@.subrange(start as int, start + n) =~= before.take(n as int));
                Some(acc)
            },
        }
    }

    /// Reads `n` bytes as one number, least significant byte first.
    fn read_le(&mut self, n: usize) -> (value: Option<u64>)
        requires
            n <= 8,
        ensures
            final(self)@ == after_read(old(self)@, n as nat),
            value == (if n <= old(self)@.len() {
                Some(le_value(old(self)@.take(n as int)) as u64)
            } else {
                None
            }),
            n <= old(self)@.len() ==> le_value(old(self)@.take(n as int)) < byte_range(n as nat),
    {
        let ghost before = self@;
        let data = self.data;
        match self.claim(n) {
            None => None,
            Some(start) => {
                let mut acc: u64 = 0;
                let mut i: usize = 0;
                while i < n
                    invariant
                        i <= n <= 8,
                        start + n <= data@.len() <= usize::MAX,
                        acc == le_value(data@.subrange(start + n - i, start + n)),
                        acc < byte_range(i as nat),
                    decreases n - i,
                {
                    let b = data[start + n - 1 - i];
                    proof {
                        let grown = data@.subrange(start + n - i - 1, start + n);
                        assert(grown.drop_first() =~= data@.subrange(start + n - i, start + n));
                        assert(grown.first() == b);
                        lemma_byte_range_monotonic((i + 1) as nat, 8);
                        lemma_byte_range_of_widths();
                    }
                    acc = acc * 256 + b as u64;
                    i = i + 1;
                }
                assert(data@.subrange(start as int, start + n) =~= before.take(n as int));
                Some(acc)
            },
        }
    }

    /// Reads one byte.
    pub fn read_u8(&mut self) -> (value: Option<u8>)
        ensures
            final(self)@ == after_read(old(self)@, 1),
            value == (if old(self)@.len() >= 1 {
                Some(old(self)@[0])
            } else {
                None
            }),
    {
        let ghost before = self@;
        let data = self.data;
        match self.claim(1) {
            None => None,
            Some(start) => {
                assert(before[0] == data@[start as int]);
                Some(data[start])
            },
        }
    }

    /// Reads two bytes as a big-endian number.
    pub fn read_u16_be(&mut self) -> (value: Option<u16>)
        ensures
            final(self)@ == after_read(old(self)@, 2),
            value == (if old(self)@.len() >= 2 {
                Some(be_value(old(self)@.take(2)) as u16)
            } else {
                None
            }),
            old(self)@.len() >= 2 ==> be_value(old(self)@.take(2)) <= u16::MAX,
    {
        proof {
            lemma_byte_range_of_widths();
        }
        match self.read_be(2) {
            None => None,
            Some(v) => Some(v as u16),
        }
    }

    /// Reads two bytes as a little-endian number.
    pub fn read_u16_le(&mut self) -> (value: Option<u16>)
        ensures
            final(self)@ == after_read(old(self)@, 2),
            value == (if old(self)@.len() >= 2 {
                Some(le_value(old(self)@.take(2)) as u16)
            } else {
                None
            }),
            old(self)@.len() >= 2 ==> le_value(old(self)@.take(2)) <= u16::MAX,
    {
        proof {
            lemma_byte_range_of_widths();
        }
        match self.read_le(2) {
            None => None,
            Some(v) => Some(v as u16),
        }
    }

    /// Reads four bytes as a little-endian number.
    pub fn read_u32_le(&mut self) -> (value: Option<u32>)
        ensures
            final(self)@ == after_read(old(self)@, 4),
            value == (if old(self)@.len() >= 4 {
                Some(le_value(old(self)@.take(4)) as u32)
            } else {
                None
            }),
            old(self)@.len() >= 4 ==> le_value(old(self)@.take(4)) <= u32::MAX,
    {
        proof {
            lemma_byte_range_of_widths();
        }
        match self.read_le(4) {
            None => None,
            Some(v) => Some(v as u32),
        }
    }

    /// Reads eight bytes as a big-endian number.
    pub fn read_u64_be(&mut self) -> (value: Option<u64>)
        ensures
            final(self)@ == after_read(old(self)@, 8),
            value == (if old(self)@.len() >= 8 {
                Some(be_value(old(self)@.take(8)) as u64)
            } else {
                None
            }),
            old(self)@.len() >= 8 ==> be_value(old(self)@.take(8)) <= u64::MAX,
    {
        proof {
            lemma_byte_range_of_widths();
        }
        self.read_be(8)
    }

    /// Reads `n` bytes and throws them away. Whether they were all there is
    /// not reported.
    pub fn skip(&mut self, n: usize)
        ensures
            final(self)@ == after_read(old(self)@, n as nat),
    {
        let _ = self.claim(n);
    }
}

} // verus!
