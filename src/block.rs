//! The closed family of extension metadata blocks, dispatch on level, and
//! the canonical order of a list of blocks.
use vstd::prelude::*;

use bitvec_helpers::bitvec_reader::BitVecReader;
use bitvec_helpers::bitvec_writer::BitVecWriter;

use crate::bitstream::{unread_bits, written_bits};
use crate::error::BlockError;
use crate::level8::{encoded_bits, required_bits_of, ExtMetadataBlockLevel8};

verus! {

#[derive(Debug, Clone, Copy, PartialEq, Eq, Structural)]
pub enum ExtMetadataBlock {
    Level8(ExtMetadataBlockLevel8),
}

/// The position of a sort key in the canonical order: level first, then the
/// kind's own secondary key.
pub open spec fn key_rank(k: (u8, u16)) -> int {
    k.0 as int * 65536 + k.1 as int
}

/// Entry `a` comes before entry `b`: by key, and by position among equal keys.
pub open spec fn precedes(keys: Seq<(u8, u16)>, a: int, b: int) -> bool {
    key_rank(keys[a]) < key_rank(keys[b]) || (key_rank(keys[a]) == key_rank(keys[b]) && a < b)
}

/// `order` lists every position of `keys` once, in canonical order: sorted
/// by key, with equal keys in their input order.
pub open spec fn is_canonical_order(keys: Seq<(u8, u16)>, order: Seq<usize>) -> bool {
    &&& order.len() == keys.len()
    &&& forall|i: int| 0 <= i < order.len() ==> order[i] < keys.len()
    &&& forall|m: usize| m < keys.len() ==> #[trigger] order.contains(m)
    &&& forall|i: int, j: int|
        0 <= i < j < order.len() ==> precedes(keys, order[i] as int, order[j] as int)
}

/// The sort keys of a list of blocks.
pub open spec fn block_keys(blocks: Seq<ExtMetadataBlock>) -> Seq<(u8, u16)> {
    blocks.map_values(|b: ExtMetadataBlock| b.key())
}

proof fn lemma_order_prefix(keys: Seq<(u8, u16)>, o1: Seq<usize>, o2: Seq<usize>, i: int)
    requires
        is_canonical_order(keys, o1),
        is_canonical_order(keys, o2),
        0 <= i < o1.len(),
    ensures
        forall|m: int| 0 <= m <= i ==> o1[m] == o2[m],
    decreases i,
{
    if i > 0 {
        lemma_order_prefix(keys, o1, o2, i - 1);
    }
    let a = o1[i];
    let b = o2[i];
    if a != b {
        if precedes(keys, a as int, b as int) {
            assert(o2.contains(a));
            let j = choose|j: int| 0 <= j < o2.len() && o2[j] == a;
            if j > i {
                assert(precedes(keys, b as int, a as int));
            }
            assert(o1[j] == a);
            if j < i {
                assert(precedes(keys, o1[j] as int, o1[i] as int));
            }
        } else {
            assert(o1.contains(b));
            let j = choose|j: int| 0 <= j < o1.len() && o1[j] == b;
            if j > i {
                assert(precedes(keys, a as int, b as int));
            }
            assert(o2[j] == b);
            if j < i {
                assert(precedes(keys, o2[j] as int, o2[i] as int));
            }
        }
    }
}

/// The canonical order of a list of keys is unique: two orders that both
/// meet its definition are the same.
pub proof fn lemma_canonical_order_unique(
    keys: Seq<(u8, u16)>,
    o1: Seq<usize>,
    o2: Seq<usize>,
)
    requires
        is_canonical_order(keys, o1),
        is_canonical_order(keys, o2),
    ensures
        o1 == o2,
{
    if o1.len() > 0 {
        lemma_order_prefix(keys, o1, o2, o1.len() - 1);
    }
    assert(o1 =~= o2);
}

impl ExtMetadataBlock {
    pub open spec fn key(self) -> (u8, u16) {
        match self {
            ExtMetadataBlock::Level8(b) => (8u8, b.target_display_index as u16),
        }
    }

    pub open spec fn declared_length(self) -> u64 {
        match self {
            ExtMetadataBlock::Level8(b) => b.length,
        }
    }

    /// Decodes a block of the given level and declared length.
    pub fn parse(level: u8, reader: &mut BitVecReader, length: u64) -> (r: Result<
        ExtMetadataBlock,
        BlockError,
    >)
        ensures
            level != 8 ==> r == Err::<ExtMetadataBlock, BlockError>(
                BlockError::UnsupportedLevel { level },
            ),
            level != 8 ==> *final(reader) == *old(reader),
            level == 8 ==> (r is Ok <==> encoded_bits(length) <= unread_bits(*old(reader)).len()),
            level == 8 && r is Ok ==> r->Ok_0 == ExtMetadataBlock::Level8(
                ExtMetadataBlockLevel8::decode(unread_bits(*old(reader)), length),
            ),
            level == 8 && r is Ok ==> unread_bits(*final(reader)) == unread_bits(
                *old(reader),
            ).skip(encoded_bits(length) as int),
            level == 8 && r is Err ==> *final(reader) == *old(reader),
    {
        if level == 8 {
            ExtMetadataBlockLevel8::parse(reader, length)
        } else {
            Err(BlockError::UnsupportedLevel { level })
        }
    }

    pub fn level(&self) -> (r: u8)
        ensures
            r == self.key().0,
    {
        match self {
            ExtMetadataBlock::Level8(b) => b.level(),
        }
    }

    pub fn bytes_size(&self) -> (r: u64)
        ensures
            r == self.declared_length(),
    {
        match self {
            ExtMetadataBlock::Level8(b) => b.bytes_size(),
        }
    }

    pub fn required_bits(&self) -> (r: u64)
        ensures
            r == match self {
                ExtMetadataBlock::Level8(b) => required_bits_of(b.length),
            },
    {
        match self {
            ExtMetadataBlock::Level8(b) => b.required_bits(),
        }
    }

    pub fn validate(&self) -> (r: Result<(), BlockError>)
        ensures
            r == match self {
                ExtMetadataBlock::Level8(b) => b.check(),
            },
    {
        match self {
            ExtMetadataBlock::Level8(b) => b.validate(),
        }
    }

    pub fn write(&self, writer: &mut BitVecWriter) -> (r: Result<(), BlockError>)
        ensures
            match self {
                ExtMetadataBlock::Level8(b) => {
                    &&& r == b.check()
                    &&& r is Ok ==> written_bits(*final(writer)) == written_bits(*old(writer))
                        + b.encode()
                    &&& r is Err ==> *final(writer) == *old(writer)
                },
            },
    {
        match self {
            ExtMetadataBlock::Level8(b) => b.write(writer),
        }
    }

    pub fn sort_key(&self) -> (r: (u8, u16))
        ensures
            r == self.key(),
    {
        match self {
            ExtMetadataBlock::Level8(b) => b.sort_key(),
        }
    }
}

fn rank(k: (u8, u16)) -> (r: u32)
    ensures
        r as int == key_rank(k),
{
    (k.0 as u32) * 65536 + k.1 as u32
}

/// The canonical order of a list of sort keys, as positions into the list:
/// ascending by key, a stable sort.
pub fn canonical_order(keys: &Vec<(u8, u16)>) -> (r: Vec<usize>)
    ensures
        is_canonical_order(keys@, r@),
{
    let n = keys.len();
    let mut order: Vec<usize> = Vec::new();
    let mut k: usize = 0;
    while k < n
        invariant
            n == keys.len(),
            k <= n,
            order.len() == k,
            forall|i: int| 0 <= i < order.len() ==> order[i] < k,
            forall|m: usize| m < k ==> #[trigger] order@.contains(m),
            forall|i: int, j: int|
                0 <= i < j < order.len() ==> precedes(keys@, order[i] as int, order[j] as int),
        decreases n - k,
    {
        let rk = rank(keys[k]);
        let mut p: usize = order.len();
        while p > 0
            invariant
                n == keys.len(),
                k < n,
                p <= order.len(),
                order.len() == k,
                forall|i: int| 0 <= i < order.len() ==> order[i] < k,
                forall|q: int| p <= q < order.len() ==> key_rank(keys@[order[q] as int]) > rk,
            ensures
                p <= order.len(),
                forall|q: int| p <= q < order.len() ==> key_rank(keys@[order[q] as int]) > rk,
                p == 0 || key_rank(keys@[order[p - 1] as int]) <= rk,
            decreases p,
        {
            if rank(keys[order[p - 1]]) <= rk {
                break;
            }
            p = p - 1;
        }
        let ghost prev = order@;
        order.insert(p, k);
        proof {
            assert(forall|q: int|
                0 <= q < p ==> key_rank(keys@[prev[q] as int]) <= rk) by {
                assert forall|q: int| 0 <= q < p implies key_rank(keys@[prev[q] as int]) <= rk by {
                    if q < p - 1 {
                        assert(precedes(keys@, prev[q] as int, prev[p - 1] as int));
                    }
                }
            }
            assert forall|m: usize| m < k + 1 implies #[trigger] order@.contains(m) by {
                if m < k {
                    assert(prev.contains(m));
                    let t = choose|t: int| 0 <= t < prev.len() && prev[t] == m;
                    if t < p {
                        assert(order@[t] == m);
                    } else {
                        assert(order@[t + 1] == m);
                    }
                } else {
                    assert(order@[p as int] == k);
                }
            }
            assert forall|i: int, j: int| 0 <= i < j < order.len() implies precedes(
                keys@,
                order[i] as int,
                order[j] as int,
            ) by {
                if i < p && j < p {
                    assert(precedes(keys@, prev[i] as int, prev[j] as int));
                } else if i < p && j == p {
                } else if i < p {
                    assert(precedes(keys@, prev[i] as int, prev[j - 1] as int));
                } else if i == p {
                } else {
                    assert(precedes(keys@, prev[i - 1] as int, prev[j - 1] as int));
                }
            }
        }
        k = k + 1;
    }
    order
}

/// The blocks in canonical order: ascending by level, then by each kind's
/// secondary key, with blocks of equal keys in their input order.
pub fn sort_blocks(blocks: &Vec<ExtMetadataBlock>) -> (r: Vec<ExtMetadataBlock>)
    ensures
        exists|order: Seq<usize>|
            {
                &&& #[trigger] is_canonical_order(block_keys(blocks@), order)
                &&& r@ == order.map_values(|i: usize| blocks@[i as int])
            },
{
    let n = blocks.len();
    let mut keys: Vec<(u8, u16)> = Vec::new();
    let mut i: usize = 0;
    while i < n
        invariant
            n == blocks.len(),
            i <= n,
            keys@ == blocks@.subrange(0, i as int).map_values(|b: ExtMetadataBlock| b.key()),
        decreases n - i,
    {
        keys.push(blocks[i].sort_key());
        proof {
            assert(blocks@.subrange(0, i + 1).map_values(|b: ExtMetadataBlock| b.key())
                =~= blocks@.subrange(0, i as int).map_values(|b: ExtMetadataBlock| b.key()).push(
                blocks@[i as int].key(),
            ));
        }
        i = i + 1;
    }
    assert(blocks@.subrange(0, n as int) =~= blocks@);
    let order = canonical_order(&keys);
    let mut sorted: Vec<ExtMetadataBlock> = Vec::new();
    let mut j: usize = 0;
    while j < n
        invariant
            n == blocks.len(),
            j <= n,
            is_canonical_order(keys@, order@),
            keys@.len() == n,
            sorted@ == order@.subrange(0, j as int).map_values(|i: usize| blocks@[i as int]),
        decreases n - j,
    {
        sorted.push(blocks[order[j]]);
        proof {
            assert(order@.subrange(0, j + 1).map_values(|i: usize| blocks@[i as int])
                =~= order@.subrange(0, j as int).map_values(|i: usize| blocks@[i as int]).push(
                blocks@[order@[j as int] as int],
            ));
        }
        j = j + 1;
    }
    assert(order@.subrange(0, n as int) =~= order@);
    assert(keys@ == block_keys(blocks@));
    sorted
}

} // verus!
