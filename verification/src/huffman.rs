//! Static Huffman string compression with the Tribes character frequency table.
//!
//! An encoded string is: a compression flag bit, an 8-bit length, the code of
//! each byte of the string, 32 zero bits when the first byte is 128 or above,
//! and zero bits up to the next byte boundary.

use vstd::prelude::*;
use vstd::utf8::{valid_utf8, decode_utf8, encode_utf8};
use vstd::string::StringSliceAdditionalSpecFns;
use vstd::arithmetic::power2::pow2;
use crate::bitstream::{
    BitStreamReader, BitStreamWriter, stream_bits, word_bits, word_bit, zero_bits, bits_value,
    ceil_bytes, is_packing, lemma_word_bits_value, lemma_word_bits_zero, lemma_ceil_bytes,
};
use crate::error::NetError;
use crate::text::string_from_utf8;

verus! {

const PROB_BOOST: u32 = 1;

/// An internal tree node: its popularity and its two children. A negative
/// child `c` is the leaf `-(c + 1)`; a non-negative one is a node index.
#[derive(Clone, Copy, Debug)]
pub struct HuffNode {
    pop: u32,
    index0: i16,
    index1: i16,
}

/// A leaf: a symbol with its popularity and its code.
#[derive(Clone, Copy, Debug)]
pub struct HuffLeaf {
    pop: u32,
    num_bits: u8,
    symbol: u8,
    code: u32,
}

/// A tree under construction: either a node or a leaf.
#[derive(Clone, Copy)]
struct HuffWrap {
    node_idx: i32,
    leaf_idx: i32,
}

/// The child of `n` taken on `bit`.
pub closed spec fn child_of(n: HuffNode, bit: bool) -> int {
    if bit {
        n.index1 as int
    } else {
        n.index0 as int
    }
}

/// A child reference is a leaf among the 256, or a node index in `1..bound`.
pub open spec fn child_ok(c: int, bound: int) -> bool {
    (-256 <= c < 0) || (1 <= c < bound)
}

/// Nodes from `start` on have children that are leaves or earlier nodes
/// (node 0, the root, may point to any node after it).
pub closed spec fn tree_ok_from(nodes: Seq<HuffNode>, start: int) -> bool {
    forall|i: int|
        start <= i < nodes.len() ==> child_ok(
            #[trigger] nodes[i].index0 as int,
            if i == 0 {
                nodes.len() as int
            } else {
                i
            },
        ) && child_ok(
            nodes[i].index1 as int,
            if i == 0 {
                nodes.len() as int
            } else {
                i
            },
        )
}

/// The node reached from the root by following `path`, if it is a node.
pub closed spec fn path_node(nodes: Seq<HuffNode>, path: Seq<bool>) -> Option<int>
    decreases path.len(),
{
    if path.len() == 0 {
        Some(0)
    } else {
        match path_node(nodes, path.drop_last()) {
            Some(n) => if 0 <= n < nodes.len() && child_of(nodes[n], path.last()) >= 0 {
                Some(child_of(nodes[n], path.last()))
            } else {
                None
            },
            None => None,
        }
    }
}

/// The leaf reached from the root by following `path`, if it ends on a leaf.
pub closed spec fn path_leaf(nodes: Seq<HuffNode>, path: Seq<bool>) -> Option<int> {
    if path.len() == 0 {
        None
    } else {
        match path_node(nodes, path.drop_last()) {
            Some(n) => if 0 <= n < nodes.len() && child_of(nodes[n], path.last()) < 0 {
                Some(-(child_of(nodes[n], path.last()) + 1))
            } else {
                None
            },
            None => None,
        }
    }
}

/// Decoding one symbol: from node `idx`, take one bit after another from
/// `bits` at `pos` until a leaf is reached; the leaf and the position after
/// its last bit, or `None` when the bits run out first.
pub closed spec fn walk(nodes: Seq<HuffNode>, idx: int, bits: Seq<bool>, pos: int) -> Option<
    (int, int),
>
    decreases bits.len() - pos,
{
    if pos < 0 || pos >= bits.len() || !(0 <= idx < nodes.len()) {
        None
    } else {
        let c = child_of(nodes[idx], bits[pos]);
        if c < 0 {
            Some((-(c + 1), pos + 1))
        } else {
            walk(nodes, c, bits, pos + 1)
        }
    }
}

/// The code of `leaf`: its low `num_bits` code bits.
pub closed spec fn leaf_code(leaf: HuffLeaf) -> Seq<bool> {
    word_bits(leaf.code, leaf.num_bits as nat)
}

/// A leaf has a code when its bit count is between 1 and 32.
pub closed spec fn has_code(leaf: HuffLeaf) -> bool {
    1 <= leaf.num_bits <= 32
}

/// Every leaf with a code is reached from the root by following its code.
pub closed spec fn codes_consistent(nodes: Seq<HuffNode>, leaves: Seq<HuffLeaf>) -> bool {
    forall|l: int|
        0 <= l < leaves.len() && has_code(#[trigger] leaves[l]) ==> path_leaf(
            nodes,
            leaf_code(leaves[l]),
        ) == Some(l)
}

/// The codes of the bytes of `s`, one after another.
pub closed spec fn codes_of(leaves: Seq<HuffLeaf>, s: Seq<u8>) -> Seq<bool>
    decreases s.len(),
{
    if s.len() == 0 {
        Seq::empty()
    } else {
        codes_of(leaves, s.drop_last()) + leaf_code(leaves[s.last() as int])
    }
}

/// Every byte of `s` has a code.
pub closed spec fn all_coded(leaves: Seq<HuffLeaf>, s: Seq<u8>) -> bool {
    forall|i: int| 0 <= i < s.len() ==> has_code(#[trigger] leaves[s[i] as int])
}

/// The bits of the encoding of the bytes `s` (before byte alignment).
pub closed spec fn encoded_bits(leaves: Seq<HuffLeaf>, s: Seq<u8>) -> Seq<bool> {
    seq![true] + word_bits(if s.len() < 255 { s.len() as u32 } else { 255u32 }, 8) + codes_of(
        leaves,
        s,
    ) + if s.len() > 0 && s[0] >= 128 {
        zero_bits(32)
    } else {
        Seq::empty()
    }
}

/// Decoding `count` symbols from position `pos`: the symbols and the
/// position after them, or `None` when the bits run out.
pub closed spec fn decode_symbols(
    nodes: Seq<HuffNode>,
    leaves: Seq<HuffLeaf>,
    bits: Seq<bool>,
    pos: int,
    count: nat,
) -> Option<(Seq<u8>, int)>
    decreases count,
{
    if count == 0 {
        Some((Seq::empty(), pos))
    } else {
        match decode_symbols(nodes, leaves, bits, pos, (count - 1) as nat) {
            Some((syms, p)) => match walk(nodes, 0, bits, p) {
                Some((l, q)) => Some((syms.push(leaves[l].symbol), q)),
                None => None,
            },
            None => None,
        }
    }
}

/// The bytes that `count` uncompressed 8-bit characters at `pos` hold.
pub open spec fn raw_symbols(bits: Seq<bool>, pos: int, count: nat) -> Seq<u8> {
    Seq::new(count, |k: int| bits_value(bits.subrange(pos + 8 * k, pos + 8 * k + 8)) as u8)
}

/// What decoding `data` gives: the string's bytes and the number of bytes
/// consumed, or the error. An empty string consumes the two bytes that its
/// flag and length fields take.
pub closed spec fn huffman_decode(
    nodes: Seq<HuffNode>,
    leaves: Seq<HuffLeaf>,
    data: Seq<u8>,
) -> Result<(Seq<u8>, nat), NetError> {
    let bits = stream_bits(data);
    if bits.len() < 9 {
        Err(NetError::UnexpectedEof)
    } else {
        let len = bits_value(bits.subrange(1, 9));
        if len == 0 {
            Ok((Seq::empty(), 2))
        } else if bits[0] {
            match decode_symbols(nodes, leaves, bits, 9, len) {
                None => Err(NetError::UnexpectedEof),
                Some((syms, end)) => {
                    let end2 = if syms[0] >= 128 {
                        end + 32
                    } else {
                        end
                    };
                    if end2 > bits.len() {
                        Err(NetError::UnexpectedEof)
                    } else if !valid_utf8(syms) {
                        Err(NetError::InvalidData)
                    } else {
                        Ok((syms, ceil_bytes(end2 as nat)))
                    }
                },
            }
        } else if 9 + 8 * len > bits.len() {
            Err(NetError::UnexpectedEof)
        } else if !valid_utf8(raw_symbols(bits, 9, len)) {
            Err(NetError::InvalidData)
        } else {
            Ok((raw_symbols(bits, 9, len), ceil_bytes(9 + 8 * len)))
        }
    }
}

impl HuffWrap {
    /// A wrap names a leaf among the 256 or a node in `1..node_count`.
    spec fn valid(self, node_count: int) -> bool {
        (self.node_idx == -1 && 0 <= self.leaf_idx < 256) || (1 <= self.node_idx < node_count
            && self.leaf_idx == -1)
    }

    spec fn pop_of(self, nodes: Seq<HuffNode>, leaves: Seq<HuffLeaf>) -> int {
        if self.node_idx >= 0 {
            nodes[self.node_idx as int].pop as int
        } else {
            leaves[self.leaf_idx as int].pop as int
        }
    }

    fn get_pop(&self, nodes: &Vec<HuffNode>, leaves: &Vec<HuffLeaf>) -> (r: u32)
        requires
            self.valid(nodes@.len() as int),
            leaves@.len() == 256,
        ensures
            r == self.pop_of(nodes@, leaves@),
    {
        if self.node_idx >= 0 {
            nodes[self.node_idx as usize].pop
        } else {
            leaves[self.leaf_idx as usize].pop
        }
    }

    /// The child index that names this tree in a node.
    spec fn index_of(self) -> int {
        if self.leaf_idx >= 0 {
            -(self.leaf_idx + 1)
        } else {
            self.node_idx as int
        }
    }

    fn determine_index(&self) -> (r: i16)
        requires
            self.valid(32768),
        ensures
            self.node_idx >= 0 ==> r == self.node_idx,
            self.node_idx < 0 ==> r == -(self.leaf_idx + 1),
            r == self.index_of(),
    {
        if self.leaf_idx >= 0 {
            -(self.leaf_idx as i16 + 1)
        } else {
            self.node_idx as i16
        }
    }
}

/// The sum of the first `n` entries of `s`.
spec fn sum_first(s: Seq<int>, n: int) -> int
    decreases n,
{
    if n <= 0 {
        0
    } else {
        sum_first(s, n - 1) + s[n - 1]
    }
}

proof fn lemma_sum_update(s: Seq<int>, n: int, j: int, v: int)
    requires
        0 <= j < n <= s.len(),
    ensures
        sum_first(s.update(j, v), n) == sum_first(s, n) - s[j] + v,
    decreases n,
{
    if n - 1 > j {
        lemma_sum_update(s, n - 1, j, v);
    } else {
        lemma_sum_same(s, s.update(j, v), n - 1);
    }
}

proof fn lemma_sum_same(s: Seq<int>, t: Seq<int>, n: int)
    requires
        0 <= n <= s.len(),
        n <= t.len(),
        forall|i: int| 0 <= i < n ==> s[i] == t[i],
    ensures
        sum_first(s, n) == sum_first(t, n),
    decreases n,
{
    if n > 0 {
        lemma_sum_same(s, t, n - 1);
    }
}

proof fn lemma_sum_nonneg_bound(s: Seq<int>, n: int, k: int)
    requires
        0 <= k < n <= s.len(),
        forall|i: int| 0 <= i < n ==> #[trigger] s[i] >= 0,
    ensures
        s[k] <= sum_first(s, n),
        sum_first(s, n) >= 0,
    decreases n,
{
    assert(sum_first(s, n) == sum_first(s, n - 1) + s[n - 1]);
    assert(s[n - 1] >= 0);
    if n - 1 > k {
        lemma_sum_nonneg_bound(s, n - 1, k);
    } else if n - 1 > 0 {
        lemma_sum_nonneg_bound(s, n - 1, 0);
    } else {
        assert(sum_first(s, 0) == 0);
    }
}

proof fn lemma_sum_le(s: Seq<int>, n: int, m: int)
    requires
        0 <= n <= s.len(),
        forall|i: int| 0 <= i < n ==> #[trigger] s[i] <= m,
    ensures
        sum_first(s, n) <= n * m,
    decreases n,
{
    if n > 0 {
        lemma_sum_le(s, n - 1, m);
        assert(s[n - 1] <= m);
        assert(sum_first(s, n) == sum_first(s, n - 1) + s[n - 1]);
        assert((n - 1) * m + m == n * m) by (nonlinear_arith);
        assert(sum_first(s, n - 1) <= (n - 1) * m);
    } else {
        assert(n * m == 0) by (nonlinear_arith)
            requires
                n == 0,
        ;
    }
}

/// Following `path` then `bit` from the root.
proof fn lemma_path_step(nodes: Seq<HuffNode>, path: Seq<bool>, bit: bool)
    ensures
        path.push(bit).drop_last() == path,
        path.push(bit).last() == bit,
{
    assert(path.push(bit).drop_last() =~= path);
}

/// Walking from the root along the bits of `path` arrives where `path` leads.
proof fn lemma_walk_path(nodes: Seq<HuffNode>, path: Seq<bool>, bits: Seq<bool>, pos: int)
    requires
        0 <= pos,
        pos + path.len() <= bits.len(),
        bits.subrange(pos, pos + path.len()) == path,
    ensures
        path_node(nodes, path) matches Some(n) ==> walk(nodes, 0, bits, pos) == walk(
            nodes,
            n,
            bits,
            pos + path.len(),
        ),
        path_leaf(nodes, path) matches Some(l) ==> walk(nodes, 0, bits, pos) == Some(
            (l, pos + path.len()),
        ),
    decreases path.len(),
{
    if path.len() > 0 {
        let prefix = path.drop_last();
        assert(bits.subrange(pos, pos + prefix.len()) =~= prefix);
        lemma_walk_path(nodes, prefix, bits, pos);
        assert(bits[pos + prefix.len()] == path.last());
    }
}

/// Once decoding runs out of bits, decoding more symbols fails too.
proof fn lemma_decode_symbols_none(
    nodes: Seq<HuffNode>,
    leaves: Seq<HuffLeaf>,
    bits: Seq<bool>,
    k: nat,
    count: nat,
)
    requires
        decode_symbols(nodes, leaves, bits, 9, k) is None,
        k <= count,
    ensures
        decode_symbols(nodes, leaves, bits, 9, count) is None,
    decreases count - k,
{
    if k < count {
        lemma_decode_symbols_none(nodes, leaves, bits, k + 1, count);
    }
}

/// Bytes that hold some bits padded to a byte boundary hold those bits.
proof fn lemma_packing_of_aligned(bytes: Seq<u8>, bits: Seq<bool>)
    requires
        is_packing(
            bytes,
            bits + zero_bits((ceil_bytes(bits.len()) * 8 - bits.len()) as nat),
        ),
    ensures
        is_packing(bytes, bits),
{
    lemma_ceil_bytes(bits.len());
    let pad = (ceil_bytes(bits.len()) * 8 - bits.len()) as nat;
    let padded = bits + zero_bits(pad);
    lemma_ceil_bytes(padded.len());
    assert(padded.len() % 8 == 0) by (nonlinear_arith)
        requires
            padded.len() == ceil_bytes(bits.len()) * 8,
    ;
    assert(ceil_bytes(padded.len()) == ceil_bytes(bits.len()));
    assert(stream_bits(bytes) =~= bits + zero_bits((bytes.len() * 8 - bits.len()) as nat));
}

/// The Tribes character frequency table, indexed by byte.
pub closed spec fn tribes_freq() -> Seq<u32> {
    seq![
        0, 0, 0, 0, 0, 0, 0, 0, 0, 329, 21, 0, 0, 0, 0, 0,
        0, 0, 0, 0, 0, 0, 0, 0, 0, 0, 0, 0, 0, 0, 0, 0,
        2809, 68, 0, 27, 0, 58, 3, 62, 4, 7, 0, 0, 15, 65, 554, 3,
        394, 404, 189, 117, 30, 51, 27, 15, 34, 32, 80, 1, 142, 3, 142, 39,
        0, 144, 125, 44, 122, 275, 70, 135, 61, 127, 8, 12, 113, 246, 122, 36,
        185, 1, 149, 309, 335, 12, 11, 14, 54, 151, 0, 0, 2, 0, 0, 211,
        0, 2090, 344, 736, 993, 2872, 701, 605, 646, 1552, 328, 305, 1240, 735, 1533, 1713,
        562, 3, 1775, 1149, 1469, 979, 407, 553, 59, 279, 31, 0, 0, 0, 68, 0,
        0, 0, 0, 0, 0, 0, 0, 0, 0, 0, 0, 0, 0, 0, 0, 0,
        0, 0, 0, 0, 0, 0, 0, 0, 0, 0, 0, 0, 0, 0, 0, 0,
        0, 0, 0, 0, 0, 0, 0, 0, 0, 0, 0, 0, 0, 0, 0, 0,
        0, 0, 0, 0, 0, 0, 0, 0, 0, 0, 0, 0, 0, 0, 0, 0,
        0, 0, 0, 0, 0, 0, 0, 0, 0, 0, 0, 0, 0, 0, 0, 0,
        0, 0, 0, 0, 0, 0, 0, 0, 0, 0, 0, 0, 0, 0, 0, 0,
        0, 0, 0, 0, 0, 0, 0, 0, 0, 0, 0, 0, 0, 0, 0, 0,
        0, 0, 0, 0, 0, 0, 0, 0, 0, 0, 0, 0, 0, 0, 0, 0,
            ]
}

/// Whether byte `b` is an ASCII letter or digit.
spec fn alnum(b: int) -> bool {
    (48 <= b <= 57) || (65 <= b <= 90) || (97 <= b <= 122)
}

/// The leaves before the tree is built: leaf `i` holds symbol `i`, and its
/// popularity is its frequency plus one, plus one more for letters and digits.
spec fn initial_leaves() -> Seq<HuffLeaf> {
    Seq::new(
        256,
        |i: int|
            HuffLeaf {
                pop: (tribes_freq()[i] + 1 + if alnum(i) { 1int } else { 0int }) as u32,
                num_bits: 0,
                symbol: i as u8,
                code: 0,
            },
    )
}

/// The trees before any is joined: one per leaf, in symbol order.
spec fn initial_wraps() -> Seq<HuffWrap> {
    Seq::new(256, |k: int| HuffWrap { node_idx: -1i32, leaf_idx: k as i32 })
}

/// The popularities of the first `n` trees.
spec fn wrap_pops(nodes: Seq<HuffNode>, leaves: Seq<HuffLeaf>, wraps: Seq<HuffWrap>, n: nat) -> Seq<int> {
    Seq::new(n, |k: int| wraps[k].pop_of(nodes, leaves))
}

/// The smallest and second smallest of the first `i` popularities and their
/// positions, as a left-to-right scan finds them: a later entry replaces an
/// earlier one only when strictly smaller.
spec fn scan(p: Seq<int>, i: nat) -> (int, int, int, int)
    decreases i,
{
    if i == 0 {
        (0xFFFF_FFFEint, 0xFFFF_FFFFint, -1int, -1int)
    } else {
        let prev = scan(p, (i - 1) as nat);
        let pop = p[i - 1];
        if pop < prev.0 {
            (pop, prev.0, i - 1, prev.2)
        } else if pop < prev.1 {
            (prev.0, pop, prev.2, i - 1)
        } else {
            prev
        }
    }
}

/// One joining step over the first `n` trees: the two least popular trees
/// become children of a new node, which takes the place of the earlier of the
/// two; the last tree moves into the place of the later one.
spec fn merge_step(leaves: Seq<HuffLeaf>, nodes: Seq<HuffNode>, wraps: Seq<HuffWrap>, n: nat) -> (
    Seq<HuffNode>,
    Seq<HuffWrap>,
) {
    let p = wrap_pops(nodes, leaves, wraps, n);
    let s = scan(p, n);
    let node = HuffNode {
        pop: (p[s.2] + p[s.3]) as u32,
        index0: wraps[s.2].index_of() as i16,
        index1: wraps[s.3].index_of() as i16,
    };
    let lo = if s.2 < s.3 { s.2 } else { s.3 };
    let hi = if s.2 < s.3 { s.3 } else { s.2 };
    let w1 = wraps.update(lo, HuffWrap { node_idx: nodes.len() as i32, leaf_idx: -1i32 });
    let w2 = if hi != n - 1 { w1.update(hi, w1[n - 1]) } else { w1 };
    (nodes.push(node), w2)
}

/// Joining steps until one tree is left.
spec fn merge_all(leaves: Seq<HuffLeaf>, nodes: Seq<HuffNode>, wraps: Seq<HuffWrap>, n: nat) -> (
    Seq<HuffNode>,
    Seq<HuffWrap>,
)
    decreases n,
{
    if n <= 1 {
        (nodes, wraps)
    } else {
        let r = merge_step(leaves, nodes, wraps, n);
        merge_all(leaves, r.0, r.1, (n - 1) as nat)
    }
}

/// The nodes of the Tribes tree; node 0 is a copy of the root.
pub closed spec fn tribes_nodes() -> Seq<HuffNode> {
    let r = merge_all(
        initial_leaves(),
        seq![HuffNode { pop: 0, index0: 0, index1: 0 }],
        initial_wraps(),
        256,
    );
    r.0.update(0, r.0[r.1[0].node_idx as int])
}

/// The leaves after codes are assigned below `index`, whose path from the root
/// is the low `depth` bits of `code`; nothing is assigned below depth 32.
spec fn assign_codes(
    nodes: Seq<HuffNode>,
    leaves: Seq<HuffLeaf>,
    index: int,
    code: u32,
    depth: nat,
) -> Seq<HuffLeaf>
    decreases 33 - depth,
{
    if index < 0 {
        let li = -(index + 1);
        let l = leaves[li];
        leaves.update(
            li,
            HuffLeaf {
                pop: l.pop,
                num_bits: (if depth > 1 { depth } else { 1 }) as u8,
                symbol: l.symbol,
                code,
            },
        )
    } else if depth >= 32 {
        leaves
    } else {
        let node = nodes[index];
        let after0 = assign_codes(nodes, leaves, node.index0 as int, code, depth + 1);
        assign_codes(nodes, after0, node.index1 as int, code | (1u32 << (depth as u32)), depth + 1)
    }
}

/// The leaves of the Tribes codec, with their codes.
pub closed spec fn tribes_leaves() -> Seq<HuffLeaf> {
    assign_codes(tribes_nodes(), initial_leaves(), 0, 0, 0)
}

/// A Huffman codec built from the Tribes frequency table.
pub struct HuffmanCodec {
    nodes: Vec<HuffNode>,
    leaves: Vec<HuffLeaf>,
}

impl HuffmanCodec {
    /// The tree's nodes (node 0 is the root).
    pub closed spec fn nodes_view(&self) -> Seq<HuffNode> {
        self.nodes@
    }

    /// The 256 leaves, indexed by symbol.
    pub closed spec fn leaves_view(&self) -> Seq<HuffLeaf> {
        self.leaves@
    }

    /// The tree is well formed, leaf `i` holds symbol `i`, and every leaf with
    /// a code is reached by following that code from the root.
    pub closed spec fn wf(&self) -> bool {
        &&& self.nodes@.len() >= 1
        &&& self.nodes@.len() < 32768
        &&& tree_ok_from(self.nodes@, 0)
        &&& self.leaves@.len() == 256
        &&& forall|i: int| 0 <= i < 256 ==> (#[trigger] self.leaves@[i]).symbol == i
        &&& codes_consistent(self.nodes@, self.leaves@)
    }

    /// Creates the codec from the Tribes frequency table.
    pub fn new() -> (c: Self)
        ensures
            c.wf(),
            c.nodes_view() == tribes_nodes(),
            c.leaves_view() == tribes_leaves(),
    {
        let blank = HuffLeaf { pop: 0, num_bits: 0, symbol: 0, code: 0 };
        let mut leaves: Vec<HuffLeaf> = Vec::new();
        let mut i: usize = 0;
        while i < 256
            invariant
                i <= 256,
                leaves@.len() == i,
                forall|k: int| 0 <= k < i ==> #[trigger] leaves@[k] == blank,
            decreases 256 - i,
        {
            leaves.push(blank);
            i = i + 1;
        }
        let mut codec = HuffmanCodec { nodes: Vec::new(), leaves };
        codec.build_tables();
        codec
    }

    /// The number of tree nodes (node 0 being the root).
    pub fn node_count(&self) -> (r: usize)
        ensures
            r == self.nodes_view().len(),
    {
        self.nodes.len()
    }

    /// The number of leaves: one per byte value.
    pub fn leaf_count(&self) -> (r: usize)
        ensures
            r == self.leaves_view().len(),
    {
        self.leaves.len()
    }

    /// Builds the tree by repeatedly joining the two least popular trees, then
    /// assigns the codes.
    fn build_tables(&mut self)
        requires
            old(self).nodes@.len() == 0,
            old(self).leaves@.len() == 256,
            forall|k: int|
                0 <= k < 256 ==> #[trigger] old(self).leaves@[k] == (HuffLeaf {
                    pop: 0,
                    num_bits: 0,
                    symbol: 0,
                    code: 0,
                }),
        ensures
            final(self).wf(),
            final(self).nodes@ == tribes_nodes(),
            final(self).leaves@ == tribes_leaves(),
    {
        let freq_table = Self::get_freq_table();
        let mut i: usize = 0;
        while i < 256
            invariant
                i <= 256,
                self.nodes@.len() == 0,
                self.leaves@.len() == 256,
                freq_table@ == tribes_freq(),
                forall|k: int| 0 <= k < 256 ==> #[trigger] freq_table@[k] <= 2872,
                forall|k: int| 0 <= k < i ==> #[trigger] self.leaves@[k] == initial_leaves()[k],
                forall|k: int|
                    i <= k < 256 ==> #[trigger] self.leaves@[k] == (HuffLeaf {
                        pop: 0,
                        num_bits: 0,
                        symbol: 0,
                        code: 0,
                    }),
            decreases 256 - i,
        {
            let mut leaf = self.leaves[i];
            leaf.symbol = i as u8;
            let mut boost = PROB_BOOST;
            if Self::is_alnum(i as u8) {
                boost = boost + PROB_BOOST;
            }
            leaf.pop = freq_table[i] + boost;
            self.leaves.set(i, leaf);
            i = i + 1;
        }
        proof {
            assert(self.leaves@ =~= initial_leaves());
            assert forall|k: int| 0 <= k < 256 implies (#[trigger] self.leaves@[k]).pop <= 2874 by {
                assert(freq_table@[k] <= 2872);
            }
        }
        self.nodes.push(HuffNode { pop: 0, index0: 0, index1: 0 });
        let mut wraps: Vec<HuffWrap> = Vec::new();
        let mut w: i32 = 0;
        while w < 256
            invariant
                0 <= w <= 256,
                wraps@.len() == w,
                forall|k: int| 0 <= k < w ==> #[trigger] wraps@[k] == (HuffWrap { node_idx: -1i32, leaf_idx: k as i32 }),
            decreases 256 - w,
        {
            wraps.push(HuffWrap { node_idx: -1, leaf_idx: w });
            w = w + 1;
        }
        let mut curr_wraps: usize = 256;
        let ghost first_node = self.nodes@;
        proof {
            assert(wraps@ =~= initial_wraps());
            assert(first_node =~= seq![HuffNode { pop: 0, index0: 0, index1: 0 }]);
        }
        let ghost mut pops: Seq<int> = Seq::new(256, |k: int| self.leaves@[k].pop as int);
        proof {
            assert forall|k: int| 0 <= k < 256 implies #[trigger] pops[k] <= 2874 by {}
            lemma_sum_le(pops, 256, 2874);
        }
        while curr_wraps > 1
            invariant
                1 <= curr_wraps <= 256,
                wraps@.len() == 256,
                self.leaves@.len() == 256,
                self.nodes@.len() == 256 - curr_wraps + 1,
                forall|k: int| 0 <= k < 256 ==> (#[trigger] self.leaves@[k]).symbol == k,
                forall|k: int| 0 <= k < 256 ==> (#[trigger] self.leaves@[k]).num_bits == 0,
                tree_ok_from(self.nodes@, 1),
                forall|k: int| 0 <= k < curr_wraps ==> (#[trigger] wraps@[k]).valid(self.nodes@.len() as int),
                pops.len() == 256,
                forall|k: int| 0 <= k < curr_wraps ==> #[trigger] pops[k] == wraps@[k].pop_of(self.nodes@, self.leaves@),
                forall|k: int| 0 <= k < curr_wraps ==> #[trigger] pops[k] >= 0,
                sum_first(pops, curr_wraps as int) <= 256 * 2874,
                curr_wraps == 1 ==> wraps@[0].node_idx == self.nodes@.len() - 1,
                self.leaves@ == initial_leaves(),
                merge_all(initial_leaves(), self.nodes@, wraps@, curr_wraps as nat) == merge_all(
                    initial_leaves(),
                    seq![HuffNode { pop: 0, index0: 0, index1: 0 }],
                    initial_wraps(),
                    256,
                ),
            decreases curr_wraps,
        {
            let mut min1: u32 = 0xFFFFFFFE;
            let mut min2: u32 = 0xFFFFFFFF;
            let mut idx1: i32 = -1;
            let mut idx2: i32 = -1;
            proof {
                assert forall|k: int| 0 <= k < curr_wraps implies #[trigger] pops[k] <= 256 * 2874 by {
                    lemma_sum_nonneg_bound(pops, curr_wraps as int, k);
                }
            }
            let ghost pp = wrap_pops(self.nodes@, self.leaves@, wraps@, curr_wraps as nat);
            let mut i: usize = 0;
            while i < curr_wraps
                invariant
                    i <= curr_wraps <= 256,
                    curr_wraps >= 2,
                    pp == wrap_pops(self.nodes@, self.leaves@, wraps@, curr_wraps as nat),
                    scan(pp, i as nat) == (min1 as int, min2 as int, idx1 as int, idx2 as int),
                    wraps@.len() == 256,
                    self.leaves@.len() == 256,
                    forall|k: int| 0 <= k < curr_wraps ==> (#[trigger] wraps@[k]).valid(self.nodes@.len() as int),
                    forall|k: int| 0 <= k < curr_wraps ==> #[trigger] pops[k] == wraps@[k].pop_of(self.nodes@, self.leaves@),
                    forall|k: int| 0 <= k < curr_wraps ==> #[trigger] pops[k] <= 256 * 2874,
                    i == 0 ==> idx1 == -1 && idx2 == -1 && min1 == 0xFFFFFFFEu32,
                    i == 1 ==> idx1 == 0 && idx2 == -1 && min2 == 0xFFFFFFFEu32 && min1 == pops[0],
                    i >= 1 ==> 0 <= idx1 < i && min1 == pops[idx1 as int],
                    i >= 2 ==> 0 <= idx2 < i && idx2 != idx1 && min2 == pops[idx2 as int],
                decreases curr_wraps - i,
            {
                let pop = wraps[i].get_pop(&self.nodes, &self.leaves);
                assert(pop as int == pops[i as int]);
                assert(pop as int == pp[i as int]);
                if pop < min1 {
                    min2 = min1;
                    idx2 = idx1;
                    min1 = pop;
                    idx1 = i as i32;
                } else if pop < min2 {
                    min2 = pop;
                    idx2 = i as i32;
                }
                i = i + 1;
            }
            let p1 = wraps[idx1 as usize].get_pop(&self.nodes, &self.leaves);
            let p2 = wraps[idx2 as usize].get_pop(&self.nodes, &self.leaves);
            proof {
                lemma_sum_nonneg_bound(pops, curr_wraps as int, idx1 as int);
                lemma_sum_nonneg_bound(pops, curr_wraps as int, idx2 as int);
                let lo = if idx1 < idx2 { idx1 as int } else { idx2 as int };
                let hi = if idx1 < idx2 { idx2 as int } else { idx1 as int };
                // The two chosen entries together are at most the sum.
                lemma_sum_update(pops, curr_wraps as int, hi, 0);
                lemma_sum_nonneg_bound(pops.update(hi, 0), curr_wraps as int, lo);
            }
            let new_pop = p1 + p2;
            let idx1_val = wraps[idx1 as usize].determine_index();
            let idx2_val = wraps[idx2 as usize].determine_index();
            assert(child_ok(idx1_val as int, self.nodes@.len() as int));
            assert(child_ok(idx2_val as int, self.nodes@.len() as int));
            let ghost old_nodes = self.nodes@;
            self.nodes.push(HuffNode { pop: new_pop, index0: idx1_val, index1: idx2_val });
            let new_node_idx = self.nodes.len() - 1;
            let mut merge_idx = idx1 as usize;
            let mut nuke_idx = idx2 as usize;
            if idx1 > idx2 {
                merge_idx = idx2 as usize;
                nuke_idx = idx1 as usize;
            }
            let ghost before_wraps = wraps@;
            wraps.set(merge_idx, HuffWrap { node_idx: new_node_idx as i32, leaf_idx: -1 });
            let ghost pops1 = pops.update(merge_idx as int, new_pop as int);
            if nuke_idx != curr_wraps - 1 {
                let last = wraps[curr_wraps - 1];
                wraps.set(nuke_idx, last);
            }
            proof {
                let n = curr_wraps as int;
                let pops2 = pops1.update(nuke_idx as int, pops1[n - 1]);
                lemma_sum_update(pops, n, merge_idx as int, new_pop as int);
                lemma_sum_update(pops1, n, nuke_idx as int, pops1[n - 1]);
                // Popularities of the remaining trees are unchanged by the new node.
                assert forall|k: int| 0 <= k < n implies #[trigger] before_wraps[k].pop_of(
                    self.nodes@,
                    self.leaves@,
                ) == before_wraps[k].pop_of(old_nodes, self.leaves@) by {
                    if before_wraps[k].node_idx >= 0 {
                        assert(self.nodes@[before_wraps[k].node_idx as int] == old_nodes[before_wraps[k].node_idx as int]);
                    }
                }
                assert(tree_ok_from(self.nodes@, 1)) by {
                    assert forall|j: int| 1 <= j < self.nodes@.len() implies child_ok(
                        #[trigger] self.nodes@[j].index0 as int,
                        j,
                    ) && child_ok(self.nodes@[j].index1 as int, j) by {
                        if j < old_nodes.len() {
                            assert(self.nodes@[j] == old_nodes[j]);
                            assert(tree_ok_from(old_nodes, 1));
                            assert(child_ok(old_nodes[j].index0 as int, j));
                        } else {
                            assert(j == old_nodes.len());
                            assert(self.nodes@[j].index0 == idx1_val);
                            assert(self.nodes@[j].index1 == idx2_val);
                        }
                    }
                }
                if nuke_idx as int == n - 1 {
                    // The last entry was the one dropped.
                    assert(sum_first(pops1, n) == sum_first(pops1, n - 1) + pops1[n - 1]);
                    assert(pops1[n - 1] == pops[nuke_idx as int]);
                    pops = pops1;
                } else {
                    assert(sum_first(pops2, n) == sum_first(pops2, n - 1) + pops2[n - 1]);
                    pops = pops2;
                }
                assert forall|k: int| 0 <= k < n - 1 implies (#[trigger] wraps@[k]).valid(self.nodes@.len() as int) by {
                    if k != merge_idx && k != nuke_idx {
                        assert(wraps@[k] == before_wraps[k]);
                    } else if k == nuke_idx {
                        assert(wraps@[k] == before_wraps[n - 1]);
                    }
                }
                assert forall|k: int| 0 <= k < n - 1 implies #[trigger] pops[k] == wraps@[k].pop_of(
                    self.nodes@,
                    self.leaves@,
                ) by {
                    if k != merge_idx && k != nuke_idx {
                        assert(wraps@[k] == before_wraps[k]);
                    } else if k == nuke_idx {
                        assert(wraps@[k] == before_wraps[n - 1]);
                    }
                }
                assert forall|k: int| 0 <= k < n - 1 implies #[trigger] pops[k] >= 0 by {
                    if k != merge_idx && k != nuke_idx {
                        assert(wraps@[k] == before_wraps[k]);
                    } else if k == nuke_idx {
                        assert(wraps@[k] == before_wraps[n - 1]);
                    }
                }
                if n == 2 {
                    assert(merge_idx == 0);
                }
                let ms = merge_step(initial_leaves(), old_nodes, before_wraps, n as nat);
                assert(pp == wrap_pops(old_nodes, initial_leaves(), before_wraps, n as nat));
                assert(self.nodes@ =~= ms.0);
                assert(wraps@ =~= ms.1);
            }
            curr_wraps = curr_wraps - 1;
        }
        let root_idx = wraps[0].node_idx as usize;
        let root = self.nodes[root_idx];
        let ghost built = self.nodes@;
        proof {
            assert(1 <= root_idx < built.len());
            assert(child_ok(built[root_idx as int].index0 as int, root_idx as int));
            assert(child_ok(built[root_idx as int].index1 as int, root_idx as int));
        }
        self.nodes.set(0, root);
        proof {
            assert(self.nodes@ =~= tribes_nodes());
            assert forall|j: int| 1 <= j < self.nodes@.len() implies self.nodes@[j] == built[j] by {}
            assert(tree_ok_from(self.nodes@, 0)) by {
                assert forall|j: int| 0 <= j < self.nodes@.len() implies child_ok(
                    #[trigger] self.nodes@[j].index0 as int,
                    if j == 0 { self.nodes@.len() as int } else { j },
                ) && child_ok(self.nodes@[j].index1 as int, if j == 0 { self.nodes@.len() as int } else { j }) by {
                    if j == 0 {
                        assert(self.nodes@[0] == built[root_idx as int]);
                    } else {
                        assert(self.nodes@[j] == built[j]);
                        assert(child_ok(built[j].index0 as int, j));
                    }
                }
            }
            assert(codes_consistent(self.nodes@, self.leaves@));
            assert(path_node(self.nodes@, Seq::<bool>::empty()) == Some(0int));
            assert(word_bits(0, 0) =~= Seq::<bool>::empty());
            vstd::arithmetic::power2::lemma2_to64();
        }
        self.generate_codes(0, 0, 0);
    }

    /// Assigns codes to the leaves below `index`, whose path from the root is
    /// the low `depth` bits of `code`. Subtrees deeper than 32 bits get no codes.
    fn generate_codes(&mut self, index: i16, code: u32, depth: u8)
        requires
            old(self).nodes@.len() >= 1,
            old(self).nodes@.len() < 32768,
            tree_ok_from(old(self).nodes@, 0),
            old(self).leaves@.len() == 256,
            codes_consistent(old(self).nodes@, old(self).leaves@),
            depth <= 32,
            depth < 32 ==> code < pow2(depth as nat),
            index >= 0 ==> 0 <= index < old(self).nodes@.len() && path_node(
                old(self).nodes@,
                word_bits(code, depth as nat),
            ) == Some(index as int),
            index < 0 ==> index >= -256 && depth >= 1 && path_leaf(
                old(self).nodes@,
                word_bits(code, depth as nat),
            ) == Some(-(index + 1)),
        ensures
            final(self).nodes@ == old(self).nodes@,
            final(self).leaves@.len() == 256,
            forall|k: int| 0 <= k < 256 ==> (#[trigger] final(self).leaves@[k]).symbol == old(self).leaves@[k].symbol,
            codes_consistent(final(self).nodes@, final(self).leaves@),
            final(self).leaves@ == assign_codes(
                old(self).nodes@,
                old(self).leaves@,
                index as int,
                code,
                depth as nat,
            ),
        decreases (if index < 0 {
            0
        } else if index == 0 {
            old(self).nodes@.len() as int
        } else {
            index as int
        }),
    {
        if index < 0 {
            let leaf_idx = (-(index + 1)) as usize;
            let mut leaf = self.leaves[leaf_idx];
            leaf.code = code;
            leaf.num_bits = if depth > 1 { depth } else { 1 };
            self.leaves.set(leaf_idx, leaf);
            proof {
                assert(leaf_code(leaf) == word_bits(code, depth as nat));
                assert forall|l: int| 0 <= l < 256 && has_code(#[trigger] self.leaves@[l]) implies path_leaf(
                    self.nodes@,
                    leaf_code(self.leaves@[l]),
                ) == Some(l) by {
                    if l != leaf_idx {
                        assert(self.leaves@[l] == old(self).leaves@[l]);
                    }
                }
            }
        } else {
            if depth >= 32 {
                return;
            }
            let node = self.nodes[index as usize];
            let ghost nodes = self.nodes@;
            let ghost p = word_bits(code, depth as nat);
            proof {
                vstd::arithmetic::power2::lemma_pow2_unfold((depth + 1) as nat);
                vstd::bits::lemma_u32_pow2_no_overflow(depth as nat);
                vstd::bits::lemma_u32_shl_is_mul(1, depth as u32);
                let d = depth as u32;
                assert(word_bits(code, (depth + 1) as nat) =~= p.push(false)) by {
                    assert(code < (1u32 << d) && d < 32 ==> (code >> d) & 1u32 == 0u32) by (bit_vector);
                }
                lemma_path_step(nodes, p, false);
                lemma_path_step(nodes, p, true);
            }
            let code1 = code | (1u32 << (depth as u32));
            proof {
                let d = depth as u32;
                assert(word_bits(code1, (depth + 1) as nat) =~= p.push(true)) by {
                    assert forall|k: int| 0 <= k < depth implies word_bit(code1, k) == word_bit(code, k) by {
                        let kk = k as u32;
                        assert(kk < d && d < 32 ==> ((code | (1u32 << d)) >> kk) & 1u32 == (code >> kk) & 1u32) by (bit_vector);
                    }
                    assert(d < 32 ==> ((code | (1u32 << d)) >> d) & 1u32 == 1u32) by (bit_vector);
                }
                assert(code1 < pow2((depth + 1) as nat)) by {
                    assert(code < (1u32 << d) && d < 31 ==> (code | (1u32 << d)) < (1u32 << ((d + 1) as u32))) by (bit_vector);
                    if d < 31 {
                        vstd::bits::lemma_u32_pow2_no_overflow((d + 1) as nat);
                        vstd::bits::lemma_u32_shl_is_mul(1, (d + 1) as u32);
                    } else {
                        vstd::arithmetic::power2::lemma2_to64();
                    }
                }
                assert(code < pow2((depth + 1) as nat));
            }
            self.generate_codes(node.index0, code, depth + 1);
            self.generate_codes(node.index1, code1, depth + 1);
        }
    }

    /// Encodes the UTF-8 bytes of `s`: a set compression flag, the length (at
    /// most 255), the code of every byte, 32 zero bits when the first byte is
    /// 128 or above, and zero bits to a byte boundary. Fails with
    /// `InvalidInput` when a byte has no code.
    pub fn encode_string(&self, s: &str) -> (r: Result<Vec<u8>, NetError>)
        requires
            self.wf(),
            s.spec_bytes().len() * 32 + 64 <= usize::MAX,
        ensures
            r is Ok <==> all_coded(self.leaves_view(), s.spec_bytes()),
            r matches Err(e) ==> e == NetError::InvalidInput,
            r matches Ok(out) ==> is_packing(out@, encoded_bits(self.leaves_view(), s.spec_bytes())),
    {
        let bytes = s.as_bytes();
        let ghost b = bytes@;
        let mut writer = BitStreamWriter::new();
        let _ = writer.write_bit(true);
        let n = bytes.len();
        let len_byte: u8 = if n < 255 {
            n as u8
        } else {
            255
        };
        let _ = writer.write_byte(len_byte);
        let ghost head = writer@;
        let mut skip32 = false;
        let mut i: usize = 0;
        proof {
            assert(b.take(0) =~= Seq::<u8>::empty());
            assert(head =~= head + codes_of(self.leaves@, b.take(0)));
        }
        while i < n
            invariant
                self.wf(),
                b == bytes@,
                b == s.spec_bytes(),
                n == b.len(),
                n * 32 + 64 <= usize::MAX,
                i <= n,
                writer.wf(),
                head.len() == 9,
                writer@ == head + codes_of(self.leaves@, b.take(i as int)),
                writer@.len() <= 9 + 32 * i,
                all_coded(self.leaves@, b.take(i as int)),
                skip32 == (i > 0 && b[0] >= 128),
            decreases n - i,
        {
            let byte = bytes[i];
            let leaf = self.leaves[byte as usize];
            proof {
                if has_code(leaf) {
                    assert(9 + 32 * i + 32 <= usize::MAX) by (nonlinear_arith)
                        requires
                            n * 32 + 64 <= usize::MAX,
                            i < n,
                    ;
                } else {
                    assert(!all_coded(self.leaves@, b)) by {
                        assert(self.leaves@[b[i as int] as int] == leaf);
                    }
                }
            }
            match writer.write_bits(leaf.code, leaf.num_bits as usize) {
                Ok(()) => {},
                Err(e) => {
                    return Err(e);
                },
            }
            if i == 0 && byte >= 128 {
                skip32 = true;
            }
            proof {
                assert(b.take(i + 1).drop_last() =~= b.take(i as int));
                assert(codes_of(self.leaves@, b.take(i + 1)) == codes_of(self.leaves@, b.take(i as int)) + leaf_code(leaf));
                assert(writer@ =~= head + codes_of(self.leaves@, b.take(i + 1)));
                assert forall|k: int| 0 <= k < i + 1 implies has_code(#[trigger] self.leaves@[b.take(i + 1)[k] as int]) by {
                    if k < i {
                        assert(b.take(i + 1)[k] == b.take(i as int)[k]);
                    }
                }
            }
            i = i + 1;
        }
        proof {
            assert(b.take(n as int) =~= b);
            assert(head =~= seq![true] + word_bits(len_byte as u32, 8));
        }
        let ghost body = writer@;
        if skip32 {
            let _ = writer.write_bits(0, 32);
            proof {
                lemma_word_bits_zero(32);
            }
        }
        proof {
            assert(writer@ =~= encoded_bits(self.leaves@, b));
        }
        let ghost unaligned = writer@;
        writer.align();
        let out = writer.into_bytes();
        proof {
            lemma_packing_of_aligned(out@, unaligned);
        }
        Ok(out)
    }

    /// Decodes a string: its characters and the number of bytes consumed. See
    /// `huffman_decode` for the outcome on every input.
    pub fn decode_string(&self, data: &[u8]) -> (r: Result<(String, usize), NetError>)
        requires
            self.wf(),
            data@.len() * 8 <= usize::MAX,
        ensures
            huffman_decode(self.nodes_view(), self.leaves_view(), data@) matches Ok((syms, n)) ==> r matches Ok((s, c)) && s@ == decode_utf8(syms) && c == n,
            huffman_decode(self.nodes_view(), self.leaves_view(), data@) matches Err(e) ==> r == Err::<(String, usize), NetError>(e),
    {
        let mut reader = BitStreamReader::new(data);
        let ghost bits = stream_bits(data@);
        let compressed = match reader.read_bit() {
            Ok(b) => b,
            Err(e) => {
                return Err(e);
            },
        };
        let len_byte = match reader.read_byte() {
            Ok(b) => b,
            Err(e) => {
                return Err(e);
            },
        };
        let len = len_byte as usize;
        if len == 0 {
            proof {
                assert(decode_utf8(Seq::<u8>::empty()) =~= Seq::<char>::empty());
            }
            return Ok((String::new(), 2));
        }
        if compressed {
            let mut buf: Vec<u8> = Vec::with_capacity(len);
            let mut skip32 = false;
            let mut i: usize = 0;
            while i < len
                invariant
                    self.wf(),
                    reader.wf(),
                    reader.bytes() == data@,
                    bits == stream_bits(data@),
                    i <= len,
                    len > 0,
                    bits.len() >= 9,
                    bits[0],
                    len == bits_value(bits.subrange(1, 9)),
                    decode_symbols(self.nodes@, self.leaves@, bits, 9, i as nat) == Some((buf@, reader.position() as int)),
                    skip32 == (i > 0 && buf@[0] >= 128),
                decreases len - i,
            {
                let mut index: i16 = 0;
                let ghost p0 = reader.position() as int;
                loop
                    invariant_except_break
                        self.wf(),
                        reader.wf(),
                        reader.bytes() == data@,
                        bits == stream_bits(data@),
                        index >= 0 ==> index < self.nodes@.len() && walk(self.nodes@, 0, bits, p0) == walk(self.nodes@, index as int, bits, reader.position() as int),
                        index < 0 ==> -256 <= index && walk(self.nodes@, 0, bits, p0) == Some((-(index + 1), reader.position() as int)),
                        decode_symbols(self.nodes@, self.leaves@, bits, 9, i as nat) == Some((buf@, p0)),
                        skip32 == (i > 0 && buf@[0] >= 128),
                        i < len,
                        len > 0,
                        bits.len() >= 9,
                        bits[0],
                        len == bits_value(bits.subrange(1, 9)),
                    ensures
                        reader.wf(),
                        reader.bytes() == data@,
                        decode_symbols(self.nodes@, self.leaves@, bits, 9, (i + 1) as nat) == Some((buf@, reader.position() as int)),
                        skip32 == (buf@[0] >= 128),
                    decreases reader.remaining(),
                {
                    if index < 0 {
                        let leaf_idx = (-(index + 1)) as usize;
                        let sym = self.leaves[leaf_idx].symbol;
                        buf.push(sym);
                        if i == 0 && sym >= 128 {
                            skip32 = true;
                        }
                        break;
                    }
                    let ghost pos = reader.position() as int;
                    let bit = match reader.read_bit() {
                        Ok(b) => b,
                        Err(e) => {
                            proof {
                                assert(walk(self.nodes@, index as int, bits, pos) is None);
                                assert(decode_symbols(self.nodes@, self.leaves@, bits, 9, (i + 1) as nat) is None);
                                lemma_decode_symbols_none(self.nodes@, self.leaves@, bits, (i + 1) as nat, len as nat);
                                assert(decode_symbols(self.nodes@, self.leaves@, bits, 9, len as nat) is None);
                                assert(bits_value(bits.subrange(1, 9)) != 0);
                                assert(bits[0]);
                                assert(stream_bits(data@).len() >= 9);
                                assert(e == NetError::UnexpectedEof);
                                assert(huffman_decode(self.nodes@, self.leaves@, data@) == Err::<(Seq<u8>, nat), NetError>(NetError::UnexpectedEof));
                            }
                            return Err(e);
                        },
                    };
                    let node = self.nodes[index as usize];
                    proof {
                        assert(tree_ok_from(self.nodes@, 0));
                        assert(child_ok(node.index0 as int, if index == 0 { self.nodes@.len() as int } else { index as int }));
                        assert(child_ok(node.index1 as int, if index == 0 { self.nodes@.len() as int } else { index as int }));
                        assert(bit == bits[pos]);
                    }
                    index = if bit {
                        node.index1
                    } else {
                        node.index0
                    };
                }
                i = i + 1;
            }
            if skip32 {
                match reader.skip_bits(32) {
                    Ok(()) => {},
                    Err(e) => {
                        return Err(e);
                    },
                }
            }
            let consumed = reader.byte_position();
            proof {
                let (syms, end) = decode_symbols(self.nodes@, self.leaves@, bits, 9, len as nat)->Some_0;
                assert(syms == buf@);
                assert(len > 0);
                assert(skip32 == (syms[0] >= 128));
                reader.lemma_position_bound();
                assert(reader.position() == if syms[0] >= 128 { end + 32 } else { end });
            }
            match string_from_utf8(buf) {
                Some(s) => Ok((s, consumed)),
                None => Err(NetError::InvalidData),
            }
        } else {
            let mut buf: Vec<u8> = Vec::with_capacity(len);
            let mut k: usize = 0;
            while k < len
                invariant
                    reader.wf(),
                    reader.bytes() == data@,
                    bits == stream_bits(data@),
                    k <= len,
                    len > 0,
                    bits.len() >= 9,
                    !bits[0],
                    len == bits_value(bits.subrange(1, 9)),
                    reader.position() == 9 + 8 * k,
                    buf@ == raw_symbols(bits, 9, len as nat).take(k as int),
                decreases len - k,
            {
                let byte = match reader.read_byte() {
                    Ok(b) => b,
                    Err(e) => {
                        return Err(e);
                    },
                };
                buf.push(byte);
                proof {
                    assert(buf@ =~= raw_symbols(bits, 9, len as nat).take(k + 1));
                }
                k = k + 1;
            }
            let consumed = reader.byte_position();
            proof {
                reader.lemma_position_bound();
                assert(raw_symbols(bits, 9, len as nat).take(len as int) =~= raw_symbols(bits, 9, len as nat));
            }
            match string_from_utf8(buf) {
                Some(s) => Ok((s, consumed)),
                None => Err(NetError::InvalidData),
            }
        }
    }

    /// Whether `b` is an ASCII letter or digit.
    fn is_alnum(b: u8) -> (r: bool)
        ensures
            r == ((48 <= b <= 57) || (65 <= b <= 90) || (97 <= b <= 122)),
    {
        (b >= 48 && b <= 57) || (b >= 65 && b <= 90) || (b >= 97 && b <= 122)
    }

    /// The Tribes character frequency table.
    fn get_freq_table() -> (t: [u32; 256])
        ensures
            t@ == tribes_freq(),
            forall|k: int| 0 <= k < 256 ==> #[trigger] t@[k] <= 2872,
    {
        [
            0, 0, 0, 0, 0, 0, 0, 0, 0, 329, 21, 0, 0, 0, 0, 0,
            0, 0, 0, 0, 0, 0, 0, 0, 0, 0, 0, 0, 0, 0, 0, 0,
            2809, 68, 0, 27, 0, 58, 3, 62, 4, 7, 0, 0, 15, 65, 554, 3,
            394, 404, 189, 117, 30, 51, 27, 15, 34, 32, 80, 1, 142, 3, 142, 39,
            0, 144, 125, 44, 122, 275, 70, 135, 61, 127, 8, 12, 113, 246, 122, 36,
            185, 1, 149, 309, 335, 12, 11, 14, 54, 151, 0, 0, 2, 0, 0, 211,
            0, 2090, 344, 736, 993, 2872, 701, 605, 646, 1552, 328, 305, 1240, 735, 1533, 1713,
            562, 3, 1775, 1149, 1469, 979, 407, 553, 59, 279, 31, 0, 0, 0, 68, 0,
            0, 0, 0, 0, 0, 0, 0, 0, 0, 0, 0, 0, 0, 0, 0, 0,
            0, 0, 0, 0, 0, 0, 0, 0, 0, 0, 0, 0, 0, 0, 0, 0,
            0, 0, 0, 0, 0, 0, 0, 0, 0, 0, 0, 0, 0, 0, 0, 0,
            0, 0, 0, 0, 0, 0, 0, 0, 0, 0, 0, 0, 0, 0, 0, 0,
            0, 0, 0, 0, 0, 0, 0, 0, 0, 0, 0, 0, 0, 0, 0, 0,
            0, 0, 0, 0, 0, 0, 0, 0, 0, 0, 0, 0, 0, 0, 0, 0,
            0, 0, 0, 0, 0, 0, 0, 0, 0, 0, 0, 0, 0, 0, 0, 0,
            0, 0, 0, 0, 0, 0, 0, 0, 0, 0, 0, 0, 0, 0, 0, 0,
        ]
    }
}

/// The codes of a concatenation are the concatenation of the codes.
proof fn lemma_codes_of_concat(leaves: Seq<HuffLeaf>, x: Seq<u8>, y: Seq<u8>)
    ensures
        codes_of(leaves, x + y) == codes_of(leaves, x) + codes_of(leaves, y),
    decreases y.len(),
{
    if y.len() == 0 {
        assert(x + y =~= x);
        assert(codes_of(leaves, x) + codes_of(leaves, y) =~= codes_of(leaves, x));
    } else {
        assert((x + y).drop_last() =~= x + y.drop_last());
        lemma_codes_of_concat(leaves, x, y.drop_last());
        assert(codes_of(leaves, x + y) =~= codes_of(leaves, x) + codes_of(leaves, y));
    }
}

/// Decoding the first `k` symbols of an encoding gives back the first `k` bytes.
proof fn lemma_decode_prefix(
    nodes: Seq<HuffNode>,
    leaves: Seq<HuffLeaf>,
    b: Seq<u8>,
    bits: Seq<bool>,
    k: nat,
)
    requires
        k <= b.len(),
        all_coded(leaves, b),
        codes_consistent(nodes, leaves),
        leaves.len() == 256,
        forall|i: int| 0 <= i < 256 ==> (#[trigger] leaves[i]).symbol == i,
        9 + codes_of(leaves, b).len() <= bits.len(),
        bits.subrange(9, (9 + codes_of(leaves, b).len()) as int) == codes_of(leaves, b),
    ensures
        decode_symbols(nodes, leaves, bits, 9, k) == Some(
            (b.take(k as int), 9 + codes_of(leaves, b.take(k as int)).len() as int),
        ),
    decreases k,
{
    if k == 0 {
        assert(b.take(0) =~= Seq::<u8>::empty());
    } else {
        let j = (k - 1) as nat;
        lemma_decode_prefix(nodes, leaves, b, bits, j);
        let p: int = 9 + codes_of(leaves, b.take(j as int)).len() as int;
        let sym = b[j as int];
        let code = leaf_code(leaves[sym as int]);
        assert(b.take(k as int).drop_last() =~= b.take(j as int));
        assert(codes_of(leaves, b.take(k as int)) == codes_of(leaves, b.take(j as int)) + code);
        assert(b =~= b.take(k as int) + b.skip(k as int));
        lemma_codes_of_concat(leaves, b.take(k as int), b.skip(k as int));
        let all = codes_of(leaves, b);
        assert(bits.subrange(p, (p + code.len()) as int) =~= code) by {
            assert forall|t: int| 0 <= t < code.len() implies bits[p + t] == code[t] by {
                assert(all[p - 9 + t] == code[t]);
                assert(bits.subrange(9, (9 + all.len()) as int)[p - 9 + t] == bits[p + t]);
            }
        }
        assert(has_code(leaves[sym as int]));
        assert(path_leaf(nodes, code) == Some(sym as int));
        lemma_walk_path(nodes, code, bits, p);
        assert(b.take(k as int) =~= b.take(j as int).push(sym));
    }
}

/// A string whose bytes all have codes, of at most 255 bytes, decodes from
/// its encoding to itself, consuming the whole encoding.
pub proof fn lemma_huffman_roundtrip(codec: &HuffmanCodec, s: Seq<char>, out: Seq<u8>)
    requires
        codec.wf(),
        all_coded(codec.leaves_view(), encode_utf8(s)),
        encode_utf8(s).len() <= 255,
        is_packing(out, encoded_bits(codec.leaves_view(), encode_utf8(s))),
    ensures
        huffman_decode(codec.nodes_view(), codec.leaves_view(), out) == Ok::<(Seq<u8>, nat), NetError>(
            (encode_utf8(s), out.len()),
        ),
        decode_utf8(encode_utf8(s)) == s,
{
    assert(out.subrange(0, out.len() as int) =~= out);
    lemma_huffman_roundtrip_in(codec, s, out, out);
}

/// Decoding bytes that start with the encoding of a string (as in the
/// roundtrip above) gives back the string, consuming just its encoding.
pub proof fn lemma_huffman_roundtrip_in(codec: &HuffmanCodec, s: Seq<char>, out: Seq<u8>, data: Seq<u8>)
    requires
        codec.wf(),
        all_coded(codec.leaves_view(), encode_utf8(s)),
        encode_utf8(s).len() <= 255,
        is_packing(out, encoded_bits(codec.leaves_view(), encode_utf8(s))),
        out.len() <= data.len(),
        data.subrange(0, out.len() as int) == out,
    ensures
        huffman_decode(codec.nodes_view(), codec.leaves_view(), data) == Ok::<(Seq<u8>, nat), NetError>(
            (encode_utf8(s), out.len()),
        ),
        decode_utf8(encode_utf8(s)) == s,
{
    let b = encode_utf8(s);
    let nodes = codec.nodes@;
    let leaves = codec.leaves@;
    let e = encoded_bits(leaves, b);
    let bits = stream_bits(data);
    let pad = (out.len() * 8 - e.len()) as nat;
    crate::bitstream::lemma_stream_bits_subrange(data, 0, out.len() as int);
    let head = bits.subrange(0, (out.len() * 8) as int);
    assert(head == e + zero_bits(pad));
    let n = b.len();
    let nb = n as u32;
    let codes = codes_of(leaves, b);
    let tail = if n > 0 && b[0] >= 128 { zero_bits(32) } else { Seq::<bool>::empty() };
    assert(e =~= seq![true] + word_bits(nb, 8) + codes + tail);
    assert(head[0]);
    assert(bits[0]);
    assert(bits.subrange(1, 9) =~= word_bits(nb, 8)) by {
        assert forall|t: int| 0 <= t < 8 implies bits.subrange(1, 9)[t] == word_bits(nb, 8)[t] by {
            assert(head[1 + t] == e[1 + t]);
        }
    }
    lemma_word_bits_value(nb, 8);
    vstd::arithmetic::power2::lemma2_to64();
    assert(bits_value(bits.subrange(1, 9)) == n);
    assert(bits.subrange(9, (9 + codes.len()) as int) =~= codes) by {
        assert forall|t: int| 0 <= t < codes.len() implies bits.subrange(9, (9 + codes.len()) as int)[t]
            == codes[t] by {
            assert(head[9 + t] == e[9 + t]);
        }
    }
    if n == 0 {
        assert(codes =~= Seq::<bool>::empty());
        assert(e.len() == 9);
        crate::bitstream::lemma_ceil_bytes(9);
        assert(b =~= Seq::<u8>::empty());
    } else {
        lemma_decode_prefix(nodes, leaves, b, bits, n);
        assert(b.take(n as int) =~= b);
    }
    vstd::utf8::encode_utf8_valid_utf8(s);
    vstd::utf8::encode_utf8_decode_utf8(s);
}

/// What decoding gives, apart from the compressed symbols: too few bits for
/// the flag and length is `UnexpectedEof`; a zero length is the empty string,
/// two bytes consumed; with the flag clear, the length's bytes follow
/// uncompressed, and they must all be there and be UTF-8.
pub proof fn lemma_decode_header(codec: &HuffmanCodec, data: Seq<u8>)
    ensures
        ({
            let bits = stream_bits(data);
            let r = huffman_decode(codec.nodes_view(), codec.leaves_view(), data);
            let len = bits_value(bits.subrange(1, 9));
            &&& bits.len() < 9 ==> r == Err::<(Seq<u8>, nat), NetError>(NetError::UnexpectedEof)
            &&& bits.len() >= 9 && len == 0 ==> r == Ok::<(Seq<u8>, nat), NetError>((Seq::empty(), 2))
            &&& bits.len() >= 9 && len > 0 && !bits[0] ==> r == if 9 + 8 * len > bits.len() {
                Err::<(Seq<u8>, nat), NetError>(NetError::UnexpectedEof)
            } else if !valid_utf8(raw_symbols(bits, 9, len)) {
                Err(NetError::InvalidData)
            } else {
                Ok((raw_symbols(bits, 9, len), ceil_bytes(9 + 8 * len)))
            }
        }),
{
}

/// A walk that reaches a leaf ends after the position it started from.
proof fn lemma_walk_advances(nodes: Seq<HuffNode>, idx: int, bits: Seq<bool>, pos: int)
    ensures
        walk(nodes, idx, bits, pos) matches Some((l, q)) ==> q > pos >= 0,
    decreases bits.len() - pos,
{
    if !(pos < 0 || pos >= bits.len() || !(0 <= idx < nodes.len())) {
        let c = child_of(nodes[idx], bits[pos]);
        if c >= 0 {
            lemma_walk_advances(nodes, c, bits, pos + 1);
        }
    }
}

/// A successful decode consumes no more bytes than it was given.
pub proof fn lemma_decode_consumed(codec: &HuffmanCodec, data: Seq<u8>)
    ensures
        huffman_decode(codec.nodes_view(), codec.leaves_view(), data) matches Ok((syms, n)) ==> n
            <= data.len(),
{
    let bits = stream_bits(data);
    assert(bits.len() == data.len() * 8);
    if bits.len() >= 9 {
        let len = bits_value(bits.subrange(1, 9));
        assert(ceil_bytes(bits.len()) == data.len());
        if len == 0 {
            assert(data.len() >= 2);
        } else if bits[0] {
            match decode_symbols(codec.nodes@, codec.leaves@, bits, 9, len) {
                Some((syms, end)) => {
                    let prev = decode_symbols(codec.nodes@, codec.leaves@, bits, 9, (len - 1) as nat);
                    let p = prev->Some_0.1;
                    lemma_walk_advances(codec.nodes@, 0, bits, p);
                    assert(end >= 1);
                    let end2 = if syms[0] >= 128 { end + 32 } else { end };
                    if 0 <= end2 <= bits.len() {
                        assert(ceil_bytes(end2 as nat) <= ceil_bytes(bits.len()));
                    }
                },
                None => {},
            }
        } else if 9 + 8 * len <= bits.len() {
            assert(ceil_bytes((9 + 8 * len) as nat) <= ceil_bytes(bits.len()));
        }
    }
}

/// The encoding of bytes that all have codes takes at most 32 bits per byte
/// and 41 bits more.
pub proof fn lemma_encoded_len(codec: &HuffmanCodec, b: Seq<u8>)
    requires
        codec.wf(),
        all_coded(codec.leaves_view(), b),
    ensures
        9 <= encoded_bits(codec.leaves_view(), b).len() <= 32 * b.len() + 41,
{
    lemma_encoded_bits_len(codec.leaves@, b);
}

/// The encoding of bytes that all have codes takes between 9 and
/// `32 * len + 41` bits.
pub proof fn lemma_encoded_bits_len(leaves: Seq<HuffLeaf>, b: Seq<u8>)
    requires
        all_coded(leaves, b),
    ensures
        9 <= encoded_bits(leaves, b).len() <= 32 * b.len() + 41,
{
    lemma_codes_of_len(leaves, b);
}

/// The codes of bytes that all have codes take at most 32 bits each.
pub proof fn lemma_codes_of_len(leaves: Seq<HuffLeaf>, s: Seq<u8>)
    requires
        all_coded(leaves, s),
    ensures
        codes_of(leaves, s).len() <= 32 * s.len(),
    decreases s.len(),
{
    if s.len() > 0 {
        assert(all_coded(leaves, s.drop_last())) by {
            assert forall|i: int| 0 <= i < s.drop_last().len() implies has_code(
                #[trigger] leaves[s.drop_last()[i] as int],
            ) by {
                assert(s.drop_last()[i] == s[i]);
            }
        }
        lemma_codes_of_len(leaves, s.drop_last());
        assert(has_code(leaves[s[s.len() - 1] as int]));
    }
}

/// The empty string decodes from its encoding to the empty string, reported
/// as the two bytes of its encoding consumed.
pub proof fn lemma_huffman_empty(codec: &HuffmanCodec, out: Seq<u8>)
    requires
        codec.wf(),
        is_packing(out, encoded_bits(codec.leaves_view(), Seq::<u8>::empty())),
    ensures
        huffman_decode(codec.nodes_view(), codec.leaves_view(), out) == Ok::<(Seq<u8>, nat), NetError>(
            (Seq::<u8>::empty(), 2),
        ),
{
    let e = encoded_bits(codec.leaves@, Seq::<u8>::empty());
    let bits = stream_bits(out);
    assert(codes_of(codec.leaves@, Seq::<u8>::empty()) =~= Seq::<bool>::empty());
    assert(e =~= seq![true] + word_bits(0, 8));
    assert(bits.subrange(1, 9) =~= word_bits(0, 8));
    lemma_word_bits_value(0, 8);
    vstd::arithmetic::power2::lemma2_to64();
}

} // verus!
