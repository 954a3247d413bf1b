use vstd::prelude::*;

verus! {

/// The little-endian 32-bit word stored in `bytes` at byte offset `at`.
pub open spec fn le_word(bytes: Seq<u8>, at: int) -> u32 {
    (bytes[at] as int + 256 * bytes[at + 1] as int + 65536 * bytes[at + 2] as int + 16777216
        * bytes[at + 3] as int) as u32
}

/// The three words of the `k`-th vertex of `bytes`: its x, y and z components,
/// each as the bit pattern of a 32-bit float.
pub open spec fn vertex_words(bytes: Seq<u8>, k: int) -> [u32; 3] {
    [le_word(bytes, 12 * k), le_word(bytes, 12 * k + 4), le_word(bytes, 12 * k + 8)]
}

/// All whole vertices of `bytes`, in order; a trailing group of fewer than
/// twelve bytes makes no vertex.
pub open spec fn decoded_vertices(bytes: Seq<u8>) -> Seq<[u32; 3]> {
    Seq::new((bytes.len() / 12) as nat, |k: int| vertex_words(bytes, k))
}

/// Reads the little-endian word at byte offset `at`.
fn read_le_word(bytes: &[u8], at: usize) -> (w: u32)
    requires
        at + 4 <= bytes@.len(),
    ensures
        w == le_word(bytes@, at as int),
{
    let b0: u32 = bytes[at] as u32;
    let b1: u32 = bytes[at + 1] as u32;
    let b2: u32 = bytes[at + 2] as u32;
    let b3: u32 = bytes[at + 3] as u32;
    b0 + 256 * b1 + 65536 * b2 + 16777216 * b3
}

/// Appends to `loadme` the vertices that `bytes` holds: every twelve bytes
/// are three little-endian 32-bit words, one vertex; a trailing group of
/// fewer than twelve bytes is ignored.
pub fn load_data(loadme: &mut Vec<[u32; 3]>, bytes: &[u8])
    ensures
        final(loadme)@ == old(loadme)@ + decoded_vertices(bytes@),
        final(loadme)@.len() == old(loadme)@.len() + bytes@.len() / 12,
        forall|k: int, j: int|
            0 <= k < bytes@.len() / 12 && 0 <= j < 3 ==> #[trigger] final(loadme)@[old(loadme)@.len()
                + k][j] == bytes@[12 * k + 4 * j] + 256 * bytes@[12 * k + 4 * j + 1] + 65536
                * bytes@[12 * k + 4 * j + 2] + 16777216 * bytes@[12 * k + 4 * j + 3],
{
    let len: usize = bytes.len();
    let n: usize = len / 12;
    let ghost start = loadme@;
    let mut k: usize = 0;
    while k < n
        invariant
            len == bytes@.len(),
            n == len / 12,
            k <= n,
            loadme@ =~= start + decoded_vertices(bytes@).take(k as int),
        decreases n - k,
    {
        assert(12 * k + 12 <= bytes@.len()) by (nonlinear_arith)
            requires
                k < n,
                n == len / 12,
                len == bytes@.len(),
        ;
        let at: usize = 12 * k;
        let x = read_le_word(bytes, at);
        let y = read_le_word(bytes, at + 4);
        let z = read_le_word(bytes, at + 8);
        let v: [u32; 3] = [x, y, z];
        assert(v =~= vertex_words(bytes@, k as int));
        loadme.push(v);
        k = k + 1;
        assert(decoded_vertices(bytes@).take(k as int) =~= decoded_vertices(bytes@).take(
            (k - 1) as int,
        ).push(v));
    }
    assert(decoded_vertices(bytes@).take(n as int) =~= decoded_vertices(bytes@));
    assert forall|k: int, j: int| 0 <= k < bytes@.len() / 12 && 0 <= j < 3 implies #[trigger] loadme@[start.len()
        + k][j] == bytes@[12 * k + 4 * j] + 256 * bytes@[12 * k + 4 * j + 1] + 65536 * bytes@[12 * k
        + 4 * j + 2] + 16777216 * bytes@[12 * k + 4 * j + 3] by {
        lemma_decoded_vertex_word(bytes@, k, j);
        assert(loadme@[start.len() + k] == decoded_vertices(bytes@)[k]);
    }
}

/// The `j`-th component of the `k`-th vertex is the little-endian word made of
/// bytes `12k + 4j` to `12k + 4j + 3`: the lowest byte first, each next byte
/// worth 256 times the one before.
pub proof fn lemma_decoded_vertex_word(bytes: Seq<u8>, k: int, j: int)
    requires
        0 <= k < bytes.len() / 12,
        0 <= j < 3,
    ensures
        decoded_vertices(bytes)[k][j] == bytes[12 * k + 4 * j] + 256 * bytes[12 * k + 4 * j + 1]
            + 65536 * bytes[12 * k + 4 * j + 2] + 16777216 * bytes[12 * k + 4 * j + 3],
{
    assert(12 * k + 11 < bytes.len()) by (nonlinear_arith)
        requires
            0 <= k < bytes.len() / 12,
    ;
    let w = vertex_words(bytes, k);
    assert(decoded_vertices(bytes)[k] == w);
    let at = 12 * k + 4 * j;
    let sum = bytes[at] + 256 * bytes[at + 1] + 65536 * bytes[at + 2] + 16777216 * bytes[at + 3];
    assert(0 <= sum < 0x1_0000_0000);
    assert(w@[j] == le_word(bytes, at));
}


/// Reading a file in pieces gives the same vertices as reading it whole, as
/// long as every piece but the last is a whole number of vertices long.
pub proof fn lemma_decoded_vertices_concat(a: Seq<u8>, b: Seq<u8>)
    requires
        a.len() % 12 == 0,
    ensures
        decoded_vertices(a + b) == decoded_vertices(a) + decoded_vertices(b),
{
    let q: int = (a.len() / 12) as int;
    let qb: int = (b.len() / 12) as int;
    assert(a.len() == 12 * q);
    assert(b.len() == 12 * qb + b.len() % 12);
    assert((a + b).len() / 12 == q + qb) by (nonlinear_arith)
        requires
            (a + b).len() == 12 * q + 12 * qb + b.len() % 12,
            0 <= b.len() % 12 < 12,
    ;
    let lhs = decoded_vertices(a + b);
    let rhs = decoded_vertices(a) + decoded_vertices(b);
    assert forall|k: int| 0 <= k < lhs.len() implies #[trigger] lhs[k] == rhs[k] by {
        if k < q {
            assert(12 * k + 11 < a.len());
            assert(vertex_words(a + b, k) =~= vertex_words(a, k));
        } else {
            let j = k - q;
            assert(j < qb);
            assert(12 * j + 11 < b.len());
            assert(12 * k == a.len() + 12 * j);
            assert(vertex_words(a + b, k) =~= vertex_words(b, j));
        }
    }
    assert(lhs =~= rhs);
}

} // verus!
