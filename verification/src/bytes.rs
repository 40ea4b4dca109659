//! Little-endian numbers in byte buffers: what a run of bytes stands for, and how
//! a number is written down.

use vstd::prelude::*;

verus! {

/// The number that `b` stands for, least significant byte first.
pub open spec fn le_value(b: Seq<u8>) -> int
    decreases b.len(),
{
    if b.len() == 0 {
        0
    } else {
        b[0] + 256 * le_value(b.subrange(1, b.len() as int))
    }
}

/// The `n` least significant bytes of `v`, least significant first.
pub open spec fn le_bytes(v: int, n: nat) -> Seq<u8>
    decreases n,
{
    if n == 0 {
        Seq::empty()
    } else {
        seq![(v % 256) as u8] + le_bytes(v / 256, (n - 1) as nat)
    }
}

/// The number in the `n` bytes at `off`.
pub open spec fn field_at(b: Seq<u8>, off: int, n: int) -> int {
    le_value(b.subrange(off, off + n))
}

/// How many values `n` bytes have.
pub open spec fn byte_range(n: nat) -> int
    decreases n,
{
    if n == 0 {
        1
    } else {
        256 * byte_range((n - 1) as nat)
    }
}

/// The ranges of the widths in use.
pub proof fn byte_ranges()
    ensures
        byte_range(1) == 0x100,
        byte_range(2) == 0x1_0000,
        byte_range(4) == 0x1_0000_0000,
        byte_range(8) == 0x1_0000_0000_0000_0000,
        byte_range(16) == u128::MAX + 1,
{
    reveal_with_fuel(byte_range, 17);
}

/// A byte string stands for a number in the range of its width.
pub proof fn le_value_in_range(b: Seq<u8>)
    ensures
        0 <= le_value(b) < byte_range(b.len()),
    decreases b.len(),
{
    if b.len() > 0 {
        le_value_in_range(b.subrange(1, b.len() as int));
    }
}

/// `n` bytes are written.
pub proof fn le_bytes_len(v: int, n: nat)
    ensures
        le_bytes(v, n).len() == n,
    decreases n,
{
    if n > 0 {
        le_bytes_len(v / 256, (n - 1) as nat);
    }
}

/// Reading gives back the number that was written.
pub proof fn le_read_of_write(v: int, n: nat)
    requires
        0 <= v < byte_range(n),
    ensures
        le_value(le_bytes(v, n)) == v,
    decreases n,
{
    if n > 0 {
        let rest = le_bytes(v / 256, (n - 1) as nat);
        let all = le_bytes(v, n);
        le_bytes_len(v, n);
        le_bytes_len(v / 256, (n - 1) as nat);
        le_read_of_write(v / 256, (n - 1) as nat);
        assert(all.subrange(1, all.len() as int) =~= rest);
    }
}

/// Writing gives back the bytes that were read.
pub proof fn le_write_of_read(b: Seq<u8>)
    ensures
        le_bytes(le_value(b), b.len()) == b,
    decreases b.len(),
{
    if b.len() > 0 {
        let rest = b.subrange(1, b.len() as int);
        le_write_of_read(rest);
        assert(le_bytes(le_value(b), b.len()) =~= b);
    }
}

/// A field depends on its own bytes only.
pub proof fn field_at_frame(a: Seq<u8>, b: Seq<u8>, off: int, n: int)
    requires
        0 <= off,
        0 <= n,
        off + n <= a.len(),
        off + n <= b.len(),
        forall|j: int| off <= j < off + n ==> a[j] == b[j],
    ensures
        field_at(a, off, n) == field_at(b, off, n),
{
    assert(a.subrange(off, off + n) =~= b.subrange(off, off + n));
}

/// Read the number in the `n` bytes at `off`.
pub fn read_le(src: &[u8], off: usize, n: usize) -> (r: u128)
    requires
        n <= 16,
        off + n <= src@.len(),
    ensures
        r == field_at(src@, off as int, n as int),
{
    let len: usize = src.len();
    let mut acc: u128 = 0;
    let mut i: usize = n;
    proof {
        assert(src@.subrange(off + n, off + n).len() == 0);
    }
    while i > 0
        invariant
            i <= n <= 16,
            off + n <= src@.len(),
            src@.len() == len,
            acc == le_value(src@.subrange(off + i, off + n)),
        decreases i,
    {
        i = i - 1;
        proof {
            let part = src@.subrange(off + i, off + n);
            assert(part.subrange(1, part.len() as int) =~= src@.subrange(off + i + 1, off + n));
            le_value_in_range(part);
            lemma_byte_range_mono(part.len(), 16);
            byte_ranges();
        }
        acc = src[off + i] as u128 + 256 * acc;
    }
    acc
}

proof fn lemma_byte_range_mono(a: nat, b: nat)
    requires
        a <= b,
    ensures
        0 < byte_range(a) <= byte_range(b),
    decreases b,
{
    if a < b {
        lemma_byte_range_mono(a, (b - 1) as nat);
    } else if a > 0 {
        lemma_byte_range_mono((a - 1) as nat, (b - 1) as nat);
    }
}

/// Append the `n` bytes of `v`.
pub fn push_le(out: &mut Vec<u8>, v: u128, n: usize)
    requires
        old(out)@.len() + n <= usize::MAX,
    ensures
        final(out)@ == old(out)@ + le_bytes(v as int, n as nat),
    decreases n,
{
    let ghost was = out@;
    if n > 0 {
        out.push((v % 256) as u8);
        push_le(out, v / 256, n - 1);
    }
    proof {
        assert(out@ =~= was + le_bytes(v as int, n as nat));
    }
}

/// The thirty-two bytes at `off`.
pub open spec fn key_at(b: Seq<u8>, off: int) -> Seq<u8> {
    b.subrange(off, off + 32)
}

/// `b` begins with `a`: what stands in `a` stands there in `b`.
pub open spec fn extends(a: Seq<u8>, b: Seq<u8>) -> bool {
    &&& a.len() <= b.len()
    &&& forall|j: int| 0 <= j < a.len() ==> #[trigger] b[j] == a[j]
    &&& forall|o: int, w: int| 0 <= o && 0 <= w && o + w <= a.len() ==> #[trigger] field_at(b, o, w) == field_at(a, o, w)
    &&& forall|o: int| 0 <= o && o + 32 <= a.len() ==> #[trigger] key_at(b, o) == key_at(a, o)
}

/// Appending leaves what stands before.
pub proof fn append_extends(a: Seq<u8>, c: Seq<u8>)
    ensures
        extends(a, a + c),
{
    assert forall|o: int, w: int| 0 <= o && 0 <= w && o + w <= a.len() implies #[trigger] field_at(a + c, o, w)
        == field_at(a, o, w) by {
        field_at_frame(a, a + c, o, w);
    }
    assert forall|o: int| 0 <= o && o + 32 <= a.len() implies #[trigger] key_at(a + c, o) == key_at(a, o) by {
        assert(key_at(a + c, o) =~= key_at(a, o));
    }
}

/// Append `v` as a field of `n` bytes.
pub fn append_le(out: &mut Vec<u8>, v: u128, n: usize)
    requires
        old(out)@.len() + n <= usize::MAX,
        v < byte_range(n as nat),
    ensures
        final(out)@.len() == old(out)@.len() + n,
        field_at(final(out)@, old(out)@.len() as int, n as int) == v,
        extends(old(out)@, final(out)@),
{
    let ghost was = out@;
    push_le(out, v, n);
    proof {
        append_extends(was, le_bytes(v as int, n as nat));
        le_bytes_len(v as int, n as nat);
        le_read_of_write(v as int, n as nat);
        assert(out@.subrange(was.len() as int, was.len() + n) =~= le_bytes(v as int, n as nat));
    }
}

/// Append thirty-two bytes.
pub fn append_key(out: &mut Vec<u8>, k: &[u8; 32])
    requires
        old(out)@.len() + 32 <= usize::MAX,
    ensures
        final(out)@.len() == old(out)@.len() + 32,
        key_at(final(out)@, old(out)@.len() as int) == k@,
        extends(old(out)@, final(out)@),
{
    let ghost was = out@;
    push_slice(out, k);
    proof {
        append_extends(was, k@);
        assert(key_at(out@, was.len() as int) =~= k@);
    }
}

/// Append `n` zero bytes.
pub fn append_zeros(out: &mut Vec<u8>, n: usize)
    requires
        old(out)@.len() + n <= usize::MAX,
    ensures
        final(out)@.len() == old(out)@.len() + n,
        final(out)@ == old(out)@ + Seq::new(n as nat, |i: int| 0u8),
        extends(old(out)@, final(out)@),
{
    let ghost was = out@;
    let z: Vec<u8> = zeros(n);
    push_slice(out, z.as_slice());
    proof {
        append_extends(was, z@);
    }
}

/// A buffer of `n` zero bytes.
pub fn zeros(n: usize) -> (r: Vec<u8>)
    ensures
        r@ == Seq::new(n as nat, |i: int| 0u8),
{
    let mut r: Vec<u8> = Vec::new();
    let mut i: usize = 0;
    while i < n
        invariant
            i <= n,
            r@.len() == i,
            forall|j: int| 0 <= j < i ==> r@[j] == 0u8,
        decreases n - i,
    {
        r.push(0);
        i = i + 1;
    }
    assert(r@ =~= Seq::new(n as nat, |i: int| 0u8));
    r
}

/// Copy thirty-two bytes at `off`.
pub fn read_32(src: &[u8], off: usize) -> (r: [u8; 32])
    requires
        off + 32 <= src@.len(),
    ensures
        r@ == src@.subrange(off as int, off + 32),
{
    let len: usize = src.len();
    let mut r: [u8; 32] = [0; 32];
    let mut i: usize = 0;
    while i < 32
        invariant
            i <= 32,
            src@.len() == len,
            off + 32 <= src@.len(),
            forall|j: int| 0 <= j < i ==> r@[j] == src@[off + j],
        decreases 32 - i,
    {
        r[i] = src[off + i];
        i = i + 1;
    }
    assert(r@ =~= src@.subrange(off as int, off + 32));
    r
}

/// Append a slice.
pub fn push_slice(out: &mut Vec<u8>, s: &[u8])
    ensures
        final(out)@ == old(out)@ + s@,
{
    let ghost was = out@;
    let mut i: usize = 0;
    while i < s.len()
        invariant
            i <= s@.len(),
            out@ == was + s@.subrange(0, i as int),
        decreases s@.len() - i,
    {
        out.push(s[i]);
        i = i + 1;
        assert(out@ =~= was + s@.subrange(0, i as int));
    }
    assert(s@.subrange(0, s@.len() as int) =~= s@);
    assert(was + s@.subrange(0, 0) =~= was);
}

/// Write `src` over the beginning of `dst`.
pub fn overwrite(dst: &mut [u8], src: &[u8])
    requires
        src@.len() <= old(dst)@.len(),
    ensures
        final(dst)@ == src@ + old(dst)@.subrange(src@.len() as int, old(dst)@.len() as int),
{
    let ghost was = dst@;
    let mut i: usize = 0;
    while i < src.len()
        invariant
            i <= src@.len() <= was.len(),
            dst@.len() == was.len(),
            forall|j: int| 0 <= j < i ==> dst@[j] == src@[j],
            forall|j: int| i <= j < was.len() ==> dst@[j] == was[j],
        decreases src@.len() - i,
    {
        dst[i] = src[i];
        i = i + 1;
    }
    proof {
        assert(dst@ =~= src@ + was.subrange(src@.len() as int, was.len() as int));
    }
}

/// Copy a slice into a buffer.
pub fn copy_of(s: &[u8]) -> (r: Vec<u8>)
    ensures
        r@ == s@,
{
    let mut r: Vec<u8> = Vec::new();
    push_slice(&mut r, s);
    assert(r@ =~= s@);
    r
}

/// Whether two byte strings are the same.
pub fn same_bytes(a: &[u8], b: &[u8]) -> (r: bool)
    ensures
        r == (a@ == b@),
{
    if a.len() != b.len() {
        return false;
    }
    let mut i: usize = 0;
    while i < a.len()
        invariant
            i <= a@.len(),
            a@.len() == b@.len(),
            forall|j: int| 0 <= j < i ==> a@[j] == b@[j],
        decreases a@.len() - i,
    {
        if a[i] != b[i] {
            return false;
        }
        i = i + 1;
    }
    assert(a@ =~= b@);
    true
}

/// The two's complement image of a signed value.
pub open spec fn twos(v: int) -> int {
    if v < 0 {
        v + u128::MAX + 1
    } else {
        v
    }
}

/// The two's complement image of `v`.
pub fn to_twos(v: i128) -> (r: u128)
    ensures
        r == twos(v as int),
{
    if v >= 0 {
        v as u128
    } else {
        u128::MAX - (-(v + 1)) as u128
    }
}

/// The signed value with this two's complement image.
pub fn from_twos(u: u128) -> (r: i128)
    ensures
        twos(r as int) == u,
{
    if u <= i128::MAX as u128 {
        u as i128
    } else {
        -((u128::MAX - u) as i128) - 1
    }
}

} // verus!
