//! Replacing every occurrence of a prefix inside a byte buffer.
use vstd::prelude::*;
use crate::text::occurs_at;
use vstd::utf8::encode_utf8;
use memchr::memmem;

verus! {

/// The start of every occurrence of `needle` in `hay` found scanning from
/// `pos`: the leftmost one, then the leftmost one at or after its end (one
/// byte further for an empty needle), and so on. An empty needle matches at
/// every position, the end included.
pub open spec fn positions_from(hay: Seq<u8>, needle: Seq<u8>, pos: int) -> Seq<int>
    decreases hay.len() + 1 - pos,
{
    if pos < 0 || pos > hay.len() {
        seq![]
    } else if occurs_at(hay, needle, pos) {
        seq![pos] + positions_from(hay, needle, pos + if needle.len() == 0 { 1 } else { needle.len() as int })
    } else {
        positions_from(hay, needle, pos + 1)
    }
}

/// The non-overlapping occurrences of `needle` in `hay`, leftmost first.
pub open spec fn positions(hay: Seq<u8>, needle: Seq<u8>) -> Seq<int> {
    positions_from(hay, needle, 0)
}

/// `hay[cur..]` with the occurrence at each of `ps` (each `old_len` long)
/// replaced by `to`.
pub open spec fn splice(hay: Seq<u8>, ps: Seq<int>, old_len: int, to: Seq<u8>, cur: int) -> Seq<u8>
    decreases ps.len(),
{
    if ps.len() == 0 {
        hay.subrange(cur, hay.len() as int)
    } else {
        hay.subrange(cur, ps[0]) + to + splice(hay, ps.drop_first(), old_len, to, ps[0] + old_len)
    }
}

/// `hay` with every occurrence of `from` replaced by `to`.
pub open spec fn replace_all(hay: Seq<u8>, from: Seq<u8>, to: Seq<u8>) -> Seq<u8> {
    splice(hay, positions(hay, from), from.len() as int, to, 0)
}

/// The occurrences found from `pos` are in order, inside `hay`, and far
/// enough apart not to overlap.
proof fn lemma_positions_shape(hay: Seq<u8>, needle: Seq<u8>, pos: int)
    requires
        pos >= 0,
    ensures
        forall|k: int| 0 <= k < positions_from(hay, needle, pos).len() ==> pos <= #[trigger] positions_from(hay, needle, pos)[k]
            && positions_from(hay, needle, pos)[k] + needle.len() <= hay.len()
            && occurs_at(hay, needle, positions_from(hay, needle, pos)[k]),
        forall|k1: int, k2: int| 0 <= k1 < k2 < positions_from(hay, needle, pos).len() ==> #[trigger] positions_from(hay, needle, pos)[k2]
            >= #[trigger] positions_from(hay, needle, pos)[k1] + needle.len(),
    decreases hay.len() + 1 - pos,
{
    if pos > hay.len() {
    } else if occurs_at(hay, needle, pos) {
        let step = if needle.len() == 0 { 1 } else { needle.len() as int };
        lemma_positions_shape(hay, needle, pos + step);
        let rest = positions_from(hay, needle, pos + step);
        assert(positions_from(hay, needle, pos) == seq![pos] + rest);
        assert(step >= needle.len());
        assert forall|k1: int, k2: int| 0 <= k1 < k2 < positions_from(hay, needle, pos).len() implies #[trigger] positions_from(hay, needle, pos)[k2]
            >= #[trigger] positions_from(hay, needle, pos)[k1] + needle.len() by {
            assert(positions_from(hay, needle, pos)[k2] == rest[k2 - 1]);
            if k1 > 0 {
                assert(positions_from(hay, needle, pos)[k1] == rest[k1 - 1]);
            } else {
                assert(rest[k2 - 1] >= pos + step);
            }
        }
        assert forall|k: int| 0 <= k < positions_from(hay, needle, pos).len() implies pos <= #[trigger] positions_from(hay, needle, pos)[k]
            && positions_from(hay, needle, pos)[k] + needle.len() <= hay.len()
            && occurs_at(hay, needle, positions_from(hay, needle, pos)[k]) by {
            if k > 0 {
                assert(positions_from(hay, needle, pos)[k] == rest[k - 1]);
            }
        }
    } else {
        lemma_positions_shape(hay, needle, pos + 1);
        assert(positions_from(hay, needle, pos) == positions_from(hay, needle, pos + 1));
    }
}

/// No occurrence at all means no positions.
proof fn lemma_positions_absent(hay: Seq<u8>, needle: Seq<u8>, pos: int)
    requires
        forall|i: int| !occurs_at(hay, needle, i),
    ensures
        positions_from(hay, needle, pos).len() == 0,
    decreases hay.len() + 1 - pos,
{
    if pos >= 0 && pos <= hay.len() {
        lemma_positions_absent(hay, needle, pos + 1);
    }
}

/// Putting each occurrence back in place rebuilds `hay[cur..]`.
proof fn lemma_splice_same(hay: Seq<u8>, needle: Seq<u8>, pos: int, cur: int)
    requires
        0 <= cur <= pos,
        cur <= hay.len(),
    ensures
        splice(hay, positions_from(hay, needle, pos), needle.len() as int, needle, cur) == hay.subrange(cur, hay.len() as int),
    decreases hay.len() + 1 - pos,
{
    if pos > hay.len() {
    } else if occurs_at(hay, needle, pos) {
        let step = if needle.len() == 0 { 1 } else { needle.len() as int };
        let rest = positions_from(hay, needle, pos + step);
        assert(positions_from(hay, needle, pos) == seq![pos] + rest);
        assert((seq![pos] + rest).drop_first() == rest);
        lemma_splice_same(hay, needle, pos + step, pos + needle.len());
        assert(hay.subrange(pos, pos + needle.len()) == needle);
        assert(hay.subrange(cur, pos) + needle + hay.subrange(pos + needle.len(), hay.len() as int)
            =~= hay.subrange(cur, hay.len() as int));
    } else {
        assert(positions_from(hay, needle, pos) == positions_from(hay, needle, pos + 1));
        lemma_splice_same(hay, needle, pos + 1, cur);
    }
}

/// Replacing every occurrence of a string by itself changes nothing.
pub proof fn lemma_replace_same(hay: Seq<u8>, x: Seq<u8>)
    ensures
        replace_all(hay, x, x) == hay,
{
    lemma_splice_same(hay, x, 0, 0);
    assert(hay.subrange(0, hay.len() as int) == hay);
}

/// The start of each non-overlapping occurrence of `needle` in `hay`
/// (`memchr::memmem::Finder::find_iter`).
#[verifier::external_body]
fn find_all(hay: &[u8], needle: &[u8]) -> (r: Vec<usize>)
    ensures
        r@.map_values(|p: usize| p as int) == positions(hay@, needle@),
{
    memmem::Finder::new(needle).find_iter(hay).collect()
}

/// Appends `src[lo..hi]` to `out`.
fn push_bytes(out: &mut Vec<u8>, src: &[u8], lo: usize, hi: usize)
    requires
        lo <= hi <= src@.len(),
    ensures
        final(out)@ == old(out)@ + src@.subrange(lo as int, hi as int),
{
    let mut i = lo;
    while i < hi
        invariant
            lo <= i <= hi <= src@.len(),
            out@ == old(out)@ + src@.subrange(lo as int, i as int),
        decreases hi - i,
    {
        out.push(src[i]);
        assert(src@.subrange(lo as int, i + 1) == src@.subrange(lo as int, i as int).push(src@[i as int]));
        i = i + 1;
    }
}

/// Returns `input` with every non-overlapping occurrence of `from`
/// (leftmost first) replaced by `to`.
pub fn replace_prefix_in_bytes(input: &[u8], from: &str, to: &str) -> (r: Vec<u8>)
    ensures
        r@ == replace_all(input@, encode_utf8(from@), encode_utf8(to@)),
        !crate::text::contains_seq(input@, encode_utf8(from@)) ==> r@ == input@,
{
    let old_b = from.as_bytes();
    let new_b = to.as_bytes();
    let found = find_all(input, old_b);
    let ghost ps = positions(input@, old_b@);
    proof {
        lemma_positions_shape(input@, old_b@, 0);
        assert(found@.len() == ps.len());
        assert forall|k: int| 0 <= k < found@.len() implies found@[k] as int == #[trigger] ps[k] by {
            assert(found@.map_values(|p: usize| p as int)[k] == found@[k] as int);
        }
    }
    let mut out: Vec<u8> = Vec::new();
    let mut cursor: usize = 0;
    let mut k: usize = 0;
    let ilen = input.len();
    assert(ps.skip(0) == ps);
    assert(out@ + replace_all(input@, old_b@, new_b@) == replace_all(input@, old_b@, new_b@));
    while k < found.len()
        invariant
            k <= found@.len(),
            ilen == input@.len(),
            found@.len() == ps.len(),
            forall|j: int| 0 <= j < found@.len() ==> found@[j] as int == #[trigger] ps[j],
            forall|j: int| 0 <= j < ps.len() ==> 0 <= #[trigger] ps[j] && ps[j] + old_b@.len() <= input@.len(),
            forall|j1: int, j2: int| 0 <= j1 < j2 < ps.len() ==> #[trigger] ps[j2] >= #[trigger] ps[j1] + old_b@.len(),
            k > 0 ==> cursor == ps[k - 1] + old_b@.len(),
            k == 0 ==> cursor == 0,
            cursor <= input@.len(),
            k < ps.len() ==> cursor <= ps[k as int],
            out@ + splice(input@, ps.skip(k as int), old_b@.len() as int, new_b@, cursor as int) == replace_all(
                input@, old_b@, new_b@),
        decreases found.len() - k,
    {
        let pos = found[k];
        assert(pos as int == ps[k as int]);
        assert(pos + old_b@.len() <= ilen);
        assert(ps.skip(k as int)[0] == ps[k as int]);
        assert(ps.skip(k as int).drop_first() == ps.skip(k + 1));
        push_bytes(&mut out, input, cursor, pos);
        push_bytes(&mut out, new_b, 0, new_b.len());
        assert(new_b@.subrange(0, new_b@.len() as int) == new_b@);
        cursor = pos + old_b.len();
        k = k + 1;
        proof {
            if k < ps.len() {
                assert(ps[k as int] >= ps[k - 1] + old_b@.len());
            }
        }
    }
    assert(ps.skip(k as int) =~= Seq::<int>::empty());
    push_bytes(&mut out, input, cursor, input.len());
    proof {
        if !crate::text::contains_seq(input@, old_b@) {
            lemma_positions_absent(input@, old_b@, 0);
            assert(input@.subrange(0, input@.len() as int) == input@);
        }
    }
    out
}

} // verus!
